//! Verified core of a Minecraft launcher: version ordering, Maven coordinates,
//! mirror URL rewriting, Forge processor argument resolution, loader metadata
//! and authentication result decisions.
#![allow(unused_imports)]

pub mod text;
pub mod num;
pub mod version;
pub mod mcversion;
pub mod paths;
pub mod maven;
pub mod mirror;
pub mod forge;
pub mod datetime;
pub mod urlcode;
pub mod loader;
pub mod provider;
pub mod forgelist;
pub mod checksum;
pub mod installer;
pub mod metalibs;
pub mod liteloader;
pub mod forgeinstall;
pub mod installers;
pub mod auth;
pub mod curseforge;
pub mod json;
pub mod ftb;
pub mod retry;
pub mod forgehtml;
pub mod modrinth;
pub mod modpack;
pub mod libjson;
pub mod rollback;
pub mod ftbsearch;
pub mod cfsearch;
