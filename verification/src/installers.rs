//! Download settings of the Fabric-family, OptiFine and Modrinth modpack installers.
use vstd::prelude::*;
use crate::mirror::DownloadMirror;
use crate::text::{chars_of, push_all, split_any, split_any_exec, string_of};
use crate::paths::{combined_path, path_combine, PathStyle};

verus! {

/// The Fabric installer: metadata service and game directory.
pub struct FabricInstaller {
    pub download_source: String,
    pub game_dir: String,
}

impl FabricInstaller {
    /// Setting 1 reads Fabric's metadata from the BMCLAPI mirror, every other setting
    /// from meta.fabricmc.net.
    pub fn new(download_source: i32, game_dir: String) -> (r: FabricInstaller)
        ensures
            r.download_source@ == (if download_source == 1 {
                "https://bmclapi2.bangbang93.com/fabric-meta/"@
            } else {
                "https://meta.fabricmc.net/"@
            }),
            r.game_dir@ == game_dir@,
    {
        let download_source = if download_source == 1 {
            String::from_str("https://bmclapi2.bangbang93.com/fabric-meta/")
        } else {
            String::from_str("https://meta.fabricmc.net/")
        };
        FabricInstaller { download_source, game_dir }
    }
}

/// The Quilt installer: metadata service and game directory.
pub struct QuiltInstaller {
    pub download_source: String,
    pub game_dir: String,
}

impl QuiltInstaller {
    /// Setting 1 reads Quilt's metadata from the BMCLAPI mirror, every other setting
    /// from meta.quiltmc.org.
    pub fn new(download_source: i32, game_dir: String) -> (r: QuiltInstaller)
        ensures
            r.download_source@ == (if download_source == 1 {
                "https://bmclapi2.bangbang93.com/quilt-meta/"@
            } else {
                "https://meta.quiltmc.org/"@
            }),
            r.game_dir@ == game_dir@,
    {
        let download_source = if download_source == 1 {
            String::from_str("https://bmclapi2.bangbang93.com/quilt-meta/")
        } else {
            String::from_str("https://meta.quiltmc.org/")
        };
        QuiltInstaller { download_source, game_dir }
    }
}

/// The Babric installer: the game directory.
pub struct BabricInstaller {
    pub game_dir: String,
}

impl BabricInstaller {
    /// The mirror preference is not used: Babric has a single metadata service.
    pub fn new(download_source: DownloadMirror, game_dir: String) -> (r: BabricInstaller)
        ensures
            r.game_dir@ == game_dir@,
    {
        BabricInstaller { game_dir }
    }
}

/// The Legacy Fabric installer: metadata service and game directory.
pub struct LegacyFabricInstaller {
    pub download_source: String,
    pub game_dir: String,
}

impl LegacyFabricInstaller {
    /// The mirror preference is not used: metadata always comes from meta.legacyfabric.net.
    pub fn new(download_source: DownloadMirror, game_dir: String) -> (r: LegacyFabricInstaller)
        ensures
            r.download_source@ == "https://meta.legacyfabric.net/"@,
            r.game_dir@ == game_dir@,
    {
        LegacyFabricInstaller { download_source: String::from_str("https://meta.legacyfabric.net/"), game_dir }
    }
}

/// The OptiFine installer: download service, game directory and game version.
pub struct OptiFineInstaller {
    pub download_source: String,
    pub game_dir: String,
    pub game_version: String,
}

impl OptiFineInstaller {
    /// Setting 0 downloads from optifine.net, every other setting from BMCLAPI.
    pub fn new(source_id: i32, game_dir: String, game_version: String) -> (r: OptiFineInstaller)
        ensures
            r.download_source@ == (if source_id == 0 {
                "https://optifine.net/download"@
            } else {
                "https://bmclapi2.bangbang93.com/optifine"@
            }),
            r.game_dir@ == game_dir@,
            r.game_version@ == game_version@,
    {
        let download_source = if source_id == 0 {
            String::from_str("https://optifine.net/download")
        } else {
            String::from_str("https://bmclapi2.bangbang93.com/optifine")
        };
        OptiFineInstaller { download_source, game_dir, game_version }
    }
}

/// The parts of an OptiFine version `{type}-{patch}`: exactly two pieces around `-`.
pub open spec fn optifine_parts(v: Seq<char>) -> Option<(Seq<char>, Seq<char>)> {
    let ps = split_any(v, seq!['-']);
    if ps.len() == 2 {
        Some((ps[0], ps[1]))
    } else {
        None
    }
}

/// Splits an OptiFine version `{type}-{patch}` (none unless it has exactly two pieces).
pub fn split_optifine_version(mod_loader_version: &str) -> (r: Option<(String, String)>)
    ensures
        match (r, optifine_parts(mod_loader_version@)) {
            (Some((t, p)), Some((a, b))) => t@ == a && p@ == b,
            (None, None) => true,
            _ => false,
        },
{
    let dash = chars_of("-");
    proof {
        reveal_strlit("-");
        assert(dash@ =~= seq!['-']);
    }
    let ps = split_any_exec(chars_of(mod_loader_version).as_slice(), dash.as_slice());
    if ps.len() == 2 {
        Some((string_of(ps[0].as_slice()), string_of(ps[1].as_slice())))
    } else {
        None
    }
}

pub open spec fn optifine_download_url(source: Seq<char>, game: Seq<char>, edition: Seq<char>, patch: Seq<char>) -> Seq<char> {
    source + seq!['/'] + game + seq!['/'] + edition + seq!['/'] + patch
}

pub open spec fn optifine_installer_name(game: Seq<char>, edition: Seq<char>, patch: Seq<char>) -> Seq<char> {
    game + seq!['_'] + edition + seq!['_'] + patch + ".jar"@
}

/// Where OptiFine's library jar goes: `libraries/optifine/OptiFine/{game}_{a}_{b}/OptiFine-{game}_{a}_{b}.jar`
/// with `a` and `b` the second and third `_` pieces of the version name.
pub open spec fn optifine_library_path(game_dir: Seq<char>, game: Seq<char>, version_id: Seq<char>, style: PathStyle) -> Option<Seq<char>> {
    let ps = split_any(version_id, seq!['_']);
    if ps.len() < 3 {
        None
    } else {
        let part = ps[1] + seq!['_'] + ps[2];
        Some(
            combined_path(
                combined_path(
                    combined_path(combined_path(combined_path(game_dir, "libraries"@, style), "optifine"@, style), "OptiFine"@, style),
                    game + seq!['_'] + part,
                    style,
                ),
                "OptiFine-"@ + game + seq!['_'] + part + ".jar"@,
                style,
            ),
        )
    }
}

impl OptiFineInstaller {
    /// Where an OptiFine installer is fetched from and the name it is saved under.
    pub fn installer_download(&self, edition: &str, patch: &str) -> (r: (String, String))
        ensures
            r.0@ == optifine_download_url(self.download_source@, self.game_version@, edition@, patch@),
            r.1@ == optifine_installer_name(self.game_version@, edition@, patch@),
    {
        let mut u = chars_of(self.download_source.as_str());
        u.push('/');
        push_all(&mut u, chars_of(self.game_version.as_str()).as_slice());
        u.push('/');
        push_all(&mut u, chars_of(edition).as_slice());
        u.push('/');
        push_all(&mut u, chars_of(patch).as_slice());
        let mut n = chars_of(self.game_version.as_str());
        n.push('_');
        push_all(&mut n, chars_of(edition).as_slice());
        n.push('_');
        push_all(&mut n, chars_of(patch).as_slice());
        push_all(&mut n, chars_of(".jar").as_slice());
        (string_of(u.as_slice()), string_of(n.as_slice()))
    }

    /// Where the patched OptiFine library is written (see `optifine_library_path`); none
    /// for a version name with fewer than three `_` pieces.
    pub fn library_path(&self, version_id: &str, style: PathStyle) -> (r: Option<String>)
        ensures
            match (r, optifine_library_path(self.game_dir@, self.game_version@, version_id@, style)) {
                (Some(p), Some(q)) => p@ == q,
                (None, None) => true,
                _ => false,
            },
    {
        let us = chars_of("_");
        proof {
            reveal_strlit("_");
            assert(us@ =~= seq!['_']);
        }
        let ps = split_any_exec(chars_of(version_id).as_slice(), us.as_slice());
        if ps.len() < 3 {
            return None;
        }
        let mut part: Vec<char> = Vec::new();
        push_all(&mut part, ps[1].as_slice());
        part.push('_');
        push_all(&mut part, ps[2].as_slice());
        let mut dir_name = chars_of(self.game_version.as_str());
        dir_name.push('_');
        push_all(&mut dir_name, part.as_slice());
        let mut jar = chars_of("OptiFine-");
        push_all(&mut jar, chars_of(self.game_version.as_str()).as_slice());
        jar.push('_');
        push_all(&mut jar, part.as_slice());
        push_all(&mut jar, chars_of(".jar").as_slice());
        let a = path_combine(self.game_dir.as_str(), "libraries", style);
        let b = path_combine(a.as_str(), "optifine", style);
        let c = path_combine(b.as_str(), "OptiFine", style);
        let d = path_combine(c.as_str(), string_of(dir_name.as_slice()).as_str(), style);
        Some(path_combine(d.as_str(), string_of(jar.as_slice()).as_str(), style))
    }
}

/// The Modrinth modpack installer: game directory, version isolation and the pack file.
pub struct ModrinthModpackInstaller {
    pub game_dir: String,
    pub version_isolation: bool,
    pub modpack_file_path: String,
}

impl ModrinthModpackInstaller {
    pub fn new(game_dir: &str, version_isolation: bool, modpack_file_path: &str) -> (r: ModrinthModpackInstaller)
        ensures
            r.game_dir@ == game_dir@,
            r.version_isolation == version_isolation,
            r.modpack_file_path@ == modpack_file_path@,
    {
        ModrinthModpackInstaller {
            game_dir: String::from_str(game_dir),
            version_isolation,
            modpack_file_path: String::from_str(modpack_file_path),
        }
    }
}

} // verus!
