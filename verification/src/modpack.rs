//! Modpack archives: where the entries of a pack's `override/` directory are released.
use vstd::prelude::*;
use crate::text::{ascii_lower, chars_of, eq_ignore_case, eq_ignore_case_exec, slice_vec, string_of};
use crate::paths::{join_path, path_join, PathStyle};

verus! {

/// Where an archive entry goes, and whether it is a directory.
#[derive(Debug, PartialEq, Eq)]
pub struct OverrideTarget {
    pub path: String,
    pub is_dir: bool,
}

pub open spec fn override_prefix() -> Seq<char> {
    "override/"@
}

/// An entry under `override/` (ASCII case aside) goes to its path below that directory,
/// joined to the version directory; an entry whose name ends in `/` is a directory.
/// Every other entry is not released.
pub open spec fn override_target(name: Seq<char>, version_dir: Seq<char>, style: PathStyle) -> Option<(Seq<char>, bool)> {
    if name.len() >= 9 && eq_ignore_case(name.take(9), override_prefix()) {
        Some((path_join(version_dir, name.skip(9), style), name.last() == '/'))
    } else {
        None
    }
}

/// The target of one archive entry when a Modrinth pack is installed.
pub fn override_entry_target(entry_name: &str, version_dir: &str, style: PathStyle) -> (r: Option<OverrideTarget>)
    ensures
        match (r, override_target(entry_name@, version_dir@, style)) {
            (Some(t), Some((p, d))) => t.path@ == p && t.is_dir == d,
            (None, None) => true,
            _ => false,
        },
{
    let name = chars_of(entry_name);
    if name.len() < 9 {
        return None;
    }
    let head = slice_vec(name.as_slice(), 0, 9);
    let prefix = chars_of("override/");
    proof {
        assert(head@ =~= name@.take(9));
    }
    if !eq_ignore_case_exec(head.as_slice(), prefix.as_slice()) {
        return None;
    }
    let rel = slice_vec(name.as_slice(), 9, name.len());
    proof {
        assert(rel@ =~= name@.skip(9));
    }
    let path = join_path(version_dir, string_of(rel.as_slice()).as_str(), style);
    Some(OverrideTarget { path, is_dir: name[name.len() - 1] == '/' })
}

} // verus!
