//! Libraries of the loader profiles served by the Fabric-style metadata services
//! (Fabric, Quilt, Legacy Fabric, Babric): where each goes under the game directory,
//! where it is downloaded from, and which of them still have to be fetched.
use vstd::prelude::*;
use crate::text::{
    chars_of, push_all, replace_all, replace_exec, seq_eq, string_of,
};
use crate::maven::{maven_path, maven_path_chars};
use crate::paths::{combined_path, path_combine_chars, path_join, path_join_chars, PathStyle};
use crate::installer::{miss_file, miss_views, MissFileData, MissFileView};

verus! {

/// A value under a key of a library's `natives` object.
pub enum NativeValue {
    Null,
    Text(String),
    Other,
}

/// An entry of a library's `natives` object.
pub struct NativeEntry {
    pub os: String,
    pub value: NativeValue,
}

/// An entry of a profile's `libraries` array: its `name`, `url` and `sha1` texts (none
/// when absent or not text) and the entries of its `natives` object, if it has one.
pub struct MetaLibrary {
    pub name: Option<String>,
    pub url: Option<String>,
    pub sha1: Option<String>,
    pub natives: Option<Vec<NativeEntry>>,
}

pub open spec fn opt_chars(s: Option<String>) -> Seq<char> {
    match s {
        Some(t) => t@,
        None => Seq::empty(),
    }
}

/// The value under the first key equal to `os`.
pub open spec fn native_for(entries: Seq<NativeEntry>, os: Seq<char>) -> Option<NativeValue>
    decreases entries.len(),
{
    if entries.len() == 0 {
        None
    } else if entries[0].os@ == os {
        Some(entries[0].value)
    } else {
        native_for(entries.skip(1), os)
    }
}

pub open spec fn arch_token() -> Seq<char> {
    "${arch}"@
}

/// The library's name; when its `natives` object has a
/// non-null value for the running system, the name, a colon and that value (text, or
/// empty otherwise) with `${arch}` replaced by the architecture; empty without a name.
pub open spec fn maven_name_with_classifier(lib: MetaLibrary, os: Seq<char>, arch: Seq<char>) -> Seq<char> {
    let name = opt_chars(lib.name);
    if name.len() == 0 {
        Seq::empty()
    } else {
        match lib.natives {
            None => name,
            Some(entries) => match native_for(entries@, os) {
                None => name,
                Some(NativeValue::Null) => name,
                Some(NativeValue::Text(c)) => name + seq![':'] + replace_all(c@, arch_token(), arch),
                Some(NativeValue::Other) => name + seq![':'],
            },
        }
    }
}

fn native_for_exec<'a>(entries: &'a Vec<NativeEntry>, os: &[char]) -> (r: Option<&'a NativeValue>)
    ensures
        match (r, native_for(entries@, os@)) {
            (Some(a), Some(b)) => *a == b,
            (None, None) => true,
            _ => false,
        },
{
    let mut i: usize = 0;
    assert(entries@.skip(0) =~= entries@);
    while i < entries.len()
        invariant
            i <= entries.len(),
            native_for(entries@, os@) == native_for(entries@.skip(i as int), os@),
        decreases entries.len() - i,
    {
        proof {
            assert(entries@.skip(i as int)[0] == entries@[i as int]);
            assert(entries@.skip(i as int).skip(1) =~= entries@.skip(i + 1));
        }
        if seq_eq(chars_of(entries[i].os.as_str()).as_slice(), os) {
            return Some(&entries[i].value);
        }
        i = i + 1;
    }
    None
}

/// The library's Maven name with its native classifier, for the running system's name
/// and architecture.
pub fn get_maven_name_with_classifier(lib: &MetaLibrary, os_name: &str, arch: &str) -> (r: String)
    ensures
        r@ == maven_name_with_classifier(*lib, os_name@, arch@),
{
    let name = match &lib.name {
        Some(n) => chars_of(n.as_str()),
        None => Vec::new(),
    };
    if name.len() == 0 {
        return string_of(name.as_slice());
    }
    match &lib.natives {
        None => string_of(name.as_slice()),
        Some(entries) => {
            let os = chars_of(os_name);
            match native_for_exec(entries, os.as_slice()) {
                None => string_of(name.as_slice()),
                Some(NativeValue::Null) => string_of(name.as_slice()),
                Some(NativeValue::Text(c)) => {
                    let token = chars_of("${arch}");
                    proof {
                        reveal_strlit("${arch}");
                    }
                    let mut r = name;
                    r.push(':');
                    push_all(&mut r, replace_exec(chars_of(c.as_str()).as_slice(), token.as_slice(), chars_of(arch).as_slice()).as_slice());
                    string_of(r.as_slice())
                },
                Some(NativeValue::Other) => {
                    let mut r = name;
                    r.push(':');
                    string_of(r.as_slice())
                },
            }
        },
    }
}

// ---------------------------------------------------------------------------
// Download targets
// ---------------------------------------------------------------------------

/// The domain a library is fetched from: its own non-empty `url`, else the service's.
pub open spec fn url_domain(lib: MetaLibrary, base: Seq<char>) -> Seq<char> {
    if opt_chars(lib.url).len() > 0 {
        opt_chars(lib.url)
    } else {
        base
    }
}

fn url_domain_exec(lib: &MetaLibrary, base: &str) -> (r: Vec<char>)
    ensures
        r@ == url_domain(*lib, base@),
{
    match &lib.url {
        Some(u) => {
            let c = chars_of(u.as_str());
            if c.len() > 0 {
                c
            } else {
                chars_of(base)
            }
        },
        None => chars_of(base),
    }
}

/// Where a Babric or Legacy Fabric library goes and comes from: under
/// `{game_dir}/libraries` (joined as `Path::join` does) at the Maven path of its
/// classified name, fetched from the domain followed by that path.
pub open spec fn classified_library_file(lib: MetaLibrary, base: Seq<char>, game_dir: Seq<char>, os: Seq<char>, arch: Seq<char>, style: PathStyle) -> MissFileView {
    let mp = maven_path(maven_name_with_classifier(lib, os, arch));
    MissFileView {
        name: opt_chars(lib.name),
        path: path_join(path_join(game_dir, "libraries"@, style), mp, style),
        url: url_domain(lib, base) + mp,
        sha1: opt_chars(lib.sha1),
    }
}

pub open spec fn classified_library_files(libs: Seq<MetaLibrary>, base: Seq<char>, game_dir: Seq<char>, os: Seq<char>, arch: Seq<char>, style: PathStyle) -> Seq<MissFileView> {
    Seq::new(libs.len(), |i: int| classified_library_file(libs[i], base, game_dir, os, arch, style))
}

fn opt_chars_exec(s: &Option<String>) -> (r: Vec<char>)
    ensures
        r@ == opt_chars(*s),
{
    match s {
        Some(t) => chars_of(t.as_str()),
        None => Vec::new(),
    }
}

/// The download targets of the libraries of a Babric or Legacy Fabric profile, in
/// profile order.
pub fn classified_library_targets(
    libs: &Vec<MetaLibrary>,
    base: &str,
    game_dir: &str,
    os_name: &str,
    arch: &str,
    style: PathStyle,
) -> (r: Vec<MissFileData>)
    ensures
        miss_views(r@) == classified_library_files(libs@, base@, game_dir@, os_name@, arch@, style),
{
    let mut r: Vec<MissFileData> = Vec::new();
    let libraries = chars_of("libraries");
    let lib_dir = path_join_chars(chars_of(game_dir).as_slice(), libraries.as_slice(), style);
    let mut i: usize = 0;
    while i < libs.len()
        invariant
            i <= libs.len(),
            libraries@ == "libraries"@,
            lib_dir@ == path_join(game_dir@, "libraries"@, style),
            r@.len() == i,
            forall|k: int|
                0 <= k < i ==> #[trigger] r@[k]@ == classified_library_file(libs@[k], base@, game_dir@, os_name@, arch@, style),
        decreases libs.len() - i,
    {
        let lib = &libs[i];
        let maven_name = get_maven_name_with_classifier(lib, os_name, arch);
        let mp = maven_path_chars(chars_of(maven_name.as_str()).as_slice());
        let path = path_join_chars(lib_dir.as_slice(), mp.as_slice(), style);
        let mut url = url_domain_exec(lib, base);
        push_all(&mut url, mp.as_slice());
        let x = miss_file(opt_chars_exec(&lib.name).as_slice(), path.as_slice(), url.as_slice(), opt_chars_exec(&lib.sha1).as_slice());
        r.push(x);
        i = i + 1;
    }
    proof {
        assert(miss_views(r@) =~= classified_library_files(libs@, base@, game_dir@, os_name@, arch@, style));
    }
    r
}

/// A profile library without a name.
#[derive(Debug, PartialEq, Eq)]
pub enum ProfileError {
    LibraryWithoutName,
}

/// Every library of the profile has a name.
pub open spec fn all_named(libs: Seq<MetaLibrary>) -> bool {
    forall|i: int| 0 <= i < libs.len() ==> (#[trigger] libs[i]).name is Some
}

pub open spec fn official_fabric_meta() -> Seq<char> {
    "https://meta.fabricmc.net/"@
}

/// The download link of a Fabric library: `path_combine(domain, maven path)`; when the
/// service is not the official one, the official metadata and Maven domains become
/// their BMCLAPI mirrors.
pub open spec fn fabric_library_url(domain: Seq<char>, mp: Seq<char>, service: Seq<char>, style: PathStyle) -> Seq<char> {
    let u = combined_path(domain, mp, style);
    if service == official_fabric_meta() {
        u
    } else {
        replace_all(
            replace_all(u, official_fabric_meta(), "https://bmclapi2.bangbang93.com/fabric-meta"@),
            "https://maven.fabricmc.net/"@,
            "https://bmclapi2.bangbang93.com/maven"@,
        )
    }
}

/// Where a Fabric (`fabric` true) or Quilt library goes and comes from: under
/// `path_combine(path_combine(game_dir, "libraries"), maven path)`; Fabric links are
/// built as `fabric_library_url` says, Quilt links are the domain followed by the path.
pub open spec fn profile_library_file(lib: MetaLibrary, service: Seq<char>, game_dir: Seq<char>, fabric: bool, style: PathStyle) -> MissFileView {
    let mp = maven_path(opt_chars(lib.name));
    MissFileView {
        name: opt_chars(lib.name),
        path: combined_path(combined_path(game_dir, "libraries"@, style), mp, style),
        url: if fabric {
            fabric_library_url(url_domain(lib, service), mp, service, style)
        } else {
            url_domain(lib, service) + mp
        },
        sha1: opt_chars(lib.sha1),
    }
}

pub open spec fn profile_library_files(libs: Seq<MetaLibrary>, service: Seq<char>, game_dir: Seq<char>, fabric: bool, style: PathStyle) -> Seq<MissFileView> {
    Seq::new(libs.len(), |i: int| profile_library_file(libs[i], service, game_dir, fabric, style))
}

/// The download targets of the libraries of a Fabric (`fabric` true) or Quilt profile
/// from the service at `service`, in profile order; refused when a library has no name.
pub fn profile_library_targets(
    libs: &Vec<MetaLibrary>,
    service: &str,
    game_dir: &str,
    fabric: bool,
    style: PathStyle,
) -> (r: Result<Vec<MissFileData>, ProfileError>)
    ensures
        match r {
            Ok(v) => all_named(libs@) && miss_views(v@) == profile_library_files(libs@, service@, game_dir@, fabric, style),
            Err(e) => !all_named(libs@) && e == ProfileError::LibraryWithoutName,
        },
{
    let mut r: Vec<MissFileData> = Vec::new();
    let libraries = chars_of("libraries");
    let lib_dir = path_combine_chars(chars_of(game_dir).as_slice(), libraries.as_slice(), style);
    let svc = chars_of(service);
    let official = chars_of("https://meta.fabricmc.net/");
    let meta_from = chars_of("https://meta.fabricmc.net/");
    let meta_to = chars_of("https://bmclapi2.bangbang93.com/fabric-meta");
    let maven_from = chars_of("https://maven.fabricmc.net/");
    let maven_to = chars_of("https://bmclapi2.bangbang93.com/maven");
    proof {
        reveal_strlit("https://meta.fabricmc.net/");
        reveal_strlit("https://maven.fabricmc.net/");
    }
    let mut i: usize = 0;
    while i < libs.len()
        invariant
            i <= libs.len(),
            libraries@ == "libraries"@,
            lib_dir@ == combined_path(game_dir@, "libraries"@, style),
            svc@ == service@,
            official@ == official_fabric_meta(),
            meta_from@ == official_fabric_meta(),
            meta_to@ == "https://bmclapi2.bangbang93.com/fabric-meta"@,
            maven_from@ == "https://maven.fabricmc.net/"@,
            maven_to@ == "https://bmclapi2.bangbang93.com/maven"@,
            meta_from.len() > 0,
            maven_from.len() > 0,
            r@.len() == i,
            forall|k: int| 0 <= k < i ==> (#[trigger] libs@[k]).name is Some,
            forall|k: int|
                0 <= k < i ==> #[trigger] r@[k]@ == profile_library_file(libs@[k], service@, game_dir@, fabric, style),
        decreases libs.len() - i,
    {
        let lib = &libs[i];
        let name = match &lib.name {
            Some(n) => chars_of(n.as_str()),
            None => {
                return Err(ProfileError::LibraryWithoutName);
            },
        };
        let mp = maven_path_chars(name.as_slice());
        let path = path_combine_chars(lib_dir.as_slice(), mp.as_slice(), style);
        let domain = url_domain_exec(lib, service);
        let url = if fabric {
            let u = path_combine_chars(domain.as_slice(), mp.as_slice(), style);
            if seq_eq(svc.as_slice(), official.as_slice()) {
                u
            } else {
                let u1 = replace_exec(u.as_slice(), meta_from.as_slice(), meta_to.as_slice());
                replace_exec(u1.as_slice(), maven_from.as_slice(), maven_to.as_slice())
            }
        } else {
            let mut u = domain;
            push_all(&mut u, mp.as_slice());
            u
        };
        let x = miss_file(name.as_slice(), path.as_slice(), url.as_slice(), opt_chars_exec(&lib.sha1).as_slice());
        r.push(x);
        i = i + 1;
    }
    proof {
        assert(miss_views(r@) =~= profile_library_files(libs@, service@, game_dir@, fabric, style));
    }
    Ok(r)
}

/// The targets that still have to be fetched: those whose file is not `current` (not
/// present with a matching SHA-1), in order.
pub open spec fn still_missing(files: Seq<MissFileData>, current: Seq<bool>) -> Seq<MissFileData>
    decreases files.len(),
{
    if files.len() == 0 {
        Seq::empty()
    } else {
        let r = still_missing(files.drop_last(), current.take(files.len() - 1));
        if current[files.len() - 1] {
            r
        } else {
            r.push(files.last())
        }
    }
}

/// Drops the targets whose file is already current.
pub fn keep_missing(files: Vec<MissFileData>, current: &Vec<bool>) -> (r: Vec<MissFileData>)
    requires
        current.len() == files.len(),
    ensures
        r@ == still_missing(files@, current@),
{
    let ghost all = files@;
    assert(all.len() == files.len());
    let mut rest = files;
    let mut kept: Vec<MissFileData> = Vec::new();
    let mut i: usize = 0;
    proof {
        assert(all.take(0) =~= Seq::<MissFileData>::empty());
        assert(rest@ =~= all.skip(0));
    }
    while rest.len() > 0
        invariant
            all.len() <= usize::MAX,
            current.len() == all.len(),
            i + rest@.len() == all.len(),
            rest@ == all.skip(i as int),
            kept@ == still_missing(all.take(i as int), current@.take(i as int)),
        decreases rest@.len(),
    {
        let x = rest.remove(0);
        proof {
            assert(x == all[i as int]);
            assert(all.take(i + 1).drop_last() =~= all.take(i as int));
            assert(all.take(i + 1).last() == x);
            assert(current@.take(i + 1).take(i as int) =~= current@.take(i as int));
            assert(current@.take(i + 1)[i as int] == current@[i as int]);
            assert(rest@ =~= all.skip(i + 1));
        }
        if !current[i] {
            kept.push(x);
        }
        i = i + 1;
    }
    proof {
        assert(all.take(i as int) =~= all);
        assert(current@.take(i as int) =~= current@);
    }
    kept
}

} // verus!
