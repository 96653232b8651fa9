//! FTB modpacks: which files of a pack version, and which of its CurseForge-hosted
//! mods, have to be downloaded, and where they go.
use vstd::prelude::*;
use crate::text::{chars_of, replace_all, replace_exec, string_of, trim_start_char, trim_start_char_exec};
use crate::paths::{join_path, path_join, PathStyle};
use crate::installer::{miss_views, MissFileData, MissFileView};
use crate::metalibs::opt_chars;
use crate::num::{parse_i32, parse_i32_exec};

verus! {

/// A file of an FTB pack version.
pub struct FtbFile {
    pub name: String,
    pub path: Option<String>,
    pub url: String,
    pub sha1: Option<String>,
    pub server_only: bool,
}

/// A mod of an FTB pack version, hosted on CurseForge.
pub struct FtbMod {
    pub name: String,
    pub filename: String,
    pub curse_project: i64,
    pub curse_file: i64,
}

/// What CurseForge answered for one file id.
pub struct CurseFileLink {
    pub file_id: i64,
    pub download_url: Option<String>,
    pub sha1: Option<String>,
}

/// A pack or pack version id given as text: its `i32` value, 0 when it is absent or no
/// number.
pub open spec fn id_or_zero(text: Option<Seq<char>>) -> int {
    match text {
        Some(t) => match parse_i32(t) {
            Some(v) => v,
            None => 0,
        },
        None => 0,
    }
}

/// Reads a pack or pack version id (`int.TryParse`, 0 on failure).
pub fn parse_id_or_zero(text: Option<&str>) -> (r: i32)
    ensures
        r == id_or_zero(
            match text {
                Some(t) => Some(t@),
                None => None,
            },
        ),
{
    match text {
        Some(t) => match parse_i32_exec(chars_of(t).as_slice()) {
            Some(v) => v,
            None => 0,
        },
        None => 0,
    }
}

/// Where a pack is installed: the game directory, or `versions/{version_id}` inside it
/// when versions are isolated.
pub open spec fn pack_base_dir(game_dir: Seq<char>, version_isolation: bool, version_id: Seq<char>, style: PathStyle) -> Seq<char> {
    if version_isolation {
        path_join(path_join(game_dir, "versions"@, style), version_id, style)
    } else {
        game_dir
    }
}

/// The directory of a file inside the pack: its `path` without any `./` and without
/// leading `/`.
pub open spec fn relative_file_path(path: Option<String>) -> Seq<char> {
    trim_start_char(replace_all(opt_chars(path), "./"@, Seq::empty()), '/')
}

pub open spec fn pack_file_view(f: FtbFile, base: Seq<char>, style: PathStyle) -> MissFileView {
    MissFileView {
        name: f.name@,
        path: path_join(path_join(base, relative_file_path(f.path), style), f.name@, style),
        url: f.url@,
        sha1: opt_chars(f.sha1),
    }
}

/// The files a client needs, in order: every file not marked server-only.
pub open spec fn pack_file_views(files: Seq<FtbFile>, base: Seq<char>, style: PathStyle) -> Seq<MissFileView>
    decreases files.len(),
{
    if files.len() == 0 {
        Seq::empty()
    } else {
        let rest = pack_file_views(files.drop_last(), base, style);
        if files.last().server_only {
            rest
        } else {
            rest.push(pack_file_view(files.last(), base, style))
        }
    }
}

/// Where a pack is installed (see `pack_base_dir`).
pub fn pack_base_directory(game_dir: &str, version_isolation: bool, version_id: &str, style: PathStyle) -> (r: String)
    ensures
        r@ == pack_base_dir(game_dir@, version_isolation, version_id@, style),
{
    if version_isolation {
        let v = join_path(game_dir, "versions", style);
        join_path(v.as_str(), version_id, style)
    } else {
        string_of(chars_of(game_dir).as_slice())
    }
}

fn relative_file_path_exec(path: &Option<String>) -> (r: String)
    ensures
        r@ == relative_file_path(*path),
{
    let text = match path {
        Some(p) => chars_of(p.as_str()),
        None => Vec::new(),
    };
    let dot_slash = chars_of("./");
    proof {
        reveal_strlit("./");
    }
    let cleaned = replace_exec(text.as_slice(), dot_slash.as_slice(), Vec::<char>::new().as_slice());
    string_of(trim_start_char_exec(cleaned.as_slice(), '/').as_slice())
}

fn opt_text_exec(s: &Option<String>) -> (r: String)
    ensures
        r@ == opt_chars(*s),
{
    match s {
        Some(t) => string_of(chars_of(t.as_str()).as_slice()),
        None => string_of(Vec::<char>::new().as_slice()),
    }
}

/// The pack's files to download (the first half of an FTB pack's missing files):
/// each file that is not server-only goes to `{base}/{relative path}/{name}`.
pub fn pack_file_targets(
    game_dir: &str,
    version_isolation: bool,
    version_id: &str,
    files: &Vec<FtbFile>,
    style: PathStyle,
) -> (r: Vec<MissFileData>)
    ensures
        miss_views(r@) == pack_file_views(files@, pack_base_dir(game_dir@, version_isolation, version_id@, style), style),
{
    let base = pack_base_directory(game_dir, version_isolation, version_id, style);
    let mut out: Vec<MissFileData> = Vec::new();
    let mut i: usize = 0;
    while i < files.len()
        invariant
            i <= files.len(),
            base@ == pack_base_dir(game_dir@, version_isolation, version_id@, style),
            miss_views(out@) == pack_file_views(files@.take(i as int), base@, style),
        decreases files.len() - i,
    {
        let f = &files[i];
        proof {
            assert(files@.take(i + 1).drop_last() =~= files@.take(i as int));
        }
        if !f.server_only {
            let dir = join_path(base.as_str(), relative_file_path_exec(&f.path).as_str(), style);
            let path = join_path(dir.as_str(), f.name.as_str(), style);
            let m = MissFileData {
                name: string_of(chars_of(f.name.as_str()).as_slice()),
                path,
                url: string_of(chars_of(f.url.as_str()).as_slice()),
                sha1: opt_text_exec(&f.sha1),
            };
            let ghost before = out@;
            out.push(m);
            proof {
                assert(miss_views(out@) =~= miss_views(before).push(m@));
            }
        }
        i = i + 1;
    }
    proof {
        assert(files@.take(files.len() as int) =~= files@);
    }
    out
}

/// Ascending without repeats.
pub open spec fn strictly_ascending(s: Seq<i64>) -> bool {
    forall|i: int, j: int| 0 <= i < j < s.len() ==> s[i] < s[j]
}

/// Some mod of the list names the CurseForge file id.
pub open spec fn names_file(mods: Seq<FtbMod>, id: i64) -> bool {
    exists|k: int| 0 <= k < mods.len() && (#[trigger] mods[k]).curse_file == id
}

/// Adds `id` to an ascending list without repeats, keeping it so.
fn insert_unique_sorted(ids: Vec<i64>, id: i64) -> (r: Vec<i64>)
    requires
        strictly_ascending(ids@),
    ensures
        strictly_ascending(r@),
        forall|x: i64| r@.contains(x) <==> (ids@.contains(x) || x == id),
{
    let ghost before = ids@;
    let mut p: usize = 0;
    while p < ids.len() && ids[p] < id
        invariant
            p <= ids.len(),
            ids@ == before,
            strictly_ascending(before),
            forall|q: int| 0 <= q < p ==> ids@[q] < id,
        decreases ids.len() - p,
    {
        p = p + 1;
    }
    if p < ids.len() && ids[p] == id {
        proof {
            assert forall|x: i64| ids@.contains(x) <==> (ids@.contains(x) || x == id) by {
                if x == id {
                    assert(ids@[p as int] == id);
                }
            }
        }
        return ids;
    }
    let mut ids = ids;
    ids.insert(p, id);
    proof {
        assert forall|a: int, b: int| 0 <= a < b < ids@.len() implies ids@[a] < ids@[b] by {
            if b < p {
            } else if a < p && b == p {
            } else if a < p {
                assert(ids@[b] == before[b - 1]);
            } else if a == p {
                assert(ids@[b] == before[b - 1]);
                assert(before[p as int] > id);
                if b - 1 > p {
                    assert(before[p as int] < before[b - 1]);
                }
            } else {
                assert(ids@[a] == before[a - 1]);
                assert(ids@[b] == before[b - 1]);
            }
        }
        assert forall|x: i64| ids@.contains(x) <==> (before.contains(x) || x == id) by {
            if ids@.contains(x) {
                let k = choose|k: int| 0 <= k < ids@.len() && ids@[k] == x;
                if k < p {
                    assert(before[k] == x);
                } else if k > p {
                    assert(before[k - 1] == x);
                }
            }
            if before.contains(x) {
                let k = choose|k: int| 0 <= k < before.len() && before[k] == x;
                if k < p {
                    assert(ids@[k] == x);
                } else {
                    assert(ids@[k + 1] == x);
                }
            }
            if x == id {
                assert(ids@[p as int] == x);
            }
        }
    }
    ids
}

/// The CurseForge file ids to ask for: the positive `curse_file` ids of the mods, each
/// once, in ascending order.
pub fn curse_file_ids(mods: &Vec<FtbMod>) -> (r: Vec<i64>)
    ensures
        strictly_ascending(r@),
        forall|x: i64| r@.contains(x) <==> (x > 0 && names_file(mods@, x)),
{
    let mut ids: Vec<i64> = Vec::new();
    let mut i: usize = 0;
    while i < mods.len()
        invariant
            i <= mods.len(),
            strictly_ascending(ids@),
            forall|x: i64| ids@.contains(x) <==> (x > 0 && names_file(mods@.take(i as int), x)),
        decreases mods.len() - i,
    {
        let id = mods[i].curse_file;
        let ghost before = ids@;
        if id > 0 {
            ids = insert_unique_sorted(ids, id);
        }
        let ghost t1 = mods@.take(i + 1);
        proof {
            let t = mods@.take(i as int);
            assert forall|x: i64| names_file(t1, x) <==> (names_file(t, x) || x == id) by {
                if names_file(t1, x) {
                    let k = choose|k: int| 0 <= k < t1.len() && (#[trigger] t1[k]).curse_file == x;
                    if k < i {
                        assert(t[k] == t1[k]);
                    }
                }
                if names_file(t, x) {
                    let k = choose|k: int| 0 <= k < t.len() && (#[trigger] t[k]).curse_file == x;
                    assert(t1[k] == t[k]);
                }
                if x == id {
                    assert(t1[i as int].curse_file == id);
                }
            }
            assert forall|x: i64| ids@.contains(x) <==> (x > 0 && names_file(t1, x)) by {
                assert(before.contains(x) <==> (x > 0 && names_file(t, x)));
            }
        }
        i = i + 1;
    }
    proof {
        assert(mods@.take(mods.len() as int) =~= mods@);
    }
    ids
}

/// The first answer for a file id.
pub open spec fn link_for(links: Seq<CurseFileLink>, id: i64) -> Option<CurseFileLink>
    decreases links.len(),
{
    if links.len() == 0 {
        None
    } else if links[0].file_id == id {
        Some(links[0])
    } else {
        link_for(links.skip(1), id)
    }
}

/// Where a pack's mods go: `mods` in the pack's base directory.
pub open spec fn pack_mods_dir(game_dir: Seq<char>, version_isolation: bool, version_id: Seq<char>, style: PathStyle) -> Seq<char> {
    path_join(pack_base_dir(game_dir, version_isolation, version_id, style), "mods"@, style)
}

/// A mod to download, when CurseForge gave a non-empty download URL for its file.
pub open spec fn pack_mod_view(m: FtbMod, links: Seq<CurseFileLink>, dir: Seq<char>, style: PathStyle) -> Option<MissFileView> {
    match link_for(links, m.curse_file) {
        Some(l) => if opt_chars(l.download_url).len() > 0 {
            Some(
                MissFileView {
                    name: m.name@,
                    path: path_join(dir, m.filename@, style),
                    url: opt_chars(l.download_url),
                    sha1: opt_chars(l.sha1),
                },
            )
        } else {
            None
        },
        None => None,
    }
}

/// The mods to download, in order; a mod without a download URL is skipped.
pub open spec fn pack_mod_views(mods: Seq<FtbMod>, links: Seq<CurseFileLink>, dir: Seq<char>, style: PathStyle) -> Seq<MissFileView>
    decreases mods.len(),
{
    if mods.len() == 0 {
        Seq::empty()
    } else {
        let rest = pack_mod_views(mods.drop_last(), links, dir, style);
        match pack_mod_view(mods.last(), links, dir, style) {
            Some(v) => rest.push(v),
            None => rest,
        }
    }
}

fn find_link(links: &Vec<CurseFileLink>, id: i64) -> (r: Option<usize>)
    ensures
        match r {
            Some(k) => k < links.len() && link_for(links@, id) == Some(links@[k as int]),
            None => link_for(links@, id) is None,
        },
{
    let mut j: usize = 0;
    proof {
        assert(links@.skip(0) =~= links@);
    }
    while j < links.len()
        invariant
            j <= links.len(),
            link_for(links@, id) == link_for(links@.skip(j as int), id),
        decreases links.len() - j,
    {
        if links[j].file_id == id {
            return Some(j);
        }
        proof {
            assert(links@.skip(j as int).skip(1) =~= links@.skip(j + 1));
        }
        j = j + 1;
    }
    None
}

/// The pack's mods to download (the second half of an FTB pack's missing files),
/// given CurseForge's answers for their file ids: each mod whose file has a download
/// URL goes to `{base}/mods/{filename}` with that URL and the file's SHA-1.
pub fn pack_mod_targets(
    game_dir: &str,
    version_isolation: bool,
    version_id: &str,
    mods: &Vec<FtbMod>,
    links: &Vec<CurseFileLink>,
    style: PathStyle,
) -> (r: Vec<MissFileData>)
    ensures
        miss_views(r@) == pack_mod_views(mods@, links@, pack_mods_dir(game_dir@, version_isolation, version_id@, style), style),
{
    let base = pack_base_directory(game_dir, version_isolation, version_id, style);
    let dir = join_path(base.as_str(), "mods", style);
    let mut out: Vec<MissFileData> = Vec::new();
    let mut i: usize = 0;
    while i < mods.len()
        invariant
            i <= mods.len(),
            dir@ == pack_mods_dir(game_dir@, version_isolation, version_id@, style),
            miss_views(out@) == pack_mod_views(mods@.take(i as int), links@, dir@, style),
        decreases mods.len() - i,
    {
        let m = &mods[i];
        proof {
            assert(mods@.take(i + 1).drop_last() =~= mods@.take(i as int));
        }
        match find_link(links, m.curse_file) {
            Some(k) => {
                let l = &links[k];
                let url = opt_text_exec(&l.download_url);
                if chars_of(url.as_str()).len() > 0 {
                    let e = MissFileData {
                        name: string_of(chars_of(m.name.as_str()).as_slice()),
                        path: join_path(dir.as_str(), m.filename.as_str(), style),
                        url,
                        sha1: opt_text_exec(&l.sha1),
                    };
                    let ghost before = out@;
                    out.push(e);
                    proof {
                        assert(miss_views(out@) =~= miss_views(before).push(e@));
                    }
                }
            },
            None => {},
        }
        i = i + 1;
    }
    proof {
        assert(mods@.take(mods.len() as int) =~= mods@);
    }
    out
}

} // verus!
