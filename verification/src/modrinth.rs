//! Modrinth queries: the search request with its facets.
use vstd::prelude::*;
use crate::text::{chars_of, push_all, seq_eq, string_of};
use crate::num::{i64_decimal, int_decimal};
use crate::provider::{esc, esc_chars};
use crate::curseforge::{join_exec, joined};

verus! {

/// Why a search was not sent.
#[derive(Debug, PartialEq, Eq)]
pub enum ModrinthSearchError {
    /// The page size is negative.
    NegativePageSize,
    /// More than 100 results per page were asked for.
    PageSizeAboveLimit,
}

/// One search facet: `["kind:value"]`, the value percent-encoded.
pub open spec fn facet(kind: Seq<char>, value: Seq<char>) -> Seq<char> {
    "[\""@ + kind + seq![':'] + esc(value) + "\"]"@
}

pub open spec fn texts(s: Seq<String>) -> Seq<Seq<char>> {
    s.map_values(|t: String| t@)
}

/// A facet per value.
pub open spec fn facets_of(kind: Seq<char>, values: Seq<Seq<char>>) -> Seq<Seq<char>>
    decreases values.len(),
{
    if values.len() == 0 {
        Seq::empty()
    } else {
        facets_of(kind, values.drop_last()).push(facet(kind, values.last()))
    }
}

/// A facet for a given, non-empty value; none otherwise.
pub open spec fn optional_facet(kind: Seq<char>, value: Option<Seq<char>>) -> Seq<Seq<char>> {
    match value {
        Some(t) => if t.len() > 0 {
            seq![facet(kind, t)]
        } else {
            Seq::empty()
        },
        None => Seq::empty(),
    }
}

/// The facets of a search, in order: project type, categories, loaders (which Modrinth
/// files under categories too), game version.
pub open spec fn search_facets(
    project_type: Option<Seq<char>>,
    categories: Seq<Seq<char>>,
    loaders: Seq<Seq<char>>,
    game_version: Option<Seq<char>>,
) -> Seq<Seq<char>> {
    optional_facet("project_type"@, project_type) + facets_of("categories"@, categories) + facets_of(
        "categories"@,
        loaders,
    ) + optional_facet("versions"@, game_version)
}

/// The `facets` parameter: the facets as a JSON list of lists, percent-encoded; nothing
/// when there is no facet.
pub open spec fn facets_param(fs: Seq<Seq<char>>) -> Seq<char> {
    if fs.len() == 0 {
        Seq::empty()
    } else {
        "&facets="@ + esc(seq!['['] + joined(fs, seq![',']) + seq![']'])
    }
}

/// The search request: `{base}v2/search?query=..`, the facets, `limit`, `offset` (page
/// times page size) and `index`.
pub open spec fn search_link(
    base: Seq<char>,
    query: Seq<char>,
    project_type: Option<Seq<char>>,
    game_version: Option<Seq<char>>,
    categories: Seq<Seq<char>>,
    loaders: Seq<Seq<char>>,
    index: Seq<char>,
    page: int,
    page_size: int,
) -> Seq<char> {
    base + "v2/search?query="@ + esc(query) + facets_param(search_facets(project_type, categories, loaders, game_version))
        + "&limit="@ + int_decimal(page_size) + "&offset="@ + int_decimal(page * page_size) + "&index="@ + esc(index)
}

pub open spec fn opt_text(s: Option<&str>) -> Option<Seq<char>> {
    match s {
        Some(t) => Some(t@),
        None => None,
    }
}

pub open spec fn opt_texts(s: Option<&[String]>) -> Seq<Seq<char>> {
    match s {
        Some(v) => texts(v@),
        None => Seq::empty(),
    }
}

fn facet_chars(kind: &str, value: &str) -> (r: Vec<char>)
    ensures
        r@ == facet(kind@, value@),
{
    let mut f = chars_of("[\"");
    push_all(&mut f, chars_of(kind).as_slice());
    f.push(':');
    push_all(&mut f, esc_chars(value).as_slice());
    push_all(&mut f, chars_of("\"]").as_slice());
    f
}

fn push_facets(fs: &mut Vec<Vec<char>>, kind: &str, values: Option<&[String]>)
    ensures
        final(fs)@.map_values(|v: Vec<char>| v@) == old(fs)@.map_values(|v: Vec<char>| v@) + facets_of(kind@, opt_texts(values)),
{
    let ghost start = fs@.map_values(|v: Vec<char>| v@);
    match values {
        Some(vs) => {
            let mut i: usize = 0;
            while i < vs.len()
                invariant
                    i <= vs.len(),
                    fs@.map_values(|v: Vec<char>| v@) == start + facets_of(kind@, texts(vs@).take(i as int)),
                decreases vs.len() - i,
            {
                proof {
                    assert(texts(vs@).take(i + 1).drop_last() =~= texts(vs@).take(i as int));
                }
                let f = facet_chars(kind, vs[i].as_str());
                let ghost before = fs@;
                fs.push(f);
                proof {
                    assert(fs@.map_values(|v: Vec<char>| v@) =~= before.map_values(|v: Vec<char>| v@).push(f@));
                }
                i = i + 1;
            }
            proof {
                assert(texts(vs@).take(vs@.len() as int) =~= texts(vs@));
            }
        },
        None => {
            proof {
                assert(start + facets_of(kind@, Seq::empty()) =~= start);
            }
        },
    }
}

fn push_optional_facet(fs: &mut Vec<Vec<char>>, kind: &str, value: Option<&str>)
    ensures
        final(fs)@.map_values(|v: Vec<char>| v@) == old(fs)@.map_values(|v: Vec<char>| v@) + optional_facet(kind@, opt_text(value)),
{
    let ghost before = fs@;
    match value {
        Some(t) => {
            if chars_of(t).len() > 0 {
                let f = facet_chars(kind, t);
                fs.push(f);
                proof {
                    assert(fs@.map_values(|v: Vec<char>| v@) =~= before.map_values(|v: Vec<char>| v@) + seq![f@]);
                }
            } else {
                proof {
                    assert(before.map_values(|v: Vec<char>| v@) + Seq::<Seq<char>>::empty() =~= before.map_values(|v: Vec<char>| v@));
                }
            }
        },
        None => {
            proof {
                assert(before.map_values(|v: Vec<char>| v@) + Seq::<Seq<char>>::empty() =~= before.map_values(|v: Vec<char>| v@));
            }
        },
    }
}

/// The request: refused for a negative page size or one above 100.
pub fn modrinth_search_url(
    base_url: &str,
    query: &str,
    project_type: Option<&str>,
    game_version: Option<&str>,
    categories: Option<&[String]>,
    loaders: Option<&[String]>,
    index: &str,
    page: i32,
    page_size: i32,
) -> (r: Result<String, ModrinthSearchError>)
    requires
        0 <= page_size <= 100 ==> i32::MIN <= page * page_size <= i32::MAX,
    ensures
        page_size < 0 ==> r == Err::<String, ModrinthSearchError>(ModrinthSearchError::NegativePageSize),
        page_size > 100 ==> r == Err::<String, ModrinthSearchError>(ModrinthSearchError::PageSizeAboveLimit),
        0 <= page_size <= 100 ==> r is Ok && r->Ok_0@ == search_link(
            base_url@,
            query@,
            opt_text(project_type),
            opt_text(game_version),
            opt_texts(categories),
            opt_texts(loaders),
            index@,
            page as int,
            page_size as int,
        ),
{
    if page_size < 0 {
        return Err(ModrinthSearchError::NegativePageSize);
    }
    if page_size > 100 {
        return Err(ModrinthSearchError::PageSizeAboveLimit);
    }
    let mut fs: Vec<Vec<char>> = Vec::new();
    proof {
        assert(fs@.map_values(|v: Vec<char>| v@) =~= Seq::<Seq<char>>::empty());
    }
    push_optional_facet(&mut fs, "project_type", project_type);
    push_facets(&mut fs, "categories", categories);
    push_facets(&mut fs, "categories", loaders);
    push_optional_facet(&mut fs, "versions", game_version);
    let ghost all = search_facets(opt_text(project_type), opt_texts(categories), opt_texts(loaders), opt_text(game_version));
    proof {
        assert(fs@.map_values(|v: Vec<char>| v@) =~= all);
    }
    let mut u = chars_of(base_url);
    push_all(&mut u, chars_of("v2/search?query=").as_slice());
    push_all(&mut u, esc_chars(query).as_slice());
    let ghost head = base_url@ + "v2/search?query="@ + esc(query@);
    assert(u@ =~= head);
    if fs.len() > 0 {
        let comma = chars_of(",");
        proof {
            reveal_strlit(",");
            assert(comma@ =~= seq![',']);
        }
        let mut list: Vec<char> = Vec::new();
        list.push('[');
        push_all(&mut list, join_exec(&fs, comma.as_slice()).as_slice());
        list.push(']');
        assert(list@ =~= seq!['['] + joined(all, seq![',']) + seq![']']);
        push_all(&mut u, chars_of("&facets=").as_slice());
        push_all(&mut u, esc_chars(string_of(list.as_slice()).as_str()).as_slice());
        assert(u@ =~= head + facets_param(all));
    } else {
        assert(u@ =~= head + facets_param(all));
    }
    let ghost mid = head + facets_param(all);
    let offset: i32 = page * page_size;
    push_all(&mut u, chars_of("&limit=").as_slice());
    push_all(&mut u, i64_decimal(page_size as i64).as_slice());
    push_all(&mut u, chars_of("&offset=").as_slice());
    push_all(&mut u, i64_decimal(offset as i64).as_slice());
    push_all(&mut u, chars_of("&index=").as_slice());
    push_all(&mut u, esc_chars(index).as_slice());
    assert(u@ =~= mid + "&limit="@ + int_decimal(page_size as int) + "&offset="@ + int_decimal(page * page_size)
        + "&index="@ + esc(index@));
    Ok(string_of(u.as_slice()))
}

// ---------------------------------------------------------------------------
// Version records
// ---------------------------------------------------------------------------

/// One entry of a file's `hashes` object: the algorithm and the digest.
pub struct HashEntry {
    pub algorithm: String,
    pub value: String,
}

/// A file of a Modrinth version as the API lists it.
pub struct ModrinthFile {
    pub filename: String,
    pub url: String,
    pub size: Option<i64>,
    pub primary: Option<bool>,
    pub hashes: Option<Vec<HashEntry>>,
}

/// A dependency of a Modrinth version.
pub struct ModrinthDependency {
    pub version_id: Option<String>,
    pub project_id: Option<String>,
    pub file_name: Option<String>,
    pub dependency_type: String,
}

/// A version as the Modrinth API lists it.
pub struct ModrinthVersionInfo {
    pub id: String,
    pub project_id: String,
    pub name: String,
    pub version_number: String,
    pub game_versions: Vec<String>,
    pub loaders: Vec<String>,
    pub date_published: String,
    pub files: Option<Vec<ModrinthFile>>,
    pub dependencies: Option<Vec<ModrinthDependency>>,
}

/// The SHA-1 and SHA-512 digests of a file.
pub struct FileHashes {
    pub sha1: Option<String>,
    pub sha512: Option<String>,
}

/// A file of a version as the launcher shows it.
pub struct VersionFileInfo {
    pub filename: String,
    pub download_url: String,
    pub size: i64,
    pub is_primary: bool,
    pub file_type: Option<String>,
    pub hashes: Option<FileHashes>,
}

/// A version as the launcher shows it.
pub struct ProjectVersionInfo {
    pub id: String,
    pub project_id: String,
    pub name: String,
    pub version_number: String,
    pub game_version_ids: Vec<String>,
    pub loaders: Vec<String>,
    pub changelog: Option<String>,
    pub published_at: String,
    pub download_count: i64,
    pub version_type: Option<String>,
    pub files: Option<Vec<VersionFileInfo>>,
    pub dependencies_infos: Option<Vec<ModrinthDependency>>,
}

/// The digest listed under an algorithm (the first entry with that name; the entries
/// come from a JSON object, whose names are distinct).
pub open spec fn digest_of(hashes: Seq<HashEntry>, algorithm: Seq<char>) -> Option<String>
    decreases hashes.len(),
{
    if hashes.len() == 0 {
        None
    } else {
        match digest_of(hashes.drop_last(), algorithm) {
            Some(v) => Some(v),
            None => if hashes.last().algorithm@ == algorithm {
                Some(hashes.last().value)
            } else {
                None
            },
        }
    }
}

/// `r` is the launcher's form of `f`: the same name and link, the size (0 when
/// unknown), primary only when marked so, no file type, and the SHA-1 and SHA-512
/// digests of its `hashes` when it has them.
pub open spec fn file_info_of(r: VersionFileInfo, f: ModrinthFile) -> bool {
    &&& r.filename == f.filename
    &&& r.download_url == f.url
    &&& r.size == (match f.size {
        Some(n) => n,
        None => 0,
    })
    &&& r.is_primary == (f.primary == Some(true))
    &&& r.file_type is None
    &&& match f.hashes {
        None => r.hashes is None,
        Some(h) => r.hashes == Some(
            FileHashes { sha1: digest_of(h@, "sha1"@), sha512: digest_of(h@, "sha512"@) },
        ),
    }
}

/// The files of `r` are the launcher's forms of those of `v`, one for one.
pub open spec fn files_of(r: Option<Vec<VersionFileInfo>>, v: Option<Vec<ModrinthFile>>) -> bool {
    match v {
        None => r is None,
        Some(fs) => r is Some && r->0@.len() == fs@.len() && forall|i: int|
            0 <= i < fs@.len() ==> file_info_of(#[trigger] r->0@[i], fs@[i]),
    }
}

fn digest_exec(hashes: &Vec<HashEntry>, algorithm: &str) -> (r: Option<String>)
    ensures
        r == digest_of(hashes@, algorithm@),
{
    let a = chars_of(algorithm);
    let mut i: usize = 0;
    proof {
        assert(hashes@.take(0) =~= Seq::<HashEntry>::empty());
    }
    while i < hashes.len()
        invariant
            i <= hashes.len(),
            a@ == algorithm@,
            digest_of(hashes@.take(i as int), algorithm@) is None,
        decreases hashes.len() - i,
    {
        proof {
            assert(hashes@.take(i + 1).drop_last() =~= hashes@.take(i as int));
        }
        if seq_eq(chars_of(hashes[i].algorithm.as_str()).as_slice(), a.as_slice()) {
            proof {
                lemma_digest_prefix(hashes@, i as int + 1, algorithm@);
            }
            return Some(hashes[i].value.clone());
        }
        i = i + 1;
    }
    proof {
        assert(hashes@.take(i as int) =~= hashes@);
    }
    None
}

proof fn lemma_digest_prefix(h: Seq<HashEntry>, k: int, algorithm: Seq<char>)
    requires
        0 <= k <= h.len(),
        digest_of(h.take(k), algorithm) is Some,
    ensures
        digest_of(h, algorithm) == digest_of(h.take(k), algorithm),
    decreases h.len() - k,
{
    if k < h.len() {
        assert(h.take(k + 1).drop_last() =~= h.take(k));
        lemma_digest_prefix(h, k + 1, algorithm);
    } else {
        assert(h.take(k) =~= h);
    }
}

/// The launcher's form of a file of a Modrinth version.
pub fn modrinth_file_to_version_file_info(f: ModrinthFile) -> (r: VersionFileInfo)
    ensures
        file_info_of(r, f),
{
    let hashes = match &f.hashes {
        Some(h) => Some(FileHashes { sha1: digest_exec(h, "sha1"), sha512: digest_exec(h, "sha512") }),
        None => None,
    };
    VersionFileInfo {
        filename: f.filename,
        download_url: f.url,
        size: match f.size {
            Some(n) => n,
            None => 0,
        },
        is_primary: match f.primary {
            Some(p) => p,
            None => false,
        },
        file_type: None,
        hashes,
    }
}

fn files_to_infos(files: Option<Vec<ModrinthFile>>) -> (r: Option<Vec<VersionFileInfo>>)
    ensures
        files_of(r, files),
{
    match files {
        None => None,
        Some(fs) => {
            let ghost all = fs@;
            assert(all.len() == fs.len());
            let mut out: Vec<VersionFileInfo> = Vec::new();
            let mut rest = fs;
            let mut i: usize = 0;
            proof {
                assert(rest@ =~= all.skip(0));
            }
            while rest.len() > 0
                invariant
                    all.len() <= usize::MAX,
                    i + rest@.len() == all.len(),
                    rest@ == all.skip(i as int),
                    out@.len() == i,
                    forall|k: int| 0 <= k < i ==> file_info_of(#[trigger] out@[k], all[k]),
                decreases rest@.len(),
            {
                let x = rest.remove(0);
                proof {
                    assert(x == all[i as int]);
                    assert(rest@ =~= all.skip(i + 1));
                }
                out.push(modrinth_file_to_version_file_info(x));
                i = i + 1;
            }
            Some(out)
        },
    }
}

/// A listed version in the launcher's form (`GET v2/project/{id}/version`): its names,
/// game versions, loaders, publication time, files and dependencies; no changelog,
/// download count or version type.
pub fn to_project_version_info(v: ModrinthVersionInfo) -> (r: ProjectVersionInfo)
    ensures
        r.id == v.id && r.project_id == v.project_id && r.name == v.name && r.version_number == v.version_number,
        r.game_version_ids == v.game_versions && r.loaders == v.loaders,
        r.changelog is None && r.download_count == 0 && r.version_type is None,
        r.published_at == v.date_published,
        files_of(r.files, v.files),
        r.dependencies_infos == v.dependencies,
{
    ProjectVersionInfo {
        id: v.id,
        project_id: v.project_id,
        name: v.name,
        version_number: v.version_number,
        game_version_ids: v.game_versions,
        loaders: v.loaders,
        changelog: None,
        published_at: v.date_published,
        download_count: 0,
        version_type: None,
        files: files_to_infos(v.files),
        dependencies_infos: v.dependencies,
    }
}

/// A version found by a file hash in the launcher's form: as a listed version, but
/// without its dependencies.
pub fn to_project_version_info_from_hash(v: ModrinthVersionInfo) -> (r: ProjectVersionInfo)
    ensures
        r.id == v.id && r.project_id == v.project_id && r.name == v.name && r.version_number == v.version_number,
        r.game_version_ids == v.game_versions && r.loaders == v.loaders,
        r.changelog is None && r.download_count == 0 && r.version_type is None,
        r.published_at == v.date_published,
        files_of(r.files, v.files),
        r.dependencies_infos is None,
{
    ProjectVersionInfo {
        id: v.id,
        project_id: v.project_id,
        name: v.name,
        version_number: v.version_number,
        game_version_ids: v.game_versions,
        loaders: v.loaders,
        changelog: None,
        published_at: v.date_published,
        download_count: 0,
        version_type: None,
        files: files_to_infos(v.files),
        dependencies_infos: None,
    }
}

} // verus!
