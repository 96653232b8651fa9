//! The hits of a CurseForge search answer, read into search results: names, links,
//! counts, the game versions of the latest files, authors, categories and screenshots.
use vstd::prelude::*;
use crate::text::{chars_of, string_of};
use crate::num::{parse_i64, parse_i64_exec};
use crate::json::{items_view, jview, lemma_items_view, JsonModel, JsonValue};
use crate::libjson::{get_in, get_member, jget, json_node_to_string, node_text};
use crate::curseforge::{game_versions_text, joined, sorted_unique};

verus! {

// ---------------------------------------------------------------------------
// Reading fields
// ---------------------------------------------------------------------------

pub open spec fn is_array(v: Option<JsonModel>) -> bool {
    v matches Some(JsonModel::Array(_))
}

pub open spec fn oj(v: Option<&JsonValue>) -> Option<JsonModel> {
    match v {
        Some(x) => Some(jview(*x)),
        None => None,
    }
}

/// The text of a field: empty when it is absent or null, else the node's text.
pub open spec fn text_or_empty(v: Option<JsonModel>) -> Seq<char> {
    match v {
        None => Seq::empty(),
        Some(JsonModel::Null) => Seq::empty(),
        Some(x) => node_text(x),
    }
}

/// The text of a field: none when it is absent or null, else the node's text.
pub open spec fn opt_text(v: Option<JsonModel>) -> Option<Seq<char>> {
    match v {
        None => None,
        Some(JsonModel::Null) => None,
        Some(x) => Some(node_text(x)),
    }
}

/// An integer field: a number or a text that reads as an `i64`, else 0.
pub open spec fn int_of(v: Option<JsonModel>) -> int {
    match v {
        Some(JsonModel::Number(t)) => match parse_i64(t) {
            Some(n) => n,
            None => 0,
        },
        Some(JsonModel::Str(t)) => match parse_i64(t) {
            Some(n) => n,
            None => 0,
        },
        _ => 0,
    }
}

/// The items of an array field, none for anything else.
pub open spec fn items_of(v: Option<JsonModel>) -> Seq<JsonModel> {
    match v {
        Some(JsonModel::Array(xs)) => xs,
        _ => Seq::empty(),
    }
}

fn text_or_empty_exec(v: Option<&JsonValue>) -> (r: String)
    ensures
        r@ == text_or_empty(oj(v)),
{
    match v {
        None => string_of(Vec::<char>::new().as_slice()),
        Some(JsonValue::Null) => string_of(Vec::<char>::new().as_slice()),
        Some(x) => json_node_to_string(x),
    }
}

fn opt_text_exec(v: Option<&JsonValue>) -> (r: Option<String>)
    ensures
        match r {
            Some(t) => opt_text(oj(v)) == Some(t@),
            None => opt_text(oj(v)) is None,
        },
{
    match v {
        None => None,
        Some(JsonValue::Null) => None,
        Some(x) => Some(json_node_to_string(x)),
    }
}

fn int_of_exec(v: Option<&JsonValue>) -> (r: i64)
    ensures
        r == int_of(oj(v)),
{
    match v {
        Some(JsonValue::Number(t)) => match parse_i64_exec(chars_of(t.as_str()).as_slice()) {
            Some(n) => n,
            None => 0,
        },
        Some(JsonValue::Str(t)) => match parse_i64_exec(chars_of(t.as_str()).as_slice()) {
            Some(n) => n,
            None => 0,
        },
        _ => 0,
    }
}

fn items_exec(v: Option<&JsonValue>) -> (r: Option<&Vec<JsonValue>>)
    ensures
        match r {
            Some(xs) => oj(v) == Some(JsonModel::Array(items_view(xs@))) && items_of(oj(v)) == items_view(xs@),
            None => items_of(oj(v)) == Seq::<JsonModel>::empty() && !is_array(oj(v)),
        },
{
    match v {
        Some(JsonValue::Array(xs)) => Some(xs),
        _ => None,
    }
}

// ---------------------------------------------------------------------------
// Results
// ---------------------------------------------------------------------------

/// An author of a mod.
pub struct AuthorMeta {
    pub id: i32,
    pub name: String,
    pub url: Option<String>,
}

/// A category of a mod.
pub struct CategoryMeta {
    pub id: i32,
    pub name: String,
    pub slug: Option<String>,
    pub url: Option<String>,
}

/// A screenshot of a mod.
pub struct ScreenshotsMeta {
    pub id: i32,
    pub mod_id: i32,
    pub title: Option<String>,
    pub description: Option<String>,
    pub thumbnail_url: Option<String>,
    pub url: Option<String>,
}

/// One hit of a search.
pub struct CurseForgeSearchResult {
    pub id: String,
    pub name: String,
    pub slug: String,
    pub summary: String,
    pub status: String,
    pub game_version: String,
    pub download_count: String,
    pub icon_url: String,
    pub is_featured: bool,
    pub authors: Vec<AuthorMeta>,
    pub categories: Vec<CategoryMeta>,
    pub screenshots: Vec<ScreenshotsMeta>,
}

/// A page of search results and the total number of hits.
pub struct CurseForgeSearchResponse {
    pub results: Vec<CurseForgeSearchResult>,
    pub total_count: i32,
}

/// Why a search answer could not be read.
#[derive(Debug, PartialEq, Eq)]
pub enum CurseForgeSearchError {
    /// A hit of the answer's `data` array is not an object.
    HitNotObject,
}

pub ghost struct AuthorView {
    pub id: i32,
    pub name: Seq<char>,
    pub url: Option<Seq<char>>,
}

pub ghost struct CategoryView {
    pub id: i32,
    pub name: Seq<char>,
    pub slug: Option<Seq<char>>,
    pub url: Option<Seq<char>>,
}

pub ghost struct ScreenshotView {
    pub id: i32,
    pub mod_id: i32,
    pub title: Option<Seq<char>>,
    pub description: Option<Seq<char>>,
    pub thumbnail_url: Option<Seq<char>>,
    pub url: Option<Seq<char>>,
}

pub ghost struct ResultView {
    pub id: Seq<char>,
    pub name: Seq<char>,
    pub slug: Seq<char>,
    pub summary: Seq<char>,
    pub status: Seq<char>,
    pub game_version: Seq<char>,
    pub download_count: Seq<char>,
    pub icon_url: Seq<char>,
    pub is_featured: bool,
    pub authors: Seq<AuthorView>,
    pub categories: Seq<CategoryView>,
    pub screenshots: Seq<ScreenshotView>,
}

pub open spec fn opt_view(o: Option<String>) -> Option<Seq<char>> {
    match o {
        Some(s) => Some(s@),
        None => None,
    }
}

pub open spec fn author_view(a: AuthorMeta) -> AuthorView {
    AuthorView { id: a.id, name: a.name@, url: opt_view(a.url) }
}

pub open spec fn category_view(c: CategoryMeta) -> CategoryView {
    CategoryView { id: c.id, name: c.name@, slug: opt_view(c.slug), url: opt_view(c.url) }
}

pub open spec fn screenshot_view(s: ScreenshotsMeta) -> ScreenshotView {
    ScreenshotView {
        id: s.id,
        mod_id: s.mod_id,
        title: opt_view(s.title),
        description: opt_view(s.description),
        thumbnail_url: opt_view(s.thumbnail_url),
        url: opt_view(s.url),
    }
}

pub open spec fn result_view(r: CurseForgeSearchResult) -> ResultView {
    ResultView {
        id: r.id@,
        name: r.name@,
        slug: r.slug@,
        summary: r.summary@,
        status: r.status@,
        game_version: r.game_version@,
        download_count: r.download_count@,
        icon_url: r.icon_url@,
        is_featured: r.is_featured,
        authors: r.authors@.map_values(|a: AuthorMeta| author_view(a)),
        categories: r.categories@.map_values(|c: CategoryMeta| category_view(c)),
        screenshots: r.screenshots@.map_values(|s: ScreenshotsMeta| screenshot_view(s)),
    }
}

/// An author entry: its `id` (cut to `i32`), `name` and `url`.
pub open spec fn author_of(n: JsonModel) -> AuthorView {
    AuthorView {
        id: int_of(jget(Some(n), "id"@)) as i32,
        name: text_or_empty(jget(Some(n), "name"@)),
        url: opt_text(jget(Some(n), "url"@)),
    }
}

/// A category entry: its `id` (cut to `i32`), `name`, `slug` and `url`.
pub open spec fn category_of(n: JsonModel) -> CategoryView {
    CategoryView {
        id: int_of(jget(Some(n), "id"@)) as i32,
        name: text_or_empty(jget(Some(n), "name"@)),
        slug: opt_text(jget(Some(n), "slug"@)),
        url: opt_text(jget(Some(n), "url"@)),
    }
}

/// A screenshot entry: its `id` and `modId` (cut to `i32`) and its texts.
pub open spec fn screenshot_of(n: JsonModel) -> ScreenshotView {
    ScreenshotView {
        id: int_of(jget(Some(n), "id"@)) as i32,
        mod_id: int_of(jget(Some(n), "modId"@)) as i32,
        title: opt_text(jget(Some(n), "title"@)),
        description: opt_text(jget(Some(n), "description"@)),
        thumbnail_url: opt_text(jget(Some(n), "thumbnailUrl"@)),
        url: opt_text(jget(Some(n), "url"@)),
    }
}

/// The `gameVersion` texts of the latest-file entries that have one (not null).
pub open spec fn game_version_texts(xs: Seq<JsonModel>) -> Seq<Seq<char>>
    decreases xs.len(),
{
    if xs.len() == 0 {
        Seq::empty()
    } else {
        let r = game_version_texts(xs.drop_last());
        match opt_text(jget(Some(xs.last()), "gameVersion"@)) {
            Some(t) => r.push(t),
            None => r,
        }
    }
}

/// A hit as a search result: its `id`, `name`, `slug`, `summary`, `status` and
/// `downloadCount` texts (empty when absent or null); the game versions of its
/// `latestFilesIndexes`, distinct, in character order, joined by ", "; the `url` of its
/// `logo`; `isFeatured` when that is `true`; and its authors, categories and screenshots.
pub open spec fn result_of(h: JsonModel) -> ResultView {
    ResultView {
        id: text_or_empty(jget(Some(h), "id"@)),
        name: text_or_empty(jget(Some(h), "name"@)),
        slug: text_or_empty(jget(Some(h), "slug"@)),
        summary: text_or_empty(jget(Some(h), "summary"@)),
        status: text_or_empty(jget(Some(h), "status"@)),
        game_version: joined(
            sorted_unique(game_version_texts(items_of(jget(Some(h), "latestFilesIndexes"@)))),
            ", "@,
        ),
        download_count: text_or_empty(jget(Some(h), "downloadCount"@)),
        icon_url: text_or_empty(jget(jget(Some(h), "logo"@), "url"@)),
        is_featured: jget(Some(h), "isFeatured"@) == Some(JsonModel::Bool(true)),
        authors: items_of(jget(Some(h), "authors"@)).map_values(|n: JsonModel| author_of(n)),
        categories: items_of(jget(Some(h), "categories"@)).map_values(|n: JsonModel| category_of(n)),
        screenshots: items_of(jget(Some(h), "screenshots"@)).map_values(|n: JsonModel| screenshot_of(n)),
    }
}

pub open spec fn is_object(m: JsonModel) -> bool {
    m matches JsonModel::Object(_)
}

/// The hits of an answer: the items of its `data` array (none without one).
pub open spec fn search_hits(body: JsonModel) -> Seq<JsonModel> {
    items_of(jget(Some(body), "data"@))
}

/// The total count of an answer: `pagination.totalCount` cut to `i32` when the answer
/// has a `data` array, else 0.
pub open spec fn search_total(body: JsonModel) -> i32 {
    if is_array(jget(Some(body), "data"@)) {
        int_of(jget(jget(Some(body), "pagination"@), "totalCount"@)) as i32
    } else {
        0
    }
}

fn authors_exec(v: Option<&JsonValue>) -> (r: Vec<AuthorMeta>)
    ensures
        r@.map_values(|a: AuthorMeta| author_view(a)) == items_of(oj(v)).map_values(|n: JsonModel| author_of(n)),
{
    let mut r: Vec<AuthorMeta> = Vec::new();
    match items_exec(v) {
        None => {
            proof {
                assert(r@.map_values(|a: AuthorMeta| author_view(a)) =~= items_of(oj(v)).map_values(
                    |n: JsonModel| author_of(n),
                ));
            }
        },
        Some(xs) => {
            proof {
                lemma_items_view(xs@);
            }
            let mut i: usize = 0;
            while i < xs.len()
                invariant
                    i <= xs.len(),
                    r@.len() == i,
                    items_view(xs@).len() == xs@.len(),
                    forall|k: int| 0 <= k < xs@.len() ==> #[trigger] items_view(xs@)[k] == jview(xs@[k]),
                    forall|k: int| 0 <= k < i ==> author_view(#[trigger] r@[k]) == author_of(jview(xs@[k])),
                decreases xs.len() - i,
            {
                let n = &xs[i];
                let a = AuthorMeta {
                    id: #[verifier::truncate] (int_of_exec(get_member(n, "id")) as i32),
                    name: text_or_empty_exec(get_member(n, "name")),
                    url: opt_text_exec(get_member(n, "url")),
                };
                r.push(a);
                i = i + 1;
            }
            proof {
                assert(r@.map_values(|a: AuthorMeta| author_view(a)) =~= items_of(oj(v)).map_values(
                    |n: JsonModel| author_of(n),
                ));
            }
        },
    }
    r
}

fn categories_exec(v: Option<&JsonValue>) -> (r: Vec<CategoryMeta>)
    ensures
        r@.map_values(|c: CategoryMeta| category_view(c)) == items_of(oj(v)).map_values(|n: JsonModel| category_of(n)),
{
    let mut r: Vec<CategoryMeta> = Vec::new();
    match items_exec(v) {
        None => {
            proof {
                assert(r@.map_values(|c: CategoryMeta| category_view(c)) =~= items_of(oj(v)).map_values(
                    |n: JsonModel| category_of(n),
                ));
            }
        },
        Some(xs) => {
            proof {
                lemma_items_view(xs@);
            }
            let mut i: usize = 0;
            while i < xs.len()
                invariant
                    i <= xs.len(),
                    r@.len() == i,
                    items_view(xs@).len() == xs@.len(),
                    forall|k: int| 0 <= k < xs@.len() ==> #[trigger] items_view(xs@)[k] == jview(xs@[k]),
                    forall|k: int| 0 <= k < i ==> category_view(#[trigger] r@[k]) == category_of(jview(xs@[k])),
                decreases xs.len() - i,
            {
                let n = &xs[i];
                let c = CategoryMeta {
                    id: #[verifier::truncate] (int_of_exec(get_member(n, "id")) as i32),
                    name: text_or_empty_exec(get_member(n, "name")),
                    slug: opt_text_exec(get_member(n, "slug")),
                    url: opt_text_exec(get_member(n, "url")),
                };
                r.push(c);
                i = i + 1;
            }
            proof {
                assert(r@.map_values(|c: CategoryMeta| category_view(c)) =~= items_of(oj(v)).map_values(
                    |n: JsonModel| category_of(n),
                ));
            }
        },
    }
    r
}

fn screenshots_exec(v: Option<&JsonValue>) -> (r: Vec<ScreenshotsMeta>)
    ensures
        r@.map_values(|s: ScreenshotsMeta| screenshot_view(s)) == items_of(oj(v)).map_values(
            |n: JsonModel| screenshot_of(n),
        ),
{
    let mut r: Vec<ScreenshotsMeta> = Vec::new();
    match items_exec(v) {
        None => {
            proof {
                assert(r@.map_values(|s: ScreenshotsMeta| screenshot_view(s)) =~= items_of(oj(v)).map_values(
                    |n: JsonModel| screenshot_of(n),
                ));
            }
        },
        Some(xs) => {
            proof {
                lemma_items_view(xs@);
            }
            let mut i: usize = 0;
            while i < xs.len()
                invariant
                    i <= xs.len(),
                    r@.len() == i,
                    items_view(xs@).len() == xs@.len(),
                    forall|k: int| 0 <= k < xs@.len() ==> #[trigger] items_view(xs@)[k] == jview(xs@[k]),
                    forall|k: int| 0 <= k < i ==> screenshot_view(#[trigger] r@[k]) == screenshot_of(jview(xs@[k])),
                decreases xs.len() - i,
            {
                let n = &xs[i];
                let s = ScreenshotsMeta {
                    id: #[verifier::truncate] (int_of_exec(get_member(n, "id")) as i32),
                    mod_id: #[verifier::truncate] (int_of_exec(get_member(n, "modId")) as i32),
                    title: opt_text_exec(get_member(n, "title")),
                    description: opt_text_exec(get_member(n, "description")),
                    thumbnail_url: opt_text_exec(get_member(n, "thumbnailUrl")),
                    url: opt_text_exec(get_member(n, "url")),
                };
                r.push(s);
                i = i + 1;
            }
            proof {
                assert(r@.map_values(|s: ScreenshotsMeta| screenshot_view(s)) =~= items_of(oj(v)).map_values(
                    |n: JsonModel| screenshot_of(n),
                ));
            }
        },
    }
    r
}

fn game_version_exec(v: Option<&JsonValue>) -> (r: String)
    ensures
        r@ == joined(sorted_unique(game_version_texts(items_of(oj(v)))), ", "@),
{
    let mut texts: Vec<String> = Vec::new();
    match items_exec(v) {
        None => {
            proof {
                assert(texts@.map_values(|s: String| s@) =~= game_version_texts(items_of(oj(v))));
            }
        },
        Some(xs) => {
            proof {
                lemma_items_view(xs@);
                assert(items_view(xs@).take(0) =~= Seq::<JsonModel>::empty());
            }
            let ghost all = items_view(xs@);
            let mut i: usize = 0;
            while i < xs.len()
                invariant
                    i <= xs.len(),
                    all == items_view(xs@),
                    all.len() == xs@.len(),
                    forall|k: int| 0 <= k < xs@.len() ==> #[trigger] all[k] == jview(xs@[k]),
                    texts@.map_values(|s: String| s@) == game_version_texts(all.take(i as int)),
                decreases xs.len() - i,
            {
                let ghost before = texts@;
                proof {
                    assert(all.take(i + 1).drop_last() =~= all.take(i as int));
                    assert(all.take(i + 1).last() == jview(xs@[i as int]));
                }
                match opt_text_exec(get_member(&xs[i], "gameVersion")) {
                    Some(t) => {
                        let ghost tv = t@;
                        texts.push(t);
                        proof {
                            assert(texts@.map_values(|s: String| s@) =~= before.map_values(|s: String| s@).push(tv));
                        }
                    },
                    None => {},
                }
                i = i + 1;
            }
            proof {
                assert(all.take(i as int) =~= all);
            }
        },
    }
    game_versions_text(&texts)
}

fn result_exec(h: &JsonValue) -> (r: CurseForgeSearchResult)
    ensures
        result_view(r) == result_of(jview(*h)),
{
    let logo = get_member(h, "logo");
    let logo_url = match logo {
        Some(l) => get_member(l, "url"),
        None => None,
    };
    let featured = match get_member(h, "isFeatured") {
        Some(JsonValue::Bool(b)) => *b,
        _ => false,
    };
    let r = CurseForgeSearchResult {
        id: text_or_empty_exec(get_member(h, "id")),
        name: text_or_empty_exec(get_member(h, "name")),
        slug: text_or_empty_exec(get_member(h, "slug")),
        summary: text_or_empty_exec(get_member(h, "summary")),
        status: text_or_empty_exec(get_member(h, "status")),
        game_version: game_version_exec(get_member(h, "latestFilesIndexes")),
        download_count: text_or_empty_exec(get_member(h, "downloadCount")),
        icon_url: text_or_empty_exec(logo_url),
        is_featured: featured,
        authors: authors_exec(get_member(h, "authors")),
        categories: categories_exec(get_member(h, "categories")),
        screenshots: screenshots_exec(get_member(h, "screenshots")),
    };
    r
}

/// Reads a search answer: each hit of its `data` array as a result, in order, with the
/// total count; refused when a hit is not an object. An answer without a `data` array
/// gives no results and a total of 0.
pub fn search_results(body: &JsonValue) -> (r: Result<CurseForgeSearchResponse, CurseForgeSearchError>)
    ensures
        match r {
            Ok(resp) => {
                &&& forall|k: int| 0 <= k < search_hits(jview(*body)).len() ==> is_object(#[trigger] search_hits(jview(*body))[k])
                &&& resp.results@.map_values(|x: CurseForgeSearchResult| result_view(x)) == search_hits(jview(*body)).map_values(
                    |h: JsonModel| result_of(h),
                )
                &&& resp.total_count == search_total(jview(*body))
            },
            Err(e) => e == CurseForgeSearchError::HitNotObject && exists|k: int|
                0 <= k < search_hits(jview(*body)).len() && !(is_object(#[trigger] search_hits(jview(*body))[k])),
        },
{
    let total = #[verifier::truncate] (int_of_exec(get_in(get_member(body, "pagination"), "totalCount")) as i32);
    let data = get_member(body, "data");
    let mut results: Vec<CurseForgeSearchResult> = Vec::new();
    match items_exec(data) {
        None => {
            proof {
                assert(results@.map_values(|x: CurseForgeSearchResult| result_view(x)) =~= search_hits(jview(*body)).map_values(
                    |h: JsonModel| result_of(h),
                ));
            }
            Ok(CurseForgeSearchResponse { results, total_count: 0 })
        },
        Some(xs) => {
            proof {
                lemma_items_view(xs@);
            }
            let ghost hits = search_hits(jview(*body));
            let mut i: usize = 0;
            while i < xs.len()
                invariant
                    i <= xs.len(),
                    results@.len() == i,
                    hits == items_view(xs@),
                    hits == search_hits(jview(*body)),
                    hits.len() == xs@.len(),
                    forall|k: int| 0 <= k < xs@.len() ==> #[trigger] hits[k] == jview(xs@[k]),
                    forall|k: int| 0 <= k < i ==> is_object(#[trigger] hits[k]),
                    forall|k: int| 0 <= k < i ==> result_view(#[trigger] results@[k]) == result_of(hits[k]),
                decreases xs.len() - i,
            {
                match &xs[i] {
                    JsonValue::Object(_) => {},
                    _ => {
                        proof {
                            assert(!is_object(search_hits(jview(*body))[i as int]));
                        }
                        return Err(CurseForgeSearchError::HitNotObject);
                    },
                }
                results.push(result_exec(&xs[i]));
                i = i + 1;
            }
            proof {
                assert(results@.map_values(|x: CurseForgeSearchResult| result_view(x)) =~= hits.map_values(
                    |h: JsonModel| result_of(h),
                ));
            }
            Ok(CurseForgeSearchResponse { results, total_count: total })
        },
    }
}

} // verus!
