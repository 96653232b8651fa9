//! CurseForge queries: the search request, the game-version summary of a search hit,
//! links relative to the API root, and SHA-1 digests among a file's hashes.
use vstd::prelude::*;
use crate::text::{chars_of, push_all, starts_with, starts_with_exec, string_of};
use crate::num::{int_decimal, i64_decimal};
use crate::version::{lemma_lex_order_antisym, lemma_lex_order_trans, lemma_lex_order_zero, lex_order, string_compare_ordinal};

verus! {

/// A link that starts with "http" stays, any other is put after the API root.
pub fn full_url(base: &str, url: &str) -> (r: String)
    ensures
        r@ == (if starts_with(url@, "http"@) {
            url@
        } else {
            base@ + url@
        }),
{
    let u = chars_of(url);
    if starts_with_exec(u.as_slice(), chars_of("http").as_slice()) {
        string_of(u.as_slice())
    } else {
        let mut r = chars_of(base);
        push_all(&mut r, u.as_slice());
        string_of(r.as_slice())
    }
}

/// A request failed with status 400 Bad Request.
pub fn is_bad_request(status: Option<u16>) -> (r: bool)
    ensures
        r == (status == Some(400u16)),
{
    match status {
        Some(s) => s == 400,
        None => false,
    }
}

/// An entry of a file's `hashes` array: its `algo` number and `value` text.
pub struct FileHash {
    pub algo: i64,
    pub value: Option<String>,
}

/// The value of the first hash whose algorithm is 1 (SHA-1).
pub open spec fn sha1_of_hashes(hs: Seq<FileHash>) -> Option<Seq<char>>
    decreases hs.len(),
{
    if hs.len() == 0 {
        None
    } else if hs[0].algo == 1 {
        match hs[0].value {
            Some(v) => Some(v@),
            None => None,
        }
    } else {
        sha1_of_hashes(hs.skip(1))
    }
}

fn first_sha1(hs: &Vec<FileHash>) -> (r: Option<String>)
    ensures
        match (r, sha1_of_hashes(hs@)) {
            (Some(a), Some(b)) => a@ == b,
            (None, None) => true,
            _ => false,
        },
{
    let mut i: usize = 0;
    assert(hs@.skip(0) =~= hs@);
    while i < hs.len()
        invariant
            i <= hs.len(),
            sha1_of_hashes(hs@) == sha1_of_hashes(hs@.skip(i as int)),
        decreases hs.len() - i,
    {
        proof {
            assert(hs@.skip(i as int)[0] == hs@[i as int]);
            assert(hs@.skip(i as int).skip(1) =~= hs@.skip(i + 1));
        }
        if hs[i].algo == 1 {
            return match &hs[i].value {
                Some(v) => Some(string_of(chars_of(v.as_str()).as_slice())),
                None => None,
            };
        }
        i = i + 1;
    }
    assert(hs@.skip(i as int) =~= Seq::<FileHash>::empty());
    None
}

/// `FindSha1FromHashes`.
pub fn find_sha1_from_hashes(hashes: &Option<Vec<FileHash>>) -> (r: Option<String>)
    ensures
        match hashes {
            None => r is None,
            Some(hs) => match (r, sha1_of_hashes(hs@)) {
                (Some(a), Some(b)) => a@ == b,
                (None, None) => true,
                _ => false,
            },
        },
{
    match hashes {
        Some(hs) => first_sha1(hs),
        None => None,
    }
}

// ---------------------------------------------------------------------------
// Search requests
// ---------------------------------------------------------------------------

/// The pieces joined with a separator between each two.
pub open spec fn joined(items: Seq<Seq<char>>, sep: Seq<char>) -> Seq<char>
    decreases items.len(),
{
    if items.len() == 0 {
        Seq::empty()
    } else if items.len() == 1 {
        items[0]
    } else {
        joined(items.drop_last(), sep) + sep + items.last()
    }
}

/// Why a search was not sent.
#[derive(Debug, PartialEq, Eq)]
pub enum SearchError {
    /// The requested page reaches past the 10,000th result.
    PageBeyondLimit,
}

pub open spec fn strings_of(v: Option<Vec<String>>) -> Seq<Seq<char>> {
    match v {
        Some(l) => l@.map_values(|s: String| s@),
        None => Seq::empty(),
    }
}

/// Category ids as text (an absent id as empty text).
pub open spec fn category_texts(c: Seq<Option<i32>>) -> Seq<Seq<char>> {
    c.map_values(|x: Option<i32>| match x {
        Some(v) => int_decimal(v as int),
        None => Seq::empty(),
    })
}

pub open spec fn quoted(v: Seq<Seq<char>>) -> Seq<Seq<char>> {
    v.map_values(|s: Seq<char>| seq!['"'] + s + seq!['"'])
}

/// The first result index of a page: `(page - 1) * page_size`.
pub open spec fn page_index(page: Option<i32>, page_size: Option<i32>) -> int {
    let p = match page {
        Some(v) => v as int,
        None => 1,
    };
    let ps = match page_size {
        Some(v) => v as int,
        None => 25,
    };
    (p - 1) * ps
}

pub open spec fn page_len(page_size: Option<i32>) -> int {
    match page_size {
        Some(v) => v as int,
        None => 25,
    }
}

pub open spec fn class_part(class_id: Option<i32>) -> Seq<char> {
    match class_id {
        Some(v) => "&classId="@ + int_decimal(v as int),
        None => Seq::empty(),
    }
}

pub open spec fn categories_part(categories: Option<Seq<Option<i32>>>) -> Seq<char> {
    match categories {
        Some(c) => if c.len() > 0 {
            "&categoryIds=["@ + joined(category_texts(c), seq![',']) + seq![']']
        } else {
            Seq::empty()
        },
        None => Seq::empty(),
    }
}

pub open spec fn sort_part(sort_field: Option<i32>) -> Seq<char> {
    match sort_field {
        Some(v) => int_decimal(v as int),
        None => Seq::empty(),
    }
}

/// The mod search request of the v1 API: game 432 (Minecraft), the optional class,
/// the filter text, descending order, the quoted game versions, page size and first
/// index (page 1 of 25 by default), the category ids when some are given, the loader
/// types and the sort field.
pub open spec fn search_link(
    base: Seq<char>,
    filter: Seq<char>,
    game_versions: Seq<Seq<char>>,
    categories: Option<Seq<Option<i32>>>,
    loaders: Seq<Seq<char>>,
    sort_field: Option<i32>,
    page: Option<i32>,
    page_size: Option<i32>,
    class_id: Option<i32>,
) -> Seq<char> {
    let cls = class_part(class_id);
    let cats = categories_part(categories);
    let sort = sort_part(sort_field);
    base + "/v1/mods/search?gameId=432"@ + cls + "&searchFilter="@ + filter
        + "&sortOrder=desc&gameVersions=["@ + joined(quoted(game_versions), seq![',']) + "]&pageSize="@
        + int_decimal(page_len(page_size)) + "&index="@ + int_decimal(page_index(page, page_size)) + cats
        + "&modLoaderTypes=["@ + joined(loaders, seq![',']) + "]&sortField="@ + sort
}

pub(crate) fn join_exec(items: &Vec<Vec<char>>, sep: &[char]) -> (r: Vec<char>)
    ensures
        r@ == joined(items@.map_values(|v: Vec<char>| v@), sep@),
{
    let ghost its = items@.map_values(|v: Vec<char>| v@);
    let mut r: Vec<char> = Vec::new();
    let mut i: usize = 0;
    proof {
        assert(its.take(0) =~= Seq::<Seq<char>>::empty());
    }
    while i < items.len()
        invariant
            i <= items.len(),
            its == items@.map_values(|v: Vec<char>| v@),
            r@ == joined(its.take(i as int), sep@),
        decreases items.len() - i,
    {
        proof {
            assert(its.take(i + 1).drop_last() =~= its.take(i as int));
            assert(its.take(i + 1).last() == items@[i as int]@);
        }
        if i > 0 {
            push_all(&mut r, sep);
        } else {
            assert(its.take(1) =~= seq![items@[0]@]);
        }
        push_all(&mut r, items[i].as_slice());
        i = i + 1;
    }
    proof {
        assert(its.take(items.len() as int) =~= its);
    }
    r
}

fn strings_chars(v: &Option<Vec<String>>, quote: bool) -> (r: Vec<Vec<char>>)
    ensures
        r@.map_values(|x: Vec<char>| x@) == (if quote {
            quoted(strings_of(*v))
        } else {
            strings_of(*v)
        }),
{
    let mut r: Vec<Vec<char>> = Vec::new();
    match v {
        None => {
            proof {
                assert(r@.map_values(|x: Vec<char>| x@) =~= Seq::<Seq<char>>::empty());
                assert(quoted(Seq::<Seq<char>>::empty()) =~= Seq::<Seq<char>>::empty());
            }
        },
        Some(l) => {
            let mut i: usize = 0;
            while i < l.len()
                invariant
                    i <= l.len(),
                    r@.len() == i,
                    forall|k: int| 0 <= k < i ==> #[trigger] r@[k]@ == (if quote {
                        seq!['"'] + l@[k]@ + seq!['"']
                    } else {
                        l@[k]@
                    }),
                decreases l.len() - i,
            {
                let mut x: Vec<char> = Vec::new();
                if quote {
                    x.push('"');
                }
                push_all(&mut x, chars_of(l[i].as_str()).as_slice());
                if quote {
                    x.push('"');
                }
                r.push(x);
                i = i + 1;
            }
            proof {
                if quote {
                    assert(r@.map_values(|x: Vec<char>| x@) =~= quoted(strings_of(*v)));
                } else {
                    assert(r@.map_values(|x: Vec<char>| x@) =~= strings_of(*v));
                }
            }
        },
    }
    r
}

fn class_chars(class_id: Option<i32>) -> (r: Vec<char>)
    ensures
        r@ == class_part(class_id),
{
    match class_id {
        Some(v) => {
            let mut r = chars_of("&classId=");
            push_all(&mut r, i64_decimal(v as i64).as_slice());
            r
        },
        None => Vec::new(),
    }
}

fn sort_chars(sort_field: Option<i32>) -> (r: Vec<char>)
    ensures
        r@ == sort_part(sort_field),
{
    match sort_field {
        Some(v) => i64_decimal(v as i64),
        None => Vec::new(),
    }
}

fn categories_chars(categories: &Option<Vec<Option<i32>>>, comma: &[char]) -> (r: Vec<char>)
    requires
        comma@ == seq![','],
    ensures
        r@ == categories_part(
            match categories {
                Some(c) => Some(c@),
                None => None,
            },
        ),
{
    let mut cats: Vec<char> = Vec::new();
    match categories {
        Some(c) => {
            if c.len() > 0 {
                let mut texts: Vec<Vec<char>> = Vec::new();
                let mut i: usize = 0;
                while i < c.len()
                    invariant
                        i <= c.len(),
                        texts@.len() == i,
                        forall|k: int| 0 <= k < i ==> #[trigger] texts@[k]@ == category_texts(c@)[k],
                    decreases c.len() - i,
                {
                    let t = match c[i] {
                        Some(v) => i64_decimal(v as i64),
                        None => Vec::new(),
                    };
                    assert(t@ == category_texts(c@)[i as int]);
                    texts.push(t);
                    i = i + 1;
                }
                assert(texts@.map_values(|x: Vec<char>| x@) =~= category_texts(c@));
                cats = chars_of("&categoryIds=[");
                push_all(&mut cats, join_exec(&texts, comma).as_slice());
                cats.push(']');
            }
        },
        None => {},
    }
    cats
}

/// The search request for a page of results, refused when the page reaches past the
/// first 10,000 results.
pub fn search_url(
    base_url: &str,
    search_filter: &str,
    game_versions: &Option<Vec<String>>,
    categories: &Option<Vec<Option<i32>>>,
    mod_loader_types: &Option<Vec<String>>,
    sort_field: Option<i32>,
    page: Option<i32>,
    page_size: Option<i32>,
    class_id: Option<i32>,
) -> (r: Result<String, SearchError>)
    ensures
        match r {
            Err(e) => e == SearchError::PageBeyondLimit && page_index(page, page_size) + page_len(page_size) > 10000,
            Ok(u) => page_index(page, page_size) + page_len(page_size) <= 10000 && u@ == search_link(
                base_url@,
                search_filter@,
                strings_of(*game_versions),
                match categories {
                    Some(c) => Some(c@),
                    None => None,
                },
                strings_of(*mod_loader_types),
                sort_field,
                page,
                page_size,
                class_id,
            ),
        },
{
    let p: i64 = match page {
        Some(v) => v as i64,
        None => 1,
    };
    let ps: i64 = match page_size {
        Some(v) => v as i64,
        None => 25,
    };
    assert(-2147483649 <= p - 1 <= 2147483646);
    assert(-2147483648 <= ps <= 2147483647);
    assert((p - 1) * ps <= 4611686022722355200 && (p - 1) * ps >= -4611686022722355200) by (nonlinear_arith)
        requires
            -2147483649 <= p - 1 <= 2147483646,
            -2147483648 <= ps <= 2147483647,
    ;
    let index: i64 = (p - 1) * ps;
    if index + ps > 10000 {
        return Err(SearchError::PageBeyondLimit);
    }
    let comma = chars_of(",");
    proof {
        reveal_strlit(",");
        assert(comma@ =~= seq![',']);
    }
    let loaders = join_exec(&strings_chars(mod_loader_types, false), comma.as_slice());
    let versions = join_exec(&strings_chars(game_versions, true), comma.as_slice());
    let cats = categories_chars(categories, comma.as_slice());
    let cls = class_chars(class_id);
    let sort = sort_chars(sort_field);
    let mut u = chars_of(base_url);
    push_all(&mut u, chars_of("/v1/mods/search?gameId=432").as_slice());
    push_all(&mut u, cls.as_slice());
    push_all(&mut u, chars_of("&searchFilter=").as_slice());
    push_all(&mut u, chars_of(search_filter).as_slice());
    push_all(&mut u, chars_of("&sortOrder=desc&gameVersions=[").as_slice());
    push_all(&mut u, versions.as_slice());
    push_all(&mut u, chars_of("]&pageSize=").as_slice());
    push_all(&mut u, i64_decimal(ps).as_slice());
    push_all(&mut u, chars_of("&index=").as_slice());
    push_all(&mut u, i64_decimal(index).as_slice());
    push_all(&mut u, cats.as_slice());
    push_all(&mut u, chars_of("&modLoaderTypes=[").as_slice());
    push_all(&mut u, loaders.as_slice());
    push_all(&mut u, chars_of("]&sortField=").as_slice());
    push_all(&mut u, sort.as_slice());
    proof {
        assert(ps as int == page_len(page_size));
        assert(index as int == page_index(page, page_size));
    }
    Ok(string_of(u.as_slice()))
}

// ---------------------------------------------------------------------------
// Game versions of a search hit
// ---------------------------------------------------------------------------

/// Stable insertion into a list kept in strictly increasing order, dropping a text
/// already present.
pub open spec fn insert_sorted_unique(sorted: Seq<Seq<char>>, x: Seq<char>) -> Seq<Seq<char>>
    decreases sorted.len(),
{
    if sorted.len() == 0 {
        seq![x]
    } else if lex_order(x, sorted.last()) > 0 {
        sorted.push(x)
    } else if lex_order(x, sorted.last()) == 0 {
        sorted
    } else {
        insert_sorted_unique(sorted.drop_last(), x).push(sorted.last())
    }
}

/// The distinct texts in ordinal order (`sort` then `dedup`).
pub open spec fn sorted_unique(s: Seq<Seq<char>>) -> Seq<Seq<char>>
    decreases s.len(),
{
    if s.len() == 0 {
        Seq::empty()
    } else {
        insert_sorted_unique(sorted_unique(s.drop_last()), s.last())
    }
}

/// Each text orders strictly before every later one.
pub open spec fn strictly_increasing(s: Seq<Seq<char>>) -> bool {
    forall|i: int, j: int| 0 <= i < j < s.len() ==> lex_order(#[trigger] s[i], #[trigger] s[j]) < 0
}

proof fn lemma_insert_sorted_unique(sorted: Seq<Seq<char>>, x: Seq<char>)
    requires
        strictly_increasing(sorted),
    ensures
        strictly_increasing(insert_sorted_unique(sorted, x)),
        forall|y: Seq<char>| #[trigger] insert_sorted_unique(sorted, x).contains(y) <==> (sorted.contains(y) || y == x),
        forall|k: int| 0 <= k < insert_sorted_unique(sorted, x).len() ==> (#[trigger] insert_sorted_unique(sorted, x)[k] == x || sorted.contains(insert_sorted_unique(sorted, x)[k])),
    decreases sorted.len(),
{
    let r = insert_sorted_unique(sorted, x);
    if sorted.len() == 0 {
        assert(r == seq![x]);
        assert forall|y: Seq<char>| #[trigger] r.contains(y) <==> (sorted.contains(y) || y == x) by {
            if r.contains(y) {
                let k = choose|k: int| 0 <= k < r.len() && r[k] == y;
            }
            if y == x {
                assert(r[0] == y);
            }
        }
    } else {
        let last = sorted.last();
        let d = sorted.drop_last();
        lemma_lex_order_antisym(x, last);
        assert forall|i: int, j: int| 0 <= i < j < d.len() implies lex_order(#[trigger] d[i], #[trigger] d[j]) < 0 by {
            assert(d[i] == sorted[i] && d[j] == sorted[j]);
        }
        if lex_order(x, last) > 0 {
            assert(r == sorted.push(x));
            assert forall|i: int, j: int| 0 <= i < j < r.len() implies lex_order(#[trigger] r[i], #[trigger] r[j]) < 0 by {
                if j < sorted.len() {
                    assert(r[i] == sorted[i] && r[j] == sorted[j]);
                } else if i == sorted.len() - 1 {
                    assert(r[i] == last && r[j] == x);
                } else {
                    assert(r[i] == sorted[i]);
                    assert(lex_order(sorted[i], last) < 0);
                    lemma_lex_order_trans(sorted[i], last, x);
                }
            }
            assert forall|y: Seq<char>| #[trigger] r.contains(y) <==> (sorted.contains(y) || y == x) by {
                if r.contains(y) {
                    let k = choose|k: int| 0 <= k < r.len() && r[k] == y;
                    if k < sorted.len() {
                        assert(sorted[k] == y);
                    }
                }
                if sorted.contains(y) {
                    let k = choose|k: int| 0 <= k < sorted.len() && sorted[k] == y;
                    assert(r[k] == y);
                }
                if y == x {
                    assert(r[sorted.len() as int] == y);
                }
            }
            assert forall|k: int| 0 <= k < r.len() implies (#[trigger] r[k] == x || sorted.contains(r[k])) by {
                if k < sorted.len() {
                    assert(r[k] == sorted[k]);
                }
            }
        } else if lex_order(x, last) == 0 {
            lemma_lex_order_zero(x, last);
            assert(r == sorted);
            assert forall|y: Seq<char>| #[trigger] r.contains(y) <==> (sorted.contains(y) || y == x) by {
                if y == x {
                    assert(sorted[sorted.len() - 1] == y);
                }
            }
        } else {
            lemma_insert_sorted_unique(d, x);
            let m = insert_sorted_unique(d, x);
            assert(r == m.push(last));
            assert forall|k: int| 0 <= k < m.len() implies lex_order(#[trigger] m[k], last) < 0 by {
                if m[k] != x {
                    assert(d.contains(m[k]));
                    let i = choose|i: int| 0 <= i < d.len() && d[i] == m[k];
                    assert(sorted[i] == d[i]);
                }
            }
            assert forall|i: int, j: int| 0 <= i < j < r.len() implies lex_order(#[trigger] r[i], #[trigger] r[j]) < 0 by {
                if j < m.len() {
                    assert(r[i] == m[i] && r[j] == m[j]);
                } else {
                    assert(r[i] == m[i] && r[j] == last);
                }
            }
            assert forall|y: Seq<char>| #[trigger] r.contains(y) <==> (sorted.contains(y) || y == x) by {
                if r.contains(y) {
                    let k = choose|k: int| 0 <= k < r.len() && r[k] == y;
                    if k < m.len() {
                        assert(m.contains(y));
                        if d.contains(y) {
                            let i = choose|i: int| 0 <= i < d.len() && d[i] == y;
                            assert(sorted[i] == y);
                        }
                    } else {
                        assert(sorted[sorted.len() - 1] == y);
                    }
                }
                if sorted.contains(y) {
                    let k = choose|k: int| 0 <= k < sorted.len() && sorted[k] == y;
                    if k < d.len() {
                        assert(d[k] == y);
                        assert(m.contains(y));
                        let q = choose|q: int| 0 <= q < m.len() && m[q] == y;
                        assert(r[q] == y);
                    } else {
                        assert(r[m.len() as int] == y);
                    }
                }
                if y == x {
                    assert(m.contains(x));
                    let q = choose|q: int| 0 <= q < m.len() && m[q] == x;
                    assert(r[q] == x);
                }
            }
            assert forall|k: int| 0 <= k < r.len() implies (#[trigger] r[k] == x || sorted.contains(r[k])) by {
                if k < m.len() {
                    assert(r[k] == m[k]);
                    if m[k] != x {
                        let i = choose|i: int| 0 <= i < d.len() && d[i] == m[k];
                        assert(sorted[i] == d[i]);
                    }
                } else {
                    assert(r[k] == sorted[sorted.len() - 1]);
                }
            }
        }
    }
}

/// The game-version summary lists each version of a search hit once, in ordinal order:
/// strictly increasing, holding exactly the given versions.
pub proof fn lemma_sorted_unique(s: Seq<Seq<char>>)
    ensures
        strictly_increasing(sorted_unique(s)),
        forall|y: Seq<char>| #[trigger] sorted_unique(s).contains(y) <==> s.contains(y),
    decreases s.len(),
{
    if s.len() > 0 {
        let d = s.drop_last();
        lemma_sorted_unique(d);
        lemma_insert_sorted_unique(sorted_unique(d), s.last());
        assert forall|y: Seq<char>| #[trigger] sorted_unique(s).contains(y) <==> s.contains(y) by {
            if d.contains(y) {
                let i = choose|i: int| 0 <= i < d.len() && d[i] == y;
                assert(s[i] == y);
            }
            if s.contains(y) {
                let i = choose|i: int| 0 <= i < s.len() && s[i] == y;
                if i < d.len() {
                    assert(d[i] == y);
                }
            }
        }
    } else {
        assert(sorted_unique(s) =~= Seq::<Seq<char>>::empty());
    }
}

fn insert_sorted_unique_exec(sorted: &mut Vec<Vec<char>>, x: Vec<char>)
    ensures
        final(sorted)@.map_values(|v: Vec<char>| v@) == insert_sorted_unique(
            old(sorted)@.map_values(|v: Vec<char>| v@),
            x@,
        ),
    decreases old(sorted)@.len(),
{
    let n = sorted.len();
    if n == 0 {
        sorted.push(x);
        proof {
            assert(sorted@.map_values(|v: Vec<char>| v@) =~= seq![x@]);
        }
        return;
    }
    let c = string_compare_ordinal(x.as_slice(), sorted[n - 1].as_slice());
    let ghost before = old(sorted)@.map_values(|v: Vec<char>| v@);
    if c > 0 {
        sorted.push(x);
        proof {
            assert(sorted@.map_values(|v: Vec<char>| v@) =~= before.push(x@));
        }
    } else if c == 0 {
    } else {
        let last = sorted.pop().unwrap();
        proof {
            assert(sorted@.map_values(|v: Vec<char>| v@) =~= before.drop_last());
        }
        insert_sorted_unique_exec(sorted, x);
        let ghost mid = sorted@.map_values(|v: Vec<char>| v@);
        sorted.push(last);
        proof {
            assert(sorted@.map_values(|v: Vec<char>| v@) =~= mid.push(last@));
        }
    }
}

/// The game versions of a search hit's latest files as one text: distinct, in ordinal
/// order, separated by ", ".
pub fn game_versions_text(versions: &Vec<String>) -> (r: String)
    ensures
        r@ == joined(sorted_unique(versions@.map_values(|s: String| s@)), ", "@),
{
    let ghost vs = versions@.map_values(|s: String| s@);
    let mut sorted: Vec<Vec<char>> = Vec::new();
    let mut i: usize = 0;
    proof {
        assert(vs.take(0) =~= Seq::<Seq<char>>::empty());
        assert(sorted@.map_values(|v: Vec<char>| v@) =~= Seq::<Seq<char>>::empty());
    }
    while i < versions.len()
        invariant
            i <= versions.len(),
            vs == versions@.map_values(|s: String| s@),
            sorted@.map_values(|v: Vec<char>| v@) == sorted_unique(vs.take(i as int)),
        decreases versions.len() - i,
    {
        proof {
            assert(vs.take(i + 1).drop_last() =~= vs.take(i as int));
            assert(vs.take(i + 1).last() == versions@[i as int]@);
        }
        insert_sorted_unique_exec(&mut sorted, chars_of(versions[i].as_str()));
        i = i + 1;
    }
    proof {
        assert(vs.take(versions.len() as int) =~= vs);
    }
    let sep = chars_of(", ");
    string_of(join_exec(&sorted, sep.as_slice()).as_slice())
}


// ---------------------------------------------------------------------------
// Batched file queries
// ---------------------------------------------------------------------------

/// The most file ids one `/v1/mods/files` request carries.
pub const MAX_BATCH_FILE_IDS: usize = 100;

/// A file id CurseForge accepts: a positive 32-bit integer.
pub open spec fn valid_file_id(id: i64) -> bool {
    0 < id <= i32::MAX
}

/// The accepted ids of a chunk, in order.
pub open spec fn valid_file_ids(ids: Seq<i64>) -> Seq<i64>
    decreases ids.len(),
{
    if ids.len() == 0 {
        Seq::empty()
    } else if valid_file_id(ids.last()) {
        valid_file_ids(ids.drop_last()).push(ids.last())
    } else {
        valid_file_ids(ids.drop_last())
    }
}

/// The requests of a batched file query: the ids in chunks of 100, each chunk without
/// the ids CurseForge refuses; a chunk left empty is not sent.
pub open spec fn request_batches(ids: Seq<i64>) -> Seq<Seq<i64>>
    decreases ids.len(),
{
    if ids.len() == 0 {
        Seq::empty()
    } else {
        let n = if ids.len() < 100 {
            ids.len() as int
        } else {
            100
        };
        let v = valid_file_ids(ids.take(n));
        let rest = request_batches(ids.skip(n));
        if v.len() == 0 {
            rest
        } else {
            seq![v] + rest
        }
    }
}

fn valid_file_ids_exec(ids: &[i64], start: usize, end: usize) -> (r: Vec<i64>)
    requires
        start <= end <= ids.len(),
    ensures
        r@ == valid_file_ids(ids@.subrange(start as int, end as int)),
{
    let mut r: Vec<i64> = Vec::new();
    let mut k: usize = start;
    proof {
        assert(ids@.subrange(start as int, start as int) =~= Seq::<i64>::empty());
    }
    while k < end
        invariant
            start <= k <= end <= ids.len(),
            r@ == valid_file_ids(ids@.subrange(start as int, k as int)),
        decreases end - k,
    {
        proof {
            assert(ids@.subrange(start as int, k + 1).drop_last() =~= ids@.subrange(start as int, k as int));
        }
        if 0 < ids[k] && ids[k] <= 2147483647 {
            r.push(ids[k]);
        }
        k = k + 1;
    }
    r
}

/// The id lists of the requests a batched file query sends.
pub fn file_id_batches(file_ids: &[i64]) -> (r: Vec<Vec<i64>>)
    ensures
        r@.map_values(|b: Vec<i64>| b@) == request_batches(file_ids@),
{
    let mut r: Vec<Vec<i64>> = Vec::new();
    let mut i: usize = 0;
    proof {
        assert(file_ids@.skip(0) =~= file_ids@);
        assert(r@.map_values(|b: Vec<i64>| b@) + request_batches(file_ids@.skip(0)) =~= request_batches(file_ids@));
    }
    while i < file_ids.len()
        invariant
            i <= file_ids.len(),
            r@.map_values(|b: Vec<i64>| b@) + request_batches(file_ids@.skip(i as int)) == request_batches(file_ids@),
        decreases file_ids.len() - i,
    {
        let end: usize = if file_ids.len() - i < MAX_BATCH_FILE_IDS {
            file_ids.len()
        } else {
            i + MAX_BATCH_FILE_IDS
        };
        let ghost rest = file_ids@.skip(i as int);
        proof {
            assert(rest.take(end - i) =~= file_ids@.subrange(i as int, end as int));
            assert(rest.skip(end - i) =~= file_ids@.skip(end as int));
        }
        let v = valid_file_ids_exec(file_ids, i, end);
        let ghost before = r@;
        if v.len() > 0 {
            r.push(v);
            proof {
                assert(r@.map_values(|b: Vec<i64>| b@) =~= before.map_values(|b: Vec<i64>| b@).push(v@));
                assert(before.map_values(|b: Vec<i64>| b@).push(v@) + request_batches(file_ids@.skip(end as int))
                    =~= before.map_values(|b: Vec<i64>| b@) + (seq![v@] + request_batches(file_ids@.skip(end as int))));
            }
        }
        i = end;
    }
    proof {
        assert(request_batches(file_ids@.skip(i as int)) =~= Seq::<Seq<i64>>::empty());
        assert(r@.map_values(|b: Vec<i64>| b@) + Seq::<Seq<i64>>::empty() =~= r@.map_values(|b: Vec<i64>| b@));
    }
    r
}

/// The body of a batched file request: `{"fileIds":[..]}` with the ids in decimal.
pub open spec fn file_ids_body(ids: Seq<i64>) -> Seq<char> {
    "{\"fileIds\":["@ + joined(ids.map_values(|id: i64| int_decimal(id as int)), seq![',']) + "]}"@
}

fn decimal_list(ids: &[i64]) -> (r: Vec<char>)
    ensures
        r@ == joined(ids@.map_values(|id: i64| int_decimal(id as int)), seq![',']),
{
    let mut items: Vec<Vec<char>> = Vec::new();
    let mut k: usize = 0;
    while k < ids.len()
        invariant
            k <= ids.len(),
            items@.map_values(|v: Vec<char>| v@) == ids@.take(k as int).map_values(|id: i64| int_decimal(id as int)),
        decreases ids.len() - k,
    {
        let d = i64_decimal(ids[k]);
        let ghost before = items@;
        items.push(d);
        proof {
            assert(items@.map_values(|v: Vec<char>| v@) =~= before.map_values(|v: Vec<char>| v@).push(d@));
            assert(ids@.take(k + 1).map_values(|id: i64| int_decimal(id as int)) =~= ids@.take(k as int).map_values(
                |id: i64| int_decimal(id as int),
            ).push(int_decimal(ids@[k as int] as int)));
        }
        k = k + 1;
    }
    proof {
        assert(ids@.take(ids.len() as int) =~= ids@);
    }
    let comma = chars_of(",");
    proof {
        reveal_strlit(",");
        assert(comma@ =~= seq![',']);
    }
    join_exec(&items, comma.as_slice())
}

/// The JSON body of one batched file request.
pub fn file_ids_request_body(ids: &[i64]) -> (r: String)
    ensures
        r@ == file_ids_body(ids@),
{
    let mut b = chars_of("{\"fileIds\":[");
    push_all(&mut b, decimal_list(ids).as_slice());
    push_all(&mut b, chars_of("]}").as_slice());
    string_of(b.as_slice())
}

/// The body of a fingerprint lookup: `{"fingerprints":[..]}` with the fingerprints in
/// decimal.
pub open spec fn fingerprints_body(fingerprints: Seq<i64>) -> Seq<char> {
    "{\"fingerprints\":["@ + joined(fingerprints.map_values(|id: i64| int_decimal(id as int)), seq![',']) + "]}"@
}

/// The JSON body of a fingerprint lookup.
pub fn fingerprints_request_body(fingerprints: &[i64]) -> (r: String)
    ensures
        r@ == fingerprints_body(fingerprints@),
{
    let mut b = chars_of("{\"fingerprints\":[");
    push_all(&mut b, decimal_list(fingerprints).as_slice());
    push_all(&mut b, chars_of("]}").as_slice());
    string_of(b.as_slice())
}

/// The key of a fingerprint match: the file's `fileFingerprint` when it has one, its
/// `id` otherwise (a match keyed 0 is dropped by the callers).
pub fn fingerprint_key(file_fingerprint: Option<i64>, id: i64) -> (r: i64)
    ensures
        r == match file_fingerprint {
            Some(f) => f,
            None => id,
        },
{
    match file_fingerprint {
        Some(f) => f,
        None => id,
    }
}

} // verus!
