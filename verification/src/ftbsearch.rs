//! Searching the FTB modpack catalogue: the packs are filtered by text, tags, game
//! version and loader, sorted by the chosen key and cut to the requested count.
use vstd::prelude::*;
use crate::text::{chars_of, contains_exec, contains_seq, eq_ignore_case, eq_ignore_case_exec, seq_eq};
use crate::version::{to_lowercase, unicode_lowercase};

verus! {

/// A target of a pack version: its kind ("game", "modloader", ...), version and name.
pub struct FtbTarget {
    pub target_type: Option<String>,
    pub version: Option<String>,
    pub name: Option<String>,
}

/// A pack of the catalogue, with what the search reads of it. `latest_targets` holds
/// the targets of the pack's latest version (`None` when it has no latest version or
/// that version lists no targets).
pub struct FtbPack {
    pub id: i64,
    pub name: String,
    pub synopsis: Option<String>,
    pub tags: Option<Vec<String>>,
    pub latest_targets: Option<Vec<FtbTarget>>,
    pub featured: Option<bool>,
    pub plays: i64,
    pub plays_14d: i64,
    pub installs: i64,
    pub released: i64,
    pub updated: i64,
}

/// The order of the search results.
#[derive(Clone, Copy, Debug, PartialEq, Eq, Structural)]
pub enum FtbSort {
    /// Featured packs first, then by plays, most first (the default).
    Featured,
    /// Plays of the last 14 days, most first.
    Trending,
    /// Name, in ascending character order.
    Name,
    /// Plays, most first.
    Plays,
    /// Installs, most first.
    Downloads,
    /// Release time, newest first.
    Released,
    /// Update time, newest first.
    Updated,
}

/// The order a sort name asks for; an unknown name asks for the default order.
pub open spec fn sort_of(name: Seq<char>) -> FtbSort {
    if name == "trending"@ {
        FtbSort::Trending
    } else if name == "name"@ {
        FtbSort::Name
    } else if name == "plays"@ {
        FtbSort::Plays
    } else if name == "downloads"@ {
        FtbSort::Downloads
    } else if name == "released"@ {
        FtbSort::Released
    } else if name == "updated"@ {
        FtbSort::Updated
    } else {
        FtbSort::Featured
    }
}

/// The order of a sort name.
pub fn ftb_sort_mode(name: &str) -> (r: FtbSort)
    ensures
        r == sort_of(name@),
{
    let n = chars_of(name);
    if seq_eq(n.as_slice(), chars_of("trending").as_slice()) {
        FtbSort::Trending
    } else if seq_eq(n.as_slice(), chars_of("name").as_slice()) {
        FtbSort::Name
    } else if seq_eq(n.as_slice(), chars_of("plays").as_slice()) {
        FtbSort::Plays
    } else if seq_eq(n.as_slice(), chars_of("downloads").as_slice()) {
        FtbSort::Downloads
    } else if seq_eq(n.as_slice(), chars_of("released").as_slice()) {
        FtbSort::Released
    } else if seq_eq(n.as_slice(), chars_of("updated").as_slice()) {
        FtbSort::Updated
    } else {
        FtbSort::Featured
    }
}

// ---------------------------------------------------------------------------
// Filters
// ---------------------------------------------------------------------------

/// A filter that is given and not empty.
pub open spec fn active(f: Option<Seq<char>>) -> bool {
    f is Some && f->0.len() > 0
}

pub open spec fn opt_view(o: Option<String>) -> Option<Seq<char>> {
    match o {
        Some(s) => Some(s@),
        None => None,
    }
}

pub open spec fn opt_views(o: Option<&[String]>) -> Option<Seq<Seq<char>>> {
    match o {
        Some(s) => Some(s@.map_values(|t: String| t@)),
        None => None,
    }
}

/// The lower-cased query occurs in the lower-cased name or synopsis.
pub open spec fn query_ok(p: FtbPack, q: Option<Seq<char>>) -> bool {
    active(q) ==> {
        let lq = unicode_lowercase(q->0);
        contains_seq(unicode_lowercase(p.name@), lq) || (p.synopsis is Some && contains_seq(
            unicode_lowercase(p.synopsis->0@),
            lq,
        ))
    }
}

/// Some tag of the pack equals some wanted tag, ASCII case aside.
pub open spec fn tags_ok(p: FtbPack, wanted: Option<Seq<Seq<char>>>) -> bool {
    (wanted is Some && wanted->0.len() > 0) ==> (p.tags is Some && exists|i: int, j: int|
        0 <= i < p.tags->0@.len() && 0 <= j < wanted->0.len() && eq_ignore_case(
            #[trigger] p.tags->0@[i]@,
            #[trigger] wanted->0[j],
        ))
}

pub open spec fn is_text(o: Option<String>, t: Seq<char>) -> bool {
    o is Some && o->0@ == t
}

/// A "game" target of the latest version has exactly the wanted version.
pub open spec fn game_ok(p: FtbPack, mc: Option<Seq<char>>) -> bool {
    active(mc) ==> (p.latest_targets is Some && exists|i: int|
        0 <= i < p.latest_targets->0@.len() && is_text((#[trigger] p.latest_targets->0@[i]).target_type, "game"@)
            && is_text(p.latest_targets->0@[i].version, mc->0))
}

/// A "modloader" target of the latest version has the wanted name, ASCII case aside.
pub open spec fn loader_ok(p: FtbPack, loader: Option<Seq<char>>) -> bool {
    active(loader) ==> (p.latest_targets is Some && exists|i: int|
        0 <= i < p.latest_targets->0@.len() && is_text((#[trigger] p.latest_targets->0@[i]).target_type, "modloader"@)
            && p.latest_targets->0@[i].name is Some && eq_ignore_case(
            p.latest_targets->0@[i].name->0@,
            loader->0,
        ))
}

pub open spec fn pack_ok(
    p: FtbPack,
    q: Option<Seq<char>>,
    tags: Option<Seq<Seq<char>>>,
    mc: Option<Seq<char>>,
    loader: Option<Seq<char>>,
) -> bool {
    query_ok(p, q) && tags_ok(p, tags) && game_ok(p, mc) && loader_ok(p, loader)
}

/// The packs that pass every filter, in catalogue order.
pub open spec fn filter_packs(
    s: Seq<FtbPack>,
    q: Option<Seq<char>>,
    tags: Option<Seq<Seq<char>>>,
    mc: Option<Seq<char>>,
    loader: Option<Seq<char>>,
) -> Seq<FtbPack>
    decreases s.len(),
{
    if s.len() == 0 {
        s
    } else {
        let r = filter_packs(s.drop_last(), q, tags, mc, loader);
        if pack_ok(s.last(), q, tags, mc, loader) {
            r.push(s.last())
        } else {
            r
        }
    }
}

fn opt_text_is(o: &Option<String>, t: &str) -> (r: bool)
    ensures
        r == is_text(*o, t@),
{
    match o {
        Some(s) => seq_eq(chars_of(s.as_str()).as_slice(), chars_of(t).as_slice()),
        None => false,
    }
}

fn lower_chars(s: &str) -> (r: Vec<char>)
    ensures
        r@ == unicode_lowercase(s@),
{
    chars_of(to_lowercase(s).as_str())
}

fn query_ok_exec(p: &FtbPack, lq: &Option<Vec<char>>, q: Ghost<Option<Seq<char>>>) -> (r: bool)
    requires
        match q@ {
            Some(t) => if t.len() > 0 { lq is Some && lq->0@ == unicode_lowercase(t) } else { lq is None },
            None => lq is None,
        },
    ensures
        r == query_ok(*p, q@),
{
    match lq {
        None => true,
        Some(l) => {
            if contains_exec(lower_chars(p.name.as_str()).as_slice(), l.as_slice()) {
                true
            } else {
                match &p.synopsis {
                    Some(s) => contains_exec(lower_chars(s.as_str()).as_slice(), l.as_slice()),
                    None => false,
                }
            }
        },
    }
}

fn tags_ok_exec(p: &FtbPack, wanted: Option<&[String]>) -> (r: bool)
    ensures
        r == tags_ok(*p, opt_views(wanted)),
{
    match wanted {
        None => true,
        Some(ws) => {
            if ws.len() == 0 {
                return true;
            }
            let ghost wv = ws@.map_values(|t: String| t@);
            match &p.tags {
                None => false,
                Some(ts) => {
                    let mut i: usize = 0;
                    while i < ts.len()
                        invariant
                            i <= ts.len(),
                            wv == ws@.map_values(|t: String| t@),
                            p.tags is Some && p.tags->0@ == ts@,
                            opt_views(wanted) == Some(wv),
                            forall|a: int, b: int|
                                0 <= a < i && 0 <= b < wv.len() ==> !eq_ignore_case(
                                    #[trigger] ts@[a]@,
                                    #[trigger] wv[b],
                                ),
                        decreases ts.len() - i,
                    {
                        let t = chars_of(ts[i].as_str());
                        let mut j: usize = 0;
                        while j < ws.len()
                            invariant
                                i < ts.len(),
                                j <= ws.len(),
                                p.tags is Some && p.tags->0@ == ts@,
                                opt_views(wanted) == Some(wv),
                                t@ == ts@[i as int]@,
                                wv == ws@.map_values(|t: String| t@),
                                forall|a: int, b: int|
                                    0 <= a < i && 0 <= b < wv.len() ==> !eq_ignore_case(
                                        #[trigger] ts@[a]@,
                                        #[trigger] wv[b],
                                    ),
                                forall|b: int| 0 <= b < j ==> !eq_ignore_case(ts@[i as int]@, #[trigger] wv[b]),
                            decreases ws.len() - j,
                        {
                            if eq_ignore_case_exec(t.as_slice(), chars_of(ws[j].as_str()).as_slice()) {
                                proof {
                                    assert(wv[j as int] == ws@[j as int]@);
                                    assert(ts@ == p.tags->0@);
                                    assert(eq_ignore_case(p.tags->0@[i as int]@, opt_views(wanted)->0[j as int]));
                                }
                                return true;
                            }
                            j = j + 1;
                        }
                        i = i + 1;
                    }
                    false
                },
            }
        },
    }
}

fn game_ok_exec(p: &FtbPack, mc: Option<&str>) -> (r: bool)
    ensures
        r == game_ok(*p, opt_ref_view(mc)),
{
    match mc {
        None => true,
        Some(m) => {
            let mcs = chars_of(m);
            if mcs.len() == 0 {
                return true;
            }
            match &p.latest_targets {
                None => false,
                Some(ts) => {
                    let mut i: usize = 0;
                    while i < ts.len()
                        invariant
                            i <= ts.len(),
                            p.latest_targets is Some && p.latest_targets->0@ == ts@,
                            opt_ref_view(mc) == Some(m@),
                            m@.len() > 0,
                            forall|a: int|
                                0 <= a < i ==> !(is_text((#[trigger] ts@[a]).target_type, "game"@) && is_text(
                                    ts@[a].version,
                                    m@,
                                )),
                        decreases ts.len() - i,
                    {
                        if opt_text_is(&ts[i].target_type, "game") && opt_text_is(&ts[i].version, m) {
                            proof {
                                assert(ts@ == p.latest_targets->0@);
                                assert(is_text(p.latest_targets->0@[i as int].target_type, "game"@));
                            }
                            return true;
                        }
                        i = i + 1;
                    }
                    false
                },
            }
        },
    }
}

fn loader_ok_exec(p: &FtbPack, loader: Option<&str>) -> (r: bool)
    ensures
        r == loader_ok(*p, opt_ref_view(loader)),
{
    match loader {
        None => true,
        Some(l) => {
            let lc = chars_of(l);
            if lc.len() == 0 {
                return true;
            }
            match &p.latest_targets {
                None => false,
                Some(ts) => {
                    let mut i: usize = 0;
                    while i < ts.len()
                        invariant
                            i <= ts.len(),
                            lc@ == l@,
                            p.latest_targets is Some && p.latest_targets->0@ == ts@,
                            opt_ref_view(loader) == Some(l@),
                            l@.len() > 0,
                            forall|a: int|
                                0 <= a < i ==> !(is_text((#[trigger] ts@[a]).target_type, "modloader"@)
                                    && ts@[a].name is Some && eq_ignore_case(ts@[a].name->0@, l@)),
                        decreases ts.len() - i,
                    {
                        if opt_text_is(&ts[i].target_type, "modloader") {
                            match &ts[i].name {
                                Some(n) => {
                                    if eq_ignore_case_exec(chars_of(n.as_str()).as_slice(), lc.as_slice()) {
                                        proof {
                                            assert(ts@ == p.latest_targets->0@);
                                            assert(is_text(p.latest_targets->0@[i as int].target_type, "modloader"@));
                                        }
                                        return true;
                                    }
                                },
                                None => {},
                            }
                        }
                        i = i + 1;
                    }
                    false
                },
            }
        },
    }
}

pub open spec fn opt_ref_view(o: Option<&str>) -> Option<Seq<char>> {
    match o {
        Some(s) => Some(s@),
        None => None,
    }
}

fn pack_ok_exec(
    p: &FtbPack,
    lq: &Option<Vec<char>>,
    q: Ghost<Option<Seq<char>>>,
    tags: Option<&[String]>,
    mc: Option<&str>,
    loader: Option<&str>,
) -> (r: bool)
    requires
        match q@ {
            Some(t) => if t.len() > 0 { lq is Some && lq->0@ == unicode_lowercase(t) } else { lq is None },
            None => lq is None,
        },
    ensures
        r == pack_ok(*p, q@, opt_views(tags), opt_ref_view(mc), opt_ref_view(loader)),
{
    query_ok_exec(p, lq, q) && tags_ok_exec(p, tags) && game_ok_exec(p, mc) && loader_ok_exec(p, loader)
}

fn filter_packs_exec(
    packs: Vec<FtbPack>,
    lq: &Option<Vec<char>>,
    q: Ghost<Option<Seq<char>>>,
    tags: Option<&[String]>,
    mc: Option<&str>,
    loader: Option<&str>,
) -> (r: Vec<FtbPack>)
    requires
        match q@ {
            Some(t) => if t.len() > 0 { lq is Some && lq->0@ == unicode_lowercase(t) } else { lq is None },
            None => lq is None,
        },
    ensures
        r@ == filter_packs(packs@, q@, opt_views(tags), opt_ref_view(mc), opt_ref_view(loader)),
{
    let ghost all = packs@;
    assert(all.len() == packs.len());
    let ghost (tv, mv, lv) = (opt_views(tags), opt_ref_view(mc), opt_ref_view(loader));
    let mut kept: Vec<FtbPack> = Vec::new();
    let mut rest = packs;
    let mut i: usize = 0;
    proof {
        assert(rest@ =~= all.skip(0));
        assert(all.take(0) =~= Seq::<FtbPack>::empty());
    }
    while rest.len() > 0
        invariant
            all.len() <= usize::MAX,
            i + rest@.len() == all.len(),
            rest@ == all.skip(i as int),
            kept@ == filter_packs(all.take(i as int), q@, tv, mv, lv),
            tv == opt_views(tags),
            mv == opt_ref_view(mc),
            lv == opt_ref_view(loader),
            match q@ {
                Some(t) => if t.len() > 0 { lq is Some && lq->0@ == unicode_lowercase(t) } else { lq is None },
                None => lq is None,
            },
        decreases rest@.len(),
    {
        let ghost before = rest@;
        let x = rest.remove(0);
        proof {
            assert(x == all[i as int]);
            assert(all.take(i + 1).drop_last() =~= all.take(i as int));
            assert(all.take(i + 1).last() == x);
            assert(rest@ =~= all.skip(i + 1));
        }
        if pack_ok_exec(&x, lq, q, tags, mc, loader) {
            kept.push(x);
        }
        i = i + 1;
    }
    proof {
        assert(all.take(i as int) =~= all);
    }
    kept
}

// ---------------------------------------------------------------------------
// Ordering
// ---------------------------------------------------------------------------

/// `a` comes before `b` in character order (shorter prefixes first).
pub open spec fn name_less(a: Seq<char>, b: Seq<char>) -> bool
    decreases a.len(),
{
    if a.len() == 0 {
        b.len() > 0
    } else if b.len() == 0 {
        false
    } else if (a[0] as u32) != (b[0] as u32) {
        (a[0] as u32) < (b[0] as u32)
    } else {
        name_less(a.skip(1), b.skip(1))
    }
}

/// The pack was featured.
pub open spec fn featured(p: FtbPack) -> bool {
    p.featured == Some(true)
}

/// `a` goes strictly before `b` in the order.
pub open spec fn before(a: FtbPack, b: FtbPack, mode: FtbSort) -> bool {
    match mode {
        FtbSort::Featured => (featured(a) && !featured(b)) || (featured(a) == featured(b) && a.plays > b.plays),
        FtbSort::Trending => a.plays_14d > b.plays_14d,
        FtbSort::Name => name_less(a.name@, b.name@),
        FtbSort::Plays => a.plays > b.plays,
        FtbSort::Downloads => a.installs > b.installs,
        FtbSort::Released => a.released > b.released,
        FtbSort::Updated => a.updated > b.updated,
    }
}

/// Stable insertion into an ordered list: `x` goes before the trailing packs it
/// strictly precedes.
pub open spec fn insert_pack(sorted: Seq<FtbPack>, x: FtbPack, mode: FtbSort) -> Seq<FtbPack>
    decreases sorted.len(),
{
    if sorted.len() == 0 {
        seq![x]
    } else if before(x, sorted.last(), mode) {
        insert_pack(sorted.drop_last(), x, mode).push(sorted.last())
    } else {
        sorted.push(x)
    }
}

/// The stable sort in the order.
pub open spec fn sort_packs(s: Seq<FtbPack>, mode: FtbSort) -> Seq<FtbPack>
    decreases s.len(),
{
    if s.len() == 0 {
        s
    } else {
        insert_pack(sort_packs(s.drop_last(), mode), s.last(), mode)
    }
}

fn name_less_exec(a: &[char], b: &[char]) -> (r: bool)
    ensures
        r == name_less(a@, b@),
{
    let mut i: usize = 0;
    proof {
        assert(a@.skip(0) =~= a@);
        assert(b@.skip(0) =~= b@);
    }
    while i < a.len() && i < b.len() && (a[i] as u32) == (b[i] as u32)
        invariant
            i <= a.len(),
            i <= b.len(),
            name_less(a@, b@) == name_less(a@.skip(i as int), b@.skip(i as int)),
        decreases a.len() - i,
    {
        proof {
            let (x, y) = (a@.skip(i as int), b@.skip(i as int));
            assert(x.skip(1) =~= a@.skip(i + 1));
            assert(y.skip(1) =~= b@.skip(i + 1));
            assert(x[0] == a@[i as int]);
            assert(y[0] == b@[i as int]);
        }
        i = i + 1;
    }
    proof {
        let (x, y) = (a@.skip(i as int), b@.skip(i as int));
        if i < a.len() {
            assert(x[0] == a@[i as int]);
        }
        if i < b.len() {
            assert(y[0] == b@[i as int]);
        }
    }
    if i == a.len() {
        i < b.len()
    } else if i == b.len() {
        false
    } else {
        (a[i] as u32) < (b[i] as u32)
    }
}

fn before_exec(a: &FtbPack, b: &FtbPack, mode: FtbSort) -> (r: bool)
    ensures
        r == before(*a, *b, mode),
{
    match mode {
        FtbSort::Featured => {
            let fa = match a.featured {
                Some(f) => f,
                None => false,
            };
            let fb = match b.featured {
                Some(f) => f,
                None => false,
            };
            (fa && !fb) || (fa == fb && a.plays > b.plays)
        },
        FtbSort::Trending => a.plays_14d > b.plays_14d,
        FtbSort::Name => name_less_exec(chars_of(a.name.as_str()).as_slice(), chars_of(b.name.as_str()).as_slice()),
        FtbSort::Plays => a.plays > b.plays,
        FtbSort::Downloads => a.installs > b.installs,
        FtbSort::Released => a.released > b.released,
        FtbSort::Updated => a.updated > b.updated,
    }
}

fn insert_pack_exec(sorted: &mut Vec<FtbPack>, x: FtbPack, mode: FtbSort)
    ensures
        final(sorted)@ == insert_pack(old(sorted)@, x, mode),
{
    let ghost start = sorted@;
    let mut j: usize = sorted.len();
    proof {
        assert(start.take(j as int) =~= start);
        assert(start.skip(j as int) =~= Seq::<FtbPack>::empty());
        assert(insert_pack(start, x, mode) + Seq::<FtbPack>::empty() =~= insert_pack(start, x, mode));
    }
    while j > 0 && before_exec(&x, &sorted[j - 1], mode)
        invariant
            j <= sorted.len(),
            sorted@ == start,
            insert_pack(start, x, mode) == insert_pack(start.take(j as int), x, mode) + start.skip(j as int),
        decreases j,
    {
        proof {
            let t = start.take(j as int);
            assert(t.drop_last() =~= start.take(j - 1));
            assert(t.last() == start[j - 1]);
            assert(seq![start[j - 1]] + start.skip(j as int) =~= start.skip(j - 1));
            assert(insert_pack(start.take(j - 1), x, mode).push(start[j - 1]) + start.skip(j as int) =~= insert_pack(
                start.take(j - 1),
                x,
                mode,
            ) + start.skip(j - 1));
        }
        j = j - 1;
    }
    proof {
        let t = start.take(j as int);
        if j > 0 {
            assert(t.last() == start[j - 1]);
        }
        assert(insert_pack(t, x, mode) =~= t.push(x));
        assert(start.take(j as int).push(x) + start.skip(j as int) =~= start.insert(j as int, x));
    }
    sorted.insert(j, x);
}

fn sort_packs_exec(packs: Vec<FtbPack>, mode: FtbSort) -> (r: Vec<FtbPack>)
    ensures
        r@ == sort_packs(packs@, mode),
{
    let ghost all = packs@;
    assert(all.len() == packs.len());
    let mut sorted: Vec<FtbPack> = Vec::new();
    let mut rest = packs;
    let mut i: usize = 0;
    proof {
        assert(rest@ =~= all.skip(0));
        assert(all.take(0) =~= Seq::<FtbPack>::empty());
    }
    while rest.len() > 0
        invariant
            all.len() <= usize::MAX,
            i + rest@.len() == all.len(),
            rest@ == all.skip(i as int),
            sorted@ == sort_packs(all.take(i as int), mode),
        decreases rest@.len(),
    {
        let x = rest.remove(0);
        proof {
            assert(x == all[i as int]);
            assert(all.take(i + 1).drop_last() =~= all.take(i as int));
            assert(all.take(i + 1).last() == x);
            assert(rest@ =~= all.skip(i + 1));
        }
        insert_pack_exec(&mut sorted, x, mode);
        i = i + 1;
    }
    proof {
        assert(all.take(i as int) =~= all);
    }
    sorted
}

// ---------------------------------------------------------------------------
// The search
// ---------------------------------------------------------------------------

/// The filtered packs in the order of `sort`, cut to `limit` (none for a negative one).
pub open spec fn search_packs(
    packs: Seq<FtbPack>,
    q: Option<Seq<char>>,
    tags: Option<Seq<Seq<char>>>,
    mc: Option<Seq<char>>,
    loader: Option<Seq<char>>,
    sort: Seq<char>,
    limit: int,
) -> Seq<FtbPack> {
    let sorted = sort_packs(filter_packs(packs, q, tags, mc, loader), sort_of(sort));
    let n = if limit < 0 {
        0
    } else {
        limit
    };
    if n < sorted.len() {
        sorted.take(n)
    } else {
        sorted
    }
}

/// Searches the catalogue: the packs whose name or synopsis holds the query (Unicode
/// case aside), that carry one of the tags, whose latest version targets the game
/// version and the loader, each filter applied only when given and not empty; sorted
/// by `sort` ("trending", "name", "plays", "downloads", "released", "updated", else
/// featured first then by plays) and cut to `limit`.
pub fn ftb_search(
    packs: Vec<FtbPack>,
    query: Option<&str>,
    tags: Option<&[String]>,
    mc_version: Option<&str>,
    loader: Option<&str>,
    sort: &str,
    limit: i32,
) -> (r: Vec<FtbPack>)
    ensures
        r@ == search_packs(
            packs@,
            opt_ref_view(query),
            opt_views(tags),
            opt_ref_view(mc_version),
            opt_ref_view(loader),
            sort@,
            limit as int,
        ),
{
    let lq: Option<Vec<char>> = match query {
        Some(q) => {
            if chars_of(q).len() == 0 {
                None
            } else {
                Some(lower_chars(q))
            }
        },
        None => None,
    };
    let kept = filter_packs_exec(packs, &lq, Ghost(opt_ref_view(query)), tags, mc_version, loader);
    let mut sorted = sort_packs_exec(kept, ftb_sort_mode(sort));
    if limit < 0 {
        sorted.truncate(0);
    } else if (limit as usize) < sorted.len() {
        sorted.truncate(limit as usize);
    }
    sorted
}

// ---------------------------------------------------------------------------
// Laws
// ---------------------------------------------------------------------------

/// No pack goes strictly before one listed ahead of it.
pub open spec fn ordered(s: Seq<FtbPack>, mode: FtbSort) -> bool {
    forall|i: int, j: int| 0 <= i < j < s.len() ==> !before(#[trigger] s[j], #[trigger] s[i], mode)
}

proof fn lemma_name_less_asym(a: Seq<char>, b: Seq<char>)
    ensures
        name_less(a, b) ==> !name_less(b, a),
    decreases a.len(),
{
    if a.len() > 0 && b.len() > 0 && (a[0] as u32) == (b[0] as u32) {
        lemma_name_less_asym(a.skip(1), b.skip(1));
    }
}

proof fn lemma_name_less_split(a: Seq<char>, b: Seq<char>, c: Seq<char>)
    ensures
        name_less(a, c) ==> name_less(a, b) || name_less(b, c),
    decreases a.len(),
{
    if a.len() > 0 && b.len() > 0 && c.len() > 0 && (a[0] as u32) == (b[0] as u32) && (b[0] as u32) == (c[0] as u32) {
        lemma_name_less_split(a.skip(1), b.skip(1), c.skip(1));
    }
}

proof fn lemma_before_order(a: FtbPack, b: FtbPack, c: FtbPack, mode: FtbSort)
    ensures
        before(a, b, mode) ==> !before(b, a, mode),
        !before(a, b, mode) && !before(b, c, mode) ==> !before(a, c, mode),
{
    if mode == FtbSort::Name {
        lemma_name_less_asym(a.name@, b.name@);
        lemma_name_less_split(a.name@, b.name@, c.name@);
    }
}

proof fn lemma_insert_pack(t: Seq<FtbPack>, x: FtbPack, mode: FtbSort)
    requires
        ordered(t, mode),
    ensures
        ordered(insert_pack(t, x, mode), mode),
        insert_pack(t, x, mode).to_multiset() =~= t.to_multiset().insert(x),
    decreases t.len(),
{
    broadcast use vstd::seq_lib::group_to_multiset_ensures;
    if t.len() == 0 {
        assert(seq![x] =~= Seq::<FtbPack>::empty().push(x));
    } else {
        let u = t.drop_last();
        let l = t.last();
        assert(u.push(l) =~= t);
        assert(ordered(u, mode));
        if before(x, l, mode) {
            lemma_insert_pack(u, x, mode);
            let w = insert_pack(u, x, mode);
            assert forall|k: int| 0 <= k < w.len() implies !before(l, #[trigger] w[k], mode) by {
                assert(w.contains(w[k]));
                assert(w.to_multiset().count(w[k]) > 0);
                if w[k] == x {
                    lemma_before_order(x, l, l, mode);
                } else {
                    assert(u.to_multiset().count(w[k]) > 0);
                    let m = choose|m: int| 0 <= m < u.len() && u[m] == w[k];
                    assert(t[m] == u[m]);
                    assert(t[t.len() - 1] == l);
                }
            }
            assert forall|i: int, j: int| 0 <= i < j < w.push(l).len() implies !before(
                #[trigger] w.push(l)[j],
                #[trigger] w.push(l)[i],
                mode,
            ) by {
                if j == w.len() {
                    assert(w.push(l)[i] == w[i]);
                } else {
                    assert(w.push(l)[i] == w[i]);
                    assert(w.push(l)[j] == w[j]);
                }
            }
        } else {
            assert forall|i: int, j: int| 0 <= i < j < t.push(x).len() implies !before(
                #[trigger] t.push(x)[j],
                #[trigger] t.push(x)[i],
                mode,
            ) by {
                if j == t.len() {
                    assert(t.push(x)[i] == t[i]);
                    if i < t.len() - 1 {
                        assert(!before(t[t.len() - 1], t[i], mode));
                        lemma_before_order(x, l, t[i], mode);
                    }
                } else {
                    assert(t.push(x)[i] == t[i]);
                    assert(t.push(x)[j] == t[j]);
                }
            }
        }
    }
}

proof fn lemma_sort_packs(s: Seq<FtbPack>, mode: FtbSort)
    ensures
        ordered(sort_packs(s, mode), mode),
        sort_packs(s, mode).to_multiset() =~= s.to_multiset(),
    decreases s.len(),
{
    broadcast use vstd::seq_lib::group_to_multiset_ensures;
    if s.len() > 0 {
        lemma_sort_packs(s.drop_last(), mode);
        lemma_insert_pack(sort_packs(s.drop_last(), mode), s.last(), mode);
        assert(s.drop_last().push(s.last()) =~= s);
    }
}

proof fn lemma_filter_packs(
    s: Seq<FtbPack>,
    q: Option<Seq<char>>,
    tags: Option<Seq<Seq<char>>>,
    mc: Option<Seq<char>>,
    loader: Option<Seq<char>>,
)
    ensures
        forall|p: FtbPack|
            #[trigger] filter_packs(s, q, tags, mc, loader).contains(p) <==> s.contains(p) && pack_ok(
                p,
                q,
                tags,
                mc,
                loader,
            ),
    decreases s.len(),
{
    if s.len() > 0 {
        let u = s.drop_last();
        lemma_filter_packs(u, q, tags, mc, loader);
        let r = filter_packs(u, q, tags, mc, loader);
        assert(u.push(s.last()) =~= s);
        assert forall|p: FtbPack|
            #[trigger] filter_packs(s, q, tags, mc, loader).contains(p) <==> s.contains(p) && pack_ok(
                p,
                q,
                tags,
                mc,
                loader,
            ) by {
            if s.contains(p) {
                let k = choose|k: int| 0 <= k < s.len() && s[k] == p;
                if k < s.len() - 1 {
                    assert(u[k] == p);
                }
            }
            if u.contains(p) {
                let k = choose|k: int| 0 <= k < u.len() && u[k] == p;
                assert(s[k] == p);
            }
            if pack_ok(s.last(), q, tags, mc, loader) {
                if r.push(s.last()).contains(p) {
                    let k = choose|k: int| 0 <= k < r.len() + 1 && r.push(s.last())[k] == p;
                    if k < r.len() {
                        assert(r[k] == p);
                    }
                }
                if r.contains(p) {
                    let k = choose|k: int| 0 <= k < r.len() && r[k] == p;
                    assert(r.push(s.last())[k] == p);
                }
                assert(r.push(s.last())[r.len() as int] == s.last());
            }
        }
    }
}

/// A search gives at most `limit` packs (none for a negative limit), and exactly that
/// many when enough packs match; each pack given matches every filter; a pack matches
/// exactly when it is in the catalogue and passes every filter; and no pack given goes
/// strictly before one given ahead of it in the order of `sort`. When the limit leaves
/// room for all of them, the packs given are the matching packs, rearranged.
pub proof fn lemma_ftb_search(
    packs: Seq<FtbPack>,
    q: Option<Seq<char>>,
    tags: Option<Seq<Seq<char>>>,
    mc: Option<Seq<char>>,
    loader: Option<Seq<char>>,
    sort: Seq<char>,
    limit: int,
)
    ensures
        ({
            let r = search_packs(packs, q, tags, mc, loader, sort, limit);
            let matching = filter_packs(packs, q, tags, mc, loader);
            let n = if limit < 0 {
                0
            } else {
                limit
            };
            &&& r.len() == if n < matching.len() {
                n
            } else {
                matching.len() as int
            }
            &&& forall|i: int| 0 <= i < r.len() ==> pack_ok(#[trigger] r[i], q, tags, mc, loader)
            &&& forall|p: FtbPack| #[trigger] matching.contains(p) <==> packs.contains(p) && pack_ok(
                p,
                q,
                tags,
                mc,
                loader,
            )
            &&& n >= matching.len() ==> r.to_multiset() == matching.to_multiset()
            &&& ordered(r, sort_of(sort))
        }),
{
    broadcast use vstd::seq_lib::group_to_multiset_ensures;
    let matching = filter_packs(packs, q, tags, mc, loader);
    let mode = sort_of(sort);
    let sorted = sort_packs(matching, mode);
    lemma_filter_packs(packs, q, tags, mc, loader);
    lemma_sort_packs(matching, mode);
    let r = search_packs(packs, q, tags, mc, loader, sort, limit);
    assert(sorted.len() == sorted.to_multiset().len());
    assert(matching.len() == matching.to_multiset().len());
    assert forall|i: int| 0 <= i < r.len() implies pack_ok(#[trigger] r[i], q, tags, mc, loader) by {
        assert(r[i] == sorted[i]);
        assert(sorted.contains(sorted[i]));
        assert(sorted.to_multiset().count(sorted[i]) > 0);
        assert(matching.contains(sorted[i]));
    }
    assert forall|i: int, j: int| 0 <= i < j < r.len() implies !before(#[trigger] r[j], #[trigger] r[i], mode) by {
        assert(r[i] == sorted[i]);
        assert(r[j] == sorted[j]);
    }
}

} // verus!
