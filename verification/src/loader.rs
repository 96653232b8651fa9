//! Mod loader version entries: construction, de-duplication and ordering from the
//! newest version to the oldest.
use vstd::prelude::*;
use crate::text::{chars_of, seq_eq, string_of};
use crate::version::{
    lemma_version_order_antisymmetric, version_order, version_sort_integer,
};

verus! {

/// Kind of mod loader.
#[derive(Clone, Copy, Debug, PartialEq, Eq, Structural)]
pub enum ModLoaderType {
    All,
    Forge,
    Fabric,
    Quilt,
    NeoForge,
    OptiFine,
    LiteLoader,
    Cleanroom,
    LegacyFabric,
    Babric,
}

/// A version of a mod loader that can be installed.
pub struct ModLoaderResult {
    pub loader_type: ModLoaderType,
    pub version: String,
    pub game_version: String,
    pub url: String,
    pub sha1: String,
    pub is_recommand: bool,
    pub release_time: String,
}

/// The release time of entries whose metadata gives none.
pub open spec fn min_release_time() -> Seq<char> {
    "0001-01-01T00:00:00+00:00"@
}

/// An entry built from its parts, with the minimum release time.
pub fn new_loader_result(
    loader_type: ModLoaderType,
    version: &str,
    game_version: &str,
    url: &str,
    sha1: &str,
    is_recommand: bool,
) -> (r: ModLoaderResult)
    ensures
        r.loader_type == loader_type,
        r.version@ == version@,
        r.game_version@ == game_version@,
        r.url@ == url@,
        r.sha1@ == sha1@,
        r.is_recommand == is_recommand,
        r.release_time@ == min_release_time(),
{
    ModLoaderResult {
        loader_type,
        version: String::from_str(version),
        game_version: String::from_str(game_version),
        url: String::from_str(url),
        sha1: String::from_str(sha1),
        is_recommand,
        release_time: String::from_str("0001-01-01T00:00:00+00:00"),
    }
}

// ---------------------------------------------------------------------------
// Ordering
// ---------------------------------------------------------------------------

/// Stable insertion of `x` into a list ordered from newest to oldest: `x` goes before
/// the trailing entries whose versions order strictly below it.
pub open spec fn insert_desc(sorted: Seq<ModLoaderResult>, x: ModLoaderResult) -> Seq<ModLoaderResult>
    decreases sorted.len(),
{
    if sorted.len() == 0 {
        seq![x]
    } else if version_order(x.version@, sorted.last().version@) > 0 {
        insert_desc(sorted.drop_last(), x).push(sorted.last())
    } else {
        sorted.push(x)
    }
}

/// `OrderByDescending(v => v.Version, VersionComparer)`: a stable sort from the newest
/// version to the oldest (for a total preorder this is the order std's stable sort gives).
pub open spec fn sort_desc(s: Seq<ModLoaderResult>) -> Seq<ModLoaderResult>
    decreases s.len(),
{
    if s.len() == 0 {
        s
    } else {
        insert_desc(sort_desc(s.drop_last()), s.last())
    }
}

/// The first entry of each version, in order (`GroupBy(Version).Select(First)`).
pub open spec fn dedup_versions(s: Seq<ModLoaderResult>) -> Seq<ModLoaderResult>
    decreases s.len(),
{
    if s.len() == 0 {
        s
    } else {
        let d = dedup_versions(s.drop_last());
        if has_version(d, s.last().version@) {
            d
        } else {
            d.push(s.last())
        }
    }
}

/// Each entry's version orders at or above the next one's.
pub open spec fn descending(s: Seq<ModLoaderResult>) -> bool {
    forall|i: int| 0 <= i < s.len() - 1 ==> version_order(#[trigger] s[i].version@, s[i + 1].version@) >= 0
}

proof fn lemma_insert_desc(sorted: Seq<ModLoaderResult>, x: ModLoaderResult, j: int)
    requires
        0 <= j <= sorted.len(),
        forall|k: int| j <= k < sorted.len() ==> version_order(x.version@, (#[trigger] sorted[k]).version@) > 0,
        j > 0 ==> version_order(x.version@, sorted[j - 1].version@) <= 0,
    ensures
        insert_desc(sorted, x) == sorted.insert(j, x),
    decreases sorted.len(),
{
    if sorted.len() == 0 {
        assert(sorted.insert(j, x) =~= seq![x]);
    } else if version_order(x.version@, sorted.last().version@) > 0 {
        let d = sorted.drop_last();
        assert(j < sorted.len());
        assert forall|k: int| j <= k < d.len() implies version_order(x.version@, (#[trigger] d[k]).version@) > 0 by {
            assert(d[k] == sorted[k]);
        }
        lemma_insert_desc(d, x, j);
        assert(d.insert(j, x).push(sorted.last()) =~= sorted.insert(j, x));
    } else {
        assert(j == sorted.len());
        assert(sorted.insert(j, x) =~= sorted.push(x));
    }
}

#[verifier::spinoff_prover]
#[verifier::rlimit(40)]
proof fn lemma_insert_desc_props(sorted: Seq<ModLoaderResult>, x: ModLoaderResult)
    requires
        descending(sorted),
    ensures
        descending(insert_desc(sorted, x)),
        insert_desc(sorted, x).to_multiset() == sorted.to_multiset().insert(x),
        insert_desc(sorted, x).len() == sorted.len() + 1,
        insert_desc(sorted, x).last() == x || (sorted.len() > 0 && insert_desc(sorted, x).last()
            == sorted.last()),
    decreases sorted.len(),
{
    broadcast use vstd::seq_lib::group_to_multiset_ensures;

    if sorted.len() == 0 {
        assert(seq![x] =~= Seq::<ModLoaderResult>::empty().push(x));
    } else if version_order(x.version@, sorted.last().version@) > 0 {
        let d = sorted.drop_last();
        assert(descending(d)) by {
            assert forall|i: int| 0 <= i < d.len() - 1 implies version_order(
                #[trigger] d[i].version@,
                d[i + 1].version@,
            ) >= 0 by {
                assert(d[i] == sorted[i] && d[i + 1] == sorted[i + 1]);
            }
        }
        lemma_insert_desc_props(d, x);
        let r1 = insert_desc(d, x);
        let r = r1.push(sorted.last());
        assert(descending(r)) by {
            assert forall|i: int| 0 <= i < r.len() - 1 implies version_order(
                #[trigger] r[i].version@,
                r[i + 1].version@,
            ) >= 0 by {
                if i < r1.len() - 1 {
                    assert(r[i] == r1[i] && r[i + 1] == r1[i + 1]);
                } else {
                    assert(r[i] == r1.last());
                    if r1.last() != x {
                        assert(r1.last() == d.last());
                        assert(d.last() == sorted[sorted.len() - 2]);
                    }
                }
            }
        }
        assert(sorted =~= d.push(sorted.last()));
    } else {
        let r = sorted.push(x);
        assert(descending(r)) by {
            assert forall|i: int| 0 <= i < r.len() - 1 implies version_order(
                #[trigger] r[i].version@,
                r[i + 1].version@,
            ) >= 0 by {
                if i < sorted.len() - 1 {
                    assert(r[i] == sorted[i] && r[i + 1] == sorted[i + 1]);
                } else {
                    lemma_version_order_antisymmetric(x.version@, sorted.last().version@);
                }
            }
        }
    }
}

proof fn lemma_sort_desc(s: Seq<ModLoaderResult>)
    ensures
        descending(sort_desc(s)),
        sort_desc(s).to_multiset() == s.to_multiset(),
    decreases s.len(),
{
    broadcast use vstd::seq_lib::group_to_multiset_ensures;

    if s.len() > 0 {
        lemma_sort_desc(s.drop_last());
        lemma_insert_desc_props(sort_desc(s.drop_last()), s.last());
        assert(s =~= s.drop_last().push(s.last()));
    }
}

/// No two entries carry the same version.
pub open spec fn versions_distinct(d: Seq<ModLoaderResult>) -> bool {
    forall|i: int, j: int| 0 <= i < j < d.len() ==> (#[trigger] d[i]).version@ != (#[trigger] d[j]).version@
}

/// Every version of `s` is carried by some entry of `d`.
pub open spec fn covers_versions(d: Seq<ModLoaderResult>, s: Seq<ModLoaderResult>) -> bool {
    forall|i: int| 0 <= i < s.len() ==> has_version(d, (#[trigger] s[i]).version@)
}

/// Some entry of `d` carries version `v`.
pub open spec fn has_version(d: Seq<ModLoaderResult>, v: Seq<char>) -> bool {
    exists|k: int| 0 <= k < d.len() && (#[trigger] d[k]).version@ == v
}

/// Every entry of `d` is an entry of `s`.
pub open spec fn drawn_from(d: Seq<ModLoaderResult>, s: Seq<ModLoaderResult>) -> bool {
    forall|k: int| 0 <= k < d.len() ==> s.contains(#[trigger] d[k])
}

proof fn lemma_dedup_distinct(s: Seq<ModLoaderResult>)
    ensures
        versions_distinct(dedup_versions(s)),
    decreases s.len(),
{
    if s.len() > 0 {
        let p = s.drop_last();
        lemma_dedup_distinct(p);
        let d = dedup_versions(p);
        if !has_version(d, s.last().version@) {
            let r = d.push(s.last());
            assert forall|i: int, j: int| 0 <= i < j < r.len() implies (#[trigger] r[i]).version@
                != (#[trigger] r[j]).version@ by {
                assert(r[i] == d[i]);
                if j < d.len() {
                    assert(r[j] == d[j]);
                }
            }
        }
    }
}

proof fn lemma_dedup_covers(s: Seq<ModLoaderResult>)
    ensures
        covers_versions(dedup_versions(s), s),
    decreases s.len(),
{
    if s.len() > 0 {
        let p = s.drop_last();
        lemma_dedup_covers(p);
        let d = dedup_versions(p);
        let r = dedup_versions(s);
        assert forall|i: int| 0 <= i < s.len() implies has_version(r, (#[trigger] s[i]).version@) by {
            if i < p.len() {
                assert(s[i] == p[i]);
                assert(has_version(d, p[i].version@));
                let k1 = choose|k: int| 0 <= k < d.len() && (#[trigger] d[k]).version@ == p[i].version@;
                if !has_version(d, s.last().version@) {
                    assert(r[k1] == d[k1]);
                }
            } else if !has_version(d, s.last().version@) {
                assert(r[d.len() as int] == s[i]);
            }
        }
    }
}

proof fn lemma_dedup_drawn(s: Seq<ModLoaderResult>)
    ensures
        drawn_from(dedup_versions(s), s),
    decreases s.len(),
{
    if s.len() > 0 {
        let p = s.drop_last();
        lemma_dedup_drawn(p);
        let d = dedup_versions(p);
        let r = dedup_versions(s);
        assert forall|k: int| 0 <= k < r.len() implies s.contains(#[trigger] r[k]) by {
            if k < d.len() {
                assert(r[k] == d[k]);
                assert(p.contains(d[k]));
                let i0 = choose|i: int| 0 <= i < p.len() && p[i] == d[k];
                assert(s[i0] == p[i0]);
            } else {
                assert(r[k] == s[s.len() - 1]);
            }
        }
    }
}

/// No entry of `s` before position `i` carries the version of entry `i`.
pub open spec fn first_at(s: Seq<ModLoaderResult>, i: int) -> bool {
    forall|j: int| 0 <= j < i ==> (#[trigger] s[j]).version@ != s[i].version@
}

/// `x` is the first entry of `s` that carries its version.
pub open spec fn first_of_version(s: Seq<ModLoaderResult>, x: ModLoaderResult) -> bool {
    exists|i: int| 0 <= i < s.len() && s[i] == x && #[trigger] first_at(s, i)
}

/// Every entry of `d` is the first entry of `s` that carries its version.
pub open spec fn firsts_of(d: Seq<ModLoaderResult>, s: Seq<ModLoaderResult>) -> bool {
    forall|k: int| 0 <= k < d.len() ==> first_of_version(s, #[trigger] d[k])
}

proof fn lemma_dedup_firsts(s: Seq<ModLoaderResult>)
    ensures
        firsts_of(dedup_versions(s), s),
    decreases s.len(),
{
    if s.len() > 0 {
        let p = s.drop_last();
        lemma_dedup_firsts(p);
        lemma_dedup_covers(p);
        let d = dedup_versions(p);
        let r = dedup_versions(s);
        assert forall|k: int| 0 <= k < r.len() implies first_of_version(s, #[trigger] r[k]) by {
            if k < d.len() {
                assert(r[k] == d[k]);
                assert(first_of_version(p, d[k]));
                let i = choose|i: int| 0 <= i < p.len() && p[i] == d[k] && #[trigger] first_at(p, i);
                assert(s[i] == p[i]);
                assert forall|j: int| 0 <= j < i implies (#[trigger] s[j]).version@ != s[i].version@ by {
                    assert(s[j] == p[j]);
                }
                assert(first_at(s, i));
            } else {
                let i = s.len() - 1;
                assert(r[k] == s[i]);
                assert forall|j: int| 0 <= j < i implies (#[trigger] s[j]).version@ != s[i].version@ by {
                    assert(s[j] == p[j]);
                    assert(has_version(d, p[j].version@));
                }
                assert(first_at(s, i));
            }
        }
    }
}

/// What the de-duplicating sort returns: a rearrangement of the first entry of each version,
/// each entry's version ordering at or above the next one's; the kept entries carry
/// pairwise different versions, every version of the input, and are input entries;
/// each kept entry is the first entry of the input with its version.
pub proof fn lemma_sort_and_deduplicate(s: Seq<ModLoaderResult>)
    ensures
        descending(sort_desc(dedup_versions(s))),
        firsts_of(sort_desc(dedup_versions(s)), s),
        sort_desc(dedup_versions(s)).to_multiset() == dedup_versions(s).to_multiset(),
        versions_distinct(dedup_versions(s)),
        covers_versions(dedup_versions(s), s),
        drawn_from(dedup_versions(s), s),
{
    lemma_sort_desc(dedup_versions(s));
    lemma_dedup_distinct(s);
    lemma_dedup_covers(s);
    lemma_dedup_drawn(s);
    lemma_dedup_firsts(s);
    let d = dedup_versions(s);
    let r = sort_desc(d);
    assert forall|k: int| 0 <= k < r.len() implies first_of_version(s, #[trigger] r[k]) by {
        broadcast use vstd::seq_lib::group_to_multiset_ensures;
        assert(r.contains(r[k]));
        assert(r.to_multiset().count(r[k]) > 0);
        assert(d.contains(r[k]));
        let m = choose|m: int| 0 <= m < d.len() && d[m] == r[k];
        assert(first_of_version(s, d[m]));
    }
}

/// Sorting from newest to oldest rearranges the entries and orders every adjacent pair.
pub proof fn lemma_sort_descending(s: Seq<ModLoaderResult>)
    ensures
        descending(sort_desc(s)),
        sort_desc(s).to_multiset() == s.to_multiset(),
{
    lemma_sort_desc(s);
}

fn insert_desc_exec(sorted: &mut Vec<ModLoaderResult>, x: ModLoaderResult)
    ensures
        final(sorted)@ == insert_desc(old(sorted)@, x),
{
    let mut j: usize = sorted.len();
    while j > 0 && version_sort_integer(x.version.as_str(), sorted[j - 1].version.as_str()) > 0
        invariant
            j <= sorted.len(),
            sorted@ == old(sorted)@,
            forall|k: int| j <= k < sorted.len() ==> version_order(x.version@, (#[trigger] sorted@[k]).version@) > 0,
        decreases j,
    {
        j = j - 1;
    }
    proof {
        lemma_insert_desc(sorted@, x, j as int);
    }
    sorted.insert(j, x);
}

/// Stable sort from the newest version to the oldest.
pub fn sort_descending(versions: Vec<ModLoaderResult>) -> (r: Vec<ModLoaderResult>)
    ensures
        r@ == sort_desc(versions@),
{
    let ghost all = versions@;
    assert(all.len() == versions.len());
    let mut rest = versions;
    let mut sorted: Vec<ModLoaderResult> = Vec::new();
    let mut i: usize = 0;
    proof {
        assert(all.take(0) =~= Seq::<ModLoaderResult>::empty());
        assert(rest@ =~= all.skip(0));
    }
    while rest.len() > 0
        invariant
            all.len() <= usize::MAX,
            i + rest@.len() == all.len(),
            rest@ == all.skip(i as int),
            sorted@ == sort_desc(all.take(i as int)),
        decreases rest@.len(),
    {
        let x = rest.remove(0);
        proof {
            assert(x == all[i as int]);
            assert(all.take(i + 1).drop_last() =~= all.take(i as int));
            assert(all.take(i + 1).last() == x);
            assert(rest@ =~= all.skip(i + 1));
        }
        insert_desc_exec(&mut sorted, x);
        i = i + 1;
    }
    proof {
        assert(all.take(i as int) =~= all);
    }
    sorted
}

/// The first entry of each version, then the stable sort from
/// the newest version to the oldest.
pub fn sort_and_deduplicate(versions: Vec<ModLoaderResult>) -> (r: Vec<ModLoaderResult>)
    ensures
        r@ == sort_desc(dedup_versions(versions@)),
{
    let ghost all = versions@;
    assert(all.len() == versions.len());
    let mut rest = versions;
    let mut kept: Vec<ModLoaderResult> = Vec::new();
    let mut i: usize = 0;
    proof {
        assert(all.take(0) =~= Seq::<ModLoaderResult>::empty());
        assert(rest@ =~= all.skip(0));
    }
    while rest.len() > 0
        invariant
            all.len() <= usize::MAX,
            i + rest@.len() == all.len(),
            rest@ == all.skip(i as int),
            kept@ == dedup_versions(all.take(i as int)),
        decreases rest@.len(),
    {
        let x = rest.remove(0);
        proof {
            assert(x == all[i as int]);
            assert(all.take(i + 1).drop_last() =~= all.take(i as int));
            assert(all.take(i + 1).last() == x);
            assert(rest@ =~= all.skip(i + 1));
        }
        let mut seen = false;
        let mut k: usize = 0;
        while k < kept.len()
            invariant
                k <= kept.len(),
                seen == exists|m: int| 0 <= m < k && (#[trigger] kept@[m]).version@ == x.version@,
            decreases kept.len() - k,
        {
            if kept[k].version == x.version {
                seen = true;
            }
            k = k + 1;
        }
        if !seen {
            kept.push(x);
        }
        i = i + 1;
    }
    proof {
        assert(all.take(i as int) =~= all);
    }
    sort_descending(kept)
}

} // verus!
