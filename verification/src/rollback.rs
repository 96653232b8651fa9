//! Undoing a failed install: the order in which the directories it created are removed.
use vstd::prelude::*;
use vstd::utf8::encode_utf8;
use crate::text::{chars_of, seq_eq, string_of};

verus! {

/// The length of a path in UTF-8 bytes (`str::len`).
pub open spec fn byte_len(s: Seq<char>) -> nat {
    encode_utf8(s).len()
}

pub open spec fn texts(s: Seq<String>) -> Seq<Seq<char>> {
    s.map_values(|t: String| t@)
}

/// The first occurrence of each path, in order (`Distinct()`).
pub open spec fn distinct_first(s: Seq<Seq<char>>) -> Seq<Seq<char>>
    decreases s.len(),
{
    if s.len() == 0 {
        s
    } else {
        let d = distinct_first(s.drop_last());
        if d.contains(s.last()) {
            d
        } else {
            d.push(s.last())
        }
    }
}

/// Stable insertion into a list ordered from the longest path to the shortest: `x` goes
/// before the trailing paths that are strictly shorter.
pub open spec fn insert_by_len(sorted: Seq<Seq<char>>, x: Seq<char>) -> Seq<Seq<char>>
    decreases sorted.len(),
{
    if sorted.len() == 0 {
        seq![x]
    } else if byte_len(x) > byte_len(sorted.last()) {
        insert_by_len(sorted.drop_last(), x).push(sorted.last())
    } else {
        sorted.push(x)
    }
}

/// The stable sort from the longest path to the shortest
/// (`sort_by(|a, b| b.len().cmp(&a.len()))`).
pub open spec fn sort_by_len(s: Seq<Seq<char>>) -> Seq<Seq<char>>
    decreases s.len(),
{
    if s.len() == 0 {
        s
    } else {
        insert_by_len(sort_by_len(s.drop_last()), s.last())
    }
}

/// Runs of equal paths collapsed into one (`Vec::dedup`).
pub open spec fn dedup_adjacent(s: Seq<Seq<char>>) -> Seq<Seq<char>>
    decreases s.len(),
{
    if s.len() == 0 {
        s
    } else {
        let d = dedup_adjacent(s.drop_last());
        if d.len() > 0 && d.last() == s.last() {
            d
        } else {
            d.push(s.last())
        }
    }
}

/// Every path is at least as long as the ones after it.
pub open spec fn longest_first(s: Seq<Seq<char>>) -> bool {
    forall|i: int, j: int| 0 <= i < j < s.len() ==> byte_len(#[trigger] s[i]) >= byte_len(#[trigger] s[j])
}

/// No path occurs twice.
pub open spec fn no_repeats(s: Seq<Seq<char>>) -> bool {
    forall|i: int, j: int| 0 <= i < j < s.len() ==> #[trigger] s[i] != #[trigger] s[j]
}

fn byte_len_exec(s: &String) -> (r: usize)
    ensures
        r == byte_len(s@),
{
    s.as_str().as_bytes().len()
}

fn insert_by_len_exec(sorted: &mut Vec<String>, x: String)
    ensures
        texts(final(sorted)@) == insert_by_len(texts(old(sorted)@), x@),
{
    let ghost start = texts(sorted@);
    let n = byte_len_exec(&x);
    let mut j: usize = sorted.len();
    proof {
        assert(start.take(j as int) =~= start);
        assert(start.skip(j as int) =~= Seq::<Seq<char>>::empty());
        assert(insert_by_len(start, x@) + Seq::<Seq<char>>::empty() =~= insert_by_len(start, x@));
    }
    while j > 0 && n > byte_len_exec(&sorted[j - 1])
        invariant
            j <= sorted.len(),
            texts(sorted@) == start,
            n == byte_len(x@),
            insert_by_len(start, x@) == insert_by_len(start.take(j as int), x@) + start.skip(j as int),
        decreases j,
    {
        proof {
            let t = start.take(j as int);
            assert(t.drop_last() =~= start.take(j - 1));
            assert(t.last() == start[j - 1]);
            assert(seq![start[j - 1]] + start.skip(j as int) =~= start.skip(j - 1));
            assert(insert_by_len(t, x@) == insert_by_len(start.take(j - 1), x@).push(start[j - 1]));
            assert(insert_by_len(start.take(j - 1), x@).push(start[j - 1]) + start.skip(j as int) =~= insert_by_len(
                start.take(j - 1),
                x@,
            ) + start.skip(j - 1));
        }
        j = j - 1;
    }
    proof {
        let t = start.take(j as int);
        if j > 0 {
            assert(t.last() == start[j - 1]);
        }
        assert(insert_by_len(t, x@) =~= t.push(x@));
        assert(start.take(j as int).push(x@) + start.skip(j as int) =~= start.insert(j as int, x@));
    }
    let ghost xv = x@;
    sorted.insert(j, x);
    proof {
        assert(texts(sorted@) =~= start.insert(j as int, xv));
    }
}

fn sort_by_len_exec(dirs: Vec<String>) -> (r: Vec<String>)
    ensures
        texts(r@) == sort_by_len(texts(dirs@)),
{
    let ghost all = texts(dirs@);
    assert(all.len() == dirs.len());
    let mut sorted: Vec<String> = Vec::new();
    let mut rest = dirs;
    let mut i: usize = 0;
    proof {
        assert(texts(rest@) =~= all.skip(0));
        assert(all.take(0) =~= Seq::<Seq<char>>::empty());
        assert(texts(sorted@) =~= Seq::<Seq<char>>::empty());
    }
    while rest.len() > 0
        invariant
            all.len() <= usize::MAX,
            i + rest@.len() == all.len(),
            texts(rest@) == all.skip(i as int),
            texts(sorted@) == sort_by_len(all.take(i as int)),
        decreases rest@.len(),
    {
        let ghost before = rest@;
        let x = rest.remove(0);
        proof {
            assert(texts(before)[0] == before[0]@);
            assert(x@ == all[i as int]);
            assert(all.take(i + 1).drop_last() =~= all.take(i as int));
            assert(texts(rest@) =~= texts(before).skip(1));
            assert(texts(before).skip(1) =~= all.skip(i + 1));
        }
        insert_by_len_exec(&mut sorted, x);
        i = i + 1;
    }
    proof {
        assert(all.take(i as int) =~= all);
    }
    sorted
}

fn contains_text(list: &Vec<String>, x: &String) -> (r: bool)
    ensures
        r == texts(list@).contains(x@),
{
    let xs = chars_of(x.as_str());
    let mut k: usize = 0;
    while k < list.len()
        invariant
            k <= list.len(),
            xs@ == x@,
            forall|q: int| 0 <= q < k ==> texts(list@)[q] != x@,
        decreases list.len() - k,
    {
        if seq_eq(chars_of(list[k].as_str()).as_slice(), xs.as_slice()) {
            proof {
                assert(texts(list@)[k as int] == x@);
            }
            return true;
        }
        k = k + 1;
    }
    false
}

/// The directories a failed Cleanroom install removes, in order: each once, from the
/// longest path to the shortest (`dirs.Distinct().OrderByDescending(d => d.Length)`).
pub fn cleanroom_rollback_dirs(dirs: &Vec<String>) -> (r: Vec<String>)
    ensures
        texts(r@) == sort_by_len(distinct_first(texts(dirs@))),
{
    let ghost all = texts(dirs@);
    let mut kept: Vec<String> = Vec::new();
    let mut i: usize = 0;
    proof {
        assert(all.take(0) =~= Seq::<Seq<char>>::empty());
        assert(texts(kept@) =~= Seq::<Seq<char>>::empty());
    }
    while i < dirs.len()
        invariant
            i <= dirs.len(),
            all == texts(dirs@),
            texts(kept@) == distinct_first(all.take(i as int)),
        decreases dirs.len() - i,
    {
        proof {
            assert(all.take(i + 1).drop_last() =~= all.take(i as int));
            assert(all.take(i + 1).last() == dirs@[i as int]@);
        }
        if !contains_text(&kept, &dirs[i]) {
            let d = string_of(chars_of(dirs[i].as_str()).as_slice());
            let ghost before = kept@;
            kept.push(d);
            proof {
                assert(texts(kept@) =~= texts(before).push(d@));
            }
        }
        i = i + 1;
    }
    proof {
        assert(all.take(dirs.len() as int) =~= all);
    }
    sort_by_len_exec(kept)
}

fn copy_all(dirs: &Vec<String>) -> (r: Vec<String>)
    ensures
        texts(r@) == texts(dirs@),
{
    let mut r: Vec<String> = Vec::new();
    let mut i: usize = 0;
    while i < dirs.len()
        invariant
            i <= dirs.len(),
            texts(r@) == texts(dirs@).take(i as int),
        decreases dirs.len() - i,
    {
        let d = string_of(chars_of(dirs[i].as_str()).as_slice());
        let ghost before = r@;
        r.push(d);
        proof {
            assert(texts(r@) =~= texts(before).push(d@));
            assert(texts(dirs@).take(i + 1) =~= texts(dirs@).take(i as int).push(dirs@[i as int]@));
        }
        i = i + 1;
    }
    proof {
        assert(texts(dirs@).take(dirs.len() as int) =~= texts(dirs@));
    }
    r
}

/// The directories a failed NeoForge install removes, in order: from the longest path to
/// the shortest, then runs of equal paths collapsed (`sort_by` by length, then `dedup`).
pub fn neoforge_rollback_dirs(dirs: &Vec<String>) -> (r: Vec<String>)
    ensures
        texts(r@) == dedup_adjacent(sort_by_len(texts(dirs@))),
{
    let sorted = sort_by_len_exec(copy_all(dirs));
    let ghost all = texts(sorted@);
    let mut out: Vec<String> = Vec::new();
    let mut i: usize = 0;
    proof {
        assert(all.take(0) =~= Seq::<Seq<char>>::empty());
        assert(texts(out@) =~= Seq::<Seq<char>>::empty());
    }
    while i < sorted.len()
        invariant
            i <= sorted.len(),
            all == texts(sorted@),
            texts(out@) == dedup_adjacent(all.take(i as int)),
        decreases sorted.len() - i,
    {
        proof {
            assert(all.take(i + 1).drop_last() =~= all.take(i as int));
            assert(all.take(i + 1).last() == sorted@[i as int]@);
        }
        let same = out.len() > 0 && seq_eq(
            chars_of(out[out.len() - 1].as_str()).as_slice(),
            chars_of(sorted[i].as_str()).as_slice(),
        );
        proof {
            if out.len() > 0 {
                assert(texts(out@).last() == out@[out.len() - 1]@);
            }
        }
        if !same {
            let d = string_of(chars_of(sorted[i].as_str()).as_slice());
            let ghost before = out@;
            out.push(d);
            proof {
                assert(texts(out@) =~= texts(before).push(d@));
            }
        }
        i = i + 1;
    }
    proof {
        assert(all.take(sorted.len() as int) =~= all);
    }
    out
}


// ---------------------------------------------------------------------------
// The order of removal
// ---------------------------------------------------------------------------

/// Each path is at least as long as the next one.
pub open spec fn len_descending(s: Seq<Seq<char>>) -> bool {
    forall|i: int| 0 <= i < s.len() - 1 ==> byte_len(#[trigger] s[i]) >= byte_len(s[i + 1])
}

proof fn lemma_desc_pair(s: Seq<Seq<char>>, i: int, j: int)
    requires
        len_descending(s),
        0 <= i < j < s.len(),
    ensures
        byte_len(s[i]) >= byte_len(s[j]),
    decreases j - i,
{
    if j > i + 1 {
        lemma_desc_pair(s, i, j - 1);
        assert(byte_len(s[j - 1]) >= byte_len(s[j]));
    }
}

proof fn lemma_longest_first(s: Seq<Seq<char>>)
    requires
        len_descending(s),
    ensures
        longest_first(s),
{
    assert forall|i: int, j: int| 0 <= i < j < s.len() implies byte_len(#[trigger] s[i]) >= byte_len(#[trigger] s[j]) by {
        lemma_desc_pair(s, i, j);
    }
}

#[verifier::spinoff_prover]
proof fn lemma_insert_by_len(sorted: Seq<Seq<char>>, x: Seq<char>)
    requires
        len_descending(sorted),
    ensures
        len_descending(insert_by_len(sorted, x)),
        insert_by_len(sorted, x).to_multiset() == sorted.to_multiset().insert(x),
        insert_by_len(sorted, x).len() == sorted.len() + 1,
        insert_by_len(sorted, x).last() == x || (sorted.len() > 0 && insert_by_len(sorted, x).last() == sorted.last()),
    decreases sorted.len(),
{
    broadcast use vstd::seq_lib::group_to_multiset_ensures;

    if sorted.len() == 0 {
        assert(seq![x] =~= Seq::<Seq<char>>::empty().push(x));
    } else if byte_len(x) > byte_len(sorted.last()) {
        let d = sorted.drop_last();
        assert(len_descending(d)) by {
            assert forall|i: int| 0 <= i < d.len() - 1 implies byte_len(#[trigger] d[i]) >= byte_len(d[i + 1]) by {
                assert(d[i] == sorted[i] && d[i + 1] == sorted[i + 1]);
            }
        }
        lemma_insert_by_len(d, x);
        let r1 = insert_by_len(d, x);
        let r = r1.push(sorted.last());
        assert(len_descending(r)) by {
            assert forall|i: int| 0 <= i < r.len() - 1 implies byte_len(#[trigger] r[i]) >= byte_len(r[i + 1]) by {
                if i < r1.len() - 1 {
                    assert(r[i] == r1[i] && r[i + 1] == r1[i + 1]);
                } else {
                    assert(r[i] == r1.last());
                    if r1.last() != x {
                        assert(r1.last() == d.last());
                        assert(d.last() == sorted[sorted.len() - 2]);
                    }
                }
            }
        }
        assert(sorted =~= d.push(sorted.last()));
    } else {
        let r = sorted.push(x);
        assert(len_descending(r)) by {
            assert forall|i: int| 0 <= i < r.len() - 1 implies byte_len(#[trigger] r[i]) >= byte_len(r[i + 1]) by {
                if i < sorted.len() - 1 {
                    assert(r[i] == sorted[i] && r[i + 1] == sorted[i + 1]);
                }
            }
        }
    }
}

proof fn lemma_sort_by_len(s: Seq<Seq<char>>)
    ensures
        len_descending(sort_by_len(s)),
        sort_by_len(s).to_multiset() == s.to_multiset(),
    decreases s.len(),
{
    broadcast use vstd::seq_lib::group_to_multiset_ensures;

    if s.len() > 0 {
        lemma_sort_by_len(s.drop_last());
        lemma_insert_by_len(sort_by_len(s.drop_last()), s.last());
        assert(s =~= s.drop_last().push(s.last()));
    }
}

proof fn lemma_same_paths(a: Seq<Seq<char>>, b: Seq<Seq<char>>)
    requires
        a.to_multiset() == b.to_multiset(),
    ensures
        forall|d: Seq<char>| a.contains(d) <==> b.contains(d),
{
    assert forall|d: Seq<char>| a.contains(d) <==> b.contains(d) by {
        vstd::seq_lib::to_multiset_contains(a, d);
        vstd::seq_lib::to_multiset_contains(b, d);
    }
}

proof fn lemma_contains_push(s: Seq<Seq<char>>, x: Seq<char>)
    ensures
        forall|y: Seq<char>| #[trigger] s.push(x).contains(y) <==> (s.contains(y) || y == x),
{
    assert forall|y: Seq<char>| #[trigger] s.push(x).contains(y) <==> (s.contains(y) || y == x) by {
        if s.contains(y) {
            let k = choose|k: int| 0 <= k < s.len() && s[k] == y;
            assert(s.push(x)[k] == y);
        }
        if y == x {
            assert(s.push(x)[s.len() as int] == y);
        }
        if s.push(x).contains(y) {
            let k = choose|k: int| 0 <= k < s.len() + 1 && s.push(x)[k] == y;
            if k < s.len() {
                assert(s[k] == y);
            }
        }
    }
}

proof fn lemma_distinct_first(s: Seq<Seq<char>>)
    ensures
        no_repeats(distinct_first(s)),
        forall|d: Seq<char>| s.contains(d) <==> distinct_first(s).contains(d),
    decreases s.len(),
{
    if s.len() > 0 {
        let p = s.drop_last();
        lemma_distinct_first(p);
        let d = distinct_first(p);
        let r = distinct_first(s);
        if !d.contains(s.last()) {
            assert forall|i: int, j: int| 0 <= i < j < r.len() implies #[trigger] r[i] != #[trigger] r[j] by {
                assert(r[i] == d[i]);
                if j < d.len() {
                    assert(r[j] == d[j]);
                } else {
                    assert(r[j] == s.last());
                }
            }
        }
        assert(s =~= p.push(s.last()));
        lemma_contains_push(p, s.last());
        lemma_contains_push(d, s.last());
    }
}

proof fn lemma_dedup_adjacent(s: Seq<Seq<char>>)
    requires
        len_descending(s),
    ensures
        len_descending(dedup_adjacent(s)),
        s.len() > 0 ==> dedup_adjacent(s).len() > 0 && dedup_adjacent(s).last() == s.last(),
        forall|d: Seq<char>| s.contains(d) <==> dedup_adjacent(s).contains(d),
    decreases s.len(),
{
    if s.len() > 0 {
        let p = s.drop_last();
        assert(len_descending(p)) by {
            assert forall|i: int| 0 <= i < p.len() - 1 implies byte_len(#[trigger] p[i]) >= byte_len(p[i + 1]) by {
                assert(p[i] == s[i] && p[i + 1] == s[i + 1]);
            }
        }
        lemma_dedup_adjacent(p);
        let d = dedup_adjacent(p);
        let r = dedup_adjacent(s);
        if !(d.len() > 0 && d.last() == s.last()) {
            assert forall|i: int| 0 <= i < r.len() - 1 implies byte_len(#[trigger] r[i]) >= byte_len(r[i + 1]) by {
                assert(r[i] == d[i]);
                if i < d.len() - 1 {
                    assert(r[i + 1] == d[i + 1]);
                } else {
                    assert(d.last() == p.last());
                    assert(p.last() == s[s.len() - 2]);
                }
            }
        }
        assert(s =~= p.push(s.last()));
        lemma_contains_push(p, s.last());
        lemma_contains_push(d, s.last());
        if d.len() > 0 && d.last() == s.last() {
            assert(d[d.len() - 1] == s.last());
        }
    }
}

/// The removal order after a failed install: the Cleanroom order holds each created
/// directory once and the NeoForge order the same directories; in both, each path is at
/// least as long as every one after it, so a directory is removed before its parents.
pub proof fn lemma_rollback_order(dirs: Seq<Seq<char>>)
    ensures
        longest_first(sort_by_len(distinct_first(dirs))),
        no_repeats(sort_by_len(distinct_first(dirs))),
        forall|d: Seq<char>| dirs.contains(d) <==> sort_by_len(distinct_first(dirs)).contains(d),
        longest_first(dedup_adjacent(sort_by_len(dirs))),
        forall|d: Seq<char>| dirs.contains(d) <==> dedup_adjacent(sort_by_len(dirs)).contains(d),
{
    broadcast use vstd::seq_lib::group_to_multiset_ensures;

    let c = distinct_first(dirs);
    lemma_distinct_first(dirs);
    lemma_sort_by_len(c);
    lemma_longest_first(sort_by_len(c));
    lemma_same_paths(sort_by_len(c), c);
    let sc = sort_by_len(c);
    assert forall|i: int, j: int| 0 <= i < j < sc.len() implies #[trigger] sc[i] != #[trigger] sc[j] by {
        if sc[i] == sc[j] {
            assert(sc.to_multiset().count(sc[i]) >= 2) by {
                lemma_count_two(sc, i, j);
            }
            assert(c.to_multiset().count(sc[i]) <= 1) by {
                lemma_count_at_most_one(c, sc[i]);
            }
        }
    }
    lemma_sort_by_len(dirs);
    let sd = sort_by_len(dirs);
    lemma_same_paths(sd, dirs);
    lemma_dedup_adjacent(sd);
    lemma_longest_first(dedup_adjacent(sd));
}

proof fn lemma_count_two(s: Seq<Seq<char>>, i: int, j: int)
    requires
        0 <= i < j < s.len(),
        s[i] == s[j],
    ensures
        s.to_multiset().count(s[i]) >= 2,
    decreases s.len(),
{
    broadcast use vstd::seq_lib::group_to_multiset_ensures;

    let p = s.drop_last();
    assert(s =~= p.push(s.last()));
    if j < s.len() - 1 {
        assert(p[i] == s[i] && p[j] == s[j]);
        lemma_count_two(p, i, j);
    } else {
        assert(p[i] == s[i]);
        assert(p.contains(s[i]));
    }
}

proof fn lemma_count_at_most_one(s: Seq<Seq<char>>, x: Seq<char>)
    requires
        no_repeats(s),
    ensures
        s.to_multiset().count(x) <= 1,
    decreases s.len(),
{
    broadcast use vstd::seq_lib::group_to_multiset_ensures;

    if s.len() > 0 {
        let p = s.drop_last();
        assert(s =~= p.push(s.last()));
        assert(no_repeats(p)) by {
            assert forall|i: int, j: int| 0 <= i < j < p.len() implies #[trigger] p[i] != #[trigger] p[j] by {
                assert(p[i] == s[i] && p[j] == s[j]);
            }
        }
        lemma_count_at_most_one(p, x);
        if x == s.last() {
            assert(!p.contains(x)) by {
                if p.contains(x) {
                    let k = choose|k: int| 0 <= k < p.len() && p[k] == x;
                    assert(s[k] == s[s.len() - 1]);
                }
            }
        }
    }
}

} // verus!
