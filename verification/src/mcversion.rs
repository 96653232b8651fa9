//! Minecraft version names: normalisation of the short snapshot-era names
//! ("24.1" → "1.24.1"), alias sets, matching, and the simple numeric checks used
//! by the loader providers.
use vstd::prelude::*;
use crate::text::{
    chars_of, contains_exec, eq_ignore_case, eq_ignore_case_exec, is_blank, is_blank_exec,
    push_all, slice_vec, split_any, split_any_exec, starts_with, starts_with_exec, string_of,
    trim, trim_exec,
};
use crate::num::{all_digits, is_digit_exec, parse_i32, parse_i32_exec};
use crate::version::{to_lowercase, unicode_lowercase};

verus! {

/// The part of `s` before the first `c` (all of `s` when there is none).
pub open spec fn before_first(s: Seq<char>, c: char) -> Seq<char>
    decreases s.len(),
{
    if s.len() == 0 {
        s
    } else if s[0] == c {
        Seq::empty()
    } else {
        seq![s[0]] + before_first(s.skip(1), c)
    }
}

/// The non-empty pieces, in order.
pub open spec fn drop_empty(ps: Seq<Seq<char>>) -> Seq<Seq<char>>
    decreases ps.len(),
{
    if ps.len() == 0 {
        ps
    } else {
        let d = drop_empty(ps.drop_last());
        if ps.last().len() == 0 {
            d
        } else {
            d.push(ps.last())
        }
    }
}

pub open spec fn one_dot() -> Seq<char> {
    seq!['1', '.']
}

/// Blank → empty; names starting with "1." are kept;
/// otherwise, when the part before the first '-' has at least two non-empty
/// dot-separated pieces and the first one is a number of at least 22, "1." is put
/// in front of that part; anything else is returned trimmed.
pub open spec fn normalize_mc(v: Seq<char>) -> Seq<char> {
    if is_blank(v) {
        Seq::empty()
    } else {
        let t = trim(v);
        if starts_with(t, one_dot()) {
            t
        } else {
            let base = before_first(t, '-');
            let parts = drop_empty(split_any(base, seq!['.']));
            if parts.len() < 2 {
                t
            } else {
                match parse_i32(parts[0]) {
                    Some(m) => if m >= 22 {
                        one_dot() + base
                    } else {
                        t
                    },
                    None => t,
                }
            }
        }
    }
}

/// Adds `s` unless an entry equal to it up to ASCII case is already there.
pub open spec fn add_unique(list: Seq<Seq<char>>, s: Seq<char>) -> Seq<Seq<char>> {
    if exists|i: int| 0 <= i < list.len() && eq_ignore_case(#[trigger] list[i], s) {
        list
    } else {
        list.push(s)
    }
}

/// The third alias: without the "1." prefix, or with one added.
pub open spec fn third_alias(n: Seq<char>) -> Seq<char> {
    if starts_with(n, one_dot()) {
        n.skip(2)
    } else {
        one_dot() + n
    }
}

/// The name as given, its normalised form, and that form
/// with the "1." prefix removed or added, without case-insensitive repeats.
pub open spec fn mc_aliases(v: Seq<char>) -> Seq<Seq<char>> {
    if is_blank(v) {
        Seq::empty()
    } else {
        let n = normalize_mc(v);
        add_unique(add_unique(add_unique(Seq::empty(), v), n), third_alias(n))
    }
}

/// The same alias set built from the trimmed name (the Forge-side copy of the helper).
pub open spec fn mc_aliases_trimmed(v: Seq<char>) -> Seq<Seq<char>> {
    if is_blank(v) {
        Seq::empty()
    } else {
        let t = trim(v);
        let n = normalize_mc(t);
        add_unique(add_unique(add_unique(Seq::empty(), t), n), third_alias(n))
    }
}

/// Two alias lists share an entry up to ASCII case.
pub open spec fn aliases_meet(a: Seq<Seq<char>>, b: Seq<Seq<char>>) -> bool {
    exists|i: int, j: int|
        0 <= i < a.len() && 0 <= j < b.len() && eq_ignore_case(#[trigger] a[i], #[trigger] b[j])
}

/// Whether two game version names name the same version.
pub open spec fn matches_mc(candidate: Seq<char>, requested: Seq<char>) -> bool {
    !is_blank(candidate) && !is_blank(requested) && aliases_meet(
        mc_aliases(candidate),
        mc_aliases(requested),
    )
}

/// The Forge-side version match (aliases built from trimmed names).
pub open spec fn matches_mc_trimmed(candidate: Seq<char>, requested: Seq<char>) -> bool {
    !is_blank(candidate) && !is_blank(requested) && aliases_meet(
        mc_aliases_trimmed(candidate),
        mc_aliases_trimmed(requested),
    )
}

/// Some alias of some supported version equals some alias
/// of the requested one after Unicode lower-casing.
pub open spec fn supports_mc(supported: Seq<Seq<char>>, requested: Seq<char>) -> bool {
    exists|s: int, i: int, j: int|
        0 <= s < supported.len() && 0 <= i < mc_aliases(supported[s]).len() && 0 <= j
            < mc_aliases(requested).len() && unicode_lowercase(
            #[trigger] mc_aliases(supported[s])[i],
        ) == unicode_lowercase(#[trigger] mc_aliases(requested)[j])
}

proof fn lemma_meet_symmetric(a: Seq<Seq<char>>, b: Seq<Seq<char>>)
    ensures
        aliases_meet(a, b) == aliases_meet(b, a),
{
    if aliases_meet(a, b) {
        let (i, j) = choose|i: int, j: int|
            0 <= i < a.len() && 0 <= j < b.len() && eq_ignore_case(#[trigger] a[i], #[trigger] b[j]);
        assert(eq_ignore_case(b[j], a[i]));
    }
    if aliases_meet(b, a) {
        let (i, j) = choose|i: int, j: int|
            0 <= i < b.len() && 0 <= j < a.len() && eq_ignore_case(#[trigger] b[i], #[trigger] a[j]);
        assert(eq_ignore_case(a[j], b[i]));
    }
}

/// Game-version matching does not depend on which side is the candidate.
pub proof fn lemma_matches_symmetric(a: Seq<char>, b: Seq<char>)
    ensures
        matches_mc(a, b) == matches_mc(b, a),
        matches_mc_trimmed(a, b) == matches_mc_trimmed(b, a),
{
    lemma_meet_symmetric(mc_aliases(a), mc_aliases(b));
    lemma_meet_symmetric(mc_aliases_trimmed(a), mc_aliases_trimmed(b));
}

/// A non-blank game version matches itself.
pub proof fn lemma_matches_reflexive(a: Seq<char>)
    requires
        !is_blank(a),
    ensures
        matches_mc(a, a),
        matches_mc_trimmed(a, a),
{
    let l0 = add_unique(Seq::empty(), a);
    assert(l0 == seq![a]);
    let l = mc_aliases(a);
    assert(l.len() > 0 && l[0] == a);
    assert(eq_ignore_case(l[0], l[0]));
    let t0 = add_unique(Seq::empty(), trim(a));
    assert(t0 == seq![trim(a)]);
    let t = mc_aliases_trimmed(a);
    assert(t.len() > 0 && t[0] == trim(a));
    assert(eq_ignore_case(t[0], t[0]));
}

/// A dotted piece as a number: its `i32` value, or 0 when it is not one.
pub open spec fn part_num(p: Seq<char>) -> int {
    match parse_i32(p) {
        Some(v) => v,
        None => 0,
    }
}

pub open spec fn version_seps() -> Seq<char> {
    seq!['.', '-', '_']
}

/// The numbers of the non-empty pieces between '.', '-' and '_'.
pub open spec fn version_nums(s: Seq<char>) -> Seq<int> {
    drop_empty(split_any(s, version_seps())).map_values(|p: Seq<char>| part_num(p))
}

pub open spec fn num_or_zero(ns: Seq<int>, i: int) -> int {
    if 0 <= i < ns.len() {
        ns[i]
    } else {
        0
    }
}

/// Piecewise comparison from piece `i` on, missing pieces counting as 0.
pub open spec fn nums_below_or_equal(a: Seq<int>, b: Seq<int>, i: nat) -> bool
    decreases (if a.len() > b.len() { a.len() } else { b.len() }) - i,
{
    if i >= a.len() && i >= b.len() {
        true
    } else if num_or_zero(a, i as int) < num_or_zero(b, i as int) {
        true
    } else if num_or_zero(a, i as int) > num_or_zero(b, i as int) {
        false
    } else {
        nums_below_or_equal(a, b, i + 1)
    }
}

/// Whether a version is at most the reference version.
pub open spec fn version_below_or_equal(v: Seq<char>, reference: Seq<char>) -> bool {
    nums_below_or_equal(version_nums(v), version_nums(reference), 0)
}

/// The check standing for `System.Version.TryParse`: after trimming, one to four
/// dot-separated pieces, each a non-empty run of digits that fits an `i32`.
pub open spec fn version_parses(s: Seq<char>) -> bool {
    let t = trim(s);
    let parts = split_any(t, seq!['.']);
    t.len() > 0 && parts.len() <= 4 && forall|i: int|
        0 <= i < parts.len() ==> #[trigger] parts[i].len() > 0 && all_digits(parts[i])
            && parse_i32(parts[i]) is Some
}

/// The Minecraft version a NeoForge version is built
/// for ("20.4.80" → "1.20.4", "21.0.1" → "1.21", "0.25w14craftmine.3" → "25w14craftmine",
/// majors from 22 on → the first two pieces); empty when it cannot tell.
pub open spec fn neoforge_mc_version(v: Seq<char>) -> Seq<char> {
    let a = before_first(v, '.');
    if a.len() == v.len() {
        Seq::empty()
    } else {
        let rest = v.skip(a.len() + 1int);
        let b = before_first(rest, '.');
        if b.len() == rest.len() {
            Seq::empty()
        } else {
            match parse_i32(a) {
                None => Seq::empty(),
                Some(major) => if major >= 22 {
                    v.take(a.len() + 1int + b.len())
                } else if major == 0 {
                    b
                } else {
                    match parse_i32(b) {
                        None => Seq::empty(),
                        Some(minor) => if minor == 0 {
                            one_dot() + crate::num::int_decimal(major)
                        } else {
                            one_dot() + crate::num::int_decimal(major) + seq!['.']
                                + crate::num::int_decimal(minor)
                        },
                    }
                },
            }
        }
    }
}

// ---------------------------------------------------------------------------

proof fn lemma_before_first_take(s: Seq<char>, c: char, i: int)
    requires
        0 <= i <= s.len(),
        forall|j: int| 0 <= j < i ==> s[j] != c,
    ensures
        before_first(s, c) == s.take(i) + before_first(s.skip(i), c),
    decreases i,
{
    if i > 0 {
        assert(s[0] != c);
        lemma_before_first_take(s.skip(1), c, i - 1);
        assert(s.skip(1).skip(i - 1) =~= s.skip(i));
        assert(s.take(i) =~= seq![s[0]] + s.skip(1).take(i - 1));
    } else {
        assert(s.skip(0) =~= s);
        assert(s.take(0) + before_first(s, c) =~= before_first(s, c));
    }
}

/// The part before the first `c`.
pub fn before_first_exec(s: &[char], c: char) -> (r: Vec<char>)
    ensures
        r@ == before_first(s@, c),
{
    let mut i: usize = 0;
    while i < s.len() && s[i] != c
        invariant
            i <= s.len(),
            forall|j: int| 0 <= j < i ==> s@[j] != c,
        decreases s.len() - i,
    {
        i = i + 1;
    }
    proof {
        lemma_before_first_take(s@, c, i as int);
        if i < s.len() {
            assert(s@.skip(i as int)[0] == c);
        } else {
            assert(s@.skip(i as int).len() == 0);
        }
        assert(s@.take(i as int) + Seq::<char>::empty() =~= s@.take(i as int));
    }
    slice_vec(s, 0, i)
}

/// Keeps the non-empty pieces.
pub fn drop_empty_exec(ps: &Vec<Vec<char>>) -> (r: Vec<Vec<char>>)
    ensures
        r@.len() == drop_empty(ps@.map_values(|p: Vec<char>| p@)).len(),
        forall|k: int|
            0 <= k < r@.len() ==> #[trigger] r@[k]@ == drop_empty(
                ps@.map_values(|p: Vec<char>| p@),
            )[k],
{
    let ghost all = ps@.map_values(|p: Vec<char>| p@);
    let mut r: Vec<Vec<char>> = Vec::new();
    let mut i: usize = 0;
    proof {
        assert(all.take(0) =~= Seq::<Seq<char>>::empty());
    }
    while i < ps.len()
        invariant
            i <= ps.len(),
            all == ps@.map_values(|p: Vec<char>| p@),
            r@.len() == drop_empty(all.take(i as int)).len(),
            forall|k: int|
                0 <= k < r@.len() ==> #[trigger] r@[k]@ == drop_empty(all.take(i as int))[k],
        decreases ps.len() - i,
    {
        proof {
            assert(all.take(i + 1).drop_last() =~= all.take(i as int));
            assert(all.take(i + 1).last() == ps@[i as int]@);
        }
        if ps[i].len() > 0 {
            r.push(slice_vec(ps[i].as_slice(), 0, ps[i].len()));
        }
        i = i + 1;
    }
    proof {
        assert(all.take(ps.len() as int) =~= all);
    }
    r
}


fn normalize_chars(v: &[char]) -> (r: Vec<char>)
    ensures
        r@ == normalize_mc(v@),
{
    if is_blank_exec(v) {
        return Vec::new();
    }
    let t = trim_exec(v);
    let one = chars_of("1.");
    proof {
        reveal_strlit("1.");
        assert(one@ =~= one_dot());
    }
    if starts_with_exec(t.as_slice(), one.as_slice()) {
        return t;
    }
    let base = before_first_exec(t.as_slice(), '-');
    let dot = chars_of(".");
    proof {
        reveal_strlit(".");
        assert(dot@ =~= seq!['.']);
    }
    let pieces = split_any_exec(base.as_slice(), dot.as_slice());
    let parts = drop_empty_exec(&pieces);
    proof {
        assert(pieces@.map_values(|p: Vec<char>| p@) =~= split_any(base@, seq!['.']));
    }
    if parts.len() < 2 {
        return t;
    }
    match parse_i32_exec(parts[0].as_slice()) {
        Some(m) => {
            if m >= 22 {
                let mut r = one;
                push_all(&mut r, base.as_slice());
                r
            } else {
                t
            }
        },
        None => t,
    }
}

/// The normal form of a game version name.
pub fn normalize_minecraft_version(version: &str) -> (r: String)
    ensures
        r@ == normalize_mc(version@),
{
    let v = chars_of(version);
    let n = normalize_chars(v.as_slice());
    string_of(n.as_slice())
}

fn add_unique_exec(list: &mut Vec<Vec<char>>, s: Vec<char>)
    ensures
        final(list)@.map_values(|p: Vec<char>| p@) == add_unique(
            old(list)@.map_values(|p: Vec<char>| p@),
            s@,
        ),
{
    let ghost before = list@.map_values(|p: Vec<char>| p@);
    let mut i: usize = 0;
    while i < list.len()
        invariant
            i <= list.len(),
            before == list@.map_values(|p: Vec<char>| p@),
            list@ == old(list)@,
            forall|j: int| 0 <= j < i ==> !eq_ignore_case(#[trigger] before[j], s@),
        decreases list.len() - i,
    {
        if eq_ignore_case_exec(list[i].as_slice(), s.as_slice()) {
            proof {
                assert(eq_ignore_case(before[i as int], s@));
            }
            return;
        }
        i = i + 1;
    }
    list.push(s);
    proof {
        assert(list@.map_values(|p: Vec<char>| p@) =~= before.push(s@));
    }
}

fn third_alias_exec(n: &[char]) -> (r: Vec<char>)
    ensures
        r@ == third_alias(n@),
{
    let one = chars_of("1.");
    proof {
        reveal_strlit("1.");
        assert(one@ =~= one_dot());
    }
    if starts_with_exec(n, one.as_slice()) {
        slice_vec(n, 2, n.len())
    } else {
        let mut r = one;
        push_all(&mut r, n);
        r
    }
}

fn aliases_chars(v: &[char], trimmed: bool) -> (r: Vec<Vec<char>>)
    ensures
        r@.map_values(|p: Vec<char>| p@) == if trimmed {
            mc_aliases_trimmed(v@)
        } else {
            mc_aliases(v@)
        },
{
    let mut r: Vec<Vec<char>> = Vec::new();
    if is_blank_exec(v) {
        proof {
            assert(r@.map_values(|p: Vec<char>| p@) =~= Seq::<Seq<char>>::empty());
        }
        return r;
    }
    let first = if trimmed {
        trim_exec(v)
    } else {
        slice_vec(v, 0, v.len())
    };
    proof {
        if !trimmed {
            assert(first@ =~= v@);
        }
    }
    let n = normalize_chars(first.as_slice());
    proof {
        assert(r@.map_values(|p: Vec<char>| p@) =~= Seq::<Seq<char>>::empty());
    }
    let third = third_alias_exec(n.as_slice());
    let n2 = slice_vec(n.as_slice(), 0, n.len());
    add_unique_exec(&mut r, first);
    add_unique_exec(&mut r, n2);
    add_unique_exec(&mut r, third);
    proof {
        assert(n2@ =~= n@);
    }
    r
}

fn strings_of(vs: &Vec<Vec<char>>) -> (r: Vec<String>)
    ensures
        r@.len() == vs@.len(),
        forall|k: int| 0 <= k < r@.len() ==> #[trigger] r@[k]@ == vs@[k]@,
{
    let mut r: Vec<String> = Vec::new();
    let mut i: usize = 0;
    while i < vs.len()
        invariant
            i <= vs.len(),
            r@.len() == i,
            forall|k: int| 0 <= k < i ==> #[trigger] r@[k]@ == vs@[k]@,
        decreases vs.len() - i,
    {
        r.push(string_of(vs[i].as_slice()));
        i = i + 1;
    }
    r
}

/// The names under which a game version may be listed.
pub fn get_minecraft_version_aliases(version: &str) -> (r: Vec<String>)
    ensures
        r@.len() == mc_aliases(version@).len(),
        forall|k: int| 0 <= k < r@.len() ==> #[trigger] r@[k]@ == mc_aliases(version@)[k],
{
    let v = chars_of(version);
    let a = aliases_chars(v.as_slice(), false);
    proof {
        assert forall|k: int| 0 <= k < a@.len() implies #[trigger] a@[k]@ == mc_aliases(
            version@,
        )[k] by {
            assert(a@.map_values(|p: Vec<char>| p@)[k] == a@[k]@);
        }
    }
    strings_of(&a)
}

fn aliases_meet_exec(a: &Vec<Vec<char>>, b: &Vec<Vec<char>>) -> (r: bool)
    ensures
        r == aliases_meet(a@.map_values(|p: Vec<char>| p@), b@.map_values(|p: Vec<char>| p@)),
{
    let ghost sa = a@.map_values(|p: Vec<char>| p@);
    let ghost sb = b@.map_values(|p: Vec<char>| p@);
    let mut i: usize = 0;
    while i < a.len()
        invariant
            i <= a.len(),
            sa == a@.map_values(|p: Vec<char>| p@),
            sb == b@.map_values(|p: Vec<char>| p@),
            forall|x: int, y: int|
                0 <= x < i && 0 <= y < sb.len() ==> !eq_ignore_case(#[trigger] sa[x], #[trigger] sb[y]),
        decreases a.len() - i,
    {
        let mut j: usize = 0;
        while j < b.len()
            invariant
                i < a.len(),
                j <= b.len(),
                sa == a@.map_values(|p: Vec<char>| p@),
                sb == b@.map_values(|p: Vec<char>| p@),
                forall|x: int, y: int|
                    0 <= x < i && 0 <= y < sb.len() ==> !eq_ignore_case(
                        #[trigger] sa[x],
                        #[trigger] sb[y],
                    ),
                forall|y: int| 0 <= y < j ==> !eq_ignore_case(sa[i as int], #[trigger] sb[y]),
            decreases b.len() - j,
        {
            if eq_ignore_case_exec(a[i].as_slice(), b[j].as_slice()) {
                proof {
                    assert(eq_ignore_case(sa[i as int], sb[j as int]));
                }
                return true;
            }
            j = j + 1;
        }
        i = i + 1;
    }
    false
}

/// Whether two game version names name the same version.
pub fn matches_minecraft_version(candidate: &str, requested: &str) -> (r: bool)
    ensures
        r == matches_mc(candidate@, requested@),
{
    let c = chars_of(candidate);
    let q = chars_of(requested);
    if is_blank_exec(c.as_slice()) || is_blank_exec(q.as_slice()) {
        return false;
    }
    let ca = aliases_chars(c.as_slice(), false);
    let qa = aliases_chars(q.as_slice(), false);
    aliases_meet_exec(&ca, &qa)
}

/// The Forge-side version match, whose alias lists start from the trimmed names.
pub fn matches_minecraft_version_trimmed(candidate: &str, requested: &str) -> (r: bool)
    ensures
        r == matches_mc_trimmed(candidate@, requested@),
{
    let c = chars_of(candidate);
    let q = chars_of(requested);
    if is_blank_exec(c.as_slice()) || is_blank_exec(q.as_slice()) {
        return false;
    }
    let ca = aliases_chars(c.as_slice(), true);
    let qa = aliases_chars(q.as_slice(), true);
    aliases_meet_exec(&ca, &qa)
}

fn version_nums_exec(s: &[char]) -> (r: Vec<i32>)
    ensures
        r@.len() == version_nums(s@).len(),
        forall|k: int| 0 <= k < r@.len() ==> #[trigger] r@[k] as int == version_nums(s@)[k],
{
    let seps = chars_of(".-_");
    proof {
        reveal_strlit(".-_");
        assert(seps@ =~= version_seps());
    }
    let pieces = split_any_exec(s, seps.as_slice());
    proof {
        assert(pieces@.map_values(|p: Vec<char>| p@) =~= split_any(s@, version_seps()));
    }
    let parts = drop_empty_exec(&pieces);
    let ghost ps = drop_empty(split_any(s@, version_seps()));
    let mut r: Vec<i32> = Vec::new();
    let mut i: usize = 0;
    while i < parts.len()
        invariant
            i <= parts.len(),
            parts@.len() == ps.len(),
            forall|k: int| 0 <= k < parts@.len() ==> #[trigger] parts@[k]@ == ps[k],
            r@.len() == i,
            forall|k: int| 0 <= k < i ==> #[trigger] r@[k] as int == part_num(ps[k]),
        decreases parts.len() - i,
    {
        let n: i32 = match parse_i32_exec(parts[i].as_slice()) {
            Some(v) => v,
            None => 0,
        };
        r.push(n);
        i = i + 1;
    }
    r
}

/// Compares the numeric pieces one by one (non-numeric
/// pieces and missing pieces count as 0); equal versions are "below or equal".
pub fn is_version_below_or_equal(version: &str, reference: &str) -> (r: bool)
    ensures
        r == version_below_or_equal(version@, reference@),
{
    let v = version_nums_exec(chars_of(version).as_slice());
    let w = version_nums_exec(chars_of(reference).as_slice());
    let ghost a = version_nums(version@);
    let ghost b = version_nums(reference@);
    let mut i: usize = 0;
    while i < v.len() || i < w.len()
        invariant
            v@.len() == a.len(),
            w@.len() == b.len(),
            forall|k: int| 0 <= k < v@.len() ==> #[trigger] v@[k] as int == a[k],
            forall|k: int| 0 <= k < w@.len() ==> #[trigger] w@[k] as int == b[k],
            i <= v.len() || i <= w.len(),
            version_below_or_equal(version@, reference@) == nums_below_or_equal(a, b, i as nat),
        decreases (if v.len() > w.len() { v.len() } else { w.len() }) - i,
    {
        let x: i32 = if i < v.len() {
            v[i]
        } else {
            0
        };
        let y: i32 = if i < w.len() {
            w[i]
        } else {
            0
        };
        if x < y {
            return true;
        }
        if x > y {
            return false;
        }
        i = i + 1;
    }
    true
}

/// The `System.Version.TryParse` check used on Cleanroom release tags.
pub fn version_try_parse(s: &str) -> (r: bool)
    ensures
        r == version_parses(s@),
{
    let t = trim_exec(chars_of(s).as_slice());
    if t.len() == 0 {
        return false;
    }
    let dot = chars_of(".");
    proof {
        reveal_strlit(".");
        assert(dot@ =~= seq!['.']);
    }
    let parts = split_any_exec(t.as_slice(), dot.as_slice());
    if parts.len() > 4 {
        return false;
    }
    let mut i: usize = 0;
    while i < parts.len()
        invariant
            i <= parts.len(),
            t@ == trim(s@),
            t@.len() > 0,
            parts@.len() <= 4,
            parts@.len() == split_any(t@, seq!['.']).len(),
            forall|k: int| 0 <= k < parts@.len() ==> #[trigger] parts@[k]@ == split_any(t@, seq!['.'])[k],
            forall|k: int|
                0 <= k < i ==> #[trigger] split_any(t@, seq!['.'])[k].len() > 0 && all_digits(
                    split_any(t@, seq!['.'])[k],
                ) && parse_i32(split_any(t@, seq!['.'])[k]) is Some,
        decreases parts.len() - i,
    {
        let p = &parts[i];
        if p.len() == 0 {
            return false;
        }
        if !crate::num::all_digits_exec(p.as_slice()) {
            return false;
        }
        if parse_i32_exec(p.as_slice()).is_none() {
            return false;
        }
        i = i + 1;
    }
    true
}

/// The game version a NeoForge version is built for.
pub fn parse_neoforge_minecraft_version(neo_forge_version: &str) -> (r: String)
    ensures
        r@ == neoforge_mc_version(neo_forge_version@),
{
    let v = chars_of(neo_forge_version);
    let a = before_first_exec(v.as_slice(), '.');
    if a.len() == v.len() {
        return string_of(Vec::<char>::new().as_slice());
    }
    proof {
        assert(a@.len() <= v@.len()) by {
            lemma_before_first_len(v@, '.');
        }
    }
    let rest = slice_vec(v.as_slice(), a.len() + 1, v.len());
    let b = before_first_exec(rest.as_slice(), '.');
    proof {
        assert(rest@ =~= v@.skip(a@.len() + 1int));
    }
    if b.len() == rest.len() {
        return string_of(Vec::<char>::new().as_slice());
    }
    proof {
        lemma_before_first_len(rest@, '.');
    }
    match parse_i32_exec(a.as_slice()) {
        None => string_of(Vec::<char>::new().as_slice()),
        Some(major) => {
            if major >= 22 {
                string_of(slice_vec(v.as_slice(), 0, a.len() + 1 + b.len()).as_slice())
            } else if major == 0 {
                string_of(b.as_slice())
            } else {
                match parse_i32_exec(b.as_slice()) {
                    None => string_of(Vec::<char>::new().as_slice()),
                    Some(minor) => {
                        let mut out = chars_of("1.");
                        proof {
                            reveal_strlit("1.");
                        }
                        let md = crate::num::i64_decimal(major as i64);
                        push_all(&mut out, md.as_slice());
                        if minor != 0 {
                            out.push('.');
                            let nd = crate::num::i64_decimal(minor as i64);
                            push_all(&mut out, nd.as_slice());
                        }
                        proof {
                            if minor == 0 {
                                assert(out@ =~= one_dot() + crate::num::int_decimal(major as int));
                            } else {
                                assert(out@ =~= one_dot() + crate::num::int_decimal(major as int)
                                    + seq!['.'] + crate::num::int_decimal(minor as int));
                            }
                        }
                        string_of(out.as_slice())
                    },
                }
            }
        },
    }
}

proof fn lemma_before_first_len(s: Seq<char>, c: char)
    ensures
        before_first(s, c).len() <= s.len(),
    decreases s.len(),
{
    if s.len() > 0 && s[0] != c {
        lemma_before_first_len(s.skip(1), c);
    }
}

/// Unicode lower-casing of a character vector.
fn lowercase_chars(s: &[char]) -> (r: Vec<char>)
    ensures
        r@ == unicode_lowercase(s@),
{
    chars_of(to_lowercase(string_of(s).as_str()).as_str())
}

/// Whether a game version is supported, over the list of versions a metadata service reports.
pub fn supports_minecraft_version(supported: &Vec<String>, requested: &str) -> (r: bool)
    ensures
        r == supports_mc(supported@.map_values(|s: String| s@), requested@),
{
    let ghost sup = supported@.map_values(|s: String| s@);
    let q = chars_of(requested);
    let qa = aliases_chars(q.as_slice(), false);
    let mut ql: Vec<Vec<char>> = Vec::new();
    let mut j: usize = 0;
    while j < qa.len()
        invariant
            j <= qa.len(),
            qa@.map_values(|p: Vec<char>| p@) == mc_aliases(requested@),
            ql@.len() == j,
            forall|y: int| 0 <= y < j ==> #[trigger] ql@[y]@ == unicode_lowercase(qa@[y]@),
        decreases qa.len() - j,
    {
        ql.push(lowercase_chars(qa[j].as_slice()));
        j = j + 1;
    }
    let mut s: usize = 0;
    while s < supported.len()
        invariant
            s <= supported.len(),
            sup == supported@.map_values(|s: String| s@),
            qa@.map_values(|p: Vec<char>| p@) == mc_aliases(requested@),
            ql@.len() == qa@.len(),
            forall|y: int| 0 <= y < ql@.len() ==> #[trigger] ql@[y]@ == unicode_lowercase(qa@[y]@),
            forall|x: int, i: int, y: int|
                0 <= x < s && 0 <= i < mc_aliases(sup[x]).len() && 0 <= y < mc_aliases(
                    requested@,
                ).len() ==> unicode_lowercase(#[trigger] mc_aliases(sup[x])[i])
                    != unicode_lowercase(#[trigger] mc_aliases(requested@)[y]),
        decreases supported.len() - s,
    {
        let sc = chars_of(supported[s].as_str());
        let sa = aliases_chars(sc.as_slice(), false);
        let mut i: usize = 0;
        while i < sa.len()
            invariant
                s < supported.len(),
                i <= sa.len(),
                sup == supported@.map_values(|s: String| s@),
                sc@ == sup[s as int],
                sa@.map_values(|p: Vec<char>| p@) == mc_aliases(sup[s as int]),
                qa@.map_values(|p: Vec<char>| p@) == mc_aliases(requested@),
                ql@.len() == qa@.len(),
                forall|y: int|
                    0 <= y < ql@.len() ==> #[trigger] ql@[y]@ == unicode_lowercase(qa@[y]@),
                forall|x: int, i2: int, y: int|
                    0 <= x < s && 0 <= i2 < mc_aliases(sup[x]).len() && 0 <= y < mc_aliases(
                        requested@,
                    ).len() ==> unicode_lowercase(#[trigger] mc_aliases(sup[x])[i2])
                        != unicode_lowercase(#[trigger] mc_aliases(requested@)[y]),
                forall|i2: int, y: int|
                    0 <= i2 < i && 0 <= y < mc_aliases(requested@).len() ==> unicode_lowercase(
                        #[trigger] mc_aliases(sup[s as int])[i2],
                    ) != unicode_lowercase(#[trigger] mc_aliases(requested@)[y]),
            decreases sa.len() - i,
        {
            let low = lowercase_chars(sa[i].as_slice());
            let mut y: usize = 0;
            while y < ql.len()
                invariant
                    s < supported.len(),
                    i < sa.len(),
                    y <= ql.len(),
                    sup == supported@.map_values(|s: String| s@),
                    sa@.map_values(|p: Vec<char>| p@) == mc_aliases(sup[s as int]),
                    qa@.map_values(|p: Vec<char>| p@) == mc_aliases(requested@),
                    ql@.len() == qa@.len(),
                    low@ == unicode_lowercase(sa@[i as int]@),
                    forall|y2: int|
                        0 <= y2 < ql@.len() ==> #[trigger] ql@[y2]@ == unicode_lowercase(qa@[y2]@),
                    forall|y2: int|
                        0 <= y2 < y ==> low@ != unicode_lowercase(
                            #[trigger] mc_aliases(requested@)[y2],
                        ),
                decreases ql.len() - y,
            {
                proof {
                    assert(qa@.map_values(|p: Vec<char>| p@)[y as int] == qa@[y as int]@);
                }
                if crate::text::seq_eq(low.as_slice(), ql[y].as_slice()) {
                    proof {
                        assert(sa@.map_values(|p: Vec<char>| p@)[i as int] == sa@[i as int]@);
                        assert(unicode_lowercase(mc_aliases(sup[s as int])[i as int])
                            == unicode_lowercase(mc_aliases(requested@)[y as int]));
                    }
                    return true;
                }
                y = y + 1;
            }
            proof {
                assert(sa@.map_values(|p: Vec<char>| p@)[i as int] == sa@[i as int]@);
            }
            i = i + 1;
        }
        s = s + 1;
    }
    false
}

} // verus!
