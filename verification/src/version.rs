//! Loader version ordering: versions are lower-cased, the
//! Chinese "snapshot"/"preview" labels are replaced by their English names, split into runs of letters
//! and runs of digits, and compared run by run.
use vstd::prelude::*;
use crate::text::{
    ascii_lower, chars_of, replace_all, replace_exec, seq_eq, slice_vec, string_of,
};
use crate::num::{parse_i32, parse_i32_exec};

verus! {

// ---------------------------------------------------------------------------
// Ordinal comparison
// ---------------------------------------------------------------------------

/// Lexicographic comparison by code point (`str::cmp`, which orders UTF-8 bytes and
/// therefore code points the same way), as -1 / 0 / 1.
pub open spec fn lex_order(a: Seq<char>, b: Seq<char>) -> int
    decreases a.len(),
{
    if a.len() == 0 && b.len() == 0 {
        0
    } else if a.len() == 0 {
        -1
    } else if b.len() == 0 {
        1
    } else if a[0] < b[0] {
        -1
    } else if a[0] > b[0] {
        1
    } else {
        lex_order(a.skip(1), b.skip(1))
    }
}

/// Swapping the two texts negates their ordinal comparison, which is -1, 0 or 1.
pub proof fn lemma_lex_order_antisym(a: Seq<char>, b: Seq<char>)
    ensures
        lex_order(a, b) == -lex_order(b, a),
        -1 <= lex_order(a, b) <= 1,
    decreases a.len(),
{
    if a.len() > 0 && b.len() > 0 && a[0] == b[0] {
        lemma_lex_order_antisym(a.skip(1), b.skip(1));
    }
}

/// Every text compares ordinally equal to itself.
pub proof fn lemma_lex_order_refl(a: Seq<char>)
    ensures
        lex_order(a, a) == 0,
    decreases a.len(),
{
    if a.len() > 0 {
        lemma_lex_order_refl(a.skip(1));
    }
}

/// Texts that compare ordinally equal are the same text.
pub proof fn lemma_lex_order_zero(a: Seq<char>, b: Seq<char>)
    requires
        lex_order(a, b) == 0,
    ensures
        a == b,
    decreases a.len(),
{
    if a.len() > 0 && b.len() > 0 {
        lemma_lex_order_zero(a.skip(1), b.skip(1));
        assert(a =~= seq![a[0]] + a.skip(1));
        assert(b =~= seq![b[0]] + b.skip(1));
    }
}

/// Ordinal order is transitive: `a <= b` and `b <= c` give `a <= c`, strictly when
/// either step is strict.
pub proof fn lemma_lex_order_trans(a: Seq<char>, b: Seq<char>, c: Seq<char>)
    requires
        lex_order(a, b) <= 0,
        lex_order(b, c) <= 0,
    ensures
        lex_order(a, c) <= 0,
        (lex_order(a, b) < 0 || lex_order(b, c) < 0) ==> lex_order(a, c) < 0,
    decreases a.len(),
{
    lemma_lex_order_antisym(a, b);
    lemma_lex_order_antisym(b, c);
    lemma_lex_order_antisym(a, c);
    if a.len() > 0 && b.len() > 0 && c.len() > 0 && a[0] == b[0] && b[0] == c[0] {
        lemma_lex_order_trans(a.skip(1), b.skip(1), c.skip(1));
    }
}

/// `string.Compare(a, b, StringComparison.Ordinal)` reduced to its sign.
pub fn string_compare_ordinal(a: &[char], b: &[char]) -> (r: i32)
    ensures
        r as int == lex_order(a@, b@),
{
    let mut i: usize = 0;
    proof {
        assert(a@.skip(0) =~= a@);
        assert(b@.skip(0) =~= b@);
    }
    loop
        invariant
            i <= a.len(),
            i <= b.len(),
            lex_order(a@, b@) == lex_order(a@.skip(i as int), b@.skip(i as int)),
        decreases a.len() - i,
    {
        if i == a.len() && i == b.len() {
            return 0;
        }
        if i == a.len() {
            return -1;
        }
        if i == b.len() {
            return 1;
        }
        let x: char = a[i];
        let y: char = b[i];
        proof {
            assert(a@.skip(i as int)[0] == a@[i as int]);
            assert(b@.skip(i as int)[0] == b@[i as int]);
        }
        if x < y {
            return -1;
        }
        if x > y {
            return 1;
        }
        proof {
            assert(a@.skip(i as int).skip(1) =~= a@.skip(i + 1));
            assert(b@.skip(i as int).skip(1) =~= b@.skip(i + 1));
        }
        i = i + 1;
    }
}

// ---------------------------------------------------------------------------
// Tokens: maximal runs of `a`-`z` and of `0`-`9` (the matches of `[a-z]+|[0-9]+`)
// ---------------------------------------------------------------------------

/// 1 for a lower-case ASCII letter, 2 for an ASCII digit, 0 for anything else.
pub open spec fn token_class(c: char) -> int {
    if 'a' <= c && c <= 'z' {
        1
    } else if '0' <= c && c <= '9' {
        2
    } else {
        0
    }
}

/// The successive matches of the pattern `[a-z]+|[0-9]+` in `s`: its maximal runs of
/// lower-case letters and of digits, in order.
pub open spec fn token_runs(s: Seq<char>) -> Seq<Seq<char>>
    decreases s.len(),
{
    if s.len() == 0 {
        Seq::empty()
    } else {
        let r = token_runs(s.drop_last());
        let c = s.last();
        if token_class(c) == 0 {
            r
        } else if s.len() >= 2 && token_class(s[s.len() - 2]) == token_class(c) {
            r.update(r.len() - 1, r.last().push(c))
        } else {
            r.push(seq![c])
        }
    }
}

/// What `str::to_lowercase` returns for a string.
pub uninterp spec fn unicode_lowercase(s: Seq<char>) -> Seq<char>;

/// Unicode lower-casing of a string (`str::to_lowercase`). The result is named by
/// `unicode_lowercase`; on ASCII text it is ASCII lower-casing, as the standard
/// library documents. Nothing is stated of other characters' mappings.
#[verifier::external_body]
pub(crate) fn to_lowercase(s: &str) -> (r: String)
    ensures
        r@ == unicode_lowercase(s@),
        (forall|i: int| 0 <= i < s@.len() ==> (#[trigger] s@[i] as u32) < 128) ==> r@
            == ascii_lower(s@),
{
    s.to_lowercase()
}

/// The matches of `[a-z]+|[0-9]+` in `s`, in order (`regex::Regex::find_iter`).
/// The contract states the matches of that fixed pattern: maximal runs of lower-case
/// ASCII letters and of ASCII digits.
#[verifier::external_body]
fn version_tokens(s: &str) -> (r: Vec<Vec<char>>)
    ensures
        r@.len() == token_runs(s@).len(),
        forall|k: int| 0 <= k < r@.len() ==> #[trigger] r@[k]@ == token_runs(s@)[k],
{
    let re = regex::Regex::new("[a-z]+|[0-9]+").unwrap();
    re.find_iter(s).map(|m| m.as_str().chars().collect()).collect()
}

// ---------------------------------------------------------------------------
// The comparison
// ---------------------------------------------------------------------------

pub open spec fn unknown_label() -> Seq<char> {
    seq!['未', '知', '版', '本']
}

pub open spec fn snapshot_cn() -> Seq<char> {
    seq!['快', '照']
}

pub open spec fn preview_cn() -> Seq<char> {
    seq!['预', '览', '版']
}

pub open spec fn snapshot_en() -> Seq<char> {
    seq!['s', 'n', 'a', 'p', 's', 'h', 'o', 't']
}

pub open spec fn pre_en() -> Seq<char> {
    seq!['p', 'r', 'e']
}

/// Lower-cased version text with the Chinese labels replaced by their English names.
pub open spec fn version_key(v: Seq<char>) -> Seq<char> {
    replace_all(
        replace_all(unicode_lowercase(v), snapshot_cn(), snapshot_en()),
        preview_cn(),
        pre_en(),
    )
}

/// Pre/snapshot → -3, rc → -2, experimental → -4.
pub open spec fn special_label(t: Seq<char>) -> Seq<char> {
    if t == pre_en() || t == snapshot_en() {
        seq!['-', '3']
    } else if t == seq!['r', 'c'] {
        seq!['-', '2']
    } else if t == seq!['e', 'x', 'p', 'e', 'r', 'i', 'm', 'e', 'n', 't', 'a', 'l'] {
        seq!['-', '4']
    } else {
        t
    }
}

pub open spec fn token_or_fill(ts: Seq<Seq<char>>, i: int) -> Seq<char> {
    if 0 <= i < ts.len() {
        ts[i]
    } else {
        seq!['-', '1']
    }
}

/// Run-by-run comparison from run `i` on; runs past the end count as "-1"; when both
/// sides run out the whole keys are compared ordinally.
pub open spec fn order_runs(l: Seq<Seq<char>>, r: Seq<Seq<char>>, i: nat, lk: Seq<char>, rk: Seq<char>) -> int
    decreases (if l.len() > r.len() { l.len() } else { r.len() }) - i,
{
    if i >= l.len() && i >= r.len() {
        lex_order(lk, rk)
    } else {
        let lv = token_or_fill(l, i as int);
        let rv = token_or_fill(r, i as int);
        if lv == rv {
            order_runs(l, r, i + 1, lk, rk)
        } else {
            let lc = special_label(lv);
            let rc = special_label(rv);
            match (parse_i32(lc), parse_i32(rc)) {
                (Some(a), Some(b)) => if a > b {
                    1
                } else if a < b {
                    -1
                } else {
                    order_runs(l, r, i + 1, lk, rk)
                },
                _ => lex_order(lc, rc),
            }
        }
    }
}

/// `VersionSortInteger(left, right)`: the sign of the comparison of two versions.
pub open spec fn version_order(l: Seq<char>, r: Seq<char>) -> int {
    if l == unknown_label() || r == unknown_label() {
        if l == unknown_label() && r != unknown_label() {
            1
        } else if l != unknown_label() && r == unknown_label() {
            -1
        } else {
            0
        }
    } else {
        let lk = version_key(l);
        let rk = version_key(r);
        order_runs(token_runs(lk), token_runs(rk), 0, lk, rk)
    }
}

proof fn lemma_order_runs_antisym(
    l: Seq<Seq<char>>,
    r: Seq<Seq<char>>,
    i: nat,
    lk: Seq<char>,
    rk: Seq<char>,
)
    ensures
        order_runs(l, r, i, lk, rk) == -order_runs(r, l, i, rk, lk),
    decreases (if l.len() > r.len() { l.len() } else { r.len() }) - i,
{
    if i >= l.len() && i >= r.len() {
        lemma_lex_order_antisym(lk, rk);
    } else {
        let lv = token_or_fill(l, i as int);
        let rv = token_or_fill(r, i as int);
        if lv == rv {
            lemma_order_runs_antisym(l, r, i + 1, lk, rk);
        } else {
            lemma_lex_order_antisym(special_label(lv), special_label(rv));
            lemma_order_runs_antisym(l, r, i + 1, lk, rk);
        }
    }
}

proof fn lemma_order_runs_refl(l: Seq<Seq<char>>, i: nat, k: Seq<char>)
    ensures
        order_runs(l, l, i, k, k) == 0,
    decreases l.len() - i,
{
    if i >= l.len() {
        lemma_lex_order_refl(k);
    } else {
        lemma_order_runs_refl(l, i + 1, k);
    }
}

/// Swapping the two versions negates their comparison.
pub proof fn lemma_version_order_antisymmetric(a: Seq<char>, b: Seq<char>)
    ensures
        version_order(a, b) == -version_order(b, a),
{
    if !(a == unknown_label() || b == unknown_label()) {
        lemma_order_runs_antisym(
            token_runs(version_key(a)),
            token_runs(version_key(b)),
            0,
            version_key(a),
            version_key(b),
        );
    }
}

/// Every version compares equal to itself.
pub proof fn lemma_version_order_reflexive(a: Seq<char>)
    ensures
        version_order(a, a) == 0,
{
    if a != unknown_label() {
        lemma_order_runs_refl(token_runs(version_key(a)), 0, version_key(a));
    }
}


/// The rank of a pre-release label.
pub fn convert_special_label(t: &[char]) -> (r: Vec<char>)
    ensures
        r@ == special_label(t@),
{
    let pre = chars_of("pre");
    let snapshot = chars_of("snapshot");
    let rc = chars_of("rc");
    let experimental = chars_of("experimental");
    proof {
        reveal_strlit("pre");
        reveal_strlit("snapshot");
        reveal_strlit("rc");
        reveal_strlit("experimental");
        assert(pre@ =~= pre_en());
        assert(snapshot@ =~= snapshot_en());
        assert(rc@ =~= seq!['r', 'c']);
        assert(experimental@ =~= seq!['e', 'x', 'p', 'e', 'r', 'i', 'm', 'e', 'n', 't', 'a', 'l']);
    }
    if seq_eq(t, pre.as_slice()) || seq_eq(t, snapshot.as_slice()) {
        let r = chars_of("-3");
        proof {
            reveal_strlit("-3");
            assert(r@ =~= seq!['-', '3']);
        }
        r
    } else if seq_eq(t, rc.as_slice()) {
        let r = chars_of("-2");
        proof {
            reveal_strlit("-2");
            assert(r@ =~= seq!['-', '2']);
        }
        r
    } else if seq_eq(t, experimental.as_slice()) {
        let r = chars_of("-4");
        proof {
            reveal_strlit("-4");
            assert(r@ =~= seq!['-', '4']);
        }
        r
    } else {
        slice_vec(t, 0, t.len())
    }
}

/// Lower-cases a version and replaces the Chinese labels by their English names.
fn version_key_exec(v: &str) -> (r: Vec<char>)
    ensures
        r@ == version_key(v@),
{
    let lower = to_lowercase(v);
    let lower_chars = chars_of(lower.as_str());
    let snap_cn = chars_of("快照");
    let snap_en = chars_of("snapshot");
    let prev_cn = chars_of("预览版");
    let prev_en = chars_of("pre");
    proof {
        reveal_strlit("快照");
        reveal_strlit("snapshot");
        reveal_strlit("预览版");
        reveal_strlit("pre");
        assert(snap_cn@ =~= snapshot_cn());
        assert(snap_en@ =~= snapshot_en());
        assert(prev_cn@ =~= preview_cn());
        assert(prev_en@ =~= pre_en());
    }
    let a = replace_exec(lower_chars.as_slice(), snap_cn.as_slice(), snap_en.as_slice());
    replace_exec(a.as_slice(), prev_cn.as_slice(), prev_en.as_slice())
}

fn token_or_fill_exec(ts: &Vec<Vec<char>>, i: usize) -> (r: Vec<char>)
    ensures
        r@ == token_or_fill(ts@.map_values(|t: Vec<char>| t@), i as int),
{
    if i < ts.len() {
        slice_vec(ts[i].as_slice(), 0, ts[i].len())
    } else {
        let r = chars_of("-1");
        proof {
            reveal_strlit("-1");
            assert(r@ =~= seq!['-', '1']);
        }
        r
    }
}

/// `VersionSortInteger(left, right)`: 1 when `left` orders after `right`, -1 when
/// before, 0 when they are equivalent.
pub fn version_sort_integer(left: &str, right: &str) -> (r: i32)
    ensures
        r as int == version_order(left@, right@),
{
    let unknown = chars_of("未知版本");
    let lc = chars_of(left);
    let rc = chars_of(right);
    proof {
        reveal_strlit("未知版本");
        assert(unknown@ =~= unknown_label());
    }
    let l_unknown = seq_eq(lc.as_slice(), unknown.as_slice());
    let r_unknown = seq_eq(rc.as_slice(), unknown.as_slice());
    if l_unknown || r_unknown {
        if l_unknown && !r_unknown {
            return 1;
        }
        if !l_unknown && r_unknown {
            return -1;
        }
        return 0;
    }
    let lk = version_key_exec(left);
    let rk = version_key_exec(right);
    let lks = string_of(lk.as_slice());
    let rks = string_of(rk.as_slice());
    let lt = version_tokens(lks.as_str());
    let rt = version_tokens(rks.as_str());
    let ghost lts = token_runs(lk@);
    let ghost rts = token_runs(rk@);
    proof {
        assert(lt@.map_values(|t: Vec<char>| t@) =~= lts);
        assert(rt@.map_values(|t: Vec<char>| t@) =~= rts);
    }
    let mut i: usize = 0;
    loop
        invariant
            lt@.map_values(|t: Vec<char>| t@) == lts,
            rt@.map_values(|t: Vec<char>| t@) == rts,
            lts.len() == lt.len(),
            rts.len() == rt.len(),
            i <= lt.len() || i <= rt.len(),
            version_order(left@, right@) == order_runs(lts, rts, i as nat, lk@, rk@),
            !(left@ == unknown_label() || right@ == unknown_label()),
        decreases (if lt.len() > rt.len() { lt.len() } else { rt.len() }) - i,
    {
        if i >= lt.len() && i >= rt.len() {
            return string_compare_ordinal(lk.as_slice(), rk.as_slice());
        }
        let lv = token_or_fill_exec(&lt, i);
        let rv = token_or_fill_exec(&rt, i);
        if seq_eq(lv.as_slice(), rv.as_slice()) {
            i = i + 1;
            continue;
        }
        let lcv = convert_special_label(lv.as_slice());
        let rcv = convert_special_label(rv.as_slice());
        match (parse_i32_exec(lcv.as_slice()), parse_i32_exec(rcv.as_slice())) {
            (Some(a), Some(b)) => {
                if a > b {
                    return 1;
                }
                if a < b {
                    return -1;
                }
                i = i + 1;
            },
            _ => {
                return string_compare_ordinal(lcv.as_slice(), rcv.as_slice());
            },
        }
    }
}

/// Compares two loader versions: the order `version_sort_integer` gives.
pub fn compare(x: &str, y: &str) -> (r: i32)
    ensures
        r as int == version_order(x@, y@),
{
    version_sort_integer(x, y)
}

} // verus!
