//! Decimal integers: parsing as `str::parse::<i32>` does, and printing.
use vstd::prelude::*;

verus! {

pub open spec fn is_digit(c: char) -> bool {
    '0' <= c && c <= '9'
}

pub open spec fn digit_val(c: char) -> int {
    (c as int) - ('0' as int)
}

pub open spec fn all_digits(s: Seq<char>) -> bool {
    forall|i: int| 0 <= i < s.len() ==> is_digit(#[trigger] s[i])
}

/// Value of a string of decimal digits.
pub open spec fn digits_value(s: Seq<char>) -> int
    decreases s.len(),
{
    if s.len() == 0 {
        0
    } else {
        digits_value(s.drop_last()) * 10 + digit_val(s.last())
    }
}

/// What `str::parse::<i32>` yields: an optional `+`/`-` sign followed by at least one
/// decimal digit and nothing else, with a value inside the `i32` range.
pub open spec fn parse_i32(s: Seq<char>) -> Option<int> {
    let signed = s.len() > 0 && (s[0] == '-' || s[0] == '+');
    let body = if signed {
        s.skip(1)
    } else {
        s
    };
    let v = if s.len() > 0 && s[0] == '-' {
        -digits_value(body)
    } else {
        digits_value(body)
    };
    if body.len() == 0 || !all_digits(body) {
        None
    } else if i32::MIN <= v && v <= i32::MAX {
        Some(v)
    } else {
        None
    }
}

/// What `str::parse::<i64>` yields: an optional `+`/`-` sign followed by at least one
/// decimal digit and nothing else, with a value inside the `i64` range.
pub open spec fn parse_i64(s: Seq<char>) -> Option<int> {
    let signed = s.len() > 0 && (s[0] == '-' || s[0] == '+');
    let body = if signed {
        s.skip(1)
    } else {
        s
    };
    let v = if s.len() > 0 && s[0] == '-' {
        -digits_value(body)
    } else {
        digits_value(body)
    };
    if body.len() == 0 || !all_digits(body) {
        None
    } else if i64::MIN <= v && v <= i64::MAX {
        Some(v)
    } else {
        None
    }
}

pub open spec fn digit_char(d: nat) -> char
    recommends
        d < 10,
{
    ((d + 48) as u32) as char
}

/// Decimal representation of a natural number, without leading zeros.
pub open spec fn decimal(n: nat) -> Seq<char>
    decreases n,
{
    if n < 10 {
        seq![digit_char(n)]
    } else {
        decimal(n / 10).push(digit_char(n % 10))
    }
}

/// Decimal representation of an integer (`{}` formatting).
pub open spec fn int_decimal(n: int) -> Seq<char> {
    if n < 0 {
        seq!['-'] + decimal((-n) as nat)
    } else {
        decimal(n as nat)
    }
}

/// `{:0w}` formatting of a natural number: left-padded with zeros to `w` characters.
pub open spec fn zero_pad(s: Seq<char>, w: nat) -> Seq<char> {
    if s.len() >= w {
        s
    } else {
        Seq::new((w - s.len()) as nat, |i: int| '0') + s
    }
}

proof fn lemma_digits_nonneg(s: Seq<char>)
    requires
        all_digits(s),
    ensures
        digits_value(s) >= 0,
    decreases s.len(),
{
    if s.len() > 0 {
        assert(all_digits(s.drop_last())) by {
            assert forall|i: int| 0 <= i < s.drop_last().len() implies is_digit(
                #[trigger] s.drop_last()[i],
            ) by {
                assert(s.drop_last()[i] == s[i]);
            }
        }
        lemma_digits_nonneg(s.drop_last());
        assert(is_digit(s[s.len() - 1]));
    }
}

pub fn is_digit_exec(c: char) -> (r: bool)
    ensures
        r == is_digit(c),
{
    '0' <= c && c <= '9'
}

/// Every character is an ASCII digit.
pub fn all_digits_exec(s: &[char]) -> (r: bool)
    ensures
        r == all_digits(s@),
{
    let mut j: usize = 0;
    while j < s.len()
        invariant
            j <= s.len(),
            forall|m: int| 0 <= m < j ==> is_digit(#[trigger] s@[m]),
        decreases s.len() - j,
    {
        if !is_digit_exec(s[j]) {
            return false;
        }
        j = j + 1;
    }
    true
}

/// `str::parse::<i32>`.
pub fn parse_i32_exec(s: &[char]) -> (r: Option<i32>)
    ensures
        match r {
            Some(v) => parse_i32(s@) == Some(v as int),
            None => parse_i32(s@) is None,
        },
{
    if s.len() == 0 {
        return None;
    }
    let neg = s[0] == '-';
    let start: usize = if s[0] == '-' || s[0] == '+' {
        1
    } else {
        0
    };
    let ghost body = s@.skip(start as int);
    proof {
        assert(s@.skip(0) =~= s@);
    }
    if start >= s.len() {
        return None;
    }
    // `acc` is exact while it stays at or below 2^31; past that only "too big" is kept.
    let mut acc: u64 = 0;
    let mut big = false;
    let mut i: usize = start;
    proof {
        assert(body.take(0) =~= Seq::<char>::empty());
    }
    while i < s.len()
        invariant
            start <= i <= s.len(),
            s.len() > 0,
            start == (if s@[0] == '-' || s@[0] == '+' {
                1int
            } else {
                0int
            }),
            neg == (s@[0] == '-'),
            s@.skip(0) == s@,
            body == s@.skip(start as int),
            all_digits(body.take(i - start)),
            !big ==> acc as int == digits_value(body.take(i - start)) && acc <= 2147483648,
            big ==> digits_value(body.take(i - start)) > 2147483648,
        decreases s.len() - i,
    {
        let c = s[i];
        let ghost pre = body.take(i - start);
        let ghost next = body.take(i - start + 1);
        proof {
            assert(next.drop_last() =~= pre);
            assert(next.last() == c);
            assert(body[i - start] == c);
        }
        if !is_digit_exec(c) {
            proof {
                assert(!is_digit(body[i - start]));
                assert(!all_digits(body));
                let signed = s@.len() > 0 && (s@[0] == '-' || s@[0] == '+');
                assert(body == if signed {
                    s@.skip(1)
                } else {
                    s@
                });
            }
            return None;
        }
        let d: u64 = ((c as u32) - ('0' as u32)) as u64;
        proof {
            assert(all_digits(next)) by {
                assert forall|j: int| 0 <= j < next.len() implies is_digit(#[trigger] next[j]) by {
                    if j < pre.len() {
                        assert(next[j] == pre[j]);
                    }
                }
            }
            lemma_digits_nonneg(pre);
            assert(d as int == digit_val(c));
        }
        if !big {
            let n: u64 = acc * 10 + d;
            if n > 2147483648 {
                big = true;
            } else {
                acc = n;
            }
        } else {
            proof {
                let pv = digits_value(pre);
                assert(pv * 10 >= pv) by (nonlinear_arith)
                    requires
                        pv >= 0,
                ;
            }
        }
        i = i + 1;
    }
    proof {
        assert(body.take(s.len() - start) =~= body);
    }
    if big {
        return None;
    }
    if neg {
        let v: i64 = -(acc as i64);
        Some(v as i32)
    } else {
        if acc > 2147483647 {
            return None;
        }
        Some(acc as i32)
    }
}

/// `str::parse::<i64>`.
pub fn parse_i64_exec(s: &[char]) -> (r: Option<i64>)
    ensures
        match r {
            Some(v) => parse_i64(s@) == Some(v as int),
            None => parse_i64(s@) is None,
        },
{
    if s.len() == 0 {
        return None;
    }
    let neg = s[0] == '-';
    let start: usize = if s[0] == '-' || s[0] == '+' {
        1
    } else {
        0
    };
    let ghost body = s@.skip(start as int);
    proof {
        assert(s@.skip(0) =~= s@);
    }
    if start >= s.len() {
        return None;
    }
    // `acc` is exact while it stays at or below 2^63; past that only "too big" is kept.
    let mut acc: u128 = 0;
    let mut big = false;
    let mut i: usize = start;
    proof {
        assert(body.take(0) =~= Seq::<char>::empty());
    }
    while i < s.len()
        invariant
            start <= i <= s.len(),
            s.len() > 0,
            start == (if s@[0] == '-' || s@[0] == '+' {
                1int
            } else {
                0int
            }),
            neg == (s@[0] == '-'),
            s@.skip(0) == s@,
            body == s@.skip(start as int),
            all_digits(body.take(i - start)),
            !big ==> acc as int == digits_value(body.take(i - start)) && acc <= 9223372036854775808,
            big ==> digits_value(body.take(i - start)) > 9223372036854775808,
        decreases s.len() - i,
    {
        let c = s[i];
        let ghost pre = body.take(i - start);
        let ghost next = body.take(i - start + 1);
        proof {
            assert(next.drop_last() =~= pre);
            assert(next.last() == c);
            assert(body[i - start] == c);
        }
        if !is_digit_exec(c) {
            proof {
                assert(!is_digit(body[i - start]));
                assert(!all_digits(body));
                let signed = s@.len() > 0 && (s@[0] == '-' || s@[0] == '+');
                assert(body == if signed {
                    s@.skip(1)
                } else {
                    s@
                });
            }
            return None;
        }
        let d: u128 = ((c as u32) - ('0' as u32)) as u128;
        proof {
            assert(all_digits(next)) by {
                assert forall|j: int| 0 <= j < next.len() implies is_digit(#[trigger] next[j]) by {
                    if j < pre.len() {
                        assert(next[j] == pre[j]);
                    }
                }
            }
            lemma_digits_nonneg(pre);
            assert(d as int == digit_val(c));
        }
        if !big {
            let n: u128 = acc * 10 + d;
            if n > 9223372036854775808 {
                big = true;
            } else {
                acc = n;
            }
        } else {
            proof {
                let pv = digits_value(pre);
                assert(pv * 10 >= pv) by (nonlinear_arith)
                    requires
                        pv >= 0,
                ;
            }
        }
        i = i + 1;
    }
    proof {
        assert(body.take(s.len() - start) =~= body);
    }
    if big {
        return None;
    }
    if neg {
        let v: i128 = -(acc as i128);
        Some(v as i64)
    } else {
        if acc > 9223372036854775807 {
            return None;
        }
        Some(acc as i64)
    }
}

/// Decimal digits of a natural number.
pub fn u64_decimal(n: u64) -> (r: Vec<char>)
    ensures
        r@ == decimal(n as nat),
    decreases n,
{
    let d: u8 = (n % 10) as u8;
    let c: char = (d + 48) as char;
    proof {
        assert(c == digit_char((n % 10) as nat));
    }
    if n < 10 {
        let mut r: Vec<char> = Vec::new();
        r.push(c);
        proof {
            assert(r@ =~= seq![digit_char(n as nat)]);
        }
        r
    } else {
        let mut r = u64_decimal(n / 10);
        r.push(c);
        r
    }
}

/// Decimal representation of a signed integer.
pub fn i64_decimal(n: i64) -> (r: Vec<char>)
    ensures
        r@ == int_decimal(n as int),
{
    if n < 0 {
        let m: u64 = if n == i64::MIN {
            9223372036854775808u64
        } else {
            (-n) as u64
        };
        let digits = u64_decimal(m);
        let mut r: Vec<char> = Vec::new();
        r.push('-');
        crate::text::push_all(&mut r, digits.as_slice());
        proof {
            assert(r@ =~= seq!['-'] + decimal((-n) as nat));
        }
        r
    } else {
        u64_decimal(n as u64)
    }
}

/// Left-pads with zeros to width `w`.
pub fn zero_pad_exec(s: &[char], w: usize) -> (r: Vec<char>)
    ensures
        r@ == zero_pad(s@, w as nat),
{
    let mut r: Vec<char> = Vec::new();
    if s.len() < w {
        let mut k: usize = 0;
        while k < w - s.len()
            invariant
                s.len() < w,
                k <= w - s.len(),
                r@ == Seq::new(k as nat, |i: int| '0'),
            decreases w - s.len() - k,
        {
            r.push('0');
            k = k + 1;
            proof {
                assert(r@ =~= Seq::new(k as nat, |i: int| '0'));
            }
        }
    }
    crate::text::push_all(&mut r, s);
    proof {
        if s.len() >= w {
            assert(r@ =~= s@);
        }
    }
    r
}

} // verus!
