//! Percent-encoding of URL data (the RFC 3986 unreserved characters stay) and
//! form-style decoding.
use vstd::prelude::*;
use vstd::utf8::{decode_utf8, encode_utf8, is_ascii_chars, is_ascii_chars_encode_utf8, valid_utf8};
use vstd::string::StringSliceAdditionalSpecFns;
use crate::text::string_of;

verus! {

/// RFC 3986 unreserved bytes: ASCII letters, digits, `-`, `.`, `_`, `~`.
pub open spec fn is_unreserved(b: u8) -> bool {
    (0x41 <= b <= 0x5a) || (0x61 <= b <= 0x7a) || (0x30 <= b <= 0x39) || b == 0x2d || b == 0x2e
        || b == 0x5f || b == 0x7e
}

/// Upper-case hexadecimal digit of a value below 16.
pub open spec fn hex_upper(n: int) -> char {
    if n < 10 {
        ((n + 48) as u32) as char
    } else {
        ((n + 55) as u32) as char
    }
}

/// Unreserved bytes kept as characters, every other byte written `%XX`.
pub open spec fn escaped(bytes: Seq<u8>) -> Seq<char>
    decreases bytes.len(),
{
    if bytes.len() == 0 {
        Seq::empty()
    } else {
        let b = bytes.last();
        escaped(bytes.drop_last()) + if is_unreserved(b) {
            seq![(b as u32) as char]
        } else {
            seq!['%', hex_upper(b as int / 16), hex_upper(b as int % 16)]
        }
    }
}

/// Value of a hexadecimal digit byte.
pub open spec fn hex_value(b: u8) -> Option<u8> {
    if 0x30 <= b <= 0x39 {
        Some((b - 0x30) as u8)
    } else if 0x61 <= b <= 0x66 {
        Some((b - 0x61 + 10) as u8)
    } else if 0x41 <= b <= 0x46 {
        Some((b - 0x41 + 10) as u8)
    } else {
        None
    }
}

/// Form decoding of bytes from position `i`: `+` becomes a space; `%` followed by two
/// hexadecimal digits (two bytes that follow it within the input) becomes that byte; every other byte stays.
pub open spec fn url_decoded_from(b: Seq<u8>, i: int) -> Seq<u8>
    decreases b.len() - i,
{
    if i < 0 || i >= b.len() {
        Seq::empty()
    } else if b[i] == 0x2b {
        seq![0x20u8] + url_decoded_from(b, i + 1)
    } else if b[i] == 0x25 && i + 2 < b.len() && hex_value(b[i + 1]) is Some && hex_value(b[i + 2]) is Some {
        seq![(hex_value(b[i + 1])->0 * 16 + hex_value(b[i + 2])->0) as u8] + url_decoded_from(b, i + 3)
    } else {
        seq![b[i]] + url_decoded_from(b, i + 1)
    }
}

/// What `String::from_utf8_lossy` returns for a byte sequence.
pub uninterp spec fn utf8_lossy(b: Seq<u8>) -> Seq<char>;

/// `String::from_utf8_lossy`: the result is named by `utf8_lossy`; valid UTF-8 decodes
/// exactly, as the standard library documents (invalid sequences become U+FFFD, which
/// is not stated here).
#[verifier::external_body]
pub(crate) fn from_utf8_lossy(b: &[u8]) -> (r: String)
    ensures
        r@ == utf8_lossy(b@),
        valid_utf8(b@) ==> r@ == decode_utf8(b@),
{
    String::from_utf8_lossy(b).into_owned()
}

fn hex_upper_exec(n: u8) -> (r: char)
    requires
        n < 16,
    ensures
        r == hex_upper(n as int),
{
    if n < 10 {
        (n + 48) as char
    } else {
        (n + 55) as char
    }
}

/// Percent-encodes a text: the UTF-8 bytes of `s`, unreserved ones as they are and
/// every other one as `%XX` in upper-case hexadecimal.
pub fn escape_data_string(s: &str) -> (r: String)
    ensures
        r@ == escaped(s.spec_bytes()),
{
    let bytes = s.as_bytes();
    let mut out: Vec<char> = Vec::new();
    let mut i: usize = 0;
    proof {
        assert(bytes@.take(0) =~= Seq::<u8>::empty());
    }
    while i < bytes.len()
        invariant
            i <= bytes.len(),
            bytes@ == s.spec_bytes(),
            out@ == escaped(bytes@.take(i as int)),
        decreases bytes.len() - i,
    {
        let b = bytes[i];
        proof {
            assert(bytes@.take(i + 1).drop_last() =~= bytes@.take(i as int));
            assert(bytes@.take(i + 1).last() == b);
        }
        let ghost before = out@;
        if (0x41 <= b && b <= 0x5a) || (0x61 <= b && b <= 0x7a) || (0x30 <= b && b <= 0x39) || b
            == 0x2d || b == 0x2e || b == 0x5f || b == 0x7e {
            out.push(b as char);
            proof {
                assert(out@ =~= before + seq![(b as u32) as char]);
            }
        } else {
            out.push('%');
            out.push(hex_upper_exec(b / 16));
            out.push(hex_upper_exec(b % 16));
            proof {
                assert(out@ =~= before + seq!['%', hex_upper(b as int / 16), hex_upper(b as int % 16)]);
            }
        }
        i = i + 1;
    }
    proof {
        assert(bytes@.take(bytes.len() as int) =~= bytes@);
    }
    string_of(out.as_slice())
}

/// Value of a hexadecimal digit.
pub fn hex_val(b: u8) -> (r: Option<u8>)
    ensures
        r == hex_value(b),
{
    if 0x30 <= b && b <= 0x39 {
        Some(b - 0x30)
    } else if 0x61 <= b && b <= 0x66 {
        Some(b - 0x61 + 10)
    } else if 0x41 <= b && b <= 0x46 {
        Some(b - 0x41 + 10)
    } else {
        None
    }
}

/// Form decoding of the UTF-8 bytes, then lossy UTF-8 decoding (exact decoding when the
/// decoded bytes are valid UTF-8).
pub fn web_url_decode(input: &str) -> (r: String)
    ensures
        r@ == utf8_lossy(url_decoded_from(input.spec_bytes(), 0)),
        valid_utf8(url_decoded_from(input.spec_bytes(), 0)) ==> r@ == decode_utf8(url_decoded_from(input.spec_bytes(), 0)),
{
    let bytes = input.as_bytes();
    let mut out: Vec<u8> = Vec::new();
    let mut i: usize = 0;
    proof {
        assert(out@ + url_decoded_from(bytes@, 0) =~= url_decoded_from(bytes@, 0));
    }
    while i < bytes.len()
        invariant
            i <= bytes.len(),
            bytes@ == input.spec_bytes(),
            out@ + url_decoded_from(bytes@, i as int) == url_decoded_from(bytes@, 0),
        decreases bytes.len() - i,
    {
        let b = bytes[i];
        let ghost before = out@;
        if b == 0x2b {
            out.push(0x20);
            i = i + 1;
            proof {
                assert(before + url_decoded_from(bytes@, i - 1) =~= out@ + url_decoded_from(bytes@, i as int));
            }
        } else if b == 0x25 && bytes.len() - i > 2 && hex_val(bytes[i + 1]).is_some() && hex_val(bytes[i + 2]).is_some() {
            let h1 = hex_val(bytes[i + 1]).unwrap();
            let h2 = hex_val(bytes[i + 2]).unwrap();
            assert(h1 < 16 && h2 < 16);
            let v: u8 = h1 * 16 + h2;
            out.push(v);
            i = i + 3;
            proof {
                assert(before + url_decoded_from(bytes@, i - 3) =~= out@ + url_decoded_from(bytes@, i as int));
            }
        } else {
            out.push(b);
            i = i + 1;
            proof {
                assert(before + url_decoded_from(bytes@, i - 1) =~= out@ + url_decoded_from(bytes@, i as int));
            }
        }
    }
    proof {
        assert(out@ + Seq::<u8>::empty() =~= out@);
    }
    from_utf8_lossy(out.as_slice())
}

// ---------------------------------------------------------------------------
// Decoding what was escaped
// ---------------------------------------------------------------------------

/// The characters one byte is escaped to.
pub open spec fn escaped_byte(b: u8) -> Seq<char> {
    if is_unreserved(b) {
        seq![(b as u32) as char]
    } else {
        seq!['%', hex_upper(b as int / 16), hex_upper(b as int % 16)]
    }
}

proof fn lemma_escaped_front(b: Seq<u8>)
    requires
        b.len() > 0,
    ensures
        escaped(b) == escaped_byte(b[0]) + escaped(b.skip(1)),
    decreases b.len(),
{
    if b.len() == 1 {
        assert(b.drop_last() =~= Seq::<u8>::empty());
        assert(b.skip(1) =~= Seq::<u8>::empty());
        assert(escaped(b.skip(1)) =~= Seq::<char>::empty());
        assert(escaped(b) =~= escaped_byte(b[0]) + escaped(b.skip(1)));
    } else {
        let p = b.drop_last();
        lemma_escaped_front(p);
        assert(p.skip(1) =~= b.skip(1).drop_last());
        assert(b.skip(1).last() == b.last());
        assert(escaped(b.skip(1)) == escaped(b.skip(1).drop_last()) + escaped_byte(b.last()));
        assert(escaped(b) =~= escaped_byte(b[0]) + escaped(b.skip(1)));
    }
}

proof fn lemma_encode_concat(x: Seq<char>, y: Seq<char>)
    ensures
        encode_utf8(x + y) == encode_utf8(x) + encode_utf8(y),
    decreases x.len(),
{
    if x.len() > 0 {
        assert((x + y).drop_first() =~= x.drop_first() + y);
        assert((x + y)[0] == x[0]);
        lemma_encode_concat(x.drop_first(), y);
        assert(encode_utf8(x + y) =~= encode_utf8(x) + encode_utf8(y));
    } else {
        assert(x + y =~= y);
        assert(encode_utf8(x) =~= Seq::<u8>::empty());
        assert(encode_utf8(x) + encode_utf8(y) =~= encode_utf8(y));
    }
}

/// Decoding from position `i + k` reads what decoding the text without its first `k`
/// bytes reads from `i`.
proof fn lemma_decoded_shift(x: Seq<u8>, i: int, k: int)
    requires
        0 <= i,
        0 <= k <= x.len(),
    ensures
        url_decoded_from(x, i + k) == url_decoded_from(x.skip(k), i),
    decreases x.len() - i - k,
{
    let y = x.skip(k);
    if i + k < x.len() {
        assert(y[i] == x[i + k]);
        if i + 1 < y.len() {
            assert(y[i + 1] == x[i + k + 1]);
        }
        if i + 2 < y.len() {
            assert(y[i + 2] == x[i + k + 2]);
        }
        lemma_decoded_shift(x, i + 1, k);
        if i + 3 + k <= x.len() {
            lemma_decoded_shift(x, i + 3, k);
        } else {
            assert(url_decoded_from(x, i + 3 + k) == Seq::<u8>::empty());
        }
    }
}

proof fn lemma_hex_roundtrip(n: int)
    requires
        0 <= n < 16,
    ensures
        hex_value((hex_upper(n) as u32) as u8) == Some(n as u8),
        (hex_upper(n) as u32) < 128,
{
}

/// Decoding the escaped form of some bytes gives the bytes back.
pub proof fn lemma_decode_escaped_bytes(b: Seq<u8>)
    ensures
        url_decoded_from(encode_utf8(escaped(b)), 0) == b,
    decreases b.len(),
{
    if b.len() == 0 {
        assert(escaped(b) =~= Seq::<char>::empty());
        assert(encode_utf8(escaped(b)) =~= Seq::<u8>::empty());
        assert(url_decoded_from(encode_utf8(escaped(b)), 0) =~= b);
    } else {
        let c = b[0];
        let t = escaped_byte(c);
        let rest = b.skip(1);
        lemma_escaped_front(b);
        lemma_encode_concat(t, escaped(rest));
        let tb = encode_utf8(t);
        let rb = encode_utf8(escaped(rest));
        let x = tb + rb;
        assert(encode_utf8(escaped(b)) == x);
        lemma_decode_escaped_bytes(rest);
        if is_unreserved(c) {
            assert(is_ascii_chars(t));
            is_ascii_chars_encode_utf8(t);
            assert(tb.len() == 1);
            assert(tb[0] == t[0] as u8);
            assert(x[0] == c);
            lemma_decoded_shift(x, 0, 1);
            assert(x.skip(1) =~= rb);
            assert(url_decoded_from(x, 0) == seq![c] + url_decoded_from(x, 1));
        } else {
            lemma_hex_roundtrip(c as int / 16);
            lemma_hex_roundtrip(c as int % 16);
            assert(is_ascii_chars(t));
            is_ascii_chars_encode_utf8(t);
            assert(tb.len() == 3);
            assert(tb[0] == t[0] as u8);
            assert(tb[1] == t[1] as u8);
            assert(tb[2] == t[2] as u8);
            assert(x[0] == 0x25u8);
            assert(x[1] == tb[1] && x[2] == tb[2]);
            assert(hex_value(x[1]) == Some((c as int / 16) as u8));
            assert(hex_value(x[2]) == Some((c as int % 16) as u8));
            assert((hex_value(x[1])->0 * 16 + hex_value(x[2])->0) as u8 == c);
            lemma_decoded_shift(x, 0, 3);
            assert(x.skip(3) =~= rb);
            assert(url_decoded_from(x, 0) == seq![c] + url_decoded_from(x, 3));
        }
        assert(url_decoded_from(x, 0) =~= b);
    }
}

/// Form decoding undoes the escaping of a text: the decoded bytes are the text's UTF-8
/// bytes, so they decode exactly to the text.
pub proof fn lemma_decode_escaped(s: Seq<char>)
    ensures
        url_decoded_from(encode_utf8(escaped(encode_utf8(s))), 0) == encode_utf8(s),
        valid_utf8(url_decoded_from(encode_utf8(escaped(encode_utf8(s))), 0)),
        decode_utf8(url_decoded_from(encode_utf8(escaped(encode_utf8(s))), 0)) == s,
{
    lemma_decode_escaped_bytes(encode_utf8(s));
    vstd::utf8::encode_utf8_valid_utf8(s);
    vstd::utf8::encode_utf8_decode_utf8(s);
}

} // verus!
