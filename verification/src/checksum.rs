//! SHA-1 digests as lower-case hexadecimal text, and the check of a file's content
//! against an expected digest.
use vstd::prelude::*;
use crate::text::{chars_of, eq_ignore_case, eq_ignore_case_exec, is_white, lead_white, string_of, trail_white, trim, trim_exec};

verus! {

/// The SHA-1 digest of a byte sequence.
pub uninterp spec fn sha1_digest(data: Seq<u8>) -> Seq<u8>;

/// `Sha1::digest` of the sha1 crate: the digest is named by `sha1_digest`; SHA-1
/// digests are 20 bytes long.
#[verifier::external_body]
fn sha1_bytes(data: &[u8]) -> (r: Vec<u8>)
    ensures
        r@ == sha1_digest(data@),
        r@.len() == 20,
{
    <sha1::Sha1 as sha1::Digest>::digest(data).to_vec()
}

/// Lower-case hexadecimal digit of a value below 16.
pub open spec fn hex_lower(n: int) -> char {
    if n < 10 {
        ((n + 48) as u32) as char
    } else {
        ((n + 87) as u32) as char
    }
}

/// Two lower-case hexadecimal digits per byte.
pub open spec fn hex_text(bytes: Seq<u8>) -> Seq<char>
    decreases bytes.len(),
{
    if bytes.len() == 0 {
        Seq::empty()
    } else {
        hex_text(bytes.drop_last()) + seq![
            hex_lower(bytes.last() as int / 16),
            hex_lower(bytes.last() as int % 16),
        ]
    }
}

fn hex_lower_exec(n: u8) -> (r: char)
    requires
        n < 16,
    ensures
        r == hex_lower(n as int),
{
    if n < 10 {
        (n + 48) as char
    } else {
        (n + 87) as char
    }
}

/// Bytes as two lower-case hexadecimal digits each.
pub fn hex_chars(bytes: &[u8]) -> (r: Vec<char>)
    ensures
        r@ == hex_text(bytes@),
{
    let mut out: Vec<char> = Vec::new();
    let mut i: usize = 0;
    proof {
        assert(bytes@.take(0) =~= Seq::<u8>::empty());
    }
    while i < bytes.len()
        invariant
            i <= bytes.len(),
            out@ == hex_text(bytes@.take(i as int)),
        decreases bytes.len() - i,
    {
        let b = bytes[i];
        proof {
            assert(bytes@.take(i + 1).drop_last() =~= bytes@.take(i as int));
            assert(bytes@.take(i + 1).last() == b);
        }
        out.push(hex_lower_exec(b / 16));
        out.push(hex_lower_exec(b % 16));
        i = i + 1;
    }
    proof {
        assert(bytes@.take(bytes.len() as int) =~= bytes@);
    }
    out
}

/// The SHA-1 digest of `data` as 40 lower-case hexadecimal digits.
pub fn sha1_hex(data: &[u8]) -> (r: String)
    ensures
        r@ == hex_text(sha1_digest(data@)),
{
    let digest = sha1_bytes(data);
    string_of(hex_chars(digest.as_slice()).as_slice())
}

/// A file's content matches an expected digest: the file could be read, and the
/// hexadecimal digest of its content, trimmed, equals the trimmed expectation up to
/// ASCII case.
pub open spec fn sha1_matches(content: Option<Seq<u8>>, expected: Seq<char>) -> bool {
    match content {
        Some(c) => eq_ignore_case(trim(hex_text(sha1_digest(c))), trim(expected)),
        None => false,
    }
}

/// `VerifyFileSha1`, given what reading the file gave (`None` when it is missing or
/// could not be read).
pub fn verify_file_sha1(content: Option<&[u8]>, expected_hash: &str) -> (r: bool)
    ensures
        r == sha1_matches(
            match content {
                Some(c) => Some(c@),
                None => None,
            },
            expected_hash@,
        ),
{
    match content {
        Some(c) => {
            let hex = sha1_hex(c);
            let a = trim_exec(chars_of(hex.as_str()).as_slice());
            let b = trim_exec(chars_of(expected_hash).as_slice());
            eq_ignore_case_exec(a.as_slice(), b.as_slice())
        },
        None => false,
    }
}

proof fn lemma_hex_text_digits(bytes: Seq<u8>)
    ensures
        hex_text(bytes).len() == 2 * bytes.len(),
        forall|k: int| 0 <= k < hex_text(bytes).len() ==> !is_white(#[trigger] hex_text(bytes)[k]),
    decreases bytes.len(),
{
    if bytes.len() > 0 {
        lemma_hex_text_digits(bytes.drop_last());
        let h = hex_text(bytes.drop_last());
        let b = bytes.last();
        assert(hex_lower(b as int / 16) == hex_lower(b as int / 16));
        assert forall|k: int| 0 <= k < hex_text(bytes).len() implies !is_white(#[trigger] hex_text(bytes)[k]) by {
            if k < h.len() {
                assert(hex_text(bytes)[k] == h[k]);
            } else if k == h.len() {
                assert(hex_text(bytes)[k] == hex_lower(b as int / 16));
            } else {
                assert(hex_text(bytes)[k] == hex_lower(b as int % 16));
            }
        }
    }
}

/// Any content matches the hexadecimal text of its own SHA-1 digest.
pub proof fn lemma_own_digest_matches(content: Seq<u8>)
    ensures
        sha1_matches(Some(content), hex_text(sha1_digest(content))),
{
    let h = hex_text(sha1_digest(content));
    lemma_hex_text_digits(sha1_digest(content));
    assert(lead_white(h) == 0) by {
        if h.len() > 0 {
            assert(!is_white(h[0]));
        }
    }
    assert(h.skip(0) =~= h);
    assert(trail_white(h) == 0) by {
        if h.len() > 0 {
            assert(!is_white(h[h.len() - 1]));
        }
    }
    assert(h.take(h.len() as int) =~= h);
    assert(trim(h) == h);
}

} // verus!
