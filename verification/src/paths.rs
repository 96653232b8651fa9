//! File-system path text for the two path conventions the launcher runs under.
use vstd::prelude::*;
use crate::text::{chars_of, push_all, slice_vec, string_of};

verus! {

/// The host's path convention: Windows (`\` separator, drive prefixes) or POSIX (`/`).
#[derive(Clone, Copy, Debug, PartialEq, Eq, Structural)]
pub enum PathStyle {
    Windows,
    Posix,
}

/// `std::path::MAIN_SEPARATOR` for the convention.
pub open spec fn main_sep(style: PathStyle) -> char {
    match style {
        PathStyle::Windows => '\\',
        PathStyle::Posix => '/',
    }
}

/// A character that separates path components under the convention.
pub open spec fn is_sep(style: PathStyle, c: char) -> bool {
    c == '/' || (style == PathStyle::Windows && c == '\\')
}

/// `Path::has_root`: POSIX paths starting with `/`; Windows paths starting with a
/// separator or with a drive letter, a colon and a separator.
pub open spec fn has_root(s: Seq<char>, style: PathStyle) -> bool {
    (s.len() > 0 && is_sep(style, s[0])) || (style == PathStyle::Windows && s.len() >= 3 && (('A'
        <= s[0] && s[0] <= 'Z') || ('a' <= s[0] && s[0] <= 'z')) && s[1] == ':' && is_sep(
        style,
        s[2],
    ))
}

/// `path_combine(a, b)` as the installers spell it out: `b` when `a` is empty, plain
/// concatenation when `a` already ends with `/` or `\`, and the main separator in
/// between otherwise.
pub open spec fn combined_path(a: Seq<char>, b: Seq<char>, style: PathStyle) -> Seq<char> {
    if a.len() == 0 {
        b
    } else if a.last() == '/' || a.last() == '\\' {
        a + b
    } else {
        a + seq![main_sep(style)] + b
    }
}

/// `Path::join(a, b)`: a rooted `b` replaces `a` (on Windows a `b` rooted without a
/// drive keeps no drive of `a`); otherwise `b` when `a` is empty, concatenation when
/// `a` ends with a separator of the convention, the main separator in between.
pub open spec fn path_join(a: Seq<char>, b: Seq<char>, style: PathStyle) -> Seq<char> {
    if has_root(b, style) {
        b
    } else if a.len() == 0 {
        b
    } else if is_sep(style, a.last()) {
        a + b
    } else {
        a + seq![main_sep(style)] + b
    }
}

/// Every `/` replaced by the main separator of the convention.
pub open spec fn to_native_seps(s: Seq<char>, style: PathStyle) -> Seq<char> {
    s.map_values(|c: char| if c == '/' { main_sep(style) } else { c })
}

pub fn main_sep_exec(style: PathStyle) -> (r: char)
    ensures
        r == main_sep(style),
{
    match style {
        PathStyle::Windows => '\\',
        PathStyle::Posix => '/',
    }
}

pub fn is_sep_exec(style: PathStyle, c: char) -> (r: bool)
    ensures
        r == is_sep(style, c),
{
    c == '/' || (style == PathStyle::Windows && c == '\\')
}

pub fn has_root_exec(s: &[char], style: PathStyle) -> (r: bool)
    ensures
        r == has_root(s@, style),
{
    if s.len() > 0 && is_sep_exec(style, s[0]) {
        return true;
    }
    style == PathStyle::Windows && s.len() >= 3 && (('A' <= s[0] && s[0] <= 'Z') || ('a' <= s[0]
        && s[0] <= 'z')) && s[1] == ':' && is_sep_exec(style, s[2])
}

/// `path_combine(a, b)` on characters.
pub fn path_combine_chars(a: &[char], b: &[char], style: PathStyle) -> (r: Vec<char>)
    ensures
        r@ == combined_path(a@, b@, style),
{
    let mut r = slice_vec(a, 0, a.len());
    if a.len() > 0 && !(a[a.len() - 1] == '/' || a[a.len() - 1] == '\\') {
        r.push(main_sep_exec(style));
    }
    push_all(&mut r, b);
    proof {
        assert(a@.subrange(0, a@.len() as int) =~= a@);
        if a.len() == 0 {
            assert(r@ =~= b@);
        }
    }
    r
}

/// `path_combine(a, b)`.
pub fn path_combine(a: &str, b: &str, style: PathStyle) -> (r: String)
    ensures
        r@ == combined_path(a@, b@, style),
{
    let r = path_combine_chars(chars_of(a).as_slice(), chars_of(b).as_slice(), style);
    string_of(r.as_slice())
}

/// `Path::join(a, b)` on characters.
pub fn path_join_chars(a: &[char], b: &[char], style: PathStyle) -> (r: Vec<char>)
    ensures
        r@ == path_join(a@, b@, style),
{
    if has_root_exec(b, style) {
        let r = slice_vec(b, 0, b.len());
        proof {
            assert(b@.subrange(0, b@.len() as int) =~= b@);
        }
        return r;
    }
    let mut r = slice_vec(a, 0, a.len());
    if a.len() > 0 && !is_sep_exec(style, a[a.len() - 1]) {
        r.push(main_sep_exec(style));
    }
    push_all(&mut r, b);
    proof {
        assert(a@.subrange(0, a@.len() as int) =~= a@);
        if a.len() == 0 {
            assert(r@ =~= b@);
        }
    }
    r
}

/// Replaces `/` by the main separator.
pub fn to_native_seps_exec(s: &[char], style: PathStyle) -> (r: Vec<char>)
    ensures
        r@ == to_native_seps(s@, style),
{
    let sep = main_sep_exec(style);
    let mut r: Vec<char> = Vec::new();
    let mut i: usize = 0;
    while i < s.len()
        invariant
            i <= s.len(),
            sep == main_sep(style),
            r@ == to_native_seps(s@.take(i as int), style),
        decreases s.len() - i,
    {
        let c = if s[i] == '/' {
            sep
        } else {
            s[i]
        };
        r.push(c);
        i = i + 1;
        proof {
            assert(to_native_seps(s@.take(i as int), style) =~= to_native_seps(
                s@.take(i - 1),
                style,
            ).push(c));
        }
    }
    proof {
        assert(s@.take(s.len() as int) =~= s@);
    }
    r
}

/// `Path::join(a, b)` as text (`join_path`).
pub fn join_path(a: &str, b: &str, style: PathStyle) -> (r: String)
    ensures
        r@ == path_join(a@, b@, style),
{
    string_of(path_join_chars(chars_of(a).as_slice(), chars_of(b).as_slice(), style).as_slice())
}

} // verus!
