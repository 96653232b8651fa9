//! Forge versions read from the download page of files.minecraftforge.net: the table of
//! builds, the version, file and checksum of each row.
use vstd::prelude::*;
use crate::text::{
    ascii_lower, ascii_lower_exec, chars_of, contains_exec, contains_seq, push_all, string_of,
    trim, trim_exec, trim_start_any, trim_start_any_exec,
};
use crate::loader::{sort_desc, sort_descending, ModLoaderResult, ModLoaderType};
use crate::provider::{entry, views, LoaderView};
use crate::forgelist::{clean_download_url, clean_link};

verus! {

// ---------------------------------------------------------------------------
// The regex crate
// ---------------------------------------------------------------------------

/// What `Regex::find` reports for a pattern on a text: the text of the leftmost-first
/// match (none when nothing matches or the pattern does not compile).
pub uninterp spec fn regex_first_match(pattern: Seq<char>, text: Seq<char>) -> Option<Seq<char>>;

/// What `Regex::find_iter` reports: the texts of the successive non-overlapping matches
/// (none when the pattern does not compile).
pub uninterp spec fn regex_all_matches(pattern: Seq<char>, text: Seq<char>) -> Seq<Seq<char>>;

/// What `Regex::captures` reports for the leftmost-first match: the text of group 1 (none
/// when it took no part) and the text after the match (none at all when nothing matches
/// or the pattern does not compile).
pub uninterp spec fn regex_first_captures(pattern: Seq<char>, text: Seq<char>) -> Option<(Option<Seq<char>>, Seq<char>)>;

/// `Regex::new(pattern)` then `find(text)`: the contract names the matched text
/// `regex_first_match(pattern, text)`; nothing more is stated of it.
#[verifier::external_body]
fn regex_find(pattern: &str, text: &str) -> (r: Option<String>)
    ensures
        match regex_first_match(pattern@, text@) {
            Some(m) => r is Some && r->0@ == m,
            None => r is None,
        },
{
    match regex::Regex::new(pattern) {
        Ok(re) => re.find(text).map(|m| m.as_str().to_string()),
        Err(_) => None,
    }
}

/// `Regex::new(pattern)` then `find_iter(text)`: the contract names the list of matched
/// texts `regex_all_matches(pattern, text)`; nothing more is stated of it.
#[verifier::external_body]
fn regex_find_all(pattern: &str, text: &str) -> (r: Vec<String>)
    ensures
        r@.len() == regex_all_matches(pattern@, text@).len(),
        forall|k: int| 0 <= k < r@.len() ==> #[trigger] r@[k]@ == regex_all_matches(pattern@, text@)[k],
{
    match regex::Regex::new(pattern) {
        Ok(re) => re.find_iter(text).map(|m| m.as_str().to_string()).collect(),
        Err(_) => Vec::new(),
    }
}

/// `Regex::new(pattern)` then `captures(text)`: group 1 of the match and the text after
/// it, named `regex_first_captures(pattern, text)`; nothing more is stated of them.
#[verifier::external_body]
fn regex_captures(pattern: &str, text: &str) -> (r: Option<(Option<String>, String)>)
    ensures
        match (regex_first_captures(pattern@, text@), r) {
            (Some((g, rest)), Some((rg, rr))) => rr@ == rest && match (g, rg) {
                (Some(t), Some(u)) => u@ == t,
                (None, None) => true,
                _ => false,
            },
            (None, None) => true,
            _ => false,
        },
{
    match regex::Regex::new(pattern) {
        Ok(re) => re.captures(text).map(
            |c| (c.get(1).map(|g| g.as_str().to_string()), text[c.get_match().end()..].to_string()),
        ),
        Err(_) => None,
    }
}

// ---------------------------------------------------------------------------
// Patterns
// ---------------------------------------------------------------------------

/// The characters `regex::escape` puts a backslash before.
pub open spec fn is_regex_meta(c: char) -> bool {
    c == '\\' || c == '.' || c == '+' || c == '*' || c == '?' || c == '(' || c == ')' || c == '|'
        || c == '[' || c == ']' || c == '{' || c == '}' || c == '^' || c == '$' || c == '#'
        || c == '&' || c == '-' || c == '~'
}

/// `regex::escape`: every meta character preceded by a backslash.
pub open spec fn regex_escaped(s: Seq<char>) -> Seq<char>
    decreases s.len(),
{
    if s.len() == 0 {
        s
    } else if is_regex_meta(s.last()) {
        regex_escaped(s.drop_last()).push('\\').push(s.last())
    } else {
        regex_escaped(s.drop_last()).push(s.last())
    }
}

/// `regex::escape`.
pub fn regex_escape(text: &str) -> (r: String)
    ensures
        r@ == regex_escaped(text@),
{
    let s = chars_of(text);
    let mut out: Vec<char> = Vec::new();
    let mut i: usize = 0;
    while i < s.len()
        invariant
            i <= s.len(),
            s@ == text@,
            out@ == regex_escaped(s@.take(i as int)),
        decreases s.len() - i,
    {
        let c = s[i];
        proof {
            assert(s@.take(i + 1).drop_last() =~= s@.take(i as int));
        }
        if c == '\\' || c == '.' || c == '+' || c == '*' || c == '?' || c == '(' || c == ')' || c == '|'
            || c == '[' || c == ']' || c == '{' || c == '}' || c == '^' || c == '$' || c == '#'
            || c == '&' || c == '-' || c == '~' {
            out.push('\\');
        }
        out.push(c);
        i = i + 1;
    }
    proof {
        assert(s@.take(s.len() as int) =~= s@);
    }
    string_of(out.as_slice())
}

pub open spec fn table_pattern() -> Seq<char> {
    "(?s)<table[^>]+class=\"[^\"]*download-list[^\"]*\"[^>]*>.*?</table>"@
}

pub open spec fn row_pattern() -> Seq<char> {
    "(?s)<tr[^>]*>.*?<td[^>]+class=\"[^\"]*download-version[^\"]*\"[^>]*>.*?</tr>"@
}

pub open spec fn version_cell_pattern() -> Seq<char> {
    "(?i)<td[^>]+class=\"[^\"]*download-version[^\"]*\"[^>]*>\\s*([\\d.]+(?:-[a-zA-Z0-9_]+)?)"@
}

pub open spec fn classifier_pattern() -> Seq<char> {
    "(?i)classifier-(installer|universal|client)"@
}

pub open spec fn fallback_link_pattern() -> Seq<char> {
    "(?i)href=\"([^\"]*?forge-.*?\\.jar[^\"]*)\""@
}

pub open spec fn sha1_pattern() -> Seq<char> {
    "(?i)sha1[:=]\\s*([a-f0-9]{40})"@
}

/// The pattern of a row's download link: an `href` to a `forge-{game}-{version}...{category}`
/// jar or zip, the game version written as given, in Forge's spelling, or after one
/// more character.
pub open spec fn link_pattern(mc: Seq<char>, forge_mc: Seq<char>, version: Seq<char>, category: Seq<char>) -> Seq<char> {
    "(?i)href=\"([^\"]*?forge-(?:"@ + regex_escaped(mc) + "|"@ + regex_escaped(forge_mc) + "|."@
        + regex_escaped(mc) + ")-"@ + regex_escaped(version) + ".*?"@ + category + "\\.(jar|zip)[^\"]*)\""@
}

/// The download-link pattern of a row.
pub fn build_link_pattern(mc_version: &str, forge_mc_version: &str, version: &str, category: &str) -> (r: String)
    ensures
        r@ == link_pattern(mc_version@, forge_mc_version@, version@, category@),
{
    let mc = chars_of(regex_escape(mc_version).as_str());
    let mut p = chars_of("(?i)href=\"([^\"]*?forge-(?:");
    push_all(&mut p, mc.as_slice());
    p.push('|');
    push_all(&mut p, chars_of(regex_escape(forge_mc_version).as_str()).as_slice());
    p.push('|');
    p.push('.');
    push_all(&mut p, mc.as_slice());
    p.push(')');
    p.push('-');
    push_all(&mut p, chars_of(regex_escape(version).as_str()).as_slice());
    push_all(&mut p, chars_of(".*?").as_slice());
    push_all(&mut p, chars_of(category).as_slice());
    push_all(&mut p, chars_of("\\.(jar|zip)[^\"]*)\"").as_slice());
    proof {
        reveal_strlit("|");
        reveal_strlit("|.");
        reveal_strlit(")-");
        assert(p@ =~= link_pattern(mc_version@, forge_mc_version@, version@, category@));
    }
    string_of(p.as_slice())
}

// ---------------------------------------------------------------------------
// Rows
// ---------------------------------------------------------------------------

/// What may stand between the version and the closing tag of its cell.
pub open spec fn cell_space() -> Seq<char> {
    seq![' ', '\t', '\r', '\n', '\u{b}', '\u{c}']
}

/// A version cell ends where only spaces stand before the next tag.
pub open spec fn cell_closed(after: Seq<char>) -> bool {
    let t = trim_start_any(after, cell_space());
    t.len() > 0 && t[0] == '<'
}

/// Whether the text after a version is only spaces up to a `<`.
pub fn version_cell_closed(after: &str) -> (r: bool)
    ensures
        r == cell_closed(after@),
{
    let space = chars_of(" \t\r\n\u{b}\u{c}");
    proof {
        reveal_strlit(" \t\r\n\u{b}\u{c}");
        assert(space@ =~= cell_space());
    }
    let t = trim_start_any_exec(chars_of(after).as_slice(), space.as_slice());
    t.len() > 0 && t[0] == '<'
}

/// The file category a row names (`classifier-...`), "installer" when it names none.
pub open spec fn category_of(found: Option<(Option<Seq<char>>, Seq<char>)>) -> Seq<char> {
    match found {
        Some((Some(c), _)) => c,
        _ => "installer"@,
    }
}

/// The file category from the classifier capture of a row.
pub fn file_category(found: Option<(Option<String>, String)>) -> (r: String)
    ensures
        r@ == category_of(
            match found {
                Some((g, rest)) => Some(
                    (
                        match g {
                            Some(c) => Some(c@),
                            None => None,
                        },
                        rest@,
                    ),
                ),
                None => None,
            },
        ),
{
    match found {
        Some((Some(c), _)) => c,
        _ => String::from_str("installer"),
    }
}

/// The checksum a row gives, trimmed; empty when it gives none.
pub open spec fn row_sha1(found: Option<(Option<Seq<char>>, Seq<char>)>) -> Seq<char> {
    match found {
        Some((Some(h), _)) => trim(h),
        _ => Seq::empty(),
    }
}

/// Whether a row is marked as the recommended or the latest build.
pub open spec fn row_promoted(row: Seq<char>) -> bool {
    contains_seq(ascii_lower(row), "promo-recommended"@) || contains_seq(ascii_lower(row), "promo-latest"@)
}

pub open spec fn opt_capture(c: Option<(Option<String>, String)>) -> Option<(Option<Seq<char>>, Seq<char>)> {
    match c {
        Some((g, rest)) => Some(
            (
                match g {
                    Some(t) => Some(t@),
                    None => None,
                },
                rest@,
            ),
        ),
        None => None,
    }
}

/// The entry of a row once its version, link and checksum have been found: a Forge
/// build of the game version, its cleaned link, its trimmed checksum, recommended when
/// the row is promoted.
pub fn forge_row_result(
    version: &str,
    mc_version: &str,
    raw_link: &str,
    sha1_found: Option<(Option<String>, String)>,
    row: &str,
) -> (r: ModLoaderResult)
    ensures
        r@ == entry(
            ModLoaderType::Forge,
            version@,
            mc_version@,
            clean_link(raw_link@),
            row_sha1(opt_capture(sha1_found)),
            row_promoted(row@),
        ),
{
    let sha1 = match sha1_found {
        Some((Some(h), _)) => string_of(trim_exec(chars_of(h.as_str()).as_slice()).as_slice()),
        _ => string_of(Vec::<char>::new().as_slice()),
    };
    let lower = ascii_lower_exec(chars_of(row).as_slice());
    let promoted = contains_exec(lower.as_slice(), chars_of("promo-recommended").as_slice())
        || contains_exec(lower.as_slice(), chars_of("promo-latest").as_slice());
    ModLoaderResult {
        loader_type: ModLoaderType::Forge,
        version: string_of(chars_of(version).as_slice()),
        game_version: string_of(chars_of(mc_version).as_slice()),
        url: clean_download_url(raw_link),
        sha1,
        is_recommand: promoted,
        release_time: String::from_str("0001-01-01T00:00:00+00:00"),
    }
}

/// The entry of one table row, when the row has a closed version cell and a download
/// link (the one of its version and category, or else any Forge jar).
pub open spec fn row_entry(row: Seq<char>, mc: Seq<char>, forge_mc: Seq<char>) -> Option<LoaderView> {
    match regex_first_captures(version_cell_pattern(), row) {
        None => None,
        Some((g, after)) => if !cell_closed(after) {
            None
        } else {
            let v = match g {
                Some(t) => t,
                None => Seq::empty(),
            };
            let cat = category_of(regex_first_captures(classifier_pattern(), row));
            let found = match regex_first_captures(link_pattern(mc, forge_mc, v, cat), row) {
                Some(c) => Some(c),
                None => regex_first_captures(fallback_link_pattern(), row),
            };
            match found {
                None => None,
                Some((l, _)) => Some(
                    entry(
                        ModLoaderType::Forge,
                        v,
                        mc,
                        clean_link(
                            match l {
                                Some(u) => u,
                                None => Seq::empty(),
                            },
                        ),
                        row_sha1(regex_first_captures(sha1_pattern(), row)),
                        row_promoted(row),
                    ),
                ),
            }
        },
    }
}

/// The entries of the rows, in page order.
pub open spec fn row_entries(rows: Seq<Seq<char>>, mc: Seq<char>, forge_mc: Seq<char>) -> Seq<LoaderView>
    decreases rows.len(),
{
    if rows.len() == 0 {
        Seq::empty()
    } else {
        let rest = row_entries(rows.drop_last(), mc, forge_mc);
        match row_entry(rows.last(), mc, forge_mc) {
            Some(e) => rest.push(e),
            None => rest,
        }
    }
}

/// The entries of the page's `download-list` table, in page order (none without it).
pub open spec fn page_entries(mc: Seq<char>, forge_mc: Seq<char>, html: Seq<char>) -> Seq<LoaderView> {
    match regex_first_match(table_pattern(), html) {
        None => Seq::empty(),
        Some(table) => row_entries(regex_all_matches(row_pattern(), table), mc, forge_mc),
    }
}

/// The entry of one table row (see `row_entry`).
pub fn forge_row_entry(row: &str, mc_version: &str, forge_mc_version: &str) -> (r: Option<ModLoaderResult>)
    ensures
        match r {
            Some(e) => row_entry(row@, mc_version@, forge_mc_version@) == Some(e@),
            None => row_entry(row@, mc_version@, forge_mc_version@) is None,
        },
{
    let cell = regex_captures(
        "(?i)<td[^>]+class=\"[^\"]*download-version[^\"]*\"[^>]*>\\s*([\\d.]+(?:-[a-zA-Z0-9_]+)?)",
        row,
    );
    let (g, after) = match cell {
        Some(c) => c,
        None => {
            return None;
        },
    };
    if !version_cell_closed(after.as_str()) {
        return None;
    }
    let version = match g {
        Some(t) => t,
        None => string_of(Vec::<char>::new().as_slice()),
    };
    let category = file_category(regex_captures("(?i)classifier-(installer|universal|client)", row));
    let pattern = build_link_pattern(mc_version, forge_mc_version, version.as_str(), category.as_str());
    let found = match regex_captures(pattern.as_str(), row) {
        Some(c) => Some(c),
        None => regex_captures("(?i)href=\"([^\"]*?forge-.*?\\.jar[^\"]*)\"", row),
    };
    match found {
        None => None,
        Some((l, _)) => {
            let raw = match l {
                Some(u) => u,
                None => string_of(Vec::<char>::new().as_slice()),
            };
            let sha1_found = regex_captures("(?i)sha1[:=]\\s*([a-f0-9]{40})", row);
            Some(forge_row_result(version.as_str(), mc_version, raw.as_str(), sha1_found, row))
        },
    }
}

/// The entries of a Forge download page in page order, before they are sorted.
pub fn forge_page_entries(mc_version: &str, forge_mc_version: &str, html_content: &str) -> (r: Vec<ModLoaderResult>)
    ensures
        views(r@) == page_entries(mc_version@, forge_mc_version@, html_content@),
{
    let table = match regex_find(
        "(?s)<table[^>]+class=\"[^\"]*download-list[^\"]*\"[^>]*>.*?</table>",
        html_content,
    ) {
        Some(t) => t,
        None => {
            return Vec::new();
        },
    };
    let rows = regex_find_all(
        "(?s)<tr[^>]*>.*?<td[^>]+class=\"[^\"]*download-version[^\"]*\"[^>]*>.*?</tr>",
        table.as_str(),
    );
    let ghost all = regex_all_matches(row_pattern(), table@);
    let mut out: Vec<ModLoaderResult> = Vec::new();
    let mut i: usize = 0;
    while i < rows.len()
        invariant
            i <= rows.len(),
            rows@.len() == all.len(),
            forall|k: int| 0 <= k < rows@.len() ==> #[trigger] rows@[k]@ == all[k],
            views(out@) == row_entries(all.take(i as int), mc_version@, forge_mc_version@),
        decreases rows.len() - i,
    {
        proof {
            assert(all.take(i + 1).drop_last() =~= all.take(i as int));
            assert(all.take(i + 1).last() == rows@[i as int]@);
        }
        let ghost before = out@;
        match forge_row_entry(rows[i].as_str(), mc_version, forge_mc_version) {
            Some(e) => {
                out.push(e);
                proof {
                    assert(views(out@) =~= views(before).push(e@));
                }
            },
            None => {},
        }
        i = i + 1;
    }
    proof {
        assert(all.take(rows.len() as int) =~= all);
    }
    out
}

/// The entries of a Forge download page, sorted from the newest
/// version to the oldest (a stable sort, rows of equal versions keeping page order).
pub fn parse_forge_versions(mc_version: &str, forge_mc_version: &str, html_content: &str) -> (r: Vec<ModLoaderResult>)
    ensures
        exists|u: Seq<ModLoaderResult>|
            views(u) == page_entries(mc_version@, forge_mc_version@, html_content@) && r@ == sort_desc(u),
{
    let found = forge_page_entries(mc_version, forge_mc_version, html_content);
    let ghost u = found@;
    let r = sort_descending(found);
    proof {
        assert(views(u) == page_entries(mc_version@, forge_mc_version@, html_content@) && r@ == sort_desc(u));
    }
    r
}

} // verus!
