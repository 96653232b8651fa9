//! Forge version entries from the BMCLAPI list, Forge installer links, the
//! recommendation rule for builds, and the cleaning of links found on the Forge site.
use vstd::prelude::*;
use vstd::utf8::{decode_utf8, encode_utf8, valid_utf8};
use crate::text::{
    chars_of, contains_exec, contains_seq, eq_ignore_case, eq_ignore_case_exec, occurs_at,
    push_all, replace_all, replace_exec, slice_vec, starts_with, starts_with_exec, string_of,
};
use crate::num::{parse_i32, parse_i32_exec};
use crate::loader::{min_release_time, ModLoaderResult, ModLoaderType};
use crate::mirror::{after_last, after_last_exec, DownloadMirror};
use crate::provider::{views, LoaderView};
use crate::urlcode::{url_decoded_from, utf8_lossy, web_url_decode};

verus! {

// ---------------------------------------------------------------------------
// Installer links and the recommendation rule
// ---------------------------------------------------------------------------

/// Nothing for an empty build; the BMCLAPI download endpoint of
/// the build; or the Forge Maven installer jar, with `-` in the game version written `_`.
pub open spec fn forge_download_url(mirror: DownloadMirror, mc: Seq<char>, v: Seq<char>) -> Seq<char> {
    if v.len() == 0 {
        Seq::empty()
    } else if mirror == DownloadMirror::Bmclapi {
        "https://bmclapi2.bangbang93.com/forge/download/"@ + v
    } else {
        let m = replace_all(mc, seq!['-'], seq!['_']);
        "https://maven.minecraftforge.net/net/minecraftforge/forge/"@ + m + seq!['-'] + v
            + "/forge-"@ + m + seq!['-'] + v + "-installer.jar"@
    }
}


/// The download link of a Forge installer build.
pub fn get_forge_download_url(mirror: DownloadMirror, mc_version: &str, forge_version: &str) -> (r: String)
    ensures
        r@ == forge_download_url(mirror, mc_version@, forge_version@),
{
    let v = chars_of(forge_version);
    if v.len() == 0 {
        return string_of(v.as_slice());
    }
    if mirror == DownloadMirror::Bmclapi {
        let mut r = chars_of("https://bmclapi2.bangbang93.com/forge/download/");
        push_all(&mut r, v.as_slice());
        return string_of(r.as_slice());
    }
    let dash = chars_of("-");
    let under = chars_of("_");
    proof {
        reveal_strlit("-");
        reveal_strlit("_");
        assert(dash@ =~= seq!['-']);
        assert(under@ =~= seq!['_']);
    }
    let m = replace_exec(chars_of(mc_version).as_slice(), dash.as_slice(), under.as_slice());
    let mut r = chars_of("https://maven.minecraftforge.net/net/minecraftforge/forge/");
    push_all(&mut r, m.as_slice());
    r.push('-');
    push_all(&mut r, v.as_slice());
    push_all(&mut r, chars_of("/forge-").as_slice());
    push_all(&mut r, m.as_slice());
    r.push('-');
    push_all(&mut r, v.as_slice());
    push_all(&mut r, chars_of("-installer.jar").as_slice());
    string_of(r.as_slice())
}

/// The last dot-separated piece of a version (all of it when it has no dot).
pub open spec fn last_piece(v: Seq<char>) -> Seq<char> {
    after_last(v, seq!['.'])
}

/// The build is an `i32`, and above the number that ends every
/// listed version whose last piece is an `i32`.
pub open spec fn recommended(build: Seq<char>, existing: Seq<LoaderView>) -> bool {
    match parse_i32(build) {
        Some(c) => forall|i: int|
            0 <= i < existing.len() ==> match parse_i32(last_piece(#[trigger] existing[i].version)) {
                Some(e) => c > e,
                None => true,
            },
        None => false,
    }
}

/// Whether a build is newer than every entry listed so far.
pub fn is_recommended_version(build_number: &str, existing_loaders: &[ModLoaderResult]) -> (r: bool)
    ensures
        r == recommended(build_number@, views(existing_loaders@)),
{
    let ghost ex = views(existing_loaders@);
    let current = match parse_i32_exec(chars_of(build_number).as_slice()) {
        Some(c) => c,
        None => {
            return false;
        },
    };
    let dot = chars_of(".");
    proof {
        reveal_strlit(".");
        assert(dot@ =~= seq!['.']);
    }
    let mut i: usize = 0;
    while i < existing_loaders.len()
        invariant
            i <= existing_loaders.len(),
            ex == views(existing_loaders@),
            dot@ == seq!['.'],
            parse_i32(build_number@) == Some(current as int),
            forall|k: int|
                0 <= k < i ==> match parse_i32(last_piece(#[trigger] ex[k].version)) {
                    Some(e) => current > e,
                    None => true,
                },
        decreases existing_loaders.len() - i,
    {
        let last = after_last_exec(chars_of(existing_loaders[i].version.as_str()).as_slice(), dot.as_slice());
        assert(ex[i as int].version == existing_loaders@[i as int].version@);
        match parse_i32_exec(last.as_slice()) {
            Some(e) => {
                if current <= e {
                    return false;
                }
            },
            None => {},
        }
        i = i + 1;
    }
    true
}

// ---------------------------------------------------------------------------
// The BMCLAPI Forge list
// ---------------------------------------------------------------------------

/// A file of a BMCLAPI Forge build (absent fields as empty text).
pub struct ForgeBmclFile {
    pub category: String,
    pub hash: String,
}

/// A build of the BMCLAPI Forge list (absent fields as empty text; `files` holds the
/// object entries of its `files` array, none when that is not an array).
pub struct ForgeBmclItem {
    pub mcversion: String,
    pub build: String,
    pub version: String,
    pub modified: String,
    pub files: Vec<ForgeBmclFile>,
}

/// Hash of the first file whose category is "installer" in any ASCII case.
pub open spec fn installer_hash(files: Seq<ForgeBmclFile>) -> Option<Seq<char>>
    decreases files.len(),
{
    if files.len() == 0 {
        None
    } else if eq_ignore_case(files[0].category@, "installer"@) {
        Some(files[0].hash@)
    } else {
        installer_hash(files.skip(1))
    }
}

/// Whether chrono's `DateTime::parse_from_rfc3339` accepts a text.
pub uninterp spec fn rfc3339_accepts(s: Seq<char>) -> bool;

/// `chrono::DateTime::parse_from_rfc3339(s).is_ok()`; which texts it accepts is named by
/// `rfc3339_accepts`.
#[verifier::external_body]
fn parses_as_rfc3339(s: &str) -> (r: bool)
    ensures
        r == rfc3339_accepts(s@),
{
    chrono::DateTime::parse_from_rfc3339(s).is_ok()
}

/// Release time of a build: its `modified` text when that is non-empty and an RFC 3339
/// timestamp, else the minimum time.
pub open spec fn forge_release_time(modified: Seq<char>) -> Seq<char> {
    if modified.len() > 0 && rfc3339_accepts(modified) {
        modified
    } else {
        min_release_time()
    }
}

/// The entry of a build for the requested game version, given the entries taken
/// before it: none when its game version differs (ASCII case aside) or it has no
/// installer file.
pub open spec fn forge_bmcl_item(it: ForgeBmclItem, mirror: DownloadMirror, mc: Seq<char>, done: Seq<LoaderView>) -> Option<LoaderView> {
    if !eq_ignore_case(it.mcversion@, mc) {
        None
    } else {
        match installer_hash(it.files@) {
            None => None,
            Some(h) => Some(
                LoaderView {
                    loader_type: ModLoaderType::Forge,
                    version: it.version@,
                    game_version: mc,
                    url: forge_download_url(mirror, mc, it.build@),
                    sha1: h,
                    is_recommand: recommended(it.build@, done),
                    release_time: forge_release_time(it.modified@),
                },
            ),
        }
    }
}

pub open spec fn forge_bmcl_items(items: Seq<ForgeBmclItem>, mirror: DownloadMirror, mc: Seq<char>) -> Seq<LoaderView>
    decreases items.len(),
{
    if items.len() == 0 {
        Seq::empty()
    } else {
        let r = forge_bmcl_items(items.drop_last(), mirror, mc);
        match forge_bmcl_item(items.last(), mirror, mc, r) {
            Some(v) => r.push(v),
            None => r,
        }
    }
}

fn installer_hash_exec(files: &Vec<ForgeBmclFile>) -> (r: Option<Vec<char>>)
    ensures
        match (r, installer_hash(files@)) {
            (Some(a), Some(b)) => a@ == b,
            (None, None) => true,
            _ => false,
        },
{
    let installer = chars_of("installer");
    let mut i: usize = 0;
    assert(files@.skip(0) =~= files@);
    while i < files.len()
        invariant
            i <= files.len(),
            installer@ == "installer"@,
            installer_hash(files@) == installer_hash(files@.skip(i as int)),
        decreases files.len() - i,
    {
        proof {
            assert(files@.skip(i as int)[0] == files@[i as int]);
            assert(files@.skip(i as int).skip(1) =~= files@.skip(i + 1));
        }
        if eq_ignore_case_exec(chars_of(files[i].category.as_str()).as_slice(), installer.as_slice()) {
            return Some(chars_of(files[i].hash.as_str()));
        }
        i = i + 1;
    }
    None
}

/// The Forge entries of a BMCLAPI `/forge/minecraft/{version}` answer, in answer order;
/// each build's recommendation is judged against the entries taken before it.
pub fn forge_bmcl_versions(items: &Vec<ForgeBmclItem>, mirror: DownloadMirror, mc_version: &str) -> (r: Vec<ModLoaderResult>)
    ensures
        views(r@) == forge_bmcl_items(items@, mirror, mc_version@),
{
    let mut r: Vec<ModLoaderResult> = Vec::new();
    let mc = chars_of(mc_version);
    let mut i: usize = 0;
    proof {
        assert(items@.take(0) =~= Seq::<ForgeBmclItem>::empty());
        assert(views(r@) =~= Seq::<LoaderView>::empty());
    }
    while i < items.len()
        invariant
            i <= items.len(),
            mc@ == mc_version@,
            views(r@) == forge_bmcl_items(items@.take(i as int), mirror, mc_version@),
        decreases items.len() - i,
    {
        proof {
            assert(items@.take(i + 1).drop_last() =~= items@.take(i as int));
            assert(items@.take(i + 1).last() == items@[i as int]);
        }
        let it = &items[i];
        let ghost before = r@;
        if eq_ignore_case_exec(chars_of(it.mcversion.as_str()).as_slice(), mc.as_slice()) {
            match installer_hash_exec(&it.files) {
                None => {},
                Some(h) => {
                    let rec = is_recommended_version(it.build.as_str(), r.as_slice());
                    let url = get_forge_download_url(mirror, mc_version, it.build.as_str());
                    let modified = chars_of(it.modified.as_str());
                    let release_time = if modified.len() > 0 && parses_as_rfc3339(it.modified.as_str()) {
                        string_of(modified.as_slice())
                    } else {
                        String::from_str("0001-01-01T00:00:00+00:00")
                    };
                    let x = ModLoaderResult {
                        loader_type: ModLoaderType::Forge,
                        version: string_of(chars_of(it.version.as_str()).as_slice()),
                        game_version: string_of(mc.as_slice()),
                        url,
                        sha1: string_of(h.as_slice()),
                        is_recommand: rec,
                        release_time,
                    };
                    r.push(x);
                    proof {
                        assert(views(r@) =~= views(before).push(x@));
                    }
                },
            }
        }
        i = i + 1;
    }
    proof {
        assert(items@.take(items.len() as int) =~= items@);
    }
    r
}

// ---------------------------------------------------------------------------
// Links found on the Forge site
// ---------------------------------------------------------------------------

pub open spec fn maven_prefix() -> Seq<char> {
    "https://maven.minecraftforge.net/"@
}

/// End of the shortest run from `i` that ends in ".jar" and holds no line feed before it.
pub open spec fn jar_end_from(s: Seq<char>, i: int) -> Option<int>
    decreases s.len() - i,
{
    if i < 0 || i >= s.len() {
        None
    } else if occurs_at(s, ".jar"@, i) {
        Some(i + 4)
    } else if s[i] == '\n' {
        None
    } else {
        jar_end_from(s, i + 1)
    }
}

/// Leftmost match of `https://maven\.minecraftforge\.net/.*?\.jar` at or after `p`, as
/// a start and an end.
pub open spec fn maven_jar_from(s: Seq<char>, p: int) -> Option<(int, int)>
    decreases s.len() - p,
{
    if p < 0 || p >= s.len() {
        None
    } else if occurs_at(s, maven_prefix(), p) && jar_end_from(s, p + maven_prefix().len()) is Some {
        Some((p, jar_end_from(s, p + maven_prefix().len())->0))
    } else {
        maven_jar_from(s, p + 1)
    }
}

/// `Regex::find` with `https://maven\.minecraftforge\.net/.*?\.jar`: the regex crate
/// reports the leftmost match, and its lazy `.*?` (which crosses no line feed) stops at
/// the first ".jar" it can reach.
#[verifier::external_body]
fn find_maven_jar(s: &str) -> (r: Option<String>)
    ensures
        match maven_jar_from(s@, 0) {
            Some((a, b)) => r is Some && r->0@ == s@.subrange(a, b),
            None => r is None,
        },
{
    regex::Regex::new(r"https://maven\.minecraftforge\.net/.*?\.jar").ok().and_then(
        |re| re.find(s).map(|m| m.as_str().to_string()),
    )
}

/// The form decoding of a link: its decoded bytes as text, exactly when they are valid
/// UTF-8, else as the lossy decoding gives them.
pub open spec fn decoded_link(raw: Seq<char>) -> Seq<char> {
    let b = url_decoded_from(encode_utf8(raw), 0);
    if valid_utf8(b) {
        decode_utf8(b)
    } else {
        utf8_lossy(b)
    }
}

/// An adfoc.us link gives the Forge Maven jar link found in its
/// decoded form, when there is one; a link without "http" in front is made absolute on
/// files.minecraftforge.net; every other link stays.
pub open spec fn clean_link(raw: Seq<char>) -> Seq<char> {
    let d = decoded_link(raw);
    if contains_seq(raw, "adfoc.us"@) && maven_jar_from(d, 0) is Some {
        let (a, b) = maven_jar_from(d, 0)->0;
        d.subrange(a, b)
    } else if !starts_with(raw, "http"@) {
        if starts_with(raw, seq!['/']) {
            "https://files.minecraftforge.net"@ + raw
        } else {
            "https://files.minecraftforge.net/"@ + raw
        }
    } else {
        raw
    }
}

/// A direct download link for a link of the Forge page.
pub fn clean_download_url(raw_url: &str) -> (r: String)
    ensures
        r@ == clean_link(raw_url@),
{
    let raw = chars_of(raw_url);
    if contains_exec(raw.as_slice(), chars_of("adfoc.us").as_slice()) {
        let decoded = web_url_decode(raw_url);
        match find_maven_jar(decoded.as_str()) {
            Some(link) => {
                return link;
            },
            None => {},
        }
    }
    if !starts_with_exec(raw.as_slice(), chars_of("http").as_slice()) {
        let slash = chars_of("/");
        proof {
            reveal_strlit("/");
            assert(slash@ =~= seq!['/']);
        }
        let mut r = if starts_with_exec(raw.as_slice(), slash.as_slice()) {
            chars_of("https://files.minecraftforge.net")
        } else {
            chars_of("https://files.minecraftforge.net/")
        };
        push_all(&mut r, raw.as_slice());
        return string_of(r.as_slice());
    }
    string_of(raw.as_slice())
}

} // verus!
