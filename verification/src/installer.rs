//! Shared pieces of the installers: the description of a missing file, Maven paths,
//! the `Main-Class` entry of a jar manifest, redirect statuses and the download
//! source setting.
use vstd::prelude::*;
use crate::text::{
    chars_of, eq_ignore_case, eq_ignore_case_exec, slice_vec, split_any, split_any_exec,
    string_of, trim, trim_exec,
};
use crate::maven::{maven_path, maven_to_path};
use crate::mirror::DownloadMirror;
use crate::urlcode::{from_utf8_lossy, utf8_lossy};

verus! {

/// A library or file that has to be downloaded: its name, where it goes, where it
/// comes from and its SHA-1 digest (empty when unknown).
#[derive(Debug, PartialEq)]
pub struct MissFileData {
    pub name: String,
    pub path: String,
    pub url: String,
    pub sha1: String,
}

/// The text fields of a missing file.
pub ghost struct MissFileView {
    pub name: Seq<char>,
    pub path: Seq<char>,
    pub url: Seq<char>,
    pub sha1: Seq<char>,
}

impl View for MissFileData {
    type V = MissFileView;

    open spec fn view(&self) -> MissFileView {
        MissFileView { name: self.name@, path: self.path@, url: self.url@, sha1: self.sha1@ }
    }
}

/// The missing-file list as views.
pub open spec fn miss_views(s: Seq<MissFileData>) -> Seq<MissFileView> {
    s.map_values(|m: MissFileData| m@)
}

/// A missing file made of its four texts.
pub fn miss_file(name: &[char], path: &[char], url: &[char], sha1: &[char]) -> (r: MissFileData)
    ensures
        r@ == (MissFileView { name: name@, path: path@, url: url@, sha1: sha1@ }),
{
    MissFileData {
        name: string_of(name),
        path: string_of(path),
        url: string_of(url),
        sha1: string_of(sha1),
    }
}

/// `downloadSource` setting 1 selects the BMCLAPI mirror; every other value the
/// official services.
pub fn mirror_from_download_source(download_source: i32) -> (r: DownloadMirror)
    ensures
        r == (if download_source == 1 {
            DownloadMirror::Bmclapi
        } else {
            DownloadMirror::Official
        }),
{
    if download_source == 1 {
        DownloadMirror::Bmclapi
    } else {
        DownloadMirror::Official
    }
}

/// The statuses a download follows by hand: 301, 302, 303 and 307 (not 308).
pub fn is_redirect_status(status: u16) -> (r: bool)
    ensures
        r == (status == 301 || status == 302 || status == 303 || status == 307),
{
    status == 301 || status == 302 || status == 303 || status == 307
}

/// What `Url::parse(location)` gives, written back as text (none when the location is no
/// absolute URL).
pub uninterp spec fn absolute_url(location: Seq<char>) -> Option<Seq<char>>;

/// What `Url::parse(base)` then `join(location)` gives, written back as text (none when
/// either step fails).
pub uninterp spec fn joined_url(base: Seq<char>, location: Seq<char>) -> Option<Seq<char>>;

pub open spec fn opt_text_view(s: Option<String>) -> Option<Seq<char>> {
    match s {
        Some(t) => Some(t@),
        None => None,
    }
}

/// `reqwest::Url::parse` of a redirect location, as text: the contract names the result
/// `absolute_url(location)`; nothing more is stated of it.
#[verifier::external_body]
fn parse_absolute_url(location: &str) -> (r: Option<String>)
    ensures
        opt_text_view(r) == absolute_url(location@),
{
    match reqwest::Url::parse(location) {
        Ok(u) => Some(u.to_string()),
        Err(_) => None,
    }
}

/// `reqwest::Url::parse(base)` then `Url::join(location)`, as text: the contract names the
/// result `joined_url(base, location)`; nothing more is stated of it.
#[verifier::external_body]
fn join_relative_url(base: &str, location: &str) -> (r: Option<String>)
    ensures
        opt_text_view(r) == joined_url(base@, location@),
{
    match reqwest::Url::parse(base) {
        Ok(b) => match b.join(location) {
            Ok(u) => Some(u.to_string()),
            Err(_) => None,
        },
        Err(_) => None,
    }
}

/// Where a redirect leads: the location itself when it is an absolute URL, else the
/// location resolved against the URL that was requested.
pub open spec fn redirect_target(url: Seq<char>, location: Seq<char>) -> Option<Seq<char>> {
    match absolute_url(location) {
        Some(a) => Some(a),
        None => joined_url(url, location),
    }
}

/// Where a redirect leads (see `redirect_target`).
pub fn resolve_redirect(url: &str, location: &str) -> (r: Option<String>)
    ensures
        opt_text_view(r) == redirect_target(url@, location@),
{
    match parse_absolute_url(location) {
        Some(a) => Some(a),
        None => join_relative_url(url, location),
    }
}

/// An installer argument that must be given and not empty (a path or a version):
/// accepted exactly when it is present with at least one character.
pub fn non_empty_param(p: Option<&str>) -> (r: bool)
    ensures
        r == (p is Some && p->0@.len() > 0),
{
    match p {
        Some(s) => chars_of(s).len() > 0,
        None => false,
    }
}

/// A download may send its request while it has at least one redirect left; a download
/// that has used up its redirects fails instead.
pub fn may_request(redirects_left: i32) -> (r: bool)
    ensures
        r == (redirects_left > 0),
{
    redirects_left > 0
}

/// What a download does once the server has answered.
#[derive(Debug, PartialEq, Eq)]
pub enum DownloadStep {
    /// Request the URL the redirect leads to (with one redirect less left).
    FollowRedirect(String),
    /// A redirect without a `Location` header.
    MissingLocation,
    /// A redirect whose location is no usable URL.
    BadRedirect,
    /// A status that is neither a handled redirect nor a success.
    Failed(u16),
    /// A success: write the body to the file.
    Save,
}

/// The step after an answer with `status` (and the `Location` header, when the server
/// sent one) to a request for `url`: a handled redirect is followed
/// when its location resolves; a 2xx status saves the body; any other status fails.
pub fn after_response(url: &str, status: u16, location: Option<&str>) -> (r: DownloadStep)
    ensures
        (status == 301 || status == 302 || status == 303 || status == 307) ==> match location {
            None => r == DownloadStep::MissingLocation,
            Some(l) => match redirect_target(url@, l@) {
                Some(t) => r matches DownloadStep::FollowRedirect(u) && u@ == t,
                None => r == DownloadStep::BadRedirect,
            },
        },
        !(status == 301 || status == 302 || status == 303 || status == 307) ==> r == (if 200 <= status <= 299 {
            DownloadStep::Save
        } else {
            DownloadStep::Failed(status)
        }),
{
    if is_redirect_status(status) {
        match location {
            None => DownloadStep::MissingLocation,
            Some(l) => match resolve_redirect(url, l) {
                Some(t) => DownloadStep::FollowRedirect(t),
                None => DownloadStep::BadRedirect,
            },
        }
    } else if 200 <= status && status <= 299 {
        DownloadStep::Save
    } else {
        DownloadStep::Failed(status)
    }
}

pub open spec fn main_class_key() -> Seq<char> {
    "Main-Class: "@
}

/// The value of the first line that starts with "Main-Class: " (ASCII case aside),
/// trimmed; empty when no line does.
pub open spec fn main_class_of(lines: Seq<Seq<char>>) -> Seq<char>
    decreases lines.len(),
{
    if lines.len() == 0 {
        Seq::empty()
    } else if lines[0].len() >= main_class_key().len() && eq_ignore_case(
        lines[0].take(main_class_key().len() as int),
        main_class_key(),
    ) {
        trim(lines[0].skip(main_class_key().len() as int))
    } else {
        main_class_of(lines.skip(1))
    }
}

/// The lines of a manifest: its text (invalid UTF-8 replaced) split at CR and LF.
pub open spec fn manifest_lines(manifest: Seq<u8>) -> Seq<Seq<char>> {
    split_any(utf8_lossy(manifest), seq!['\r', '\n'])
}

/// Static helpers of the installers.
pub struct InstallerBase;

impl InstallerBase {
    /// The repository path of a Maven coordinate.
    pub fn maven_to_path(maven: &str) -> (r: String)
        ensures
            r@ == maven_path(maven@),
    {
        maven_to_path(maven)
    }

    /// The `Main-Class` of a jar, given the bytes of the jar's `META-INF/MANIFEST.MF`.
    pub fn get_jar_main_class(manifest: &[u8]) -> (r: String)
        ensures
            r@ == main_class_of(manifest_lines(manifest@)),
    {
        let text = from_utf8_lossy(manifest);
        let mut seps: Vec<char> = Vec::new();
        seps.push('\r');
        seps.push('\n');
        let lines = split_any_exec(chars_of(text.as_str()).as_slice(), seps.as_slice());
        let ghost ls = lines@.map_values(|p: Vec<char>| p@);
        proof {
            assert(seps@ =~= seq!['\r', '\n']);
            assert(ls == manifest_lines(manifest@));
        }
        let key = chars_of("Main-Class: ");
        proof {
            reveal_strlit("Main-Class: ");
        }
        let mut i: usize = 0;
        proof {
            assert(ls.skip(0) =~= ls);
        }
        while i < lines.len()
            invariant
                i <= lines.len(),
                ls == lines@.map_values(|p: Vec<char>| p@),
                ls == manifest_lines(manifest@),
                key@ == main_class_key(),
                main_class_of(ls) == main_class_of(ls.skip(i as int)),
            decreases lines.len() - i,
        {
            proof {
                assert(ls.skip(i as int)[0] == lines@[i as int]@);
                assert(ls.skip(i as int).skip(1) =~= ls.skip(i + 1));
            }
            let line = &lines[i];
            if line.len() >= key.len() {
                let head = slice_vec(line.as_slice(), 0, key.len());
                if eq_ignore_case_exec(head.as_slice(), key.as_slice()) {
                    let tail = slice_vec(line.as_slice(), key.len(), line.len());
                    proof {
                        assert(head@ =~= line@.take(key.len() as int));
                        assert(tail@ =~= line@.skip(key.len() as int));
                    }
                    return string_of(trim_exec(tail.as_slice()).as_slice());
                }
                proof {
                    assert(head@ =~= line@.take(key.len() as int));
                }
            }
            i = i + 1;
        }
        proof {
            assert(ls.skip(lines.len() as int) =~= Seq::<Seq<char>>::empty());
        }
        string_of(Vec::<char>::new().as_slice())
    }
}

} // verus!
