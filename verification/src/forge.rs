//! Shared Forge installer logic: download-URL mappings, library paths of Maven
//! coordinates, and the placeholder resolution of install-profile processors.
use vstd::prelude::*;
use crate::text::{
    chars_of, contains_exec, contains_seq, eq_ignore_case, eq_ignore_case_exec, is_blank,
    is_blank_exec, push_all, replace_all, replace_exec, seq_eq, slice_vec, split_any,
    split_any_exec, starts_with, string_of, trim_end_char, trim_end_char_exec, trim_start_char,
    trim_start_char_exec,
};
use crate::paths::{
    has_root, has_root_exec, path_join, path_join_chars, to_native_seps, to_native_seps_exec,
    PathStyle,
};
use crate::maven::{maven_path, maven_path_chars};

verus! {

/// A download-URL substitution.
pub struct SourcesList {
    pub original: String,
    pub default: String,
}

/// State shared by the Forge installers.
pub struct ForgeInstallerBase {
    pub base_url: String,
    pub source_id: i32,
    pub game_dir: String,
    pub game_version: String,
    pub installer_path: String,
    pub main_jar_path: String,
    pub source_mappings: Vec<SourcesList>,
    /// Path convention of the host the installer runs on.
    pub path_style: PathStyle,
}

/// An entry of the install profile's `data` object: its name and the text of its
/// `client` value, when it has one.
pub struct DataEntry {
    pub name: String,
    pub client: Option<String>,
}

/// Why a Forge placeholder could not be resolved.
#[derive(Debug)]
pub enum ForgeError {
    /// A Maven coordinate from which no library path can be derived.
    InvalidMavenCoordinate(String),
    /// An absolute processor output outside the game directory.
    OutputPathOutOfRange(String),
}

/// The replacement of the first mapping for `url`, or `url` itself.
pub open spec fn resolved_url(maps: Seq<SourcesList>, url: Seq<char>) -> Seq<char>
    decreases maps.len(),
{
    if maps.len() == 0 {
        url
    } else if maps[0].original@ == url {
        maps[0].default@
    } else {
        resolved_url(maps.skip(1), url)
    }
}

pub open spec fn libraries_seg() -> Seq<char> {
    seq!['l', 'i', 'b', 'r', 'a', 'r', 'i', 'e', 's']
}

/// `{gameDir}/libraries/{path of the coordinate with native separators}`.
pub open spec fn library_path(game_dir: Seq<char>, coord: Seq<char>, style: PathStyle) -> Seq<char> {
    path_join(
        path_join(game_dir, libraries_seg(), style),
        to_native_seps(maven_path(coord), style),
        style,
    )
}

proof fn lemma_join_keeps_prefix(a: Seq<char>, b: Seq<char>, style: PathStyle)
    requires
        !has_root(b, style),
    ensures
        starts_with(path_join(a, b, style), a),
        has_root(a, style) ==> has_root(path_join(a, b, style), style),
{
    let j = path_join(a, b, style);
    assert(j.subrange(0, a.len() as int) =~= a);
    if has_root(a, style) {
        assert(j[0] == a[0]);
        if a.len() >= 3 {
            assert(j[1] == a[1] && j[2] == a[2]);
        }
    }
}

/// A library path lies under the game directory: for a coordinate whose repository
/// path is relative, it starts with the game directory joined with "libraries", and it
/// is rooted whenever the game directory is.
pub proof fn lemma_library_path_under_game_dir(game_dir: Seq<char>, coord: Seq<char>, style: PathStyle)
    requires
        !has_root(to_native_seps(maven_path(coord), style), style),
    ensures
        starts_with(library_path(game_dir, coord, style), path_join(game_dir, libraries_seg(), style)),
        has_root(game_dir, style) ==> has_root(library_path(game_dir, coord, style), style),
{
    assert(!has_root(libraries_seg(), style));
    lemma_join_keeps_prefix(game_dir, libraries_seg(), style);
    lemma_join_keeps_prefix(path_join(game_dir, libraries_seg(), style), to_native_seps(maven_path(coord), style), style);
}

/// Fails exactly when the coordinate yields a blank path.
pub open spec fn resolve_library(game_dir: Seq<char>, coord: Seq<char>, style: PathStyle) -> Result<Seq<char>, Seq<char>> {
    if is_blank(maven_path(coord)) {
        Err(coord)
    } else {
        Ok(library_path(game_dir, coord, style))
    }
}

/// `key` starts with `prefix`, ignoring ASCII case.
pub open spec fn starts_with_ignore_case(key: Seq<char>, prefix: Seq<char>) -> bool {
    prefix.len() <= key.len() && eq_ignore_case(key.take(prefix.len() as int), prefix)
}

/// The path of a processor output, kept inside the game directory.
pub open spec fn resolve_output(game_dir: Seq<char>, key: Seq<char>, style: PathStyle) -> Result<Seq<char>, Seq<char>> {
    if key.len() == 0 {
        Ok(key)
    } else if has_root(key, style) {
        if starts_with_ignore_case(key, game_dir) {
            Ok(key)
        } else {
            Err(key)
        }
    } else {
        let raw = trim_start_char(trim_end_char(key, ']'), '[');
        let p = maven_path(raw);
        if p.len() == 0 {
            Ok(key)
        } else {
            Ok(path_join(path_join(game_dir, libraries_seg(), style), to_native_seps(p, style), style))
        }
    }
}

/// Blank → unchanged; `[coordinate]` → its library path;
/// anything else → surrounding single quotes removed.
pub open spec fn normalized_value(game_dir: Seq<char>, v: Seq<char>, style: PathStyle) -> Result<Seq<char>, Seq<char>> {
    if is_blank(v) {
        Ok(v)
    } else if v.len() >= 2 && v[0] == '[' && v.last() == ']' {
        resolve_library(game_dir, v.subrange(1, v.len() - 1), style)
    } else {
        Ok(trim_end_char(trim_start_char(v, '\''), '\''))
    }
}

/// For a `[` at `open`, the position of the `]` that closes the shortest match of
/// `\[(.+?)\]` from there, scanning from `k` (-1 when a line break or the end comes first).
pub open spec fn close_bracket(s: Seq<char>, open: int, k: int) -> int
    decreases s.len() - k,
{
    if k < 0 || k >= s.len() {
        -1
    } else if s[k] == '\n' {
        -1
    } else if s[k] == ']' && k >= open + 2 {
        k
    } else {
        close_bracket(s, open, k + 1)
    }
}

/// The search for a closing bracket from `k` ends at -1 or at a `]` at or after `k`.
pub proof fn lemma_close_bracket(s: Seq<char>, open: int, k: int)
    requires
        0 <= k,
    ensures
        close_bracket(s, open, k) == -1 || (k <= close_bracket(s, open, k) < s.len() && s[close_bracket(s, open, k)] == ']'),
    decreases s.len() - k,
{
    if k < s.len() && s[k] != '\n' && !(s[k] == ']' && k >= open + 2) {
        lemma_close_bracket(s, open, k + 1);
    }
}

/// The capture groups of the successive matches of `\[(.+?)\]` in `s` from position `p`:
/// the leftmost `[` that has a closing `]` at least two characters on, with no line
/// break in between, gives the text up to the first such `]`; the search resumes after it.
pub open spec fn bracket_caps_from(s: Seq<char>, p: int) -> Seq<Seq<char>>
    decreases s.len() - p,
{
    if p < 0 || p >= s.len() {
        Seq::empty()
    } else if s[p] == '[' && close_bracket(s, p, p + 1) >= 0 {
        let j = close_bracket(s, p, p + 1);
        proof {
            lemma_close_bracket(s, p, p + 1);
        }
        seq![s.subrange(p + 1, j)] + bracket_caps_from(s, j + 1)
    } else {
        bracket_caps_from(s, p + 1)
    }
}

/// The inline coordinates `[…]` of a text (`regex::Regex::captures_iter` with the
/// pattern `\[(.+?)\]`, group 1 of each match). The contract states the matches of that
/// fixed pattern.
#[verifier::external_body]
fn bracket_captures(s: &str) -> (r: Vec<Vec<char>>)
    ensures
        r@.len() == bracket_caps_from(s@, 0).len(),
        forall|k: int| 0 <= k < r@.len() ==> #[trigger] r@[k]@ == bracket_caps_from(s@, 0)[k],
{
    let re = regex::Regex::new(r"\[(.+?)\]").unwrap();
    re.captures_iter(s).map(|c| c[1].chars().collect()).collect()
}

pub open spec fn bracketed(c: Seq<char>) -> Seq<char> {
    seq!['['] + c + seq![']']
}

/// Replaces each listed coordinate, written in brackets, by its library path; fails on
/// the first coordinate without one.
pub open spec fn replace_caps(r: Seq<char>, caps: Seq<Seq<char>>, dir: Seq<char>, style: PathStyle) -> Result<Seq<char>, Seq<char>>
    decreases caps.len(),
{
    if caps.len() == 0 {
        Ok(r)
    } else {
        match resolve_library(dir, caps[0], style) {
            Err(e) => Err(e),
            Ok(p) => replace_caps(replace_all(r, bracketed(caps[0]), p), caps.skip(1), dir, style),
        }
    }
}

/// Replaces the bracketed Maven coordinates of a text by their library paths.
pub open spec fn inline_resolved(dir: Seq<char>, v: Seq<char>, style: PathStyle) -> Result<Seq<char>, Seq<char>> {
    if is_blank(v) {
        Ok(v)
    } else {
        replace_caps(v, bracket_caps_from(v, 0), dir, style)
    }
}

pub open spec fn braced(name: Seq<char>) -> Seq<char> {
    seq!['{'] + name + seq!['}']
}

/// One `data` entry applied to the arguments: a non-empty client value replaces the
/// `{name}` placeholder, when present, by its normalised form.
pub open spec fn data_step(args: Seq<char>, e: DataEntry, dir: Seq<char>, style: PathStyle) -> Result<Seq<char>, Seq<char>> {
    match e.client {
        Some(v) => if v@.len() > 0 && contains_seq(args, braced(e.name@)) {
            match normalized_value(dir, v@, style) {
                Ok(rep) => Ok(replace_all(args, braced(e.name@), rep)),
                Err(c) => Err(c),
            }
        } else {
            Ok(args)
        },
        None => Ok(args),
    }
}

pub open spec fn apply_data(args: Seq<char>, es: Seq<DataEntry>, dir: Seq<char>, style: PathStyle) -> Result<Seq<char>, Seq<char>>
    decreases es.len(),
{
    if es.len() == 0 {
        Ok(args)
    } else {
        match data_step(args, es[0], dir, style) {
            Err(c) => Err(c),
            Ok(a) => apply_data(a, es.skip(1), dir, style),
        }
    }
}

pub open spec fn replace_if_present(s: Seq<char>, from: Seq<char>, to: Seq<char>) -> Seq<char> {
    if contains_seq(s, from) {
        replace_all(s, from, to)
    } else {
        s
    }
}

/// The Minecraft jar: the main jar path when rooted, else joined to the game directory.
pub open spec fn minecraft_jar(b: ForgeInstallerBase) -> Seq<char> {
    if has_root(b.main_jar_path@, b.path_style) {
        b.main_jar_path@
    } else {
        path_join(b.game_dir@, b.main_jar_path@, b.path_style)
    }
}

/// The fixed placeholders, in order.
pub open spec fn apply_fixed(b: ForgeInstallerBase, a: Seq<char>) -> Seq<char> {
    let a1 = replace_if_present(a, "{MINECRAFT_VERSION}"@, b.game_version@);
    let a2 = replace_if_present(a1, "{MINECRAFT_JAR}"@, minecraft_jar(b));
    let a3 = replace_if_present(a2, "{ROOT}"@, b.game_dir@);
    let a4 = replace_if_present(a3, "{LIBRARY_DIR}"@, b.game_dir@ + "/libraries"@);
    let a5 = replace_if_present(a4, "{INSTALLER}"@, b.installer_path@);
    replace_if_present(a5, "{SIDE}"@, "client"@)
}

/// Data placeholders, then the fixed placeholders, then inline coordinates.
pub open spec fn replaced_arguments(b: ForgeInstallerBase, data: Seq<DataEntry>, args: Seq<char>) -> Result<Seq<char>, Seq<char>> {
    match apply_data(args, data, b.game_dir@, b.path_style) {
        Err(c) => Err(c),
        Ok(a) => inline_resolved(b.game_dir@, apply_fixed(b, a), b.path_style),
    }
}

/// A processor output after placeholder resolution.
pub struct OutputEntry {
    pub key: String,
    pub value: String,
}

pub open spec fn entry_pairs(es: Seq<OutputEntry>) -> Seq<(Seq<char>, Seq<char>)> {
    es.map_values(|e: OutputEntry| (e.key@, e.value@))
}

/// Position of the pair with key `k`, or -1.
pub open spec fn key_index(list: Seq<(Seq<char>, Seq<char>)>, k: Seq<char>) -> int
    decreases list.len(),
{
    if list.len() == 0 {
        -1
    } else {
        let i = key_index(list.drop_last(), k);
        if i >= 0 {
            i
        } else if list.last().0 == k {
            list.len() - 1
        } else {
            -1
        }
    }
}

/// Map insertion: a present key gets the new value, a new key is appended.
pub open spec fn put(list: Seq<(Seq<char>, Seq<char>)>, k: Seq<char>, v: Seq<char>) -> Seq<(Seq<char>, Seq<char>)> {
    let i = key_index(list, k);
    if i >= 0 {
        list.update(i, (k, v))
    } else {
        list.push((k, v))
    }
}

/// Each `key=value` output is resolved as arguments are; results
/// that split at `=` into exactly two pieces become map entries, later ones
/// overriding earlier ones with the same key.
pub open spec fn outputs_from(b: ForgeInstallerBase, data: Seq<DataEntry>, outs: Seq<OutputEntry>, acc: Seq<(Seq<char>, Seq<char>)>) -> Result<Seq<(Seq<char>, Seq<char>)>, Seq<char>>
    decreases outs.len(),
{
    if outs.len() == 0 {
        Ok(acc)
    } else {
        match replaced_arguments(b, data, outs[0].key@ + seq!['='] + outs[0].value@) {
            Err(c) => Err(c),
            Ok(s) => {
                let ps = split_any(s, seq!['=']);
                outputs_from(
                    b,
                    data,
                    outs.skip(1),
                    if ps.len() == 2 {
                        put(acc, ps[0], ps[1])
                    } else {
                        acc
                    },
                )
            },
        }
    }
}

/// No sides (or none listed) means every side; otherwise one of
/// them must equal `side` up to ASCII case.
pub open spec fn runs_on_side(sides: Option<Seq<Seq<char>>>, side: Seq<char>) -> bool {
    match sides {
        None => true,
        Some(v) => v.len() == 0 || exists|i: int| 0 <= i < v.len() && eq_ignore_case(#[trigger] v[i], side),
    }
}

/// The inline coordinates of a list of argument texts, blank ones skipped.
pub open spec fn args_caps(args: Seq<Seq<char>>) -> Seq<Seq<char>>
    decreases args.len(),
{
    if args.len() == 0 {
        Seq::empty()
    } else {
        args_caps(args.drop_last()) + if is_blank(args.last()) {
            Seq::empty()
        } else {
            bracket_caps_from(args.last(), 0)
        }
    }
}

/// The inline Maven coordinates of the processors' argument lists
/// (`None` for a processor without an `args` array).
pub open spec fn processors_caps(ps: Seq<Option<Seq<Seq<char>>>>) -> Seq<Seq<char>>
    decreases ps.len(),
{
    if ps.len() == 0 {
        Seq::empty()
    } else {
        processors_caps(ps.drop_last()) + match ps.last() {
            Some(a) => args_caps(a),
            None => Seq::empty(),
        }
    }
}

pub open spec fn strings_view(v: Seq<String>) -> Seq<Seq<char>> {
    v.map_values(|s: String| s@)
}

/// The download URL of a processor jar `group:artifact:version…`:
/// `{base}/{group with '/'}/{artifact}/{version}/{artifact}-{version}.jar`.
pub open spec fn processor_jar_url(base: Seq<char>, jar: Seq<char>) -> Option<Seq<char>> {
    let ps = split_any(jar, seq![':']);
    if ps.len() < 3 {
        None
    } else {
        Some(base + seq!['/'] + replace_all(ps[0], seq!['.'], seq!['/']) + seq!['/'] + ps[1] + seq!['/']
            + ps[2] + seq!['/'] + ps[1] + seq!['-'] + ps[2] + ".jar"@)
    }
}

/// Classpath separator of the convention (`;` on Windows, `:` elsewhere).
pub open spec fn cp_sep(style: PathStyle) -> char {
    if style == PathStyle::Windows {
        ';'
    } else {
        ':'
    }
}

/// Each item followed by `sep`.
pub open spec fn join_each(items: Seq<Seq<char>>, sep: char) -> Seq<char>
    decreases items.len(),
{
    if items.len() == 0 {
        Seq::empty()
    } else {
        join_each(items.drop_last(), sep) + items.last() + seq![sep]
    }
}

/// The java command line of a processor:
/// `-cp "{classpath}{sep}{jar}" {mainClass} {args}`, the classpath being the entries
/// joined by the separator with trailing `;`/`:` removed, the arguments joined by spaces
/// with trailing spaces removed.
pub open spec fn processor_command(cps: Seq<Seq<char>>, jar: Seq<char>, main_class: Seq<char>, args: Seq<char>, style: PathStyle) -> Seq<char> {
    "-cp \""@ + crate::text::trim_end_any(join_each(cps, cp_sep(style)), seq![';', ':']) + seq![cp_sep(style)]
        + jar + "\" "@ + main_class + seq![' '] + args
}

/// A processor's arguments as one text, before its placeholders are replaced: each
/// argument followed by a space, trailing spaces dropped.
pub open spec fn processor_args(args: Seq<Seq<char>>) -> Seq<char> {
    crate::text::trim_end_char(join_each(args, ' '), ' ')
}


fn libraries_lit() -> (r: Vec<char>)
    ensures
        r@ == libraries_seg(),
{
    let r = chars_of("libraries");
    proof {
        reveal_strlit("libraries");
        assert(r@ =~= libraries_seg());
    }
    r
}

/// Library path of a coordinate, or the coordinate back when it yields no path.
pub fn resolve_library_chars(game_dir: &[char], coord: &[char], style: PathStyle) -> (r: Result<Vec<char>, Vec<char>>)
    ensures
        match (r, resolve_library(game_dir@, coord@, style)) {
            (Ok(a), Ok(b)) => a@ == b,
            (Err(a), Err(b)) => a@ == b,
            _ => false,
        },
{
    let rel = maven_path_chars(coord);
    if is_blank_exec(rel.as_slice()) {
        return Err(slice_vec(coord, 0, coord.len()));
    }
    let native = to_native_seps_exec(rel.as_slice(), style);
    let libs = path_join_chars(game_dir, libraries_lit().as_slice(), style);
    Ok(path_join_chars(libs.as_slice(), native.as_slice(), style))
}

/// The library path of a Maven coordinate under the game directory.
pub fn resolve_library_path(game_dir: &str, maven_coordinate: &str, style: PathStyle) -> (r: Result<String, ForgeError>)
    ensures
        match (r, resolve_library(game_dir@, maven_coordinate@, style)) {
            (Ok(a), Ok(b)) => a@ == b,
            (Err(ForgeError::InvalidMavenCoordinate(a)), Err(b)) => a@ == b,
            _ => false,
        },
{
    match resolve_library_chars(chars_of(game_dir).as_slice(), chars_of(maven_coordinate).as_slice(), style) {
        Ok(p) => Ok(string_of(p.as_slice())),
        Err(c) => Err(ForgeError::InvalidMavenCoordinate(string_of(c.as_slice()))),
    }
}

fn put_entry(acc: &mut Vec<OutputEntry>, k: String, v: String)
    ensures
        entry_pairs(final(acc)@) == put(entry_pairs(old(acc)@), k@, v@),
{
    let ghost pairs = entry_pairs(acc@);
    proof {
        lemma_key_index(pairs, k@);
    }
    let mut i: usize = 0;
    while i < acc.len()
        invariant
            i <= acc.len(),
            acc@ == old(acc)@,
            pairs == entry_pairs(acc@),
            forall|j: int| 0 <= j < i ==> (#[trigger] pairs[j]).0 != k@,
        decreases acc.len() - i,
    {
        if seq_eq(chars_of(acc[i].key.as_str()).as_slice(), chars_of(k.as_str()).as_slice()) {
            proof {
                lemma_key_index(pairs, k@);
                assert(pairs[i as int].0 == k@);
                let idx = key_index(pairs, k@);
                if idx < i {
                    assert(pairs[idx].0 == k@);
                }
                assert(idx == i);
            }
            let _old = acc.remove(i);
            acc.insert(i, OutputEntry { key: k, value: v });
            proof {
                assert(entry_pairs(acc@) =~= put(pairs, k@, v@));
            }
            return;
        }
        i = i + 1;
    }
    proof {
        let idx = key_index(pairs, k@);
        if idx >= 0 {
            assert(pairs[idx].0 == k@);
        }
    }
    acc.push(OutputEntry { key: k, value: v });
    proof {
        assert(entry_pairs(acc@) =~= put(pairs, k@, v@));
    }
}

proof fn lemma_key_index(list: Seq<(Seq<char>, Seq<char>)>, k: Seq<char>)
    ensures
        -1 <= key_index(list, k) < list.len(),
        key_index(list, k) >= 0 ==> list[key_index(list, k)].0 == k,
        key_index(list, k) >= 0 ==> forall|j: int| 0 <= j < key_index(list, k) ==> (#[trigger] list[j]).0 != k,
        key_index(list, k) < 0 ==> forall|j: int| 0 <= j < list.len() ==> (#[trigger] list[j]).0 != k,
    decreases list.len(),
{
    if list.len() > 0 {
        lemma_key_index(list.drop_last(), k);
        assert forall|j: int| 0 <= j < list.len() - 1 implies #[trigger] list[j] == list.drop_last()[j] by {}
    }
}

fn replace_if_present_exec(s: Vec<char>, from: &[char], to: &[char]) -> (r: Vec<char>)
    requires
        from.len() > 0,
    ensures
        r@ == replace_if_present(s@, from@, to@),
{
    if contains_exec(s.as_slice(), from) {
        replace_exec(s.as_slice(), from, to)
    } else {
        s
    }
}

fn braced_exec(name: &str) -> (r: Vec<char>)
    ensures
        r@ == braced(name@),
        r@.len() > 0,
{
    let mut r: Vec<char> = Vec::new();
    r.push('{');
    push_all(&mut r, chars_of(name).as_slice());
    r.push('}');
    proof {
        assert(r@ =~= braced(name@));
    }
    r
}

impl ForgeInstallerBase {
    /// Resolves the outputs of a processor.
    pub fn replace_outputs(&self, data: &Vec<DataEntry>, outputs: &Vec<OutputEntry>) -> (r: Result<Vec<OutputEntry>, ForgeError>)
        ensures
            match (r, outputs_from(*self, data@, outputs@, Seq::empty())) {
                (Ok(a), Ok(b)) => entry_pairs(a@) == b,
                (Err(ForgeError::InvalidMavenCoordinate(a)), Err(b)) => a@ == b,
                _ => false,
            },
    {
        let mut acc: Vec<OutputEntry> = Vec::new();
        let mut i: usize = 0;
        proof {
            assert(outputs@.skip(0) =~= outputs@);
            assert(entry_pairs(acc@) =~= Seq::<(Seq<char>, Seq<char>)>::empty());
        }
        while i < outputs.len()
            invariant
                i <= outputs.len(),
                outputs_from(*self, data@, outputs@, Seq::empty()) == outputs_from(
                    *self,
                    data@,
                    outputs@.skip(i as int),
                    entry_pairs(acc@),
                ),
            decreases outputs.len() - i,
        {
            let o = &outputs[i];
            proof {
                assert(outputs@.skip(i as int)[0] == outputs@[i as int]);
                assert(outputs@.skip(i as int).skip(1) =~= outputs@.skip(i + 1));
            }
            let mut text = chars_of(o.key.as_str());
            text.push('=');
            push_all(&mut text, chars_of(o.value.as_str()).as_slice());
            let ts = string_of(text.as_slice());
            proof {
                assert(ts@ =~= o.key@ + seq!['='] + o.value@);
            }
            match self.replace_arguments(data, ts.as_str()) {
                Err(e) => {
                    return Err(e);
                },
                Ok(s) => {
                    let eq = chars_of("=");
                    proof {
                        reveal_strlit("=");
                        assert(eq@ =~= seq!['=']);
                    }
                    let ps = split_any_exec(chars_of(s.as_str()).as_slice(), eq.as_slice());
                    if ps.len() == 2 {
                        let k = string_of(ps[0].as_slice());
                        let v = string_of(ps[1].as_slice());
                        put_entry(&mut acc, k, v);
                    }
                },
            }
            i = i + 1;
        }
        proof {
            assert(outputs@.skip(outputs.len() as int) =~= Seq::<OutputEntry>::empty());
        }
        Ok(acc)
    }

    /// The download URL of a processor's jar, or `None` when the coordinate has fewer
    /// than three pieces (the processor cannot run then).
    pub fn processor_jar_download_url(&self, jar: &str) -> (r: Option<String>)
        ensures
            match (r, processor_jar_url(self.base_url@, jar@)) {
                (Some(a), Some(b)) => a@ == b,
                (None, None) => true,
                _ => false,
            },
    {
        let colon = chars_of(":");
        proof {
            reveal_strlit(":");
            assert(colon@ =~= seq![':']);
        }
        let ps = split_any_exec(chars_of(jar).as_slice(), colon.as_slice());
        if ps.len() < 3 {
            return None;
        }
        let dot = chars_of(".");
        let slash = chars_of("/");
        let jar_ext = chars_of(".jar");
        proof {
            reveal_strlit(".");
            reveal_strlit("/");
            assert(dot@ =~= seq!['.']);
            assert(slash@ =~= seq!['/']);
        }
        let mut r = chars_of(self.base_url.as_str());
        r.push('/');
        push_all(&mut r, replace_exec(ps[0].as_slice(), dot.as_slice(), slash.as_slice()).as_slice());
        r.push('/');
        push_all(&mut r, ps[1].as_slice());
        r.push('/');
        push_all(&mut r, ps[2].as_slice());
        r.push('/');
        push_all(&mut r, ps[1].as_slice());
        r.push('-');
        push_all(&mut r, ps[2].as_slice());
        push_all(&mut r, jar_ext.as_slice());
        proof {
            assert(r@ =~= processor_jar_url(self.base_url@, jar@)->0);
        }
        Some(string_of(r.as_slice()))
    }

    /// Replaces the bracketed Maven coordinates of a text by their library paths.
    pub fn replace_inline_maven_coordinates(&self, value: &str) -> (r: Result<String, ForgeError>)
        ensures
            match (r, inline_resolved(self.game_dir@, value@, self.path_style)) {
                (Ok(a), Ok(b)) => a@ == b,
                (Err(ForgeError::InvalidMavenCoordinate(a)), Err(b)) => a@ == b,
                _ => false,
            },
    {
        let v = chars_of(value);
        if is_blank_exec(v.as_slice()) {
            return Ok(String::from_str(value));
        }
        let caps = bracket_captures(value);
        let ghost all = bracket_caps_from(value@, 0);
        let dir = chars_of(self.game_dir.as_str());
        let mut result = v;
        let mut i: usize = 0;
        proof {
            assert(all.skip(0) =~= all);
        }
        while i < caps.len()
            invariant
                i <= caps.len(),
                caps@.len() == all.len(),
                forall|k: int| 0 <= k < caps@.len() ==> #[trigger] caps@[k]@ == all[k],
                dir@ == self.game_dir@,
                !is_blank(value@),
                inline_resolved(self.game_dir@, value@, self.path_style) == replace_caps(
                    result@,
                    all.skip(i as int),
                    self.game_dir@,
                    self.path_style,
                ),
            decreases caps.len() - i,
        {
            let c = &caps[i];
            proof {
                assert(all.skip(i as int)[0] == all[i as int]);
                assert(all.skip(i as int).skip(1) =~= all.skip(i + 1));
            }
            match resolve_library_chars(dir.as_slice(), c.as_slice(), self.path_style) {
                Err(e) => {
                    return Err(ForgeError::InvalidMavenCoordinate(string_of(e.as_slice())));
                },
                Ok(p) => {
                    let mut pat: Vec<char> = Vec::new();
                    pat.push('[');
                    push_all(&mut pat, c.as_slice());
                    pat.push(']');
                    proof {
                        assert(pat@ =~= bracketed(c@));
                    }
                    result = replace_exec(result.as_slice(), pat.as_slice(), p.as_slice());
                },
            }
            i = i + 1;
        }
        proof {
            assert(all.skip(caps.len() as int) =~= Seq::<Seq<char>>::empty());
        }
        Ok(string_of(result.as_slice()))
    }

    /// Resolves the `{name}` placeholders of the profile's data
    /// entries, then `{MINECRAFT_VERSION}`, `{MINECRAFT_JAR}`, `{ROOT}`, `{LIBRARY_DIR}`,
    /// `{INSTALLER}`, `{SIDE}`, then the inline `[coordinate]`s.
    pub fn replace_arguments(&self, data: &Vec<DataEntry>, args: &str) -> (r: Result<String, ForgeError>)
        ensures
            match (r, replaced_arguments(*self, data@, args@)) {
                (Ok(a), Ok(b)) => a@ == b,
                (Err(ForgeError::InvalidMavenCoordinate(a)), Err(b)) => a@ == b,
                _ => false,
            },
    {
        let mut a = String::from_str(args);
        let mut i: usize = 0;
        proof {
            assert(data@.skip(0) =~= data@);
        }
        while i < data.len()
            invariant
                i <= data.len(),
                apply_data(args@, data@, self.game_dir@, self.path_style) == apply_data(
                    a@,
                    data@.skip(i as int),
                    self.game_dir@,
                    self.path_style,
                ),
            decreases data.len() - i,
        {
            let e = &data[i];
            proof {
                assert(data@.skip(i as int)[0] == data@[i as int]);
                assert(data@.skip(i as int).skip(1) =~= data@.skip(i + 1));
            }
            match &e.client {
                Some(v) => {
                    let ph = braced_exec(e.name.as_str());
                    let ac = chars_of(a.as_str());
                    if v.unicode_len() > 0 && contains_exec(ac.as_slice(), ph.as_slice()) {
                        match self.normalize_processor_value(v.as_str()) {
                            Err(err) => {
                                return Err(err);
                            },
                            Ok(rep) => {
                                let n = replace_exec(ac.as_slice(), ph.as_slice(), chars_of(rep.as_str()).as_slice());
                                a = string_of(n.as_slice());
                            },
                        }
                    }
                },
                None => {},
            }
            i = i + 1;
        }
        proof {
            assert(data@.skip(data.len() as int) =~= Seq::<DataEntry>::empty());
        }
        let style = self.path_style;
        let dir = chars_of(self.game_dir.as_str());
        let jar = chars_of(self.main_jar_path.as_str());
        let minecraft_jar_path = if has_root_exec(jar.as_slice(), style) {
            jar
        } else {
            path_join_chars(dir.as_slice(), jar.as_slice(), style)
        };
        let mut library_dir = slice_vec(dir.as_slice(), 0, dir.len());
        push_all(&mut library_dir, chars_of("/libraries").as_slice());
        proof {
            assert(dir@.subrange(0, dir@.len() as int) =~= dir@);
            reveal_strlit("{MINECRAFT_VERSION}");
            reveal_strlit("{MINECRAFT_JAR}");
            reveal_strlit("{ROOT}");
            reveal_strlit("{LIBRARY_DIR}");
            reveal_strlit("{INSTALLER}");
            reveal_strlit("{SIDE}");
        }
        let s0 = chars_of(a.as_str());
        let s1 = replace_if_present_exec(s0, chars_of("{MINECRAFT_VERSION}").as_slice(), chars_of(self.game_version.as_str()).as_slice());
        let s2 = replace_if_present_exec(s1, chars_of("{MINECRAFT_JAR}").as_slice(), minecraft_jar_path.as_slice());
        let s3 = replace_if_present_exec(s2, chars_of("{ROOT}").as_slice(), dir.as_slice());
        let s4 = replace_if_present_exec(s3, chars_of("{LIBRARY_DIR}").as_slice(), library_dir.as_slice());
        let s5 = replace_if_present_exec(s4, chars_of("{INSTALLER}").as_slice(), chars_of(self.installer_path.as_str()).as_slice());
        let s6 = replace_if_present_exec(s5, chars_of("{SIDE}").as_slice(), chars_of("client").as_slice());
        self.replace_inline_maven_coordinates(string_of(s6.as_slice()).as_str())
    }

    /// The mirror address of a download address.
    pub fn resolve_url(&self, original_url: &str) -> (r: String)
        ensures
            r@ == resolved_url(self.source_mappings@, original_url@),
    {
        let mut i: usize = 0;
        proof {
            assert(self.source_mappings@.skip(0) =~= self.source_mappings@);
        }
        while i < self.source_mappings.len()
            invariant
                i <= self.source_mappings.len(),
                resolved_url(self.source_mappings@, original_url@) == resolved_url(
                    self.source_mappings@.skip(i as int),
                    original_url@,
                ),
            decreases self.source_mappings.len() - i,
        {
            let m = &self.source_mappings[i];
            proof {
                assert(self.source_mappings@.skip(i as int)[0] == self.source_mappings@[i as int]);
                assert(self.source_mappings@.skip(i as int).skip(1) =~= self.source_mappings@.skip(
                    i + 1,
                ));
            }
            if seq_eq(chars_of(m.original.as_str()).as_slice(), chars_of(original_url).as_slice()) {
                return m.default.clone();
            }
            i = i + 1;
        }
        String::from_str(original_url)
    }

    /// The path of a processor output, kept inside the game directory.
    pub fn resolve_processor_output_path(&self, output_key: &str) -> (r: Result<String, ForgeError>)
        ensures
            match (r, resolve_output(self.game_dir@, output_key@, self.path_style)) {
                (Ok(a), Ok(b)) => a@ == b,
                (Err(ForgeError::OutputPathOutOfRange(a)), Err(b)) => a@ == b,
                _ => false,
            },
    {
        let key = chars_of(output_key);
        let dir = chars_of(self.game_dir.as_str());
        let style = self.path_style;
        if key.len() == 0 {
            return Ok(String::new());
        }
        if has_root_exec(key.as_slice(), style) {
            if dir.len() <= key.len() && eq_ignore_case_exec(
                slice_vec(key.as_slice(), 0, dir.len()).as_slice(),
                dir.as_slice(),
            ) {
                proof {
                    assert(key@.subrange(0, dir@.len() as int) =~= key@.take(dir@.len() as int));
                }
                return Ok(String::from_str(output_key));
            }
            proof {
                if dir@.len() <= key@.len() {
                    assert(key@.subrange(0, dir@.len() as int) =~= key@.take(dir@.len() as int));
                }
            }
            return Err(ForgeError::OutputPathOutOfRange(String::from_str(output_key)));
        }
        let t1 = trim_end_char_exec(key.as_slice(), ']');
        let raw = trim_start_char_exec(t1.as_slice(), '[');
        let p = maven_path_chars(raw.as_slice());
        if p.len() == 0 {
            return Ok(String::from_str(output_key));
        }
        let native = to_native_seps_exec(p.as_slice(), style);
        let libs = path_join_chars(dir.as_slice(), libraries_lit().as_slice(), style);
        Ok(string_of(path_join_chars(libs.as_slice(), native.as_slice(), style).as_slice()))
    }

    /// Resolves one processor value.
    pub fn normalize_processor_value(&self, value: &str) -> (r: Result<String, ForgeError>)
        ensures
            match (r, normalized_value(self.game_dir@, value@, self.path_style)) {
                (Ok(a), Ok(b)) => a@ == b,
                (Err(ForgeError::InvalidMavenCoordinate(a)), Err(b)) => a@ == b,
                _ => false,
            },
    {
        let v = chars_of(value);
        if is_blank_exec(v.as_slice()) {
            return Ok(String::from_str(value));
        }
        if v.len() >= 2 && v[0] == '[' && v[v.len() - 1] == ']' {
            let inner = slice_vec(v.as_slice(), 1, v.len() - 1);
            let dir = chars_of(self.game_dir.as_str());
            return match resolve_library_chars(dir.as_slice(), inner.as_slice(), self.path_style) {
                Ok(p) => Ok(string_of(p.as_slice())),
                Err(c) => Err(ForgeError::InvalidMavenCoordinate(string_of(c.as_slice()))),
            };
        }
        let a = trim_start_char_exec(v.as_slice(), '\'');
        let b = trim_end_char_exec(a.as_slice(), '\'');
        Ok(string_of(b.as_slice()))
    }
}


fn join_each_exec(items: &Vec<String>, sep: char) -> (r: Vec<char>)
    ensures
        r@ == join_each(strings_view(items@), sep),
{
    let ghost all = strings_view(items@);
    let mut r: Vec<char> = Vec::new();
    let mut i: usize = 0;
    proof {
        assert(all.take(0) =~= Seq::<Seq<char>>::empty());
    }
    while i < items.len()
        invariant
            i <= items.len(),
            all == strings_view(items@),
            r@ == join_each(all.take(i as int), sep),
        decreases items.len() - i,
    {
        proof {
            assert(all.take(i + 1).drop_last() =~= all.take(i as int));
            assert(all.take(i + 1).last() == items@[i as int]@);
        }
        push_all(&mut r, chars_of(items[i].as_str()).as_slice());
        r.push(sep);
        i = i + 1;
    }
    proof {
        assert(all.take(items.len() as int) =~= all);
    }
    r
}

/// The java command line that runs a processor.
pub fn build_processor_command(classpath: &Vec<String>, jar_path: &str, main_class: &str, args: &str, style: PathStyle) -> (r: String)
    ensures
        r@ == processor_command(strings_view(classpath@), jar_path@, main_class@, args@, style),
{
    let sep: char = if style == PathStyle::Windows {
        ';'
    } else {
        ':'
    };
    let cps_raw = join_each_exec(classpath, sep);
    let seps = chars_of(";:");
    proof {
        reveal_strlit(";:");
        assert(seps@ =~= seq![';', ':']);
    }
    let cps = crate::text::trim_end_any_exec(cps_raw.as_slice(), seps.as_slice());
    let mut r = chars_of("-cp \"");
    push_all(&mut r, cps.as_slice());
    r.push(sep);
    push_all(&mut r, chars_of(jar_path).as_slice());
    push_all(&mut r, chars_of("\" ").as_slice());
    push_all(&mut r, chars_of(main_class).as_slice());
    r.push(' ');
    push_all(&mut r, chars_of(args).as_slice());
    proof {
        assert(r@ =~= processor_command(strings_view(classpath@), jar_path@, main_class@, args@, style));
    }
    string_of(r.as_slice())
}

/// The argument text of a processor (see `processor_args`), to which the install
/// profile's placeholders are then applied.
pub fn processor_args_text(args: &Vec<String>) -> (r: String)
    ensures
        r@ == processor_args(strings_view(args@)),
{
    let raw = join_each_exec(args, ' ');
    string_of(crate::text::trim_end_char_exec(raw.as_slice(), ' ').as_slice())
}

/// The SHA-1 a processor output is checked against: its value without surrounding
/// single quotes.
pub fn output_sha1(value: &str) -> (r: String)
    ensures
        r@ == crate::text::trim_end_char(crate::text::trim_start_char(value@, '\''), '\''),
{
    let v = crate::text::trim_start_char_exec(chars_of(value).as_slice(), '\'');
    string_of(crate::text::trim_end_char_exec(v.as_slice(), '\'').as_slice())
}

/// Whether a processor runs on the client side.
pub fn should_run_processor(sides: &Option<Vec<String>>, side: &str) -> (r: bool)
    ensures
        r == runs_on_side(
            match sides {
                Some(v) => Some(strings_view(v@)),
                None => None,
            },
            side@,
        ),
{
    match sides {
        None => true,
        Some(v) => {
            if v.len() == 0 {
                return true;
            }
            let sc = chars_of(side);
            let mut i: usize = 0;
            while i < v.len()
                invariant
                    i <= v.len(),
                    sc@ == side@,
                    match sides {
                        Some(w) => w@ == v@,
                        None => false,
                    },
                    forall|k: int| 0 <= k < i ==> !eq_ignore_case(#[trigger] strings_view(v@)[k], side@),
                decreases v.len() - i,
            {
                if eq_ignore_case_exec(chars_of(v[i].as_str()).as_slice(), sc.as_slice()) {
                    proof {
                        assert(strings_view(v@)[i as int] == v@[i as int]@);
                        assert(eq_ignore_case(strings_view(v@)[i as int], side@));
                    }
                    return true;
                }
                i = i + 1;
            }
            false
        },
    }
}

fn args_caps_exec(args: &Vec<String>) -> (r: Vec<String>)
    ensures
        strings_view(r@) == args_caps(strings_view(args@)),
{
    let ghost all = strings_view(args@);
    let mut r: Vec<String> = Vec::new();
    let mut i: usize = 0;
    proof {
        assert(all.take(0) =~= Seq::<Seq<char>>::empty());
        assert(strings_view(r@) =~= Seq::<Seq<char>>::empty());
    }
    while i < args.len()
        invariant
            i <= args.len(),
            all == strings_view(args@),
            strings_view(r@) == args_caps(all.take(i as int)),
        decreases args.len() - i,
    {
        proof {
            assert(all.take(i + 1).drop_last() =~= all.take(i as int));
            assert(all.take(i + 1).last() == args@[i as int]@);
        }
        let text = &args[i];
        let ghost before = strings_view(r@);
        if !is_blank_exec(chars_of(text.as_str()).as_slice()) {
            let caps = bracket_captures(text.as_str());
            let mut k: usize = 0;
            while k < caps.len()
                invariant
                    k <= caps.len(),
                    caps@.len() == bracket_caps_from(text@, 0).len(),
                    forall|m: int| 0 <= m < caps@.len() ==> #[trigger] caps@[m]@ == bracket_caps_from(text@, 0)[m],
                    strings_view(r@) == before + bracket_caps_from(text@, 0).take(k as int),
                decreases caps.len() - k,
            {
                let ghost prev = r@;
                let item = string_of(caps[k].as_slice());
                r.push(item);
                proof {
                    assert(strings_view(r@) =~= strings_view(prev).push(item@));
                    assert(bracket_caps_from(text@, 0).take(k + 1) =~= bracket_caps_from(text@, 0).take(k as int).push(caps@[k as int]@));
                    assert(strings_view(r@) =~= before + bracket_caps_from(text@, 0).take(k + 1));
                }
                k = k + 1;
            }
            proof {
                assert(bracket_caps_from(text@, 0).take(caps.len() as int) =~= bracket_caps_from(text@, 0));
            }
        } else {
            proof {
                assert(before + Seq::<Seq<char>>::empty() =~= before);
            }
        }
        i = i + 1;
    }
    proof {
        assert(all.take(args.len() as int) =~= all);
    }
    r
}

pub open spec fn processors_view(ps: Seq<Option<Vec<String>>>) -> Seq<Option<Seq<Seq<char>>>> {
    ps.map_values(
        |p: Option<Vec<String>>|
            match p {
                Some(v) => Some(strings_view(v@)),
                None => None,
            },
    )
}

/// The inline coordinates of every processor's
/// arguments, in order.
pub fn extract_maven_coordinates_from_processors(processors: &Vec<Option<Vec<String>>>) -> (r: Vec<String>)
    ensures
        strings_view(r@) == processors_caps(processors_view(processors@)),
{
    let ghost all = processors_view(processors@);
    let mut r: Vec<String> = Vec::new();
    let mut i: usize = 0;
    proof {
        assert(all.take(0) =~= Seq::<Option<Seq<Seq<char>>>>::empty());
        assert(strings_view(r@) =~= Seq::<Seq<char>>::empty());
    }
    while i < processors.len()
        invariant
            i <= processors.len(),
            all == processors_view(processors@),
            strings_view(r@) == processors_caps(all.take(i as int)),
        decreases processors.len() - i,
    {
        proof {
            assert(all.take(i + 1).drop_last() =~= all.take(i as int));
            assert(all.take(i + 1).last() == all[i as int]);
        }
        let ghost before = strings_view(r@);
        match &processors[i] {
            Some(args) => {
                let caps = args_caps_exec(args);
                let mut k: usize = 0;
                while k < caps.len()
                    invariant
                        k <= caps.len(),
                        strings_view(r@) == before + strings_view(caps@).take(k as int),
                    decreases caps.len() - k,
                {
                    let ghost prev = r@;
                    let item = caps[k].clone();
                    r.push(item);
                    proof {
                        assert(strings_view(r@) =~= strings_view(prev).push(item@));
                        assert(strings_view(caps@)[k as int] == caps@[k as int]@);
                        assert(strings_view(r@) =~= before + strings_view(caps@).take(k + 1));
                    }
                    k = k + 1;
                }
                proof {
                    assert(strings_view(caps@).take(caps.len() as int) =~= strings_view(caps@));
                }
            },
            None => {
                proof {
                    assert(before + Seq::<Seq<char>>::empty() =~= before);
                }
            },
        }
        i = i + 1;
    }
    proof {
        assert(all.take(processors.len() as int) =~= all);
    }
    r
}

// ---------------------------------------------------------------------------
// Laws of processor resolution
// ---------------------------------------------------------------------------

/// Trimming a leading run of `c` drops exactly that run.
proof fn lemma_trim_start_run(s: Seq<char>, c: char) -> (n: int)
    ensures
        0 <= n <= s.len(),
        trim_start_char(s, c) == s.skip(n),
        forall|k: int| 0 <= k < n ==> s[k] == c,
        n == s.len() || s[n] != c,
    decreases s.len(),
{
    if s.len() > 0 && s[0] == c {
        let m = lemma_trim_start_run(s.skip(1), c);
        assert(s.skip(1).skip(m) =~= s.skip(m + 1));
        assert forall|k: int| 0 <= k < m + 1 implies s[k] == c by {
            if k > 0 {
                assert(s.skip(1)[k - 1] == s[k]);
            }
        }
        if m + 1 < s.len() {
            assert(s.skip(1)[m] == s[m + 1]);
        }
        m + 1
    } else {
        assert(s.skip(0) =~= s);
        0
    }
}

/// Trimming a trailing run of `c` keeps exactly what comes before that run.
proof fn lemma_trim_end_run(s: Seq<char>, c: char) -> (m: int)
    ensures
        0 <= m <= s.len(),
        trim_end_char(s, c) == s.take(m),
        forall|k: int| m <= k < s.len() ==> s[k] == c,
        m == 0 || s[m - 1] != c,
    decreases s.len(),
{
    if s.len() > 0 && s.last() == c {
        let m = lemma_trim_end_run(s.drop_last(), c);
        assert(s.drop_last().take(m) =~= s.take(m));
        assert forall|k: int| m <= k < s.len() implies s[k] == c by {
            if k < s.len() - 1 {
                assert(s.drop_last()[k] == s[k]);
            }
        }
        if m > 0 {
            assert(s.drop_last()[m - 1] == s[m - 1]);
        }
        m
    } else {
        assert(s.take(s.len() as int) =~= s);
        s.len() as int
    }
}

/// A processor value that is neither blank nor a `[coordinate]` resolves to itself with
/// its surrounding single quotes removed: the result is a stretch of the value, everything
/// before and after it is a single quote, and the result itself neither starts nor ends
/// with one.
pub proof fn lemma_value_quotes_stripped(game_dir: Seq<char>, v: Seq<char>, style: PathStyle)
    requires
        !is_blank(v),
        !(v.len() >= 2 && v[0] == '[' && v.last() == ']'),
    ensures
        normalized_value(game_dir, v, style) is Ok,
        ({
            let r = normalized_value(game_dir, v, style)->Ok_0;
            &&& r.len() == 0 || (r[0] != '\'' && r.last() != '\'')
            &&& exists|i: int, j: int|
                0 <= i <= j <= v.len() && r == v.subrange(i, j)
                    && (forall|k: int| 0 <= k < i ==> v[k] == '\'')
                    && (forall|k: int| j <= k < v.len() ==> v[k] == '\'')
        }),
{
    let n = lemma_trim_start_run(v, '\'');
    let t = v.skip(n);
    let m = lemma_trim_end_run(t, '\'');
    let r = t.take(m);
    assert(normalized_value(game_dir, v, style) == Ok::<Seq<char>, Seq<char>>(r));
    assert(r =~= v.subrange(n, n + m));
    if r.len() > 0 {
        assert(r[0] == v[n]);
        assert(r.last() == t[m - 1]);
    }
    assert forall|k: int| n + m <= k < v.len() implies v[k] == '\'' by {
        assert(t[k - n] == v[k]);
    }
}

/// Surrounding single quotes are removed and nothing else: `'x'` resolves to `x` for any
/// `x` without a single quote, and a quote-free value that is neither blank nor a
/// `[coordinate]` resolves to itself.
pub proof fn lemma_quoted_value_unquoted(game_dir: Seq<char>, x: Seq<char>, style: PathStyle)
    requires
        forall|k: int| 0 <= k < x.len() ==> x[k] != '\'',
    ensures
        normalized_value(game_dir, seq!['\''] + x + seq!['\''], style) == Ok::<Seq<char>, Seq<char>>(x),
        !is_blank(x) && !(x.len() >= 2 && x[0] == '[' && x.last() == ']')
            ==> normalized_value(game_dir, x, style) == Ok::<Seq<char>, Seq<char>>(x),
{
    let v = seq!['\''] + x + seq!['\''];
    assert(!crate::text::is_white(v[0]));
    assert(!is_blank(v));
    let n = lemma_trim_start_run(v, '\'');
    if x.len() > 0 {
        assert(v[1] == x[0]);
        assert(n == 1);
    } else {
        assert(n == 2);
    }
    let t = v.skip(n);
    let m = lemma_trim_end_run(t, '\'');
    if x.len() > 0 {
        assert(t[x.len() - 1] == x[x.len() - 1]);
        assert(t[x.len() as int] == '\'');
        assert(m == x.len());
        assert(t.take(m) =~= x);
    } else {
        assert(t.take(m) =~= x);
    }
    if !is_blank(x) && !(x.len() >= 2 && x[0] == '[' && x.last() == ']') {
        let n2 = lemma_trim_start_run(x, '\'');
        assert(n2 == 0);
        assert(x.skip(0) =~= x);
        let m2 = lemma_trim_end_run(x, '\'');
        assert(m2 == x.len());
        assert(x.take(m2) =~= x);
    }
}

/// A processor without a sides list, or with an empty one, runs on every side; one
/// whose list names the side runs there.
pub proof fn lemma_processor_sides(sides: Seq<Seq<char>>, side: Seq<char>)
    ensures
        runs_on_side(None, side),
        runs_on_side(Some(Seq::<Seq<char>>::empty()), side),
        sides.contains(side) ==> runs_on_side(Some(sides), side),
{
    if sides.contains(side) {
        let i = choose|i: int| 0 <= i < sides.len() && sides[i] == side;
        assert(eq_ignore_case(sides[i], side));
    }
}

proof fn lemma_split_any_avoids(s: Seq<char>, seps: Seq<char>, c: char)
    requires
        forall|k: int| 0 <= k < s.len() ==> s[k] != c,
    ensures
        forall|i: int, k: int|
            0 <= i < split_any(s, seps).len() && 0 <= k < split_any(s, seps)[i].len()
                ==> split_any(s, seps)[i][k] != c,
    decreases s.len(),
{
    if s.len() > 0 {
        lemma_split_any_avoids(s.drop_last(), seps, c);
        let rest = split_any(s.drop_last(), seps);
        assert(rest.len() >= 1) by {
            lemma_split_any_nonempty(s.drop_last(), seps);
        }
        assert(s.last() == s[s.len() - 1]);
    }
}

proof fn lemma_split_any_nonempty(s: Seq<char>, seps: Seq<char>)
    ensures
        split_any(s, seps).len() >= 1,
    decreases s.len(),
{
    if s.len() > 0 {
        lemma_split_any_nonempty(s.drop_last(), seps);
    }
}

proof fn lemma_before_first_absent(s: Seq<char>, c: char)
    requires
        forall|k: int| 0 <= k < s.len() ==> s[k] != c,
    ensures
        crate::mcversion::before_first(s, c) == s,
    decreases s.len(),
{
    if s.len() > 0 {
        lemma_before_first_absent(s.skip(1), c);
        assert(seq![s[0]] + s.skip(1) =~= s);
    }
}

/// The download URL of a plain `group:artifact:version` processor jar is the base
/// URL, a slash, and the Maven repository path of the coordinate (group dots turned
/// into slashes).
pub proof fn lemma_processor_jar_url_is_maven_path(base: Seq<char>, jar: Seq<char>)
    requires
        split_any(jar, seq![':']).len() == 3,
        forall|k: int| 0 <= k < jar.len() ==> jar[k] != '@',
    ensures
        processor_jar_url(base, jar) == Some(base + seq!['/'] + maven_path(jar)),
{
    let ps = split_any(jar, seq![':']);
    lemma_split_any_avoids(jar, seq![':'], '@');
    lemma_before_first_absent(ps[2], '@');
    assert(ps.update(2, ps[2]) =~= ps);
    reveal_strlit(".jar");
    assert(".jar"@ =~= seq!['.'] + crate::maven::jar_ext());
    assert(processor_jar_url(base, jar)->0 =~= base + seq!['/'] + maven_path(jar));
}


} // verus!
