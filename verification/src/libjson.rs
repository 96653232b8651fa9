//! Library lists read from version files and install profiles, and the text of a JSON
//! node as the installers print it.
use vstd::prelude::*;
use crate::text::{chars_of, seq_eq, string_of};
use crate::json::{
    find_key, items_view, jview, key_index, lemma_items_view, lemma_members_view, members_view,
    JsonMember, JsonModel, JsonValue, MemberModel,
};
use crate::maven::{lib_name_of, lib_path_of, lib_version_of, LibInfo};
use crate::forgeinstall::CleanroomInstaller;

verus! {

// ---------------------------------------------------------------------------
// Reading members
// ---------------------------------------------------------------------------

/// The value under a key of an object's members (the first member with it).
pub open spec fn member_of(ms: Seq<MemberModel>, key: Seq<char>) -> Option<JsonModel> {
    let i = key_index(ms, key);
    if i < 0 {
        None
    } else {
        Some(ms[i].value)
    }
}

/// `Value::get(key)` on an optional node: the member of an object, nothing otherwise.
pub open spec fn jget(v: Option<JsonModel>, key: Seq<char>) -> Option<JsonModel> {
    match v {
        Some(JsonModel::Object(ms)) => member_of(ms, key),
        _ => None,
    }
}

/// `Value::get(key)`.
pub fn get_member<'a>(v: &'a JsonValue, key: &str) -> (r: Option<&'a JsonValue>)
    ensures
        match r {
            Some(m) => jget(Some(jview(*v)), key@) == Some(jview(*m)),
            None => jget(Some(jview(*v)), key@) is None,
        },
{
    match v {
        JsonValue::Object(ms) => {
            proof {
                lemma_members_view(ms@);
            }
            match find_key(ms, chars_of(key).as_slice()) {
                Some(i) => Some(&ms[i].value),
                None => None,
            }
        },
        _ => None,
    }
}

/// `Value::get(key)` on an optional node.
pub fn get_in<'a>(v: Option<&'a JsonValue>, key: &str) -> (r: Option<&'a JsonValue>)
    ensures
        match r {
            Some(m) => jget(
                match v {
                    Some(x) => Some(jview(*x)),
                    None => None,
                },
                key@,
            ) == Some(jview(*m)),
            None => jget(
                match v {
                    Some(x) => Some(jview(*x)),
                    None => None,
                },
                key@,
            ) is None,
        },
{
    match v {
        Some(x) => get_member(x, key),
        None => None,
    }
}

/// The text of a string node, empty for anything else (`as_str().unwrap_or("")`).
pub open spec fn str_or_empty(v: Option<JsonModel>) -> Seq<char> {
    match v {
        Some(JsonModel::Str(s)) => s,
        _ => Seq::empty(),
    }
}

fn str_or_empty_exec(v: Option<&JsonValue>) -> (r: String)
    ensures
        r@ == str_or_empty(
            match v {
                Some(x) => Some(jview(*x)),
                None => None,
            },
        ),
{
    match v {
        Some(JsonValue::Str(s)) => string_of(chars_of(s.as_str()).as_slice()),
        _ => string_of(Vec::<char>::new().as_slice()),
    }
}

// ---------------------------------------------------------------------------
// The text of a node
// ---------------------------------------------------------------------------

/// A `serde_json` document.
#[verifier::external_type_specification]
#[verifier::external_body]
pub struct ExSerdeValue(serde_json::Value);

/// What `serde_json::to_string` writes for a document given as a `JsonValue`: the
/// compact JSON text of the `serde_json::Value` it converts to.
pub uninterp spec fn compact_json_text(v: JsonModel) -> Seq<char>;

/// The `serde_json::Value` of a document: members in order (a later member with the same
/// key replacing an earlier one), numbers read back from their text (null when the text
/// is no JSON number). Nothing is stated of the result.
#[verifier::external_body]
fn to_serde_value(v: &JsonValue) -> serde_json::Value {
    match v {
        JsonValue::Null => serde_json::Value::Null,
        JsonValue::Bool(b) => serde_json::Value::Bool(*b),
        JsonValue::Number(t) => t.parse::<serde_json::Number>().map_or(serde_json::Value::Null, serde_json::Value::Number),
        JsonValue::Str(s) => serde_json::Value::String(s.clone()),
        JsonValue::Array(items) => serde_json::Value::Array(items.iter().map(to_serde_value).collect()),
        JsonValue::Object(ms) => serde_json::Value::Object(ms.iter().map(|m| (m.key.clone(), to_serde_value(&m.value))).collect()),
    }
}

/// `serde_json::to_string` of a document: the contract names the text
/// `compact_json_text(v)`; nothing more is stated of it.
#[verifier::external_body]
fn compact_json(v: &JsonValue) -> (r: String)
    ensures
        r@ == compact_json_text(jview(*v)),
{
    serde_json::to_string(&to_serde_value(v)).unwrap_or_default()
}

/// The text of a node as the installers read it: a string without quotes, a number as
/// written, `true`/`false`, `null`, and for an array or an object its compact JSON text.
pub open spec fn node_text(v: JsonModel) -> Seq<char> {
    match v {
        JsonModel::Str(s) => s,
        JsonModel::Number(t) => t,
        JsonModel::Bool(b) => if b {
            "true"@
        } else {
            "false"@
        },
        JsonModel::Null => "null"@,
        _ => compact_json_text(v),
    }
}

/// The text of a node (see `node_text`).
pub fn json_node_to_string(v: &JsonValue) -> (r: String)
    ensures
        r@ == node_text(jview(*v)),
{
    match v {
        JsonValue::Str(s) => string_of(chars_of(s.as_str()).as_slice()),
        JsonValue::Number(t) => string_of(chars_of(t.as_str()).as_slice()),
        JsonValue::Bool(b) => if *b {
            String::from_str("true")
        } else {
            String::from_str("false")
        },
        JsonValue::Null => String::from_str("null"),
        _ => compact_json(v),
    }
}

/// The text of an optional node, empty when there is none.
pub open spec fn text_or_empty(v: Option<JsonModel>) -> Seq<char> {
    match v {
        Some(m) => node_text(m),
        None => Seq::empty(),
    }
}

fn text_or_empty_exec(v: Option<&JsonValue>) -> (r: String)
    ensures
        r@ == text_or_empty(
            match v {
                Some(x) => Some(jview(*x)),
                None => None,
            },
        ),
{
    match v {
        Some(x) => json_node_to_string(x),
        None => string_of(Vec::<char>::new().as_slice()),
    }
}

// ---------------------------------------------------------------------------
// Library lists
// ---------------------------------------------------------------------------

/// A library as a list names it: its coordinate, SHA-1 and URL.
pub ghost struct LibEntry {
    pub full: Seq<char>,
    pub hash: Seq<char>,
    pub url: Seq<char>,
}

/// The descriptor built for an entry (`LibInfo::new` with the hash and URL set).
pub open spec fn describes(l: LibInfo, e: LibEntry) -> bool {
    &&& l.full_name@ == e.full
    &&& l.name@ == lib_name_of(e.full)
    &&& l.version@ == lib_version_of(e.full)
    &&& l.path@ == lib_path_of(e.full)
    &&& l.hash@ == e.hash
    &&& l.url@ == e.url
}

pub open spec fn describes_all(ls: Seq<LibInfo>, es: Seq<LibEntry>) -> bool {
    ls.len() == es.len() && forall|k: int| 0 <= k < ls.len() ==> describes(#[trigger] ls[k], es[k])
}

/// Why a library list could not be read.
#[derive(Debug, PartialEq, Eq)]
pub enum LibraryListError {
    /// The document has no `libraries` array.
    NoLibraries,
    /// An entry of `libraries` is not an object.
    EntryNotObject,
    /// The document is not an object.
    NotAnObject,
}

/// NeoForge's reading of a library: an entry with a non-empty string `name`, its
/// `downloads.artifact` giving the string `sha1` and `url` (empty when absent).
pub open spec fn neoforge_entry(e: JsonModel) -> Option<LibEntry> {
    match jget(Some(e), "name"@) {
        Some(JsonModel::Str(n)) => if n.len() > 0 {
            let art = jget(jget(Some(e), "downloads"@), "artifact"@);
            Some(LibEntry { full: n, hash: str_or_empty(jget(art, "sha1"@)), url: str_or_empty(jget(art, "url"@)) })
        } else {
            None
        },
        _ => None,
    }
}

pub open spec fn neoforge_entries(items: Seq<JsonModel>) -> Seq<LibEntry>
    decreases items.len(),
{
    if items.len() == 0 {
        Seq::empty()
    } else {
        let rest = neoforge_entries(items.drop_last());
        match neoforge_entry(items.last()) {
            Some(e) => rest.push(e),
            None => rest,
        }
    }
}

pub open spec fn all_objects(items: Seq<JsonModel>) -> bool {
    forall|k: int| 0 <= k < items.len() ==> (#[trigger] items[k]) is Object
}

fn lib_info_of(full: String, hash: String, url: String) -> (r: LibInfo)
    ensures
        describes(r, LibEntry { full: full@, hash: hash@, url: url@ }),
{
    let mut info = LibInfo::new(full);
    info.hash = hash;
    info.url = url;
    info
}

/// The library list of the NeoForge installer: the libraries of a version file
/// or install profile, refused without a `libraries` array or with an entry that is no
/// object.
pub fn get_libraries_from_json(data: &JsonValue) -> (r: Result<Vec<LibInfo>, LibraryListError>)
    ensures
        match jget(Some(jview(*data)), "libraries"@) {
            Some(JsonModel::Array(items)) => if all_objects(items) {
                r is Ok && describes_all(r->Ok_0@, neoforge_entries(items))
            } else {
                r == Err::<Vec<LibInfo>, LibraryListError>(LibraryListError::EntryNotObject)
            },
            _ => r == Err::<Vec<LibInfo>, LibraryListError>(LibraryListError::NoLibraries),
        },
{
    let items = match get_member(data, "libraries") {
        Some(JsonValue::Array(items)) => items,
        _ => {
            return Err(LibraryListError::NoLibraries);
        },
    };
    let ghost all = items_view(items@);
    proof {
        lemma_items_view(items@);
    }
    let mut libs: Vec<LibInfo> = Vec::new();
    let mut i: usize = 0;
    while i < items.len()
        invariant
            i <= items.len(),
            all == items_view(items@),
            all.len() == items.len(),
            forall|k: int| 0 <= k < items.len() ==> #[trigger] all[k] == jview(items@[k]),
            jget(Some(jview(*data)), "libraries"@) == Some(JsonModel::Array(all)),
            all_objects(all.take(i as int)),
            describes_all(libs@, neoforge_entries(all.take(i as int))),
        decreases items.len() - i,
    {
        let item = &items[i];
        proof {
            assert(all.take(i + 1).drop_last() =~= all.take(i as int));
            assert(all.take(i + 1).last() == jview(*item));
        }
        match item {
            JsonValue::Object(_) => {},
            _ => {
                proof {
                    assert(!(all[i as int] is Object));
                }
                return Err(LibraryListError::EntryNotObject);
            },
        }
        match get_member(item, "name") {
            Some(JsonValue::Str(n)) => {
                if chars_of(n.as_str()).len() > 0 {
                    let art = get_in(get_member(item, "downloads"), "artifact");
                    let hash = str_or_empty_exec(get_in(art, "sha1"));
                    let url = str_or_empty_exec(get_in(art, "url"));
                    let info = lib_info_of(string_of(chars_of(n.as_str()).as_slice()), hash, url);
                    libs.push(info);
                }
            },
            _ => {},
        }
        i = i + 1;
    }
    proof {
        assert(all.take(items.len() as int) =~= all);
    }
    Ok(libs)
}

/// Cleanroom's reading of a library: an object entry whose `name` has a non-empty text;
/// when `downloads` and its `artifact` are objects, the texts of `sha1` and `url` (empty
/// when absent).
pub open spec fn cleanroom_entry(e: JsonModel) -> Option<LibEntry> {
    match e {
        JsonModel::Object(_) => {
            let n = text_or_empty(jget(Some(e), "name"@));
            if n.len() > 0 {
                let art = match jget(Some(e), "downloads"@) {
                    Some(JsonModel::Object(dms)) => match member_of(dms, "artifact"@) {
                        Some(JsonModel::Object(ams)) => Some(JsonModel::Object(ams)),
                        _ => None,
                    },
                    _ => None,
                };
                Some(LibEntry { full: n, hash: text_or_empty(jget(art, "sha1"@)), url: text_or_empty(jget(art, "url"@)) })
            } else {
                None
            }
        },
        _ => None,
    }
}

pub open spec fn cleanroom_entries(items: Seq<JsonModel>) -> Seq<LibEntry>
    decreases items.len(),
{
    if items.len() == 0 {
        Seq::empty()
    } else {
        let rest = cleanroom_entries(items.drop_last());
        match cleanroom_entry(items.last()) {
            Some(e) => rest.push(e),
            None => rest,
        }
    }
}

impl CleanroomInstaller {
    /// The libraries of a Cleanroom version file or install
    /// profile; a document that is not an object is refused, one without a `libraries`
    /// array has none.
    pub fn get_lib_infos_from_json(data: &JsonValue) -> (r: Result<Vec<LibInfo>, LibraryListError>)
        ensures
            !(jview(*data) is Object) ==> r == Err::<Vec<LibInfo>, LibraryListError>(LibraryListError::NotAnObject),
            jview(*data) is Object ==> r is Ok && describes_all(
                r->Ok_0@,
                match jget(Some(jview(*data)), "libraries"@) {
                    Some(JsonModel::Array(items)) => cleanroom_entries(items),
                    _ => Seq::empty(),
                },
            ),
    {
        match data {
            JsonValue::Object(_) => {},
            _ => {
                return Err(LibraryListError::NotAnObject);
            },
        }
        let items = match get_member(data, "libraries") {
            Some(JsonValue::Array(items)) => items,
            _ => {
                return Ok(Vec::new());
            },
        };
        let ghost all = items_view(items@);
        proof {
            lemma_items_view(items@);
        }
        let mut libs: Vec<LibInfo> = Vec::new();
        let mut i: usize = 0;
        while i < items.len()
            invariant
                i <= items.len(),
                all == items_view(items@),
                all.len() == items.len(),
                forall|k: int| 0 <= k < items.len() ==> #[trigger] all[k] == jview(items@[k]),
                describes_all(libs@, cleanroom_entries(all.take(i as int))),
            decreases items.len() - i,
        {
            let item = &items[i];
            proof {
                assert(all.take(i + 1).drop_last() =~= all.take(i as int));
                assert(all.take(i + 1).last() == jview(*item));
            }
            match item {
                JsonValue::Object(_) => {
                    let name = text_or_empty_exec(get_member(item, "name"));
                    if chars_of(name.as_str()).len() > 0 {
                        let art = match get_member(item, "downloads") {
                            Some(d) => match d {
                                JsonValue::Object(_) => match get_member(d, "artifact") {
                                    Some(a) => match a {
                                        JsonValue::Object(_) => Some(a),
                                        _ => None,
                                    },
                                    None => None,
                                },
                                _ => None,
                            },
                            None => None,
                        };
                        let hash = text_or_empty_exec(get_in(art, "sha1"));
                        let url = text_or_empty_exec(get_in(art, "url"));
                        libs.push(lib_info_of(name, hash, url));
                    }
                },
                _ => {},
            }
            i = i + 1;
        }
        proof {
            assert(all.take(items.len() as int) =~= all);
        }
        Ok(libs)
    }
}


// ---------------------------------------------------------------------------
// Game versions a loader supports
// ---------------------------------------------------------------------------

/// The non-empty string `version` of an entry of a `/game` answer.
pub open spec fn entry_version(e: JsonModel) -> Option<Seq<char>> {
    match jget(Some(e), "version"@) {
        Some(JsonModel::Str(v)) => if v.len() > 0 {
            Some(v)
        } else {
            None
        },
        _ => None,
    }
}

/// The versions named by the entries, each once, in order of first appearance.
pub open spec fn game_version_names(items: Seq<JsonModel>) -> Seq<Seq<char>>
    decreases items.len(),
{
    if items.len() == 0 {
        Seq::empty()
    } else {
        let rest = game_version_names(items.drop_last());
        match entry_version(items.last()) {
            Some(v) => if rest.contains(v) {
                rest
            } else {
                rest.push(v)
            },
            None => rest,
        }
    }
}

/// The game versions of a `/game` answer of a Fabric-style meta service: the set of non-empty `version` texts of the entries of a
/// top-level array (none when the answer is no array).
pub fn supported_game_versions(doc: &JsonValue) -> (r: Vec<String>)
    ensures
        r@.map_values(|t: String| t@) == match jview(*doc) {
            JsonModel::Array(items) => game_version_names(items),
            _ => Seq::empty(),
        },
{
    let items = match doc {
        JsonValue::Array(items) => items,
        _ => {
            let r: Vec<String> = Vec::new();
            proof {
                assert(r@.map_values(|t: String| t@) =~= Seq::<Seq<char>>::empty());
            }
            return r;
        },
    };
    let ghost all = items_view(items@);
    proof {
        lemma_items_view(items@);
    }
    let mut out: Vec<String> = Vec::new();
    let mut i: usize = 0;
    proof {
        assert(out@.map_values(|t: String| t@) =~= Seq::<Seq<char>>::empty());
        assert(all.take(0) =~= Seq::<JsonModel>::empty());
    }
    while i < items.len()
        invariant
            i <= items.len(),
            all == items_view(items@),
            all.len() == items.len(),
            forall|k: int| 0 <= k < items.len() ==> #[trigger] all[k] == jview(items@[k]),
            out@.map_values(|t: String| t@) == game_version_names(all.take(i as int)),
        decreases items.len() - i,
    {
        proof {
            assert(all.take(i + 1).drop_last() =~= all.take(i as int));
            assert(all.take(i + 1).last() == jview(items@[i as int]));
        }
        match get_member(&items[i], "version") {
            Some(JsonValue::Str(v)) => {
                let vc = chars_of(v.as_str());
                if vc.len() > 0 {
                    let mut seen = false;
                    let mut k: usize = 0;
                    while k < out.len()
                        invariant
                            k <= out.len(),
                            vc@ == v@,
                            seen == (exists|q: int| 0 <= q < k && out@[q]@ == v@),
                        decreases out.len() - k,
                    {
                        if seq_eq(chars_of(out[k].as_str()).as_slice(), vc.as_slice()) {
                            seen = true;
                        }
                        k = k + 1;
                    }
                    proof {
                        let names = out@.map_values(|t: String| t@);
                        if seen {
                            let q = choose|q: int| 0 <= q < out.len() && out@[q]@ == v@;
                            assert(names[q] == v@);
                        } else {
                            assert forall|q: int| 0 <= q < names.len() implies names[q] != v@ by {
                                assert(names[q] == out@[q]@);
                            }
                        }
                    }
                    if !seen {
                        let t = string_of(vc.as_slice());
                        let ghost before = out@;
                        out.push(t);
                        proof {
                            assert(out@.map_values(|t: String| t@) =~= before.map_values(|t: String| t@).push(v@));
                        }
                    }
                }
            },
            _ => {},
        }
        i = i + 1;
    }
    proof {
        assert(all.take(items.len() as int) =~= all);
    }
    out
}

} // verus!
