//! JSON documents as the installers handle them: the deep merge of version files and
//! the rewriting of a merged version's `id` and `inheritsFrom`.
use vstd::prelude::*;
use crate::text::{chars_of, push_all, seq_eq, string_of};

verus! {

/// A JSON value. Numbers keep their text; an object is its members, one per key.
#[derive(Debug, PartialEq)]
pub enum JsonValue {
    Null,
    Bool(bool),
    Number(String),
    Str(String),
    Array(Vec<JsonValue>),
    Object(Vec<JsonMember>),
}

/// A member of a JSON object.
#[derive(Debug, PartialEq)]
pub struct JsonMember {
    pub key: String,
    pub value: JsonValue,
}

/// The mathematical value of a JSON document.
pub ghost enum JsonModel {
    Null,
    Bool(bool),
    Number(Seq<char>),
    Str(Seq<char>),
    Array(Seq<JsonModel>),
    Object(Seq<MemberModel>),
}

pub ghost struct MemberModel {
    pub key: Seq<char>,
    pub value: JsonModel,
}

pub open spec fn jview(v: JsonValue) -> JsonModel
    decreases v,
{
    match v {
        JsonValue::Null => JsonModel::Null,
        JsonValue::Bool(b) => JsonModel::Bool(b),
        JsonValue::Number(n) => JsonModel::Number(n@),
        JsonValue::Str(s) => JsonModel::Str(s@),
        JsonValue::Array(items) => JsonModel::Array(items_view(items@)),
        JsonValue::Object(ms) => JsonModel::Object(members_view(ms@)),
    }
}

pub open spec fn items_view(s: Seq<JsonValue>) -> Seq<JsonModel>
    decreases s,
{
    if s.len() == 0 {
        Seq::empty()
    } else {
        items_view(s.drop_last()).push(jview(s.last()))
    }
}

pub open spec fn members_view(s: Seq<JsonMember>) -> Seq<MemberModel>
    decreases s,
{
    if s.len() == 0 {
        Seq::empty()
    } else {
        members_view(s.drop_last()).push(MemberModel { key: s.last().key@, value: jview(s.last().value) })
    }
}

/// Position of the member with the key, or -1.
pub open spec fn key_index(ms: Seq<MemberModel>, key: Seq<char>) -> int
    decreases ms.len(),
{
    if ms.len() == 0 {
        -1
    } else {
        let i = key_index(ms.drop_last(), key);
        if i >= 0 {
            i
        } else if ms.last().key == key {
            ms.len() - 1
        } else {
            -1
        }
    }
}

/// Source members merged into target members, one after the other.
pub open spec fn merge_members(tm: Seq<MemberModel>, sm: Seq<MemberModel>) -> Seq<MemberModel>
    decreases sm,
{
    if sm.len() == 0 {
        tm
    } else {
        put_member(merge_members(tm, sm.drop_last()), sm.last())
    }
}

/// A source member merged in: a new key is added at the end; for a key already there,
/// the two values are combined in place.
pub open spec fn put_member(acc: Seq<MemberModel>, m: MemberModel) -> Seq<MemberModel>
    decreases m,
{
    let i = key_index(acc, m.key);
    if i < 0 {
        acc.push(m)
    } else {
        acc.update(i, MemberModel { key: acc[i].key, value: combine(acc[i].value, m.value) })
    }
}

/// Two values under the same key: two objects merge recursively, two arrays are
/// concatenated (target items first), and otherwise the source value wins.
pub open spec fn combine(e: JsonModel, v: JsonModel) -> JsonModel
    decreases v,
{
    match v {
        JsonModel::Object(b) => match e {
            JsonModel::Object(a) => JsonModel::Object(merge_members(a, b)),
            _ => v,
        },
        JsonModel::Array(b) => match e {
            JsonModel::Array(a) => JsonModel::Array(a + b),
            _ => v,
        },
        _ => v,
    }
}

pub(crate) proof fn lemma_members_view(s: Seq<JsonMember>)
    ensures
        members_view(s).len() == s.len(),
        forall|k: int| 0 <= k < s.len() ==> #[trigger] members_view(s)[k] == (MemberModel { key: s[k].key@, value: jview(s[k].value) }),
    decreases s.len(),
{
    if s.len() > 0 {
        lemma_members_view(s.drop_last());
        assert forall|k: int| 0 <= k < s.len() - 1 implies #[trigger] s.drop_last()[k] == s[k] by {}
    }
}

pub(crate) proof fn lemma_members_push(s: Seq<JsonMember>, m: JsonMember)
    ensures
        members_view(s.push(m)) == members_view(s).push(MemberModel { key: m.key@, value: jview(m.value) }),
{
    assert(s.push(m).drop_last() =~= s);
}

pub(crate) proof fn lemma_items_view(s: Seq<JsonValue>)
    ensures
        items_view(s).len() == s.len(),
        forall|k: int| 0 <= k < s.len() ==> #[trigger] items_view(s)[k] == jview(s[k]),
    decreases s.len(),
{
    if s.len() > 0 {
        lemma_items_view(s.drop_last());
        assert forall|k: int| 0 <= k < s.len() - 1 implies #[trigger] s.drop_last()[k] == s[k] by {}
    }
}

proof fn lemma_key_index(ms: Seq<MemberModel>, key: Seq<char>)
    ensures
        -1 <= key_index(ms, key) < ms.len(),
        key_index(ms, key) >= 0 ==> ms[key_index(ms, key)].key == key,
        key_index(ms, key) >= 0 ==> forall|k: int| 0 <= k < key_index(ms, key) ==> (#[trigger] ms[k]).key != key,
        key_index(ms, key) < 0 ==> forall|k: int| 0 <= k < ms.len() ==> (#[trigger] ms[k]).key != key,
    decreases ms.len(),
{
    if ms.len() > 0 {
        lemma_key_index(ms.drop_last(), key);
        assert forall|k: int| 0 <= k < ms.len() - 1 implies #[trigger] ms[k] == ms.drop_last()[k] by {}
    }
}

pub(crate) fn find_key(ms: &Vec<JsonMember>, key: &[char]) -> (r: Option<usize>)
    ensures
        match r {
            Some(i) => i < ms.len() && i as int == key_index(members_view(ms@), key@),
            None => key_index(members_view(ms@), key@) < 0,
        },
{
    proof {
        lemma_members_view(ms@);
        lemma_key_index(members_view(ms@), key@);
    }
    let mut i: usize = 0;
    while i < ms.len()
        invariant
            i <= ms.len(),
            members_view(ms@).len() == ms.len(),
            forall|k: int| 0 <= k < ms.len() ==> #[trigger] members_view(ms@)[k] == (MemberModel { key: ms@[k].key@, value: jview(ms@[k].value) }),
            forall|k: int| 0 <= k < i ==> (#[trigger] ms@[k]).key@ != key@,
            -1 <= key_index(members_view(ms@), key@) < ms.len(),
            key_index(members_view(ms@), key@) >= 0 ==> members_view(ms@)[key_index(members_view(ms@), key@)].key == key@,
            key_index(members_view(ms@), key@) >= 0 ==> forall|k: int| 0 <= k < key_index(members_view(ms@), key@) ==> (#[trigger] members_view(ms@)[k]).key != key@,
            key_index(members_view(ms@), key@) < 0 ==> forall|k: int| 0 <= k < ms.len() ==> (#[trigger] members_view(ms@)[k]).key != key@,
        decreases ms.len() - i,
    {
        if seq_eq(chars_of(ms[i].key.as_str()).as_slice(), key) {
            proof {
                let j = key_index(members_view(ms@), key@);
                assert(members_view(ms@)[i as int].key == key@);
                if j >= 0 && j < i {
                    assert(members_view(ms@)[j].key == key@);
                }
            }
            return Some(i);
        }
        i = i + 1;
    }
    proof {
        let j = key_index(members_view(ms@), key@);
        if j >= 0 {
            assert(members_view(ms@)[j].key == key@);
        }
    }
    None
}

#[verifier::loop_isolation(false)]
fn merge_members_exec(tm: Vec<JsonMember>, sm: Vec<JsonMember>) -> (r: Vec<JsonMember>)
    ensures
        members_view(r@) == merge_members(members_view(tm@), members_view(sm@)),
    decreases sm,
{
    let ghost entry = sm;
    let ghost all = sm@;
    let ghost t0 = members_view(tm@);
    assert(all.len() == sm.len());
    let mut acc = tm;
    let mut rest = sm;
    let mut i: usize = 0;
    proof {
        assert(all.take(0) =~= Seq::<JsonMember>::empty());
        assert(members_view(all.take(0)) =~= Seq::<MemberModel>::empty());
        assert(rest@ =~= all.skip(0));
    }
    while rest.len() > 0
        invariant
            all.len() <= usize::MAX,
            entry@ == all,
            i + rest@.len() == all.len(),
            rest@ == all.skip(i as int),
            members_view(acc@) == merge_members(t0, members_view(all.take(i as int))),
        decreases rest@.len(),
    {
        let m = rest.remove(0);
        proof {
            assert(m == all[i as int]);
            assert(all.take(i + 1).drop_last() =~= all.take(i as int));
            assert(all.take(i + 1).last() == m);
            assert(rest@ =~= all.skip(i + 1));
            assert(members_view(all.take(i + 1)).drop_last() == members_view(all.take(i as int)));
            assert(decreases_to!(entry => entry@));
            assert(decreases_to!(entry@ => entry@[i as int]));
        }
        put_member_exec(&mut acc, m);
        i = i + 1;
    }
    proof {
        assert(all.take(i as int) =~= all);
    }
    acc
}

fn put_member_exec(acc: &mut Vec<JsonMember>, m: JsonMember)
    ensures
        members_view(final(acc)@) == put_member(members_view(old(acc)@), MemberModel { key: m.key@, value: jview(m.value) }),
    decreases m,
{
    let ghost before = acc@;
    let ghost mm = MemberModel { key: m.key@, value: jview(m.value) };
    proof {
        lemma_members_view(before);
    }
    let key = chars_of(m.key.as_str());
    match find_key(acc, key.as_slice()) {
        None => {
            acc.push(m);
            proof {
                lemma_members_view(acc@);
                assert(members_view(acc@) =~= members_view(before).push(mm));
            }
        },
        Some(i) => {
            let JsonMember { key: mkey, value: mvalue } = m;
            let old_member = acc.remove(i);
            let JsonMember { key: okey, value: ovalue } = old_member;
            proof {
                assert(before[i as int].key == okey && before[i as int].value == ovalue);
                assert(decreases_to!(m => m.value));
            }
            let combined = combine_exec(ovalue, mvalue);
            acc.insert(i, JsonMember { key: okey, value: combined });
            proof {
                lemma_members_view(acc@);
                assert(acc@ =~= before.update(i as int, JsonMember { key: before[i as int].key, value: combined }));
                assert(members_view(acc@) =~= members_view(before).update(
                    i as int,
                    MemberModel { key: members_view(before)[i as int].key, value: combine(members_view(before)[i as int].value, mm.value) },
                ));
            }
        },
    }
}

fn combine_exec(e: JsonValue, v: JsonValue) -> (r: JsonValue)
    ensures
        jview(r) == combine(jview(e), jview(v)),
    decreases v,
{
    match v {
        JsonValue::Object(b) => match e {
            JsonValue::Object(a) => {
                proof {
                    assert(decreases_to!(v => b));
                }
                JsonValue::Object(merge_members_exec(a, b))
            },
            _ => JsonValue::Object(b),
        },
        JsonValue::Array(b) => match e {
            JsonValue::Array(a) => {
                let ghost a0 = a@;
                let ghost b0 = b@;
                let mut out = a;
                let mut rest = b;
                let mut i: usize = 0;
                assert(b0.len() == rest.len());
                proof {
                    assert(out@ =~= a0 + b0.take(0));
                    assert(rest@ =~= b0.skip(0));
                }
                while rest.len() > 0
                    invariant
                        b0.len() <= usize::MAX,
                        i + rest@.len() == b0.len(),
                        rest@ == b0.skip(i as int),
                        out@ == a0 + b0.take(i as int),
                    decreases rest@.len(),
                {
                    let x = rest.remove(0);
                    proof {
                        assert(x == b0[i as int]);
                        assert(rest@ =~= b0.skip(i + 1));
                    }
                    out.push(x);
                    proof {
                        assert(out@ =~= a0 + b0.take(i + 1));
                    }
                    i = i + 1;
                }
                proof {
                    assert(b0.take(i as int) =~= b0);
                    lemma_items_view(a0);
                    lemma_items_view(b0);
                    lemma_items_view(out@);
                    assert(items_view(out@) =~= items_view(a0) + items_view(b0));
                }
                JsonValue::Array(out)
            },
            _ => JsonValue::Array(b),
        },
        other => other,
    }
}

/// The deep merge of two documents: two objects merge member by member; otherwise the
/// source document replaces the target.
pub open spec fn merged_json(t: JsonModel, s: JsonModel) -> JsonModel {
    match (t, s) {
        (JsonModel::Object(a), JsonModel::Object(b)) => JsonModel::Object(merge_members(a, b)),
        _ => s,
    }
}

/// Merges two parsed version documents: both must be objects (`None` stands for the empty
/// text the merge gives otherwise); the merged document combines them member by member.
pub fn merge_json(main_version_json: JsonValue, merged_version_json: JsonValue) -> (r: Option<JsonValue>)
    ensures
        match (jview(main_version_json), jview(merged_version_json)) {
            (JsonModel::Object(a), JsonModel::Object(b)) => r is Some && jview(r->0) == JsonModel::Object(merge_members(a, b)),
            _ => r is None,
        },
{
    match main_version_json {
        JsonValue::Object(a) => match merged_version_json {
            JsonValue::Object(b) => Some(JsonValue::Object(merge_members_exec(a, b))),
            _ => None,
        },
        _ => None,
    }
}

/// The members without the one under `key`.
pub open spec fn without_key(ms: Seq<MemberModel>, key: Seq<char>) -> Seq<MemberModel>
    decreases ms.len(),
{
    if ms.len() == 0 {
        ms
    } else {
        let r = without_key(ms.drop_last(), key);
        if ms.last().key == key {
            r
        } else {
            r.push(ms.last())
        }
    }
}

/// The members with `key` set to `v`: replaced in place, or added at the end.
pub open spec fn with_key(ms: Seq<MemberModel>, key: Seq<char>, v: JsonModel) -> Seq<MemberModel> {
    let i = key_index(ms, key);
    if i < 0 {
        ms.push(MemberModel { key, value: v })
    } else {
        ms.update(i, MemberModel { key, value: v })
    }
}

/// A merged version's members: without `inheritsFrom`, and with `id` set when one is given.
pub open spec fn version_members(ms: Seq<MemberModel>, id: Option<Seq<char>>) -> Seq<MemberModel> {
    let w = without_key(ms, "inheritsFrom"@);
    match id {
        Some(i) => with_key(w, "id"@, JsonModel::Str(i)),
        None => w,
    }
}

fn without_key_exec(ms: Vec<JsonMember>, key: &[char]) -> (r: Vec<JsonMember>)
    ensures
        members_view(r@) == without_key(members_view(ms@), key@),
{
    let ghost all = ms@;
    assert(all.len() == ms.len());
    let mut rest = ms;
    let mut kept: Vec<JsonMember> = Vec::new();
    let mut i: usize = 0;
    proof {
        assert(all.take(0) =~= Seq::<JsonMember>::empty());
        assert(members_view(all.take(0)) =~= Seq::<MemberModel>::empty());
        assert(rest@ =~= all.skip(0));
    }
    while rest.len() > 0
        invariant
            all.len() <= usize::MAX,
            i + rest@.len() == all.len(),
            rest@ == all.skip(i as int),
            members_view(kept@) == without_key(members_view(all.take(i as int)), key@),
        decreases rest@.len(),
    {
        let m = rest.remove(0);
        proof {
            assert(m == all[i as int]);
            assert(all.take(i + 1).drop_last() =~= all.take(i as int));
            assert(all.take(i + 1).last() == m);
            assert(rest@ =~= all.skip(i + 1));
        }
        let ghost prev = kept@;
        let ghost mm = MemberModel { key: m.key@, value: jview(m.value) };
        proof {
            assert(members_view(all.take(i + 1)) == members_view(all.take(i as int)).push(mm));
            assert(members_view(all.take(i + 1)).drop_last() =~= members_view(all.take(i as int)));
            assert(members_view(all.take(i + 1)).last() == mm);
        }
        if !seq_eq(chars_of(m.key.as_str()).as_slice(), key) {
            kept.push(m);
            proof {
                assert(kept@.drop_last() =~= prev);
                assert(members_view(kept@) == members_view(prev).push(mm));
            }
        }
        i = i + 1;
    }
    proof {
        assert(all.take(i as int) =~= all);
    }
    kept
}

fn with_key_exec(ms: &mut Vec<JsonMember>, key: &str, v: JsonValue)
    ensures
        members_view(final(ms)@) == with_key(members_view(old(ms)@), key@, jview(v)),
{
    let ghost before = ms@;
    proof {
        lemma_members_view(before);
    }
    let kc = chars_of(key);
    match find_key(ms, kc.as_slice()) {
        None => {
            ms.push(JsonMember { key: String::from_str(key), value: v });
            proof {
                lemma_members_view(ms@);
                assert(members_view(ms@) =~= members_view(before).push(MemberModel { key: key@, value: jview(v) }));
            }
        },
        Some(i) => {
            let m = JsonMember { key: String::from_str(key), value: v };
            ms.set(i, m);
            proof {
                lemma_members_view(ms@);
                assert(members_view(ms@) =~= members_view(before).update(i as int, MemberModel { key: key@, value: jview(v) }));
            }
        },
    }
}

/// Merges a version document over the inherited one: the merge of the two objects (`None` when
/// either is not one), without `inheritsFrom`, with `id` set when a version name is given.
pub fn merge_version_json(
    main_version_json: JsonValue,
    merged_version_json: JsonValue,
    default_version_id: Option<&str>,
) -> (r: Option<JsonValue>)
    ensures
        match (jview(main_version_json), jview(merged_version_json)) {
            (JsonModel::Object(a), JsonModel::Object(b)) => r is Some && jview(r->0) == JsonModel::Object(
                version_members(
                    merge_members(a, b),
                    match default_version_id {
                        Some(i) => Some(i@),
                        None => None,
                    },
                ),
            ),
            _ => r is None,
        },
{
    let merged = match merge_json(main_version_json, merged_version_json) {
        Some(JsonValue::Object(ms)) => ms,
        _ => {
            return None;
        },
    };
    let inherits = chars_of("inheritsFrom");
    let mut ms = without_key_exec(merged, inherits.as_slice());
    match default_version_id {
        Some(id) => with_key_exec(&mut ms, "id", JsonValue::Str(String::from_str(id))),
        None => {},
    }
    Some(JsonValue::Object(ms))
}

proof fn lemma_put_member_keys(acc: Seq<MemberModel>, m: MemberModel, k: Seq<char>)
    ensures
        key_index(put_member(acc, m), k) >= 0 <==> (key_index(acc, k) >= 0 || m.key == k),
{
    lemma_key_index(acc, k);
    lemma_key_index(acc, m.key);
    let r = put_member(acc, m);
    lemma_key_index(r, k);
    let i = key_index(acc, m.key);
    if i < 0 {
        if key_index(acc, k) >= 0 {
            assert(r[key_index(acc, k)] == acc[key_index(acc, k)]);
        }
        if m.key == k {
            assert(r[acc.len() as int] == m);
        }
        if key_index(r, k) >= 0 && key_index(acc, k) < 0 {
            let j = key_index(r, k);
            if j < acc.len() {
                assert(r[j] == acc[j]);
            }
        }
    } else {
        if key_index(acc, k) >= 0 {
            let j = key_index(acc, k);
            assert(r[j].key == acc[j].key);
        }
        if m.key == k {
            assert(r[i].key == acc[i].key);
        }
        if key_index(r, k) >= 0 {
            let j = key_index(r, k);
            assert(r[j].key == acc[j].key);
        }
    }
}

/// Merging loses no key: a key is in the merged object exactly when it is in the target
/// or in the source object.
pub proof fn lemma_merge_keeps_keys(tm: Seq<MemberModel>, sm: Seq<MemberModel>, k: Seq<char>)
    ensures
        key_index(merge_members(tm, sm), k) >= 0 <==> (key_index(tm, k) >= 0 || key_index(sm, k) >= 0),
    decreases sm.len(),
{
    if sm.len() > 0 {
        lemma_merge_keeps_keys(tm, sm.drop_last(), k);
        lemma_put_member_keys(merge_members(tm, sm.drop_last()), sm.last(), k);
    }
}

/// A document with its `id` set (`meta["id"] = id`): an object gets the member, null
/// becomes an object holding only it.
pub open spec fn with_version_id(meta: JsonModel, id: Seq<char>) -> JsonModel {
    match meta {
        JsonModel::Object(ms) => JsonModel::Object(with_key(ms, "id"@, JsonModel::Str(id))),
        _ => JsonModel::Object(seq![MemberModel { key: "id"@, value: JsonModel::Str(id) }]),
    }
}

/// Sets the `id` of a loader profile to the version name it is installed under.
pub fn set_version_id(meta: JsonValue, version_id: &str) -> (r: JsonValue)
    requires
        meta is Object || meta is Null,
    ensures
        jview(r) == with_version_id(jview(meta), version_id@),
{
    match meta {
        JsonValue::Object(ms) => {
            let mut ms = ms;
            with_key_exec(&mut ms, "id", JsonValue::Str(String::from_str(version_id)));
            JsonValue::Object(ms)
        },
        _ => {
            let mut ms: Vec<JsonMember> = Vec::new();
            ms.push(JsonMember { key: String::from_str("id"), value: JsonValue::Str(String::from_str(version_id)) });
            proof {
                lemma_members_view(ms@);
                assert(members_view(ms@) =~= seq![MemberModel { key: "id"@, value: JsonModel::Str(version_id@) }]);
            }
            JsonValue::Object(ms)
        },
    }
}

pub open spec fn str_member(key: Seq<char>, v: Seq<char>) -> MemberModel {
    MemberModel { key, value: JsonModel::Str(v) }
}

pub open spec fn name_object(name: Seq<char>) -> JsonModel {
    JsonModel::Object(seq![str_member("name"@, name)])
}

/// The version file of an OptiFine install: it inherits the game version, launches
/// through LaunchWrapper with OptiFine's tweaker, carries the given time twice, and lists
/// the base version's libraries followed by OptiFine's and LaunchWrapper's.
pub open spec fn optifine_version(
    version_id: Seq<char>,
    game_version: Seq<char>,
    edition: Seq<char>,
    patch: Seq<char>,
    base_libraries: Seq<JsonModel>,
    now: Seq<char>,
) -> JsonModel {
    JsonModel::Object(
        seq![
            str_member("id"@, version_id),
            str_member("inheritsFrom"@, game_version),
            str_member("type"@, "release"@),
            str_member("time"@, now),
            str_member("releaseTime"@, now),
            str_member("mainClass"@, "net.minecraft.launchwrapper.Launch"@),
            str_member("minecraftArguments"@, "--tweakClass optifine.OptiFineTweaker"@),
            MemberModel {
                key: "libraries"@,
                value: JsonModel::Array(
                    base_libraries + seq![
                        name_object("optifine:OptiFine:"@ + game_version + seq!['_'] + edition + seq!['_'] + patch),
                        name_object("net.minecraft:launchwrapper:1.12"@),
                    ],
                ),
            },
        ],
    )
}

fn str_member_exec(key: &str, v: &str) -> (r: JsonMember)
    ensures
        r.key@ == key@,
        jview(r.value) == JsonModel::Str(v@),
{
    JsonMember { key: String::from_str(key), value: JsonValue::Str(String::from_str(v)) }
}

fn name_object_exec(name: String) -> (r: JsonValue)
    ensures
        jview(r) == name_object(name@),
{
    let mut ms: Vec<JsonMember> = Vec::new();
    ms.push(JsonMember { key: String::from_str("name"), value: JsonValue::Str(name) });
    proof {
        lemma_members_view(ms@);
        assert(members_view(ms@) =~= seq![str_member("name"@, name@)]);
    }
    JsonValue::Object(ms)
}

/// The version document of the OptiFine installer, before any merge with the inherited
/// version: `base_libraries` are the `libraries` of the game version's file (none when it
/// has no such array), `now` the install time as text.
pub fn optifine_version_json(
    version_id: &str,
    game_version: &str,
    edition: &str,
    patch: &str,
    base_libraries: Option<Vec<JsonValue>>,
    now: &str,
) -> (r: JsonValue)
    ensures
        jview(r) == optifine_version(
            version_id@,
            game_version@,
            edition@,
            patch@,
            match base_libraries {
                Some(l) => items_view(l@),
                None => Seq::empty(),
            },
            now@,
        ),
{
    let mut libs: Vec<JsonValue> = match base_libraries {
        Some(l) => l,
        None => Vec::new(),
    };
    let ghost base = libs@;
    let mut name = chars_of("optifine:OptiFine:");
    push_all(&mut name, chars_of(game_version).as_slice());
    name.push('_');
    push_all(&mut name, chars_of(edition).as_slice());
    name.push('_');
    push_all(&mut name, chars_of(patch).as_slice());
    let o1 = name_object_exec(string_of(name.as_slice()));
    let o2 = name_object_exec(String::from_str("net.minecraft:launchwrapper:1.12"));
    let ghost g1 = o1;
    let ghost g2 = o2;
    libs.push(o1);
    libs.push(o2);
    assert(libs@ =~= base.push(g1).push(g2));
    let mut ms: Vec<JsonMember> = Vec::new();
    ms.push(str_member_exec("id", version_id));
    ms.push(str_member_exec("inheritsFrom", game_version));
    ms.push(str_member_exec("type", "release"));
    ms.push(str_member_exec("time", now));
    ms.push(str_member_exec("releaseTime", now));
    ms.push(str_member_exec("mainClass", "net.minecraft.launchwrapper.Launch"));
    ms.push(str_member_exec("minecraftArguments", "--tweakClass optifine.OptiFineTweaker"));
    let ghost lib_items = libs@;
    ms.push(JsonMember { key: String::from_str("libraries"), value: JsonValue::Array(libs) });
    proof {
        lemma_items_view(base);
        lemma_items_view(lib_items);
        lemma_members_view(ms@);
        let nm = "optifine:OptiFine:"@ + game_version@ + seq!['_'] + edition@ + seq!['_'] + patch@;
        assert(name@ =~= nm);
        assert(jview(g1) == name_object(nm));
        assert(lib_items[base.len() as int] == g1);
        assert(lib_items[base.len() as int + 1] == g2);
        assert forall|k: int| 0 <= k < base.len() implies #[trigger] items_view(lib_items)[k] == items_view(base)[k] by {
            assert(lib_items[k] == base[k]);
        }
        assert(items_view(lib_items) =~= items_view(base) + seq![
            name_object("optifine:OptiFine:"@ + game_version@ + seq!['_'] + edition@ + seq!['_'] + patch@),
            name_object("net.minecraft:launchwrapper:1.12"@),
        ]);
        assert(members_view(ms@) =~= seq![
            str_member("id"@, version_id@),
            str_member("inheritsFrom"@, game_version@),
            str_member("type"@, "release"@),
            str_member("time"@, now@),
            str_member("releaseTime"@, now@),
            str_member("mainClass"@, "net.minecraft.launchwrapper.Launch"@),
            str_member("minecraftArguments"@, "--tweakClass optifine.OptiFineTweaker"@),
            MemberModel {
                key: "libraries"@,
                value: JsonModel::Array(items_view(lib_items)),
            },
        ]);
    }
    JsonValue::Object(ms)
}

/// Why a loader's version file could not be built.
#[derive(Debug, PartialEq, Eq)]
pub enum VersionJsonError {
    /// The installer's version file is not an object.
    NotAnObject,
    /// The game's version file and the loader's could not be merged.
    MergeFailed,
}

/// The installer's version file named after the install and inheriting the game version
/// (a document that is not an object is kept as it is).
pub open spec fn stamped(v: JsonModel, id: Seq<char>, game_version: Seq<char>) -> JsonModel {
    match v {
        JsonModel::Object(ms) => JsonModel::Object(
            with_key(with_key(ms, "id"@, JsonModel::Str(id)), "inheritsFrom"@, JsonModel::Str(game_version)),
        ),
        _ => v,
    }
}

/// The version file a Forge-family install writes: the stamped installer file; when the
/// game's own version file is given, the two merged (without `inheritsFrom`, named after
/// the install) with `clientVersion` set to the game version, or nothing when they cannot
/// be merged.
pub open spec fn loader_version(v: JsonModel, id: Seq<char>, game_version: Seq<char>, inherits: Option<JsonModel>) -> Option<JsonModel> {
    let st = stamped(v, id, game_version);
    match inherits {
        None => Some(st),
        Some(inh) => match (inh, st) {
            (JsonModel::Object(a), JsonModel::Object(b)) => Some(
                JsonModel::Object(
                    with_key(version_members(merge_members(a, b), Some(id)), "clientVersion"@, JsonModel::Str(game_version)),
                ),
            ),
            _ => None,
        },
    }
}

/// The version file of a Forge, NeoForge or Cleanroom install (see `loader_version`);
/// with `require_object`, an installer version file that is not an object is refused.
pub fn loader_version_json(
    version_data: JsonValue,
    version_id: &str,
    game_version: &str,
    inherits_from: Option<JsonValue>,
    require_object: bool,
) -> (r: Result<JsonValue, VersionJsonError>)
    ensures
        require_object && !(jview(version_data) is Object) ==> r == Err::<JsonValue, VersionJsonError>(VersionJsonError::NotAnObject),
        !(require_object && !(jview(version_data) is Object)) ==> match loader_version(
            jview(version_data),
            version_id@,
            game_version@,
            match inherits_from {
                Some(i) => Some(jview(i)),
                None => None,
            },
        ) {
            Some(m) => r is Ok && jview(r->Ok_0) == m,
            None => r == Err::<JsonValue, VersionJsonError>(VersionJsonError::MergeFailed),
        },
{
    let st = match version_data {
        JsonValue::Object(ms) => {
            let mut ms = ms;
            with_key_exec(&mut ms, "id", JsonValue::Str(String::from_str(version_id)));
            with_key_exec(&mut ms, "inheritsFrom", JsonValue::Str(String::from_str(game_version)));
            JsonValue::Object(ms)
        },
        other => {
            if require_object {
                return Err(VersionJsonError::NotAnObject);
            }
            other
        },
    };
    match inherits_from {
        None => Ok(st),
        Some(inh) => match merge_version_json(inh, st, Some(version_id)) {
            Some(JsonValue::Object(ms)) => {
                let mut ms = ms;
                with_key_exec(&mut ms, "clientVersion", JsonValue::Str(String::from_str(game_version)));
                Ok(JsonValue::Object(ms))
            },
            _ => Err(VersionJsonError::MergeFailed),
        },
    }
}

/// `data.BINPATCH.client` of an install profile set to the text: the profile, its `data`
/// and `data.BINPATCH` must be objects (and, with `require_existing`, `client` must be
/// there already); otherwise nothing.
pub open spec fn with_binpatch(p: JsonModel, text: Seq<char>, require_existing: bool) -> Option<JsonModel> {
    match p {
        JsonModel::Object(ms) => {
            let i = key_index(ms, "data"@);
            if i < 0 {
                None
            } else {
                match ms[i].value {
                    JsonModel::Object(dms) => {
                        let j = key_index(dms, "BINPATCH"@);
                        if j < 0 {
                            None
                        } else {
                            match dms[j].value {
                                JsonModel::Object(bms) => if require_existing && key_index(bms, "client"@) < 0 {
                                    None
                                } else {
                                    let b2 = JsonModel::Object(with_key(bms, "client"@, JsonModel::Str(text)));
                                    let d2 = JsonModel::Object(dms.update(j, MemberModel { key: dms[j].key, value: b2 }));
                                    Some(JsonModel::Object(ms.update(i, MemberModel { key: ms[i].key, value: d2 })))
                                },
                                _ => None,
                            }
                        }
                    },
                    _ => None,
                }
            }
        },
        _ => None,
    }
}

/// Sets `data.BINPATCH.client` of an install profile (see `with_binpatch`).
pub fn set_binpatch_client(profile: JsonValue, text: &str, require_existing: bool) -> (r: Option<JsonValue>)
    ensures
        match (r, with_binpatch(jview(profile), text@, require_existing)) {
            (Some(a), Some(b)) => jview(a) == b,
            (None, None) => true,
            _ => false,
        },
{
    let mut ms = match profile {
        JsonValue::Object(ms) => ms,
        _ => {
            return None;
        },
    };
    proof {
        lemma_members_view(ms@);
    }
    let i = match find_key(&ms, chars_of("data").as_slice()) {
        Some(i) => i,
        None => {
            return None;
        },
    };
    let ghost ms0 = ms@;
    let old_data = ms.remove(i);
    let JsonMember { key: dkey, value: dvalue } = old_data;
    let mut dms = match dvalue {
        JsonValue::Object(dms) => dms,
        _ => {
            return None;
        },
    };
    let ghost dms0 = dms@;
    proof {
        lemma_members_view(dms0);
    }
    let j = match find_key(&dms, chars_of("BINPATCH").as_slice()) {
        Some(j) => j,
        None => {
            return None;
        },
    };
    let old_b = dms.remove(j);
    let JsonMember { key: bkey, value: bvalue } = old_b;
    let mut bms = match bvalue {
        JsonValue::Object(bms) => bms,
        _ => {
            return None;
        },
    };
    let ghost bms0 = bms@;
    if require_existing {
        match find_key(&bms, chars_of("client").as_slice()) {
            Some(_) => {},
            None => {
                return None;
            },
        }
    }
    with_key_exec(&mut bms, "client", JsonValue::Str(String::from_str(text)));
    let ghost b2 = JsonValue::Object(bms);
    dms.insert(j, JsonMember { key: bkey, value: JsonValue::Object(bms) });
    let ghost d2 = dms@;
    ms.insert(i, JsonMember { key: dkey, value: JsonValue::Object(dms) });
    proof {
        assert(d2 =~= dms0.update(j as int, JsonMember { key: bkey, value: b2 }));
        lemma_members_view(d2);
        lemma_members_view(ms@);
        let bm2 = JsonModel::Object(with_key(members_view(bms0), "client"@, JsonModel::Str(text@)));
        assert(jview(b2) == bm2);
        assert(members_view(d2) =~= members_view(dms0).update(j as int, MemberModel { key: members_view(dms0)[j as int].key, value: bm2 }));
        let dm2 = JsonModel::Object(members_view(d2));
        assert(members_view(ms@) =~= members_view(ms0).update(i as int, MemberModel { key: members_view(ms0)[i as int].key, value: dm2 }));
    }
    Some(JsonValue::Object(ms))
}

} // verus!
