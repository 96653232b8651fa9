use qomicex_core::json::{
    loader_version_json, merge_json, merge_version_json, optifine_version_json, set_binpatch_client,
    set_version_id, JsonMember, JsonValue, VersionJsonError,
};

fn st(x: &str) -> JsonValue {
    JsonValue::Str(x.to_string())
}

fn num(x: &str) -> JsonValue {
    JsonValue::Number(x.to_string())
}

fn obj(members: Vec<(&str, JsonValue)>) -> JsonValue {
    JsonValue::Object(members.into_iter().map(|(k, v)| JsonMember { key: k.to_string(), value: v }).collect())
}

#[test]
fn merge_json_combines_objects_member_by_member() {
    let main = obj(vec![
        ("a", num("1")),
        ("o", obj(vec![("x", st("1"))])),
        ("arr", JsonValue::Array(vec![num("1")])),
    ]);
    let merged = obj(vec![
        ("b", JsonValue::Bool(true)),
        ("o", obj(vec![("y", st("2"))])),
        ("arr", JsonValue::Array(vec![num("2")])),
        ("a", st("s")),
    ]);
    let expected = obj(vec![
        ("a", st("s")),
        ("o", obj(vec![("x", st("1")), ("y", st("2"))])),
        ("arr", JsonValue::Array(vec![num("1"), num("2")])),
        ("b", JsonValue::Bool(true)),
    ]);
    assert_eq!(merge_json(main, merged), Some(expected));
}

#[test]
fn merge_json_object_replaces_scalar_and_nested_objects_merge() {
    let main = obj(vec![("k", num("3")), ("n", obj(vec![("deep", obj(vec![("p", st("q"))]))]))]);
    let merged = obj(vec![("k", obj(vec![("z", JsonValue::Null)])), ("n", obj(vec![("deep", obj(vec![("r", st("t"))]))]))]);
    let expected = obj(vec![
        ("k", obj(vec![("z", JsonValue::Null)])),
        ("n", obj(vec![("deep", obj(vec![("p", st("q")), ("r", st("t"))]))])),
    ]);
    assert_eq!(merge_json(main, merged), Some(expected));
}

#[test]
fn merge_json_refuses_non_objects() {
    assert_eq!(merge_json(JsonValue::Array(vec![]), obj(vec![])), None);
    assert_eq!(merge_json(obj(vec![]), st("x")), None);
    assert_eq!(merge_json(JsonValue::Null, JsonValue::Null), None);
}

#[test]
fn merge_version_json_drops_inherits_from_and_names_the_version() {
    let base = obj(vec![("id", st("1.20.1")), ("libraries", JsonValue::Array(vec![st("a")]))]);
    let loader = obj(vec![
        ("inheritsFrom", st("1.20.1")),
        ("id", st("forge-47")),
        ("libraries", JsonValue::Array(vec![st("b")])),
    ]);
    let expected = obj(vec![("id", st("my-forge")), ("libraries", JsonValue::Array(vec![st("a"), st("b")]))]);
    assert_eq!(merge_version_json(base, loader, Some("my-forge")), Some(expected));
}

#[test]
fn merge_version_json_without_name_keeps_the_merged_id() {
    let base = obj(vec![("id", st("1.20.1"))]);
    let loader = obj(vec![("id", st("forge-47")), ("inheritsFrom", st("1.20.1"))]);
    assert_eq!(merge_version_json(base, loader, None), Some(obj(vec![("id", st("forge-47"))])));
    assert_eq!(merge_version_json(num("1"), obj(vec![]), None), None);
}

#[test]
fn set_version_id_on_object_and_null() {
    assert_eq!(
        set_version_id(obj(vec![("mainClass", st("M")), ("id", st("old"))]), "new"),
        obj(vec![("mainClass", st("M")), ("id", st("new"))])
    );
    assert_eq!(set_version_id(obj(vec![("a", num("1"))]), "v"), obj(vec![("a", num("1")), ("id", st("v"))]));
    assert_eq!(set_version_id(JsonValue::Null, "v"), obj(vec![("id", st("v"))]));
}

#[test]
fn optifine_version_file_lists_libraries() {
    let r = optifine_version_json("1.20.1-OptiFine", "1.20.1", "HD_U", "I6", Some(vec![st("base")]), "2024-01-01T00:00:00");
    let expected = obj(vec![
        ("id", st("1.20.1-OptiFine")),
        ("inheritsFrom", st("1.20.1")),
        ("type", st("release")),
        ("time", st("2024-01-01T00:00:00")),
        ("releaseTime", st("2024-01-01T00:00:00")),
        ("mainClass", st("net.minecraft.launchwrapper.Launch")),
        ("minecraftArguments", st("--tweakClass optifine.OptiFineTweaker")),
        (
            "libraries",
            JsonValue::Array(vec![
                st("base"),
                obj(vec![("name", st("optifine:OptiFine:1.20.1_HD_U_I6"))]),
                obj(vec![("name", st("net.minecraft:launchwrapper:1.12"))]),
            ]),
        ),
    ]);
    assert_eq!(r, expected);
}

#[test]
fn loader_version_json_stamps_and_merges() {
    let data = obj(vec![("id", st("forge-x")), ("mainClass", st("M"))]);
    let alone = loader_version_json(data, "Forge 1.20.1", "1.20.1", None, true);
    assert_eq!(
        alone,
        Ok(obj(vec![("id", st("Forge 1.20.1")), ("mainClass", st("M")), ("inheritsFrom", st("1.20.1"))]))
    );

    let data = obj(vec![("id", st("forge-x")), ("arguments", obj(vec![("game", JsonValue::Array(vec![st("--b")]))]))]);
    let base = obj(vec![("id", st("1.20.1")), ("arguments", obj(vec![("game", JsonValue::Array(vec![st("--a")]))]))]);
    let merged = loader_version_json(data, "Forge 1.20.1", "1.20.1", Some(base), true);
    assert_eq!(
        merged,
        Ok(obj(vec![
            ("id", st("Forge 1.20.1")),
            ("arguments", obj(vec![("game", JsonValue::Array(vec![st("--a"), st("--b")]))])),
            ("clientVersion", st("1.20.1")),
        ]))
    );
}

#[test]
fn loader_version_json_errors() {
    assert_eq!(loader_version_json(st("x"), "v", "1.20.1", None, true), Err(VersionJsonError::NotAnObject));
    assert_eq!(loader_version_json(st("x"), "v", "1.20.1", None, false), Ok(st("x")));
    assert_eq!(
        loader_version_json(obj(vec![]), "v", "1.20.1", Some(JsonValue::Array(vec![])), false),
        Err(VersionJsonError::MergeFailed)
    );
}

#[test]
fn binpatch_client_is_set_inside_data() {
    let profile = obj(vec![
        ("profile", st("forge")),
        ("data", obj(vec![("BINPATCH", obj(vec![("client", st("old")), ("server", st("s"))]))])),
    ]);
    let expected = obj(vec![
        ("profile", st("forge")),
        ("data", obj(vec![("BINPATCH", obj(vec![("client", st("\"/p/client.lzma\"")), ("server", st("s"))]))])),
    ]);
    assert_eq!(set_binpatch_client(profile, "\"/p/client.lzma\"", true), Some(expected));
}

#[test]
fn binpatch_client_needs_the_structure() {
    let no_client = obj(vec![("data", obj(vec![("BINPATCH", obj(vec![("server", st("s"))]))]))]);
    assert_eq!(set_binpatch_client(no_client, "t", true), None);
    let no_client = obj(vec![("data", obj(vec![("BINPATCH", obj(vec![("server", st("s"))]))]))]);
    assert_eq!(
        set_binpatch_client(no_client, "t", false),
        Some(obj(vec![("data", obj(vec![("BINPATCH", obj(vec![("server", st("s")), ("client", st("t"))]))]))]))
    );
    assert_eq!(set_binpatch_client(obj(vec![("data", st("x"))]), "t", false), None);
    assert_eq!(set_binpatch_client(JsonValue::Null, "t", false), None);
}
