use qomicex_core::forgeinstall::CleanroomInstaller;
use qomicex_core::json::{JsonMember, JsonValue};
use qomicex_core::libjson::{get_libraries_from_json, get_member, json_node_to_string, supported_game_versions, LibraryListError};
use qomicex_core::liteloader::{
    library_to_json, lite_version_json, liteloader_artefacts, LiteIndexError, LiteLoaderRemoteVersion, LiteloaderInstaller,
};
use qomicex_core::maven::{Artifact, Library, LibraryDownloadInfo};

fn st(x: &str) -> JsonValue {
    JsonValue::Str(x.to_string())
}

fn obj(members: Vec<(&str, JsonValue)>) -> JsonValue {
    JsonValue::Object(members.into_iter().map(|(k, v)| JsonMember { key: k.to_string(), value: v }).collect())
}

fn lib_node(name: JsonValue, sha1: Option<&str>, url: Option<&str>) -> JsonValue {
    let mut art = vec![];
    if let Some(h) = sha1 {
        art.push(("sha1", st(h)));
    }
    if let Some(u) = url {
        art.push(("url", st(u)));
    }
    obj(vec![("name", name), ("downloads", obj(vec![("artifact", obj(art))]))])
}

#[test]
fn member_lookup() {
    let v = obj(vec![("a", st("x")), ("b", JsonValue::Null)]);
    assert_eq!(get_member(&v, "a"), Some(&st("x")));
    assert_eq!(get_member(&v, "b"), Some(&JsonValue::Null));
    assert_eq!(get_member(&v, "c"), None);
    assert_eq!(get_member(&st("a"), "a"), None);
}

#[test]
fn node_texts() {
    assert_eq!(json_node_to_string(&st("plain")), "plain");
    assert_eq!(json_node_to_string(&JsonValue::Number("12.5".to_string())), "12.5");
    assert_eq!(json_node_to_string(&JsonValue::Bool(true)), "true");
    assert_eq!(json_node_to_string(&JsonValue::Null), "null");
    assert_eq!(json_node_to_string(&JsonValue::Array(vec![JsonValue::Number("1".to_string()), st("a")])), "[1,\"a\"]");
    assert_eq!(json_node_to_string(&obj(vec![("k", JsonValue::Bool(false))])), "{\"k\":false}");
}

#[test]
fn neoforge_library_lists() {
    let data = obj(vec![(
        "libraries",
        JsonValue::Array(vec![
            lib_node(st("net.neoforged:neoforge:21.1.5"), Some("abc"), Some("https://maven/x.jar")),
            obj(vec![("name", st(""))]),
            obj(vec![("name", JsonValue::Number("3".to_string()))]),
            obj(vec![("name", st("a:b:1")), ("downloads", st("none"))]),
        ]),
    )]);
    let libs = get_libraries_from_json(&data).unwrap();
    assert_eq!(libs.len(), 2);
    assert_eq!(libs[0].full_name, "net.neoforged:neoforge:21.1.5");
    assert_eq!(libs[0].name, "net.neoforged.neoforge");
    assert_eq!(libs[0].version, "21.1.5");
    assert_eq!(libs[0].path, "net/neoforged/neoforge/21.1.5/neoforge-21.1.5.jar");
    assert_eq!(libs[0].hash, "abc");
    assert_eq!(libs[0].url, "https://maven/x.jar");
    assert_eq!(libs[1].full_name, "a:b:1");
    assert_eq!(libs[1].hash, "");
    assert_eq!(libs[1].url, "");
}

#[test]
fn neoforge_library_list_errors() {
    assert_eq!(get_libraries_from_json(&obj(vec![])).unwrap_err(), LibraryListError::NoLibraries);
    assert_eq!(get_libraries_from_json(&obj(vec![("libraries", st("x"))])).unwrap_err(), LibraryListError::NoLibraries);
    assert_eq!(
        get_libraries_from_json(&obj(vec![("libraries", JsonValue::Array(vec![st("x")]))])).unwrap_err(),
        LibraryListError::EntryNotObject
    );
}

#[test]
fn cleanroom_library_lists() {
    let data = obj(vec![(
        "libraries",
        JsonValue::Array(vec![
            st("skipped"),
            lib_node(st("com.cleanroommc:cleanroom:0.2.4-alpha"), Some("ff"), None),
            obj(vec![("name", JsonValue::Number("7".to_string()))]),
            obj(vec![("name", JsonValue::Null)]),
            obj(vec![("url", st("u"))]),
        ]),
    )]);
    let libs = CleanroomInstaller::get_lib_infos_from_json(&data).unwrap();
    assert_eq!(libs.len(), 3);
    assert_eq!(libs[0].full_name, "com.cleanroommc:cleanroom:0.2.4-alpha");
    assert_eq!(libs[0].hash, "ff");
    assert_eq!(libs[0].url, "");
    assert_eq!(libs[1].full_name, "7");
    assert_eq!(libs[2].full_name, "null");
    assert!(CleanroomInstaller::get_lib_infos_from_json(&obj(vec![])).unwrap().is_empty());
    assert_eq!(CleanroomInstaller::get_lib_infos_from_json(&st("x")).unwrap_err(), LibraryListError::NotAnObject);
}

fn artifact(g: &str, a: &str, v: &str) -> Artifact {
    Artifact { group_id: g.to_string(), artifact_id: a.to_string(), version: v.to_string() }
}

#[test]
fn library_entries_of_a_version_file() {
    let full = Library {
        artifact: Some(artifact("com.mumfrey", "liteloader", "1.12.2")),
        url: Some("https://repo/".to_string()),
        download_info: Some(LibraryDownloadInfo { path: Some("p.jar".to_string()), url: None }),
    };
    assert_eq!(
        library_to_json(&full),
        obj(vec![
            ("name", st("com.mumfrey:liteloader:1.12.2")),
            ("url", st("https://repo/")),
            ("downloads", obj(vec![("artifact", obj(vec![("path", st("p.jar")), ("url", JsonValue::Null)]))])),
        ])
    );
    let bare = Library { artifact: None, url: Some(String::new()), download_info: None };
    assert_eq!(library_to_json(&bare), obj(vec![("name", JsonValue::Null)]));
}

#[test]
fn liteloader_version_file() {
    let libs = vec![Library { artifact: Some(artifact("a", "b", "1")), url: None, download_info: None }];
    let lite = lite_version_json("1.12.2-LiteLoader", "1.12.2", "T", &libs);
    assert_eq!(
        lite,
        obj(vec![
            ("id", st("1.12.2-LiteLoader")),
            ("inheritsFrom", st("1.12.2")),
            ("type", st("release")),
            ("arguments", obj(vec![("game", JsonValue::Array(vec![st("--tweakClass"), st("T")]))])),
            ("mainClass", st("net.minecraft.launchwrapper.Launch")),
            ("libraries", JsonValue::Array(vec![obj(vec![("name", st("a:b:1"))])])),
            ("logging", obj(vec![])),
        ])
    );
    let installer = LiteloaderInstaller::new(0, "/mc".to_string(), "1.12.2".to_string());
    let version = LiteLoaderRemoteVersion {
        game_version: "1.12.2".to_string(),
        self_version: "1.12.2-SNAPSHOT".to_string(),
        urls: vec![],
        tweak_class: "T".to_string(),
        libraries: vec![],
        json: None,
    };
    let base = obj(vec![("id", st("1.12.2")), ("libraries", JsonValue::Array(vec![st("base")]))]);
    let merged = installer.build_version_json("LL", &version, base, &version, &libs).unwrap();
    assert_eq!(
        merged,
        obj(vec![
            ("id", st("LL")),
            ("libraries", JsonValue::Array(vec![st("base"), obj(vec![("name", st("a:b:1"))])])),
            ("type", st("release")),
            ("arguments", obj(vec![("game", JsonValue::Array(vec![st("--tweakClass"), st("T")]))])),
            ("mainClass", st("net.minecraft.launchwrapper.Launch")),
            ("logging", obj(vec![])),
        ])
    );
    assert_eq!(installer.build_version_json("LL", &version, st("x"), &version, &libs), None);
}

#[test]
fn supported_game_versions_of_a_game_list() {
    let doc = JsonValue::Array(vec![
        obj(vec![("version", st("1.20.1")), ("stable", JsonValue::Bool(true))]),
        obj(vec![("version", st(""))]),
        obj(vec![("version", JsonValue::Number("1".to_string()))]),
        obj(vec![("version", st("23w13a"))]),
        obj(vec![("version", st("1.20.1"))]),
        st("x"),
    ]);
    assert_eq!(supported_game_versions(&doc), vec!["1.20.1".to_string(), "23w13a".to_string()]);
    assert!(supported_game_versions(&obj(vec![])).is_empty());
}

#[test]
fn liteloader_index_artefacts() {
    let version = |v: &str| {
        obj(vec![
            ("version", st(v)),
            ("file", st("liteloader.jar")),
            ("libraries", JsonValue::Array(vec![obj(vec![("name", st("a:b:1"))]), st("x")])),
        ])
    };
    let index = obj(vec![(
        "versions",
        obj(vec![(
            "1.12.2",
            obj(vec![
                ("snapshots", obj(vec![("other", obj(vec![]))])),
                ("artefacts", obj(vec![("com.mumfrey:liteloader", obj(vec![("latest", version("1.12.2")), ("bad", st("x"))]))])),
            ]),
        )]),
    )]);
    let arts = liteloader_artefacts(&index, "1.12.2").unwrap().unwrap();
    assert_eq!(arts.len(), 2);
    let first = arts[0].as_ref().unwrap();
    assert_eq!(first.version.as_deref(), Some("1.12.2"));
    assert_eq!(first.file.as_deref(), Some("liteloader.jar"));
    assert!(first.tweak_class.is_none());
    let libs = first.libraries.as_ref().unwrap();
    assert_eq!(libs.len(), 2);
    assert_eq!(libs[0].as_ref().unwrap().name.as_deref(), Some("a:b:1"));
    assert!(libs[1].is_none());
    assert!(arts[1].is_none());
    assert!(liteloader_artefacts(&index, "1.8").unwrap().is_none());
    assert_eq!(liteloader_artefacts(&st("x"), "1.8").unwrap_err(), LiteIndexError::NotAnObject);
}
