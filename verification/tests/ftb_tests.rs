use qomicex_core::ftb::{
    curse_file_ids, pack_file_targets, pack_mod_targets, parse_id_or_zero, CurseFileLink, FtbFile, FtbMod,
};
use qomicex_core::installer::MissFileData;
use qomicex_core::paths::PathStyle;

fn file(name: &str, path: Option<&str>, server_only: bool) -> FtbFile {
    FtbFile {
        name: name.to_string(),
        path: path.map(|p| p.to_string()),
        url: format!("https://cdn/{name}"),
        sha1: if server_only { None } else { Some("abc".to_string()) },
        server_only,
    }
}

fn mod_of(name: &str, filename: &str, curse_file: i64) -> FtbMod {
    FtbMod { name: name.to_string(), filename: filename.to_string(), curse_project: 7, curse_file }
}

#[test]
fn pack_ids_parse_or_zero() {
    assert_eq!(parse_id_or_zero(Some("123")), 123);
    assert_eq!(parse_id_or_zero(Some("-4")), -4);
    assert_eq!(parse_id_or_zero(Some("12a")), 0);
    assert_eq!(parse_id_or_zero(Some("99999999999")), 0);
    assert_eq!(parse_id_or_zero(None), 0);
}

#[test]
fn pack_files_skip_server_only_and_clean_paths() {
    let files = vec![
        file("a.cfg", Some("./config/"), false),
        file("server.jar", Some("./"), true),
        file("b.json", Some("/./kubejs/./data"), false),
        file("c.txt", None, false),
    ];
    let r = pack_file_targets("/mc", false, "pack", &files, PathStyle::Posix);
    assert_eq!(r.len(), 3);
    assert_eq!(
        r[0],
        MissFileData {
            name: "a.cfg".to_string(),
            path: "/mc/config/a.cfg".to_string(),
            url: "https://cdn/a.cfg".to_string(),
            sha1: "abc".to_string(),
        }
    );
    assert_eq!(r[1].path, "/mc/kubejs/data/b.json");
    assert_eq!(r[2].path, "/mc/c.txt");
}

#[test]
fn pack_files_under_isolated_version() {
    let files = vec![file("x.cfg", Some("config"), false)];
    let r = pack_file_targets("/mc", true, "MyPack", &files, PathStyle::Posix);
    assert_eq!(r[0].path, "/mc/versions/MyPack/config/x.cfg");
}

#[test]
fn curse_ids_are_positive_sorted_unique() {
    let mods = vec![mod_of("a", "a.jar", 30), mod_of("b", "b.jar", 0), mod_of("c", "c.jar", 10), mod_of("d", "d.jar", 30), mod_of("e", "e.jar", -5), mod_of("f", "f.jar", 20)];
    assert_eq!(curse_file_ids(&mods), vec![10, 20, 30]);
    assert_eq!(curse_file_ids(&vec![]), Vec::<i64>::new());
}

#[test]
fn pack_mods_need_a_download_url() {
    let mods = vec![mod_of("A", "a.jar", 1), mod_of("B", "b.jar", 2), mod_of("C", "c.jar", 3)];
    let links = vec![
        CurseFileLink { file_id: 2, download_url: Some(String::new()), sha1: None },
        CurseFileLink { file_id: 1, download_url: Some("https://edge/a.jar".to_string()), sha1: None },
    ];
    let r = pack_mod_targets("/mc", true, "P", &mods, &links, PathStyle::Posix);
    assert_eq!(
        r,
        vec![MissFileData {
            name: "A".to_string(),
            path: "/mc/versions/P/mods/a.jar".to_string(),
            url: "https://edge/a.jar".to_string(),
            sha1: String::new(),
        }]
    );
    let r = pack_mod_targets("C:\\mc", false, "P", &mods[..1].iter().map(|m| mod_of(&m.name, &m.filename, m.curse_file)).collect(), &links, PathStyle::Windows);
    assert_eq!(r[0].path, "C:\\mc\\mods\\a.jar");
}
