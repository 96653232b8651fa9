use qomicex_core::modrinth::{
    modrinth_file_to_version_file_info, modrinth_search_url, to_project_version_info, to_project_version_info_from_hash,
    HashEntry, ModrinthDependency, ModrinthFile, ModrinthSearchError, ModrinthVersionInfo,
};

#[test]
fn search_url_with_all_facets() {
    let cats = vec!["optimization".to_string()];
    let loaders = vec!["fabric".to_string()];
    let u = modrinth_search_url(
        "https://api.modrinth.com/",
        "sodium mod",
        Some("mod"),
        Some("1.20.1"),
        Some(cats.as_slice()),
        Some(loaders.as_slice()),
        "relevance",
        2,
        20,
    );
    assert_eq!(
        u,
        Ok("https://api.modrinth.com/v2/search?query=sodium%20mod&facets=%5B%5B%22project_type%3Amod%22%5D%2C%5B%22categories%3Aoptimization%22%5D%2C%5B%22categories%3Afabric%22%5D%2C%5B%22versions%3A1.20.1%22%5D%5D&limit=20&offset=40&index=relevance".to_string())
    );
}

#[test]
fn search_url_without_facets() {
    let u = modrinth_search_url("https://api.modrinth.com/", "", Some(""), None, None, Some(Vec::<String>::new().as_slice()), "downloads", 0, 0);
    assert_eq!(u, Ok("https://api.modrinth.com/v2/search?query=&limit=0&offset=0&index=downloads".to_string()));
}

#[test]
fn search_page_size_limits() {
    assert_eq!(
        modrinth_search_url("b/", "q", None, None, None, None, "i", 1, -1),
        Err(ModrinthSearchError::NegativePageSize)
    );
    assert_eq!(
        modrinth_search_url("b/", "q", None, None, None, None, "i", 1, 101),
        Err(ModrinthSearchError::PageSizeAboveLimit)
    );
    assert!(modrinth_search_url("b/", "q", None, None, None, None, "i", 1, 100).is_ok());
}

fn hash(a: &str, v: &str) -> HashEntry {
    HashEntry { algorithm: a.to_string(), value: v.to_string() }
}

fn file(name: &str, hashes: Option<Vec<HashEntry>>, size: Option<i64>, primary: Option<bool>) -> ModrinthFile {
    ModrinthFile { filename: name.to_string(), url: format!("https://cdn.modrinth.com/{name}"), size, primary, hashes }
}

fn version(files: Option<Vec<ModrinthFile>>) -> ModrinthVersionInfo {
    ModrinthVersionInfo {
        id: "IZskON6d".to_string(),
        project_id: "AANobbMI".to_string(),
        name: "Sodium 0.5.3".to_string(),
        version_number: "mc1.20.1-0.5.3".to_string(),
        game_versions: vec!["1.20.1".to_string()],
        loaders: vec!["fabric".to_string()],
        date_published: "2023-09-23T18:00:00Z".to_string(),
        files,
        dependencies: Some(vec![ModrinthDependency {
            version_id: None,
            project_id: Some("P7dR8mSH".to_string()),
            file_name: None,
            dependency_type: "required".to_string(),
        }]),
    }
}

#[test]
fn file_conversion_picks_digests() {
    let f = file("a.jar", Some(vec![hash("sha512", "bbb"), hash("sha1", "aaa")]), Some(1234), Some(true));
    let r = modrinth_file_to_version_file_info(f);
    assert_eq!(r.filename, "a.jar");
    assert_eq!(r.download_url, "https://cdn.modrinth.com/a.jar");
    assert_eq!(r.size, 1234);
    assert!(r.is_primary);
    assert!(r.file_type.is_none());
    let h = r.hashes.unwrap();
    assert_eq!(h.sha1.as_deref(), Some("aaa"));
    assert_eq!(h.sha512.as_deref(), Some("bbb"));
    let r = modrinth_file_to_version_file_info(file("b.jar", Some(vec![hash("md5", "x")]), None, None));
    assert_eq!(r.size, 0);
    assert!(!r.is_primary);
    let h = r.hashes.unwrap();
    assert!(h.sha1.is_none() && h.sha512.is_none());
    assert!(modrinth_file_to_version_file_info(file("c.jar", None, None, Some(false))).hashes.is_none());
}

#[test]
fn version_conversions() {
    let files = vec![file("a.jar", None, Some(5), None), file("b.jar", None, None, Some(true))];
    let r = to_project_version_info(version(Some(files)));
    assert_eq!(r.id, "IZskON6d");
    assert_eq!(r.project_id, "AANobbMI");
    assert_eq!(r.game_version_ids, vec!["1.20.1".to_string()]);
    assert_eq!(r.published_at, "2023-09-23T18:00:00Z");
    assert!(r.changelog.is_none() && r.version_type.is_none());
    assert_eq!(r.download_count, 0);
    let fs = r.files.unwrap();
    assert_eq!(fs.len(), 2);
    assert_eq!(fs[0].size, 5);
    assert!(fs[1].is_primary);
    assert_eq!(r.dependencies_infos.unwrap()[0].project_id.as_deref(), Some("P7dR8mSH"));
    let h = to_project_version_info_from_hash(version(None));
    assert!(h.files.is_none());
    assert!(h.dependencies_infos.is_none());
    assert_eq!(h.version_number, "mc1.20.1-0.5.3");
}
