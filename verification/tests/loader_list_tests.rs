use qomicex_core::curseforge::{
    find_sha1_from_hashes, full_url, game_versions_text, is_bad_request, search_url, FileHash, SearchError,
};
use qomicex_core::forgelist::{
    clean_download_url, forge_bmcl_versions, get_forge_download_url, is_recommended_version, ForgeBmclFile,
    ForgeBmclItem,
};
use qomicex_core::loader::{new_loader_result, sort_and_deduplicate, sort_descending, ModLoaderResult, ModLoaderType};
use qomicex_core::mirror::{
    convert_to_mirror_url, DefaultDownloadSourceManager, DownloadMirror, DownloadSource, DownloadSourceType,
    ResourceType,
};
use qomicex_core::provider::{
    all_mod_loaders, cleanroom_supported, cleanroom_versions, get_fabric_base_url, liteloader_results,
    loader_results, loader_versions, neoforge_bmcl_versions, neoforge_official_versions, optifine_results,
    quilt_global_entries, FlagValue, LiteloaderItem, LoaderEntry, NeoForgeItem, OptifineItem, QuiltGlobalItem,
};

fn entry(version: &str, stable: Option<FlagValue>) -> Option<LoaderEntry> {
    Some(LoaderEntry { version: Some(version.to_string()), stable })
}

fn loader(t: ModLoaderType, version: &str) -> ModLoaderResult {
    new_loader_result(t, version, "1.20.1", "u", "", false)
}

fn versions_of(list: &[ModLoaderResult]) -> Vec<String> {
    list.iter().map(|r| r.version.clone()).collect()
}

#[test]
fn new_entries_carry_the_minimum_release_time() {
    let r = new_loader_result(ModLoaderType::Quilt, "0.20.0", "1.20.1", "API未提供", "", true);
    assert_eq!(r.loader_type, ModLoaderType::Quilt);
    assert_eq!(r.version, "0.20.0");
    assert_eq!(r.game_version, "1.20.1");
    assert_eq!(r.release_time, "0001-01-01T00:00:00+00:00");
    assert!(r.is_recommand);
}

#[test]
fn sort_and_deduplicate_keeps_first_of_each_version_newest_first() {
    let list = vec![
        new_loader_result(ModLoaderType::Fabric, "0.14.0", "1.20.1", "first", "", false),
        loader(ModLoaderType::Fabric, "0.15.0"),
        new_loader_result(ModLoaderType::Fabric, "0.14.0", "1.20.1", "second", "", false),
        loader(ModLoaderType::Fabric, "0.9.1"),
    ];
    let r = sort_and_deduplicate(list);
    assert_eq!(versions_of(&r), vec!["0.15.0", "0.14.0", "0.9.1"]);
    assert_eq!(r[1].url, "first");
}

#[test]
fn sort_descending_is_stable() {
    let list = vec![
        new_loader_result(ModLoaderType::Forge, "1.0", "1.20.1", "a", "", false),
        loader(ModLoaderType::Forge, "2.0"),
        new_loader_result(ModLoaderType::Fabric, "1.0", "1.20.1", "b", "", false),
    ];
    let r = sort_descending(list);
    assert_eq!(versions_of(&r), vec!["2.0", "1.0", "1.0"]);
    assert_eq!(r[1].url, "a");
    assert_eq!(r[2].url, "b");
}

#[test]
fn fabric_style_entries() {
    let items = vec![
        entry("0.15.0", Some(FlagValue::Bool(true))),
        None,
        entry("", None),
        entry("0.14.0", Some(FlagValue::Text("TRUE".to_string()))),
        entry("0.16.0", Some(FlagValue::Other)),
    ];
    let r = loader_results(ModLoaderType::Fabric, &items, "1.20.1");
    assert_eq!(versions_of(&r), vec!["0.15.0", "0.14.0", "0.16.0"]);
    assert_eq!(r[0].url, "API未提供");
    assert_eq!(r[0].game_version, "1.20.1");
    assert!(r[0].is_recommand && r[1].is_recommand && !r[2].is_recommand);
    let sorted = loader_versions(ModLoaderType::Fabric, &items, "1.20.1");
    assert_eq!(versions_of(&sorted), vec!["0.16.0", "0.15.0", "0.14.0"]);
}

#[test]
fn fabric_metadata_endpoints() {
    assert_eq!(get_fabric_base_url(DownloadMirror::Bmclapi), "https://bmclapi2.bangbang93.com/fabric-meta/v2/versions");
    assert_eq!(get_fabric_base_url(DownloadMirror::Official), "https://meta.fabricmc.net/v2/versions");
}

#[test]
fn optifine_entries() {
    let items = vec![
        OptifineItem {
            mcversion: "1.20.1".to_string(),
            patch: "I6".to_string(),
            edition: "HD_U".to_string(),
            forge: "Forge N/A".to_string(),
        },
        OptifineItem { mcversion: "1.20.1".to_string(), patch: String::new(), edition: "HD_U".to_string(), forge: String::new() },
        OptifineItem {
            mcversion: "1.20 pre".to_string(),
            patch: "H1".to_string(),
            edition: "HD_U".to_string(),
            forge: "Forge 47.1.0".to_string(),
        },
    ];
    let r = optifine_results(&items);
    assert_eq!(versions_of(&r), vec!["HD_U-I6", "HD_U-H1"]);
    assert_eq!(r[0].url, "https://bmclapi2.bangbang93.com/optifine/1.20.1/HD_U/I6");
    assert!(r[0].is_recommand);
    assert_eq!(r[1].url, "https://bmclapi2.bangbang93.com/optifine/1.20%20pre/HD_U/H1");
    assert!(!r[1].is_recommand);
}

#[test]
fn liteloader_entries() {
    let items = vec![
        LiteloaderItem { mcversion: "1.12.2".to_string(), version: "1.12.2-SNAPSHOT".to_string(), hash: "abc".to_string() },
        LiteloaderItem { mcversion: "1.12.2".to_string(), version: String::new(), hash: String::new() },
    ];
    let r = liteloader_results(&items);
    assert_eq!(r.len(), 1);
    assert_eq!(r[0].url, "https://bmclapi2.bangbang93.com/liteloader/download/?version=1.12.2-SNAPSHOT");
    assert_eq!(r[0].sha1, "abc");
    assert!(r[0].is_recommand);
}

#[test]
fn neoforge_bmclapi_entries() {
    let items = vec![
        NeoForgeItem { version: "20.4.80-beta".to_string(), mcversion: "1.20.4".to_string() },
        NeoForgeItem { version: "20.4.237".to_string(), mcversion: "1.20.4".to_string() },
        NeoForgeItem { version: "20.4.1".to_string(), mcversion: String::new() },
    ];
    let r = neoforge_bmcl_versions(&items);
    assert_eq!(versions_of(&r), vec!["20.4.237", "20.4.80-beta"]);
    assert_eq!(r[1].url, "https://bmclapi2.bangbang93.com/neoforge/version/20.4.80-beta/download/installer.jar");
    assert!(r[0].is_recommand && !r[1].is_recommand);
}

#[test]
fn neoforge_official_entries() {
    let old = Some(vec!["47.1.0".to_string(), "47.1.3-beta".to_string()]);
    let meta = Some(vec!["20.4.80".to_string(), "21.0.1".to_string()]);
    let r = neoforge_official_versions(&old, &meta, "1.20.1");
    assert_eq!(versions_of(&r), vec!["47.1.3-beta", "47.1.0"]);
    assert_eq!(r[1].url, "https://maven.neoforged.net/releases/net/neoforged/forge/47.1.0/forge-47.1.0-installer.jar");
    assert_eq!(r[1].game_version, "1.20.1");
    assert!(!r[0].is_recommand && r[1].is_recommand);
    let r2 = neoforge_official_versions(&old, &meta, "1.21");
    assert_eq!(versions_of(&r2), vec!["21.0.1"]);
    assert_eq!(r2[0].url, "https://maven.neoforged.net/releases/net/neoforged/neoforge/21.0.1/neoforge-21.0.1-installer.jar");
    assert_eq!(r2[0].game_version, "1.21");
}

#[test]
fn cleanroom_entries() {
    assert!(cleanroom_supported("1.12.2"));
    assert!(!cleanroom_supported("1.12.1"));
    let tags = vec!["0.2.3-alpha".to_string(), "bad-tag".to_string(), "0.2.4".to_string(), String::new()];
    let r = cleanroom_versions(&tags);
    assert_eq!(versions_of(&r), vec!["0.2.4", "0.2.3-alpha"]);
    assert_eq!(r[0].url, "https://github.com/CleanroomMC/Cleanroom/releases/download/0.2.4/cleanroom-0.2.4-installer.jar");
    assert_eq!(r[0].game_version, "1.12.2");
    assert!(r[0].is_recommand && !r[1].is_recommand);
}

#[test]
fn quilt_global_entries_keep_matching_game_versions() {
    let items = vec![
        QuiltGlobalItem { hashed_version: "1.20.1".to_string(), intermediary_version: String::new(), loader: entry("0.20.0", None) },
        QuiltGlobalItem { hashed_version: "1.19.4".to_string(), intermediary_version: "1.19.4".to_string(), loader: entry("0.19.0", None) },
        QuiltGlobalItem { hashed_version: String::new(), intermediary_version: "20.1".to_string(), loader: entry("0.21.0", None) },
    ];
    let kept = quilt_global_entries(items, "1.20.1");
    let names: Vec<String> = kept.iter().map(|e| e.as_ref().unwrap().version.clone().unwrap()).collect();
    assert_eq!(names, vec!["0.20.0", "0.21.0"]);
}

#[test]
fn all_loaders_are_merged_newest_first() {
    let r = all_mod_loaders(
        vec![loader(ModLoaderType::Forge, "47.1.0")],
        vec![loader(ModLoaderType::Fabric, "0.15.0")],
        Vec::new(),
        vec![loader(ModLoaderType::OptiFine, "HD_U-I6")],
        Vec::new(),
        vec![loader(ModLoaderType::Quilt, "0.20.0")],
        Vec::new(),
        Vec::new(),
        vec![loader(ModLoaderType::Babric, "0.15.0")],
    );
    // "hd" against "47" is not numeric on both sides: compared as text, letters come after digits.
    assert_eq!(versions_of(&r), vec!["HD_U-I6", "47.1.0", "0.20.0", "0.15.0", "0.15.0"]);
    assert_eq!(r[3].loader_type, ModLoaderType::Fabric);
    assert_eq!(r[4].loader_type, ModLoaderType::Babric);
}

#[test]
fn forge_download_links() {
    assert_eq!(
        get_forge_download_url(DownloadMirror::Bmclapi, "1.20.1", "47.1.0"),
        "https://bmclapi2.bangbang93.com/forge/download/47.1.0"
    );
    assert_eq!(
        get_forge_download_url(DownloadMirror::Official, "1.7.10-pre4", "10.12.1"),
        "https://maven.minecraftforge.net/net/minecraftforge/forge/1.7.10_pre4-10.12.1/forge-1.7.10_pre4-10.12.1-installer.jar"
    );
    assert_eq!(get_forge_download_url(DownloadMirror::Official, "1.20.1", ""), "");
}

#[test]
fn forge_recommendation_rule() {
    let existing = vec![loader(ModLoaderType::Forge, "14.23.5.2799"), loader(ModLoaderType::Forge, "beta")];
    assert!(is_recommended_version("2800", &existing));
    assert!(!is_recommended_version("2799", &existing));
    assert!(!is_recommended_version("x", &existing));
    assert!(is_recommended_version("1", &[]));
}

#[test]
fn forge_bmclapi_entries() {
    let items = vec![
        ForgeBmclItem {
            mcversion: "1.12.2".to_string(),
            build: "2859".to_string(),
            version: "14.23.5.2859".to_string(),
            modified: "2021-09-01T00:00:00.000Z".to_string(),
            files: vec![
                ForgeBmclFile { category: "universal".to_string(), hash: "u".to_string() },
                ForgeBmclFile { category: "Installer".to_string(), hash: "h1".to_string() },
            ],
        },
        ForgeBmclItem {
            mcversion: "1.12.2".to_string(),
            build: "2855".to_string(),
            version: "14.23.5.2855".to_string(),
            modified: "not a date".to_string(),
            files: vec![ForgeBmclFile { category: "installer".to_string(), hash: "h2".to_string() }],
        },
        ForgeBmclItem {
            mcversion: "1.12.2".to_string(),
            build: "2850".to_string(),
            version: "14.23.5.2850".to_string(),
            modified: String::new(),
            files: vec![ForgeBmclFile { category: "changelog".to_string(), hash: "c".to_string() }],
        },
        ForgeBmclItem {
            mcversion: "1.7.10".to_string(),
            build: "1614".to_string(),
            version: "10.13.4.1614".to_string(),
            modified: String::new(),
            files: vec![ForgeBmclFile { category: "installer".to_string(), hash: "h3".to_string() }],
        },
    ];
    let r = forge_bmcl_versions(&items, DownloadMirror::Bmclapi, "1.12.2");
    assert_eq!(versions_of(&r), vec!["14.23.5.2859", "14.23.5.2855"]);
    assert_eq!(r[0].sha1, "h1");
    assert_eq!(r[0].url, "https://bmclapi2.bangbang93.com/forge/download/2859");
    assert_eq!(r[0].release_time, "2021-09-01T00:00:00.000Z");
    assert!(r[0].is_recommand);
    assert_eq!(r[1].release_time, "0001-01-01T00:00:00+00:00");
    assert!(!r[1].is_recommand);
}

#[test]
fn forge_site_links_are_cleaned() {
    let adfocus = "https://adfoc.us/serve/sitelinks/?id=271228&url=https%3A%2F%2Fmaven.minecraftforge.net%2Fnet%2Fminecraftforge%2Fforge%2F1.12.2-14.23.5.2859%2Fforge-1.12.2-14.23.5.2859-installer.jar";
    assert_eq!(
        clean_download_url(adfocus),
        "https://maven.minecraftforge.net/net/minecraftforge/forge/1.12.2-14.23.5.2859/forge-1.12.2-14.23.5.2859-installer.jar"
    );
    assert_eq!(clean_download_url("/maven/x.jar"), "https://files.minecraftforge.net/maven/x.jar");
    assert_eq!(clean_download_url("maven/x.jar"), "https://files.minecraftforge.net/maven/x.jar");
    assert_eq!(clean_download_url("https://a/b.jar"), "https://a/b.jar");
    assert_eq!(clean_download_url("https://adfoc.us/x"), "https://adfoc.us/x");
}

#[test]
fn mirror_rewrites_only_for_bmclapi() {
    let bmcl = DownloadSource {
        source_type: DownloadSourceType::Bmclapi,
        name: "BMCLAPI".to_string(),
        base_url: "https://bmclapi2.bangbang93.com//".to_string(),
        is_enabled: true,
        priority: 1,
        description: None,
    };
    assert_eq!(
        convert_to_mirror_url("https://launcher.mojang.com/maven/a/b.jar", &bmcl).as_deref(),
        Some("https://bmclapi2.bangbang93.com/maven/a/b.jar")
    );
    let official = DownloadSource { source_type: DownloadSourceType::Official, ..bmcl };
    assert_eq!(convert_to_mirror_url("https://launcher.mojang.com/maven/a/b.jar", &official), None);
}

#[test]
fn preferring_a_source_makes_it_the_preferred_one() {
    let mut mgr = DefaultDownloadSourceManager::default();
    assert_eq!(mgr.get_preferred_source(ResourceType::Library).unwrap().source_type, DownloadSourceType::Bmclapi);
    mgr.set_preferred_source(DownloadSourceType::Official);
    let p = mgr.get_preferred_source(ResourceType::Version).unwrap();
    assert_eq!(p.source_type, DownloadSourceType::Official);
    assert_eq!(p.priority, 0);
    assert!(mgr.has_source_type(DownloadSourceType::Official));
    assert!(!mgr.has_source_type(DownloadSourceType::Custom));
    mgr.add_custom_source(DownloadSource {
        source_type: DownloadSourceType::Custom,
        name: "mine".to_string(),
        base_url: "https://mirror.example/".to_string(),
        is_enabled: false,
        priority: -5,
        description: Some("d".to_string()),
    });
    assert_eq!(mgr.get_available_sources(ResourceType::Asset).len(), 2);
    let order: Vec<i32> = mgr.sources_by_priority().iter().map(|s| s.priority).collect();
    assert_eq!(order, vec![0, 1]);
}

#[test]
fn curseforge_links() {
    assert_eq!(full_url("https://api.curseforge.com", "/v1/mods/1"), "https://api.curseforge.com/v1/mods/1");
    assert_eq!(full_url("https://api.curseforge.com", "https://x/y"), "https://x/y");
    assert!(is_bad_request(Some(400)));
    assert!(!is_bad_request(Some(404)));
    assert!(!is_bad_request(None));
}

#[test]
fn curseforge_sha1_hashes() {
    let hs = Some(vec![
        FileHash { algo: 2, value: Some("md5".to_string()) },
        FileHash { algo: 1, value: Some("sha".to_string()) },
    ]);
    assert_eq!(find_sha1_from_hashes(&hs).as_deref(), Some("sha"));
    let first_empty = Some(vec![FileHash { algo: 1, value: None }, FileHash { algo: 1, value: Some("late".to_string()) }]);
    assert_eq!(find_sha1_from_hashes(&first_empty), None);
    assert_eq!(find_sha1_from_hashes(&None), None);
}

#[test]
fn curseforge_search_requests() {
    let u = search_url(
        "https://api.curseforge.com",
        "jei",
        &Some(vec!["1.20.1".to_string()]),
        &Some(vec![Some(6), None]),
        &Some(vec!["1".to_string(), "4".to_string()]),
        Some(2),
        Some(2),
        Some(20),
        Some(6),
    )
    .unwrap();
    assert_eq!(
        u,
        "https://api.curseforge.com/v1/mods/search?gameId=432&classId=6&searchFilter=jei&sortOrder=desc&gameVersions=[\"1.20.1\"]&pageSize=20&index=20&categoryIds=[6,]&modLoaderTypes=[1,4]&sortField=2"
    );
    let d = search_url("B", "", &None, &Some(Vec::new()), &None, None, None, None, None).unwrap();
    assert_eq!(d, "B/v1/mods/search?gameId=432&searchFilter=&sortOrder=desc&gameVersions=[]&pageSize=25&index=0&modLoaderTypes=[]&sortField=");
    assert!(search_url("B", "", &None, &None, &None, None, Some(400), None, None).is_ok());
    assert_eq!(
        search_url("B", "", &None, &None, &None, None, Some(401), None, None),
        Err(SearchError::PageBeyondLimit)
    );
}

#[test]
fn curseforge_game_version_summary() {
    let v = vec!["1.20.1".to_string(), "1.19.4".to_string(), "1.20.1".to_string(), "1.18".to_string()];
    assert_eq!(game_versions_text(&v), "1.18, 1.19.4, 1.20.1");
    assert_eq!(game_versions_text(&Vec::new()), "");
}
