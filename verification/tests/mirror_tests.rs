use qomicex_core::mirror::{DefaultDownloadSourceManager, DownloadMirror, ResourceType};

#[test]
fn bmclapi_maven_url_rewrite() {
    let mgr = DefaultDownloadSourceManager::default();
    let urls = mgr.generate_mirror_urls(
        "https://launcher.mojang.com/maven/org/lwjgl/lwjgl/3.3.1/lwjgl-3.3.1.jar",
        ResourceType::Library,
    );
    assert_eq!(
        urls,
        vec![
            "https://launcher.mojang.com/maven/org/lwjgl/lwjgl/3.3.1/lwjgl-3.3.1.jar",
            "https://bmclapi2.bangbang93.com/maven/org/lwjgl/lwjgl/3.3.1/lwjgl-3.3.1.jar"
        ]
    );
}

#[test]
fn bmclapi_assets_url_rewrite_bug_for_bug() {
    let mgr = DefaultDownloadSourceManager::default();
    let urls = mgr.generate_mirror_urls(
        "https://resources.download.minecraft.net/ab/abcdef0123456789",
        ResourceType::Asset,
    );
    assert_eq!(
        urls,
        vec![
            "https://resources.download.minecraft.net/ab/abcdef0123456789",
            "https://bmclapi2.bangbang93.com/assets/https://resources.download.minecraft.net/ab/abcdef0123456789"
        ]
    );
}

#[test]
fn bmclapi_meta_url_rewrite_bug_for_bug() {
    let mgr = DefaultDownloadSourceManager::default();
    let urls = mgr.generate_mirror_urls(
        "https://piston-meta.mojang.com/v1/packages/0123abcd/1.20.1.json",
        ResourceType::Library,
    );
    assert_eq!(
        urls,
        vec![
            "https://piston-meta.mojang.com/v1/packages/0123abcd/1.20.1.json",
            "https://bmclapi2.bangbang93.com/meta/https://piston-meta.mojang.com/v1/packages/0123abcd/1.20.1.json"
        ]
    );
}

#[test]
fn official_preferred_still_generates_mirrors() {
    let mgr = DefaultDownloadSourceManager::new(DownloadMirror::Official);
    let urls = mgr.generate_mirror_urls(
        "https://launcher.mojang.com/maven/org/x.jar",
        ResourceType::Library,
    );
    assert_eq!(
        urls,
        vec![
            "https://launcher.mojang.com/maven/org/x.jar",
            "https://bmclapi2.bangbang93.com/maven/org/x.jar"
        ]
    );
}

#[test]
fn unmatched_url_no_mirror() {
    let mgr = DefaultDownloadSourceManager::default();
    let urls = mgr.generate_mirror_urls("https://example.com/other/file.jar", ResourceType::Library);
    assert_eq!(urls, vec!["https://example.com/other/file.jar"]);
}
