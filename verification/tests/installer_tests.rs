use qomicex_core::auth::{
    device_code_result, expires_at_from, failed_auth_result, plus_hours_from, OfflineAuthProvider,
    poll_token_result, utc_now_z_string, yggdrasil_client_token, yggdrasil_failure, yggdrasil_root,
    yggdrasil_success, yggdrasil_validated, DeviceAnswer, TokenAnswer, YggdrasilAnswer, YggdrasilProfile,
    YggdrasilProperty,
};
use qomicex_core::checksum::{sha1_hex, verify_file_sha1};
use qomicex_core::forge::SourcesList;
use qomicex_core::forgeinstall::{settle_target, CleanroomInstaller, ForgeInstaller, NeoForgeInstaller};
use qomicex_core::installer::{is_redirect_status, mirror_from_download_source, InstallerBase, MissFileData};
use qomicex_core::installers::{
    BabricInstaller, FabricInstaller, LegacyFabricInstaller, ModrinthModpackInstaller, OptiFineInstaller,
    QuiltInstaller,
};
use qomicex_core::liteloader::{LiteArtefact, LiteLibEntry, LiteLoaderRemoteVersion, LiteloaderInstaller};
use qomicex_core::maven::{check_libs_ver_static, parse_maven_coordinate, Artifact, LibInfo};
use qomicex_core::metalibs::{
    classified_library_targets, get_maven_name_with_classifier, keep_missing, profile_library_targets,
    MetaLibrary, NativeEntry, NativeValue, ProfileError,
};
use qomicex_core::mirror::DownloadMirror;
use qomicex_core::paths::{join_path, path_combine, PathStyle};

fn s(x: &str) -> String {
    x.to_string()
}

#[test]
fn sha1_digests() {
    assert_eq!(sha1_hex(b"abc"), "a9993e364706816aba3e25717850c26c9cd0d89d");
    assert_eq!(sha1_hex(b""), "da39a3ee5e6b4b0d3255bfef95601890afd80709");
}

#[test]
fn file_digest_check() {
    assert!(verify_file_sha1(Some(b"abc"), " A9993E364706816ABA3E25717850C26C9CD0D89D "));
    assert!(!verify_file_sha1(Some(b"abd"), "a9993e364706816aba3e25717850c26c9cd0d89d"));
    assert!(!verify_file_sha1(None, "a9993e364706816aba3e25717850c26c9cd0d89d"));
    assert!(!verify_file_sha1(Some(b"abc"), ""));
}

#[test]
fn own_digest_always_matches() {
    for content in [&b"abc"[..], &b""[..], &b"\x00\xff"[..]] {
        assert!(verify_file_sha1(Some(content), &sha1_hex(content)));
    }
}

#[test]
fn jar_main_class() {
    let manifest = b"Manifest-Version: 1.0\r\nmain-class:  net.minecraft.client.Main \r\n\r\n";
    assert_eq!(InstallerBase::get_jar_main_class(manifest), "net.minecraft.client.Main");
    assert_eq!(InstallerBase::get_jar_main_class(b"Manifest-Version: 1.0\n"), "");
    assert_eq!(InstallerBase::get_jar_main_class(b"Main-Class: a.B\xff\nMain-Class: c.D"), "a.B\u{FFFD}");
}

#[test]
fn redirects_and_download_settings() {
    assert!(is_redirect_status(301) && is_redirect_status(302) && is_redirect_status(303) && is_redirect_status(307));
    assert!(!is_redirect_status(308) && !is_redirect_status(200));
    assert_eq!(mirror_from_download_source(1), DownloadMirror::Bmclapi);
    assert_eq!(mirror_from_download_source(0), DownloadMirror::Official);
    assert_eq!(mirror_from_download_source(2), DownloadMirror::Official);
}

#[test]
fn maven_paths() {
    assert_eq!(
        InstallerBase::maven_to_path("net.minecraftforge:forge:1.20.1-47.1.0:installer"),
        "net/minecraftforge/forge/1.20.1-47.1.0/forge-1.20.1-47.1.0-installer.jar"
    );
    assert_eq!(
        InstallerBase::maven_to_path("de.oceanlabs.mcp:mcp_config:1.20.1-20230612.114412@zip"),
        "de/oceanlabs/mcp/mcp_config/1.20.1-20230612.114412/mcp_config-1.20.1-20230612.114412.zip"
    );
}

#[test]
fn path_text() {
    assert_eq!(path_combine("C:\\mc", "libraries", PathStyle::Windows), "C:\\mc\\libraries");
    assert_eq!(path_combine("/mc/", "libraries", PathStyle::Posix), "/mc/libraries");
    assert_eq!(path_combine("", "libraries", PathStyle::Posix), "libraries");
    assert_eq!(join_path("/mc", "libraries", PathStyle::Posix), "/mc/libraries");
    assert_eq!(join_path("/mc", "/etc", PathStyle::Posix), "/etc");
}

#[test]
fn library_descriptors() {
    let l = LibInfo::new(s("org.ow2.asm:asm:9.5"));
    assert_eq!(l.name, "org.ow2.asm.asm");
    assert_eq!(l.version, "9.5");
    assert_eq!(l.path, "org/ow2/asm/asm/9.5/asm-9.5.jar");
    let bad = LibInfo::new(s("just-a-name"));
    assert_eq!(bad.name, "");
    assert_eq!(bad.path, "");
}

#[test]
fn newest_library_versions_are_kept() {
    let libs = vec![
        LibInfo::new(s("a:x:1.0")),
        LibInfo::new(s("b:y:3")),
        LibInfo::new(s("a:x:2.0")),
        LibInfo::new(s("a:x:1.5")),
    ];
    let r = check_libs_ver_static(libs);
    let names: Vec<String> = r.iter().map(|l| l.full_name.clone()).collect();
    assert_eq!(names, vec!["a:x:2.0", "b:y:3"]);
}

#[test]
fn coordinates_parse() {
    let a = parse_maven_coordinate(" com.mumfrey : liteloader : 1.12.2 :x").unwrap();
    assert_eq!((a.group_id.as_str(), a.artifact_id.as_str(), a.version.as_str()), ("com.mumfrey", "liteloader", "1.12.2"));
    assert!(parse_maven_coordinate("a::1").is_none());
    assert!(parse_maven_coordinate("a:b").is_none());
    assert_eq!(Artifact { group_id: s("g"), artifact_id: s("a"), version: s("1") }.to_coordinate(), "g:a:1");
}

fn natives(os: &str, value: NativeValue) -> Option<Vec<NativeEntry>> {
    Some(vec![NativeEntry { os: s(os), value }])
}

#[test]
fn classified_library_names() {
    let lib = MetaLibrary {
        name: Some(s("org.lwjgl:lwjgl:2.9.0")),
        url: None,
        sha1: None,
        natives: natives("linux", NativeValue::Text(s("natives-linux-${arch}"))),
    };
    assert_eq!(get_maven_name_with_classifier(&lib, "linux", "64"), "org.lwjgl:lwjgl:2.9.0:natives-linux-64");
    assert_eq!(get_maven_name_with_classifier(&lib, "windows", "64"), "org.lwjgl:lwjgl:2.9.0");
    let null = MetaLibrary { natives: natives("linux", NativeValue::Null), ..lib };
    assert_eq!(get_maven_name_with_classifier(&null, "linux", "64"), "org.lwjgl:lwjgl:2.9.0");
    let other = MetaLibrary { natives: natives("linux", NativeValue::Other), ..null };
    assert_eq!(get_maven_name_with_classifier(&other, "linux", "64"), "org.lwjgl:lwjgl:2.9.0:");
    let unnamed = MetaLibrary { name: None, ..other };
    assert_eq!(get_maven_name_with_classifier(&unnamed, "linux", "64"), "");
}

fn lib(name: Option<&str>, url: Option<&str>, sha1: Option<&str>) -> MetaLibrary {
    MetaLibrary { name: name.map(s), url: url.map(s), sha1: sha1.map(s), natives: None }
}

#[test]
fn babric_style_targets() {
    let libs = vec![lib(Some("net.fabricmc:fabric-loader:0.14.0"), None, Some("aa")), lib(Some("x:y:1"), Some("https://m/"), None)];
    let r = classified_library_targets(&libs, "https://meta.babric.glass-launcher.net/", "/games/mc", "linux", "64", PathStyle::Posix);
    assert_eq!(r[0].name, "net.fabricmc:fabric-loader:0.14.0");
    assert_eq!(r[0].path, "/games/mc/libraries/net/fabricmc/fabric-loader/0.14.0/fabric-loader-0.14.0.jar");
    assert_eq!(r[0].url, "https://meta.babric.glass-launcher.net/net/fabricmc/fabric-loader/0.14.0/fabric-loader-0.14.0.jar");
    assert_eq!(r[0].sha1, "aa");
    assert_eq!(r[1].url, "https://m/x/y/1/y-1.jar");
    assert_eq!(r[1].sha1, "");
}

#[test]
fn fabric_and_quilt_targets() {
    let libs = vec![lib(Some("net.fabricmc:intermediary:1.20.1"), Some("https://maven.fabricmc.net/"), None)];
    let f = profile_library_targets(&libs, "https://bmclapi2.bangbang93.com/fabric-meta/", "/mc", true, PathStyle::Posix).unwrap();
    // The official Maven prefix is replaced together with its trailing slash.
    assert_eq!(f[0].url, "https://bmclapi2.bangbang93.com/mavennet/fabricmc/intermediary/1.20.1/intermediary-1.20.1.jar");
    assert_eq!(f[0].path, "/mc/libraries/net/fabricmc/intermediary/1.20.1/intermediary-1.20.1.jar");
    let o = profile_library_targets(&libs, "https://meta.fabricmc.net/", "/mc", true, PathStyle::Posix).unwrap();
    assert_eq!(o[0].url, "https://maven.fabricmc.net/net/fabricmc/intermediary/1.20.1/intermediary-1.20.1.jar");
    let q = profile_library_targets(&vec![lib(Some("a:b:1"), None, Some("s"))], "https://meta.quiltmc.org/", "C:\\mc", false, PathStyle::Windows).unwrap();
    assert_eq!(q[0].url, "https://meta.quiltmc.org/a/b/1/b-1.jar");
    assert_eq!(q[0].path, "C:\\mc\\libraries\\a/b/1/b-1.jar");
    let bad = profile_library_targets(&vec![lib(None, None, None)], "https://meta.quiltmc.org/", "/mc", false, PathStyle::Posix);
    assert_eq!(bad.err(), Some(ProfileError::LibraryWithoutName));
}

fn miss(name: &str) -> MissFileData {
    MissFileData { name: s(name), path: s("p"), url: s("u"), sha1: s("") }
}

#[test]
fn current_files_are_dropped() {
    let r = keep_missing(vec![miss("a"), miss("b"), miss("c")], &vec![true, false, false]);
    let names: Vec<String> = r.iter().map(|m| m.name.clone()).collect();
    assert_eq!(names, vec!["b", "c"]);
}

#[test]
fn installer_download_settings() {
    assert_eq!(FabricInstaller::new(1, s("g")).download_source, "https://bmclapi2.bangbang93.com/fabric-meta/");
    assert_eq!(FabricInstaller::new(0, s("g")).download_source, "https://meta.fabricmc.net/");
    assert_eq!(QuiltInstaller::new(1, s("g")).download_source, "https://bmclapi2.bangbang93.com/quilt-meta/");
    assert_eq!(QuiltInstaller::new(7, s("g")).download_source, "https://meta.quiltmc.org/");
    assert_eq!(BabricInstaller::new(DownloadMirror::Bmclapi, s("g")).game_dir, "g");
    assert_eq!(LegacyFabricInstaller::new(DownloadMirror::Bmclapi, s("g")).download_source, "https://meta.legacyfabric.net/");
    assert_eq!(OptiFineInstaller::new(0, s("g"), s("1.20.1")).download_source, "https://optifine.net/download");
    assert_eq!(OptiFineInstaller::new(1, s("g"), s("1.20.1")).download_source, "https://bmclapi2.bangbang93.com/optifine");
    let m = ModrinthModpackInstaller::new("g", true, "pack.mrpack");
    assert!(m.version_isolation);
    assert_eq!(m.modpack_file_path, "pack.mrpack");
    assert_eq!(CleanroomInstaller::new(1, s("g")).source_id, 1);
}

#[test]
fn forge_installer_settings() {
    let f = ForgeInstaller::new(1, s("/mc"), s("1.20.1"), PathStyle::Posix);
    assert_eq!(f.base_url, "https://bmclapi2.bangbang93.com/maven");
    let maps: Vec<(String, String)> = f.base.source_mappings.iter().map(|m| (m.original.clone(), m.default.clone())).collect();
    assert_eq!(maps.len(), 3);
    assert_eq!(maps[1], (s("https://files.minecraftforge.net/maven"), s("https://bmclapi2.bangbang93.com/maven")));
    let o = ForgeInstaller::new(0, s("/mc"), s("1.20.1"), PathStyle::Posix);
    assert_eq!(o.base.base_url, "https://maven.minecraftforge.net|https://libraries.minecraft.net");
    assert!(o.base.source_mappings.is_empty());
    let n = NeoForgeInstaller::new(1, s("/mc"), s("1.20.4"), PathStyle::Posix);
    assert_eq!(n.base.source_mappings[1].default, "https://bmclapi2.bangbang93.com/maven/net/neoforged/neoforge");
}

#[test]
fn forge_library_targets_probe_repositories() {
    let n = NeoForgeInstaller::new(0, s("C:\\mc"), s("1.20.4"), PathStyle::Windows);
    let t = n.base.library_targets(vec![LibInfo::new(s("net.neoforged:neoforge:20.4.80"))]);
    assert_eq!(t.len(), 1);
    assert_eq!(t[0].file.name, "net.neoforged.neoforge-20.4.80.jar");
    assert_eq!(t[0].file.path, "C:\\mc\\libraries\\net/neoforged/neoforge/20.4.80/neoforge-20.4.80.jar");
    assert_eq!(
        t[0].candidates,
        vec![
            "https://maven.neoforged.net/releases/net/neoforged/neoforge/20.4.80/neoforge-20.4.80.jar",
            "https://libraries.minecraft.net/net/neoforged/neoforge/20.4.80/neoforge-20.4.80.jar"
        ]
    );
    assert_eq!(t[0].file.url, t[0].candidates[1]);
    let first = n.base.library_targets(vec![LibInfo::new(s("net.neoforged:neoforge:20.4.80"))]);
    let settled = settle_target(first.into_iter().next().unwrap(), Some(0));
    assert_eq!(settled.url, "https://maven.neoforged.net/releases/net/neoforged/neoforge/20.4.80/neoforge-20.4.80.jar");
    let none = n.base.library_targets(vec![LibInfo::new(s("a:b:1"))]).into_iter().next().unwrap();
    assert_eq!(settle_target(none, None).url, "https://libraries.minecraft.net/a/b/1/b-1.jar");
}

#[test]
fn forge_library_targets_follow_mappings() {
    let f = ForgeInstaller::new(1, s("/mc"), s("1.20.1"), PathStyle::Posix);
    let mut l = LibInfo::new(s("a:b:1"));
    l.url = s("https://maven.minecraftforge.net");
    l.hash = s("h");
    let mut plain = LibInfo::new(s("c:d:2"));
    plain.url = String::new();
    let t = f.base.library_targets(vec![l, plain]);
    assert_eq!(t[0].file.url, "https://bmclapi2.bangbang93.com/maven");
    assert_eq!(t[0].file.sha1, "h");
    assert!(t[0].candidates.is_empty());
    assert_eq!(t[1].file.url, "https://bmclapi2.bangbang93.com/maven/c/d/2/d-2.jar");
    let unmapped = SourcesList { original: s("x"), default: s("y") };
    assert_eq!(unmapped.default, "y");
}

#[test]
fn cleanroom_targets() {
    let c = CleanroomInstaller::new(0, s("/mc"));
    let mut own = LibInfo::new(s("g:own:1"));
    own.url = s("https://own/x.jar");
    let r = c.get_miss_cleanroom_libraries(vec![LibInfo::new(s("g:a:1")), own, LibInfo::new(s("g:a:2"))], PathStyle::Posix);
    assert_eq!(r.len(), 2);
    assert_eq!(r[0].name, "g.a-2.jar");
    assert_eq!(r[0].url, "https://repo.maven.apache.org/maven2/g/a/2/a-2.jar");
    assert_eq!(r[0].path, "/mc/libraries/g/a/2/a-2.jar");
    assert_eq!(r[1].url, "https://own/x.jar");
    let b = CleanroomInstaller::new(1, s("/mc")).get_miss_cleanroom_libraries(vec![LibInfo::new(s("g:a:1"))], PathStyle::Posix);
    assert_eq!(b[0].url, "https://bmclapi2.bangbang93.com/maven/g/a/1/a-1.jar");
}

fn artefact(version: &str, file: Option<&str>, libraries: Option<Vec<Option<LiteLibEntry>>>) -> Option<LiteArtefact> {
    Some(LiteArtefact { version: Some(s(version)), file: file.map(s), tweak_class: None, libraries })
}

#[test]
fn liteloader_versions_from_the_index() {
    let inst = LiteloaderInstaller::new(1, s("/mc"), s("1.12.2"));
    assert_eq!(inst.base_repo_url, "https://bmclapi2.bangbang93.com/maven/");
    let arts = vec![
        None,
        artefact("1.12.2-SNAPSHOT", Some("liteloader-1.12.2-SNAPSHOT.jar"), Some(vec![
            Some(LiteLibEntry { name: Some(s("net.minecraft:launchwrapper:1.12")), url: None }),
            None,
            Some(LiteLibEntry { name: Some(s("")), url: None }),
        ])),
    ];
    let v = inst.remote_version_from_versions("1.12.2", "1.12.2-SNAPSHOT", &arts).unwrap();
    assert_eq!(v.urls, vec!["https://bmclapi2.bangbang93.com/maven/com/mumfrey/liteloader/1.12.2-SNAPSHOT/liteloader-1.12.2-SNAPSHOT.jar"]);
    assert_eq!(v.tweak_class, "com.mumfrey.liteloader.launch.LiteLoaderTweaker");
    assert_eq!(v.libraries.len(), 1);
    assert_eq!(v.libraries[0].url.as_deref(), Some("https://bmclapi2.bangbang93.com/maven/"));
    let di = v.libraries[0].download_info.as_ref().unwrap();
    assert_eq!(di.url.as_deref(), Some("https://bmclapi2.bangbang93.com/maven/net/minecraft/launchwrapper/1.12/launchwrapper-1.12.jar"));
    let official = LiteloaderInstaller::new(0, s("/mc"), s("1.12.2"));
    let o = official.remote_version_from_versions("1.12.2", "1.12.2-SNAPSHOT", &arts).unwrap();
    assert_eq!(o.libraries[0].url.as_deref(), Some("https://repo.spongepowered.org/maven"));
    assert!(inst.remote_version_from_versions("1.12.2", "9.9", &arts).is_none());
    let no_file = vec![artefact("1.12.2-SNAPSHOT", Some(""), None)];
    assert!(inst.remote_version_from_versions("1.12.2", "1.12.2-SNAPSHOT", &no_file).is_none());
}

#[test]
fn liteloader_core_library_is_merged_once() {
    let inst = LiteloaderInstaller::new(0, s("/mc"), s("1.12.2"));
    let remote = LiteLoaderRemoteVersion {
        game_version: s("1.12.2"),
        self_version: s("1.12.2-SNAPSHOT"),
        urls: Vec::new(),
        tweak_class: String::new(),
        libraries: Vec::new(),
        json: None,
    };
    let core = inst.create_core_library(&remote);
    let di = core.download_info.as_ref().unwrap();
    assert_eq!(di.path.as_deref(), Some("com/mumfrey/liteloader/1.12.2-SNAPSHOT/liteloader-1.12.2-SNAPSHOT.jar"));
    assert_eq!(
        di.url.as_deref(),
        Some("https://dl.liteloader.com/versions/com/mumfrey/liteloader/1.12.2-SNAPSHOT/liteloader-1.12.2-SNAPSHOT.jar")
    );
    let once = LiteloaderInstaller::merge_libraries(Vec::new(), inst.create_core_library(&remote));
    assert_eq!(once.len(), 1);
    let twice = LiteloaderInstaller::merge_libraries(once, core);
    assert_eq!(twice.len(), 1);
}

#[test]
fn failed_and_offline_results() {
    let f = failed_auth_result("boom");
    assert!(!f.success);
    assert_eq!(f.error_message.as_deref(), Some("boom"));
    assert!(f.access_token.is_none());
    let o = OfflineAuthProvider.authenticate(None);
    assert!(o.success);
    assert_eq!(o.username.as_deref(), Some("Player"));
    assert_eq!(o.user_type.as_deref(), Some("legacy"));
    assert_eq!(o.access_token.as_ref().unwrap().len(), 36);
    assert_ne!(o.access_token, o.client_token);
    let named = OfflineAuthProvider.authenticate(Some(s("Steve")));
    assert_eq!(named.username.as_deref(), Some("Steve"));
}

#[test]
fn device_code_polls() {
    let unreadable = poll_token_result(&None);
    assert_eq!(unreadable.error.as_deref(), Some("解析失败"));
    assert!(unreadable.is_pending && !unreadable.is_completed);
    let done = poll_token_result(&Some(TokenAnswer { error: None, access_token: Some(s("a")), refresh_token: Some(s("r")) }));
    assert!(done.is_completed && !done.is_pending);
    assert_eq!(done.refresh_token.as_deref(), Some("r"));
    let declined = poll_token_result(&Some(TokenAnswer { error: Some(s("authorization_declined")), access_token: None, refresh_token: None }));
    assert!(!declined.is_pending && !declined.is_completed);
    let slow = poll_token_result(&Some(TokenAnswer { error: Some(s("slow_down")), access_token: Some(s("ignored")), refresh_token: None }));
    assert!(slow.is_pending);
    assert!(slow.access_token.is_none());
}

#[test]
fn device_codes() {
    let d = device_code_result(&DeviceAnswer {
        device_code: Some(s("d")),
        user_code: Some(s("u")),
        verification_uri: None,
        interval: None,
        expires_in: Some(600),
    })
    .unwrap();
    assert_eq!((d.interval, d.expires_in), (5, 600));
    assert_eq!(d.verification_uri, "");
    let missing = DeviceAnswer { device_code: Some(s("d")), user_code: None, verification_uri: None, interval: None, expires_in: None };
    assert!(device_code_result(&missing).is_none());
}

#[test]
fn yggdrasil_results() {
    assert_eq!(yggdrasil_root("https://x/api/yggdrasil//"), "https://x/api/yggdrasil/");
    assert_eq!(yggdrasil_failure(403, None).error_message.as_deref(), Some("认证失败: 403"));
    let refused = yggdrasil_failure(401, None);
    assert!(!refused.success && refused.expires_at.is_none() && refused.client_token.is_none());
    assert!(refused.refresh_token.is_none() && refused.user_type.is_none() && refused.username.is_none());
    assert_eq!(yggdrasil_failure(403, Some(s("Invalid credentials"))).error_message.as_deref(), Some("Invalid credentials"));
    let answer = YggdrasilAnswer {
        access_token: Some(s("tok")),
        client_token: Some(s("cli")),
        selected_profile: None,
        available_profiles: Some(vec![YggdrasilProfile { name: Some(s("Steve")), id: Some(s("abc")) }]),
        user_properties: Some(vec![
            YggdrasilProperty { name: Some(s("preferredLanguage")), value: Some(s("en")) },
            YggdrasilProperty { name: Some(s("userType")), value: Some(s("mojang")) },
        ]),
    };
    let r = yggdrasil_success(&answer, s("2024-01-01T06:00:00+00:00"));
    assert!(r.success);
    assert_eq!(r.username.as_deref(), Some("Steve"));
    assert_eq!(r.uuid.as_deref(), Some("abc"));
    assert_eq!(r.user_type.as_deref(), Some("mojang"));
    assert_eq!(r.expires_at.as_deref(), Some("2024-01-01T06:00:00+00:00"));
    let no_token = YggdrasilAnswer { access_token: None, ..answer };
    assert_eq!(yggdrasil_success(&no_token, s("t")).error_message.as_deref(), Some("无法解析认证响应"));
    assert!(yggdrasil_validated(204));
    assert!(!yggdrasil_validated(200));
    let token = yggdrasil_client_token();
    assert_eq!(token.len(), 32);
    assert!(token.chars().all(|c| c.is_ascii_hexdigit()));
}

#[test]
fn expiry_timestamps() {
    assert_eq!(expires_at_from(0), "1970-01-02T00:00:00+00:00");
    assert_eq!(plus_hours_from(0, 6), "1970-01-01T06:00:00+00:00");
    let now = utc_now_z_string();
    assert_eq!(now.len(), 20);
    assert!(now.ends_with('Z'));
    assert!(now.starts_with("20"));
}
