use qomicex_core::forge::{build_processor_command, output_sha1, processor_args_text};
use qomicex_core::forgeinstall::{
    binpatch_text, get_profile_name, is_legacy_forge_installer, neoforge_profile_accepted, ForgeInstaller,
    InstallerCheckError, NeoForgeInstaller,
};
use qomicex_core::paths::PathStyle;

#[test]
fn profile_name_prefers_profile_text() {
    assert_eq!(get_profile_name(Some("forge".to_string()), Some("other".to_string())), "forge");
    assert_eq!(get_profile_name(Some(String::new()), Some("other".to_string())), "other");
    assert_eq!(get_profile_name(None, Some("other".to_string())), "other");
    assert_eq!(get_profile_name(None, None), "");
}

#[test]
fn legacy_forge_installer_check() {
    assert_eq!(is_legacy_forge_installer("forge", None), Ok(true));
    assert_eq!(is_legacy_forge_installer("Forge", Some(0)), Ok(true));
    assert_eq!(is_legacy_forge_installer("FORGE", Some(12)), Ok(false));
    assert_eq!(is_legacy_forge_installer("neoforge", Some(3)), Err(InstallerCheckError::WrongInstaller));
    assert_eq!(is_legacy_forge_installer("", None), Err(InstallerCheckError::WrongInstaller));
}

#[test]
fn neoforge_profile_names() {
    assert!(neoforge_profile_accepted(Some("NeoForge".to_string()), "1.21.1"));
    assert!(neoforge_profile_accepted(Some("forge".to_string()), "1.20.1"));
    assert!(!neoforge_profile_accepted(Some("forge".to_string()), "1.21.1"));
    assert!(!neoforge_profile_accepted(None, "1.20.1"));
    assert!(!neoforge_profile_accepted(Some("fabric".to_string()), "1.20.1"));
}

#[test]
fn lzma_directories() {
    let forge = ForgeInstaller::new(0, "/games/mc".to_string(), "1.20.1".to_string(), PathStyle::Posix);
    assert_eq!(forge.lzma_dir("47.2.0"), "/games/mc/libraries/net/minecraftforge/forge/1.20.1-47.2.0");
    let neo = NeoForgeInstaller::new(1, "C:\\mc".to_string(), "1.21.1".to_string(), PathStyle::Windows);
    assert_eq!(neo.lzma_dir("21.1.5"), "C:\\mc\\libraries\\net\\neoforged\\neoforge\\21.1.5");
}

#[test]
fn binpatch_text_quotes_the_path() {
    assert_eq!(binpatch_text("/a/b", PathStyle::Posix), "\"/a/b/client.lzma\"");
    assert_eq!(binpatch_text("C:\\x\\", PathStyle::Windows), "\"C:\\x\\client.lzma\"");
}

#[test]
fn processor_command_text() {
    let args = vec!["--input".to_string(), "{MINECRAFT_JAR}".to_string(), "".to_string()];
    assert_eq!(processor_args_text(&args), "--input {MINECRAFT_JAR}");
    assert_eq!(processor_args_text(&vec![]), "");
    let cp = vec!["/l/a.jar".to_string(), "/l/b.jar".to_string()];
    assert_eq!(
        build_processor_command(&cp, "/l/p.jar", "net.Main", "--x 1", PathStyle::Posix),
        "-cp \"/l/a.jar:/l/b.jar:/l/p.jar\" net.Main --x 1"
    );
    assert_eq!(
        build_processor_command(&vec![], "C:\\p.jar", "M", "", PathStyle::Windows),
        "-cp \";C:\\p.jar\" M "
    );
    assert_eq!(output_sha1("'abc'"), "abc");
    assert_eq!(output_sha1("abc"), "abc");
    assert_eq!(output_sha1("''"), "");
}
