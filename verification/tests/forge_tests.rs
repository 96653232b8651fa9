use qomicex_core::forge::{DataEntry, ForgeInstallerBase};
use qomicex_core::installer::InstallerBase;
use qomicex_core::paths::{has_root_exec, join_path, PathStyle};

fn base_with(game_dir: &str) -> ForgeInstallerBase {
    ForgeInstallerBase {
        base_url: "https://maven.minecraftforge.net".to_string(),
        source_id: 0,
        game_dir: game_dir.to_string(),
        game_version: "26.2".to_string(),
        installer_path: "C:/tmp/forge-26.2-65.1.1-installer.jar".to_string(),
        main_jar_path: "versions/26.2/26.2.jar".to_string(),
        source_mappings: Vec::new(),
        path_style: PathStyle::Windows,
    }
}

/// The `data` object of a Forge 26.2-65.1.1 install profile, in key order.
fn install_profile_data() -> Vec<DataEntry> {
    vec![
        DataEntry {
            name: "MC_UNPACKED".to_string(),
            client: Some("[net.minecraft:client:26.2]".to_string()),
        },
        DataEntry { name: "MINECRAFT_JAR".to_string(), client: Some(String::new()) },
        DataEntry {
            name: "PATCHED".to_string(),
            client: Some("[net.minecraftforge:forge:26.2-65.1.1:client]".to_string()),
        },
        DataEntry {
            name: "PATCHED_SHA".to_string(),
            client: Some("'f9ef709fa7988febfca4c91b87d3d1ad8a438097'".to_string()),
        },
    ]
}

#[test]
fn replace_arguments_with_populated_game_dir_resolves_patched_to_absolute_path() {
    let base = base_with(r"C:\Games\.minecraft");
    let data = install_profile_data();

    let resolved = base
        .replace_arguments(&data, &format!("{{PATCHED}}={{PATCHED_SHA}}"))
        .expect("replace_arguments 不应失败");

    let expected_abs = join_path(
        &join_path(r"C:\Games\.minecraft", "libraries", PathStyle::Windows),
        &InstallerBase::maven_to_path("net.minecraftforge:forge:26.2-65.1.1:client").replace('/', "\\"),
        PathStyle::Windows,
    );
    assert!(resolved.starts_with(&expected_abs), "应解析为绝对库路径，got: {resolved}");
    assert!(!resolved.starts_with("libraries\\net\\"), "不应是相对 libraries 路径: {resolved}");
}

#[test]
fn output_key_resolves_to_absolute_with_populated_game_dir_not_reparsed() {
    let processed_key = base_with("")
        .replace_arguments(&install_profile_data(), "{PATCHED}")
        .expect("resolve");
    assert!(
        processed_key.starts_with("libraries\\net\\minecraftforge\\forge\\"),
        "空 game_dir 应产生相对 libraries 路径：{processed_key}"
    );
    let populated_key = base_with(r"C:\Games\.minecraft")
        .replace_arguments(&install_profile_data(), "{PATCHED}")
        .expect("resolve");
    let chars: Vec<char> = populated_key.chars().collect();
    assert!(has_root_exec(&chars, PathStyle::Windows), "应为绝对路径：{populated_key}");
    assert!(
        populated_key
            .get(..r"C:\Games\.minecraft".len())
            .is_some_and(|h| h.eq_ignore_ascii_case(r"C:\Games\.minecraft")),
        "应以 gameDir 为前缀：{populated_key}"
    );
}
