use qomicex_core::ftb::pack_base_directory;
use qomicex_core::modpack::{override_entry_target, OverrideTarget};
use qomicex_core::paths::PathStyle;

#[test]
fn override_entries_are_released_below_the_version_dir() {
    let dir = pack_base_directory("/mc", true, "Pack 1", PathStyle::Posix);
    assert_eq!(dir, "/mc/versions/Pack 1");
    assert_eq!(
        override_entry_target("override/config/a.toml", &dir, PathStyle::Posix),
        Some(OverrideTarget { path: "/mc/versions/Pack 1/config/a.toml".to_string(), is_dir: false })
    );
    assert_eq!(
        override_entry_target("OVERRIDE/mods/", "/mc", PathStyle::Posix),
        Some(OverrideTarget { path: "/mc/mods/".to_string(), is_dir: true })
    );
    assert_eq!(
        override_entry_target("override/", "/mc", PathStyle::Posix),
        Some(OverrideTarget { path: "/mc/".to_string(), is_dir: true })
    );
}

#[test]
fn other_entries_are_not_released() {
    assert_eq!(override_entry_target("modrinth.index.json", "/mc", PathStyle::Posix), None);
    assert_eq!(override_entry_target("overrides/a.txt", "/mc", PathStyle::Posix), None);
    assert_eq!(override_entry_target("overrid", "/mc", PathStyle::Posix), None);
    assert_eq!(pack_base_directory("/mc", false, "x", PathStyle::Posix), "/mc");
}
