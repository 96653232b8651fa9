use qomicex_core::installers::{split_optifine_version, OptiFineInstaller};
use qomicex_core::paths::PathStyle;

#[test]
fn optifine_version_pieces() {
    assert_eq!(split_optifine_version("HD_U-I6"), Some(("HD_U".to_string(), "I6".to_string())));
    assert_eq!(split_optifine_version("HD_U_I6"), None);
    assert_eq!(split_optifine_version("HD-U-I6"), None);
}

#[test]
fn optifine_installer_download_and_library_path() {
    let o = OptiFineInstaller::new(1, "/mc".to_string(), "1.20.1".to_string());
    assert_eq!(
        o.installer_download("HD_U", "I6"),
        ("https://bmclapi2.bangbang93.com/optifine/1.20.1/HD_U/I6".to_string(), "1.20.1_HD_U_I6.jar".to_string())
    );
    assert_eq!(
        o.library_path("1.20.1-OptiFine_HD_U_I6", PathStyle::Posix),
        Some("/mc/libraries/optifine/OptiFine/1.20.1_HD_U/OptiFine-1.20.1_HD_U.jar".to_string())
    );
    assert_eq!(o.library_path("plain", PathStyle::Posix), None);
}
