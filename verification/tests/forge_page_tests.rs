use qomicex_core::forgehtml::{
    build_link_pattern, file_category, forge_page_entries, forge_row_result, parse_forge_versions, regex_escape,
    version_cell_closed,
};
use qomicex_core::loader::ModLoaderType;

const PAGE: &str = r#"<html><body>
<table class="download-list">
<thead><tr><th>Version</th></tr></thead>
<tbody>
<tr>
  <td class="download-version">
    47.1.0
  </td>
  <td class="download-files">
    <a href="/maven/net/minecraftforge/forge/1.20.1-47.1.0/forge-1.20.1-47.1.0-universal.jar"><i class="fa classifier-universal"></i> Universal</a>
  </td>
</tr>
<tr>
  <td class="download-version">
    47.2.0
    <i class="fa promo-recommended"></i>
  </td>
  <td class="download-files">
    <a href="https://adfoc.us/serve/sitelinks/?id=271228&url=https%3A%2F%2Fmaven.minecraftforge.net%2Fnet%2Fminecraftforge%2Fforge%2F1.20.1-47.2.0%2Fforge-1.20.1-47.2.0-installer.jar"><i class="fa classifier-installer"></i> Installer</a>
    <div class="info-tooltip">sha1: 0123456789abcdef0123456789abcdef01234567</div>
  </td>
</tr>
<tr>
  <td class="download-version">47.0.0x</td>
  <td><a href="/forge-1.20.1-47.0.0-installer.jar">x</a></td>
</tr>
</tbody>
</table>
</body></html>"#;

#[test]
fn regex_escape_marks_meta_characters() {
    assert_eq!(regex_escape("1.20.1"), "1\\.20\\.1");
    assert_eq!(regex_escape("a-b~c"), "a\\-b\\~c");
    assert_eq!(regex_escape("plain"), "plain");
}

#[test]
fn link_pattern_for_a_row() {
    assert_eq!(
        build_link_pattern("1.7.10", "1.7.10_pre4", "10.12.0", "installer"),
        "(?i)href=\"([^\"]*?forge-(?:1\\.7\\.10|1\\.7\\.10_pre4|.1\\.7\\.10)-10\\.12\\.0.*?installer\\.(jar|zip)[^\"]*)\""
    );
}

#[test]
fn version_cells_and_categories() {
    assert!(version_cell_closed("  \n\t</td>"));
    assert!(version_cell_closed("<i>"));
    assert!(!version_cell_closed("x</td>"));
    assert!(!version_cell_closed("   "));
    assert_eq!(file_category(None), "installer");
    assert_eq!(file_category(Some((Some("universal".to_string()), String::new()))), "universal");
    assert_eq!(file_category(Some((None, String::new()))), "installer");
}

#[test]
fn row_result_fields() {
    let r = forge_row_result(
        "14.23.5.2860",
        "1.12.2",
        "/maven/forge.jar",
        Some((Some(" abc ".to_string()), String::new())),
        "<td class=\"PROMO-LATEST\">",
    );
    assert_eq!(r.loader_type, ModLoaderType::Forge);
    assert_eq!(r.version, "14.23.5.2860");
    assert_eq!(r.game_version, "1.12.2");
    assert_eq!(r.url, "https://files.minecraftforge.net/maven/forge.jar");
    assert_eq!(r.sha1, "abc");
    assert!(r.is_recommand);
    assert_eq!(r.release_time, "0001-01-01T00:00:00+00:00");
    let plain = forge_row_result("1", "1.12.2", "https://x/forge.jar", None, "<td>");
    assert_eq!(plain.sha1, "");
    assert!(!plain.is_recommand);
    assert_eq!(plain.url, "https://x/forge.jar");
}

#[test]
fn page_rows_in_page_order() {
    let rows = forge_page_entries("1.20.1", "1.20.1", PAGE);
    assert_eq!(rows.len(), 2);
    assert_eq!(rows[0].version, "47.1.0");
    assert_eq!(
        rows[0].url,
        "https://files.minecraftforge.net/maven/net/minecraftforge/forge/1.20.1-47.1.0/forge-1.20.1-47.1.0-universal.jar"
    );
    assert!(!rows[0].is_recommand);
    assert_eq!(rows[1].version, "47.2.0");
    assert_eq!(
        rows[1].url,
        "https://maven.minecraftforge.net/net/minecraftforge/forge/1.20.1-47.2.0/forge-1.20.1-47.2.0-installer.jar"
    );
    assert_eq!(rows[1].sha1, "0123456789abcdef0123456789abcdef01234567");
    assert!(rows[1].is_recommand);
}

#[test]
fn parsed_versions_newest_first() {
    let r = parse_forge_versions("1.20.1", "1.20.1", PAGE);
    let versions: Vec<&str> = r.iter().map(|e| e.version.as_str()).collect();
    assert_eq!(versions, vec!["47.2.0", "47.1.0"]);
    assert!(parse_forge_versions("1.20.1", "1.20.1", "<html>no table</html>").is_empty());
}
