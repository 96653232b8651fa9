use qomicex_core::datetime::{civil_from_days, unix_secs_to_iso8601_utc, unsigned_secs_to_iso8601_utc};
use qomicex_core::mcversion::{
    get_minecraft_version_aliases, is_version_below_or_equal, matches_minecraft_version,
    matches_minecraft_version_trimmed, normalize_minecraft_version, parse_neoforge_minecraft_version,
    supports_minecraft_version, version_try_parse,
};
use qomicex_core::urlcode::{escape_data_string, hex_val, web_url_decode};
use qomicex_core::version::{compare, convert_special_label, string_compare_ordinal, version_sort_integer};

fn chars(s: &str) -> Vec<char> {
    s.chars().collect()
}

#[test]
fn version_order_numeric_pieces() {
    assert_eq!(version_sort_integer("1.20.1", "1.19.4"), 1);
    assert_eq!(version_sort_integer("1.19.4", "1.20.1"), -1);
    assert_eq!(version_sort_integer("1.20", "1.20"), 0);
    assert_eq!(version_sort_integer("0.15.10", "0.15.9"), 1);
}

#[test]
fn version_order_labels_sort_before_releases() {
    // "pre" counts as -3 and a missing piece as -1: a pre-release orders below the release.
    assert_eq!(version_sort_integer("1.20-pre1", "1.20"), -1);
    assert_eq!(version_sort_integer("1.20-rc1", "1.20-pre1"), 1);
    assert_eq!(version_sort_integer("1.20-experimental", "1.20-pre1"), -1);
}

#[test]
fn version_order_ignores_case() {
    assert_eq!(version_sort_integer("1.20-RC1", "1.20-rc1"), 0);
    assert_eq!(version_sort_integer("1.20-RC2", "1.20-rc1"), 1);
}

#[test]
fn version_order_unknown_version_last() {
    assert_eq!(version_sort_integer("未知版本", "1.0"), 1);
    assert_eq!(version_sort_integer("1.0", "未知版本"), -1);
    assert_eq!(version_sort_integer("未知版本", "未知版本"), 0);
}

#[test]
fn version_order_law_antisymmetric_and_reflexive() {
    for (a, b) in [("1.12.2", "1.7.10"), ("b1.7.3", "1.0"), ("20w14a", "1.16")] {
        assert_eq!(version_sort_integer(a, b), -version_sort_integer(b, a));
        assert_eq!(version_sort_integer(a, a), 0);
    }
}

#[test]
fn comparer_matches_version_order() {
    assert_eq!(compare("1.2", "1.10"), -1);
    assert_eq!(compare("1.10", "1.2"), 1);
}

#[test]
fn special_labels_convert() {
    assert_eq!(convert_special_label(&chars("pre")), chars("-3"));
    assert_eq!(convert_special_label(&chars("snapshot")), chars("-3"));
    assert_eq!(convert_special_label(&chars("rc")), chars("-2"));
    assert_eq!(convert_special_label(&chars("experimental")), chars("-4"));
    assert_eq!(convert_special_label(&chars("beta")), chars("beta"));
}

#[test]
fn ordinal_string_compare() {
    assert_eq!(string_compare_ordinal(&chars("abc"), &chars("abd")), -1);
    assert_eq!(string_compare_ordinal(&chars("b"), &chars("abc")), 1);
    assert_eq!(string_compare_ordinal(&chars("ab"), &chars("ab")), 0);
    assert_eq!(string_compare_ordinal(&chars("ab"), &chars("abc")), -1);
}

#[test]
fn normalize_game_versions() {
    assert_eq!(normalize_minecraft_version("1.20.1"), "1.20.1");
    assert_eq!(normalize_minecraft_version("  "), "");
    assert_eq!(normalize_minecraft_version("22.1"), "1.22.1");
    assert_eq!(normalize_minecraft_version("26.1-snapshot-1"), "1.26.1");
    assert_eq!(normalize_minecraft_version("20.4"), "20.4");
    assert_eq!(normalize_minecraft_version(" 23w13a "), "23w13a");
}

#[test]
fn game_version_aliases() {
    assert_eq!(get_minecraft_version_aliases("1.20.1"), vec!["1.20.1", "20.1"]);
    assert_eq!(get_minecraft_version_aliases("26.1"), vec!["26.1", "1.26.1"]);
    assert!(get_minecraft_version_aliases(" ").is_empty());
}

#[test]
fn game_version_matching() {
    assert!(matches_minecraft_version("1.20.1", "1.20.1"));
    assert!(matches_minecraft_version("20.1", "1.20.1"));
    assert!(matches_minecraft_version("1.20.1", "20.1"));
    assert!(!matches_minecraft_version("1.20.1", "1.20.2"));
    assert!(!matches_minecraft_version("", "1.20.1"));
    assert!(matches_minecraft_version_trimmed(" 1.20.1 ", "1.20.1"));
}

#[test]
fn game_version_matching_law_symmetric_and_reflexive() {
    for (a, b) in [("1.20.1", "20.1"), ("26.1", "1.26.1"), ("1.12.2", "1.16.5")] {
        assert_eq!(matches_minecraft_version(a, b), matches_minecraft_version(b, a));
        assert!(matches_minecraft_version(a, a));
    }
}

#[test]
fn supported_game_versions() {
    let list = vec!["1.20.1".to_string(), "1.19.4".to_string()];
    assert!(supports_minecraft_version(&list, "1.20.1"));
    assert!(supports_minecraft_version(&list, "20.1"));
    assert!(!supports_minecraft_version(&list, "1.18.2"));
}

#[test]
fn below_or_equal_versions() {
    assert!(is_version_below_or_equal("1.12.2", "1.16"));
    assert!(is_version_below_or_equal("1.16", "1.16.0"));
    assert!(!is_version_below_or_equal("1.17", "1.16.5"));
}

#[test]
fn dotted_version_parsing() {
    assert!(version_try_parse("0.2.3"));
    assert!(version_try_parse(" 1.0 "));
    assert!(!version_try_parse("a.b"));
    assert!(!version_try_parse("1.2.3.4.5"));
    assert!(!version_try_parse(""));
}

#[test]
fn neoforge_game_version() {
    assert_eq!(parse_neoforge_minecraft_version("20.4.80-beta"), "1.20.4");
    assert_eq!(parse_neoforge_minecraft_version("21.0.1"), "1.21");
    assert_eq!(parse_neoforge_minecraft_version("26.1.0.1"), "26.1");
    assert_eq!(parse_neoforge_minecraft_version("0.25w14craftmine.3"), "25w14craftmine");
    assert_eq!(parse_neoforge_minecraft_version("20"), "");
    assert_eq!(parse_neoforge_minecraft_version("x.4.1"), "");
}

#[test]
fn civil_dates() {
    assert_eq!(civil_from_days(0), (1970, 1, 1));
    assert_eq!(civil_from_days(19723), (2024, 1, 1));
    assert_eq!(civil_from_days(-1), (1969, 12, 31));
    assert_eq!(civil_from_days(11016), (2000, 2, 29));
    assert_eq!(civil_from_days(59), (1970, 3, 1));
    assert_eq!(civil_from_days(11017), (2000, 3, 1));
    assert_eq!(civil_from_days(47541), (2100, 3, 1));
    assert_eq!(civil_from_days(47540), (2100, 2, 28));
}

#[test]
fn iso_timestamps() {
    assert_eq!(unix_secs_to_iso8601_utc(0, false), "1970-01-01T00:00:00+00:00");
    assert_eq!(unix_secs_to_iso8601_utc(1700000000, true), "2023-11-14T22:13:20Z");
    assert_eq!(unix_secs_to_iso8601_utc(-1, false), "1969-12-31T23:59:59+00:00");
    assert_eq!(unsigned_secs_to_iso8601_utc(86399), "1970-01-01T23:59:59+00:00");
    assert_eq!(unix_secs_to_iso8601_utc(951782400, false), "2000-02-29T00:00:00+00:00");
}

#[test]
fn escaping_url_data() {
    assert_eq!(escape_data_string("a b/ü"), "a%20b%2F%C3%BC");
    assert_eq!(escape_data_string("1.20.1-pre~_"), "1.20.1-pre~_");
    assert_eq!(escape_data_string("[\"x\"]"), "%5B%22x%22%5D");
}

#[test]
fn decoding_url_data() {
    assert_eq!(web_url_decode("a+b%20c"), "a b c");
    assert_eq!(web_url_decode("%zz%4"), "%zz%4");
    assert_eq!(web_url_decode("%C3%BC"), "ü");
    assert_eq!(web_url_decode("%FF"), "\u{FFFD}");
    assert_eq!(web_url_decode(&escape_data_string("a b+c/ü")), "a b+c/ü");
}

#[test]
fn hex_digit_values() {
    assert_eq!(hex_val(b'7'), Some(7));
    assert_eq!(hex_val(b'c'), Some(12));
    assert_eq!(hex_val(b'F'), Some(15));
    assert_eq!(hex_val(b'g'), None);
}
