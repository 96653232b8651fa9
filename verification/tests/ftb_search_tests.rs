use qomicex_core::ftbsearch::{ftb_search, ftb_sort_mode, FtbPack, FtbSort, FtbTarget};

fn target(kind: &str, version: &str, name: &str) -> FtbTarget {
    FtbTarget { target_type: Some(kind.to_string()), version: Some(version.to_string()), name: Some(name.to_string()) }
}

fn pack(id: i64, name: &str, plays: i64, featured: Option<bool>, mc: &str, loader: &str, tags: &[&str]) -> FtbPack {
    FtbPack {
        id,
        name: name.to_string(),
        synopsis: Some(format!("A pack called {name}")),
        tags: Some(tags.iter().map(|t| t.to_string()).collect()),
        latest_targets: Some(vec![target("game", mc, "minecraft"), target("modloader", "47.2.0", loader)]),
        featured,
        plays,
        plays_14d: 1000 - plays,
        installs: plays * 2,
        released: id * 10,
        updated: 100 - id,
    }
}

fn catalogue() -> Vec<FtbPack> {
    vec![
        pack(1, "Direwolf20", 500, Some(true), "1.20.1", "forge", &["Tech", "Magic"]),
        pack(2, "StoneBlock", 900, None, "1.18.2", "Forge", &["Skyblock"]),
        pack(3, "Academy", 100, Some(false), "1.20.1", "neoforge", &["Tech"]),
        pack(4, "Evolution", 700, Some(true), "1.19.2", "fabric", &["Exploration"]),
    ]
}

fn ids(r: &[FtbPack]) -> Vec<i64> {
    r.iter().map(|p| p.id).collect()
}

#[test]
fn ftb_sort_names() {
    assert_eq!(ftb_sort_mode("trending"), FtbSort::Trending);
    assert_eq!(ftb_sort_mode("name"), FtbSort::Name);
    assert_eq!(ftb_sort_mode("plays"), FtbSort::Plays);
    assert_eq!(ftb_sort_mode("downloads"), FtbSort::Downloads);
    assert_eq!(ftb_sort_mode("released"), FtbSort::Released);
    assert_eq!(ftb_sort_mode("updated"), FtbSort::Updated);
    assert_eq!(ftb_sort_mode("featured"), FtbSort::Featured);
    assert_eq!(ftb_sort_mode("Name"), FtbSort::Featured);
}

#[test]
fn ftb_search_default_order_puts_featured_first() {
    let r = ftb_search(catalogue(), None, None, None, None, "", 10);
    assert_eq!(ids(&r), vec![4, 1, 2, 3]);
}

#[test]
fn ftb_search_orders_by_each_key() {
    assert_eq!(ids(&ftb_search(catalogue(), None, None, None, None, "name", 10)), vec![3, 1, 4, 2]);
    assert_eq!(ids(&ftb_search(catalogue(), None, None, None, None, "plays", 10)), vec![2, 4, 1, 3]);
    assert_eq!(ids(&ftb_search(catalogue(), None, None, None, None, "trending", 10)), vec![3, 1, 4, 2]);
    assert_eq!(ids(&ftb_search(catalogue(), None, None, None, None, "downloads", 10)), vec![2, 4, 1, 3]);
    assert_eq!(ids(&ftb_search(catalogue(), None, None, None, None, "released", 10)), vec![4, 3, 2, 1]);
    assert_eq!(ids(&ftb_search(catalogue(), None, None, None, None, "updated", 10)), vec![1, 2, 3, 4]);
}

#[test]
fn ftb_search_sort_is_stable() {
    let mut packs = catalogue();
    packs[0].plays = 900;
    packs[0].featured = None;
    packs[3].featured = None;
    let r = ftb_search(packs, None, None, None, None, "plays", 10);
    assert_eq!(ids(&r), vec![1, 2, 4, 3]);
}

#[test]
fn ftb_search_filters() {
    let r = ftb_search(catalogue(), Some("STONE"), None, None, None, "name", 10);
    assert_eq!(ids(&r), vec![2]);
    let r = ftb_search(catalogue(), Some("called evo"), None, None, None, "name", 10);
    assert_eq!(ids(&r), vec![4]);
    let tags = vec!["tech".to_string()];
    let r = ftb_search(catalogue(), None, Some(tags.as_slice()), None, None, "name", 10);
    assert_eq!(ids(&r), vec![3, 1]);
    let r = ftb_search(catalogue(), None, None, Some("1.20.1"), None, "name", 10);
    assert_eq!(ids(&r), vec![3, 1]);
    let r = ftb_search(catalogue(), None, None, None, Some("FORGE"), "name", 10);
    assert_eq!(ids(&r), vec![1, 2]);
    let r = ftb_search(catalogue(), None, None, Some("1.20.1"), Some("forge"), "", 10);
    assert_eq!(ids(&r), vec![1]);
    let none: Vec<String> = Vec::new();
    let r = ftb_search(catalogue(), Some(""), Some(none.as_slice()), Some(""), Some(""), "name", 10);
    assert_eq!(r.len(), 4);
}

#[test]
fn ftb_search_limit() {
    assert_eq!(ids(&ftb_search(catalogue(), None, None, None, None, "name", 2)), vec![3, 1]);
    assert!(ftb_search(catalogue(), None, None, None, None, "name", 0).is_empty());
    assert!(ftb_search(catalogue(), None, None, None, None, "name", -3).is_empty());
}

#[test]
fn ftb_search_without_targets_fails_version_filters() {
    let mut packs = catalogue();
    packs[0].latest_targets = None;
    let r = ftb_search(packs, None, None, Some("1.20.1"), None, "name", 10);
    assert_eq!(ids(&r), vec![3]);
}
