use qomicex_core::cfsearch::{search_results, CurseForgeSearchError};
use qomicex_core::json::{JsonMember, JsonValue};

fn st(x: &str) -> JsonValue {
    JsonValue::Str(x.to_string())
}

fn num(x: &str) -> JsonValue {
    JsonValue::Number(x.to_string())
}

fn obj(members: Vec<(&str, JsonValue)>) -> JsonValue {
    JsonValue::Object(members.into_iter().map(|(k, v)| JsonMember { key: k.to_string(), value: v }).collect())
}

fn hit() -> JsonValue {
    obj(vec![
        ("id", num("238222")),
        ("name", st("Just Enough Items")),
        ("slug", st("jei")),
        ("summary", st("View items and recipes")),
        ("status", num("4")),
        ("downloadCount", num("250000000")),
        ("isFeatured", JsonValue::Bool(true)),
        ("logo", obj(vec![("url", st("https://media.forgecdn.net/jei.png"))])),
        (
            "latestFilesIndexes",
            JsonValue::Array(vec![
                obj(vec![("gameVersion", st("1.20.1"))]),
                obj(vec![("gameVersion", st("1.19.2"))]),
                obj(vec![("gameVersion", st("1.20.1"))]),
                obj(vec![("gameVersion", JsonValue::Null)]),
                obj(vec![]),
            ]),
        ),
        ("authors", JsonValue::Array(vec![obj(vec![("id", num("17072")), ("name", st("mezz")), ("url", JsonValue::Null)])])),
        (
            "categories",
            JsonValue::Array(vec![obj(vec![("id", st("421")), ("name", st("API and Library")), ("slug", st("library-api"))])]),
        ),
        ("screenshots", JsonValue::Array(vec![obj(vec![("id", num("5000000000")), ("modId", num("238222")), ("title", st("Recipes"))])])),
    ])
}

#[test]
fn search_hits_become_results() {
    let body = obj(vec![("data", JsonValue::Array(vec![hit()])), ("pagination", obj(vec![("totalCount", num("1234"))]))]);
    let resp = search_results(&body).unwrap();
    assert_eq!(resp.total_count, 1234);
    assert_eq!(resp.results.len(), 1);
    let r = &resp.results[0];
    assert_eq!(r.id, "238222");
    assert_eq!(r.name, "Just Enough Items");
    assert_eq!(r.slug, "jei");
    assert_eq!(r.status, "4");
    assert_eq!(r.download_count, "250000000");
    assert_eq!(r.icon_url, "https://media.forgecdn.net/jei.png");
    assert!(r.is_featured);
    assert_eq!(r.game_version, "1.19.2, 1.20.1");
    assert_eq!(r.authors.len(), 1);
    assert_eq!(r.authors[0].id, 17072);
    assert_eq!(r.authors[0].name, "mezz");
    assert!(r.authors[0].url.is_none());
    assert_eq!(r.categories[0].id, 421);
    assert_eq!(r.categories[0].slug.as_deref(), Some("library-api"));
    assert!(r.categories[0].url.is_none());
    assert_eq!(r.screenshots[0].id, 5000000000i64 as i32);
    assert_eq!(r.screenshots[0].mod_id, 238222);
    assert_eq!(r.screenshots[0].title.as_deref(), Some("Recipes"));
}

#[test]
fn search_answer_edge_cases() {
    let empty_hit = obj(vec![("isFeatured", st("true")), ("logo", st("x"))]);
    let body = obj(vec![("data", JsonValue::Array(vec![empty_hit]))]);
    let resp = search_results(&body).unwrap();
    assert_eq!(resp.total_count, 0);
    let r = &resp.results[0];
    assert_eq!(r.id, "");
    assert_eq!(r.game_version, "");
    assert_eq!(r.icon_url, "");
    assert!(!r.is_featured);
    assert!(r.authors.is_empty() && r.categories.is_empty() && r.screenshots.is_empty());
    let no_data = obj(vec![("pagination", obj(vec![("totalCount", num("9"))]))]);
    let resp = search_results(&no_data).unwrap();
    assert!(resp.results.is_empty());
    assert_eq!(resp.total_count, 0);
    let bad = obj(vec![("data", JsonValue::Array(vec![hit(), st("oops")]))]);
    assert!(matches!(search_results(&bad), Err(CurseForgeSearchError::HitNotObject)));
}
