use qomicex_core::rollback::{cleanroom_rollback_dirs, neoforge_rollback_dirs};

fn v(xs: &[&str]) -> Vec<String> {
    xs.iter().map(|x| x.to_string()).collect()
}

#[test]
fn cleanroom_removes_each_dir_once_deepest_first() {
    let dirs = v(&["/mc/versions/x", "/mc/libraries/a/b", "/mc/versions/x", "/mc/libraries/a/c", "/mc"]);
    assert_eq!(
        cleanroom_rollback_dirs(&dirs),
        v(&["/mc/libraries/a/b", "/mc/libraries/a/c", "/mc/versions/x", "/mc"])
    );
    assert!(cleanroom_rollback_dirs(&vec![]).is_empty());
}

#[test]
fn neoforge_sorts_then_collapses_runs() {
    let dirs = v(&["/a", "/b/c", "/a", "/b/c"]);
    assert_eq!(neoforge_rollback_dirs(&dirs), v(&["/b/c", "/a"]));
    // Equal lengths keep their order, so a repeat that is not adjacent stays.
    let dirs = v(&["/a", "/b", "/a"]);
    assert_eq!(neoforge_rollback_dirs(&dirs), v(&["/a", "/b", "/a"]));
}

#[test]
fn lengths_count_utf8_bytes() {
    // "é" takes two bytes: "/éé" (5 bytes) comes first, "/é" (3) ties with "/ab" and keeps its place.
    let dirs = v(&["/ab", "/éé", "/é"]);
    assert_eq!(cleanroom_rollback_dirs(&dirs), v(&["/éé", "/ab", "/é"]));
}
