use qomicex_core::installer::{after_response, may_request, non_empty_param, resolve_redirect, DownloadStep};

#[test]
fn redirects_resolve_against_the_request() {
    assert_eq!(resolve_redirect("https://host/a/b/file.jar", "../c/x.jar"), Some("https://host/a/c/x.jar".to_string()));
    assert_eq!(resolve_redirect("https://host/a/file.jar", "https://mirror/y.jar"), Some("https://mirror/y.jar".to_string()));
    assert_eq!(resolve_redirect("not a url", "relative"), None);
}

#[test]
fn steps_after_an_answer() {
    assert_eq!(
        after_response("https://h/a", 302, Some("/b")),
        DownloadStep::FollowRedirect("https://h/b".to_string())
    );
    assert_eq!(after_response("https://h/a", 301, None), DownloadStep::MissingLocation);
    assert_eq!(after_response("bad", 307, Some("x")), DownloadStep::BadRedirect);
    assert_eq!(after_response("https://h/a", 308, Some("/b")), DownloadStep::Failed(308));
    assert_eq!(after_response("https://h/a", 200, None), DownloadStep::Save);
    assert_eq!(after_response("https://h/a", 204, None), DownloadStep::Save);
    assert_eq!(after_response("https://h/a", 404, None), DownloadStep::Failed(404));
}

#[test]
fn redirect_budget_and_parameters() {
    assert!(may_request(5));
    assert!(may_request(1));
    assert!(!may_request(0));
    assert!(!may_request(-3));
    assert!(non_empty_param(Some("C:/java/bin/java.exe")));
    assert!(!non_empty_param(Some("")));
    assert!(!non_empty_param(None));
}
