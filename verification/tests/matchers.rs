use testkit::matchers::is_redirect;
use testkit::matchers::MOVED_PERMANENTLY;

#[test]
fn success() {
    assert!(is_redirect(MOVED_PERMANENTLY));
    assert!(is_redirect(301));
}

#[test]
fn failure() {
    // 200 OK is not the moved-permanently redirect, so the matcher says no.
    assert!(!is_redirect(200));
    assert!(!is_redirect(302));
}
