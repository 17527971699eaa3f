use meetcat::nav::{is_meeting_path, is_meeting_url, should_open_external};

#[test]
fn test_is_meeting_path_code() {
    assert!(is_meeting_path("/abc-defg-hij"));
    assert!(is_meeting_path("/abc-defg-hij/"));
    assert!(!is_meeting_path("/ab-defg-hij"));
    assert!(!is_meeting_path("/abc-defg-hij/extra"));
}

#[test]
fn test_is_meeting_path_lookup() {
    assert!(is_meeting_path("/lookup/abc-defg-hij"));
    assert!(is_meeting_path("/lookup/anything"));
}

#[test]
fn test_is_meeting_path_home() {
    assert!(!is_meeting_path("/"));
    assert!(!is_meeting_path(""));
}

#[test]
fn test_is_meeting_url() {
    // https://meet.google.com/abc-defg-hij
    assert!(is_meeting_url(Some("meet.google.com"), "/abc-defg-hij"));

    // https://meet.google.com/
    assert!(!is_meeting_url(Some("meet.google.com"), "/"));

    // https://example.com/abc-defg-hij
    assert!(!is_meeting_url(Some("example.com"), "/abc-defg-hij"));

    // a URL without a host never names a meeting page
    assert!(!is_meeting_url(None, "/abc-defg-hij"));
}

#[test]
fn test_should_open_external_from_meeting() {
    // current: https://meet.google.com/abc-defg-hij
    let current_host = Some("meet.google.com");
    let current_path = "/abc-defg-hij";

    // target https://meet.google.com/ stays inside
    assert!(!should_open_external(current_host, current_path, Some("meet.google.com")));
    // target https://example.com/ leaves
    assert!(should_open_external(current_host, current_path, Some("example.com")));
}

#[test]
fn test_should_open_external_from_home() {
    // current: https://meet.google.com/ (not a meeting page)
    assert!(!should_open_external(Some("meet.google.com"), "/", Some("example.com")));
}
