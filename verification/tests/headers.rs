use hls_fetch::error::PipelineError;
use hls_fetch::headers::check_headers;

#[test]
fn headers_accepted() {
    let set = check_headers("https://a.example", "https://a.example/watch", "Mozilla/5.0 (X11)").unwrap();
    assert_eq!(set.origin, "https://a.example");
    assert_eq!(set.referer, "https://a.example/watch");
    assert_eq!(set.user_agent, "Mozilla/5.0 (X11)");
}

#[test]
fn headers_accept_tab_and_bytes_above_ascii() {
    assert!(check_headers("a\tb", "é", "").is_ok());
}

#[test]
fn headers_refuse_line_feed() {
    assert!(matches!(check_headers("a\nb", "r", "u"), Err(PipelineError::HeaderConstruction)));
    assert!(matches!(check_headers("o", "r\r", "u"), Err(PipelineError::HeaderConstruction)));
}

#[test]
fn headers_refuse_control_bytes() {
    assert!(matches!(check_headers("o", "r", "u\u{7f}"), Err(PipelineError::HeaderConstruction)));
    assert!(matches!(check_headers("o", "\u{1f}", "u"), Err(PipelineError::HeaderConstruction)));
    assert!(matches!(check_headers("\u{0}", "r", "u"), Err(PipelineError::HeaderConstruction)));
}
