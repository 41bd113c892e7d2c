use espuino_sync::urlnorm::normalize_url;

#[test]
fn https_with_query_becomes_http_without_query() {
    let url = b"https://example.com/ep1.mp3?src=rss&track=2".to_vec();
    let out = normalize_url(&url);
    assert_eq!(out, b"http://example.com/ep1.mp3".to_vec());
}

#[test]
fn http_without_query_unchanged() {
    let url = b"http://example.com/ep1.mp3".to_vec();
    let out = normalize_url(&url);
    assert_eq!(out, url);
}

#[test]
fn https_without_query_scheme_rewritten() {
    let url = b"https://example.com/show/ep.mp3".to_vec();
    let out = normalize_url(&url);
    assert_eq!(out, b"http://example.com/show/ep.mp3".to_vec());
}

#[test]
fn query_removed_fragment_kept() {
    let url = b"http://example.com/a.mp3?sig=abc#t=30".to_vec();
    let out = normalize_url(&url);
    assert_eq!(out, b"http://example.com/a.mp3#t=30".to_vec());
}

#[test]
fn other_scheme_left_alone() {
    let url = b"ftp://example.com/a.mp3".to_vec();
    let out = normalize_url(&url);
    assert_eq!(out, url);
}

#[test]
fn question_mark_inside_fragment_not_a_query() {
    let url = b"http://example.com/a.mp3#frag?not-a-query".to_vec();
    let out = normalize_url(&url);
    assert_eq!(out, url);
}
