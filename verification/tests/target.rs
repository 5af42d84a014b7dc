use hop_endpoint::target::{fetched_url, path_of};

#[test]
fn path_of_reduces_to_path_and_never_leaks_a_host() {
    assert_eq!(path_of("https://evil.com/a/b?q=1"), "/a/b?q=1");
    assert_eq!(path_of("hops://example.com/"), "/");
    assert_eq!(path_of("/already/a/path"), "/already/a/path");
    assert_eq!(path_of("no-leading-slash"), "/no-leading-slash");
    assert_eq!(path_of("http://host"), "/");
    assert_eq!(path_of("/healthz"), "/healthz");
}

#[test]
fn path_of_edges() {
    assert_eq!(path_of(""), "/");
    assert_eq!(path_of("http://"), "/");
    assert_eq!(path_of("http://user@host:80//x"), "//x");
    assert_eq!(path_of("HTTP://host/x"), "/HTTP://host/x");
    assert_eq!(path_of("ftp://host/x"), "/ftp://host/x");
    assert_eq!(path_of("https://evil.com?q=1"), "/?q=1", "the query is kept");
    assert_eq!(path_of("https://a?b/c"), "/?b/c");
    assert_eq!(path_of("hops://a/b?c/d"), "/b?c/d");
    assert_eq!(path_of("http://?"), "/?");
    assert_eq!(path_of("?q=1"), "/?q=1");
    assert_eq!(path_of(&path_of("https://a/https://b/c")), "/https://b/c");
}

#[test]
fn only_the_origin_is_fetched() {
    for target in ["https://evil.com/x", "evil.com/x", "@evil.com/x", ".evil.com", ":99/x", ""] {
        let url = fetched_url("http://origin:80", target);
        assert!(url.starts_with("http://origin:80/"), "{url}");
    }
    assert_eq!(fetched_url("http://o", "hops://h/a?b"), "http://o/a?b");
}
