use saba_core::url::Url;

fn record(url: &str, host: &str, port: &str, path: &str, searchpart: &str) -> Url {
    Url {
        url: url.to_string(),
        host: host.to_string(),
        port: port.to_string(),
        path: path.to_string(),
        searchpart: searchpart.to_string(),
    }
}

#[test]
fn test_url_host() {
    let url = "http://example.com".to_string();
    let expected = Ok(Url {
        url: url.clone(),
        host: "example.com".to_string(),
        port: "80".to_string(),
        path: "".to_string(),
        searchpart: "".to_string(),
    });
    assert_eq!(expected, Url::new(url).parse());
}

#[test]
fn test_url_host_port() {
    let url = "http://example.com:8888".to_string();
    let expected = Ok(Url {
        url: url.clone(),
        host: "example.com".to_string(),
        port: "8888".to_string(),
        path: "".to_string(),
        searchpart: "".to_string(),
    });
    assert_eq!(expected, Url::new(url).parse());
}

#[test]
fn test_url_host_port_path() {
    let url = "http://example.com:8888/index.html".to_string();
    let expected = Ok(Url {
        url: url.clone(),
        host: "example.com".to_string(),
        port: "8888".to_string(),
        path: "index.html".to_string(),
        searchpart: "".to_string(),
    });
    assert_eq!(expected, Url::new(url).parse());
}

#[test]
fn test_url_host_path() {
    let url = "http://example.com/index.html".to_string();
    let expected = Ok(Url {
        url: url.clone(),
        host: "example.com".to_string(),
        port: "80".to_string(),
        path: "index.html".to_string(),
        searchpart: "".to_string(),
    });
    assert_eq!(expected, Url::new(url).parse());
}

#[test]
fn test_url_host_port_path_searchquery() {
    let url = "http://example.com:8888/index.html?a=123&b=456".to_string();
    let expected = Ok(Url {
        url: url.clone(),
        host: "example.com".to_string(),
        port: "8888".to_string(),
        path: "index.html".to_string(),
        searchpart: "a=123&b=456".to_string(),
    });
    assert_eq!(expected, Url::new(url).parse());
}

#[test]
fn test_no_scheme() {
    let url = "example.com".to_string();
    let expected = Err("Only HTTP scheme is supported.".to_string());
    assert_eq!(expected, Url::new(url).parse());
}

#[test]
fn test_unsupported_scheme() {
    let url = "https://example.com:8888/index.html".to_string();
    let expected = Err("Only HTTP scheme is supported.".to_string());
    assert_eq!(expected, Url::new(url).parse());
}

#[test]
fn scheme_marker_found_anywhere() {
    let url = "not-a-url-but-contains-http://";
    let parsed = Url::new(url.to_string()).parse();
    assert_eq!(parsed, Ok(record(url, "not-a-url-but-contains-http", "", "/", "")));
}

#[test]
fn empty_port_after_colon() {
    let url = "http://host:/a";
    assert_eq!(Url::new(url.to_string()).parse(), Ok(record(url, "host", "", "a", "")));
}

#[test]
fn extra_slashes_belong_to_path() {
    let url = "http://h/a/b?x=1?y=2";
    assert_eq!(Url::new(url.to_string()).parse(), Ok(record(url, "h", "80", "a/b", "x=1?y=2")));
}

#[test]
fn accessors_return_parsed_parts() {
    let mut u = Url::new("http://example.com:8080/p?q".to_string());
    assert!(u.parse().is_ok());
    assert_eq!(u.host(), "example.com");
    assert_eq!(u.port(), "8080");
    assert_eq!(u.path(), "p");
    assert_eq!(u.searchpart(), "q");
}

#[test]
fn failed_parse_leaves_record_unchanged() {
    let mut u = Url::new("ftp://x".to_string());
    assert_eq!(u.parse(), Err("Only HTTP scheme is supported.".to_string()));
    assert_eq!(u, record("ftp://x", "", "", "", ""));
}
