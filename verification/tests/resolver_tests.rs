use redirects::resolver::{RequestContext, Resolution, RuleOutcome};
use redirects::resolver::{resolve, resolve_rule};
use redirects::keys::{candidate_keys, trim_trailing_slashes};
use redirects::store::RuleTable;

fn ctx(scheme: &str, host: Option<&str>, path: &str, query: Option<&str>) -> RequestContext {
    RequestContext {
        scheme: scheme.to_string(),
        host: host.map(|h| h.to_string()),
        path: path.to_string(),
        query: query.map(|q| q.to_string()),
    }
}

fn table(entries: &[(&str, &str)]) -> RuleTable {
    let mut t = RuleTable::new();
    for (k, v) in entries {
        t.insert(k.to_string(), v.to_string());
    }
    t
}

#[test]
fn candidate_key_order() {
    let host = "example.com".to_string();
    let path = "/foo/bar/baz".to_string();
    let keys = candidate_keys(Some(&host), &path);
    let expect = [
        "example.com/foo/bar/baz",
        "/foo/bar/baz",
        "example.com/foo/bar/baz/*",
        "example.com/foo/bar/*",
        "example.com/foo/*",
        "/foo/bar/baz/*",
        "/foo/bar/*",
        "/foo/*",
    ];
    assert_eq!(keys.len(), expect.len());
    for (k, e) in keys.iter().zip(expect.iter()) {
        assert_eq!(k.as_str(), *e);
    }
}

#[test]
fn candidate_key_order_no_host() {
    let path = "/foo/bar".to_string();
    let keys = candidate_keys(None, &path);
    let expect = ["/foo/bar", "/foo/bar/*", "/foo/*"];
    assert_eq!(keys.len(), expect.len());
    for (k, e) in keys.iter().zip(expect.iter()) {
        assert_eq!(k.as_str(), *e);
    }
}

#[test]
fn trim_trailing_slashes_examples() {
    assert_eq!(trim_trailing_slashes("/foo/"), "/foo");
    assert_eq!(trim_trailing_slashes("/foo///"), "/foo");
    assert_eq!(trim_trailing_slashes("/"), "");
    assert_eq!(trim_trailing_slashes("/foo"), "/foo");
}

#[test]
fn exact_host_path_wins_over_path() {
    let t = table(&[
        ("example.com/foo", r#"{"status":301,"keep_query":false,"path":"/host-keyed"}"#),
        ("/foo", r#"{"status":302,"keep_query":false,"path":"/host-less"}"#),
    ]);
    let c = ctx("http", Some("example.com"), "/foo", None);
    match resolve_rule(&t, &c) {
        RuleOutcome::Matched(rule) => {
            assert_eq!(rule.status, 301);
            assert_eq!(rule.path, "/host-keyed");
        }
        _ => panic!("expected a match"),
    }
}

#[test]
fn no_host_skips_host_keyed_steps() {
    let t = table(&[
        ("example.com/foo", r#"{"status":301,"keep_query":false,"path":"/host-keyed"}"#),
        ("/foo", r#"{"status":302,"keep_query":false,"path":"/host-less"}"#),
    ]);
    let c = ctx("http", None, "/foo", None);
    match resolve_rule(&t, &c) {
        RuleOutcome::Matched(rule) => {
            assert_eq!(rule.status, 302);
            assert_eq!(rule.path, "/host-less");
        }
        _ => panic!("expected a match"),
    }
}

#[test]
fn no_host_skips_host_keyed_wildcards() {
    let t = table(&[
        ("h/a/*", r#"{"status":301,"keep_query":false,"path":"/host-keyed"}"#),
        ("/a/*", r#"{"status":302,"keep_query":false,"path":"/host-less"}"#),
    ]);
    let c = ctx("http", None, "/a/b", None);
    match resolve_rule(&t, &c) {
        RuleOutcome::Matched(rule) => assert_eq!(rule.path, "/host-less"),
        _ => panic!("expected a match"),
    }
}

#[test]
fn wildcard_matches_deepest_ancestor_first() {
    let t = table(&[
        ("/foo/*", r#"{"status":301,"keep_query":false,"path":"/shallow"}"#),
        ("/foo/bar/*", r#"{"status":301,"keep_query":false,"path":"/deep"}"#),
    ]);
    let c = ctx("http", Some("example.com"), "/foo/bar/baz", None);
    match resolve_rule(&t, &c) {
        RuleOutcome::Matched(rule) => assert_eq!(rule.path, "/deep"),
        _ => panic!("expected a match"),
    }
}

#[test]
fn wildcard_walk_is_bounded() {
    let t = table(&[("/a/*", r#"{"status":301,"keep_query":false,"path":"/x"}"#)]);
    let c = ctx("http", Some("example.com"), "/a/b/c/d/e/f/g/h", None);
    match resolve_rule(&t, &c) {
        RuleOutcome::NoMatch => {}
        _ => panic!("an ancestor beyond the walk bound must not match"),
    }
}

#[test]
fn wildcard_walk_reaches_sixth_candidate() {
    let t = table(&[("/a/b/c/*", r#"{"status":301,"keep_query":false,"path":"/x"}"#)]);
    let c = ctx("http", Some("example.com"), "/a/b/c/d/e/f/g/h", None);
    match resolve_rule(&t, &c) {
        RuleOutcome::Matched(rule) => assert_eq!(rule.path, "/x"),
        _ => panic!("the sixth walk candidate must still be tried"),
    }
}

#[test]
fn keep_query_appends_query() {
    let t = table(&[("/a", r#"{"status":302,"keep_query":true,"path":"/b"}"#)]);
    let c = ctx("https", Some("example.com"), "/a", Some("x=1&y=2"));
    match resolve(&t, &c) {
        Resolution::Redirect(resp) => {
            assert_eq!(resp.status, 302);
            assert_eq!(resp.location, "https://example.com/b?x=1&y=2");
        }
        _ => panic!("expected a redirect"),
    }
}

#[test]
fn keep_query_false_drops_query() {
    let t = table(&[("/a", r#"{"status":302,"keep_query":false,"path":"/b"}"#)]);
    let c = ctx("https", Some("example.com"), "/a", Some("x=1"));
    match resolve(&t, &c) {
        Resolution::Redirect(resp) => assert_eq!(resp.location, "https://example.com/b"),
        _ => panic!("expected a redirect"),
    }
}

#[test]
fn keep_query_without_query_appends_nothing() {
    let t = table(&[("/a", r#"{"status":302,"keep_query":true,"path":"/b"}"#)]);
    let c = ctx("https", Some("example.com"), "/a", None);
    match resolve(&t, &c) {
        Resolution::Redirect(resp) => assert_eq!(resp.location, "https://example.com/b"),
        _ => panic!("expected a redirect"),
    }
}

#[test]
fn keep_query_with_empty_query_appends_nothing() {
    let t = table(&[("/a", r#"{"status":302,"keep_query":true,"path":"/b"}"#)]);
    let c = ctx("https", Some("example.com"), "/a", Some(""));
    match resolve(&t, &c) {
        Resolution::Redirect(resp) => assert_eq!(resp.location, "https://example.com/b"),
        _ => panic!("expected a redirect"),
    }
}

#[test]
fn no_match_forwards() {
    let t = table(&[("/other", r#"{"status":301,"keep_query":false,"path":"/x"}"#)]);
    let c = ctx("http", Some("example.com"), "/foo", Some("q=1"));
    match resolve(&t, &c) {
        Resolution::Forward => {}
        _ => panic!("expected a fallthrough"),
    }
    assert_eq!(c.path, "/foo");
    assert_eq!(c.query.as_deref(), Some("q=1"));
}

#[test]
fn redirect_scenario_exact_no_query() {
    let t = table(&[("example.com/old", r#"{"status":301,"keep_query":false,"path":"/new"}"#)]);
    let c = ctx("http", Some("example.com"), "/old", Some("x=1"));
    match resolve(&t, &c) {
        Resolution::Redirect(resp) => {
            assert_eq!(resp.status, 301);
            assert_eq!(resp.location, "http://example.com/new");
        }
        _ => panic!("expected a redirect"),
    }
}

#[test]
fn redirect_scenario_wildcard_keeps_query() {
    let t = table(&[("/a/*", r#"{"status":307,"keep_query":true,"path":"/b"}"#)]);
    let no_query = ctx("http", Some("any.host"), "/a/c/d", None);
    match resolve(&t, &no_query) {
        Resolution::Redirect(resp) => {
            assert_eq!(resp.status, 307);
            assert_eq!(resp.location, "http://any.host/b");
        }
        _ => panic!("expected a redirect"),
    }
    let with_query = ctx("http", Some("any.host"), "/a/c/d", Some("q=1"));
    match resolve(&t, &with_query) {
        Resolution::Redirect(resp) => assert_eq!(resp.location, "http://any.host/b?q=1"),
        _ => panic!("expected a redirect"),
    }
}

#[test]
fn malformed_payload_is_not_a_miss() {
    let bad = [
        "not json",
        r#"{"status":"301","keep_query":false,"path":"/x"}"#,
        r#"{"status":301,"keep_query":"no","path":"/x"}"#,
        r#"{"status":301,"keep_query":false}"#,
        r#"{"status":70000,"keep_query":false,"path":"/x"}"#,
        r#"{"status":-1,"keep_query":false,"path":"/x"}"#,
        r#"{"status":301.5,"keep_query":false,"path":"/x"}"#,
        r#"[301,false,"/x"]"#,
    ];
    for payload in bad {
        let t = table(&[("example.com/x", payload)]);
        let c = ctx("http", Some("example.com"), "/x", None);
        match resolve(&t, &c) {
            Resolution::Malformed => {}
            _ => panic!("payload {payload:?} must be reported as malformed"),
        }
    }
}

#[test]
fn trailing_slash_stripped_before_walk() {
    let t = table(&[("/foo/*", r#"{"status":301,"keep_query":false,"path":"/x"}"#)]);
    let c = ctx("http", Some("example.com"), "/foo/", None);
    match resolve_rule(&t, &c) {
        RuleOutcome::Matched(rule) => assert_eq!(rule.path, "/x"),
        _ => panic!("expected a match"),
    }
}

#[test]
fn exact_match_keeps_trailing_slash() {
    let t = table(&[("/foo/", r#"{"status":301,"keep_query":false,"path":"/x"}"#)]);
    let c = ctx("http", Some("example.com"), "/foo/", None);
    match resolve_rule(&t, &c) {
        RuleOutcome::Matched(rule) => assert_eq!(rule.path, "/x"),
        _ => panic!("expected a match"),
    }
}

#[test]
fn root_path_terminates_walk() {
    let t = table(&[("/*", r#"{"status":301,"keep_query":false,"path":"/x"}"#)]);
    let c = ctx("http", Some("example.com"), "/", None);
    match resolve_rule(&t, &c) {
        RuleOutcome::NoMatch => {}
        _ => panic!("a bare / offers no wildcard ancestors"),
    }
}

#[test]
fn later_insert_overrides_earlier() {
    let mut t = RuleTable::new();
    t.insert("/a".to_string(), r#"{"status":301,"keep_query":false,"path":"/first"}"#.to_string());
    t.insert("/a".to_string(), r#"{"status":308,"keep_query":false,"path":"/second"}"#.to_string());
    let c = ctx("http", Some("example.com"), "/a", None);
    match resolve_rule(&t, &c) {
        RuleOutcome::Matched(rule) => {
            assert_eq!(rule.status, 308);
            assert_eq!(rule.path, "/second");
        }
        _ => panic!("expected a match"),
    }
}

#[test]
fn get_returns_inserted_payload() {
    let mut t = RuleTable::new();
    t.insert("k".to_string(), "v".to_string());
    assert_eq!(t.get(&"k".to_string()), Some(&"v".to_string()));
    assert_eq!(t.get(&"missing".to_string()), None);
}
