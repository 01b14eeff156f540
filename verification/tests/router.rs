use actix_web::router::{parse, Pattern, PatternElement, Router, UrlGenerationError};
use regex::Regex;

fn assert_parse(pattern: &str, expected_re: &str) -> Regex {
    let (re_str, _) = parse(pattern, "^/");
    assert_eq!(&*re_str, expected_re);
    Regex::new(&re_str).unwrap()
}

fn info(v: &[(String, String)], key: &str) -> Option<String> {
    v.iter().find(|(k, _)| k == key).map(|(_, val)| val.clone())
}

#[test]
fn test_parse_static() {
    let re = assert_parse("/", r"^/$");
    assert!(re.is_match("/"));
    assert!(!re.is_match("/a"));

    let re = assert_parse("/name", r"^/name$");
    assert!(re.is_match("/name"));
    assert!(!re.is_match("/name1"));
    assert!(!re.is_match("/name/"));
    assert!(!re.is_match("/name~"));

    let re = assert_parse("/name/", r"^/name/$");
    assert!(re.is_match("/name/"));
    assert!(!re.is_match("/name"));
    assert!(!re.is_match("/name/gs"));

    let re = assert_parse("/user/profile", r"^/user/profile$");
    assert!(re.is_match("/user/profile"));
    assert!(!re.is_match("/user/profile/profile"));
}

#[test]
fn test_parse_param() {
    let re = assert_parse("/user/{id}", r"^/user/(?P<id>[^/]+)$");
    assert!(re.is_match("/user/profile"));
    assert!(re.is_match("/user/2345"));
    assert!(!re.is_match("/user/2345/"));
    assert!(!re.is_match("/user/2345/sdg"));

    let captures = re.captures("/user/profile").unwrap();
    assert_eq!(captures.get(1).unwrap().as_str(), "profile");
    assert_eq!(captures.name("id").unwrap().as_str(), "profile");

    let captures = re.captures("/user/1245125").unwrap();
    assert_eq!(captures.get(1).unwrap().as_str(), "1245125");
    assert_eq!(captures.name("id").unwrap().as_str(), "1245125");

    let re = assert_parse(
        "/v{version}/resource/{id}",
        r"^/v(?P<version>[^/]+)/resource/(?P<id>[^/]+)$",
    );
    assert!(re.is_match("/v1/resource/320120"));
    assert!(!re.is_match("/v/resource/1"));
    assert!(!re.is_match("/resource"));

    let captures = re.captures("/v151/resource/adahg32").unwrap();
    assert_eq!(captures.get(1).unwrap().as_str(), "151");
    assert_eq!(captures.name("version").unwrap().as_str(), "151");
    assert_eq!(captures.name("id").unwrap().as_str(), "adahg32");
}

#[test]
fn test_recognizer() {
    let routes = vec![
        (Pattern::new("", "/name", "^/"), Some(())),
        (Pattern::new("", "/name/{val}", "^/"), Some(())),
        (Pattern::new("", "/name/{val}/index.html", "^/"), Some(())),
        (Pattern::new("", "/v{val}/{val2}/index.html", "^/"), Some(())),
        (Pattern::new("", "/v/{tail:.*}", "^/"), Some(())),
        (Pattern::new("", "{test}/index.html", "^/"), Some(())),
    ];
    let (rec, _) = Router::new("", (), routes);

    let m = rec.recognize("/name");
    assert!(m.is_some());
    assert!(m.unwrap().1.is_empty());

    let m = rec.recognize("/name/value").unwrap();
    assert_eq!(info(&m.1, "val").unwrap(), "value");

    let m = rec.recognize("/name/value2/index.html").unwrap();
    assert_eq!(info(&m.1, "val").unwrap(), "value2");

    let m = rec.recognize("/vtest/ttt/index.html").unwrap();
    assert_eq!(info(&m.1, "val").unwrap(), "test");
    assert_eq!(info(&m.1, "val2").unwrap(), "ttt");

    let m = rec.recognize("/v/blah-blah/index.html").unwrap();
    assert_eq!(info(&m.1, "tail").unwrap(), "blah-blah/index.html");

    let m = rec.recognize("/bbb/index.html").unwrap();
    assert_eq!(info(&m.1, "test").unwrap(), "bbb");
}

#[test]
fn test_recognizer_with_prefix() {
    let routes = vec![
        (Pattern::new("", "/name", "^/"), Some(())),
        (Pattern::new("", "/name/{val}", "^/"), Some(())),
    ];
    let (rec, _) = Router::new("/test", (), routes);

    assert!(rec.recognize("/name").is_none());
    assert!(rec.recognize("/test/name").is_some());

    let m = rec.recognize("/test/name/value").unwrap();
    assert_eq!(info(&m.1, "val").unwrap(), "value");

    // same patterns
    let routes = vec![
        (Pattern::new("", "/name", "^/"), Some(())),
        (Pattern::new("", "/name/{val}", "^/"), Some(())),
    ];
    let (rec, _) = Router::new("/test2", (), routes);

    assert!(rec.recognize("/name").is_none());
    assert!(rec.recognize("/test2/name").is_some());
}

#[test]
fn recognize_gives_resource_index_of_first_match() {
    let routes = vec![
        (Pattern::new("a", "/a/{x}", "^/"), Some(10)),
        (Pattern::new("b", "/b/{x}", "^/"), Some(20)),
        (Pattern::new("c", "/{x}/{y}", "^/"), Some(30)),
    ];
    let (rec, resources) = Router::new("", (), routes);
    assert_eq!(resources, vec![10, 20, 30]);
    assert_eq!(rec.recognize("/b/1").unwrap().0, 1);
    assert_eq!(rec.recognize("/c/1").unwrap().0, 2);
    assert!(rec.recognize("/a/b/c").is_none());
}

#[test]
fn router_prefix_is_trimmed() {
    let (rec, _) = Router::<()>::new::<()>("  /app/  ", (), vec![]);
    assert_eq!(rec.prefix(), "/app");
}

#[test]
fn has_route_matches_patterns() {
    let routes = vec![(Pattern::new("", "/user/{id}", "^/"), Some(()))];
    let (rec, _) = Router::new("", (), routes);
    assert!(rec.has_route("/user/42"));
    assert!(!rec.has_route("/user/42/x"));
}

#[test]
fn pattern_path_builds_from_elements() {
    let p = Pattern::new("user", "/user/{id}/{tab}", "^/");
    assert_eq!(p.path(None, &["7", "info"]).unwrap(), "user/7/info");
    assert_eq!(p.path(Some("/app"), &["7", "info"]).unwrap(), "/app/user/7/info");
    assert_eq!(p.path(None, &["7"]), Err(UrlGenerationError::NotEnoughElements));
}

#[test]
fn resource_path_by_name() {
    let routes = vec![
        (Pattern::new("index", "/index/{id}", "^/"), Some(())),
        (Pattern::new("ext", "https://example.com/{id}", ""), None),
    ];
    let (rec, _) = Router::new("/pre", (), routes);
    assert_eq!(rec.resource_path("index", &["3"]).unwrap(), "/pre/index/3");
    assert_eq!(rec.resource_path("missing", &["3"]), Err(UrlGenerationError::ResourceNotFound));
}

#[test]
fn pattern_try_new_rejects_bad_regex() {
    assert!(Pattern::try_new("", "/{x:(}", "^/").is_none());
    assert!(Pattern::try_new("", "/{x:[0-9]+}", "^/").is_some());
}

#[test]
fn get_match_info_names_values() {
    let p = Pattern::new("", "/v{version}/resource/{id}", "^/");
    let m = p.get_match_info("/v151/resource/adahg32");
    assert_eq!(info(&m, "version").unwrap(), "151");
    assert_eq!(info(&m, "id").unwrap(), "adahg32");
}

#[test]
fn pattern_path_keeps_trailing_text() {
    let p = Pattern::new("", "/user/{id}/profile", "^/");
    assert_eq!(p.path(Some(""), &["1"]).unwrap(), "/user/1/profile");
    let s = Pattern::new("", "/static/page", "^/");
    assert_eq!(s.path(Some(""), &[]).unwrap(), "/static/page");
}

#[test]
fn resource_path_keeps_trailing_text() {
    let routes = vec![(Pattern::new("prof", "/user/{id}/profile", "^/"), Some(()))];
    let (rec, _) = Router::new("/pre", (), routes);
    assert_eq!(rec.resource_path("prof", &["5"]).unwrap(), "/pre/user/5/profile");
}

#[test]
fn parsed_elements_give_pattern_back() {
    let (_, elems) = parse("/user/{id}/profile", "^/");
    let mut text = String::new();
    for e in &elems {
        match e {
            PatternElement::Str(s) => text.push_str(s),
            PatternElement::Var(n) => {
                text.push('{');
                text.push_str(n);
                text.push('}');
            }
        }
    }
    assert_eq!(elems.len(), 3);
    assert_eq!(text, "user/{id}/profile");
}
