use rend::favicon::{calculate_hash_as_number, decimal_string, favicon_hash_string};
use rend::matcher::{
    check_vulnerability, evaluate, headers_only, is_post, request_headers, request_matches,
    response_data, CapturedResponse, Combinator, Finger, FingerPrint, Matcher, Method,
    ResponseData,
};

fn rule(cms: &str, method: &str, logic: &str, keywords: &[&str]) -> FingerPrint {
    FingerPrint {
        cms: cms.to_string(),
        rule: keywords.iter().map(|k| k.to_string()).collect(),
        location: "body".to_string(),
        logic: logic.to_string(),
        method: method.to_string(),
    }
}

fn response(body: &str, headers: &[(&str, &str)], hash: &str) -> CapturedResponse {
    CapturedResponse {
        body: body.to_string(),
        headers: headers.iter().map(|(n, v)| (n.to_string(), v.to_string())).collect(),
        favicon_hash: hash.to_string(),
    }
}

#[test]
fn header_or_rule_matches_powered_by() {
    let rules = vec![rule("PHP", "header", "or", &["X-Powered-By: PHP"])];
    let resp = response("", &[("X-Powered-By", "PHP/8.1")], "");
    assert_eq!(evaluate(&rules, &resp), vec!["PHP".to_string()]);
    let r = FingerPrint {
        cms: "PHP".to_string(),
        rule: vec!["X-Powered-By: PHP".to_string()],
        location: "header".to_string(),
        logic: "or".to_string(),
        method: "header".to_string(),
    };
    assert!(r.matches_rule("0", &resp.headers, ""));
}

#[test]
fn header_keyword_found_in_name_value_or_line_only() {
    let resp = response("", &[("Server", "nginx")], "");
    assert_eq!(evaluate(&vec![rule("S", "header", "or", &["Serv"])], &resp), vec!["S".to_string()]);
    assert_eq!(evaluate(&vec![rule("S", "header", "or", &["r: ng"])], &resp), vec!["S".to_string()]);
    assert!(evaluate(&vec![rule("S", "header", "or", &["Server:nginx"])], &resp).is_empty());
    assert!(evaluate(&vec![rule("S", "header", "or", &["apache"])], &resp).is_empty());
}

#[test]
fn favicon_and_rule_scenario() {
    let resp = response("", &[], "305419896");
    let hit = vec![rule("Cms", "faviconhash", "and", &["305419896"])];
    assert_eq!(evaluate(&hit, &resp), vec!["Cms".to_string()]);
    let miss = vec![rule("Cms", "faviconhash", "and", &["999"])];
    assert_eq!(evaluate(&miss, &resp), Vec::<String>::new());
}

#[test]
fn or_rule_needs_one_keyword() {
    let resp = response("<html>wordpress</html>", &[], "");
    let r = rule("WP", "body", "or", &["joomla", "wordpress"]);
    assert!(r.matches_rule("", &resp.headers, &resp.body));
    let r = rule("WP", "body", "or", &["joomla", "drupal"]);
    assert!(!r.matches_rule("", &resp.headers, &resp.body));
}

#[test]
fn and_rule_needs_every_keyword_possibly_in_different_headers() {
    let headers = vec![
        ("Server".to_string(), "nginx".to_string()),
        ("Set-Cookie".to_string(), "JSESSIONID=1".to_string()),
    ];
    let r = rule("Java", "header", "and", &["nginx", "JSESSIONID"]);
    assert!(r.matches_rule("", &headers, ""));
    let r = rule("Java", "header", "and", &["nginx", "PHPSESSID"]);
    assert!(!r.matches_rule("", &headers, ""));
}

#[test]
fn unknown_combinator_and_empty_keywords_never_match() {
    let resp = response("abc", &[], "");
    assert!(!rule("X", "body", "xor", &["abc"]).matches_rule("", &resp.headers, "abc"));
    assert!(!rule("X", "body", "and", &[]).matches_rule("", &resp.headers, "abc"));
    assert!(!rule("X", "body", "or", &[]).matches_rule("", &resp.headers, "abc"));
}

#[test]
fn title_and_unknown_methods_read_the_body() {
    assert_eq!(Method::from_str("title"), Method::Body);
    assert_eq!(Method::from_str("faviconhash"), Method::FaviconHash);
    assert_eq!(Method::from_str("header"), Method::Header);
    assert_eq!(Method::from_str("cookie"), Method::Unknown);
    assert_eq!(Combinator::from_str("and"), Combinator::And);
    assert_eq!(Combinator::from_str("or"), Combinator::Or);
    assert_eq!(Combinator::from_str("AND"), Combinator::Unknown);
    assert!(rule("X", "cookie", "or", &["abc"]).matches_rule("", &Vec::new(), "xabcx"));
}

#[test]
fn labels_are_reported_once_in_rule_order() {
    let rules = vec![
        rule("B", "body", "or", &["b"]),
        rule("A", "body", "or", &["a"]),
        rule("B", "body", "or", &["a"]),
        rule("C", "body", "or", &["zzz"]),
    ];
    let resp = response("ab", &[], "");
    assert_eq!(evaluate(&rules, &resp), vec!["B".to_string(), "A".to_string()]);
    assert_eq!(evaluate(&Finger::new().finger, &resp), Vec::<String>::new());
}

fn matcher(kind: &str, part: &str, cond: &str, words: &[&str]) -> Matcher {
    Matcher {
        matcher_type: kind.to_string(),
        part: part.to_string(),
        words: words.iter().map(|w| w.to_string()).collect(),
        condition: cond.to_string(),
    }
}

#[test]
fn template_matchers_use_the_same_evaluation() {
    let resp = ResponseData {
        headers: vec![("Content-Type".to_string(), "application/json".to_string())],
        body: "root:x:0:0".to_string(),
    };
    assert!(check_vulnerability(&resp, &matcher("word", "body", "and", &["root:x", "0:0"])));
    assert!(!check_vulnerability(&resp, &matcher("word", "body", "and", &["root:x", "bin"])));
    assert!(check_vulnerability(&resp, &matcher("word", "header", "or", &["json"])));
    assert!(!check_vulnerability(&resp, &matcher("regex", "body", "or", &["root"])));
    assert!(!check_vulnerability(&resp, &matcher("word", "status", "or", &["root"])));
    assert!(!check_vulnerability(&resp, &matcher("word", "body", "maybe", &["root"])));
    let ms = vec![matcher("word", "body", "or", &["nope"]), matcher("word", "header", "or", &["json"])];
    assert!(request_matches(&resp, &ms));
    assert!(!headers_only(&ms));
    assert!(headers_only(&vec![matcher("word", "header", "or", &["x"])]));
}

#[test]
fn favicon_hash_is_first_four_digest_bytes() {
    assert_eq!(calculate_hash_as_number(b""), 3820012610);
    assert_eq!(calculate_hash_as_number(b"abc"), 3128432319);
    assert_eq!(favicon_hash_string(b"").as_str(), "3820012610");
    assert_eq!(decimal_string(305419896).as_str(), "305419896");
    assert_eq!(decimal_string(0).as_str(), "0");
    assert_eq!(decimal_string(u32::MAX).as_str(), "4294967295");
}

#[test]
fn post_requests_get_a_form_content_type() {
    let own = vec![("X-Test".to_string(), "1".to_string())];
    let form = ("content-type".to_string(), "application/x-www-form-urlencoded".to_string());
    assert_eq!(request_headers("Post", &own), vec![own[0].clone(), form.clone()]);
    assert_eq!(request_headers("GET", &own), own);
    let typed = vec![("Content-Type".to_string(), "text/xml".to_string())];
    assert_eq!(request_headers("POST", &typed), typed);
    assert!(is_post("pOsT"));
    assert!(!is_post("put"));
    assert!(!is_post("posts"));
}

#[test]
fn failed_requests_match_against_an_empty_response() {
    let hs = vec![("Server".to_string(), "x".to_string())];
    let ok = response_data(true, hs.clone(), "body".to_string());
    assert_eq!((ok.headers, ok.body), (hs.clone(), "body".to_string()));
    let failed = response_data(false, hs, "body".to_string());
    assert!(failed.headers.is_empty() && failed.body.is_empty());
}
