use rend::cms::{
    excluded_by, filter_domains, gettitle, homepage_probe_url, is_new_page, join_path,
    merge_and_deduplicate, normalize_targets, page_action, page_digest, path_scan_outcome,
    bypass_succeeded, LinkWaves, PageAction,
};
use rend::config::OtherSets;
use rend::results::{clean_and_dedup, Bypass, CdnNum, InfoLinkRes, InfoPortRes, InfoResults, Links, Rescraw};
use rend::targets::{
    filter_resolved, organize_domains, organize_ips, parse_headers, parse_port, port_of_entry,
    wildcard_probe_name,
};

fn strings(v: &[&str]) -> Vec<String> {
    v.iter().map(|s| s.to_string()).collect()
}

#[test]
fn clean_sorts_and_drops_empty_and_repeats() {
    let mut v = strings(&["b", "", "a", "b", "C"]);
    clean_and_dedup(&mut v);
    assert_eq!(v, strings(&["C", "a", "b"]));
}

#[test]
fn info_results_merge_and_clean() {
    let mut a = InfoResults::new();
    assert!(a.empty());
    a.domain_list = strings(&["x.com"]);
    let mut b = InfoResults::new();
    b.domain_list = strings(&["a.com", "x.com", ""]);
    b.ip_list = strings(&["1.1.1.1"]);
    a.merge(b);
    assert!(!a.empty());
    a.clean_all();
    assert_eq!(a.domain_list, strings(&["a.com", "x.com"]));
    assert_eq!(a.ip_list, strings(&["1.1.1.1"]));
    assert!(a.icp_list.is_empty());
}

#[test]
fn port_and_link_results() {
    let mut p = InfoPortRes::new();
    p.push("1.1.1.1:80".to_string());
    p.extend(strings(&["1.1.1.1:22", "1.1.1.1:80"]));
    assert_eq!(p.rt().len(), 3);
    assert_eq!(p.res(), strings(&["1.1.1.1:22", "1.1.1.1:80"]));
    let mut l = InfoLinkRes::new();
    l.extend_links(strings(&["b", "a", "b"]));
    assert_eq!(l.res_links(), strings(&["a", "b"]));
    assert_eq!(l.rt_links(), strings(&["b", "a", "b"]));
    assert!(l.rt_ports().is_empty());
    let mut c = CdnNum::new();
    c.add_cnd_num(250);
    assert_eq!(c.cnd_num, 250);
}

#[test]
fn backlogs_drain_once() {
    let mut b = Bypass::new();
    b.push("http://a/".to_string());
    b.push("http://b/".to_string());
    assert_eq!(b.take_all(), strings(&["http://a/", "http://b/"]));
    assert!(b.take_all().is_empty());
    let mut r = Rescraw::new();
    r.push(strings(&["u1"]));
    r.push(strings(&["u2"]));
    assert_eq!(r.rt(), strings(&["u1", "u2"]));
    let mut links = Links::new();
    links.push("p");
    assert_eq!(links.parse_results(), strings(&["p"]));
}

#[test]
fn targets_get_both_schemes_once() {
    let out = normalize_targets(&strings(&["a.com", "https://b.com", "a.com", "http://a.com"]));
    assert_eq!(out, strings(&["http://a.com", "https://a.com", "https://b.com"]));
    let merged = merge_and_deduplicate(strings(&["a", "b"]), strings(&["b", "c"]), vec![], strings(&["a", "d"]));
    assert_eq!(merged, strings(&["a", "b", "c", "d"]));
}

#[test]
fn status_codes_route_pages() {
    assert_eq!(page_action(200), PageAction::Crawl);
    assert_eq!(page_action(302), PageAction::Crawl);
    assert_eq!(page_action(404), PageAction::NotFound);
    assert_eq!(page_action(403), PageAction::Forbidden);
    assert_eq!(page_action(401), PageAction::Unauthorized);
    assert_eq!(page_action(500), PageAction::Ignore);
    assert_eq!(path_scan_outcome(403, 10), (true, true));
    assert_eq!(path_scan_outcome(200, 0), (false, false));
    assert_eq!(path_scan_outcome(500, 10), (false, false));
    assert!(bypass_succeeded(302));
    assert!(!bypass_succeeded(403));
}

#[test]
fn crawl_waves_skip_excluded_and_seen_links() {
    let pass = strings(&["google.com"]);
    assert!(excluded_by("https://fonts.google.com/x", &pass));
    let mut waves = LinkWaves::new();
    let first = waves.take_wave(strings(&["http://a/1", "https://fonts.google.com/x", "http://a/1", "http://a/2"]), &pass);
    assert_eq!(first, strings(&["http://a/1", "http://a/2"]));
    let second = waves.take_wave(strings(&["http://a/2", "http://a/3"]), &pass);
    assert_eq!(second, strings(&["http://a/3"]));
    assert_eq!(filter_domains(&strings(&["http://a/1", "http://google.com/"]), &pass), strings(&["http://a/1"]));
}

#[test]
fn paths_join_with_one_slash() {
    assert_eq!(join_path("http://a.b//", "/admin").as_str(), "http://a.b/admin");
    assert_eq!(join_path("http://a.b", "admin").as_str(), "http://a.b/admin");
    assert_eq!(homepage_probe_url("http://a.b/").as_str(), "http://a.b/kindedasaioadsjson");
}

#[test]
fn titles_and_new_pages() {
    assert_eq!(gettitle("<html><head><title>Admin</title></head></html>").as_str(), "Admin");
    assert_eq!(gettitle("<p>none</p>").as_str(), "Not found title");
    let home = "home";
    let hash = page_digest(home);
    assert_eq!(hash.len(), 32);
    assert_eq!(&hash[..4], &[78u8, 161, 64, 88][..]);
    let page = "<title>Admin</title>panel";
    assert!(is_new_page(200, "http://x/admin", "http://x/", page, &hash, home.len()));
    assert!(!is_new_page(404, "http://x/admin", "http://x/", page, &hash, home.len()));
    assert!(!is_new_page(200, "http://x/", "http://x/", page, &hash, home.len()));
    assert!(!is_new_page(200, "http://x/?r=http://x/", "http://x/", page, &hash, home.len()));
    assert!(!is_new_page(200, "http://x/a", "http://x/", "<p>no title</p>", &hash, home.len()));
    assert!(!is_new_page(200, "http://x/a", "http://x/", "<title>404 Not Found</title>", &hash, home.len()));
    assert!(!is_new_page(200, "http://x/a", "http://x/", page, &page_digest(page), home.len()));
    assert!(!is_new_page(200, "http://x/a", "http://x/", page, &hash, page.len()));
}

#[test]
fn ports_read_like_u16() {
    assert_eq!(parse_port("80"), Some(80));
    assert_eq!(parse_port("+80"), Some(80));
    assert_eq!(parse_port("65535"), Some(65535));
    assert_eq!(parse_port("65536"), None);
    assert_eq!(parse_port(""), None);
    assert_eq!(parse_port("+"), None);
    assert_eq!(parse_port("8a"), None);
    assert_eq!(parse_port("-1"), None);
    assert_eq!(port_of_entry("1.2.3.4:8080"), Some(8080));
    assert_eq!(port_of_entry("1.2.3.4"), None);
    assert_eq!(port_of_entry("a:b:80"), None);
}

#[test]
fn resolved_addresses_drop_wildcards() {
    let out = filter_resolved(&strings(&["1.2.3.4", "198.18.0.1", "5.6.7.8"]), &strings(&["5.6.7.8"]));
    assert_eq!(out, strings(&["1.2.3.4"]));
    assert_eq!(wildcard_probe_name("a.com").as_str(), "random-nonexistent-subdomain.a.com");
}

#[test]
fn final_lists_are_organized() {
    let ips = organize_ips(&strings(&["2.2.2.2", "", "1.1.1.1", "2.2.2.2", "3.3.3.3"]), &strings(&["3.3.3.3"]));
    assert_eq!(ips, strings(&["1.1.1.1", "2.2.2.2"]));
    let domains = organize_domains(&strings(&["b.x.com", "a.cdn.net", "a.x.com", ""]), &strings(&["cdn.net"]));
    assert_eq!(domains, strings(&["a.x.com", "b.x.com"]));
}

#[test]
fn header_settings_are_parsed() {
    assert_eq!(
        parse_headers("User-Agent: Windows server 2012 Google x86"),
        vec![("User-Agent".to_string(), "Windows server 2012 Google x86".to_string())]
    );
    assert_eq!(
        parse_headers(" A : 1 , bad name: 2, no colon, C:3"),
        vec![("A".to_string(), "1".to_string()), ("C".to_string(), "3".to_string())]
    );
    assert!(parse_headers("").is_empty());
    assert_eq!(parse_headers("X: a\u{7f}b, Y: ok"), vec![("Y".to_string(), "ok".to_string())]);
}

#[test]
fn full_scan_limit() {
    let sets = OtherSets {
        keywords: vec![],
        excluded_extensions: vec![],
        excluded_patterns: vec![],
        pass_domain: vec![],
        port_random_max: 65535,
        port_random_min: 1,
        attack_port_number: 5,
        scan_port_max: 500,
    };
    assert!(sets.full_scan_allowed(5));
    assert!(!sets.full_scan_allowed(6));
}
