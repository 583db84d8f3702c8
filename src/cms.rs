//! Decisions of the web stage: which URLs to request for a target, what a
//! status code sends a page to, which crawled links go on to the next wave,
//! and whether a page found under a known path differs from the homepage.

use vstd::prelude::*;
use vstd::utf8::encode_utf8;
use crate::text::{
    chars_of, contains, contains_exec, push_chars, starts_with, starts_with_exec, string_from_chars,
    strip_leading, strip_leading_exec, strip_trailing, strip_trailing_exec,
};
use crate::results::texts;
use sha2::Digest;

verus! {

/// The texts of `s`, each once, in order of first appearance, over its first `n` entries.
pub open spec fn distinct_upto(s: Seq<Seq<char>>, n: int) -> Seq<Seq<char>>
    decreases n,
{
    if n <= 0 {
        Seq::empty()
    } else {
        let prev = distinct_upto(s, n - 1);
        if prev.contains(s[n - 1]) {
            prev
        } else {
            prev.push(s[n - 1])
        }
    }
}

/// The texts of `s`, each once, in order of first appearance.
pub open spec fn distinct(s: Seq<Seq<char>>) -> Seq<Seq<char>> {
    distinct_upto(s, s.len() as int)
}

/// Appends `x` unless `out` already holds its text; returns whether it did.
fn push_new(out: &mut Vec<String>, x: String) -> (r: bool)
    ensures
        r == !texts(old(out)@).contains(x@),
        r ==> texts(final(out)@) == texts(old(out)@).push(x@),
        !r ==> final(out)@ == old(out)@,
{
    let mut k: usize = 0;
    while k < out.len()
        invariant
            k <= out@.len(),
            forall|m: int| 0 <= m < k ==> out@[m]@ != x@,
        decreases out@.len() - k,
    {
        if out[k] == x {
            assert(texts(out@)[k as int] == x@);
            return false;
        }
        k = k + 1;
    }
    let ghost before = texts(out@);
    assert(!before.contains(x@)) by {
        if before.contains(x@) {
            let m = choose|m: int| 0 <= m < before.len() && before[m] == x@;
            assert(out@[m]@ == x@);
        }
    }
    out.push(x);
    assert(texts(out@) =~= before.push(x@));
    true
}

/// The URLs to request for a target: a target with a scheme as it is, one
/// without it under both `http://` and `https://`.
pub open spec fn target_urls(d: Seq<char>) -> Seq<Seq<char>> {
    if starts_with(d, "https://"@) || starts_with(d, "http://"@) {
        seq![d]
    } else {
        seq!["http://"@ + d, "https://"@ + d]
    }
}

/// The URLs to request for the first `n` targets, target by target.
pub open spec fn target_urls_upto(domains: Seq<String>, n: int) -> Seq<Seq<char>>
    decreases n,
{
    if n <= 0 {
        Seq::empty()
    } else {
        target_urls_upto(domains, n - 1) + target_urls(domains[n - 1]@)
    }
}

proof fn lemma_distinct_push(s: Seq<Seq<char>>, x: Seq<char>)
    ensures
        distinct(s.push(x)) == (if distinct(s).contains(x) {
            distinct(s)
        } else {
            distinct(s).push(x)
        }),
{
    assert(s.push(x).take(s.len() as int) =~= s);
    lemma_distinct_prefix(s, s.push(x), s.len() as int);
}

proof fn lemma_distinct_prefix(a: Seq<Seq<char>>, b: Seq<Seq<char>>, n: int)
    requires
        n <= a.len() <= b.len(),
        b.take(a.len() as int) == a,
    ensures
        distinct_upto(a, n) == distinct_upto(b, n),
    decreases n,
{
    if n > 0 {
        lemma_distinct_prefix(a, b, n - 1);
        assert(a[n - 1] == b.take(a.len() as int)[n - 1]);
    }
}

/// Adds `x` to a list kept as `distinct(seen)`.
fn add_distinct(out: &mut Vec<String>, x: String, Ghost(seen): Ghost<Seq<Seq<char>>>)
    requires
        texts(old(out)@) == distinct(seen),
    ensures
        texts(final(out)@) == distinct(seen.push(x@)),
{
    proof {
        lemma_distinct_push(seen, x@);
    }
    push_new(out, x);
}

/// The URLs to request for the given targets, each once, in order of first
/// appearance.
pub fn normalize_targets(domains: &Vec<String>) -> (r: Vec<String>)
    ensures
        texts(r@) == distinct(target_urls_upto(domains@, domains@.len() as int)),
{
    let https = chars_of("https://");
    let http = chars_of("http://");
    let mut out: Vec<String> = Vec::new();
    let ghost mut seen: Seq<Seq<char>> = Seq::empty();
    let mut i: usize = 0;
    while i < domains.len()
        invariant
            https@ == "https://"@,
            http@ == "http://"@,
            i <= domains@.len(),
            seen == target_urls_upto(domains@, i as int),
            texts(out@) == distinct(seen),
        decreases domains@.len() - i,
    {
        let d = &domains[i];
        let dc = chars_of(d.as_str());
        if starts_with_exec(dc.as_slice(), https.as_slice()) || starts_with_exec(
            dc.as_slice(),
            http.as_slice(),
        ) {
            add_distinct(&mut out, d.clone(), Ghost(seen));
            proof {
                seen = seen.push(d@);
                assert(seen =~= target_urls_upto(domains@, i + 1));
            }
        } else {
            let a = "http://".to_string().concat(d.as_str());
            let b = "https://".to_string().concat(d.as_str());
            let ghost av = a@;
            let ghost bv = b@;
            add_distinct(&mut out, a, Ghost(seen));
            add_distinct(&mut out, b, Ghost(seen.push(av)));
            proof {
                seen = seen.push(av).push(bv);
                assert(seen =~= target_urls_upto(domains@, i + 1));
            }
        }
        i = i + 1;
    }
    out
}

/// The entries of four lists, each once, in order of first appearance.
pub fn merge_and_deduplicate(
    vec1: Vec<String>,
    vec2: Vec<String>,
    vec3: Vec<String>,
    vec4: Vec<String>,
) -> (r: Vec<String>)
    ensures
        texts(r@) == distinct(texts(vec1@ + vec2@ + vec3@ + vec4@)),
{
    let mut all = vec1;
    let mut v2 = vec2;
    let mut v3 = vec3;
    let mut v4 = vec4;
    all.append(&mut v2);
    all.append(&mut v3);
    all.append(&mut v4);
    let mut out: Vec<String> = Vec::new();
    let mut i: usize = 0;
    while i < all.len()
        invariant
            i <= all@.len(),
            texts(out@) == distinct(texts(all@).take(i as int)),
        decreases all@.len() - i,
    {
        assert(texts(all@).take(i + 1) =~= texts(all@).take(i as int).push(all@[i as int]@));
        add_distinct(&mut out, all[i].clone(), Ghost(texts(all@).take(i as int)));
        i = i + 1;
    }
    assert(texts(all@).take(i as int) =~= texts(all@));
    out
}

/// Where a page goes by its status code.
#[derive(PartialEq, Eq, Structural, Clone, Copy, Debug)]
pub enum PageAction {
    /// 200 or 302: match its fingerprints and crawl it.
    Crawl,
    /// 404: probe it later for known paths.
    NotFound,
    /// 403: retry it later with forwarding headers.
    Forbidden,
    /// 401: report it.
    Unauthorized,
    /// Anything else: nothing more.
    Ignore,
}

/// What to do with a page that answered with `status`.
pub fn page_action(status: u16) -> (r: PageAction)
    ensures
        (status == 200 || status == 302) <==> r == PageAction::Crawl,
        status == 404 <==> r == PageAction::NotFound,
        status == 403 <==> r == PageAction::Forbidden,
        status == 401 <==> r == PageAction::Unauthorized,
{
    if status == 200 || status == 302 {
        PageAction::Crawl
    } else if status == 404 {
        PageAction::NotFound
    } else if status == 403 {
        PageAction::Forbidden
    } else if status == 401 {
        PageAction::Unauthorized
    } else {
        PageAction::Ignore
    }
}

/// `url` holds one of the excluded domains.
pub open spec fn is_excluded(url: Seq<char>, pass_domain: Seq<String>) -> bool {
    exists|k: int| 0 <= k < pass_domain.len() && #[trigger] contains(url, pass_domain[k]@)
}

/// Whether `url` holds one of the excluded domains.
pub fn excluded_by(url: &str, pass_domain: &Vec<String>) -> (r: bool)
    ensures
        r == is_excluded(url@, pass_domain@),
{
    let u = chars_of(url);
    let mut k: usize = 0;
    while k < pass_domain.len()
        invariant
            u@ == url@,
            k <= pass_domain@.len(),
            forall|m: int| 0 <= m < k ==> !contains(url@, pass_domain@[m]@),
        decreases pass_domain@.len() - k,
    {
        let d = chars_of(pass_domain[k].as_str());
        if contains_exec(u.as_slice(), d.as_slice()) {
            assert(contains(url@, pass_domain@[k as int]@));
            return true;
        }
        k = k + 1;
    }
    false
}

/// The first `n` URLs of `urls` that hold no excluded domain, in order.
pub open spec fn kept_upto(urls: Seq<String>, pass_domain: Seq<String>, n: int) -> Seq<Seq<char>>
    decreases n,
{
    if n <= 0 {
        Seq::empty()
    } else if is_excluded(urls[n - 1]@, pass_domain) {
        kept_upto(urls, pass_domain, n - 1)
    } else {
        kept_upto(urls, pass_domain, n - 1).push(urls[n - 1]@)
    }
}

/// The URLs that hold no excluded domain, in order.
pub fn filter_domains(res: &Vec<String>, pass_domain: &Vec<String>) -> (r: Vec<String>)
    ensures
        texts(r@) == kept_upto(res@, pass_domain@, res@.len() as int),
{
    let mut out: Vec<String> = Vec::new();
    let mut i: usize = 0;
    while i < res.len()
        invariant
            i <= res@.len(),
            texts(out@) == kept_upto(res@, pass_domain@, i as int),
        decreases res@.len() - i,
    {
        if !excluded_by(res[i].as_str(), pass_domain) {
            let ghost before = texts(out@);
            out.push(res[i].clone());
            assert(texts(out@) =~= before.push(res@[i as int]@));
        }
        i = i + 1;
    }
    out
}

/// The links of one crawl wave that go on: not excluded, and new to the run.
pub open spec fn passed_upto(
    seen: Seq<Seq<char>>,
    links: Seq<String>,
    pass_domain: Seq<String>,
    n: int,
) -> Seq<Seq<char>>
    decreases n,
{
    if n <= 0 {
        Seq::empty()
    } else {
        let prev = passed_upto(seen, links, pass_domain, n - 1);
        let l = links[n - 1]@;
        if is_excluded(l, pass_domain) || seen.contains(l) || prev.contains(l) {
            prev
        } else {
            prev.push(l)
        }
    }
}

/// The links seen so far across the crawl waves of one target.
pub struct LinkWaves {
    seen: Vec<String>,
}

impl LinkWaves {
    /// The links seen so far, in the order admitted.
    pub closed spec fn seen(&self) -> Seq<Seq<char>> {
        texts(self.seen@)
    }

    pub fn new() -> (r: LinkWaves)
        ensures
            r.seen() == Seq::<Seq<char>>::empty(),
    {
        LinkWaves { seen: Vec::new() }
    }

    /// The links of a wave that are not excluded and were not seen before,
    /// each once, in order; they count as seen afterwards.
    pub fn take_wave(&mut self, links: Vec<String>, pass_domain: &Vec<String>) -> (r: Vec<String>)
        ensures
            texts(r@) == passed_upto(old(self).seen(), links@, pass_domain@, links@.len() as int),
            final(self).seen() == old(self).seen() + texts(r@),
    {
        let ghost seen0 = self.seen();
        let mut out: Vec<String> = Vec::new();
        let mut i: usize = 0;
        while i < links.len()
            invariant
                i <= links@.len(),
                texts(out@) == passed_upto(seen0, links@, pass_domain@, i as int),
                self.seen() == seen0 + texts(out@),
            decreases links@.len() - i,
        {
            let l = &links[i];
            if !excluded_by(l.as_str(), pass_domain) {
                let ghost before = self.seen();
                let ghost prev = texts(out@);
                let fresh = push_new(&mut self.seen, l.clone());
                proof {
                    assert(before.contains(l@) <==> (seen0.contains(l@) || prev.contains(l@))) by {
                        if before.contains(l@) {
                            let m = choose|m: int| 0 <= m < before.len() && before[m] == l@;
                            if m < seen0.len() {
                                assert(seen0[m] == l@);
                            } else {
                                assert(prev[m - seen0.len()] == l@);
                            }
                        }
                        if seen0.contains(l@) {
                            let m = choose|m: int| 0 <= m < seen0.len() && seen0[m] == l@;
                            assert(before[m] == l@);
                        }
                        if prev.contains(l@) {
                            let m = choose|m: int| 0 <= m < prev.len() && prev[m] == l@;
                            assert(before[seen0.len() + m] == l@);
                        }
                    }
                }
                if fresh {
                    out.push(l.clone());
                    assert(texts(out@) =~= prev.push(l@));
                    assert(self.seen() =~= seen0 + texts(out@));
                }
            }
            i = i + 1;
        }
        out
    }
}

/// The SHA-256 digest of `data`, as the sha2 crate computes it.
pub uninterp spec fn sha2_sha256(data: Seq<u8>) -> Seq<u8>;

/// Relies on `sha2::Sha256::digest`: the 32-byte SHA-256 digest of the data.
#[verifier::external_body]
fn sha256_bytes(data: &[u8]) -> (r: Vec<u8>)
    ensures
        r@ == sha2_sha256(data@),
{
    sha2::Sha256::digest(data).to_vec()
}

/// The digest of a page's text, to compare later pages against.
pub fn page_digest(html: &str) -> (r: Vec<u8>)
    ensures
        r@ == sha2_sha256(encode_utf8(html@)),
{
    sha256_bytes(html.as_bytes())
}

/// The text of the first `title` element of a parsed HTML document, if any.
pub uninterp spec fn html_title(html: Seq<char>) -> Option<Seq<char>>;

/// Relies on scraper: `Html::parse_document`, then `Selector::parse("title")`
/// and the first element that `select` yields, whose text nodes are joined.
#[verifier::external_body]
fn first_title(html: &str) -> (r: Option<String>)
    ensures
        crate::crawler::opt_view(r) == html_title(html@),
{
    let document = scraper::Html::parse_document(html);
    let selector = scraper::Selector::parse("title").ok()?;
    let element = document.select(&selector).next()?;
    Some(element.text().collect::<Vec<_>>().join(""))
}

/// The title of a page, or "Not found title" when it has none.
pub open spec fn title_text(html: Seq<char>) -> Seq<char> {
    match html_title(html) {
        Some(t) => t,
        None => "Not found title"@,
    }
}

/// The title of a page, or "Not found title" when it has none.
pub fn gettitle(html_text: &str) -> (r: String)
    ensures
        r@ == title_text(html_text@),
{
    match first_title(html_text) {
        Some(t) => t,
        None => "Not found title".to_string(),
    }
}

/// A page found under a known path is worth reporting: it answered with
/// success, is no disguised 404, did not land back on the homepage, has a
/// real title, and differs from the homepage in digest and in length.
pub open spec fn page_is_new(
    status: u16,
    resp_url: Seq<char>,
    homepage_url: Seq<char>,
    html: Seq<char>,
    homepage_hash: Seq<u8>,
    homepage_length: nat,
) -> bool {
    &&& 200 <= status < 300
    &&& !contains(html, "404 Not Found"@)
    &&& !contains(html, "\"code\":404,\"msg\":"@)
    &&& resp_url != homepage_url
    &&& !(contains(resp_url, "="@) && contains(resp_url, homepage_url))
    &&& title_text(html) != "Not found title"@
    &&& title_text(html) != "403 Forbidden"@
    &&& title_text(html) != "安全入口校验失败"@
    &&& sha2_sha256(encode_utf8(html)) != homepage_hash
    &&& encode_utf8(html).len() != homepage_length
}

fn same_bytes(a: &[u8], b: &[u8]) -> (r: bool)
    ensures
        r == (a@ == b@),
{
    if a.len() != b.len() {
        return false;
    }
    let mut i: usize = 0;
    while i < a.len()
        invariant
            a@.len() == b@.len(),
            i <= a@.len(),
            forall|k: int| 0 <= k < i ==> a@[k] == b@[k],
        decreases a@.len() - i,
    {
        if a[i] != b[i] {
            return false;
        }
        i = i + 1;
    }
    assert(a@ =~= b@);
    true
}

/// Whether a page found under a known path is worth reporting (see `page_is_new`).
pub fn is_new_page(
    status: u16,
    resp_url: &str,
    homepage_url: &str,
    html_text: &str,
    homepage_hash: &[u8],
    homepage_length: usize,
) -> (r: bool)
    ensures
        r == page_is_new(
            status,
            resp_url@,
            homepage_url@,
            html_text@,
            homepage_hash@,
            homepage_length as nat,
        ),
{
    if !(200 <= status && status < 300) {
        return false;
    }
    let html = chars_of(html_text);
    let nf = chars_of("404 Not Found");
    let code = chars_of("\"code\":404,\"msg\":");
    if contains_exec(html.as_slice(), nf.as_slice()) || contains_exec(
        html.as_slice(),
        code.as_slice(),
    ) {
        return false;
    }
    if crate::text::str_eq(resp_url, homepage_url) {
        return false;
    }
    let ru = chars_of(resp_url);
    let eq = chars_of("=");
    let hu = chars_of(homepage_url);
    if contains_exec(ru.as_slice(), eq.as_slice()) && contains_exec(ru.as_slice(), hu.as_slice()) {
        return false;
    }
    let title = gettitle(html_text);
    if crate::text::str_eq(title.as_str(), "Not found title") || crate::text::str_eq(title.as_str(), "403 Forbidden")
        || crate::text::str_eq(title.as_str(), "安全入口校验失败") {
        return false;
    }
    let digest = page_digest(html_text);
    if same_bytes(digest.as_slice(), homepage_hash) {
        return false;
    }
    let bytes = html_text.as_bytes();
    bytes.len() != homepage_length
}

/// `domain` and `path` joined by one `/`: slashes at the end of the domain
/// and at the start of the path are dropped first.
pub open spec fn joined_path(domain: Seq<char>, path: Seq<char>) -> Seq<char> {
    strip_trailing(domain, '/') + seq!['/'] + strip_leading(path, '/')
}

/// The URL of `path` under `domain` (see `joined_path`).
pub fn join_path(domain: &str, path: &str) -> (r: String)
    ensures
        r@ == joined_path(domain@, path@),
{
    let d = chars_of(domain);
    let p = chars_of(path);
    let mut out = strip_trailing_exec(d.as_slice(), '/');
    out.push('/');
    let rest = strip_leading_exec(p.as_slice(), '/');
    push_chars(&mut out, rest.as_slice());
    string_from_chars(out.as_slice())
}

/// The URL requested to learn how a site answers for a page that does not exist.
pub fn homepage_probe_url(domain: &str) -> (r: String)
    ensures
        r@ == joined_path(domain@, "kindedasaioadsjson"@),
{
    join_path(domain, "kindedasaioadsjson")
}

/// What a probe of a known path under a 404 page leads to: whether the URL
/// joins the 403 backlog, and whether the page is reported.
pub fn path_scan_outcome(status: u16, body_len: usize) -> (r: (bool, bool))
    ensures
        r.0 == (status == 403),
        r.1 == ((200 <= status < 300 || status == 403 || status == 302) && body_len > 0),
{
    let answered = (200 <= status && status < 300) || status == 403 || status == 302;
    (status == 403, answered && body_len > 0)
}

/// Whether a retry of a 403 page with a forwarding header got through.
pub fn bypass_succeeded(status: u16) -> (r: bool)
    ensures
        r == (200 <= status < 300 || status == 302),
{
    (200 <= status && status < 300) || status == 302
}

} // verus!
