//! Link and secret extraction from fetched HTML or script text.
//!
//! Candidate links are taken from `href`, `src`, `link`, `url` and `srcset`
//! attributes and from JSON-like `"page"` / `"path"` keys. A candidate holding
//! `(`, `{` or `,` is dropped, one holding `;` is cut at the first `;`, and the
//! rest are made absolute against the page's URL. Secrets are matched by a
//! separate list of credential-shaped patterns and only reported.

use vstd::prelude::*;
use crate::text::{
    chars_of, contains, contains_exec, first_from, first_index_from, lemma_first_from, push_chars,
    string_from_chars,
};
use vstd::string::StringExecFns;

verus! {

/// The pattern is accepted by the regex crate.
pub uninterp spec fn regex_compiles(pattern: Seq<char>) -> bool;

/// For each match of the pattern in the text, from left to right, the text
/// of its first capture group, if that group took part in the match.
pub uninterp spec fn regex_captures(pattern: Seq<char>, text: Seq<char>) -> Seq<Option<Seq<char>>>;

/// The text of each match of the pattern in the text, from left to right.
pub uninterp spec fn regex_matches(pattern: Seq<char>, text: Seq<char>) -> Seq<Seq<char>>;

pub open spec fn opt_view(o: Option<String>) -> Option<Seq<char>> {
    match o {
        Some(s) => Some(s@),
        None => None,
    }
}

/// Relies on `regex::Regex::new` (it fails exactly on a pattern it does not
/// accept) and on `Regex::captures_iter` with `Captures::get(1)`: the first
/// group of each successive non-overlapping match.
#[verifier::external_body]
fn capture_group_one(pattern: &str, text: &str) -> (r: Option<Vec<Option<String>>>)
    ensures
        r is Some <==> regex_compiles(pattern@),
        r matches Some(v) ==> v@.map_values(|o: Option<String>| opt_view(o)) == regex_captures(
            pattern@,
            text@,
        ),
{
    let re = regex::Regex::new(pattern).ok()?;
    Some(re.captures_iter(text).map(|c| c.get(1).map(|m| m.as_str().to_string())).collect())
}

/// Relies on `regex::Regex::new` (it fails exactly on a pattern it does not
/// accept) and on `Regex::find_iter`: the text of each successive
/// non-overlapping match.
#[verifier::external_body]
fn find_all(pattern: &str, text: &str) -> (r: Option<Vec<String>>)
    ensures
        r is Some <==> regex_compiles(pattern@),
        r matches Some(v) ==> v@.map_values(|s: String| s@) == regex_matches(pattern@, text@),
{
    let re = regex::Regex::new(pattern).ok()?;
    Some(re.find_iter(text).map(|m| m.as_str().to_string()).collect())
}

/// The link patterns; the first group of each match is a candidate link.
pub open spec fn link_patterns() -> Seq<Seq<char>> {
    seq![
        r#"["'](?:page|path)["']\s*:\s*"\s*(\S+?)\s*""#@,
        r#"(?i)href(?:"|'|["']|["']\s*:\s*["']|[\s=:]\s*["'])(https?://\S+?|/\S+?|.*?)["']"#@,
        r#"(?i)src(?:"|'|["']|["']\s*:\s*["']|[\s=:]\s*["'])(https?://\S+?|/\S+?|.*?)["']"#@,
        r#"(?i)link(?:"|'|["']|["']\s*:\s*["']|[\s=:]\s*["'])(https?://\S+?|/\S+?|.*?)["']"#@,
        r#"(?i)url(?:"|'|["']|["']\s*:\s*["']|[\s=:]\s*["'])(https?://\S+?|/\S+?|.*?)["']"#@,
        r#"(?i)srcset(?:"|'|["']|["']\s*:\s*["']|[\s=:]\s*["'])(https?://\S+?|/\S+?|.*?)["']"#@
    ]
}

fn link_pattern_list() -> (r: Vec<&'static str>)
    ensures
        r@.map_values(|s: &str| s@) == link_patterns(),
{
    let r = vec![
        r#"["'](?:page|path)["']\s*:\s*"\s*(\S+?)\s*""#,
        r#"(?i)href(?:"|'|["']|["']\s*:\s*["']|[\s=:]\s*["'])(https?://\S+?|/\S+?|.*?)["']"#,
        r#"(?i)src(?:"|'|["']|["']\s*:\s*["']|[\s=:]\s*["'])(https?://\S+?|/\S+?|.*?)["']"#,
        r#"(?i)link(?:"|'|["']|["']\s*:\s*["']|[\s=:]\s*["'])(https?://\S+?|/\S+?|.*?)["']"#,
        r#"(?i)url(?:"|'|["']|["']\s*:\s*["']|[\s=:]\s*["'])(https?://\S+?|/\S+?|.*?)["']"#,
        r#"(?i)srcset(?:"|'|["']|["']\s*:\s*["']|[\s=:]\s*["'])(https?://\S+?|/\S+?|.*?)["']"#
    ];
    assert(r@.map_values(|s: &str| s@) =~= link_patterns());
    r
}

/// The secret patterns, each with the name of the credential it finds.
pub open spec fn key_patterns() -> Seq<(Seq<char>, Seq<char>)> {
    seq![
        ("Amazon Key"@, r#"AKIA[A-Za-z0-9]{16}"#@),
        ("Google Key"@, r#"GOOG[\w\W]{10,30}"#@),
        ("Azure Key"@, r#"AZ[A-Za-z0-9]{34,40}"#@),
        ("IBM Key"@, r#"IBM[A-Za-z0-9]{10,40}"#@),
        ("Alibaba Key"@, r#"LTAI[A-Za-z0-9]{12,20}"#@),
        ("Tencent Key"@, r#"^AKID[A-Za-z0-9]{13,20}"#@),
        ("JD Key"@, r#"JDC_[A-Z0-9]{28,32}"#@),
        ("Volcengine Key"@, r#"AKLT[a-zA-Z0-9-_]{0,252}"#@),
        ("UC Key"@, r#"UC[A-Za-z0-9]{10,40}"#@),
        ("QY Key"@, r#"QY[A-Za-z0-9]{10,40}$"#@),
        ("Kingsoft Key"@, r#"^AKLT[a-zA-Z0-9-_]{16,28}"#@),
        ("CTC Key"@, r#"CTC[A-Za-z0-9]{10,60}"#@),
        ("LTC Key"@, r#"LTC[A-Za-z0-9]{10,60}"#@),
        ("YD Key"@, r#"YD[A-Za-z0-9]{10,60}"#@),
        ("YY Key"@, r#"YY[A-Za-z0-9]{10,40}"#@)
    ]
}

fn key_pattern_list() -> (r: Vec<(&'static str, &'static str)>)
    ensures
        r@.map_values(|p: (&str, &str)| (p.0@, p.1@)) == key_patterns(),
{
    let r = vec![
        ("Amazon Key", r#"AKIA[A-Za-z0-9]{16}"#),
        ("Google Key", r#"GOOG[\w\W]{10,30}"#),
        ("Azure Key", r#"AZ[A-Za-z0-9]{34,40}"#),
        ("IBM Key", r#"IBM[A-Za-z0-9]{10,40}"#),
        ("Alibaba Key", r#"LTAI[A-Za-z0-9]{12,20}"#),
        ("Tencent Key", r#"^AKID[A-Za-z0-9]{13,20}"#),
        ("JD Key", r#"JDC_[A-Z0-9]{28,32}"#),
        ("Volcengine Key", r#"AKLT[a-zA-Z0-9-_]{0,252}"#),
        ("UC Key", r#"UC[A-Za-z0-9]{10,40}"#),
        ("QY Key", r#"QY[A-Za-z0-9]{10,40}$"#),
        ("Kingsoft Key", r#"^AKLT[a-zA-Z0-9-_]{16,28}"#),
        ("CTC Key", r#"CTC[A-Za-z0-9]{10,60}"#),
        ("LTC Key", r#"LTC[A-Za-z0-9]{10,60}"#),
        ("YD Key", r#"YD[A-Za-z0-9]{10,60}"#),
        ("YY Key", r#"YY[A-Za-z0-9]{10,40}"#)
    ];
    assert(r@.map_values(|p: (&str, &str)| (p.0@, p.1@)) =~= key_patterns());
    r
}

/// The captured texts, in order, leaving out the matches where the group
/// did not take part.
pub open spec fn present(caps: Seq<Option<Seq<char>>>) -> Seq<Seq<char>>
    decreases caps.len(),
{
    if caps.len() == 0 {
        Seq::empty()
    } else {
        let rest = present(caps.drop_last());
        match caps.last() {
            Some(t) => rest.push(t),
            None => rest,
        }
    }
}

/// The candidate links of the first `n` link patterns, pattern by pattern.
pub open spec fn candidates_upto(html: Seq<char>, n: int) -> Seq<Seq<char>>
    decreases n,
{
    if n <= 0 {
        Seq::empty()
    } else {
        candidates_upto(html, n - 1) + present(regex_captures(link_patterns()[n - 1], html))
    }
}

/// All link patterns are accepted by the regex crate.
pub open spec fn link_patterns_compile() -> bool {
    forall|k: int| 0 <= k < link_patterns().len() ==> #[trigger] regex_compiles(link_patterns()[k])
}

/// A candidate that holds `(`, `{` or `,` is no link.
pub open spec fn disqualified(c: Seq<char>) -> bool {
    c.contains('(') || c.contains('{') || c.contains(',')
}

/// A candidate cut at its first `;`.
pub open spec fn cut_at_semicolon(c: Seq<char>) -> Seq<char> {
    c.take(first_from(c, 0, ';'))
}

/// The characters trimmed from both ends of a relative link.
pub open spec fn is_trimmed(c: char) -> bool {
    c == '*' || c == '@' || c == '{' || c == '}' || c == '(' || c == ')' || c == '/' || c == ' '
}

/// The first index from `j` on whose character is not trimmed, or the length.
pub open spec fn lead_from(s: Seq<char>, j: int) -> int
    decreases s.len() - j,
{
    if j < 0 || j >= s.len() {
        s.len() as int
    } else if is_trimmed(s[j]) {
        lead_from(s, j + 1)
    } else {
        j
    }
}

/// The end of `s` below `j` once trimmed characters are dropped, not going below `lo`.
pub open spec fn trail_to(s: Seq<char>, lo: int, j: int) -> int
    decreases j - lo,
{
    if j <= lo || j > s.len() {
        lo
    } else if is_trimmed(s[j - 1]) {
        trail_to(s, lo, j - 1)
    } else {
        j
    }
}

/// `s` without the trimmed characters at either end.
pub open spec fn trim(s: Seq<char>) -> Seq<char> {
    let lo = lead_from(s, 0);
    s.subrange(lo, trail_to(s, lo, s.len() as int))
}

/// The base of a URL for relative links: the text before its first `/`,
/// then `//`, then the text between its second and third `/` (the host).
pub open spec fn base_of(url: Seq<char>) -> Seq<char> {
    let a = first_from(url, 0, '/');
    let b = first_from(url, a + 1, '/');
    let host = if b < url.len() {
        url.subrange(b + 1, first_from(url, b + 1, '/'))
    } else {
        Seq::empty()
    };
    url.take(a) + seq!['/', '/'] + host
}

/// The first position from `j` on where `needle` occurs in `s`, if any.
pub open spec fn find_from(s: Seq<char>, needle: Seq<char>, j: int) -> Option<int>
    decreases s.len() + 1 - j,
{
    if j < 0 || j > s.len() {
        None
    } else if crate::text::occurs_at(s, needle, j) {
        Some(j)
    } else {
        find_from(s, needle, j + 1)
    }
}

/// The scheme of a URL: the text before its first `://`, or `http`.
pub open spec fn scheme_of(url: Seq<char>) -> Seq<char> {
    match find_from(url, seq![':', '/', '/'], 0) {
        Some(k) => url.take(k),
        None => seq!['h', 't', 't', 'p'],
    }
}

/// A link made absolute against `url`: a protocol-relative link (`//host/...`)
/// takes the URL's scheme, a link without `://` is joined to the URL's
/// scheme and host, any other link is kept.
pub open spec fn resolve(url: Seq<char>, link: Seq<char>) -> Seq<char> {
    if link.len() >= 2 && link[0] == '/' && link[1] == '/' {
        scheme_of(url) + seq![':'] + link
    } else if !contains(link, seq![':', '/', '/']) {
        base_of(url) + seq!['/'] + trim(link)
    } else {
        link
    }
}

/// The links found among the first `n` candidates: each kept candidate,
/// cut and resolved, once, in order of first appearance.
pub open spec fn links_upto(url: Seq<char>, cands: Seq<Seq<char>>, n: int) -> Seq<Seq<char>>
    decreases n,
{
    if n <= 0 {
        Seq::empty()
    } else {
        let prev = links_upto(url, cands, n - 1);
        let c = cands[n - 1];
        if disqualified(c) {
            prev
        } else {
            let l = resolve(url, cut_at_semicolon(c));
            if prev.contains(l) {
                prev
            } else {
                prev.push(l)
            }
        }
    }
}

/// The links of a page at `url` with text `html`.
pub open spec fn extracted_links(url: Seq<char>, html: Seq<char>) -> Seq<Seq<char>> {
    let cands = candidates_upto(html, link_patterns().len() as int);
    links_upto(url, cands, cands.len() as int)
}

fn has_char(s: &[char], c: char) -> (r: bool)
    ensures
        r == s@.contains(c),
{
    let mut i: usize = 0;
    while i < s.len()
        invariant
            i <= s@.len(),
            forall|k: int| 0 <= k < i ==> s@[k] != c,
        decreases s@.len() - i,
    {
        if s[i] == c {
            assert(s@[i as int] == c);
            return true;
        }
        i = i + 1;
    }
    false
}

fn trim_exec(s: &[char]) -> (r: Vec<char>)
    ensures
        r@ == trim(s@),
{
    let mut lo: usize = 0;
    while lo < s.len() && (s[lo] == '*' || s[lo] == '@' || s[lo] == '{' || s[lo] == '}' || s[lo]
        == '(' || s[lo] == ')' || s[lo] == '/' || s[lo] == ' ')
        invariant
            lo <= s@.len(),
            lead_from(s@, 0) == lead_from(s@, lo as int),
        decreases s@.len() - lo,
    {
        lo = lo + 1;
    }
    let mut hi: usize = s.len();
    while hi > lo && (s[hi - 1] == '*' || s[hi - 1] == '@' || s[hi - 1] == '{' || s[hi - 1] == '}'
        || s[hi - 1] == '(' || s[hi - 1] == ')' || s[hi - 1] == '/' || s[hi - 1] == ' ')
        invariant
            lo <= hi <= s@.len(),
            lo == lead_from(s@, 0),
            trail_to(s@, lo as int, s@.len() as int) == trail_to(s@, lo as int, hi as int),
        decreases hi - lo,
    {
        hi = hi - 1;
    }
    let mut out: Vec<char> = Vec::new();
    push_chars(&mut out, &s[lo..hi]);
    out
}

fn find_exec(s: &[char], needle: &[char]) -> (r: Option<usize>)
    ensures
        r matches Some(k) ==> find_from(s@, needle@, 0) == Some(k as int) && k <= s@.len(),
        r is None ==> find_from(s@, needle@, 0) is None,
{
    let mut j: usize = 0;
    while j < s.len()
        invariant
            j <= s@.len(),
            find_from(s@, needle@, 0) == find_from(s@, needle@, j as int),
        decreases s@.len() - j,
    {
        if crate::text::occurs_at_exec(s, needle, j) {
            return Some(j);
        }
        j = j + 1;
    }
    if crate::text::occurs_at_exec(s, needle, j) {
        return Some(j);
    }
    assert(find_from(s@, needle@, j + 1) is None);
    assert(find_from(s@, needle@, j as int) == find_from(s@, needle@, j + 1));
    None
}

fn resolve_exec(url: &[char], link: &[char]) -> (r: Vec<char>)
    ensures
        r@ == resolve(url@, link@),
{
    let mut out: Vec<char> = Vec::new();
    let sep = vec![':', '/', '/'];
    assert(sep@ =~= seq![':', '/', '/']);
    if link.len() >= 2 && link[0] == '/' && link[1] == '/' {
        match find_exec(url, sep.as_slice()) {
            Some(k) => push_chars(&mut out, &url[0..k]),
            None => {
                let http = vec!['h', 't', 't', 'p'];
                assert(http@ =~= seq!['h', 't', 't', 'p']);
                push_chars(&mut out, http.as_slice());
            },
        }
        out.push(':');
        push_chars(&mut out, link);
        assert(out@ =~= resolve(url@, link@));
        out
    } else if !contains_exec(link, sep.as_slice()) {
        let a = first_index_from(url, 0, '/');
        proof {
            lemma_first_from(url@, 0, '/');
        }
        push_chars(&mut out, &url[0..a]);
        out.push('/');
        out.push('/');
        if a < url.len() {
            let b = first_index_from(url, a + 1, '/');
            proof {
                lemma_first_from(url@, a + 1, '/');
            }
            if b < url.len() {
                let c = first_index_from(url, b + 1, '/');
                proof {
                    lemma_first_from(url@, b + 1, '/');
                }
                push_chars(&mut out, &url[b + 1..c]);
            }
        } else {
            assert(first_from(url@, a + 1, '/') == url@.len());
        }
        out.push('/');
        let t = trim_exec(link);
        push_chars(&mut out, t.as_slice());
        assert(out@ =~= resolve(url@, link@));
        out
    } else {
        push_chars(&mut out, link);
        out
    }
}

/// Extracts links and secrets from page text.
pub struct LinkScan;

impl LinkScan {
    /// The absolute links found in `html`, fetched from `url`, each once, in
    /// order of first appearance; `None` if a link pattern is not accepted.
    pub fn crawler(&self, url: &str, html: &str) -> (r: Option<Vec<String>>)
        ensures
            r is Some <==> link_patterns_compile(),
            r matches Some(v) ==> v@.map_values(|s: String| s@) == extracted_links(url@, html@),
    {
        let pats = link_pattern_list();
        let mut cands: Vec<String> = Vec::new();
        let mut p: usize = 0;
        while p < pats.len()
            invariant
                pats@.map_values(|s: &str| s@) == link_patterns(),
                p <= pats@.len(),
                forall|k: int| 0 <= k < p ==> #[trigger] regex_compiles(link_patterns()[k]),
                cands@.map_values(|s: String| s@) == candidates_upto(html@, p as int),
            decreases pats@.len() - p,
        {
            assert(pats@[p as int]@ == link_patterns()[p as int]);
            let caps = match capture_group_one(pats[p], html) {
                Some(c) => c,
                None => {
                    return None;
                },
            };
            let mut q: usize = 0;
            let ghost base = cands@.map_values(|s: String| s@);
            while q < caps.len()
                invariant
                    q <= caps@.len(),
                    cands@.map_values(|s: String| s@) == base + present(
                        caps@.take(q as int).map_values(|o: Option<String>| opt_view(o)),
                    ),
                decreases caps@.len() - q,
            {
                let ghost before = cands@.map_values(|s: String| s@);
                let ghost f = |o: Option<String>| opt_view(o);
                assert(caps@.take(q + 1).map_values(f) =~= caps@.take(q as int).map_values(f).push(
                    opt_view(caps@[q as int]),
                ));
                assert(caps@.take(q + 1).map_values(f).drop_last() =~= caps@.take(q as int).map_values(f));
                match &caps[q] {
                    Some(t) => {
                        cands.push(t.clone());
                        assert(cands@.map_values(|s: String| s@) =~= before.push(t@));
                    },
                    None => {},
                }
                q = q + 1;
            }
            assert(caps@.take(q as int) =~= caps@);
            p = p + 1;
        }
        let u = chars_of(url);
        let mut out: Vec<String> = Vec::new();
        let mut outc: Vec<Vec<char>> = Vec::new();
        let mut i: usize = 0;
        let ghost cs = cands@.map_values(|s: String| s@);
        while i < cands.len()
            invariant
                u@ == url@,
                cs == cands@.map_values(|s: String| s@),
                i <= cands@.len(),
                out@.len() == outc@.len(),
                forall|k: int| 0 <= k < out@.len() ==> #[trigger] out@[k]@ == outc@[k]@,
                out@.map_values(|s: String| s@) == links_upto(url@, cs, i as int),
            decreases cands@.len() - i,
        {
            let c = chars_of(cands[i].as_str());
            assert(c@ == cs[i as int]);
            if !(has_char(c.as_slice(), '(') || has_char(c.as_slice(), '{') || has_char(
                c.as_slice(),
                ',',
            )) {
                let semi = first_index_from(c.as_slice(), 0, ';');
                proof {
                    lemma_first_from(c@, 0, ';');
                }
                let l = resolve_exec(u.as_slice(), &c.as_slice()[0..semi]);
                let mut seen = false;
                let mut k: usize = 0;
                while k < outc.len()
                    invariant
                        k <= outc@.len(),
                        seen == exists|m: int| 0 <= m < k && outc@[m]@ == l@,
                    decreases outc@.len() - k,
                {
                    if outc[k].len() == l.len() && contains_exec(outc[k].as_slice(), l.as_slice()) {
                        proof {
                            let j = choose|j: int| crate::text::occurs_at(outc@[k as int]@, l@, j);
                            assert(outc@[k as int]@.subrange(0, l@.len() as int) =~= outc@[k as int]@);
                        }
                        seen = true;
                    } else {
                        proof {
                            if outc@[k as int]@ == l@ {
                                assert(outc@[k as int]@.subrange(0, l@.len() as int) =~= l@);
                                assert(crate::text::occurs_at(outc@[k as int]@, l@, 0));
                            }
                        }
                    }
                    k = k + 1;
                }
                let ghost prev = out@.map_values(|s: String| s@);
                assert(seen == prev.contains(l@)) by {
                    if seen {
                        let m = choose|m: int| 0 <= m < k && outc@[m]@ == l@;
                        assert(prev[m] == l@);
                    }
                    if prev.contains(l@) {
                        let m = choose|m: int| 0 <= m < prev.len() && prev[m] == l@;
                        assert(outc@[m]@ == l@);
                    }
                }
                if !seen {
                    let ls = string_from_chars(l.as_slice());
                    out.push(ls);
                    outc.push(l);
                    assert(out@.map_values(|s: String| s@) =~= prev.push(out@[out@.len() - 1]@));
                }
            }
            i = i + 1;
        }
        Some(out)
    }
}

/// The secret hits of the first `n` secret patterns, pattern by pattern:
/// the credential's name with the matched text.
pub open spec fn hits_upto(html: Seq<char>, n: int) -> Seq<(Seq<char>, Seq<char>)>
    decreases n,
{
    if n <= 0 {
        Seq::empty()
    } else {
        hits_upto(html, n - 1) + regex_matches(key_patterns()[n - 1].1, html).map_values(
            |m: Seq<char>| (key_patterns()[n - 1].0, m),
        )
    }
}

/// The report line for a secret found on the page at `url`.
pub open spec fn key_line(url: Seq<char>, name: Seq<char>, m: Seq<char>) -> Seq<char> {
    "Found KEY in "@ + url + " "@ + name + ": "@ + m
}

/// The reports among the first `n` hits: each distinct matched text is
/// reported once, at its first hit.
pub open spec fn reports_upto(url: Seq<char>, hits: Seq<(Seq<char>, Seq<char>)>, n: int) -> Seq<
    Seq<char>,
>
    decreases n,
{
    if n <= 0 {
        Seq::empty()
    } else {
        let prev = reports_upto(url, hits, n - 1);
        if hits.take(n - 1).map_values(|h: (Seq<char>, Seq<char>)| h.1).contains(hits[n - 1].1) {
            prev
        } else {
            prev.push(key_line(url, hits[n - 1].0, hits[n - 1].1))
        }
    }
}

/// All secret patterns are accepted by the regex crate.
pub open spec fn key_patterns_compile() -> bool {
    forall|k: int| 0 <= k < key_patterns().len() ==> #[trigger] regex_compiles(key_patterns()[k].1)
}

/// The secret reports for a page at `url` with text `html`.
pub open spec fn key_reports(url: Seq<char>, html: Seq<char>) -> Seq<Seq<char>> {
    let hits = hits_upto(html, key_patterns().len() as int);
    reports_upto(url, hits, hits.len() as int)
}

impl LinkScan {
    /// The secret reports for the page at `url` with text `html`; `None` if a
    /// secret pattern is not accepted.
    pub fn find_keys(&self, url: &str, html: &str) -> (r: Option<Vec<String>>)
        ensures
            r is Some <==> key_patterns_compile(),
            r matches Some(v) ==> v@.map_values(|s: String| s@) == key_reports(url@, html@),
    {
        let pats = key_pattern_list();
        let mut seen: Vec<String> = Vec::new();
        let mut out: Vec<String> = Vec::new();
        let ghost mut hits: Seq<(Seq<char>, Seq<char>)> = Seq::empty();
        let mut p: usize = 0;
        while p < pats.len()
            invariant
                pats@.map_values(|q: (&str, &str)| (q.0@, q.1@)) == key_patterns(),
                p <= pats@.len(),
                forall|k: int| 0 <= k < p ==> #[trigger] regex_compiles(key_patterns()[k].1),
                hits == hits_upto(html@, p as int),
                seen@.map_values(|s: String| s@) == hits.map_values(|h: (Seq<char>, Seq<char>)| h.1),
                out@.map_values(|s: String| s@) == reports_upto(url@, hits, hits.len() as int),
            decreases pats@.len() - p,
        {
            let (name, pattern) = pats[p];
            assert(name@ == key_patterns()[p as int].0 && pattern@ == key_patterns()[p as int].1);
            let found = match find_all(pattern, html) {
                Some(f) => f,
                None => {
                    return None;
                },
            };
            let ghost start = hits;
            let mut q: usize = 0;
            while q < found.len()
                invariant
                    q <= found@.len(),
                    name@ == key_patterns()[p as int].0,
                    found@.map_values(|s: String| s@) == regex_matches(key_patterns()[p as int].1, html@),
                    hits == start + regex_matches(key_patterns()[p as int].1, html@).take(q as int).map_values(
                        |m: Seq<char>| (key_patterns()[p as int].0, m),
                    ),
                    seen@.map_values(|s: String| s@) == hits.map_values(|h: (Seq<char>, Seq<char>)| h.1),
                    out@.map_values(|s: String| s@) == reports_upto(url@, hits, hits.len() as int),
                decreases found@.len() - q,
            {
                let m = &found[q];
                let mut earlier = false;
                let mut k: usize = 0;
                while k < seen.len()
                    invariant
                        k <= seen@.len(),
                        earlier == exists|j: int| 0 <= j < k && seen@[j]@ == m@,
                    decreases seen@.len() - k,
                {
                    if seen[k] == *m {
                        earlier = true;
                    }
                    k = k + 1;
                }
                let ghost h1 = hits.map_values(|h: (Seq<char>, Seq<char>)| h.1);
                let ghost hit = (name@, m@);
                let ghost next = hits.push(hit);
                assert(next.take(hits.len() as int) =~= hits);
                assert(earlier == h1.contains(m@)) by {
                    if earlier {
                        let j = choose|j: int| 0 <= j < seen@.len() && seen@[j]@ == m@;
                        assert(h1[j] == m@);
                    }
                    if h1.contains(m@) {
                        let j = choose|j: int| 0 <= j < h1.len() && h1[j] == m@;
                        assert(seen@[j]@ == m@);
                    }
                }
                if !earlier {
                    let line = "Found KEY in ".to_string().concat(url).concat(" ").concat(name).concat(
                        ": ",
                    ).concat(m.as_str());
                    let ghost prev = out@.map_values(|s: String| s@);
                    out.push(line);
                    assert(out@.map_values(|s: String| s@) =~= prev.push(key_line(url@, name@, m@)));
                }
                let ghost prevseen = seen@.map_values(|s: String| s@);
                seen.push(m.clone());
                assert(seen@.map_values(|s: String| s@) =~= prevseen.push(m@));
                proof {
                    assert(found@.map_values(|s: String| s@)[q as int] == m@);
                    let ms = regex_matches(key_patterns()[p as int].1, html@);
                    let f = |x: Seq<char>| (key_patterns()[p as int].0, x);
                    assert(ms.take(q + 1).map_values(f) =~= ms.take(q as int).map_values(f).push(hit));
                    assert(start + ms.take(q + 1).map_values(f) =~= next);
                    assert(next.map_values(|h: (Seq<char>, Seq<char>)| h.1) =~= h1.push(m@));
                    lemma_reports_prefix(url@, hits, next, hits.len() as int);
                    assert(next[hits.len() as int] == hit);
                    hits = next;
                }
                q = q + 1;
            }
            proof {
                let ms = regex_matches(key_patterns()[p as int].1, html@);
                assert(ms.take(q as int) =~= ms);
            }
            p = p + 1;
        }
        Some(out)
    }
}

proof fn lemma_reports_prefix(
    url: Seq<char>,
    a: Seq<(Seq<char>, Seq<char>)>,
    b: Seq<(Seq<char>, Seq<char>)>,
    n: int,
)
    requires
        n <= a.len() <= b.len(),
        b.take(a.len() as int) == a,
    ensures
        reports_upto(url, a, n) == reports_upto(url, b, n),
    decreases n,
{
    if n > 0 {
        lemma_reports_prefix(url, a, b, n - 1);
        assert(a.take(n - 1) =~= b.take(n - 1));
        assert(a[n - 1] == b.take(a.len() as int)[n - 1]);
    }
}

proof fn lemma_links_distinct(url: Seq<char>, cands: Seq<Seq<char>>, n: int)
    ensures
        links_upto(url, cands, n).no_duplicates(),
    decreases n,
{
    if n > 0 {
        lemma_links_distinct(url, cands, n - 1);
    }
}

/// Extraction has no hidden state: the links depend on the URL and the text
/// alone, so two extractions from the same input give the same links, and
/// each link is given once.
pub proof fn lemma_extraction_repeatable(
    url: Seq<char>,
    html: Seq<char>,
    first: Seq<Seq<char>>,
    second: Seq<Seq<char>>,
)
    requires
        first == extracted_links(url, html),
        second == extracted_links(url, html),
    ensures
        first == second,
        first.no_duplicates(),
{
    let cands = candidates_upto(html, link_patterns().len() as int);
    lemma_links_distinct(url, cands, cands.len() as int);
}

proof fn lemma_first_from_at(s: Seq<char>, j: int, k: int, c: char)
    requires
        0 <= j <= k <= s.len(),
        forall|i: int| j <= i < k ==> s[i] != c,
        k == s.len() || s[k] == c,
    ensures
        first_from(s, j, c) == k,
    decreases k - j,
{
    if j < k {
        lemma_first_from_at(s, j + 1, k, c);
    }
}

/// Relative links resolve against the page's scheme and host: for a page
/// at `scheme://host` followed by nothing or by a path, a link that has no
/// `://` and does not start with `//` becomes `scheme://host/` followed by
/// the link with the trimmed characters dropped from both ends.
pub proof fn lemma_relative_link_resolution(
    scheme: Seq<char>,
    host: Seq<char>,
    rest: Seq<char>,
    link: Seq<char>,
)
    requires
        !scheme.contains('/'),
        !host.contains('/'),
        rest.len() == 0 || rest[0] == '/',
        !(link.len() >= 2 && link[0] == '/' && link[1] == '/'),
        !contains(link, seq![':', '/', '/']),
    ensures
        resolve(scheme + seq![':', '/', '/'] + host + rest, link) == scheme + seq![':', '/', '/']
            + host + seq!['/'] + trim(link),
{
    let url = scheme + seq![':', '/', '/'] + host + rest;
    let a: int = scheme.len() as int + 1;
    let b: int = a + 1;
    let c: int = b + 1 + host.len();
    assert forall|i: int| 0 <= i < a implies url[i] != '/' by {
        if i < scheme.len() {
            assert(url[i] == scheme[i]);
        }
    }
    lemma_first_from_at(url, 0, a, '/');
    lemma_first_from_at(url, a + 1, b, '/');
    assert forall|i: int| b + 1 <= i < c implies url[i] != '/' by {
        assert(url[i] == host[i - b - 1]);
    }
    if rest.len() > 0 {
        assert(url[c] == rest[0]);
    }
    lemma_first_from_at(url, b + 1, c, '/');
    assert(url.take(a) + seq!['/', '/'] + url.subrange(b + 1, c) =~= scheme + seq![':', '/', '/']
        + host);
}

/// The links of a page at `url` with text `html` (see `LinkScan::crawler`).
pub fn crawmain(url: &str, html: &str) -> (r: Option<Vec<String>>)
    ensures
        r is Some <==> link_patterns_compile(),
        r matches Some(v) ==> v@.map_values(|s: String| s@) == extracted_links(url@, html@),
{
    let link_scan = LinkScan;
    link_scan.crawler(url, html)
}

} // verus!
