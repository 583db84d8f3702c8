//! Declarative rule evaluation over a captured HTTP response.
//!
//! A rule names the part of the response it inspects (body, headers or the
//! favicon hash), a list of keywords and how the keywords combine (all of
//! them, or any of them). Fingerprint rules and vulnerability-template rules
//! are both evaluated here, by the same code.

use vstd::prelude::*;
use crate::text::{chars_of, contains, contains_exec, push_chars, str_eq};

verus! {

/// The part of a response that a rule inspects.
#[derive(PartialEq, Eq, Structural, Clone, Copy, Debug)]
pub enum Method {
    FaviconHash,
    Header,
    Body,
    Title,
    Unknown,
}

/// How the keywords of a rule combine.
#[derive(PartialEq, Eq, Structural, Clone, Copy, Debug)]
pub enum Combinator {
    And,
    Or,
    Unknown,
}

pub open spec fn method_of(s: Seq<char>) -> Method {
    if s == "faviconhash"@ {
        Method::FaviconHash
    } else if s == "header"@ {
        Method::Header
    } else if s == "body"@ || s == "title"@ {
        Method::Body
    } else {
        Method::Unknown
    }
}

pub open spec fn combinator_of(s: Seq<char>) -> Combinator {
    if s == "and"@ {
        Combinator::And
    } else if s == "or"@ {
        Combinator::Or
    } else {
        Combinator::Unknown
    }
}

impl Method {
    /// Reads a method tag; a title rule inspects the body.
    pub fn from_str(method: &str) -> (r: Method)
        ensures
            r == method_of(method@),
    {
        if str_eq(method, "faviconhash") {
            Method::FaviconHash
        } else if str_eq(method, "header") {
            Method::Header
        } else if str_eq(method, "body") || str_eq(method, "title") {
            Method::Body
        } else {
            Method::Unknown
        }
    }
}

impl Combinator {
    /// Reads a combinator tag; any other value gives `Unknown`.
    pub fn from_str(logic: &str) -> (r: Combinator)
        ensures
            r == combinator_of(logic@),
    {
        if str_eq(logic, "and") {
            Combinator::And
        } else if str_eq(logic, "or") {
            Combinator::Or
        } else {
            Combinator::Unknown
        }
    }
}

/// The parts of a response that rules look at. Headers are (name, value)
/// pairs; a header may appear several times.
pub struct CapturedResponse {
    pub body: String,
    pub headers: Vec<(String, String)>,
    pub favicon_hash: String,
}

/// A header written as one line: its name, `: `, then its value.
pub open spec fn header_line(name: Seq<char>, value: Seq<char>) -> Seq<char> {
    name + seq![':', ' '] + value
}

/// Keyword `kw` is found in the header at `j`: in its name, in its value,
/// or in its `name: value` line.
pub open spec fn hits_header(headers: Seq<(String, String)>, j: int, kw: Seq<char>) -> bool {
    contains(headers[j].0@, kw) || contains(headers[j].1@, kw) || contains(
        header_line(headers[j].0@, headers[j].1@),
        kw,
    )
}

/// Keyword `kw` is found in some header (see `hits_header`).
pub open spec fn header_hit(headers: Seq<(String, String)>, kw: Seq<char>) -> bool {
    exists|j: int| 0 <= j < headers.len() && #[trigger] hits_header(headers, j, kw)
}

/// Keyword `kw` is found in the part of the response that `method` selects.
/// Any method other than the favicon hash and the headers selects the body.
pub open spec fn part_hit(
    method: Method,
    kw: Seq<char>,
    hash: Seq<char>,
    headers: Seq<(String, String)>,
    body: Seq<char>,
) -> bool {
    match method {
        Method::FaviconHash => contains(hash, kw),
        Method::Header => header_hit(headers, kw),
        _ => contains(body, kw),
    }
}

/// A rule with these parts holds of a response: with `Or` some keyword is
/// found, with `And` every keyword is found (each in a header of its own, if
/// need be). An empty keyword list or an unknown combinator never holds.
pub open spec fn rule_holds(
    comb: Combinator,
    method: Method,
    keywords: Seq<String>,
    hash: Seq<char>,
    headers: Seq<(String, String)>,
    body: Seq<char>,
) -> bool {
    keywords.len() > 0 && match comb {
        Combinator::Or => exists|i: int|
            0 <= i < keywords.len() && #[trigger] part_hit(
                method,
                keywords[i]@,
                hash,
                headers,
                body,
            ),
        Combinator::And => forall|i: int|
            0 <= i < keywords.len() ==> #[trigger] part_hit(
                method,
                keywords[i]@,
                hash,
                headers,
                body,
            ),
        Combinator::Unknown => false,
    }
}

/// Headers held as characters, for repeated searching.
struct HeaderChars {
    names: Vec<Vec<char>>,
    values: Vec<Vec<char>>,
    lines: Vec<Vec<char>>,
}

impl HeaderChars {
    spec fn matches(&self, headers: Seq<(String, String)>) -> bool {
        &&& self.names@.len() == headers.len()
        &&& self.values@.len() == headers.len()
        &&& self.lines@.len() == headers.len()
        &&& forall|j: int|
            0 <= j < headers.len() ==> self.names@[j]@ == headers[j].0@ && self.values@[j]@
                == headers[j].1@ && self.lines@[j]@ == header_line(headers[j].0@, headers[j].1@)
    }

    fn new(headers: &Vec<(String, String)>) -> (r: HeaderChars)
        ensures
            r.matches(headers@),
    {
        let mut names: Vec<Vec<char>> = Vec::new();
        let mut values: Vec<Vec<char>> = Vec::new();
        let mut lines: Vec<Vec<char>> = Vec::new();
        let mut j: usize = 0;
        while j < headers.len()
            invariant
                j <= headers@.len(),
                names@.len() == j,
                values@.len() == j,
                lines@.len() == j,
                forall|k: int|
                    0 <= k < j ==> names@[k]@ == headers@[k].0@ && values@[k]@ == headers@[k].1@
                        && lines@[k]@ == header_line(headers@[k].0@, headers@[k].1@),
            decreases headers@.len() - j,
        {
            let name = chars_of(headers[j].0.as_str());
            let value = chars_of(headers[j].1.as_str());
            let mut line = chars_of(headers[j].0.as_str());
            line.push(':');
            line.push(' ');
            push_chars(&mut line, value.as_slice());
            assert(line@ =~= header_line(headers@[j as int].0@, headers@[j as int].1@));
            names.push(name);
            values.push(value);
            lines.push(line);
            j = j + 1;
        }
        HeaderChars { names, values, lines }
    }

    fn hit(&self, kw: &[char], Ghost(headers): Ghost<Seq<(String, String)>>) -> (r: bool)
        requires
            self.matches(headers),
        ensures
            r == header_hit(headers, kw@),
    {
        let mut j: usize = 0;
        while j < self.names.len()
            invariant
                self.matches(headers),
                j <= headers.len(),
                forall|k: int| 0 <= k < j ==> !hits_header(headers, k, kw@),
            decreases headers.len() - j,
        {
            if contains_exec(self.names[j].as_slice(), kw) || contains_exec(
                self.values[j].as_slice(),
                kw,
            ) || contains_exec(self.lines[j].as_slice(), kw) {
                assert(hits_header(headers, j as int, kw@));
                return true;
            }
            j = j + 1;
        }
        false
    }
}

/// A response held as characters.
struct ResponseChars {
    hash: Vec<char>,
    headers: HeaderChars,
    body: Vec<char>,
}

impl ResponseChars {
    spec fn matches(
        &self,
        hash: Seq<char>,
        headers: Seq<(String, String)>,
        body: Seq<char>,
    ) -> bool {
        self.hash@ == hash && self.headers.matches(headers) && self.body@ == body
    }

    fn new(hash: &str, headers: &Vec<(String, String)>, body: &str) -> (r: ResponseChars)
        ensures
            r.matches(hash@, headers@, body@),
    {
        ResponseChars { hash: chars_of(hash), headers: HeaderChars::new(headers), body: chars_of(body) }
    }

    fn part_hit(
        &self,
        method: Method,
        kw: &str,
        Ghost(hash): Ghost<Seq<char>>,
        Ghost(headers): Ghost<Seq<(String, String)>>,
        Ghost(body): Ghost<Seq<char>>,
    ) -> (r: bool)
        requires
            self.matches(hash, headers, body),
        ensures
            r == part_hit(method, kw@, hash, headers, body),
    {
        let k = chars_of(kw);
        match method {
            Method::FaviconHash => contains_exec(self.hash.as_slice(), k.as_slice()),
            Method::Header => self.headers.hit(k.as_slice(), Ghost(headers)),
            _ => contains_exec(self.body.as_slice(), k.as_slice()),
        }
    }

    fn rule_holds(
        &self,
        comb: Combinator,
        method: Method,
        keywords: &Vec<String>,
        Ghost(hash): Ghost<Seq<char>>,
        Ghost(headers): Ghost<Seq<(String, String)>>,
        Ghost(body): Ghost<Seq<char>>,
    ) -> (r: bool)
        requires
            self.matches(hash, headers, body),
        ensures
            r == rule_holds(comb, method, keywords@, hash, headers, body),
    {
        if keywords.len() == 0 {
            return false;
        }
        match comb {
            Combinator::Or => {
                let mut i: usize = 0;
                while i < keywords.len()
                    invariant
                        self.matches(hash, headers, body),
                        comb == Combinator::Or,
                        keywords@.len() > 0,
                        i <= keywords@.len(),
                        forall|k: int|
                            0 <= k < i ==> !part_hit(method, keywords@[k]@, hash, headers, body),
                    decreases keywords@.len() - i,
                {
                    if self.part_hit(
                        method,
                        keywords[i].as_str(),
                        Ghost(hash),
                        Ghost(headers),
                        Ghost(body),
                    ) {
                        assert(part_hit(method, keywords@[i as int]@, hash, headers, body));
                        return true;
                    }
                    i = i + 1;
                }
                false
            },
            Combinator::And => {
                let mut i: usize = 0;
                while i < keywords.len()
                    invariant
                        self.matches(hash, headers, body),
                        comb == Combinator::And,
                        keywords@.len() > 0,
                        i <= keywords@.len(),
                        forall|k: int|
                            0 <= k < i ==> part_hit(method, keywords@[k]@, hash, headers, body),
                    decreases keywords@.len() - i,
                {
                    if !self.part_hit(
                        method,
                        keywords[i].as_str(),
                        Ghost(hash),
                        Ghost(headers),
                        Ghost(body),
                    ) {
                        assert(!part_hit(method, keywords@[i as int]@, hash, headers, body));
                        return false;
                    }
                    i = i + 1;
                }
                true
            },
            Combinator::Unknown => false,
        }
    }
}

/// A fingerprint rule: a label (`cms`), its keywords (`rule`), where it was
/// taken from, how the keywords combine (`logic`: "and" or "or") and the part
/// of the response it inspects (`method`).
#[derive(Clone, Debug)]
pub struct FingerPrint {
    pub cms: String,
    pub rule: Vec<String>,
    pub location: String,
    pub logic: String,
    pub method: String,
}

/// Fingerprint `f` holds of a response.
pub open spec fn fingerprint_holds(
    f: FingerPrint,
    hash: Seq<char>,
    headers: Seq<(String, String)>,
    body: Seq<char>,
) -> bool {
    rule_holds(combinator_of(f.logic@), method_of(f.method@), f.rule@, hash, headers, body)
}

impl FingerPrint {
    /// Whether this rule holds of a response with the given favicon hash
    /// string, headers and body.
    pub fn matches_rule(
        &self,
        hash_string: &str,
        headers: &Vec<(String, String)>,
        response_text: &str,
    ) -> (r: bool)
        ensures
            r == fingerprint_holds(*self, hash_string@, headers@, response_text@),
    {
        let resp = ResponseChars::new(hash_string, headers, response_text);
        resp.rule_holds(
            Combinator::from_str(self.logic.as_str()),
            Method::from_str(self.method.as_str()),
            &self.rule,
            Ghost(hash_string@),
            Ghost(headers@),
            Ghost(response_text@),
        )
    }
}

/// The labels of the first `n` rules that hold, each once, in rule order.
pub open spec fn labels_upto(
    rules: Seq<FingerPrint>,
    n: int,
    hash: Seq<char>,
    headers: Seq<(String, String)>,
    body: Seq<char>,
) -> Seq<Seq<char>>
    decreases n,
{
    if n <= 0 {
        Seq::empty()
    } else {
        let prev = labels_upto(rules, n - 1, hash, headers, body);
        let f = rules[n - 1];
        if fingerprint_holds(f, hash, headers, body) && !prev.contains(f.cms@) {
            prev.push(f.cms@)
        } else {
            prev
        }
    }
}

/// The labels of all rules that hold of a response, each once, in rule order.
pub open spec fn matched_labels(rules: Seq<FingerPrint>, resp: CapturedResponse) -> Seq<Seq<char>> {
    labels_upto(rules, rules.len() as int, resp.favicon_hash@, resp.headers@, resp.body@)
}

/// Evaluates every rule against a response and returns the labels of those
/// that hold, without repeats. No match gives an empty list.
pub fn evaluate(rules: &Vec<FingerPrint>, resp: &CapturedResponse) -> (r: Vec<String>)
    ensures
        r@.map_values(|s: String| s@) == matched_labels(rules@, *resp),
{
    let ghost hash = resp.favicon_hash@;
    let ghost headers = resp.headers@;
    let ghost body = resp.body@;
    let chars = ResponseChars::new(resp.favicon_hash.as_str(), &resp.headers, resp.body.as_str());
    let mut out: Vec<String> = Vec::new();
    let mut i: usize = 0;
    while i < rules.len()
        invariant
            chars.matches(hash, headers, body),
            hash == resp.favicon_hash@,
            headers == resp.headers@,
            body == resp.body@,
            i <= rules@.len(),
            out@.map_values(|s: String| s@) == labels_upto(rules@, i as int, hash, headers, body),
        decreases rules@.len() - i,
    {
        let f = &rules[i];
        let holds = chars.rule_holds(
            Combinator::from_str(f.logic.as_str()),
            Method::from_str(f.method.as_str()),
            &f.rule,
            Ghost(hash),
            Ghost(headers),
            Ghost(body),
        );
        if holds {
            let mut seen = false;
            let mut k: usize = 0;
            while k < out.len()
                invariant
                    k <= out@.len(),
                    seen == exists|m: int| 0 <= m < k && out@[m]@ == f.cms@,
                decreases out@.len() - k,
            {
                if str_eq(out[k].as_str(), f.cms.as_str()) {
                    seen = true;
                }
                k = k + 1;
            }
            let ghost prev = out@.map_values(|s: String| s@);
            assert(seen == prev.contains(f.cms@)) by {
                if seen {
                    let m = choose|m: int| 0 <= m < out@.len() && out@[m]@ == f.cms@;
                    assert(prev[m] == f.cms@);
                }
                if prev.contains(f.cms@) {
                    let m = choose|m: int| 0 <= m < prev.len() && prev[m] == f.cms@;
                    assert(out@[m]@ == f.cms@);
                }
            }
            if !seen {
                out.push(f.cms.clone());
                assert(out@.map_values(|s: String| s@) =~= prev.push(f.cms@));
            }
        }
        i = i + 1;
    }
    out
}

/// Membership in the collected labels: a label is there exactly when some
/// rule among the first `n` carries it and holds.
pub proof fn lemma_labels_upto_contains(
    rules: Seq<FingerPrint>,
    n: int,
    hash: Seq<char>,
    headers: Seq<(String, String)>,
    body: Seq<char>,
    label: Seq<char>,
)
    requires
        0 <= n <= rules.len(),
    ensures
        labels_upto(rules, n, hash, headers, body).contains(label) <==> exists|j: int|
            0 <= j < n && rules[j].cms@ == label && #[trigger] fingerprint_holds(
                rules[j],
                hash,
                headers,
                body,
            ),
    decreases n,
{
    if n > 0 {
        lemma_labels_upto_contains(rules, n - 1, hash, headers, body, label);
        let prev = labels_upto(rules, n - 1, hash, headers, body);
        let f = rules[n - 1];
        if fingerprint_holds(f, hash, headers, body) && !prev.contains(f.cms@) {
            let cur = prev.push(f.cms@);
            if cur.contains(label) {
                let k = choose|k: int| 0 <= k < cur.len() && cur[k] == label;
                if k < prev.len() {
                    assert(prev[k] == label);
                }
            }
            if prev.contains(label) {
                let k = choose|k: int| 0 <= k < prev.len() && prev[k] == label;
                assert(cur[k] == label);
            }
            if f.cms@ == label {
                assert(cur[prev.len() as int] == label);
            }
        } else if fingerprint_holds(f, hash, headers, body) && f.cms@ == label {
            assert(prev.contains(label));
        }
    }
}

/// For a rule whose keywords combine with "or", and whose label no other rule
/// carries, evaluation reports the label exactly when at least one keyword is
/// a substring of the part of the response that the rule selects.
pub proof fn lemma_or_rule_reported(rules: Seq<FingerPrint>, i: int, resp: CapturedResponse)
    requires
        0 <= i < rules.len(),
        rules[i].logic@ == "or"@,
        forall|j: int| 0 <= j < rules.len() && j != i ==> rules[j].cms@ != rules[i].cms@,
    ensures
        matched_labels(rules, resp).contains(rules[i].cms@) <==> exists|k: int|
            0 <= k < rules[i].rule@.len() && #[trigger] part_hit(
                method_of(rules[i].method@),
                rules[i].rule@[k]@,
                resp.favicon_hash@,
                resp.headers@,
                resp.body@,
            ),
{
    reveal_strlit("or");
    reveal_strlit("and");
    assert("or"@.len() == 2 && "and"@.len() == 3);
    assert("or"@ != "and"@);
    assert(combinator_of(rules[i].logic@) == Combinator::Or);
    lemma_labels_upto_contains(
        rules,
        rules.len() as int,
        resp.favicon_hash@,
        resp.headers@,
        resp.body@,
        rules[i].cms@,
    );
    let holds = fingerprint_holds(rules[i], resp.favicon_hash@, resp.headers@, resp.body@);
    if matched_labels(rules, resp).contains(rules[i].cms@) {
        let j = choose|j: int|
            0 <= j < rules.len() && rules[j].cms@ == rules[i].cms@ && #[trigger] fingerprint_holds(
                rules[j],
                resp.favicon_hash@,
                resp.headers@,
                resp.body@,
            );
        assert(j == i);
    }
    if holds {
        assert(fingerprint_holds(rules[i], resp.favicon_hash@, resp.headers@, resp.body@));
    }
}

/// For a rule whose keywords combine with "and" (a rule always has at least
/// one keyword), and whose label no other rule carries, evaluation reports
/// the label exactly when every keyword is found in the selected part; with
/// the header method each keyword may be found in a different header.
pub proof fn lemma_and_rule_reported(rules: Seq<FingerPrint>, i: int, resp: CapturedResponse)
    requires
        0 <= i < rules.len(),
        rules[i].logic@ == "and"@,
        rules[i].rule@.len() > 0,
        forall|j: int| 0 <= j < rules.len() && j != i ==> rules[j].cms@ != rules[i].cms@,
    ensures
        matched_labels(rules, resp).contains(rules[i].cms@) <==> forall|k: int|
            0 <= k < rules[i].rule@.len() ==> #[trigger] part_hit(
                method_of(rules[i].method@),
                rules[i].rule@[k]@,
                resp.favicon_hash@,
                resp.headers@,
                resp.body@,
            ),
{
    reveal_strlit("and");
    assert(combinator_of(rules[i].logic@) == Combinator::And);
    lemma_labels_upto_contains(
        rules,
        rules.len() as int,
        resp.favicon_hash@,
        resp.headers@,
        resp.body@,
        rules[i].cms@,
    );
    let holds = fingerprint_holds(rules[i], resp.favicon_hash@, resp.headers@, resp.body@);
    if matched_labels(rules, resp).contains(rules[i].cms@) {
        let j = choose|j: int|
            0 <= j < rules.len() && rules[j].cms@ == rules[i].cms@ && #[trigger] fingerprint_holds(
                rules[j],
                resp.favicon_hash@,
                resp.headers@,
                resp.body@,
            );
        assert(j == i);
    }
    if holds {
        assert(fingerprint_holds(rules[i], resp.favicon_hash@, resp.headers@, resp.body@));
    }
}

/// One matcher of a vulnerability template: its kind (only "word" matchers
/// are evaluated), the part it inspects ("body" or "header"), its words and
/// how they combine ("and" or "or").
#[derive(Clone, Debug)]
pub struct Matcher {
    pub matcher_type: String,
    pub part: String,
    pub words: Vec<String>,
    pub condition: String,
}

/// What a template request got back: its headers and its body.
pub struct ResponseData {
    pub headers: Vec<(String, String)>,
    pub body: String,
}

/// One request of a vulnerability template: method, path, matchers, and an
/// optional body and headers.
#[derive(Clone, Debug)]
pub struct Request {
    pub method: String,
    pub path: String,
    pub matchers: Vec<Matcher>,
    pub body: Option<String>,
    pub headers: Option<Vec<(String, String)>>,
}

/// A vulnerability template.
#[derive(Clone, Debug)]
pub struct Poc {
    pub id: String,
    pub name: String,
    pub requests: Vec<Request>,
}

/// The vulnerability templates of a run.
#[derive(Clone, Debug)]
pub struct Pocs {
    pub pocs: Vec<Poc>,
}

/// The fingerprint rules of a run.
#[derive(Clone, Debug)]
pub struct Finger {
    pub finger: Vec<FingerPrint>,
}

impl Finger {
    pub fn new() -> (r: Finger)
        ensures
            r.finger@.len() == 0,
    {
        Finger { finger: Vec::new() }
    }
}

/// The method that a template part names, if it names one.
pub open spec fn template_method(part: Seq<char>) -> Option<Method> {
    if part == "body"@ {
        Some(Method::Body)
    } else if part == "header"@ {
        Some(Method::Header)
    } else {
        None
    }
}

/// A template matcher holds of a response: it is a word matcher on a known
/// part, and its words hold as a rule with its condition.
pub open spec fn template_holds(response: ResponseData, matcher: Matcher) -> bool {
    &&& matcher.matcher_type@ == "word"@
    &&& template_method(matcher.part@) is Some
    &&& rule_holds(
        combinator_of(matcher.condition@),
        template_method(matcher.part@)->Some_0,
        matcher.words@,
        Seq::empty(),
        response.headers@,
        response.body@,
    )
}

/// Evaluates a template matcher with the same rule evaluation as the
/// fingerprints.
pub fn check_vulnerability(response: &ResponseData, matcher: &Matcher) -> (r: bool)
    ensures
        r == template_holds(*response, *matcher),
{
    if !str_eq(matcher.matcher_type.as_str(), "word") {
        return false;
    }
    let method = if str_eq(matcher.part.as_str(), "body") {
        Method::Body
    } else if str_eq(matcher.part.as_str(), "header") {
        Method::Header
    } else {
        return false;
    };
    let chars = ResponseChars::new("", &response.headers, response.body.as_str());
    proof {
        reveal_strlit("");
        assert(""@ =~= Seq::<char>::empty());
    }
    chars.rule_holds(
        Combinator::from_str(matcher.condition.as_str()),
        method,
        &matcher.words,
        Ghost(Seq::empty()),
        Ghost(response.headers@),
        Ghost(response.body@),
    )
}

/// Some matcher of a request holds of its response.
pub open spec fn request_holds(response: ResponseData, matchers: Seq<Matcher>) -> bool {
    exists|k: int| 0 <= k < matchers.len() && #[trigger] template_holds(response, matchers[k])
}

/// Whether some matcher of a request holds of its response; a request is
/// reported once, at its first matcher that holds.
pub fn request_matches(response: &ResponseData, matchers: &Vec<Matcher>) -> (r: bool)
    ensures
        r == request_holds(*response, matchers@),
{
    let mut k: usize = 0;
    while k < matchers.len()
        invariant
            k <= matchers@.len(),
            forall|m: int| 0 <= m < k ==> !template_holds(*response, matchers@[m]),
        decreases matchers@.len() - k,
    {
        if check_vulnerability(response, &matchers[k]) {
            return true;
        }
        k = k + 1;
    }
    false
}

/// `s` equals `lower` when ASCII capitals are read as small letters
/// (`lower` is written in small letters).
pub open spec fn same_ignoring_ascii_case(s: Seq<char>, lower: Seq<char>) -> bool {
    &&& s.len() == lower.len()
    &&& forall|i: int|
        0 <= i < s.len() ==> #[trigger] s[i] == lower[i] || ('a' <= lower[i] <= 'z' && s[i] as u32
            + 32 == lower[i] as u32)
}

fn same_ignoring_ascii_case_exec(s: &str, lower: &str) -> (r: bool)
    ensures
        r == same_ignoring_ascii_case(s@, lower@),
{
    let a = chars_of(s);
    let b = chars_of(lower);
    if a.len() != b.len() {
        return false;
    }
    let mut i: usize = 0;
    while i < a.len()
        invariant
            a@ == s@,
            b@ == lower@,
            a@.len() == b@.len(),
            i <= a@.len(),
            forall|k: int|
                0 <= k < i ==> #[trigger] a@[k] == b@[k] || ('a' <= b@[k] <= 'z' && a@[k] as u32
                    + 32 == b@[k] as u32),
        decreases a@.len() - i,
    {
        let x = a[i];
        let y = b[i];
        if !(x == y || ('a' <= y && y <= 'z' && (x as u32) == (y as u32) - 32)) {
            assert(!(s@[i as int] == lower@[i as int] || ('a' <= lower@[i as int] <= 'z'
                && s@[i as int] as u32 + 32 == lower@[i as int] as u32)));
            return false;
        }
        i = i + 1;
    }
    true
}

/// Whether a template request's method is `POST` (in any case); any other
/// method is sent as `GET`.
pub fn is_post(method: &str) -> (r: bool)
    ensures
        r == same_ignoring_ascii_case(method@, "post"@),
{
    same_ignoring_ascii_case_exec(method, "post")
}

pub open spec fn pairs_of(v: Seq<(String, String)>) -> Seq<(Seq<char>, Seq<char>)> {
    v.map_values(|p: (String, String)| (p.0@, p.1@))
}

/// A `POST` template request without a content type is sent as a form.
pub open spec fn needs_form_type(method: Seq<char>, headers: Seq<(String, String)>) -> bool {
    &&& same_ignoring_ascii_case(method, "post"@)
    &&& !exists|k: int|
        0 <= k < headers.len() && #[trigger] same_ignoring_ascii_case(
            headers[k].0@,
            "content-type"@,
        )
}

/// The headers of a template request: its own, and for a `POST` (in any
/// case) without a content type, `content-type:
/// application/x-www-form-urlencoded` after them.
pub fn request_headers(method: &str, headers: &Vec<(String, String)>) -> (r: Vec<(String, String)>)
    ensures
        needs_form_type(method@, headers@) ==> pairs_of(r@) == pairs_of(headers@).push(
            ("content-type"@, "application/x-www-form-urlencoded"@),
        ),
        !needs_form_type(method@, headers@) ==> pairs_of(r@) == pairs_of(headers@),
{
    let mut out: Vec<(String, String)> = Vec::new();
    let mut has_type = false;
    let mut k: usize = 0;
    while k < headers.len()
        invariant
            k <= headers@.len(),
            pairs_of(out@) == pairs_of(headers@.take(k as int)),
            has_type == exists|m: int|
                0 <= m < k && #[trigger] same_ignoring_ascii_case(headers@[m].0@, "content-type"@),
        decreases headers@.len() - k,
    {
        let (name, value) = (&headers[k].0, &headers[k].1);
        if same_ignoring_ascii_case_exec(name.as_str(), "content-type") {
            has_type = true;
        }
        let ghost before = pairs_of(out@);
        out.push((name.clone(), value.clone()));
        assert(pairs_of(out@) =~= before.push((headers@[k as int].0@, headers@[k as int].1@)));
        assert(pairs_of(headers@.take(k + 1)) =~= pairs_of(headers@.take(k as int)).push(
            (headers@[k as int].0@, headers@[k as int].1@),
        ));
        k = k + 1;
    }
    assert(headers@.take(k as int) =~= headers@);
    if same_ignoring_ascii_case_exec(method, "post") && !has_type {
        let ghost before = pairs_of(out@);
        out.push(("content-type".to_string(), "application/x-www-form-urlencoded".to_string()));
        assert(pairs_of(out@) =~= before.push(("content-type"@, "application/x-www-form-urlencoded"@)));
    }
    out
}

/// What a template request yields for matching: its headers and body on a
/// success status, nothing otherwise.
pub fn response_data(success: bool, headers: Vec<(String, String)>, body: String) -> (r: ResponseData)
    ensures
        success ==> r.headers@ == headers@ && r.body == body,
        !success ==> r.headers@.len() == 0 && r.body@.len() == 0,
{
    if success {
        ResponseData { headers, body }
    } else {
        ResponseData { headers: Vec::new(), body: String::new() }
    }
}

/// Whether every matcher of a request looks at headers only, so that a
/// `HEAD` request suffices.
pub fn headers_only(matchers: &Vec<Matcher>) -> (r: bool)
    ensures
        r == forall|k: int| 0 <= k < matchers@.len() ==> #[trigger] matchers@[k].part@ == "header"@,
{
    let mut k: usize = 0;
    while k < matchers.len()
        invariant
            k <= matchers@.len(),
            forall|m: int| 0 <= m < k ==> #[trigger] matchers@[m].part@ == "header"@,
        decreases matchers@.len() - k,
    {
        if !str_eq(matchers[k].part.as_str(), "header") {
            return false;
        }
        k = k + 1;
    }
    true
}

} // verus!
