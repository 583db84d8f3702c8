//! Small parsers and filters over target text: `ip:port` entries, resolved
//! addresses, the final subdomain and address lists, and header settings.

use vstd::prelude::*;
use vstd::utf8::encode_utf8;
use crate::text::{chars_of, first_from, first_index_from, lemma_first_from, string_from_chars, starts_with, starts_with_exec};
use crate::results::{has_text, lemma_has_text_step, sorted_distinct, sorted_texts, texts};

verus! {

/// The value of a string of decimal digits.
pub open spec fn digits_value(s: Seq<char>) -> nat
    decreases s.len(),
{
    if s.len() == 0 {
        0
    } else {
        digits_value(s.drop_last()) * 10 + ((s.last() as u32 - '0' as u32) as nat)
    }
}

pub open spec fn is_digit(c: char) -> bool {
    '0' <= c <= '9'
}

/// What `u16`'s `from_str` reads from `s`: an optional `+`, then at least one
/// decimal digit, with a value that fits.
pub open spec fn parsed_u16(s: Seq<char>) -> Option<u16> {
    let body = port_body(s);
    if body.len() > 0 && all_digits(body) && digits_value(body) <= 65535 {
        Some(digits_value(body) as u16)
    } else {
        None
    }
}

/// `s` without one leading `+`.
pub open spec fn port_body(s: Seq<char>) -> Seq<char> {
    if s.len() > 0 && s[0] == '+' {
        s.drop_first()
    } else {
        s
    }
}

/// Every character of `s` is a decimal digit.
pub open spec fn all_digits(s: Seq<char>) -> bool {
    forall|i: int| 0 <= i < s.len() ==> #[trigger] is_digit(s[i])
}

proof fn lemma_digits_grow(s: Seq<char>, i: int, j: int)
    requires
        0 <= i <= j <= s.len(),
        forall|k: int| 0 <= k < s.len() ==> #[trigger] is_digit(s[k]),
    ensures
        digits_value(s.take(i)) <= digits_value(s.take(j)),
    decreases j - i,
{
    if i < j {
        lemma_digits_grow(s, i, j - 1);
        assert(s.take(j).drop_last() =~= s.take(j - 1));
    }
}

/// Reads a port number as `u16`'s `from_str` does.
pub fn parse_port(s: &str) -> (r: Option<u16>)
    ensures
        r == parsed_u16(s@),
{
    let c = chars_of(s);
    let start: usize = if c.len() > 0 && c[0] == '+' { 1 } else { 0 };
    let ghost body = port_body(s@);
    assert(body =~= c@.skip(start as int));
    if start >= c.len() {
        return None;
    }
    let mut k: usize = start;
    while k < c.len()
        invariant
            start <= k <= c@.len(),
            c@ == s@,
            body == c@.skip(start as int),
            body == port_body(s@),
            body.len() > 0,
            forall|m: int| start <= m < k ==> is_digit(c@[m]),
        decreases c@.len() - k,
    {
        if !('0' <= c[k] && c[k] <= '9') {
            assert(body[k - start] == c@[k as int]);
            assert(!is_digit(body[k - start]));
            assert(!all_digits(body));
            return None;
        }
        k = k + 1;
    }
    assert forall|i: int| 0 <= i < body.len() implies #[trigger] is_digit(body[i]) by {
        assert(is_digit(c@[i + start]));
    }
    let mut v: u32 = 0;
    let mut k: usize = start;
    while k < c.len()
        invariant
            start <= k <= c@.len(),
            c@ == s@,
            body == c@.skip(start as int),
            body == port_body(s@),
            body.len() > 0,
            forall|i: int| 0 <= i < body.len() ==> #[trigger] is_digit(body[i]),
            v as nat == digits_value(body.take(k - start)),
            v <= 65535,
        decreases c@.len() - k,
    {
        assert(body.take(k - start + 1).drop_last() =~= body.take(k - start));
        assert(body.take(k - start + 1).last() == c@[k as int]);
        assert(is_digit(body[k - start]));
        let d = (c[k] as u32) - ('0' as u32);
        let nv = v * 10 + d;
        if nv > 65535 {
            proof {
                assert(digits_value(body.take(k - start + 1)) == nv);
                lemma_digits_grow(body, k - start + 1, body.len() as int);
                assert(body.take(body.len() as int) =~= body);
            }
            return None;
        }
        v = nv;
        k = k + 1;
    }
    assert(body.take(k - start) =~= body);
    Some(v as u16)
}

/// The port of an `ip:port` entry: the entry holds exactly one `:` and the
/// text after it is a port number.
pub open spec fn entry_port(s: Seq<char>) -> Option<u16> {
    let k = first_from(s, 0, ':');
    if k < s.len() && first_from(s, k + 1, ':') == s.len() {
        parsed_u16(s.skip(k + 1))
    } else {
        None
    }
}

/// The port of an `ip:port` entry (see `entry_port`).
pub fn port_of_entry(s: &str) -> (r: Option<u16>)
    ensures
        r == entry_port(s@),
{
    let c = chars_of(s);
    let k = first_index_from(c.as_slice(), 0, ':');
    if k >= c.len() {
        return None;
    }
    let k2 = first_index_from(c.as_slice(), k + 1, ':');
    if k2 != c.len() {
        return None;
    }
    let tail = string_from_chars(&c.as_slice()[k + 1..c.len()]);
    assert(tail@ =~= s@.skip(k + 1));
    parse_port(tail.as_str())
}

/// Whether `v` holds a string with the text of `x`.
pub fn has_text_exec(v: &Vec<String>, x: &str) -> (r: bool)
    ensures
        r == has_text(v@, x@),
{
    let mut k: usize = 0;
    while k < v.len()
        invariant
            k <= v@.len(),
            forall|m: int| 0 <= m < k ==> v@[m]@ != x@,
        decreases v@.len() - k,
    {
        if crate::text::str_eq(v[k].as_str(), x) {
            return true;
        }
        k = k + 1;
    }
    false
}

/// The resolved addresses of a name that are neither wildcard answers nor in
/// `198.`, in order.
pub open spec fn resolved_upto(ips: Seq<String>, wildcard: Seq<String>, n: int) -> Seq<Seq<char>>
    decreases n,
{
    if n <= 0 {
        Seq::empty()
    } else if has_text(wildcard, ips[n - 1]@) || starts_with(ips[n - 1]@, "198."@) {
        resolved_upto(ips, wildcard, n - 1)
    } else {
        resolved_upto(ips, wildcard, n - 1).push(ips[n - 1]@)
    }
}

/// Drops wildcard answers and addresses in `198.` from a name's addresses.
pub fn filter_resolved(ips: &Vec<String>, wildcard: &Vec<String>) -> (r: Vec<String>)
    ensures
        texts(r@) == resolved_upto(ips@, wildcard@, ips@.len() as int),
{
    let p = chars_of("198.");
    let mut out: Vec<String> = Vec::new();
    let mut i: usize = 0;
    while i < ips.len()
        invariant
            p@ == "198."@,
            i <= ips@.len(),
            texts(out@) == resolved_upto(ips@, wildcard@, i as int),
        decreases ips@.len() - i,
    {
        let ip = chars_of(ips[i].as_str());
        if !has_text_exec(wildcard, ips[i].as_str()) && !starts_with_exec(ip.as_slice(), p.as_slice()) {
            let ghost before = texts(out@);
            out.push(ips[i].clone());
            assert(texts(out@) =~= before.push(ips@[i as int]@));
        }
        i = i + 1;
    }
    out
}

/// The name resolved to learn whether a domain answers for any subdomain.
pub fn wildcard_probe_name(domain: &str) -> (r: String)
    ensures
        r@ == "random-nonexistent-subdomain."@ + domain@,
{
    concat_text("random-nonexistent-subdomain.", domain)
}

fn concat_text(a: &str, b: &str) -> (r: String)
    ensures
        r@ == a@ + b@,
{
    let mut v = chars_of(a);
    let w = chars_of(b);
    crate::text::push_chars(&mut v, w.as_slice());
    string_from_chars(v.as_slice())
}

/// The addresses to keep: non-empty, listed in `ip_list`, and not known CDN
/// or deception hosts; sorted, each once.
pub fn organize_ips(ip_list: &Vec<String>, cdn_list: &Vec<String>) -> (r: Vec<String>)
    ensures
        sorted_texts(texts(r@)),
        texts(r@).no_duplicates(),
        forall|t: Seq<char>|
            #[trigger] has_text(r@, t) <==> (has_text(ip_list@, t) && t.len() > 0 && !has_text(
                cdn_list@,
                t,
            )),
{
    let mut kept: Vec<String> = Vec::new();
    let mut i: usize = 0;
    while i < ip_list.len()
        invariant
            i <= ip_list@.len(),
            forall|t: Seq<char>|
                #[trigger] has_text(kept@, t) <==> (has_text(ip_list@.take(i as int), t) && !has_text(
                    cdn_list@,
                    t,
                )),
        decreases ip_list@.len() - i,
    {
        let x = &ip_list[i];
        let ghost before = kept@;
        if !has_text_exec(cdn_list, x.as_str()) {
            kept.push(x.clone());
            assert forall|t: Seq<char>|
                #[trigger] has_text(kept@, t) <==> (has_text(ip_list@.take(i + 1), t) && !has_text(
                    cdn_list@,
                    t,
                )) by {
                lemma_has_text_step(ip_list@, i as int, t);
                lemma_has_text_step(kept@, before.len() as int, t);
                assert(kept@.take(before.len() as int) =~= before);
                assert(kept@.take(before.len() as int + 1) =~= kept@);
            }
        } else {
            assert forall|t: Seq<char>|
                #[trigger] has_text(kept@, t) <==> (has_text(ip_list@.take(i + 1), t) && !has_text(
                    cdn_list@,
                    t,
                )) by {
                lemma_has_text_step(ip_list@, i as int, t);
            }
        }
        i = i + 1;
    }
    assert(ip_list@.take(i as int) =~= ip_list@);
    sorted_distinct(&kept, true)
}

/// `s` ends with `p`.
pub open spec fn ends_with(s: Seq<char>, p: Seq<char>) -> bool {
    p.len() <= s.len() && s.skip(s.len() - p.len()) == p
}

fn ends_with_exec(s: &[char], p: &[char]) -> (r: bool)
    ensures
        r == ends_with(s@, p@),
{
    if p.len() > s.len() {
        return false;
    }
    let r = crate::text::occurs_at_exec(s, p, s.len() - p.len());
    assert(s@.subrange(s@.len() - p@.len(), s@.len() as int) =~= s@.skip(s@.len() - p@.len()));
    r
}

/// `d` ends with one of the excluded domains.
pub open spec fn blocked_suffix(d: Seq<char>, pass_domain: Seq<String>) -> bool {
    exists|k: int| 0 <= k < pass_domain.len() && #[trigger] ends_with(d, pass_domain[k]@)
}

fn blocked_exec(d: &str, pass_domain: &Vec<String>) -> (r: bool)
    ensures
        r == blocked_suffix(d@, pass_domain@),
{
    let dc = chars_of(d);
    let mut k: usize = 0;
    while k < pass_domain.len()
        invariant
            dc@ == d@,
            k <= pass_domain@.len(),
            forall|m: int| 0 <= m < k ==> !ends_with(d@, pass_domain@[m]@),
        decreases pass_domain@.len() - k,
    {
        let p = chars_of(pass_domain[k].as_str());
        if ends_with_exec(dc.as_slice(), p.as_slice()) {
            assert(ends_with(d@, pass_domain@[k as int]@));
            return true;
        }
        k = k + 1;
    }
    false
}

/// The subdomains to keep: non-empty, and ending in no excluded domain;
/// sorted, each once.
pub fn organize_domains(domain_list: &Vec<String>, pass_domain: &Vec<String>) -> (r: Vec<String>)
    ensures
        sorted_texts(texts(r@)),
        texts(r@).no_duplicates(),
        forall|t: Seq<char>|
            #[trigger] has_text(r@, t) <==> (has_text(domain_list@, t) && t.len() > 0
                && !blocked_suffix(t, pass_domain@)),
{
    let mut kept: Vec<String> = Vec::new();
    let mut i: usize = 0;
    while i < domain_list.len()
        invariant
            i <= domain_list@.len(),
            forall|t: Seq<char>|
                #[trigger] has_text(kept@, t) <==> (has_text(domain_list@.take(i as int), t)
                    && !blocked_suffix(t, pass_domain@)),
        decreases domain_list@.len() - i,
    {
        let x = &domain_list[i];
        let ghost before = kept@;
        if !blocked_exec(x.as_str(), pass_domain) {
            kept.push(x.clone());
            assert forall|t: Seq<char>|
                #[trigger] has_text(kept@, t) <==> (has_text(domain_list@.take(i + 1), t)
                    && !blocked_suffix(t, pass_domain@)) by {
                lemma_has_text_step(domain_list@, i as int, t);
                lemma_has_text_step(kept@, before.len() as int, t);
                assert(kept@.take(before.len() as int) =~= before);
                assert(kept@.take(before.len() as int + 1) =~= kept@);
            }
        } else {
            assert forall|t: Seq<char>|
                #[trigger] has_text(kept@, t) <==> (has_text(domain_list@.take(i + 1), t)
                    && !blocked_suffix(t, pass_domain@)) by {
                lemma_has_text_step(domain_list@, i as int, t);
            }
        }
        i = i + 1;
    }
    assert(domain_list@.take(i as int) =~= domain_list@);
    sorted_distinct(&kept, true)
}

/// `s` with leading and trailing whitespace removed, as `str::trim` does.
pub uninterp spec fn std_trim(s: Seq<char>) -> Seq<char>;

/// The bytes form a valid HTTP header name.
pub uninterp spec fn valid_header_name(name: Seq<u8>) -> bool;

/// The text forms a valid HTTP header value.
pub uninterp spec fn valid_header_value(value: Seq<char>) -> bool;

/// Relies on `str::trim`: leading and trailing whitespace removed.
#[verifier::external_body]
fn trim_ws(s: &str) -> (r: String)
    ensures
        r@ == std_trim(s@),
{
    s.trim().to_string()
}

/// Relies on `http::HeaderName::from_bytes` (as reqwest re-exports it): it
/// accepts the bytes exactly when they form a valid header name.
#[verifier::external_body]
fn header_name_ok(name: &str) -> (r: bool)
    ensures
        r == valid_header_name(encode_utf8(name@)),
{
    reqwest::header::HeaderName::from_bytes(name.as_bytes()).is_ok()
}

/// Relies on `http::HeaderValue::from_str` (as reqwest re-exports it): it
/// accepts the text exactly when it forms a valid header value.
#[verifier::external_body]
fn header_value_ok(value: &str) -> (r: bool)
    ensures
        r == valid_header_value(value@),
{
    reqwest::header::HeaderValue::from_str(value).is_ok()
}

/// The pieces of `s` from position `j` on, split at each `c`.
pub open spec fn split_from(s: Seq<char>, j: int, c: char) -> Seq<Seq<char>>
    decreases s.len() - j,
{
    if j < 0 || j > s.len() {
        Seq::empty()
    } else {
        let e = first_from(s, j, c);
        if e >= s.len() || e < j {
            seq![s.subrange(j, s.len() as int)]
        } else {
            seq![s.subrange(j, e)] + split_from(s, e + 1, c)
        }
    }
}

/// The header that one `name: value` piece gives: both sides trimmed, and
/// both valid; a piece without `:` gives none.
pub open spec fn header_of(piece: Seq<char>) -> Option<(Seq<char>, Seq<char>)> {
    let k = first_from(piece, 0, ':');
    if k >= piece.len() {
        None
    } else {
        let name = std_trim(piece.take(k));
        let value = std_trim(piece.skip(k + 1));
        if valid_header_name(encode_utf8(name)) && valid_header_value(value) {
            Some((name, value))
        } else {
            None
        }
    }
}

/// The headers given by the first `n` pieces, in order.
pub open spec fn headers_upto(pieces: Seq<Seq<char>>, n: int) -> Seq<(Seq<char>, Seq<char>)>
    decreases n,
{
    if n <= 0 {
        Seq::empty()
    } else {
        match header_of(pieces[n - 1]) {
            Some(h) => headers_upto(pieces, n - 1).push(h),
            None => headers_upto(pieces, n - 1),
        }
    }
}

/// The headers of a comma-separated `name: value` list.
pub open spec fn parsed_headers(input: Seq<char>) -> Seq<(Seq<char>, Seq<char>)> {
    if input.len() == 0 {
        Seq::empty()
    } else {
        let pieces = split_from(input, 0, ',');
        headers_upto(pieces, pieces.len() as int)
    }
}

pub open spec fn pairs_view(v: Seq<(String, String)>) -> Seq<(Seq<char>, Seq<char>)> {
    v.map_values(|p: (String, String)| (p.0@, p.1@))
}

fn header_of_exec(piece: &[char]) -> (r: Option<(String, String)>)
    ensures
        r matches Some(p) ==> header_of(piece@) == Some((p.0@, p.1@)),
        r is None ==> header_of(piece@) is None,
{
    let k = first_index_from(piece, 0, ':');
    proof {
        lemma_first_from(piece@, 0, ':');
    }
    if k >= piece.len() {
        return None;
    }
    let left = string_from_chars(&piece[0..k]);
    let right = string_from_chars(&piece[k + 1..piece.len()]);
    assert(left@ =~= piece@.take(k as int));
    assert(right@ =~= piece@.skip(k + 1));
    let name = trim_ws(left.as_str());
    let value = trim_ws(right.as_str());
    if header_name_ok(name.as_str()) && header_value_ok(value.as_str()) {
        Some((name, value))
    } else {
        None
    }
}

/// Reads a comma-separated `name: value` list of default request headers;
/// pieces that do not form a valid header are skipped.
pub fn parse_headers(input: &str) -> (r: Vec<(String, String)>)
    ensures
        pairs_view(r@) == parsed_headers(input@),
{
    let s = chars_of(input);
    let mut out: Vec<(String, String)> = Vec::new();
    if s.len() == 0 {
        assert(pairs_view(out@) =~= Seq::<(Seq<char>, Seq<char>)>::empty());
        return out;
    }
    let ghost pieces = split_from(s@, 0, ',');
    let ghost mut done: Seq<Seq<char>> = Seq::empty();
    let mut j: usize = 0;
    loop
        invariant
            s@ == input@,
            s@.len() > 0,
            j <= s@.len(),
            pieces == split_from(s@, 0, ','),
            done + split_from(s@, j as int, ',') == pieces,
            pairs_view(out@) == headers_upto(done, done.len() as int),
        decreases s@.len() - j,
    {
        let e = first_index_from(s.as_slice(), j, ',');
        proof {
            lemma_first_from(s@, j as int, ',');
        }
        let piece = &s.as_slice()[j..e];
        assert(piece@ == s@.subrange(j as int, e as int));
        let ghost next_done = done.push(piece@);
        let ghost before = pairs_view(out@);
        match header_of_exec(piece) {
            Some(h) => {
                out.push(h);
                assert(pairs_view(out@) =~= before.push((h.0@, h.1@)));
            },
            None => {},
        }
        proof {
            assert(next_done.take(done.len() as int) =~= done);
            lemma_headers_prefix(done, next_done, done.len() as int);
            assert(next_done[done.len() as int] == piece@);
            done = next_done;
        }
        if e >= s.len() {
            assert(done =~= pieces);
            return out;
        }
        assert(split_from(s@, j as int, ',') == seq![piece@] + split_from(s@, e + 1, ','));
        assert(done + split_from(s@, e + 1, ',') =~= pieces);
        j = e + 1;
    }
}

proof fn lemma_headers_prefix(a: Seq<Seq<char>>, b: Seq<Seq<char>>, n: int)
    requires
        n <= a.len() <= b.len(),
        b.take(a.len() as int) == a,
    ensures
        headers_upto(a, n) == headers_upto(b, n),
    decreases n,
{
    if n > 0 {
        lemma_headers_prefix(a, b, n - 1);
        assert(a[n - 1] == b.take(a.len() as int)[n - 1]);
    }
}

} // verus!
