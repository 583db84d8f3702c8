//! Result collections gathered during a run, and the sorting and
//! de-duplication applied to them before they are written out.
//!
//! Text is ordered as `String`'s `Ord` orders it: lexicographically by UTF-8
//! bytes.

use vstd::prelude::*;
use vstd::utf8::encode_utf8;

verus! {

/// `a` comes no later than `b` in lexicographic byte order.
pub open spec fn bytes_le(a: Seq<u8>, b: Seq<u8>) -> bool
    decreases a.len(),
{
    if a.len() == 0 {
        true
    } else if b.len() == 0 {
        false
    } else if a[0] < b[0] {
        true
    } else if a[0] > b[0] {
        false
    } else {
        bytes_le(a.drop_first(), b.drop_first())
    }
}

/// `a` comes no later than `b` in the order of their UTF-8 bytes.
pub open spec fn text_le(a: Seq<char>, b: Seq<char>) -> bool {
    bytes_le(encode_utf8(a), encode_utf8(b))
}

/// Every text comes no later than those after it.
pub open spec fn sorted_texts(s: Seq<Seq<char>>) -> bool {
    forall|i: int, j: int| 0 <= i < j < s.len() ==> text_le(s[i], s[j])
}

/// The texts of a list of strings.
pub open spec fn texts(v: Seq<String>) -> Seq<Seq<char>> {
    v.map_values(|s: String| s@)
}

proof fn lemma_bytes_le_total(a: Seq<u8>, b: Seq<u8>)
    ensures
        bytes_le(a, b) || bytes_le(b, a),
    decreases a.len(),
{
    if a.len() > 0 && b.len() > 0 && a[0] == b[0] {
        lemma_bytes_le_total(a.drop_first(), b.drop_first());
    }
}

proof fn lemma_bytes_le_trans(a: Seq<u8>, b: Seq<u8>, c: Seq<u8>)
    requires
        bytes_le(a, b),
        bytes_le(b, c),
    ensures
        bytes_le(a, c),
    decreases a.len(),
{
    if a.len() > 0 && b.len() > 0 && c.len() > 0 && a[0] == b[0] && b[0] == c[0] {
        lemma_bytes_le_trans(a.drop_first(), b.drop_first(), c.drop_first());
    }
}

fn bytes_le_exec(a: &[u8], b: &[u8]) -> (r: bool)
    ensures
        r == bytes_le(a@, b@),
{
    let mut i: usize = 0;
    assert(a@.skip(0) =~= a@);
    assert(b@.skip(0) =~= b@);
    loop
        invariant
            i <= a@.len(),
            i <= b@.len(),
            bytes_le(a@, b@) == bytes_le(a@.skip(i as int), b@.skip(i as int)),
        decreases a@.len() - i,
    {
        if i == a.len() {
            assert(a@.skip(i as int).len() == 0);
            return true;
        }
        if i == b.len() {
            assert(b@.skip(i as int).len() == 0);
            return false;
        }
        assert(a@.skip(i as int)[0] == a@[i as int]);
        assert(b@.skip(i as int)[0] == b@[i as int]);
        if a[i] < b[i] {
            return true;
        }
        if a[i] > b[i] {
            return false;
        }
        assert(a@.skip(i as int).drop_first() =~= a@.skip(i + 1));
        assert(b@.skip(i as int).drop_first() =~= b@.skip(i + 1));
        i = i + 1;
    }
}

fn text_le_exec(a: &String, b: &String) -> (r: bool)
    ensures
        r == text_le(a@, b@),
{
    bytes_le_exec(a.as_str().as_bytes(), b.as_str().as_bytes())
}

/// Some string of `v` has text `t`.
pub open spec fn has_text(v: Seq<String>, t: Seq<char>) -> bool {
    exists|k: int| 0 <= k < v.len() && #[trigger] v[k]@ == t
}

pub proof fn lemma_has_text_step(v: Seq<String>, i: int, t: Seq<char>)
    requires
        0 <= i < v.len(),
    ensures
        has_text(v.take(i + 1), t) <==> (has_text(v.take(i), t) || v[i]@ == t),
{
    if has_text(v.take(i + 1), t) {
        let k = choose|k: int| 0 <= k < i + 1 && #[trigger] v.take(i + 1)[k]@ == t;
        if k < i {
            assert(v.take(i)[k]@ == t);
        }
    }
    if has_text(v.take(i), t) {
        let k = choose|k: int| 0 <= k < i && #[trigger] v.take(i)[k]@ == t;
        assert(v.take(i + 1)[k]@ == t);
    }
    if v[i]@ == t {
        assert(v.take(i + 1)[i]@ == t);
    }
}

/// The distinct texts of `v`, without the empty text when `drop_empty`
/// holds, sorted.
pub fn sorted_distinct(v: &Vec<String>, drop_empty: bool) -> (r: Vec<String>)
    ensures
        sorted_texts(texts(r@)),
        texts(r@).no_duplicates(),
        forall|t: Seq<char>|
            #[trigger] has_text(r@, t) <==> (has_text(v@, t) && !(drop_empty && t.len() == 0)),
{
    let mut out: Vec<String> = Vec::new();
    let mut i: usize = 0;
    while i < v.len()
        invariant
            i <= v@.len(),
            sorted_texts(texts(out@)),
            texts(out@).no_duplicates(),
            forall|t: Seq<char>|
                #[trigger] has_text(out@, t) <==> (has_text(v@.take(i as int), t) && !(drop_empty
                    && t.len() == 0)),
        decreases v@.len() - i,
    {
        let x = &v[i];
        let ghost old_out = texts(out@);
        let ghost old_outv = out@;
        if drop_empty && x.as_str().is_empty() {
            assert(x@.len() == 0);
            assert forall|t: Seq<char>|
                has_text(out@, t) <==> (has_text(v@.take(i + 1), t) && !(drop_empty && t.len()
                    == 0)) by {
                lemma_has_text_step(v@, i as int, t);
                assert(has_text(out@, t) <==> (has_text(v@.take(i as int), t) && !(drop_empty && t.len()
                    == 0)));
                assert(v@[i as int]@ == x@);
            }
        } else {
            let mut present = false;
            let mut k: usize = 0;
            while k < out.len()
                invariant
                    k <= out@.len(),
                    present == exists|m: int| 0 <= m < k && #[trigger] out@[m]@ == x@,
                decreases out@.len() - k,
            {
                if out[k] == *x {
                    present = true;
                }
                k = k + 1;
            }
            if !present {
                let mut pos: usize = 0;
                while pos < out.len() && text_le_exec(&out[pos], x)
                    invariant
                        pos <= out@.len(),
                        forall|m: int| 0 <= m < pos ==> text_le(out@[m]@, x@),
                    decreases out@.len() - pos,
                {
                    pos = pos + 1;
                }
                proof {
                    if pos < out@.len() {
                        lemma_bytes_le_total(encode_utf8(out@[pos as int]@), encode_utf8(x@));
                        assert forall|m: int| pos <= m < out@.len() implies text_le(x@, out@[m]@) by {
                            if m > pos {
                                assert(text_le(old_out[pos as int], old_out[m]));
                                lemma_bytes_le_trans(
                                    encode_utf8(x@),
                                    encode_utf8(out@[pos as int]@),
                                    encode_utf8(out@[m]@),
                                );
                            }
                        }
                    }
                }
                out.insert(pos, x.clone());
                proof {
                    let nw = texts(out@);
                    assert(nw =~= old_out.insert(pos as int, x@));
                    assert forall|a: int, b: int| 0 <= a < b < nw.len() implies text_le(nw[a], nw[b]) by {
                        if a < pos && b < pos {
                            assert(text_le(old_out[a], old_out[b]));
                        } else if a < pos && b == pos {
                        } else if a < pos && b > pos {
                            assert(text_le(old_out[a], old_out[b - 1]));
                        } else if a == pos {
                        } else {
                            assert(text_le(old_out[a - 1], old_out[b - 1]));
                        }
                    }
                    assert forall|a: int, b: int| 0 <= a < nw.len() && 0 <= b < nw.len() && a != b implies nw[a] != nw[b] by {
                        if a != pos && b != pos {
                            let oa = if a < pos { a } else { a - 1 };
                            let ob = if b < pos { b } else { b - 1 };
                            assert(old_out[oa] != old_out[ob]);
                        } else if a == pos {
                            let ob = if b < pos { b } else { b - 1 };
                            assert(old_outv[ob]@ != x@);
                        } else {
                            let oa = if a < pos { a } else { a - 1 };
                            assert(old_outv[oa]@ != x@);
                        }
                    }
                    assert forall|t: Seq<char>|
                        has_text(out@, t) <==> (has_text(v@.take(i + 1), t) && !(drop_empty && t.len()
                            == 0)) by {
                        lemma_has_text_step(v@, i as int, t);
                        if has_text(out@, t) {
                            let m = choose|m: int| 0 <= m < out@.len() && #[trigger] out@[m]@ == t;
                            if m < pos {
                                assert(old_outv[m]@ == t);
                            } else if m > pos {
                                assert(old_outv[m - 1]@ == t);
                            }
                        }
                        if has_text(old_outv, t) {
                            let m = choose|m: int| 0 <= m < old_outv.len() && #[trigger] old_outv[m]@ == t;
                            if m < pos {
                                assert(out@[m]@ == t);
                            } else {
                                assert(out@[m + 1]@ == t);
                            }
                        }
                        if t == x@ {
                            assert(out@[pos as int]@ == t);
                        }
                    }
                }
            } else {
                assert(has_text(out@, x@));
                assert forall|t: Seq<char>|
                    has_text(out@, t) <==> (has_text(v@.take(i + 1), t) && !(drop_empty && t.len()
                        == 0)) by {
                    lemma_has_text_step(v@, i as int, t);
                    assert(has_text(out@, t) <==> (has_text(v@.take(i as int), t) && !(drop_empty && t.len()
                        == 0)));
                    assert(v@[i as int]@ == x@);
                }
            }
        }
        i = i + 1;
    }
    assert(v@.take(i as int) =~= v@);
    assert forall|t: Seq<char>|
        has_text(out@, t) <==> (has_text(v@, t) && !(drop_empty && t.len() == 0)) by {
        assert(has_text(out@, t) <==> (has_text(v@.take(i as int), t) && !(drop_empty && t.len() == 0)));
    }
    out
}

/// Drops empty entries, sorts, and removes repeats.
pub fn clean_and_dedup(list: &mut Vec<String>)
    ensures
        cleaned(final(list)@, old(list)@),
{
    let r = sorted_distinct(list, true);
    assert forall|t: Seq<char>| has_text(r@, t) <==> (has_text(old(list)@, t) && t.len() > 0) by {
        assert(has_text(r@, t) <==> (has_text(old(list)@, t) && !(true && t.len() == 0)));
    }
    *list = r;
}

/// A list after `clean_and_dedup`: sorted, without repeats, and holding
/// exactly the non-empty texts of `before`.
pub open spec fn cleaned(after: Seq<String>, before: Seq<String>) -> bool {
    &&& sorted_texts(texts(after))
    &&& texts(after).no_duplicates()
    &&& forall|t: Seq<char>| #[trigger] has_text(after, t) <==> (has_text(before, t) && t.len() > 0)
}

/// A list after sorting and removing repeats: sorted, without repeats, and
/// holding exactly the texts of `before`.
pub open spec fn deduplicated(after: Seq<String>, before: Seq<String>) -> bool {
    &&& sorted_texts(texts(after))
    &&& texts(after).no_duplicates()
    &&& forall|t: Seq<char>| #[trigger] has_text(after, t) <==> has_text(before, t)
}

/// What the collection stage found: subdomains, addresses, ICP filing
/// numbers, and addresses known to be CDN or deception hosts.
pub struct InfoResults {
    pub domain_list: Vec<String>,
    pub ip_list: Vec<String>,
    pub icp_list: Vec<String>,
    pub cdn_list: Vec<String>,
}

impl InfoResults {
    pub fn new() -> (r: InfoResults)
        ensures
            r.domain_list@.len() == 0,
            r.ip_list@.len() == 0,
            r.icp_list@.len() == 0,
            r.cdn_list@.len() == 0,
    {
        InfoResults { domain_list: Vec::new(), ip_list: Vec::new(), icp_list: Vec::new(), cdn_list: Vec::new() }
    }

    /// Whether the subdomains or the addresses are missing.
    pub fn empty(&self) -> (r: bool)
        ensures
            r == (self.domain_list@.len() == 0 || self.ip_list@.len() == 0),
    {
        self.domain_list.len() == 0 || self.ip_list.len() == 0
    }

    /// Appends each list of `other` to the matching list of `self`.
    pub fn merge(&mut self, other: InfoResults)
        ensures
            final(self).domain_list@ == old(self).domain_list@ + other.domain_list@,
            final(self).ip_list@ == old(self).ip_list@ + other.ip_list@,
            final(self).icp_list@ == old(self).icp_list@ + other.icp_list@,
            final(self).cdn_list@ == old(self).cdn_list@ + other.cdn_list@,
    {
        let mut other = other;
        self.domain_list.append(&mut other.domain_list);
        self.ip_list.append(&mut other.ip_list);
        self.icp_list.append(&mut other.icp_list);
        self.cdn_list.append(&mut other.cdn_list);
    }

    /// Cleans every list (see `clean_and_dedup`).
    pub fn clean_all(&mut self)
        ensures
            cleaned(final(self).domain_list@, old(self).domain_list@),
            cleaned(final(self).ip_list@, old(self).ip_list@),
            cleaned(final(self).icp_list@, old(self).icp_list@),
            cleaned(final(self).cdn_list@, old(self).cdn_list@),
    {
        clean_and_dedup(&mut self.domain_list);
        clean_and_dedup(&mut self.ip_list);
        clean_and_dedup(&mut self.icp_list);
        clean_and_dedup(&mut self.cdn_list);
    }
}

/// URLs with parameters gathered by the crawl, for the fuzzer.
pub struct Rescraw {
    pub urls: Vec<String>,
}

impl Rescraw {
    pub fn new() -> (r: Rescraw)
        ensures
            r.urls@.len() == 0,
    {
        Rescraw { urls: Vec::new() }
    }

    /// Appends a batch of URLs.
    pub fn push(&mut self, url: Vec<String>)
        ensures
            final(self).urls@ == old(self).urls@ + url@,
    {
        let mut url = url;
        self.urls.append(&mut url);
    }

    /// The URLs gathered so far.
    pub fn rt(&self) -> (r: Vec<String>)
        ensures
            texts(r@) == texts(self.urls@),
    {
        copy_strings(&self.urls)
    }
}

/// A list of result URLs.
pub struct Resulturls {
    pub urls: Vec<String>,
}

impl Resulturls {
    /// Appends a batch of URLs.
    pub fn push(&mut self, domain: Vec<String>)
        ensures
            final(self).urls@ == old(self).urls@ + domain@,
    {
        let mut domain = domain;
        self.urls.append(&mut domain);
    }

    /// The URLs gathered so far.
    pub fn results(&self) -> (r: Vec<String>)
        ensures
            texts(r@) == texts(self.urls@),
    {
        copy_strings(&self.urls)
    }
}

/// Links found by a crawl, and those kept after parsing.
pub struct Links {
    pub urls: Vec<String>,
    pub parse_urls: Vec<String>,
}

impl Links {
    pub fn new() -> (r: Links)
        ensures
            r.urls@.len() == 0,
            r.parse_urls@.len() == 0,
    {
        Links { urls: Vec::new(), parse_urls: Vec::new() }
    }

    /// Keeps a parsed link.
    pub fn push(&mut self, url: &str)
        ensures
            final(self).urls@ == old(self).urls@,
            texts(final(self).parse_urls@) == texts(old(self).parse_urls@).push(url@),
    {
        let ghost before = texts(self.parse_urls@);
        self.parse_urls.push(url.to_string());
        assert(texts(self.parse_urls@) =~= before.push(url@));
    }

    /// The parsed links kept so far.
    pub fn parse_results(&self) -> (r: Vec<String>)
        ensures
            texts(r@) == texts(self.parse_urls@),
    {
        copy_strings(&self.parse_urls)
    }
}

/// A copy of a list of strings.
fn copy_strings(v: &Vec<String>) -> (r: Vec<String>)
    ensures
        texts(r@) == texts(v@),
{
    let mut out: Vec<String> = Vec::new();
    let mut i: usize = 0;
    while i < v.len()
        invariant
            i <= v@.len(),
            texts(out@) == texts(v@).take(i as int),
        decreases v@.len() - i,
    {
        let ghost before = texts(out@);
        out.push(v[i].clone());
        assert(texts(out@) =~= before.push(v@[i as int]@));
        assert(texts(v@).take(i + 1) =~= texts(v@).take(i as int).push(v@[i as int]@));
        i = i + 1;
    }
    assert(texts(v@).take(i as int) =~= texts(v@));
    out
}

/// Links and `ip:port` entries reported for an address by a search API.
pub struct InfoLinkRes {
    pub links: Vec<String>,
    pub ports: Vec<String>,
}

impl InfoLinkRes {
    pub fn new() -> (r: InfoLinkRes)
        ensures
            r.links@.len() == 0,
            r.ports@.len() == 0,
    {
        InfoLinkRes { links: Vec::new(), ports: Vec::new() }
    }

    /// Appends links.
    pub fn extend_links(&mut self, links: Vec<String>)
        ensures
            final(self).links@ == old(self).links@ + links@,
            final(self).ports@ == old(self).ports@,
    {
        let mut links = links;
        self.links.append(&mut links);
    }

    /// The links, as gathered.
    pub fn rt_links(&self) -> (r: Vec<String>)
        ensures
            texts(r@) == texts(self.links@),
    {
        copy_strings(&self.links)
    }

    /// The `ip:port` entries, as gathered.
    pub fn rt_ports(&self) -> (r: Vec<String>)
        ensures
            texts(r@) == texts(self.ports@),
    {
        copy_strings(&self.ports)
    }

    /// The distinct links, sorted.
    pub fn res_links(&self) -> (r: Vec<String>)
        ensures
            deduplicated(r@, self.links@),
    {
        let r = sorted_distinct(&self.links, false);
        assert forall|t: Seq<char>| has_text(r@, t) <==> has_text(self.links@, t) by {
            assert(has_text(r@, t) <==> (has_text(self.links@, t) && !(false && t.len() == 0)));
        }
        r
    }
}

/// `ip:port` entries found for addresses.
pub struct InfoPortRes {
    pub ports: Vec<String>,
}

impl InfoPortRes {
    pub fn new() -> (r: InfoPortRes)
        ensures
            r.ports@.len() == 0,
    {
        InfoPortRes { ports: Vec::new() }
    }

    /// Appends one entry.
    pub fn push(&mut self, port: String)
        ensures
            final(self).ports@ == old(self).ports@.push(port),
    {
        self.ports.push(port);
    }

    /// Appends entries.
    pub fn extend(&mut self, ports: Vec<String>)
        ensures
            final(self).ports@ == old(self).ports@ + ports@,
    {
        let mut ports = ports;
        self.ports.append(&mut ports);
    }

    /// The entries, as gathered.
    pub fn rt(&self) -> (r: Vec<String>)
        ensures
            texts(r@) == texts(self.ports@),
    {
        copy_strings(&self.ports)
    }

    /// The distinct entries, sorted.
    pub fn res(&self) -> (r: Vec<String>)
        ensures
            deduplicated(r@, self.ports@),
    {
        let r = sorted_distinct(&self.ports, false);
        assert forall|t: Seq<char>| has_text(r@, t) <==> has_text(self.ports@, t) by {
            assert(has_text(r@, t) <==> (has_text(self.ports@, t) && !(false && t.len() == 0)));
        }
        r
    }
}

/// The entries found for all addresses of a run.
pub struct InfoIPRes {
    pub ips: InfoPortRes,
}

impl InfoIPRes {
    pub fn new() -> (r: InfoIPRes)
        ensures
            r.ips.ports@.len() == 0,
    {
        InfoIPRes { ips: InfoPortRes::new() }
    }
}

/// The number of services a search API reports for an address.
pub struct CdnNum {
    pub cnd_num: i32,
}

impl CdnNum {
    pub fn new() -> (r: CdnNum)
        ensures
            r.cnd_num == 0,
    {
        CdnNum { cnd_num: 0 }
    }

    /// Sets the reported count.
    pub fn add_cnd_num(&mut self, cnd_num: i32)
        ensures
            final(self).cnd_num == cnd_num,
    {
        self.cnd_num = cnd_num;
    }
}

/// URLs set aside during a wave and handed on, all at once, to a later one
/// (pages that answered 404, 403 or 401).
pub struct UrlBacklog {
    url: Vec<String>,
}

/// Pages that answered 404, to be probed for known paths.
pub type NotFound = UrlBacklog;

/// Pages that answered 403, to be retried with forwarding headers.
pub type Bypass = UrlBacklog;

/// Pages that answered 401.
pub type Unauthorized = UrlBacklog;

impl UrlBacklog {
    /// The URLs set aside, in order.
    pub closed spec fn pending(&self) -> Seq<Seq<char>> {
        texts(self.url@)
    }

    pub fn new() -> (r: UrlBacklog)
        ensures
            r.pending() == Seq::<Seq<char>>::empty(),
    {
        UrlBacklog { url: Vec::new() }
    }

    /// Sets a URL aside.
    pub fn push(&mut self, domain: String)
        ensures
            final(self).pending() == old(self).pending().push(domain@),
    {
        let ghost before = texts(self.url@);
        self.url.push(domain);
        assert(texts(self.url@) =~= before.push(domain@));
    }

    /// Hands over every URL set aside and leaves the backlog empty.
    pub fn take_all(&mut self) -> (r: Vec<String>)
        ensures
            texts(r@) == old(self).pending(),
            final(self).pending() == Seq::<Seq<char>>::empty(),
    {
        let mut r: Vec<String> = Vec::new();
        r.append(&mut self.url);
        assert(r@ =~= old(self).url@);
        assert(texts(self.url@) =~= Seq::<Seq<char>>::empty());
        r
    }
}

} // verus!
