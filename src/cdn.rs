//! CDN and deception filtering: an address inside a known provider range,
//! or one that shows more open ports than the ceiling allows, is treated as
//! CDN infrastructure and left out of deep probing.

use vstd::prelude::*;
use crate::text::{chars_of, first_from, first_index_from, string_from_chars};
use vstd::string::StringExecFns;

verus! {

/// Open-port (or reported-service) count past which a host counts as CDN.
pub const DEFAULT_PORT_CEILING: usize = 100;

/// `cidr` parses as a network, `ip` parses as an address, and the network
/// contains the address.
pub uninterp spec fn cidr_holds(cidr: Seq<char>, ip: Seq<char>) -> bool;

/// Relies on ipnet's `IpNet::from_str` and `IpNet::contains`, with the
/// address read by `core::net::IpAddr::from_str`: true exactly when the range
/// and the address both parse and the range contains the address (an IPv4
/// range never contains an IPv6 address, nor the other way round).
#[verifier::external_body]
fn is_ip_in_cidr(ip: &str, cidr: &str) -> (r: bool)
    ensures
        r == cidr_holds(cidr@, ip@),
{
    match (cidr.parse::<ipnet::IpNet>(), ip.parse::<core::net::IpAddr>()) {
        (Ok(network), Ok(addr)) => network.contains(&addr),
        _ => false,
    }
}

/// The provider network ranges, with the provider of each.
pub open spec fn cdn_table() -> Seq<(Seq<char>, Seq<char>)> {
    seq![
        ("103.21.244.0/22"@, "Cloudflare"@),
        ("103.22.200.0/22"@, "Cloudflare"@),
        ("103.31.4.0/22"@, "Cloudflare"@),
        ("104.16.0.0/13"@, "Cloudflare"@),
        ("104.24.0.0/14"@, "Cloudflare"@),
        ("108.162.192.0/18"@, "Cloudflare"@),
        ("131.0.72.0/22"@, "Cloudflare"@),
        ("141.101.64.0/18"@, "Cloudflare"@),
        ("162.158.0.0/15"@, "Cloudflare"@),
        ("172.64.0.0/13"@, "Cloudflare"@),
        ("173.245.48.0/20"@, "Cloudflare"@),
        ("188.114.96.0/20"@, "Cloudflare"@),
        ("190.93.240.0/20"@, "Cloudflare"@),
        ("197.234.240.0/22"@, "Cloudflare"@),
        ("198.41.128.0/17"@, "Cloudflare"@),
        ("2400:cb00::/32"@, "Cloudflare"@),
        ("2606:4700::/32"@, "Cloudflare"@),
        ("2803:f800::/32"@, "Cloudflare"@),
        ("2405:b500::/32"@, "Cloudflare"@),
        ("2405:8100::/32"@, "Cloudflare"@),
        ("2a06:98c0::/29"@, "Cloudflare"@),
        ("2c0f:f248::/32"@, "Cloudflare"@),
        ("13.32.0.0/15"@, "AWS"@),
        ("13.35.0.0/16"@, "AWS"@),
        ("13.249.0.0/16"@, "AWS"@),
        ("52.46.0.0/18"@, "AWS"@),
        ("52.84.0.0/15"@, "AWS"@),
        ("52.222.0.0/17"@, "AWS"@),
        ("54.182.0.0/16"@, "AWS"@),
        ("54.192.0.0/16"@, "AWS"@),
        ("54.230.0.0/16"@, "AWS"@),
        ("54.239.0.0/17"@, "AWS"@),
        ("70.132.0.0/18"@, "AWS"@),
        ("99.84.0.0/16"@, "AWS"@),
        ("204.246.168.0/22"@, "AWS"@),
        ("205.251.192.0/21"@, "AWS"@),
        ("216.137.32.0/19"@, "AWS"@),
        ("2600:9000::/28"@, "AWS"@),
        ("2600:9000:1000::/36"@, "AWS"@),
        ("2600:9000:2000::/36"@, "AWS"@),
        ("2600:9000:3000::/36"@, "AWS"@),
        ("2600:9000:4000::/36"@, "AWS"@)
    ]
}

pub open spec fn table_view(t: Seq<(&str, &str)>) -> Seq<(Seq<char>, Seq<char>)> {
    t.map_values(|p: (&str, &str)| (p.0@, p.1@))
}

fn cdn_ranges() -> (r: Vec<(&'static str, &'static str)>)
    ensures
        table_view(r@) == cdn_table(),
{
    let r = vec![
        ("103.21.244.0/22", "Cloudflare"),
        ("103.22.200.0/22", "Cloudflare"),
        ("103.31.4.0/22", "Cloudflare"),
        ("104.16.0.0/13", "Cloudflare"),
        ("104.24.0.0/14", "Cloudflare"),
        ("108.162.192.0/18", "Cloudflare"),
        ("131.0.72.0/22", "Cloudflare"),
        ("141.101.64.0/18", "Cloudflare"),
        ("162.158.0.0/15", "Cloudflare"),
        ("172.64.0.0/13", "Cloudflare"),
        ("173.245.48.0/20", "Cloudflare"),
        ("188.114.96.0/20", "Cloudflare"),
        ("190.93.240.0/20", "Cloudflare"),
        ("197.234.240.0/22", "Cloudflare"),
        ("198.41.128.0/17", "Cloudflare"),
        ("2400:cb00::/32", "Cloudflare"),
        ("2606:4700::/32", "Cloudflare"),
        ("2803:f800::/32", "Cloudflare"),
        ("2405:b500::/32", "Cloudflare"),
        ("2405:8100::/32", "Cloudflare"),
        ("2a06:98c0::/29", "Cloudflare"),
        ("2c0f:f248::/32", "Cloudflare"),
        ("13.32.0.0/15", "AWS"),
        ("13.35.0.0/16", "AWS"),
        ("13.249.0.0/16", "AWS"),
        ("52.46.0.0/18", "AWS"),
        ("52.84.0.0/15", "AWS"),
        ("52.222.0.0/17", "AWS"),
        ("54.182.0.0/16", "AWS"),
        ("54.192.0.0/16", "AWS"),
        ("54.230.0.0/16", "AWS"),
        ("54.239.0.0/17", "AWS"),
        ("70.132.0.0/18", "AWS"),
        ("99.84.0.0/16", "AWS"),
        ("204.246.168.0/22", "AWS"),
        ("205.251.192.0/21", "AWS"),
        ("216.137.32.0/19", "AWS"),
        ("2600:9000::/28", "AWS"),
        ("2600:9000:1000::/36", "AWS"),
        ("2600:9000:2000::/36", "AWS"),
        ("2600:9000:3000::/36", "AWS"),
        ("2600:9000:4000::/36", "AWS")
    ];
    assert(table_view(r@) =~= cdn_table());
    r
}

/// The provider of the first range, from index `i` on, that holds `ip`.
pub open spec fn provider_from(ip: Seq<char>, i: int) -> Option<Seq<char>>
    decreases cdn_table().len() - i,
{
    if i < 0 || i >= cdn_table().len() {
        None
    } else if cidr_holds(cdn_table()[i].0, ip) {
        Some(cdn_table()[i].1)
    } else {
        provider_from(ip, i + 1)
    }
}

/// The provider whose range holds `ip`, if any (the first in the table).
pub open spec fn static_provider(ip: Seq<char>) -> Option<Seq<char>> {
    provider_from(ip, 0)
}

fn find_provider(ip: &str) -> (r: Option<&'static str>)
    ensures
        r matches Some(p) ==> static_provider(ip@) == Some(p@),
        r is None ==> static_provider(ip@) is None,
{
    let table = cdn_ranges();
    let mut i: usize = 0;
    while i < table.len()
        invariant
            table_view(table@) == cdn_table(),
            i <= table@.len(),
            provider_from(ip@, 0) == provider_from(ip@, i as int),
        decreases table@.len() - i,
    {
        assert(table_view(table@)[i as int] == (table@[i as int].0@, table@[i as int].1@));
        if is_ip_in_cidr(ip, table[i].0) {
            return Some(table[i].1);
        }
        i = i + 1;
    }
    None
}

/// Checks an address against the provider ranges; on a hit the reason is
/// "is " followed by the provider. Text that is no address never hits.
pub fn check_known_cdn_ranges(ip: &str) -> (r: Option<(bool, String)>)
    ensures
        r matches Some(v) ==> (static_provider(ip@) matches Some(p) && v.0 && v.1@ == "is "@ + p),
        r is None <==> static_provider(ip@) is None,
{
    match find_provider(ip) {
        Some(p) => Some((true, "is ".to_string().concat(p))),
        None => None,
    }
}

/// Whether an address lies in a provider range, and why.
pub fn is_cdn_ip(ip: &str) -> (r: (bool, String))
    ensures
        r.0 == static_provider(ip@) is Some,
        static_provider(ip@) matches Some(p) ==> r.1@ == "is "@ + p,
        static_provider(ip@) is None ==> r.1@ == Seq::<char>::empty(),
{
    match check_known_cdn_ranges(ip) {
        Some((is_cdn, reason)) => (is_cdn, reason),
        None => (false, String::new()),
    }
}

/// The verdict on one address.
#[derive(Clone, Debug)]
pub enum Classification {
    /// Treated as CDN or deception infrastructure, for the reason given.
    Cdn(String),
    /// Nothing marks the address as CDN.
    Clear,
}

/// Classifies an address by the provider ranges alone: `Cdn` with the
/// provider's name on a hit, `Clear` otherwise (also for text that is no
/// address).
pub fn classify(ip: &str) -> (r: Classification)
    ensures
        static_provider(ip@) matches Some(p) ==> (r matches Classification::Cdn(reason) && reason@
            == p),
        static_provider(ip@) is None ==> r is Clear,
{
    match find_provider(ip) {
        Some(p) => Classification::Cdn(p.to_string()),
        None => Classification::Clear,
    }
}

/// Classifies an address by the provider ranges first, then by the number of
/// open ports that a scan found and the number of services that an outside
/// source reported: either above `ceiling` marks it as CDN.
pub fn classify_with_evidence(
    ip: &str,
    open_port_count: usize,
    external_hint_count: usize,
    ceiling: usize,
) -> (r: Classification)
    ensures
        static_provider(ip@) matches Some(p) ==> (r matches Classification::Cdn(reason) && reason@
            == p),
        static_provider(ip@) is None && (open_port_count > ceiling || external_hint_count
            > ceiling) ==> (r matches Classification::Cdn(reason) && reason@
            == "excessive open ports"@),
        static_provider(ip@) is None && open_port_count <= ceiling && external_hint_count
            <= ceiling ==> r is Clear,
{
    match classify(ip) {
        Classification::Cdn(p) => Classification::Cdn(p),
        Classification::Clear => {
            if open_port_count > ceiling || external_hint_count > ceiling {
                Classification::Cdn("excessive open ports".to_string())
            } else {
                Classification::Clear
            }
        },
    }
}

/// An address inside a configured provider range is always classified as
/// CDN: the verdict depends on the address text alone.
pub proof fn lemma_in_range_is_cdn(ip: Seq<char>, i: int)
    requires
        0 <= i < cdn_table().len(),
        cidr_holds(cdn_table()[i].0, ip),
    ensures
        static_provider(ip) is Some,
{
    lemma_provider_from_some(ip, 0, i);
}

proof fn lemma_provider_from_some(ip: Seq<char>, from: int, i: int)
    requires
        0 <= from <= i < cdn_table().len(),
        cidr_holds(cdn_table()[i].0, ip),
    ensures
        provider_from(ip, from) is Some,
    decreases i - from,
{
    if from < i && !cidr_holds(cdn_table()[from].0, ip) {
        lemma_provider_from_some(ip, from + 1, i);
    }
}

/// The host of a target: for `ip:port` (exactly one `:`) the text before the
/// `:`; otherwise the whole text, so that a bare IPv6 address is kept whole.
pub open spec fn host_part(s: Seq<char>) -> Seq<char> {
    let k = first_from(s, 0, ':');
    if k < s.len() && first_from(s, k + 1, ':') == s.len() {
        s.take(k)
    } else {
        s
    }
}

fn host_of(s: &str) -> (r: String)
    ensures
        r@ == host_part(s@),
{
    let c = chars_of(s);
    let k = first_index_from(c.as_slice(), 0, ':');
    if k < c.len() && first_index_from(c.as_slice(), k + 1, ':') == c.len() {
        let h = string_from_chars(&c.as_slice()[0..k]);
        assert(h@ =~= s@.take(k as int));
        h
    } else {
        s.to_string()
    }
}

/// The targets of `ips` whose host lies in no provider range, in order.
pub open spec fn non_cdn_upto(ips: Seq<String>, n: int) -> Seq<Seq<char>>
    decreases n,
{
    if n <= 0 {
        Seq::empty()
    } else if static_provider(host_part(ips[n - 1]@)) is Some {
        non_cdn_upto(ips, n - 1)
    } else {
        non_cdn_upto(ips, n - 1).push(ips[n - 1]@)
    }
}

/// Keeps the targets (bare IPv4 or IPv6 addresses, or `ip:port`) whose
/// address lies in no provider range, in their order.
pub fn filter_cdn_ips(ips: &Vec<String>) -> (r: Vec<String>)
    ensures
        r@.map_values(|s: String| s@) == non_cdn_upto(ips@, ips@.len() as int),
{
    let mut out: Vec<String> = Vec::new();
    let mut i: usize = 0;
    while i < ips.len()
        invariant
            i <= ips@.len(),
            out@.map_values(|s: String| s@) == non_cdn_upto(ips@, i as int),
        decreases ips@.len() - i,
    {
        let host = host_of(ips[i].as_str());
        let (is_cdn, _reason) = is_cdn_ip(host.as_str());
        if !is_cdn {
            let ghost prev = out@.map_values(|s: String| s@);
            out.push(ips[i].clone());
            assert(out@.map_values(|s: String| s@) =~= prev.push(ips@[i as int]@));
        }
        i = i + 1;
    }
    out
}

} // verus!
