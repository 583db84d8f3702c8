//! Run settings read from the configuration files.

use vstd::prelude::*;

verus! {

/// Settings of a run: keyword and exclusion lists, the port range for full
/// scans, how many surviving addresses still get a full scan, and the
/// reported-port count past which an address counts as CDN.
#[derive(Clone, Debug)]
pub struct OtherSets {
    pub keywords: Vec<String>,
    pub excluded_extensions: Vec<String>,
    pub excluded_patterns: Vec<String>,
    pub pass_domain: Vec<String>,
    pub port_random_max: u16,
    pub port_random_min: u16,
    pub attack_port_number: usize,
    pub scan_port_max: u64,
}

impl OtherSets {
    /// Full-range port scans run only when at most `attack_port_number`
    /// addresses survive the CDN filter.
    pub fn full_scan_allowed(&self, survivors: usize) -> (r: bool)
        ensures
            r == (survivors <= self.attack_port_number),
    {
        survivors <= self.attack_port_number
    }
}

/// API keys of the search services.
#[derive(Clone, Debug)]
pub struct ApiKeys {
    pub fofa_key: String,
    pub quake_key: String,
    pub zoomeye_key: String,
    pub daydaymap_key: String,
    pub shodan_key: String,
    pub securitytrails_key: String,
    pub hunter_key: String,
    pub yt_key: String,
    pub virustotal_key: String,
    pub viewdns_key: String,
    pub binaryedge_key: String,
    pub fullhunt_key: String,
    pub whoisxmlapi_key: String,
    pub dnsdump_key: String,
    pub bevigil_key: String,
    pub robtex_key: String,
    pub zone_key: String,
}

impl ApiKeys {
    /// The keys that the port stage uses.
    pub fn port_keys(&self) -> (r: crate::portscan::ApiKeys)
        ensures
            r.fofa@ == self.fofa_key@,
            r.quake@ == self.quake_key@,
            r.yt@ == self.yt_key@,
            r.shodan@ == self.shodan_key@,
            r.zoomeye@ == self.zoomeye_key@,
    {
        crate::portscan::ApiKeys {
            fofa: self.fofa_key.clone(),
            shodan: self.shodan_key.clone(),
            zoomeye: self.zoomeye_key.clone(),
            quake: self.quake_key.clone(),
            yt: self.yt_key.clone(),
        }
    }
}

/// The configuration file: the API keys.
#[derive(Clone, Debug)]
pub struct Config {
    pub api_keys: ApiKeys,
}

} // verus!
