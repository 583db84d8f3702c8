//! Probe-and-match engine of a reconnaissance scanner: rule matching over
//! captured responses, CDN classification, port-scan bookkeeping, link
//! extraction and query-parameter fuzzing.

pub mod text;
pub mod matcher;
pub mod favicon;
pub mod cdn;
pub mod portscan;
pub mod fuzzer;
pub mod crawler;
pub mod results;
pub mod cms;
pub mod config;
pub mod targets;
