//! Port-scan bookkeeping for one address, and the banner probes that follow
//! it. Connecting, sending and reading are done by the caller; this module
//! decides what to send, what a reply means, and when a host has shown too
//! many open ports to be a real target.

use vstd::prelude::*;
use crate::text::{contains, contains_bytes, str_eq};

verus! {

/// API keys of the services that report ports for an address.
#[derive(Clone, Debug)]
pub struct ApiKeys {
    pub fofa: String,
    pub shodan: String,
    pub zoomeye: String,
    pub quake: String,
    pub yt: String,
}

/// What the scan of one address has found so far.
pub struct ScanState {
    ceiling: usize,
    open: Vec<u16>,
    stopped: bool,
}

/// The open ports after `port` was found open, given the ports found before.
pub open spec fn with_port(open: Seq<u16>, port: u16) -> Seq<u16> {
    if open.contains(port) {
        open
    } else {
        open.push(port)
    }
}

/// The open ports after `port` was found open by a scan with this ceiling:
/// a scan past its ceiling has stopped and records nothing more.
pub open spec fn recorded(ceiling: nat, open: Seq<u16>, port: u16) -> Seq<u16> {
    if open.len() > ceiling {
        open
    } else {
        with_port(open, port)
    }
}

/// The open ports after the ports of `found` were found open, in that order.
pub open spec fn ports_after(ceiling: nat, found: Seq<u16>) -> Seq<u16>
    decreases found.len(),
{
    if found.len() == 0 {
        Seq::empty()
    } else {
        recorded(ceiling, ports_after(ceiling, found.drop_last()), found.last())
    }
}

/// The result of scanning one address.
pub enum ScanOutcome {
    /// The scan ran to its end; these ports are open.
    Completed(Vec<u16>),
    /// More ports than the ceiling were open: the address is treated as CDN
    /// and its ports are dropped.
    ExcludedAsCdn,
}

impl ScanState {
    /// The open ports found so far, each once, in the order found.
    pub closed spec fn open_ports(&self) -> Seq<u16> {
        self.open@
    }

    pub closed spec fn ceiling(&self) -> nat {
        self.ceiling as nat
    }

    pub closed spec fn is_stopped(&self) -> bool {
        self.stopped
    }

    pub closed spec fn wf(&self) -> bool {
        &&& self.open@.no_duplicates()
        &&& self.stopped == (self.open@.len() > self.ceiling)
    }

    /// A fresh scan with the given open-port ceiling.
    pub fn new(ceiling: usize) -> (r: ScanState)
        ensures
            r.wf(),
            r.ceiling() == ceiling,
            r.open_ports() == Seq::<u16>::empty(),
            !r.is_stopped(),
    {
        ScanState { ceiling, open: Vec::new(), stopped: false }
    }

    /// Whether the ceiling has been crossed, so that no new port should be tried.
    pub fn should_stop(&self) -> (r: bool)
        ensures
            r == self.is_stopped(),
    {
        self.stopped
    }

    /// Records that a connection to `port` succeeded. Once more ports than
    /// the ceiling are open the scan stops, and a stopped scan records
    /// nothing more.
    pub fn record_open(&mut self, port: u16)
        requires
            old(self).wf(),
        ensures
            final(self).wf(),
            final(self).ceiling() == old(self).ceiling(),
            final(self).open_ports() == recorded(old(self).ceiling(), old(self).open_ports(), port),
            final(self).is_stopped() == (final(self).open_ports().len() > final(self).ceiling()),
            old(self).is_stopped() ==> final(self).is_stopped(),
    {
        if self.stopped {
            return;
        }
        let mut present = false;
        let mut i: usize = 0;
        while i < self.open.len()
            invariant
                i <= self.open@.len(),
                present == exists|k: int| 0 <= k < i && self.open@[k] == port,
            decreases self.open@.len() - i,
        {
            if self.open[i] == port {
                present = true;
            }
            i = i + 1;
        }
        if !present {
            self.open.push(port);
        }
        if self.open.len() > self.ceiling {
            self.stopped = true;
        }
    }

    /// The outcome of the scan: the open ports, or exclusion as CDN when the
    /// ceiling was crossed.
    pub fn finish(&self) -> (r: ScanOutcome)
        requires
            self.wf(),
        ensures
            self.is_stopped() ==> r is ExcludedAsCdn,
            !self.is_stopped() ==> (r matches ScanOutcome::Completed(p) && p@ == self.open_ports()),
    {
        if self.stopped {
            ScanOutcome::ExcludedAsCdn
        } else {
            ScanOutcome::Completed(self.open.clone())
        }
    }
}

proof fn lemma_ports_after_distinct(ceiling: nat, found: Seq<u16>)
    requires
        found.no_duplicates(),
    ensures
        ports_after(ceiling, found).len() > ceiling || ports_after(ceiling, found) == found,
    decreases found.len(),
{
    if found.len() > 0 {
        let prefix = found.drop_last();
        assert(prefix.no_duplicates());
        lemma_ports_after_distinct(ceiling, prefix);
        if ports_after(ceiling, prefix) == prefix {
            assert(!prefix.contains(found.last())) by {
                if prefix.contains(found.last()) {
                    let k = choose|k: int| 0 <= k < prefix.len() && prefix[k] == found.last();
                    assert(found[k] == found[found.len() - 1]);
                }
            }
            assert(prefix.push(found.last()) =~= found);
        }
    }
}

/// A target that accepts connections on more distinct ports than the
/// ceiling is excluded: a scan state that has recorded those ports is
/// stopped, so its outcome is `ExcludedAsCdn` and holds no ports.
pub proof fn lemma_excess_ports_excluded(s: ScanState, found: Seq<u16>)
    requires
        s.wf(),
        s.open_ports() == ports_after(s.ceiling(), found),
        found.no_duplicates(),
        found.len() > s.ceiling(),
    ensures
        s.is_stopped(),
{
    lemma_ports_after_distinct(s.ceiling(), found);
}

/// The shards cover `start..=end` in order, without gaps or overlap.
pub open spec fn covers(shards: Seq<(u16, u16)>, start: u16, end: u16) -> bool {
    &&& shards.len() > 0
    &&& shards[0].0 == start
    &&& shards.last().1 == end
    &&& forall|k: int| 0 <= k < shards.len() ==> #[trigger] shards[k].0 <= shards[k].1
    &&& forall|k: int|
        0 <= k < shards.len() - 1 ==> #[trigger] shards[k].1 as int + 1 == shards[k + 1].0 as int
}

/// Splits the port range `start..=end` into contiguous shards of at most
/// `size` ports each, for parallel scanning.
pub fn shard_ranges(start: u16, end: u16, size: u16) -> (r: Vec<(u16, u16)>)
    requires
        start <= end,
        size > 0,
    ensures
        covers(r@, start, end),
        forall|k: int| 0 <= k < r@.len() ==> #[trigger] r@[k].1 - r@[k].0 < size,
{
    let mut out: Vec<(u16, u16)> = Vec::new();
    let mut lo: u16 = start;
    loop
        invariant
            start <= lo <= end,
            size > 0,
            out@.len() == 0 ==> lo == start,
            out@.len() > 0 ==> out@[0].0 == start && out@.last().1 as int + 1 == lo as int,
            forall|k: int| 0 <= k < out@.len() ==> #[trigger] out@[k].0 <= out@[k].1,
            forall|k: int| 0 <= k < out@.len() ==> #[trigger] out@[k].1 - out@[k].0 < size,
            forall|k: int|
                0 <= k < out@.len() - 1 ==> #[trigger] out@[k].1 as int + 1 == out@[k + 1].0 as int,
        decreases end - lo,
    {
        let hi: u16 = if end - lo < size { end } else { lo + (size - 1) };
        let ghost before = out@;
        out.push((lo, hi));
        assert(out@[out@.len() - 1] == (lo, hi));
        assert forall|k: int| 0 <= k < out@.len() - 1 implies #[trigger] out@[k].1 as int + 1
            == out@[k + 1].0 as int by {
            if k < before.len() - 1 {
                assert(out@[k] == before[k] && out@[k + 1] == before[k + 1]);
            } else {
                assert(out@[k] == before.last());
            }
        }
        if hi == end {
            return out;
        }
        lo = hi + 1;
    }
}

/// Ports whose protocol is known from the number alone; they get no banner probe.
pub open spec fn is_skipped_port(port: u16) -> bool {
    port == 22 || port == 21 || port == 153 || port == 445 || port == 3306 || port == 1521 || port
        == 5432 || port == 1433 || port == 6379 || port == 27017 || port == 9200 || port == 53
        || port == 23
}

/// Whether `port` is left out of banner probing.
pub fn skip_port(port: u16) -> (r: bool)
    ensures
        r == is_skipped_port(port),
{
    port == 22 || port == 21 || port == 153 || port == 445 || port == 3306 || port == 1521 || port
        == 5432 || port == 1433 || port == 6379 || port == 27017 || port == 9200 || port == 53
        || port == 23
}

/// A banner probe, in the order in which they are tried.
#[derive(PartialEq, Eq, Structural, Clone, Copy, Debug)]
pub enum Probe {
    Jdwp,
    ActiveMq,
    Rmi,
}

/// The service that a banner probe identified on a port.
#[derive(PartialEq, Eq, Structural, Clone, Copy, Debug)]
pub enum BannerKind {
    Unidentified,
    Jdwp,
    ActiveMq,
    Rmi,
}

/// The first probe for an open port, or none for a skipped port.
pub fn first_probe(port: u16) -> (r: Option<Probe>)
    ensures
        is_skipped_port(port) ==> r is None,
        !is_skipped_port(port) ==> r == Some(Probe::Jdwp),
{
    if skip_port(port) {
        None
    } else {
        Some(Probe::Jdwp)
    }
}

/// The probe to try after `done`: none once a reply was positive, since
/// the first service identified ends probing of the port.
pub fn next_probe(done: Probe, positive: bool) -> (r: Option<Probe>)
    ensures
        positive ==> r is None,
        !positive && done == Probe::Jdwp ==> r == Some(Probe::ActiveMq),
        !positive && done == Probe::ActiveMq ==> r == Some(Probe::Rmi),
        done == Probe::Rmi ==> r is None,
{
    if positive {
        return None;
    }
    match done {
        Probe::Jdwp => Some(Probe::ActiveMq),
        Probe::ActiveMq => Some(Probe::Rmi),
        Probe::Rmi => None,
    }
}

/// The service that a positive reply to `probe` identifies.
pub fn banner_of(probe: Probe) -> (r: BannerKind)
    ensures
        probe == Probe::Jdwp ==> r == BannerKind::Jdwp,
        probe == Probe::ActiveMq ==> r == BannerKind::ActiveMq,
        probe == Probe::Rmi ==> r == BannerKind::Rmi,
{
    match probe {
        Probe::Jdwp => BannerKind::Jdwp,
        Probe::ActiveMq => BannerKind::ActiveMq,
        Probe::Rmi => BannerKind::Rmi,
    }
}

/// The JDWP handshake, sent and expected back: `JDWP-Handshake`.
pub open spec fn jdwp_handshake_bytes() -> Seq<u8> {
    seq![74u8, 68, 87, 80, 45, 72, 97, 110, 100, 115, 104, 97, 107, 101]
}

/// The OpenWire probe frame sent to a suspected ActiveMQ broker.
pub open spec fn activemq_frame_bytes() -> Seq<u8> {
    seq![0u8, 0, 0, 15, 0, 1, 0, 0, 0, 0, 0, 0, 0, 0, 0, 0, 0, 0, 0]
}

/// The JRMP probe sent to a suspected RMI registry: `JRMI`, version 2, stream protocol.
pub open spec fn rmi_request_bytes() -> Seq<u8> {
    seq![74u8, 82, 77, 73, 0, 2, 75]
}

/// `ActiveMQ`
pub open spec fn activemq_marker() -> Seq<u8> {
    seq![65u8, 99, 116, 105, 118, 101, 77, 81]
}

/// `JRMI`
pub open spec fn jrmi_marker() -> Seq<u8> {
    seq![74u8, 82, 77, 73]
}

/// `rmi`
pub open spec fn rmi_marker() -> Seq<u8> {
    seq![114u8, 109, 105]
}

fn jdwp_handshake() -> (r: Vec<u8>)
    ensures
        r@ == jdwp_handshake_bytes(),
{
    let r = vec![74u8, 68, 87, 80, 45, 72, 97, 110, 100, 115, 104, 97, 107, 101];
    assert(r@ =~= jdwp_handshake_bytes());
    r
}

/// The bytes to send for a probe.
pub fn probe_bytes(probe: Probe) -> (r: Vec<u8>)
    ensures
        probe == Probe::Jdwp ==> r@ == jdwp_handshake_bytes(),
        probe == Probe::ActiveMq ==> r@ == activemq_frame_bytes(),
        probe == Probe::Rmi ==> r@ == rmi_request_bytes(),
{
    match probe {
        Probe::Jdwp => jdwp_handshake(),
        Probe::ActiveMq => {
            let r = vec![0u8, 0, 0, 15, 0, 1, 0, 0, 0, 0, 0, 0, 0, 0, 0, 0, 0, 0, 0];
            assert(r@ =~= activemq_frame_bytes());
            r
        },
        Probe::Rmi => {
            let r = vec![74u8, 82, 77, 73, 0, 2, 75];
            assert(r@ =~= rmi_request_bytes());
            r
        },
    }
}

/// How many bytes of reply to read for a probe: exactly the handshake's
/// length for JDWP, at most this many for the others.
pub fn reply_limit(probe: Probe) -> (r: usize)
    ensures
        probe == Probe::Jdwp ==> r == jdwp_handshake_bytes().len(),
        probe == Probe::ActiveMq ==> r == 1024,
        probe == Probe::Rmi ==> r == 256,
{
    match probe {
        Probe::Jdwp => 14,
        Probe::ActiveMq => 1024,
        Probe::Rmi => 256,
    }
}

/// A JDWP reply is positive when it is the handshake itself.
pub fn check_jdwp(reply: &[u8]) -> (r: bool)
    ensures
        r == (reply@ == jdwp_handshake_bytes()),
{
    let expected = jdwp_handshake();
    if reply.len() != expected.len() {
        return false;
    }
    let mut i: usize = 0;
    while i < reply.len()
        invariant
            expected@ == jdwp_handshake_bytes(),
            reply@.len() == expected@.len(),
            i <= reply@.len(),
            forall|k: int| 0 <= k < i ==> reply@[k] == expected@[k],
        decreases reply@.len() - i,
    {
        if reply[i] != expected[i] {
            return false;
        }
        i = i + 1;
    }
    assert(reply@ =~= expected@);
    true
}

/// An ActiveMQ reply is positive when it holds `ActiveMQ`.
pub fn check_activemq(reply: &[u8]) -> (r: bool)
    ensures
        r == contains(reply@, activemq_marker()),
{
    let marker = vec![65u8, 99, 116, 105, 118, 101, 77, 81];
    assert(marker@ =~= activemq_marker());
    contains_bytes(reply, marker.as_slice())
}

/// An RMI reply is positive when it holds `JRMI` or `rmi` (case as written).
pub fn check_rmi(reply: &[u8]) -> (r: bool)
    ensures
        r == (contains(reply@, jrmi_marker()) || contains(reply@, rmi_marker())),
{
    let jrmi = vec![74u8, 82, 77, 73];
    let rmi = vec![114u8, 109, 105];
    assert(jrmi@ =~= jrmi_marker());
    assert(rmi@ =~= rmi_marker());
    contains_bytes(reply, jrmi.as_slice()) || contains_bytes(reply, rmi.as_slice())
}

/// Whether a reply to `probe` identifies its service.
pub open spec fn reply_positive(probe: Probe, reply: Seq<u8>) -> bool {
    match probe {
        Probe::Jdwp => reply == jdwp_handshake_bytes(),
        Probe::ActiveMq => contains(reply, activemq_marker()),
        Probe::Rmi => contains(reply, jrmi_marker()) || contains(reply, rmi_marker()),
    }
}

/// Whether a reply to `probe` identifies its service.
pub fn check_reply(probe: Probe, reply: &[u8]) -> (r: bool)
    ensures
        r == reply_positive(probe, reply@),
{
    match probe {
        Probe::Jdwp => check_jdwp(reply),
        Probe::ActiveMq => check_activemq(reply),
        Probe::Rmi => check_rmi(reply),
    }
}

/// A service identified on an open port.
#[derive(Clone, Debug)]
pub struct PortFinding {
    pub ip: String,
    pub port: u16,
    pub banner_kind: BannerKind,
}

/// The findings of a run, at most one per address and port.
pub struct FindingLog {
    findings: Vec<PortFinding>,
}

impl FindingLog {
    /// The findings, in the order recorded.
    pub closed spec fn entries(&self) -> Seq<PortFinding> {
        self.findings@
    }

    /// No two findings are for the same address and port.
    pub open spec fn wf(&self) -> bool {
        forall|a: int, b: int|
            0 <= a < b < self.entries().len() ==> !(self.entries()[a].ip@
                == self.entries()[b].ip@ && self.entries()[a].port == self.entries()[b].port)
    }

    pub open spec fn has(&self, ip: Seq<char>, port: u16) -> bool {
        exists|k: int|
            0 <= k < self.entries().len() && self.entries()[k].ip@ == ip && self.entries()[k].port
                == port
    }

    pub fn new() -> (r: FindingLog)
        ensures
            r.wf(),
            r.entries() == Seq::<PortFinding>::empty(),
    {
        FindingLog { findings: Vec::new() }
    }

    /// Records a finding unless that address and port already have one;
    /// returns whether it was recorded.
    pub fn record(&mut self, f: PortFinding) -> (r: bool)
        requires
            old(self).wf(),
        ensures
            final(self).wf(),
            r == !old(self).has(f.ip@, f.port),
            r ==> final(self).entries() == old(self).entries().push(f),
            !r ==> final(self).entries() == old(self).entries(),
            final(self).has(f.ip@, f.port),
    {
        let mut i: usize = 0;
        while i < self.findings.len()
            invariant
                self.wf(),
                i <= self.findings@.len(),
                forall|k: int|
                    0 <= k < i ==> !(self.findings@[k].ip@ == f.ip@ && self.findings@[k].port
                        == f.port),
            decreases self.findings@.len() - i,
        {
            if self.findings[i].port == f.port && str_eq(
                self.findings[i].ip.as_str(),
                f.ip.as_str(),
            ) {
                assert(self.entries()[i as int].ip@ == f.ip@);
                return false;
            }
            i = i + 1;
        }
        self.findings.push(f);
        assert(self.entries()[self.entries().len() - 1] == f);
        true
    }

    /// How many findings there are.
    pub fn len(&self) -> (r: usize)
        ensures
            r == self.entries().len(),
    {
        self.findings.len()
    }

    /// The findings, in the order recorded.
    pub fn findings(&self) -> (r: Vec<PortFinding>)
        ensures
            r@ == self.entries(),
    {
        let mut out: Vec<PortFinding> = Vec::new();
        let mut i: usize = 0;
        while i < self.findings.len()
            invariant
                i <= self.findings@.len(),
                out@ == self.findings@.take(i as int),
            decreases self.findings@.len() - i,
        {
            let f = &self.findings[i];
            out.push(PortFinding { ip: f.ip.clone(), port: f.port, banner_kind: f.banner_kind });
            assert(out@[i as int] == self.findings@[i as int]) by {
                assert(out@[i as int].ip@ == self.findings@[i as int].ip@);
            }
            assert(out@ =~= self.findings@.take(i + 1));
            i = i + 1;
        }
        assert(out@ =~= self.findings@);
        out
    }
}

} // verus!
