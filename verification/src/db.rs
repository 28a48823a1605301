//! The presence snapshot's Host record, the differencer between two
//! snapshots, the dispatch gate, and the per-transition notification and
//! log-record values.
use vstd::prelude::*;
use crate::addr::ipv4_to_string;
use crate::addr::mac_in_range;
use crate::addr::mac_to_string;
use crate::addr::spec_ipv4_seq;
use crate::addr::spec_mac_seq;
use crate::addr::parse_ipv4;
use crate::addr::spec_parse_ipv4;
use crate::config::Config;
use crate::config::ConnectType;
use crate::config::HostInfo;
use crate::net;
use std::collections::HashMap;

verus! {

broadcast use vstd::string::group_string_axioms, vstd::std_specs::hash::group_hash_axioms;

/// One host of a presence snapshot. Two records are the same host exactly
/// when their addresses match: a host is tracked by network address, not by
/// hardware identity.
#[derive(Debug)]
pub struct Host {
    pub ip: u32,
    pub mac: u64,
    pub name: String,
    pub device_name: String,
}

impl Clone for Host {
    /// An exact copy, field for field.
    fn clone(&self) -> (r: Host)
        ensures
            r == *self,
    {
        Host {
            ip: self.ip,
            mac: self.mac,
            name: self.name.clone(),
            device_name: self.device_name.clone(),
        }
    }
}

/// What a snapshot records of one host, as contracts see it.
pub ghost struct HostV {
    pub ip: u32,
    pub mac: u64,
    pub name: Seq<char>,
    pub device_name: Seq<char>,
}

impl View for Host {
    type V = HostV;

    open spec fn view(&self) -> HostV {
        HostV { ip: self.ip, mac: self.mac, name: self.name@, device_name: self.device_name@ }
    }
}

/// The snapshot's records, as contracts see them.
pub open spec fn views_of(s: Seq<Host>) -> Seq<HostV> {
    s.map_values(|h: Host| h@)
}

/// A host paired with the directions on which it should be announced.
#[derive(Debug, Clone)]
pub struct NotifyInfo {
    pub host: Host,
    pub connected: bool,
    pub disconnected: bool,
}

/// A single host's presence change between two consecutive snapshots.
#[derive(Debug, Clone)]
pub struct Transition {
    pub host: Host,
    pub kind: ConnectType,
}

/// A whitespace character, as trimming sees it.
pub open spec fn is_space(c: char) -> bool {
    c == ' ' || c == '\t' || c == '\n' || c == '\r'
}

/// Text that is empty after trimming whitespace.
pub open spec fn spec_blank(s: Seq<char>) -> bool {
    forall|i: int| 0 <= i < s.len() ==> is_space(#[trigger] s[i])
}

/// The label a configured field yields: the field itself, or "Unknown"
/// where it is blank.
pub open spec fn spec_label(s: Seq<char>) -> Seq<char> {
    if spec_blank(s) {
        "Unknown"@
    } else {
        s
    }
}

/// Whether the text is empty after trimming whitespace.
fn is_blank(s: &str) -> (b: bool)
    ensures
        b == spec_blank(s@),
{
    let len = s.unicode_len();
    for i in 0..len
        invariant
            len == s@.len(),
            forall|k: int| 0 <= k < i ==> is_space(#[trigger] s@[k]),
    {
        let c = s.get_char(i);
        let u = c as u32;
        if !(u == 32 || u == 9 || u == 10 || u == 13) {
            return false;
        }
    }
    true
}

impl Host {
    /// A blank record: zero addresses, empty labels.
    pub fn new() -> (r: Host)
        ensures
            r.ip == 0,
            r.mac == 0,
            r.name@ == Seq::<char>::empty(),
            r.device_name@ == Seq::<char>::empty(),
    {
        Host { ip: 0, mac: 0, name: String::new(), device_name: String::new() }
    }

    /// Replaces the network address.
    pub fn set_ip(&mut self, ip: u32)
        ensures
            *final(self) == (Host { ip, ..*old(self) }),
    {
        self.ip = ip
    }

    /// Replaces the hardware address.
    pub fn set_mac(&mut self, mac: u64)
        ensures
            *final(self) == (Host { mac, ..*old(self) }),
    {
        self.mac = mac;
    }

    /// Takes the configured identity, defaulting each blank field to
    /// "Unknown" independently of the other.
    pub fn set_info(&mut self, info: &HostInfo)
        ensures
            final(self).ip == old(self).ip,
            final(self).mac == old(self).mac,
            final(self).name@ == spec_label(info.name@),
            final(self).device_name@ == spec_label(info.device_name@),
    {
        if is_blank(info.name.as_str()) {
            self.name = String::from_str("Unknown");
        } else {
            self.name = info.name.clone();
        }
        if is_blank(info.device_name.as_str()) {
            self.device_name = String::from_str("Unknown");
        } else {
            self.device_name = info.device_name.clone();
        }
    }

    /// Replaces the display name.
    pub fn set_name(&mut self, name: String)
        ensures
            *final(self) == (Host { name, ..*old(self) }),
    {
        self.name = name;
    }

    /// Replaces the device label.
    pub fn set_device_name(&mut self, name: String)
        ensures
            *final(self) == (Host { device_name: name, ..*old(self) }),
    {
        self.device_name = name;
    }
}

/// Whether some host of the snapshot has this address.
pub open spec fn spec_contains_ip(s: Seq<Host>, ip: u32) -> bool {
    exists|i: int| 0 <= i < s.len() && #[trigger] s[i].ip == ip
}

/// The addresses present in a snapshot.
pub open spec fn ip_set(s: Seq<Host>) -> Set<u32> {
    Set::new(|ip: u32| spec_contains_ip(s, ip))
}

/// The hosts of `a` whose address does not occur in `b`, in the order of
/// `a`.
pub open spec fn spec_diff(a: Seq<Host>, b: Seq<Host>) -> Seq<Host>
    decreases a.len(),
{
    if a.len() == 0 {
        Seq::empty()
    } else {
        let rest = spec_diff(a.drop_last(), b);
        if spec_contains_ip(b, a.last().ip) {
            rest
        } else {
            rest.push(a.last())
        }
    }
}

/// Whether some host of the snapshot has this address.
pub fn contains_ip(hosts: &Vec<Host>, ip: u32) -> (b: bool)
    ensures
        b == spec_contains_ip(hosts@, ip),
{
    let n = hosts.len();
    for i in 0..n
        invariant
            n == hosts@.len(),
            forall|k: int| 0 <= k < i ==> #[trigger] hosts@[k].ip != ip,
    {
        if hosts[i].ip == ip {
            return true;
        }
    }
    false
}

/// The hosts of `a` absent from `b`, by address, in the order of `a`.
pub fn diff_hosts(a: &Vec<Host>, b: &Vec<Host>) -> (r: Vec<Host>)
    ensures
        r@ == spec_diff(a@, b@),
{
    let mut r: Vec<Host> = Vec::new();
    let n = a.len();
    for i in 0..n
        invariant
            n == a@.len(),
            r@ == spec_diff(a@.take(i as int), b@),
    {
        if !contains_ip(b, a[i].ip) {
            r.push(a[i].clone());
        }
        proof {
            assert(a@.take(i + 1).drop_last() =~= a@.take(i as int));
            assert(a@.take(i + 1).last() == a@[i as int]);
        }
    }
    proof {
        assert(a@.take(n as int) =~= a@);
    }
    r
}

/// A host is in the difference exactly when its address is in the first
/// snapshot and not in the second.
pub proof fn lemma_diff_membership(a: Seq<Host>, b: Seq<Host>, ip: u32)
    ensures
        spec_contains_ip(spec_diff(a, b), ip) <==> (spec_contains_ip(a, ip) && !spec_contains_ip(
            b,
            ip,
        )),
    decreases a.len(),
{
    if a.len() == 0 {
    } else {
        let d = spec_diff(a, b);
        let prev = spec_diff(a.drop_last(), b);
        lemma_diff_membership(a.drop_last(), b, ip);
        assert(forall|i: int| 0 <= i < a.len() - 1 ==> a.drop_last()[i] == a[i]);
        assert(forall|i: int| 0 <= i < prev.len() ==> prev[i] == d[i]);
        if spec_contains_ip(a, ip) && !spec_contains_ip(b, ip) {
            let w = choose|i: int| 0 <= i < a.len() && #[trigger] a[i].ip == ip;
            if w < a.len() - 1 {
                assert(a.drop_last()[w].ip == ip);
                assert(spec_contains_ip(prev, ip));
                let u = choose|i: int| 0 <= i < prev.len() && #[trigger] prev[i].ip == ip;
                assert(d[u].ip == ip);
            } else {
                assert(a.last().ip == ip);
                assert(d == prev.push(a.last()));
                assert(d[d.len() - 1].ip == ip);
            }
            assert(spec_contains_ip(d, ip));
        }
        if spec_contains_ip(d, ip) {
            let w = choose|i: int| 0 <= i < d.len() && #[trigger] d[i].ip == ip;
            if d.len() == prev.len() || w < d.len() - 1 {
                assert(prev[w].ip == ip);
                assert(spec_contains_ip(prev, ip));
                let u = choose|i: int|
                    0 <= i < a.drop_last().len() && #[trigger] a.drop_last()[i].ip == ip;
                assert(a[u].ip == ip);
                assert(spec_contains_ip(a, ip));
            } else {
                assert(a[a.len() - 1].ip == ip);
                assert(spec_contains_ip(a, ip));
            }
        }
    }
}

/// The differencer computes exactly set difference on addresses: what the
/// first snapshot has and the second lacks.
pub proof fn lemma_diff_is_set_difference(a: Seq<Host>, b: Seq<Host>)
    ensures
        ip_set(spec_diff(a, b)) == ip_set(a).difference(ip_set(b)),
{
    assert forall|ip: u32|
        ip_set(spec_diff(a, b)).contains(ip) == ip_set(a).difference(ip_set(b)).contains(
            ip,
        ) by {
        lemma_diff_membership(a, b, ip);
    }
    assert(ip_set(spec_diff(a, b)) =~= ip_set(a).difference(ip_set(b)));
}

/// The differencer depends only on which addresses each snapshot holds,
/// never on the order its hosts stand in.
pub proof fn lemma_diff_order_independent(a1: Seq<Host>, b1: Seq<Host>, a2: Seq<Host>, b2: Seq<Host>)
    requires
        ip_set(a1) == ip_set(a2),
        ip_set(b1) == ip_set(b2),
    ensures
        ip_set(spec_diff(a1, b1)) == ip_set(spec_diff(a2, b2)),
{
    lemma_diff_is_set_difference(a1, b1);
    lemma_diff_is_set_difference(a2, b2);
}

/// The transition batch between two consecutive snapshots: hosts that left
/// and hosts that joined, gated. A batch is dispatched only when at least
/// one of the two difference sets is non-empty and the total host count
/// changed; a same-size membership swap dispatches nothing, a quirk kept
/// from the surrounding detection logic's change condition.
pub open spec fn spec_transitions(olds: Seq<Host>, news: Seq<Host>) -> Seq<Transition> {
    let rmvs = spec_diff(olds, news);
    let adds = spec_diff(news, olds);
    if (rmvs.len() > 0 || adds.len() > 0) && olds.len() != news.len() {
        rmvs.map_values(|h: Host| (Transition { host: h, kind: ConnectType::Disconnected }))
            + adds.map_values(|h: Host| (Transition { host: h, kind: ConnectType::Connected }))
    } else {
        Seq::empty()
    }
}

/// The dispatch gate: a batch is empty whenever the two snapshots hold
/// the same number of hosts, or nothing joined and nothing left; it holds
/// every departure and every arrival exactly when both differences allow
/// it and the counts differ.
pub proof fn lemma_dispatch_gate(olds: Seq<Host>, news: Seq<Host>)
    ensures
        olds.len() == news.len() ==> spec_transitions(olds, news) == Seq::<Transition>::empty(),
        (spec_diff(olds, news).len() == 0 && spec_diff(news, olds).len() == 0)
            ==> spec_transitions(olds, news) == Seq::<Transition>::empty(),
        (olds.len() != news.len() && (spec_diff(olds, news).len() > 0 || spec_diff(news, olds).len()
            > 0)) ==> spec_transitions(olds, news) == spec_diff(olds, news).map_values(
            |h: Host| (Transition { host: h, kind: ConnectType::Disconnected }),
        ) + spec_diff(news, olds).map_values(
            |h: Host| (Transition { host: h, kind: ConnectType::Connected }),
        ),
{
}

/// Every transition's subject left one snapshot or joined the other: its
/// address stands in exactly one of the two.
pub proof fn lemma_transition_subjects(olds: Seq<Host>, news: Seq<Host>, k: int)
    requires
        0 <= k < spec_transitions(olds, news).len(),
    ensures
        ({
            let ip = spec_transitions(olds, news)[k].host.ip;
            (spec_contains_ip(olds, ip) && !spec_contains_ip(news, ip)) || (spec_contains_ip(
                news,
                ip,
            ) && !spec_contains_ip(olds, ip))
        }),
{
    let rmvs = spec_diff(olds, news);
    let adds = spec_diff(news, olds);
    let t = spec_transitions(olds, news)[k];
    if k < rmvs.len() {
        assert(t.host == rmvs[k]);
        assert(spec_contains_ip(rmvs, rmvs[k].ip));
        lemma_diff_membership(olds, news, t.host.ip);
    } else {
        assert(t.host == adds[k - rmvs.len()]);
        assert(spec_contains_ip(adds, adds[k - rmvs.len()].ip));
        lemma_diff_membership(news, olds, t.host.ip);
    }
}

/// Computes the gated transition batch between the previous and the current
/// snapshot: every disconnect first, then every connect.
pub fn get_notifies(olds: &Vec<Host>, news: &Vec<Host>) -> (r: Vec<Transition>)
    ensures
        r@ == spec_transitions(olds@, news@),
{
    let rmvs = diff_hosts(olds, news);
    let adds = diff_hosts(news, olds);
    let mut r: Vec<Transition> = Vec::new();
    if (rmvs.len() > 0 || adds.len() > 0) && olds.len() != news.len() {
        let ghost df = |h: Host| (Transition { host: h, kind: ConnectType::Disconnected });
        let ghost cf = |h: Host| (Transition { host: h, kind: ConnectType::Connected });
        let nr = rmvs.len();
        for i in 0..nr
            invariant
                nr == rmvs@.len(),
                r@ == rmvs@.take(i as int).map_values(df),
                df == (|h: Host| (Transition { host: h, kind: ConnectType::Disconnected })),
        {
            r.push(Transition { host: rmvs[i].clone(), kind: ConnectType::Disconnected });
            proof {
                assert(rmvs@.take(i + 1).map_values(df) =~= rmvs@.take(i as int).map_values(
                    df,
                ).push(df(rmvs@[i as int])));
            }
        }
        proof {
            assert(rmvs@.take(nr as int) =~= rmvs@);
        }
        let na = adds.len();
        for i in 0..na
            invariant
                na == adds@.len(),
                r@ == rmvs@.map_values(df) + adds@.take(i as int).map_values(cf),
                df == (|h: Host| (Transition { host: h, kind: ConnectType::Disconnected })),
                cf == (|h: Host| (Transition { host: h, kind: ConnectType::Connected })),
        {
            r.push(Transition { host: adds[i].clone(), kind: ConnectType::Connected });
            proof {
                assert(adds@.take(i + 1).map_values(cf) =~= adds@.take(i as int).map_values(
                    cf,
                ).push(cf(adds@[i as int])));
                assert(rmvs@.map_values(df) + adds@.take(i + 1).map_values(cf) =~= (rmvs@.map_values(
                    df,
                ) + adds@.take(i as int).map_values(cf)).push(cf(adds@[i as int])));
            }
        }
        proof {
            assert(adds@.take(na as int) =~= adds@);
        }
    }
    r
}

/// Whether a transition in this direction is announced: only an
/// unprivileged process notifies, and only when the direction's
/// configuration flag is set.
pub fn should_notify(conf: &Config, kind: ConnectType) -> (b: bool)
    ensures
        b == (!conf.is_root && (if kind is Connected {
            conf.general.notify_on_connect
        } else {
            conf.general.notify_on_disconnect
        })),
{
    match kind {
        ConnectType::Connected => !conf.is_root && conf.general.notify_on_connect,
        ConnectType::Disconnected => !conf.is_root && conf.general.notify_on_disconnect,
    }
}

/// The one-line summary a notification carries for this direction.
pub fn notification_summary(kind: ConnectType) -> (r: String)
    ensures
        r@ == (if kind is Connected {
            "CONNECT!"@
        } else {
            "DISCONNECT!"@
        }),
{
    match kind {
        ConnectType::Connected => String::from_str("CONNECT!"),
        ConnectType::Disconnected => String::from_str("DISCONNECT!"),
    }
}

/// The body a notification carries: the host's name and device label.
pub fn notification_body(host: &Host) -> (r: String)
    ensures
        r@ == "Name: "@ + host.name@ + "\nDevice: "@ + host.device_name@,
{
    let mut r = String::from_str("Name: ");
    r.append(host.name.as_str());
    r.append("\nDevice: ");
    r.append(host.device_name.as_str());
    r
}

/// One row of the persisted event log, ready to be stored: every address
/// already in its text form, the event type a literal.
#[derive(Debug, Clone)]
pub struct LogRow {
    pub log_name: String,
    pub log_device: String,
    pub log_ip: String,
    pub log_mac: String,
    pub log_type: String,
    pub log_time: i64,
}

/// Builds the log row a transition persists: the host's labels, its
/// addresses in dotted-decimal and colon-hex text, the event type
/// "connect" or "disconnect", and the given timestamp.
pub fn to_log_row(host: &Host, con_or_dis: bool, time: i64) -> (r: LogRow)
    requires
        mac_in_range(host.mac),
    ensures
        r.log_name@ == host.name@,
        r.log_device@ == host.device_name@,
        r.log_ip@ == spec_ipv4_seq(host.ip),
        r.log_mac@ == spec_mac_seq(host.mac),
        r.log_type@ == (if con_or_dis {
            "connect"@
        } else {
            "disconnect"@
        }),
        r.log_time == time,
{
    LogRow {
        log_name: host.name.clone(),
        log_device: host.device_name.clone(),
        log_ip: ipv4_to_string(host.ip),
        log_mac: mac_to_string(host.mac),
        log_type: if con_or_dis {
            String::from_str("connect")
        } else {
            String::from_str("disconnect")
        },
        log_time: time,
    }
}

/// Every scan-host record carries an address, and its first address is a
/// well-formed dotted-decimal text.
pub open spec fn spec_scan_ok(s: Seq<net::Host>) -> bool {
    forall|i: int| 0 <= i < s.len() ==> net::spec_host_ok(#[trigger] s[i])
}

/// What the snapshot records of one scan-host record, if anything:
/// the machine's own address is excluded entirely; the gateway's address
/// is labeled GATEWAY outright, bypassing resolution; an address found in
/// the neighbor table takes that hardware address and its configured
/// identity, each blank or missing field defaulting to "Unknown"; an
/// address the neighbor table lacks keeps a zero hardware address and
/// empty labels.
pub open spec fn spec_migrate_one(
    macmap: Map<u64, HostInfo>,
    gw: net::Gateway,
    arps: Map<u32, u64>,
    pc: u32,
    sh: net::Host,
) -> Option<HostV> {
    let ip = spec_parse_ipv4(net::spec_key(sh))->Some_0;
    if ip == pc {
        None
    } else if ip == gw.ip {
        Some(HostV { ip, mac: 0, name: "GATEWAY"@, device_name: "GATEWAY"@ })
    } else if arps.contains_key(ip) {
        let mac = arps[ip];
        if macmap.contains_key(mac) {
            Some(
                HostV {
                    ip,
                    mac,
                    name: spec_label(macmap[mac].name@),
                    device_name: spec_label(macmap[mac].device_name@),
                },
            )
        } else {
            Some(HostV { ip, mac, name: "Unknown"@, device_name: "Unknown"@ })
        }
    } else {
        Some(HostV { ip, mac: 0, name: Seq::empty(), device_name: Seq::empty() })
    }
}

/// The snapshot a cycle's aggregated discovery results build, in scan
/// order.
pub open spec fn spec_migrate(
    macmap: Map<u64, HostInfo>,
    gw: net::Gateway,
    arps: Map<u32, u64>,
    pc: u32,
    s: Seq<net::Host>,
) -> Seq<HostV>
    decreases s.len(),
{
    if s.len() == 0 {
        Seq::empty()
    } else {
        let prev = spec_migrate(macmap, gw, arps, pc, s.drop_last());
        match spec_migrate_one(macmap, gw, arps, pc, s.last()) {
            None => prev,
            Some(hv) => prev.push(hv),
        }
    }
}

/// Builds the ordered snapshot for one cycle from the aggregated discovery
/// results: the machine's own address is dropped, the gateway's address is
/// labeled GATEWAY, every other address goes through neighbor and identity
/// resolution.
pub fn migrate_to_host_list(
    macmap: &HashMap<u64, HostInfo>,
    gw: &net::Gateway,
    result: Vec<net::Host>,
    arps: HashMap<u32, u64>,
    pc: u32,
) -> (hosts: Vec<Host>)
    requires
        spec_scan_ok(result@),
    ensures
        views_of(hosts@) == spec_migrate(macmap@, *gw, arps@, pc, result@),
{
    let mut hosts: Vec<Host> = Vec::new();
    let n = result.len();
    for i in 0..n
        invariant
            n == result@.len(),
            spec_scan_ok(result@),
            views_of(hosts@) == spec_migrate(macmap@, *gw, arps@, pc, result@.take(i as int)),
    {
        proof {
            assert(result@.take(i + 1).drop_last() =~= result@.take(i as int));
            assert(result@.take(i + 1).last() == result@[i as int]);
        }
        let mut h = Host::new();
        let ip: u32 = match parse_ipv4(result[i].address[0].addr.as_str()) {
            Some(v) => v,
            None => {
                proof {
                    assert(false);
                }
                0
            },
        };
        h.set_ip(ip);

        if h.ip == pc {
            proof {
                assert(views_of(hosts@) =~= spec_migrate(
                    macmap@,
                    *gw,
                    arps@,
                    pc,
                    result@.take(i + 1),
                ));
            }
        } else if h.ip == gw.ip {
            h.set_name(String::from_str("GATEWAY"));
            h.set_device_name(String::from_str("GATEWAY"));
            hosts.push(h);
            proof {
                assert(views_of(hosts@) =~= spec_migrate(
                    macmap@,
                    *gw,
                    arps@,
                    pc,
                    result@.take(i + 1),
                ));
            }
        } else {
            match arps.get(&h.ip) {
                Some(mac) => {
                    h.set_mac(*mac);
                    match macmap.get(&h.mac) {
                        Some(info) => h.set_info(info),
                        None => {
                            h.set_name(String::from_str("Unknown"));
                            h.set_device_name(String::from_str("Unknown"))
                        },
                    }
                },
                _ => {},
            }

            hosts.push(h);
            proof {
                assert(views_of(hosts@) =~= spec_migrate(
                    macmap@,
                    *gw,
                    arps@,
                    pc,
                    result@.take(i + 1),
                ));
            }
        }
    }
    proof {
        assert(result@.take(n as int) =~= result@);
    }
    hosts
}

/// Whether some record of the sequence has this address.
pub open spec fn spec_contains_ipv(s: Seq<HostV>, ip: u32) -> bool {
    exists|i: int| 0 <= i < s.len() && #[trigger] s[i].ip == ip
}

/// A snapshot holds an address exactly when its records, as contracts see
/// them, hold it.
pub proof fn lemma_views_contains(hosts: Seq<Host>, ip: u32)
    ensures
        spec_contains_ip(hosts, ip) <==> spec_contains_ipv(views_of(hosts), ip),
{
    let v = views_of(hosts);
    assert(forall|i: int| 0 <= i < hosts.len() ==> #[trigger] v[i] == hosts[i]@);
    if spec_contains_ip(hosts, ip) {
        let w = choose|i: int| 0 <= i < hosts.len() && #[trigger] hosts[i].ip == ip;
        assert(v[w].ip == ip);
    }
    if spec_contains_ipv(v, ip) {
        let w = choose|i: int| 0 <= i < v.len() && #[trigger] v[i].ip == ip;
        assert(hosts[w].ip == ip);
    }
}

/// Whether some scan-host record's first address reads as this address.
pub open spec fn spec_scan_contains_ip(s: Seq<net::Host>, ip: u32) -> bool {
    exists|i: int|
        0 <= i < s.len() && spec_parse_ipv4(net::spec_key(#[trigger] s[i])) == Some(ip)
}

/// The machine's own address never stands in the snapshot the builder
/// produces.
pub proof fn lemma_migrate_no_self(
    macmap: Map<u64, HostInfo>,
    gw: net::Gateway,
    arps: Map<u32, u64>,
    pc: u32,
    s: Seq<net::Host>,
)
    ensures
        !spec_contains_ipv(spec_migrate(macmap, gw, arps, pc, s), pc),
    decreases s.len(),
{
    if s.len() == 0 {
    } else {
        lemma_migrate_no_self(macmap, gw, arps, pc, s.drop_last());
        let m = spec_migrate(macmap, gw, arps, pc, s);
        let prev = spec_migrate(macmap, gw, arps, pc, s.drop_last());
        assert(forall|i: int| 0 <= i < prev.len() ==> prev[i] == m[i]);
        if spec_contains_ipv(m, pc) {
            let w = choose|i: int| 0 <= i < m.len() && #[trigger] m[i].ip == pc;
            if w < prev.len() {
                assert(prev[w].ip == pc);
                assert(spec_contains_ipv(prev, pc));
            }
        }
    }
}

/// The gateway's address stands in the snapshot whenever some scan-host
/// record reported it and it is not the machine's own.
pub proof fn lemma_migrate_gateway_present(
    macmap: Map<u64, HostInfo>,
    gw: net::Gateway,
    arps: Map<u32, u64>,
    pc: u32,
    s: Seq<net::Host>,
)
    requires
        gw.ip != pc,
        spec_scan_contains_ip(s, gw.ip),
    ensures
        spec_contains_ipv(spec_migrate(macmap, gw, arps, pc, s), gw.ip),
    decreases s.len(),
{
    let m = spec_migrate(macmap, gw, arps, pc, s);
    let prev = spec_migrate(macmap, gw, arps, pc, s.drop_last());
    let w = choose|i: int|
        0 <= i < s.len() && spec_parse_ipv4(net::spec_key(#[trigger] s[i])) == Some(gw.ip);
    assert(forall|i: int| 0 <= i < prev.len() ==> prev[i] == m[i]);
    if w == s.len() - 1 {
        assert(s.last() == s[w]);
        assert(spec_migrate_one(macmap, gw, arps, pc, s.last()) matches Some(hv) && hv.ip
            == gw.ip);
        assert(m[m.len() - 1].ip == gw.ip);
        assert(spec_contains_ipv(m, gw.ip));
    } else {
        assert(s.drop_last()[w] == s[w]);
        assert(spec_scan_contains_ip(s.drop_last(), gw.ip));
        lemma_migrate_gateway_present(macmap, gw, arps, pc, s.drop_last());
        let u = choose|i: int| 0 <= i < prev.len() && #[trigger] prev[i].ip == gw.ip;
        assert(m[u].ip == gw.ip);
        assert(spec_contains_ipv(m, gw.ip));
    }
}

/// The identity fallback chain: a hardware address the directory lacks
/// yields the labels Unknown and Unknown; one the directory knows yields
/// its configured fields, each blank field replaced by Unknown on its own,
/// the other kept.
pub proof fn lemma_resolution_fallback(
    macmap: Map<u64, HostInfo>,
    gw: net::Gateway,
    arps: Map<u32, u64>,
    pc: u32,
    sh: net::Host,
)
    requires
        net::spec_host_ok(sh),
        spec_parse_ipv4(net::spec_key(sh)) != Some(pc),
        spec_parse_ipv4(net::spec_key(sh)) != Some(gw.ip),
        arps.contains_key(spec_parse_ipv4(net::spec_key(sh))->Some_0),
    ensures
        ({
            let ip = spec_parse_ipv4(net::spec_key(sh))->Some_0;
            let mac = arps[ip];
            let r = spec_migrate_one(macmap, gw, arps, pc, sh);
            &&& !macmap.contains_key(mac) ==> r == Some(
                HostV { ip, mac, name: "Unknown"@, device_name: "Unknown"@ },
            )
            &&& (macmap.contains_key(mac) && spec_blank(macmap[mac].name@) && !spec_blank(
                macmap[mac].device_name@,
            )) ==> r == Some(
                HostV { ip, mac, name: "Unknown"@, device_name: macmap[mac].device_name@ },
            )
        }),
{
}

} // verus!
