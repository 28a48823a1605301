//! Operational settings and the identity directory: a static mapping from
//! hardware address to a configured name and device label, built once from
//! a validated host list.
use vstd::prelude::*;
use std::collections::HashMap;
use crate::addr::parse_mac;
use crate::addr::spec_parse_mac;

verus! {

broadcast use vstd::std_specs::hash::group_hash_axioms;

/// Which directions of presence change are worth a notification.
#[derive(Debug, Clone, Copy, PartialEq, Eq, Structural)]
pub enum NotifyType {
    Nothing,
    Connected,
    Disconnected,
    All,
}

/// The direction of a presence change.
#[derive(Debug, Clone, Copy, PartialEq, Eq, Structural)]
pub enum ConnectType {
    Connected,
    Disconnected,
}

/// Whether a discovered host matched the identity directory.
#[derive(Debug, Clone, Copy, PartialEq, Eq, Structural)]
pub enum AwarnessType {
    Known,
    Unknown,
}

/// How loading the configuration failed.
#[derive(Debug, Clone, Copy, PartialEq, Eq, Structural)]
pub enum ErrorType {
    ReadError,
    SerdeError,
    ParseError,
}

/// Cycle interval, round count and notification flags.
#[derive(Debug, Clone)]
pub struct General {
    pub interval: u64,
    pub round: u8,
    pub notify_on_connect: bool,
    pub notify_on_disconnect: bool,
}

/// One configured host: hardware address text, display name, device label.
#[derive(Debug, Clone)]
pub struct Host {
    pub mac: String,
    pub name: String,
    pub device: String,
}

/// The identity a configured hardware address maps to.
#[derive(Debug, Clone)]
pub struct HostInfo {
    pub name: String,
    pub device_name: String,
}

/// The loaded configuration: settings, host list, and whether the process
/// runs with elevated privilege.
#[derive(Debug, Clone)]
pub struct Config {
    pub general: General,
    pub hosts: Vec<Host>,
    pub is_root: bool,
}

impl Config {
    /// Every configured hardware address is syntactically valid.
    pub open spec fn spec_valid(&self) -> bool {
        forall|i: int|
            0 <= i < self.hosts@.len() ==> spec_parse_mac(#[trigger] self.hosts@[i].mac@) is Some
    }

    /// Checks that every configured hardware address parses.
    pub fn is_valid(&self) -> (r: bool)
        ensures
            r == self.spec_valid(),
    {
        let n = self.hosts.len();
        for i in 0..n
            invariant
                n == self.hosts@.len(),
                forall|k: int| 0 <= k < i ==> spec_parse_mac(#[trigger] self.hosts@[k].mac@) is Some,
        {
            if parse_mac(self.hosts[i].mac.as_str()).is_none() {
                return false;
            }
        }
        true
    }
}

/// The directory a host list builds: each entry's hardware address mapped
/// to its identity, later entries overriding earlier ones.
pub open spec fn spec_mac_info_map(hosts: Seq<Host>) -> Map<u64, HostInfo>
    decreases hosts.len(),
{
    if hosts.len() == 0 {
        Map::empty()
    } else {
        spec_mac_info_map(hosts.drop_last()).insert(
            spec_parse_mac(hosts.last().mac@)->Some_0,
            HostInfo { name: hosts.last().name, device_name: hosts.last().device },
        )
    }
}

/// Builds the identity directory from a validated configuration.
pub fn get_mac_info_map(config: Config) -> (m: HashMap<u64, HostInfo>)
    requires
        config.spec_valid(),
    ensures
        m@ == spec_mac_info_map(config.hosts@),
{
    let mut m: HashMap<u64, HostInfo> = HashMap::new();
    let n = config.hosts.len();
    for i in 0..n
        invariant
            n == config.hosts@.len(),
            config.spec_valid(),
            m@ == spec_mac_info_map(config.hosts@.take(i as int)),
    {
        let h = &config.hosts[i];
        let mac: u64 = match parse_mac(h.mac.as_str()) {
            Some(v) => v,
            None => {
                proof {
                    assert(false);
                }
                0
            },
        };
        m.insert(mac, HostInfo { name: h.name.clone(), device_name: h.device.clone() });
        proof {
            assert(config.hosts@.take(i + 1).drop_last() =~= config.hosts@.take(i as int));
            assert(config.hosts@.take(i + 1).last() == config.hosts@[i as int]);
        }
    }
    proof {
        assert(config.hosts@.take(n as int) =~= config.hosts@);
    }
    m
}

} // verus!
