//! One polling cycle as a pure step: from the previous snapshot and the
//! cycle's discovery inputs to the new snapshot and the gated transition
//! batch. The surrounding loop only performs what is decided here.
use vstd::prelude::*;
use std::collections::HashMap;
use crate::config::HostInfo;
use crate::db;
use crate::db::Transition;
use crate::db::spec_migrate;
use crate::db::spec_transitions;
use crate::db::views_of;
use crate::net;

verus! {

/// The distinct process exit status for each fatal condition.
#[derive(Debug, Clone, Copy, PartialEq, Eq, Structural)]
pub enum ExitCodes {
    RootRequired,
    ConfigFileDoesNotExist,
    ConfigInvalid,
    NmapNotInstalled,
    NmapRunError,
    ResultWriteError,
    RootCheckError,
    RootCommandError,
    HostnameNotFound,
    HostnameRunError,
    HostnameParseError,
    DBCreateError,
}

impl ExitCodes {
    /// The numeric exit status of this condition.
    pub fn code(&self) -> (r: i32)
        ensures
            r == match *self {
                ExitCodes::RootRequired => 1int,
                ExitCodes::ConfigFileDoesNotExist => 2,
                ExitCodes::ConfigInvalid => 3,
                ExitCodes::NmapNotInstalled => 4,
                ExitCodes::NmapRunError => 5,
                ExitCodes::ResultWriteError => 6,
                ExitCodes::RootCheckError => 7,
                ExitCodes::RootCommandError => 8,
                ExitCodes::HostnameNotFound => 9,
                ExitCodes::HostnameRunError => 10,
                ExitCodes::HostnameParseError => 11,
                ExitCodes::DBCreateError => 12,
            },
    {
        match *self {
            ExitCodes::RootRequired => 1,
            ExitCodes::ConfigFileDoesNotExist => 2,
            ExitCodes::ConfigInvalid => 3,
            ExitCodes::NmapNotInstalled => 4,
            ExitCodes::NmapRunError => 5,
            ExitCodes::ResultWriteError => 6,
            ExitCodes::RootCheckError => 7,
            ExitCodes::RootCommandError => 8,
            ExitCodes::HostnameNotFound => 9,
            ExitCodes::HostnameRunError => 10,
            ExitCodes::HostnameParseError => 11,
            ExitCodes::DBCreateError => 12,
        }
    }
}

/// The severity filter the logger runs under.
#[derive(Debug, Clone, Copy, PartialEq, Eq, Structural)]
pub enum LogLevel {
    Off,
    Error,
    Warn,
    Info,
    Debug,
    Trace,
}

/// The filter the command line asks for: quiet suppresses everything;
/// otherwise each repetition of the verbosity flag widens the filter one
/// step, clamped at the fourth.
pub open spec fn spec_verbosity_level(verbose: u64, quiet: bool) -> LogLevel {
    if quiet {
        LogLevel::Off
    } else if verbose == 0 {
        LogLevel::Error
    } else if verbose == 1 {
        LogLevel::Warn
    } else if verbose == 2 {
        LogLevel::Info
    } else if verbose == 3 {
        LogLevel::Debug
    } else {
        LogLevel::Trace
    }
}

/// Maps the command line's quiet and verbosity flags to the severity
/// filter.
pub fn verbosity_level(verbose: u64, quiet: bool) -> (r: LogLevel)
    ensures
        r == spec_verbosity_level(verbose, quiet),
{
    if quiet {
        LogLevel::Off
    } else {
        match verbose {
            0 => LogLevel::Error,
            1 => LogLevel::Warn,
            2 => LogLevel::Info,
            3 => LogLevel::Debug,
            _ => LogLevel::Trace,
        }
    }
}

/// One polling cycle's decisions, as a pure step: the rounds' results are
/// unioned, resolved and assembled into the new snapshot, and the gated
/// transition batch against the previous snapshot is computed. The caller
/// keeps the new snapshot as the next cycle's baseline, dispatches the
/// batch, and sleeps. The first cycle has no baseline yet and dispatches
/// nothing: its snapshot only becomes the baseline.
pub fn cycle(
    olds: Option<&Vec<db::Host>>,
    rounds: Vec<Vec<net::Host>>,
    macmap: &HashMap<u64, HostInfo>,
    gw: &net::Gateway,
    arps: HashMap<u32, u64>,
    pc: u32,
) -> (r: (Vec<db::Host>, Vec<Transition>))
    requires
        forall|i: int| 0 <= i < rounds@.len() ==> net::spec_round_ok(#[trigger] rounds@[i]@),
    ensures
        views_of(r.0@) == spec_migrate(
            macmap@,
            *gw,
            arps@,
            pc,
            net::spec_aggregate(rounds@.map_values(|v: Vec<net::Host>| v@)),
        ),
        r.1@ == match olds {
            Some(o) => spec_transitions(o@, r.0@),
            None => Seq::<Transition>::empty(),
        },
{
    let ghost rview = rounds@.map_values(|v: Vec<net::Host>| v@);
    proof {
        assert(forall|i: int| 0 <= i < rounds@.len() ==> #[trigger] rview[i] == rounds@[i]@);
        assert(forall|i: int|
            0 <= i < rounds@.len() ==> net::spec_all_have_addr(#[trigger] rounds@[i]@));
    }
    let found = net::aggregate_rounds(rounds);
    proof {
        assert forall|k: int| 0 <= k < found@.len() implies net::spec_host_ok(
            #[trigger] found@[k],
        ) by {
            assert(net::spec_from_rounds(rview, found@[k]));
            let t = choose|t: int| 0 <= t < rview.len() && #[trigger] rview[t].contains(found@[k]);
            let j = choose|j: int| 0 <= j < rview[t].len() && rview[t][j] == found@[k];
            assert(net::spec_host_ok(rview[t][j]));
        }
    }
    let news = db::migrate_to_host_list(macmap, gw, found, arps, pc);
    let trans = match olds {
        Some(o) => db::get_notifies(o, &news),
        None => Vec::new(),
    };
    (news, trans)
}

/// Across any two consecutive snapshots the builder produced, the
/// machine's own address is never the subject of a transition; nor is the
/// gateway's address, provided both cycles' scans reported it. A scan that
/// reports the gateway in one cycle and misses it in the other does make
/// the gateway a subject, so that proviso cannot be dropped.
pub proof fn lemma_special_hosts_never_subjects(
    macmap: Map<u64, HostInfo>,
    gw: net::Gateway,
    arps1: Map<u32, u64>,
    arps2: Map<u32, u64>,
    pc: u32,
    scan1: Seq<net::Host>,
    scan2: Seq<net::Host>,
    prev: Seq<db::Host>,
    cur: Seq<db::Host>,
)
    requires
        views_of(prev) == spec_migrate(macmap, gw, arps1, pc, scan1),
        views_of(cur) == spec_migrate(macmap, gw, arps2, pc, scan2),
    ensures
        forall|k: int|
            0 <= k < spec_transitions(prev, cur).len() ==> (#[trigger] spec_transitions(
                prev,
                cur,
            )[k]).host.ip != pc,
        (gw.ip != pc && db::spec_scan_contains_ip(scan1, gw.ip) && db::spec_scan_contains_ip(
            scan2,
            gw.ip,
        )) ==> forall|k: int|
            0 <= k < spec_transitions(prev, cur).len() ==> (#[trigger] spec_transitions(
                prev,
                cur,
            )[k]).host.ip != gw.ip,
{
    assert forall|k: int|
        0 <= k < spec_transitions(prev, cur).len() implies (#[trigger] spec_transitions(
        prev,
        cur,
    )[k]).host.ip != pc by {
        db::lemma_transition_subjects(prev, cur, k);
        db::lemma_views_contains(prev, pc);
        db::lemma_views_contains(cur, pc);
        db::lemma_migrate_no_self(macmap, gw, arps1, pc, scan1);
        db::lemma_migrate_no_self(macmap, gw, arps2, pc, scan2);
    }
    if gw.ip != pc && db::spec_scan_contains_ip(scan1, gw.ip) && db::spec_scan_contains_ip(
        scan2,
        gw.ip,
    ) {
        assert forall|k: int|
            0 <= k < spec_transitions(prev, cur).len() implies (#[trigger] spec_transitions(
            prev,
            cur,
        )[k]).host.ip != gw.ip by {
            db::lemma_transition_subjects(prev, cur, k);
            db::lemma_views_contains(prev, gw.ip);
            db::lemma_views_contains(cur, gw.ip);
            db::lemma_migrate_gateway_present(macmap, gw, arps1, pc, scan1);
            db::lemma_migrate_gateway_present(macmap, gw, arps2, pc, scan2);
        }
    }
}

} // verus!
