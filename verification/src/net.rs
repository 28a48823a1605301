//! What a discovery round yields and how rounds combine: scan-host records
//! keyed by their first address, the multi-round union that deduplicates by
//! that key, and the neighbor table mapping network addresses to hardware
//! addresses.
use vstd::prelude::*;
use std::collections::HashMap;
use crate::addr::parse_ipv4;
use crate::addr::parse_mac;
use crate::addr::spec_parse_ipv4;
use crate::addr::spec_parse_mac;

verus! {

broadcast use vstd::std_specs::hash::group_hash_axioms;

/// The default gateway of the segment: its network and hardware address.
#[derive(Debug, Clone)]
pub struct Gateway {
    pub ip: u32,
    pub mac: u64,
}

/// An address range to scan: base address and prefix length.
#[derive(Debug, Clone)]
pub struct ScanInfo {
    pub addr: u32,
    pub mask: u8,
}

/// Probe timing figures reported for a scanned host.
#[derive(Debug)]
pub struct Times {
    pub srtt: String,
    pub rttvar: String,
    pub to: String,
}

/// One address record of a scanned host.
#[derive(Debug)]
pub struct Address {
    pub addr: String,
    pub addrtype: String,
    pub vendor: String,
}

/// Reachability reported for a scanned host.
#[derive(Debug)]
pub struct Status {
    pub state: String,
    pub reason: String,
    pub reason_ttl: String,
}

/// One host as a discovery round reports it: a reachability status and at
/// least one address. Two records mean the same host exactly when their
/// first addresses match.
#[derive(Debug)]
pub struct Host {
    pub status: Status,
    pub address: Vec<Address>,
}

/// A whole scan report: tool description fields and the hosts found.
#[derive(Debug)]
pub struct NmapRun {
    pub scanner: String,
    pub args: String,
    pub start: String,
    pub startstr: String,
    pub version: String,
    pub xmloutputversion: String,
    pub hosts: Vec<Host>,
}

impl Clone for Status {
    /// An exact copy, field for field.
    fn clone(&self) -> (r: Status)
        ensures
            r == *self,
    {
        Status {
            state: self.state.clone(),
            reason: self.reason.clone(),
            reason_ttl: self.reason_ttl.clone(),
        }
    }
}

impl Clone for Address {
    /// An exact copy, field for field.
    fn clone(&self) -> (r: Address)
        ensures
            r == *self,
    {
        Address {
            addr: self.addr.clone(),
            addrtype: self.addrtype.clone(),
            vendor: self.vendor.clone(),
        }
    }
}

impl Clone for Host {
    /// A copy with the same status and the same address records.
    fn clone(&self) -> (r: Host)
        ensures
            r.status == self.status,
            r.address@ == self.address@,
    {
        let mut address: Vec<Address> = Vec::new();
        let n = self.address.len();
        for i in 0..n
            invariant
                n == self.address@.len(),
                address@ =~= self.address@.take(i as int),
        {
            address.push(self.address[i].clone());
            proof {
                assert(self.address@.take(i + 1) =~= self.address@.take(i as int).push(
                    self.address@[i as int],
                ));
            }
        }
        proof {
            assert(self.address@.take(n as int) =~= self.address@);
        }
        Host { status: self.status.clone(), address }
    }
}

/// Default label for a host whose identity is not configured.
pub fn get_unknown() -> (r: String)
    ensures
        r@ == "Unknown"@,
{
    String::from_str("Unknown")
}

/// A scan-host record carries at least one address.
pub open spec fn spec_has_addr(h: Host) -> bool {
    h.address@.len() >= 1
}

/// The key a scan-host record is deduplicated by: its first address text.
pub open spec fn spec_key(h: Host) -> Seq<char> {
    h.address@[0].addr@
}

/// Whether some record of the sequence has this key.
pub open spec fn spec_contains_key(s: Seq<Host>, key: Seq<char>) -> bool {
    exists|i: int| 0 <= i < s.len() && spec_key(#[trigger] s[i]) == key
}

/// The keys present in a sequence of scan-host records.
pub open spec fn key_set(s: Seq<Host>) -> Set<Seq<char>> {
    Set::new(|key: Seq<char>| spec_contains_key(s, key))
}

/// Every record of the sequence carries at least one address.
pub open spec fn spec_all_have_addr(s: Seq<Host>) -> bool {
    forall|i: int| 0 <= i < s.len() ==> spec_has_addr(#[trigger] s[i])
}

/// A record a round may hand on: it carries an address, and its first
/// address is a well-formed dotted-decimal text.
pub open spec fn spec_host_ok(h: Host) -> bool {
    spec_has_addr(h) && spec_parse_ipv4(spec_key(h)) is Some
}

/// Every record of the round is one a round may hand on.
pub open spec fn spec_round_ok(s: Seq<Host>) -> bool {
    forall|i: int| 0 <= i < s.len() ==> spec_host_ok(#[trigger] s[i])
}

/// Whether some round of the cycle reported this record.
pub open spec fn spec_from_rounds(rounds: Seq<Seq<Host>>, h: Host) -> bool {
    exists|t: int| 0 <= t < rounds.len() && #[trigger] rounds[t].contains(h)
}

/// One round folded into the union built so far: each record is appended
/// exactly when its key is not present yet, so the first occurrence wins.
pub open spec fn spec_union_round(acc: Seq<Host>, round: Seq<Host>) -> Seq<Host>
    decreases round.len(),
{
    if round.len() == 0 {
        acc
    } else {
        let prev = spec_union_round(acc, round.drop_last());
        if spec_contains_key(prev, spec_key(round.last())) {
            prev
        } else {
            prev.push(round.last())
        }
    }
}

/// The union of all rounds, first round first, deduplicated by key.
pub open spec fn spec_aggregate(rounds: Seq<Seq<Host>>) -> Seq<Host>
    decreases rounds.len(),
{
    if rounds.len() == 0 {
        Seq::empty()
    } else {
        spec_union_round(spec_aggregate(rounds.drop_last()), rounds.last())
    }
}

/// No two records of the sequence share a key.
pub open spec fn spec_distinct_keys(s: Seq<Host>) -> bool {
    forall|i: int, j: int| 0 <= i < j < s.len() ==> spec_key(s[i]) != spec_key(s[j])
}

/// Whether some record of the vector has this key.
fn contains_key(hosts: &Vec<Host>, key: &String) -> (b: bool)
    requires
        spec_all_have_addr(hosts@),
    ensures
        b == spec_contains_key(hosts@, key@),
{
    let n = hosts.len();
    for i in 0..n
        invariant
            n == hosts@.len(),
            spec_all_have_addr(hosts@),
            forall|k: int| 0 <= k < i ==> spec_key(#[trigger] hosts@[k]) != key@,
    {
        if hosts[i].address[0].addr == *key {
            return true;
        }
    }
    false
}

/// Unions the rounds of one cycle into a single deduplicated sequence of
/// scan-host records: a record is kept exactly when no earlier round, nor
/// an earlier record of its own round, reported its first address; so every
/// discovered address appears exactly once, under the record its first
/// discovery reported.
pub fn aggregate_rounds(rounds: Vec<Vec<Host>>) -> (r: Vec<Host>)
    requires
        forall|i: int| 0 <= i < rounds@.len() ==> spec_all_have_addr(#[trigger] rounds@[i]@),
    ensures
        r@ == spec_aggregate(rounds@.map_values(|v: Vec<Host>| v@)),
        spec_distinct_keys(r@),
        spec_all_have_addr(r@),
        forall|k: int|
            0 <= k < r@.len() ==> spec_from_rounds(
                rounds@.map_values(|v: Vec<Host>| v@),
                #[trigger] r@[k],
            ),
{
    let ghost rview = rounds@.map_values(|v: Vec<Host>| v@);
    proof {
        assert(rview.len() == rounds@.len());
        assert(forall|k: int| 0 <= k < rounds@.len() ==> #[trigger] rview[k] == rounds@[k]@);
    }
    let mut rest = rounds;
    let mut r: Vec<Host> = Vec::new();
    let ghost mut i: int = 0;
    while rest.len() > 0
        invariant
            0 <= i,
            i + rest@.len() == rview.len(),
            forall|k: int| 0 <= k < rest@.len() ==> #[trigger] rest@[k]@ == rview[i + k],
            forall|k: int| 0 <= k < rview.len() ==> spec_all_have_addr(#[trigger] rview[k]),
            r@ == spec_aggregate(rview.take(i)),
            spec_distinct_keys(r@),
            spec_all_have_addr(r@),
            forall|k: int| 0 <= k < r@.len() ==> spec_from_rounds(rview, #[trigger] r@[k]),
        decreases rest@.len(),
    {
        let mut round = rest.remove(0);
        let ghost rv = rview[i];
        proof {
            assert(round@ == rv);
            assert(forall|k: int|
                0 <= k < rest@.len() ==> #[trigger] rest@[k]@ == rview[i + 1 + k]);
        }
        let ghost mut j: int = 0;
        while round.len() > 0
            invariant
                0 <= i < rview.len(),
                rv == rview[i],
                0 <= j,
                j + round@.len() == rv.len(),
                forall|k: int| 0 <= k < round@.len() ==> #[trigger] round@[k] == rv[j + k],
                spec_all_have_addr(rv),
                r@ == spec_union_round(spec_aggregate(rview.take(i)), rv.take(j)),
                spec_distinct_keys(r@),
                spec_all_have_addr(r@),
                forall|k: int| 0 <= k < r@.len() ==> spec_from_rounds(rview, #[trigger] r@[k]),
            decreases round@.len(),
        {
            let h = round.remove(0);
            proof {
                assert(h == rv[j as int]);
                assert(spec_has_addr(rv[j as int]));
                assert(rv.take(j + 1).drop_last() =~= rv.take(j as int));
                assert(rv.take(j + 1).last() == rv[j as int]);
                assert(forall|k: int|
                    0 <= k < round@.len() ==> #[trigger] round@[k] == rv[j + 1 + k]);
            }
            if !contains_key(&r, &h.address[0].addr) {
                proof {
                    assert(0 <= j < rv.len());
                    assert(rv[j] == h);
                    assert(exists|q: int| 0 <= q < rv.len() && #[trigger] rv[q] == h);
                    assert(rview[i].contains(h));
                    assert(spec_from_rounds(rview, h));
                }
                r.push(h);
            }
            proof {
                j = j + 1;
            }
        }
        proof {
            assert(rv.take(j) =~= rv);
            assert(rview.take(i + 1).drop_last() =~= rview.take(i as int));
            assert(rview.take(i + 1).last() == rview[i]);
        }
        proof {
            i = i + 1;
        }
    }
    proof {
        assert(rview.take(i) =~= rview);
    }
    r
}

/// A key is in the union of one more round exactly when it was already
/// present or that round reported it.
pub proof fn lemma_union_round_key(acc: Seq<Host>, round: Seq<Host>, key: Seq<char>)
    ensures
        spec_contains_key(spec_union_round(acc, round), key) <==> (spec_contains_key(acc, key)
            || spec_contains_key(round, key)),
    decreases round.len(),
{
    if round.len() == 0 {
    } else {
        lemma_union_round_key(acc, round.drop_last(), key);
        let u = spec_union_round(acc, round);
        let prev = spec_union_round(acc, round.drop_last());
        assert(forall|i: int| 0 <= i < round.len() - 1 ==> round.drop_last()[i] == round[i]);
        assert(forall|i: int| 0 <= i < prev.len() ==> prev[i] == u[i]);
        if spec_contains_key(round, key) {
            let w = choose|i: int| 0 <= i < round.len() && spec_key(#[trigger] round[i]) == key;
            if w < round.len() - 1 {
                assert(spec_key(round.drop_last()[w]) == key);
                assert(spec_contains_key(round.drop_last(), key));
            }
        }
        if spec_contains_key(prev, key) {
            let w = choose|i: int| 0 <= i < prev.len() && spec_key(#[trigger] prev[i]) == key;
            assert(spec_key(u[w]) == key);
            assert(spec_contains_key(u, key));
        }
        if !spec_contains_key(prev, spec_key(round.last())) {
            assert(u == prev.push(round.last()));
            if spec_key(round.last()) == key {
                assert(spec_key(u[u.len() - 1]) == key);
                assert(spec_contains_key(u, key));
            }
        }
        if spec_contains_key(u, key) {
            let w = choose|i: int| 0 <= i < u.len() && spec_key(#[trigger] u[i]) == key;
            if w < prev.len() {
                assert(spec_key(prev[w]) == key);
                assert(spec_contains_key(prev, key));
            } else {
                assert(u[w] == round.last());
                assert(spec_key(round[round.len() - 1]) == key);
                assert(spec_contains_key(round, key));
            }
        }
    }
}

/// A key is in the union of all rounds exactly when some round reported
/// it.
pub proof fn lemma_aggregate_key(rounds: Seq<Seq<Host>>, key: Seq<char>)
    ensures
        spec_contains_key(spec_aggregate(rounds), key) <==> exists|t: int|
            0 <= t < rounds.len() && spec_contains_key(#[trigger] rounds[t], key),
    decreases rounds.len(),
{
    if rounds.len() == 0 {
    } else {
        lemma_aggregate_key(rounds.drop_last(), key);
        lemma_union_round_key(spec_aggregate(rounds.drop_last()), rounds.last(), key);
        assert(forall|i: int| 0 <= i < rounds.len() - 1 ==> rounds.drop_last()[i] == rounds[i]);
        if spec_contains_key(spec_aggregate(rounds), key) {
            if spec_contains_key(spec_aggregate(rounds.drop_last()), key) {
                let t = choose|t: int|
                    0 <= t < rounds.drop_last().len() && spec_contains_key(
                        #[trigger] rounds.drop_last()[t],
                        key,
                    );
                assert(spec_contains_key(rounds[t], key));
            } else {
                assert(spec_contains_key(rounds[rounds.len() - 1], key));
            }
        }
        if exists|t: int| 0 <= t < rounds.len() && spec_contains_key(#[trigger] rounds[t], key) {
            let t = choose|t: int|
                0 <= t < rounds.len() && spec_contains_key(#[trigger] rounds[t], key);
            if t < rounds.len() - 1 {
                assert(spec_contains_key(rounds.drop_last()[t], key));
            } else {
                assert(spec_contains_key(rounds.last(), key));
            }
        }
    }
}

/// Aggregating two rounds in either order discovers the same set of keys.
pub proof fn lemma_aggregate_two_rounds_commute(r1: Seq<Host>, r2: Seq<Host>)
    ensures
        key_set(spec_aggregate(seq![r1, r2])) == key_set(spec_aggregate(seq![r2, r1])),
{
    assert forall|key: Seq<char>|
        key_set(spec_aggregate(seq![r1, r2])).contains(key) == key_set(
            spec_aggregate(seq![r2, r1]),
        ).contains(key) by {
        let a = seq![r1, r2];
        let b = seq![r2, r1];
        lemma_aggregate_key(a, key);
        lemma_aggregate_key(b, key);
        assert(a[0] == r1 && a[1] == r2);
        assert(b[0] == r2 && b[1] == r1);
        if spec_contains_key(spec_aggregate(a), key) {
            let t = choose|t: int| 0 <= t < a.len() && spec_contains_key(#[trigger] a[t], key);
            if t == 0 {
                assert(spec_contains_key(b[1], key));
            } else {
                assert(spec_contains_key(b[0], key));
            }
        }
        if spec_contains_key(spec_aggregate(b), key) {
            let t = choose|t: int| 0 <= t < b.len() && spec_contains_key(#[trigger] b[t], key);
            if t == 0 {
                assert(spec_contains_key(a[1], key));
            } else {
                assert(spec_contains_key(a[0], key));
            }
        }
    }
    assert(key_set(spec_aggregate(seq![r1, r2])) =~= key_set(spec_aggregate(seq![r2, r1])));
}

/// Aggregating a round beside itself discovers no key beyond the round
/// alone.
pub proof fn lemma_aggregate_idempotent(r1: Seq<Host>)
    ensures
        key_set(spec_aggregate(seq![r1, r1])) == key_set(spec_aggregate(seq![r1])),
{
    assert forall|key: Seq<char>|
        key_set(spec_aggregate(seq![r1, r1])).contains(key) == key_set(
            spec_aggregate(seq![r1]),
        ).contains(key) by {
        let a = seq![r1, r1];
        let b = seq![r1];
        lemma_aggregate_key(a, key);
        lemma_aggregate_key(b, key);
        assert(a[0] == r1 && a[1] == r1);
        assert(b[0] == r1);
        if spec_contains_key(spec_aggregate(a), key) {
            let t = choose|t: int| 0 <= t < a.len() && spec_contains_key(#[trigger] a[t], key);
            assert(spec_contains_key(b[0], key));
        }
        if spec_contains_key(spec_aggregate(b), key) {
            let t = choose|t: int| 0 <= t < b.len() && spec_contains_key(#[trigger] b[t], key);
            assert(spec_contains_key(a[0], key));
        }
    }
    assert(key_set(spec_aggregate(seq![r1, r1])) =~= key_set(spec_aggregate(seq![r1])));
}

/// A neighbor-table entry is a pair of texts: a network address and a
/// hardware address.
pub open spec fn spec_entry_valid(e: (String, String)) -> bool {
    spec_parse_ipv4(e.0@) is Some && spec_parse_mac(e.1@) is Some
}

/// The mapping a list of neighbor-table entries builds, in order: entries
/// with an all-zero hardware address are discarded as incomplete, later
/// entries override earlier ones.
pub open spec fn spec_neighbor_table(entries: Seq<(String, String)>) -> Map<u32, u64>
    decreases entries.len(),
{
    if entries.len() == 0 {
        Map::empty()
    } else {
        let prev = spec_neighbor_table(entries.drop_last());
        let ip = spec_parse_ipv4(entries.last().0@)->Some_0;
        let mac = spec_parse_mac(entries.last().1@)->Some_0;
        if mac == 0 {
            prev
        } else {
            prev.insert(ip, mac)
        }
    }
}

/// Builds the neighbor table from textual entries, discarding entries
/// whose hardware address is all zero.
pub fn build_neighbor_table(entries: &Vec<(String, String)>) -> (m: HashMap<u32, u64>)
    requires
        forall|i: int| 0 <= i < entries@.len() ==> spec_entry_valid(#[trigger] entries@[i]),
    ensures
        m@ == spec_neighbor_table(entries@),
{
    let mut m: HashMap<u32, u64> = HashMap::new();
    let n = entries.len();
    for i in 0..n
        invariant
            n == entries@.len(),
            forall|k: int| 0 <= k < entries@.len() ==> spec_entry_valid(#[trigger] entries@[k]),
            m@ == spec_neighbor_table(entries@.take(i as int)),
    {
        let ip: u32 = match parse_ipv4(entries[i].0.as_str()) {
            Some(v) => v,
            None => {
                proof {
                    assert(false);
                }
                0
            },
        };
        let mac: u64 = match parse_mac(entries[i].1.as_str()) {
            Some(v) => v,
            None => {
                proof {
                    assert(false);
                }
                0
            },
        };
        if mac != 0 {
            m.insert(ip, mac);
        }
        proof {
            assert(entries@.take(i + 1).drop_last() =~= entries@.take(i as int));
            assert(entries@.take(i + 1).last() == entries@[i as int]);
        }
    }
    proof {
        assert(entries@.take(n as int) =~= entries@);
    }
    m
}

} // verus!
