use vstd::prelude::*;

use crate::agg::{saturate, sum_where};
use crate::rate::{RateTracker, rate_of, spaced_enough};
use crate::text::{is_prefix_of, same_text, starts_with};

verus! {

/// What `str::to_lowercase` makes of a text.
pub uninterp spec fn lower_of(s: Seq<char>) -> Seq<char>;

/// Relies on `str::to_lowercase`: its result depends on the characters alone.
#[verifier::external_body]
fn to_lowercase(s: &str) -> (r: String)
    ensures
        r@ == lower_of(s@),
{
    s.to_lowercase()
}

/// Name prefixes of virtual, tunnel and container interfaces.
pub open spec fn virtual_prefixes() -> Seq<Seq<char>> {
    seq![
        "veth"@, "docker"@, "br-"@, "virbr"@, "vnet"@, "vmnet"@, "vbox"@, "tap"@, "tun"@,
        "dummy"@, "bond"@, "team"@, "wg"@, "tailscale"@, "utun"@, "gif"@, "stf"@, "awdl"@,
        "llw"@, "ap"@, "p2p"@,
    ]
}

fn virtual_prefix_list() -> (r: Vec<&'static str>)
    ensures
        r@.len() == virtual_prefixes().len(),
        forall|k: int| 0 <= k < r@.len() ==> (#[trigger] r@[k])@ == virtual_prefixes()[k],
{
    let r = vec![
        "veth", "docker", "br-", "virbr", "vnet", "vmnet", "vbox", "tap", "tun", "dummy", "bond",
        "team", "wg", "tailscale", "utun", "gif", "stf", "awdl", "llw", "ap", "p2p",
    ];
    assert(r@.len() == 21);
    r
}

/// Whether a lowercased name begins with a virtual-interface prefix.
pub open spec fn has_virtual_prefix(lowered: Seq<char>) -> bool {
    exists|k: int| 0 <= k < virtual_prefixes().len() && is_prefix_of(#[trigger] virtual_prefixes()[k], lowered)
}

/// Whether an interface counts as physical, from its name, its lowercased name and
/// the operating system's own "virtual device" flag: not a loopback, no virtual
/// prefix, not flagged virtual.
pub open spec fn is_physical_spec(name: Seq<char>, lowered: Seq<char>, os_virtual: bool) -> bool {
    &&& name != "lo"@
    &&& name != "lo0"@
    &&& !has_virtual_prefix(lowered)
    &&& !os_virtual
}

/// `is_physical_spec` on a name and its lowercased form.
pub fn is_physical_name(name: &str, lowered: &str, os_virtual: bool) -> (r: bool)
    ensures
        r == is_physical_spec(name@, lowered@, os_virtual),
{
    if same_text(name, "lo") || same_text(name, "lo0") || os_virtual {
        return false;
    }
    let prefixes = virtual_prefix_list();
    let mut i: usize = 0;
    while i < prefixes.len()
        invariant
            i <= prefixes@.len(),
            prefixes@.len() == virtual_prefixes().len(),
            forall|k: int| 0 <= k < prefixes@.len() ==> (#[trigger] prefixes@[k])@ == virtual_prefixes()[k],
            forall|k: int| 0 <= k < i ==> !is_prefix_of(#[trigger] virtual_prefixes()[k], lowered@),
        decreases prefixes.len() - i,
    {
        if starts_with(lowered, prefixes[i]) {
            assert(prefixes@[i as int]@ == virtual_prefixes()[i as int]);
            return false;
        }
        i = i + 1;
    }
    true
}

/// Whether interface `name` is a physical one (the operating system flags virtual
/// devices through `os_virtual` where it can).
pub fn is_physical_interface(name: &str, os_virtual: bool) -> (r: bool)
    ensures
        r == is_physical_spec(name@, lower_of(name@), os_virtual),
{
    let lowered = to_lowercase(name);
    is_physical_name(name, lowered.as_str(), os_virtual)
}

/// Counters of one network interface.
pub struct NetworkInterface {
    pub name: String,
    pub mac: Option<String>,
    /// Link speed in Mbit/s.
    pub speed: Option<u32>,
    pub rx_bytes: u64,
    pub tx_bytes: u64,
    pub rx_packets: u64,
    pub tx_packets: u64,
}

/// One interface as the operating system reports it.
pub struct InterfaceSample {
    pub iface: NetworkInterface,
    /// The operating system lists the device as virtual.
    pub os_virtual: bool,
}

/// Network part of a snapshot: the physical interfaces, their cumulative totals and
/// the current throughput in bytes per second.
pub struct NetworkMetrics {
    pub interfaces: Vec<NetworkInterface>,
    pub total_rx: u64,
    pub total_tx: u64,
    pub rx_speed: u64,
    pub tx_speed: u64,
}

pub open spec fn physical_sample() -> spec_fn(InterfaceSample) -> bool {
    |s: InterfaceSample| is_physical_spec(s.iface.name@, lower_of(s.iface.name@), s.os_virtual)
}

pub open spec fn sample_rx() -> spec_fn(InterfaceSample) -> u64 {
    |s: InterfaceSample| s.iface.rx_bytes
}

pub open spec fn sample_tx() -> spec_fn(InterfaceSample) -> u64 {
    |s: InterfaceSample| s.iface.tx_bytes
}

/// The interfaces of the physical samples, in order.
pub open spec fn physical_ifaces(s: Seq<InterfaceSample>) -> Seq<NetworkInterface> {
    s.filter(physical_sample()).map_values(|x: InterfaceSample| x.iface)
}

/// A copy of an interface record.
pub fn copy_interface(i: &NetworkInterface) -> (c: NetworkInterface)
    ensures
        c == *i,
{
    let mac = match &i.mac {
        Some(m) => Some(m.clone()),
        None => None,
    };
    NetworkInterface {
        name: i.name.clone(),
        mac,
        speed: i.speed,
        rx_bytes: i.rx_bytes,
        tx_bytes: i.tx_bytes,
        rx_packets: i.rx_packets,
        tx_packets: i.tx_packets,
    }
}

/// Builds the network part of a snapshot taken at `now_ms`: keeps the physical
/// interfaces, sums their counters (saturating) and feeds the totals to `tracker`.
pub fn collect_network(tracker: &mut RateTracker, samples: &Vec<InterfaceSample>, now_ms: u64) -> (r: NetworkMetrics)
    ensures
        r.interfaces@ == physical_ifaces(samples@),
        r.total_rx == saturate(sum_where(samples@, physical_sample(), sample_rx())),
        r.total_tx == saturate(sum_where(samples@, physical_sample(), sample_tx())),
        spaced_enough(old(tracker).last_ms, now_ms) ==> {
            &&& r.rx_speed == rate_of(old(tracker).last_rx, r.total_rx, (now_ms - old(tracker).last_ms) as u64)
            &&& r.tx_speed == rate_of(old(tracker).last_tx, r.total_tx, (now_ms - old(tracker).last_ms) as u64)
            &&& final(tracker).last_rx == r.total_rx
            &&& final(tracker).last_tx == r.total_tx
            &&& final(tracker).last_ms == now_ms
        },
        !spaced_enough(old(tracker).last_ms, now_ms) ==> {
            &&& r.rx_speed == 0
            &&& r.tx_speed == 0
            &&& *final(tracker) == *old(tracker)
        },
{
    let mut interfaces: Vec<NetworkInterface> = Vec::new();
    let mut rx: u128 = 0;
    let mut tx: u128 = 0;
    let mut i: usize = 0;
    while i < samples.len()
        invariant
            i <= samples.len(),
            interfaces@ == physical_ifaces(samples@.subrange(0, i as int)),
            rx == sum_where(samples@.subrange(0, i as int), physical_sample(), sample_rx()),
            tx == sum_where(samples@.subrange(0, i as int), physical_sample(), sample_tx()),
            rx <= i * 0xFFFF_FFFF_FFFF_FFFFnat,
            tx <= i * 0xFFFF_FFFF_FFFF_FFFFnat,
        decreases samples.len() - i,
    {
        let ghost pre = samples@.subrange(0, i as int);
        let ghost next = samples@.subrange(0, i + 1);
        assert(next.drop_last() =~= pre);
        assert(next.last() == samples@[i as int]);
        reveal(Seq::filter);
        let s = &samples[i];
        if is_physical_interface(s.iface.name.as_str(), s.os_virtual) {
            interfaces.push(copy_interface(&s.iface));
            rx = rx + s.iface.rx_bytes as u128;
            tx = tx + s.iface.tx_bytes as u128;
            assert(interfaces@ =~= physical_ifaces(next));
        } else {
            assert(interfaces@ =~= physical_ifaces(next));
        }
        i = i + 1;
    }
    assert(samples@.subrange(0, samples.len() as int) =~= samples@);
    let total_rx: u64 = if rx > u64::MAX as u128 { u64::MAX } else { rx as u64 };
    let total_tx: u64 = if tx > u64::MAX as u128 { u64::MAX } else { tx as u64 };
    let (rx_speed, tx_speed) = tracker.observe(total_rx, total_tx, now_ms);
    NetworkMetrics { interfaces, total_rx, total_tx, rx_speed, tx_speed }
}

} // verus!
