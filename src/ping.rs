use vstd::prelude::*;
use vstd::string::StrSliceExecFns;

verus! {

/// Seconds between two probe cycles.
pub const PROBE_INTERVAL_SECS: u64 = 10;

/// Probe packets sent to each target per cycle.
pub const PROBE_PACKETS: u32 = 3;

/// Per-packet timeout, in seconds.
pub const PROBE_TIMEOUT_SECS: u32 = 2;

/// Packet loss meaning that nothing came back: 100 % in hundredths of a percent.
pub const FULL_LOSS: u64 = 10000;

/// A host to probe, under a display name.
pub struct PingTargetConfig {
    pub name: String,
    pub host: String,
}

#[derive(Clone, Copy, Debug, PartialEq, Eq, Structural)]
pub enum PingStatus {
    Reachable,
    Timeout,
    Failed,
}

impl PingStatus {
    /// The status tag: "ok", "timeout" or "error".
    pub fn as_str(&self) -> (r: &'static str)
        ensures
            *self == PingStatus::Reachable ==> r@ == "ok"@,
            *self == PingStatus::Timeout ==> r@ == "timeout"@,
            *self == PingStatus::Failed ==> r@ == "error"@,
    {
        match self {
            PingStatus::Reachable => "ok",
            PingStatus::Timeout => "timeout",
            PingStatus::Failed => "error",
        }
    }
}

/// What probing one host gave: whether the probe could run at all, the mean
/// round-trip time in microseconds if any reply came, and the packet loss in
/// hundredths of a percent.
#[derive(Clone, Copy, Debug, PartialEq, Eq, Structural)]
pub struct ProbeOutcome {
    pub ran: bool,
    pub latency_us: Option<u64>,
    pub packet_loss: u64,
}

/// One target's result in a probe batch.
pub struct PingTarget {
    pub name: String,
    pub host: String,
    pub latency_us: Option<u64>,
    pub packet_loss: u64,
    pub status: PingStatus,
}

/// One completed probe batch.
pub struct PingMetrics {
    pub targets: Vec<PingTarget>,
}

/// Status of a probed target: `Failed` when the probe could not run, `Timeout` when
/// every packet was lost, `Reachable` otherwise.
pub open spec fn status_of(o: ProbeOutcome) -> PingStatus {
    if !o.ran {
        PingStatus::Failed
    } else if o.packet_loss >= FULL_LOSS {
        PingStatus::Timeout
    } else {
        PingStatus::Reachable
    }
}

/// Computes `status_of`.
pub fn classify(o: ProbeOutcome) -> (r: PingStatus)
    ensures
        r == status_of(o),
{
    if !o.ran {
        PingStatus::Failed
    } else if o.packet_loss >= FULL_LOSS {
        PingStatus::Timeout
    } else {
        PingStatus::Reachable
    }
}

/// The outcome of a probe that could not run: no latency, everything lost.
pub fn failed_probe() -> (r: ProbeOutcome)
    ensures
        !r.ran,
        r.latency_us is None,
        r.packet_loss == FULL_LOSS,
{
    ProbeOutcome { ran: false, latency_us: None, packet_loss: FULL_LOSS }
}

/// The built-in targets as (name, host); an empty host stands for the default gateway.
pub open spec fn default_targets() -> Seq<(Seq<char>, Seq<char>)> {
    seq![("Google DNS"@, "8.8.8.8"@), ("Cloudflare"@, "1.1.1.1"@), ("Local Gateway"@, ""@)]
}

/// The targets of one cycle, as (name, host): the custom targets with a non-empty
/// host when a custom list is set; otherwise the built-in ones, the gateway entry
/// resolved to `gateway` and left out when no gateway is known.
pub open spec fn plan_of(gateway: Option<Seq<char>>, custom: Option<Seq<(Seq<char>, Seq<char>)>>) -> Seq<(Seq<char>, Seq<char>)> {
    match custom {
        Some(c) => c.filter(|t: (Seq<char>, Seq<char>)| t.1.len() > 0),
        None => match gateway {
            Some(g) => seq![default_targets()[0], default_targets()[1], (default_targets()[2].0, g)],
            None => seq![default_targets()[0], default_targets()[1]],
        },
    }
}

/// (name, host) of each target configuration.
pub open spec fn pairs_of(v: Seq<PingTargetConfig>) -> Seq<(Seq<char>, Seq<char>)> {
    v.map_values(|t: PingTargetConfig| (t.name@, t.host@))
}

fn target(name: &str, host: &str) -> (r: PingTargetConfig)
    ensures
        r.name@ == name@,
        r.host@ == host@,
{
    PingTargetConfig { name: name.to_owned(), host: host.to_owned() }
}

/// The targets to probe in one cycle (see `plan_of`).
pub fn probe_plan(gateway: &Option<String>, custom: &Option<Vec<PingTargetConfig>>) -> (r: Vec<PingTargetConfig>)
    ensures
        pairs_of(r@) == plan_of(
            match gateway {
                Some(g) => Some(g@),
                None => None,
            },
            match custom {
                Some(c) => Some(pairs_of(c@)),
                None => None,
            },
        ),
{
    let mut out: Vec<PingTargetConfig> = Vec::new();
    match custom {
        Some(c) => {
            let ghost keep = |t: (Seq<char>, Seq<char>)| t.1.len() > 0;
            let mut i: usize = 0;
            while i < c.len()
                invariant
                    i <= c.len(),
                    pairs_of(out@) == pairs_of(c@.subrange(0, i as int)).filter(keep),
                    keep == (|t: (Seq<char>, Seq<char>)| t.1.len() > 0),
                decreases c.len() - i,
            {
                let ghost pre = pairs_of(c@.subrange(0, i as int));
                let ghost next = pairs_of(c@.subrange(0, i + 1));
                assert(next.drop_last() =~= pre);
                assert(next.last() == (c@[i as int].name@, c@[i as int].host@));
                reveal(Seq::filter);
                let ghost before = out@;
                if c[i].host.unicode_len() > 0 {
                    out.push(PingTargetConfig { name: c[i].name.clone(), host: c[i].host.clone() });
                    assert(pairs_of(out@) =~= pairs_of(before).push(next.last()));
                }
                i = i + 1;
            }
            assert(c@.subrange(0, c.len() as int) =~= c@);
        },
        None => {
            proof {
                reveal_strlit("Google DNS");
                reveal_strlit("8.8.8.8");
                reveal_strlit("Cloudflare");
                reveal_strlit("1.1.1.1");
                reveal_strlit("Local Gateway");
            }
            out.push(target("Google DNS", "8.8.8.8"));
            out.push(target("Cloudflare", "1.1.1.1"));
            match gateway {
                Some(g) => {
                    out.push(target("Local Gateway", g.as_str()));
                },
                None => {},
            }
            assert(pairs_of(out@) =~= plan_of(
                match gateway {
                    Some(g) => Some(g@),
                    None => None,
                },
                None,
            ));
        },
    }
    out
}

/// The result of probing `cfg` with outcome `o`.
pub open spec fn result_matches(r: PingTarget, cfg: PingTargetConfig, o: ProbeOutcome) -> bool {
    &&& r.name@ == cfg.name@
    &&& r.host@ == cfg.host@
    &&& r.latency_us == (if o.ran { o.latency_us } else { None })
    &&& r.packet_loss == (if o.ran { o.packet_loss } else { FULL_LOSS })
    &&& r.status == status_of(o)
}

/// The batch made of each planned target and its probe outcome, in plan order. A
/// target whose probe failed still has its entry, with status `Failed`.
pub fn ping_results(plan: &Vec<PingTargetConfig>, outcomes: &Vec<ProbeOutcome>) -> (r: PingMetrics)
    requires
        plan@.len() == outcomes@.len(),
    ensures
        r.targets@.len() == plan@.len(),
        forall|k: int| 0 <= k < plan@.len() ==> result_matches(#[trigger] r.targets@[k], plan@[k], outcomes@[k]),
{
    let mut targets: Vec<PingTarget> = Vec::new();
    let mut i: usize = 0;
    while i < plan.len()
        invariant
            i <= plan.len(),
            plan@.len() == outcomes@.len(),
            targets@.len() == i,
            forall|k: int| 0 <= k < i ==> result_matches(#[trigger] targets@[k], plan@[k], outcomes@[k]),
        decreases plan.len() - i,
    {
        let o = outcomes[i];
        let (latency_us, packet_loss) = if o.ran { (o.latency_us, o.packet_loss) } else { (None, FULL_LOSS) };
        targets.push(PingTarget {
            name: plan[i].name.clone(),
            host: plan[i].host.clone(),
            latency_us,
            packet_loss,
            status: classify(o),
        });
        i = i + 1;
    }
    PingMetrics { targets }
}

/// The custom probe targets pushed by the server, if any.
pub struct ProbeSettings {
    pub custom_targets: Option<Vec<PingTargetConfig>>,
}

impl ProbeSettings {
    pub fn new() -> (r: ProbeSettings)
        ensures
            r.custom_targets is None,
    {
        ProbeSettings { custom_targets: None }
    }

    /// Replaces the target list for the next cycle; an empty list restores the built-in
    /// targets.
    pub fn set_ping_targets(&mut self, targets: Vec<PingTargetConfig>)
        ensures
            targets@.len() == 0 ==> final(self).custom_targets is None,
            targets@.len() > 0 ==> final(self).custom_targets == Some(targets),
    {
        if targets.len() == 0 {
            self.custom_targets = None;
        } else {
            self.custom_targets = Some(targets);
        }
    }

    /// The targets of the next cycle.
    pub fn plan(&self, gateway: &Option<String>) -> (r: Vec<PingTargetConfig>)
        ensures
            pairs_of(r@) == plan_of(
                match gateway {
                    Some(g) => Some(g@),
                    None => None,
                },
                match self.custom_targets {
                    Some(c) => Some(pairs_of(c@)),
                    None => None,
                },
            ),
    {
        probe_plan(gateway, &self.custom_targets)
    }
}

} // verus!
