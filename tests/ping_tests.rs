use vstats::ping::{classify, failed_probe, ping_results, probe_plan, PingStatus, PingTargetConfig, ProbeOutcome, ProbeSettings};

fn cfg(name: &str, host: &str) -> PingTargetConfig {
    PingTargetConfig { name: name.to_string(), host: host.to_string() }
}

fn pairs(v: &[PingTargetConfig]) -> Vec<(String, String)> {
    v.iter().map(|t| (t.name.clone(), t.host.clone())).collect()
}

#[test]
fn default_plan_resolves_gateway() {
    let plan = probe_plan(&Some("192.168.1.1".to_string()), &None);
    assert_eq!(
        pairs(&plan),
        vec![
            ("Google DNS".to_string(), "8.8.8.8".to_string()),
            ("Cloudflare".to_string(), "1.1.1.1".to_string()),
            ("Local Gateway".to_string(), "192.168.1.1".to_string()),
        ]
    );
}

#[test]
fn default_plan_skips_unknown_gateway() {
    let plan = probe_plan(&None, &None);
    assert_eq!(plan.len(), 2);
    assert_eq!(plan[1].host, "1.1.1.1");
}

#[test]
fn custom_plan_skips_empty_hosts() {
    let custom = Some(vec![cfg("a", "10.0.0.1"), cfg("b", ""), cfg("c", "example.org")]);
    let plan = probe_plan(&Some("192.168.1.1".to_string()), &custom);
    assert_eq!(pairs(&plan), vec![("a".to_string(), "10.0.0.1".to_string()), ("c".to_string(), "example.org".to_string())]);
}

#[test]
fn empty_pushed_list_restores_defaults() {
    let mut s = ProbeSettings::new();
    s.set_ping_targets(vec![cfg("x", "1.2.3.4")]);
    assert_eq!(pairs(&s.plan(&None)), vec![("x".to_string(), "1.2.3.4".to_string())]);
    s.set_ping_targets(vec![]);
    assert!(s.custom_targets.is_none());
    assert_eq!(s.plan(&None).len(), 2);
}

#[test]
fn status_classification() {
    assert_eq!(classify(ProbeOutcome { ran: true, latency_us: Some(1200), packet_loss: 0 }), PingStatus::Reachable);
    assert_eq!(classify(ProbeOutcome { ran: true, latency_us: Some(1200), packet_loss: 3333 }), PingStatus::Reachable);
    assert_eq!(classify(ProbeOutcome { ran: true, latency_us: None, packet_loss: 10000 }), PingStatus::Timeout);
    assert_eq!(classify(failed_probe()), PingStatus::Failed);
    assert_eq!(PingStatus::Reachable.as_str(), "ok");
    assert_eq!(PingStatus::Timeout.as_str(), "timeout");
    assert_eq!(PingStatus::Failed.as_str(), "error");
}

#[test]
fn one_failed_target_keeps_the_batch() {
    let plan = vec![cfg("a", "h1"), cfg("b", "h2")];
    let outcomes = vec![ProbeOutcome { ran: false, latency_us: Some(5), packet_loss: 0 }, ProbeOutcome { ran: true, latency_us: Some(800), packet_loss: 0 }];
    let m = ping_results(&plan, &outcomes);
    assert_eq!(m.targets.len(), 2);
    assert_eq!(m.targets[0].status, PingStatus::Failed);
    assert_eq!(m.targets[0].latency_us, None);
    assert_eq!(m.targets[0].packet_loss, 10000);
    assert_eq!(m.targets[1].status, PingStatus::Reachable);
    assert_eq!(m.targets[1].latency_us, Some(800));
    assert_eq!(m.targets[1].host, "h2");
}
