use vstats::registry::{AgentRegistry, SendError};

fn id(s: &str) -> String {
    s.to_string()
}

#[test]
fn send_to_unknown_and_to_departed_agents_fail_differently() {
    let mut reg: AgentRegistry<u32> = AgentRegistry::new();
    reg.register(&id("gone"), 7, 100);
    reg.unregister(&id("gone"));
    let never = reg.route(&id("never")).err();
    let gone = reg.route(&id("gone")).err();
    assert_eq!(never, Some(SendError::UnknownAgent));
    assert_eq!(gone, Some(SendError::Disconnected));
    assert_ne!(never, gone);
}

#[test]
fn registered_agent_is_routed_to_its_latest_channel() {
    let mut reg: AgentRegistry<u32> = AgentRegistry::new();
    reg.register(&id("a"), 1, 10);
    reg.register(&id("b"), 2, 10);
    reg.register(&id("a"), 3, 20);
    assert_eq!(reg.route(&id("a")), Ok(&3));
    assert_eq!(reg.route(&id("b")), Ok(&2));
    assert_eq!(reg.entries.len(), 2);
}

#[test]
fn failed_send_unregisters_the_agent() {
    let mut reg: AgentRegistry<u32> = AgentRegistry::new();
    reg.register(&id("a"), 1, 10);
    assert_eq!(reg.fail_send(&id("a")), SendError::ChannelClosed);
    assert_eq!(reg.route(&id("a")), Err(SendError::Disconnected));
    reg.register(&id("a"), 5, 30);
    assert_eq!(reg.route(&id("a")), Ok(&5));
}

#[test]
fn touch_updates_last_seen_only() {
    let mut reg: AgentRegistry<u32> = AgentRegistry::new();
    reg.register(&id("a"), 1, 10);
    reg.touch(&id("a"), 99);
    assert_eq!(reg.entries[0].last_seen, 99);
    assert_eq!(reg.route(&id("a")), Ok(&1));
    reg.touch(&id("zzz"), 5);
    assert_eq!(reg.route(&id("zzz")), Err(SendError::UnknownAgent));
}
