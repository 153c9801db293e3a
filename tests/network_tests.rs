use vstats::network::{collect_network, is_physical_interface, is_physical_name, InterfaceSample, NetworkInterface};
use vstats::rate::RateTracker;

fn sample(name: &str, rx: u64, tx: u64, os_virtual: bool) -> InterfaceSample {
    InterfaceSample {
        iface: NetworkInterface {
            name: name.to_string(),
            mac: Some("AA:BB:CC:DD:EE:FF".to_string()),
            speed: Some(1000),
            rx_bytes: rx,
            tx_bytes: tx,
            rx_packets: 1,
            tx_packets: 2,
        },
        os_virtual,
    }
}

#[test]
fn physical_interfaces_by_name() {
    assert!(is_physical_interface("eth0", false));
    assert!(is_physical_interface("enp3s0", false));
    assert!(!is_physical_interface("lo", false));
    assert!(!is_physical_interface("lo0", false));
    assert!(!is_physical_interface("docker0", false));
    assert!(!is_physical_interface("veth12ab", false));
    assert!(!is_physical_interface("eth1", true));
}

#[test]
fn virtual_prefixes_ignore_case() {
    assert!(!is_physical_interface("Docker0", false));
    assert!(!is_physical_interface("WG0", false));
    assert!(is_physical_name("Docker0", "Docker0", false));
    assert!(!is_physical_name("Docker0", "docker0", false));
}

#[test]
fn collect_network_filters_and_sums() {
    let mut t = RateTracker::new(0, 0, 0);
    let samples = vec![
        sample("eth0", 1000, 100, false),
        sample("lo", 5000, 5000, false),
        sample("docker0", 7000, 7000, false),
        sample("wlan0", 500, 50, false),
    ];
    let m = collect_network(&mut t, &samples, 1000);
    let names: Vec<&str> = m.interfaces.iter().map(|i| i.name.as_str()).collect();
    assert_eq!(names, vec!["eth0", "wlan0"]);
    assert_eq!((m.total_rx, m.total_tx), (1500, 150));
    assert_eq!((m.rx_speed, m.tx_speed), (1500, 150));
    assert_eq!(t.last_rx, 1500);
}

#[test]
fn collect_network_saturates_totals() {
    let mut t = RateTracker::new(0, 0, 0);
    let samples = vec![sample("eth0", u64::MAX, 1, false), sample("eth1", 10, 1, false)];
    let m = collect_network(&mut t, &samples, 50);
    assert_eq!(m.total_rx, u64::MAX);
    assert_eq!((m.rx_speed, m.tx_speed), (0, 0));
    assert_eq!(t.last_rx, 0);
}
