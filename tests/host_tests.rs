use vstats::host::{gateway_from_words, ipv4_addresses, link_speed, mac_address, mac_from_upper};

fn words(s: &str) -> Vec<String> {
    s.split_whitespace().map(str::to_string).collect()
}

#[test]
fn gateway_is_first_dotted_word_without_slash() {
    assert_eq!(gateway_from_words(&words("default via 192.168.1.1 dev eth0")), Some("192.168.1.1".to_string()));
    assert_eq!(gateway_from_words(&words("10.0.0.0/8 via 10.0.0.1")), Some("10.0.0.1".to_string()));
    assert_eq!(gateway_from_words(&words("default dev wg0")), None);
    assert_eq!(gateway_from_words(&vec![]), None);
}

#[test]
fn ipv4_addresses_skip_loopback_and_v6() {
    let got = ipv4_addresses(&words("10.1.2.3 127.0.0.1 fe80::1 192.168.0.7"));
    assert_eq!(got, vec!["10.1.2.3".to_string(), "192.168.0.7".to_string()]);
}

#[test]
fn mac_is_uppercased_and_zero_dropped() {
    assert_eq!(mac_address("aa:bb:cc:0d:1e:ff"), Some("AA:BB:CC:0D:1E:FF".to_string()));
    assert_eq!(mac_address("00:00:00:00:00:00"), None);
    assert_eq!(mac_from_upper("aa:bb".to_string()), Some("aa:bb".to_string()));
}

#[test]
fn link_speed_must_be_positive() {
    assert_eq!(link_speed(1000), Some(1000));
    assert_eq!(link_speed(0), None);
    assert_eq!(link_speed(-1), None);
}
