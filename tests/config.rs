use card_compose::{is_port_setting, Config, DEFAULT_PORT};

#[test]
fn missing_port_uses_default() {
    assert_eq!(Config::from_port_setting(None), Config { port: DEFAULT_PORT });
    assert_eq!(DEFAULT_PORT, 50051);
}

#[test]
fn decimal_ports_parse() {
    assert_eq!(Config::from_port_setting(Some("8080")), Config { port: 8080 });
    assert_eq!(Config::from_port_setting(Some("+80")), Config { port: 80 });
    assert_eq!(Config::from_port_setting(Some("0080")), Config { port: 80 });
    assert_eq!(Config::from_port_setting(Some("65535")), Config { port: 65535 });
    for s in ["8080", "+80", "0", "65535"] {
        assert!(is_port_setting(s), "{s}");
    }
}

#[test]
fn bad_ports_are_refused() {
    for s in ["", "+", "-1", "65536", "99999999999", "80a", " 80", "abc"] {
        assert!(!is_port_setting(s), "{s}");
    }
}
