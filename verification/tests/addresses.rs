use wg_peer_adapter::addr::validate_ipv4_text;
use wg_peer_adapter::addr::validate_ipv6_text;

#[test]
fn ipv4_literals() {
    assert!(validate_ipv4_text("10.0.0.5"));
    assert!(validate_ipv4_text("0.0.0.0"));
    assert!(validate_ipv4_text("255.255.255.255"));
    assert!(!validate_ipv4_text("256.0.0.1"));
    assert!(!validate_ipv4_text("01.2.3.4"));
    assert!(!validate_ipv4_text("1.2.3"));
    assert!(!validate_ipv4_text("1.2.3.4.5"));
    assert!(!validate_ipv4_text("1.2.3."));
    assert!(!validate_ipv4_text("a.b.c.d"));
    assert!(!validate_ipv4_text(""));
}

#[test]
fn ipv6_literals() {
    assert!(validate_ipv6_text("fd00::5"));
    assert!(validate_ipv6_text("::"));
    assert!(validate_ipv6_text("::1"));
    assert!(validate_ipv6_text("1::"));
    assert!(validate_ipv6_text("1:2:3:4:5:6:7:8"));
    assert!(validate_ipv6_text("2001:db8:0:0:0:0:2:1"));
    assert!(validate_ipv6_text("::ffff:1.2.3.4"));
    assert!(validate_ipv6_text("1:2:3:4:5:6:1.2.3.4"));
    assert!(!validate_ipv6_text("1:2:3:4:5:6:7:8:9"));
    assert!(!validate_ipv6_text(":::"));
    assert!(!validate_ipv6_text("1::2::3"));
    assert!(!validate_ipv6_text("12345::"));
    assert!(!validate_ipv6_text("g::1"));
    assert!(!validate_ipv6_text(":"));
    assert!(!validate_ipv6_text(""));
    assert!(!validate_ipv6_text("10.0.0.5"));
}

#[test]
fn ipv6_group_count_around_elision() {
    // With `::` present, at most seven groups may stand around it.
    assert!(validate_ipv6_text("1:2:3:4:5:6:7::"));
    assert!(!validate_ipv6_text("1:2:3:4:5:6:7:8::"));
    assert!(validate_ipv6_text("::1:2:3:4:5:6:7"));
    assert!(!validate_ipv6_text("::1:2:3:4:5:6:7:8"));
    assert!(!validate_ipv6_text("::1:2:3:4:5:6:1.2.3.4"));
    assert!(validate_ipv6_text("::1:2:3:4:5:1.2.3.4"));
}
