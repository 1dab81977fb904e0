use rust_basics::enum_type::{int_plus, IpAddr, IpAddrKind, Message};

#[test]
fn int_plus_adds_one() {
    assert_eq!(int_plus(Some(10)), Some(11));
    assert_eq!(int_plus(Some(-1)), Some(0));
    assert_eq!(int_plus(Some(i32::MIN)), Some(i32::MIN + 1));
    assert_eq!(int_plus(Some(i32::MAX - 1)), Some(i32::MAX));
}

#[test]
fn int_plus_keeps_nothing() {
    assert_eq!(int_plus(None), None);
}

#[test]
fn kinds_are_named() {
    assert_eq!(IpAddrKind::IPv4.describe(), "it is IPv4!");
    assert_eq!(IpAddrKind::IPv6.describe(), "it is IPv6!");
}

#[test]
fn ipv4_address_is_dotted() {
    let ip4 = IpAddr::IPv4(192, 168, 0, 1);
    assert_eq!(ip4.describe(), "ip : 192.168.0.1");
    assert_eq!(IpAddr::IPv4(0, 0, 0, 0).describe(), "ip : 0.0.0.0");
    assert_eq!(IpAddr::IPv4(255, 255, 255, 255).describe(), "ip : 255.255.255.255");
}

#[test]
fn ipv6_address_is_shown_as_given() {
    let ip6 = IpAddr::IPv6(String::from("::1"));
    assert_eq!(ip6.describe(), "ip : ::1");
}

#[test]
fn written_text_is_found() {
    let t = Message::Write(String::from("test"));
    assert_eq!(t.written(), Some(&String::from("test")));
}

#[test]
fn other_messages_hold_no_text() {
    assert_eq!(Message::Quit.written(), None);
    assert_eq!(Message::Move { x: 1, y: 2 }.written(), None);
    assert_eq!(Message::ChangeColor(1, 2, 3).written(), None);
}
