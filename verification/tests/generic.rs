use rust_basics::generic::{toString, Msg, Pos, Test};

#[test]
fn container_hands_out_its_value() {
    let test_int = Test { data: 123 };
    let test_str = Test { data: "str" };
    assert_eq!(*test_int.get(), 123);
    assert_eq!(*test_str.get(), "str");
}

#[test]
fn container_of_owned_text() {
    let test = Test { data: String::from("owned") };
    assert_eq!(test.get(), "owned");
    assert_eq!(test.data, "owned");
}

#[test]
fn position_as_text() {
    let p = Pos { x: 10, y: 20 };
    assert_eq!(p.string(), "Pos(x : 10, y : 20)");
}

#[test]
fn position_with_negative_and_extreme_parts() {
    let p = Pos { x: -3, y: 0 };
    assert_eq!(p.string(), "Pos(x : -3, y : 0)");
    let p = Pos { x: i32::MIN, y: i32::MAX };
    assert_eq!(p.string(), "Pos(x : -2147483648, y : 2147483647)");
}

#[test]
fn message_as_text() {
    let m = Msg { data: String::from("hello~") };
    assert_eq!(m.string(), "Msg(data : hello~");
}

#[test]
fn empty_message_as_text() {
    let m = Msg { data: String::new() };
    assert_eq!(m.string(), "Msg(data : ");
}

#[test]
fn default_notice_is_printed_for_both() {
    let p = Pos { x: 10, y: 20 };
    let m = Msg { data: String::from("hello~") };
    assert_eq!(p.print(), "print 메소드의 기본 동작임");
    assert_eq!(m.print(), "print 메소드의 기본 동작임");
}
