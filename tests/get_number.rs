use nsl_lexer::{get_number, get_word, CharSource, Cursor, LexItem};

#[test]
fn digit() {
    let s = "10".to_string();
    let mut it = Cursor::new(&s);
    assert_eq!(LexItem::Number(10), get_number(&mut it));
}

#[test]
fn number_consumes_all_digits() {
    let mut it = Cursor::new("10");
    assert_eq!(LexItem::Number(10), get_number(&mut it));
    assert_eq!(2, it.position());
    assert_eq!(None, it.peek());
}

#[test]
fn number_stops_at_non_digit() {
    let mut it = Cursor::new("12345;");
    assert_eq!(LexItem::Number(12345), get_number(&mut it));
    assert_eq!(5, it.position());
    assert_eq!(Some(';'), it.peek());
}

#[test]
fn number_with_leading_zeros() {
    let mut it = Cursor::new("007 ");
    assert_eq!(LexItem::Number(7), get_number(&mut it));
    assert_eq!(3, it.position());
}

#[test]
fn number_zero() {
    let mut it = Cursor::new("0");
    assert_eq!(LexItem::Number(0), get_number(&mut it));
    assert_eq!(1, it.position());
}

#[test]
fn number_on_empty_input() {
    let mut it = Cursor::new("");
    assert_eq!(LexItem::Number(0), get_number(&mut it));
    assert_eq!(0, it.position());
    assert_eq!(None, it.peek());
}

#[test]
fn number_on_non_digit_consumes_nothing() {
    let mut it = Cursor::new("x1");
    assert_eq!(LexItem::Number(0), get_number(&mut it));
    assert_eq!(0, it.position());
    assert_eq!(Some('x'), it.peek());
}

#[test]
fn number_stops_at_radix_prefix() {
    let mut it = Cursor::new("0x10");
    assert_eq!(LexItem::Number(0), get_number(&mut it));
    assert_eq!(1, it.position());
    assert_eq!(Some('x'), it.peek());
}

#[test]
fn number_stops_at_digit_separator() {
    let mut it = Cursor::new("1_000");
    assert_eq!(LexItem::Number(1), get_number(&mut it));
    assert_eq!(Some('_'), it.peek());
}

#[test]
fn number_ignores_non_ascii_digits() {
    let mut it = Cursor::new("4٣");
    assert_eq!(LexItem::Number(4), get_number(&mut it));
    assert_eq!(1, it.position());
}

#[test]
fn number_largest_value() {
    let mut it = Cursor::new("9223372036854775807");
    assert_eq!(LexItem::Number(i64::MAX), get_number(&mut it));
    assert_eq!(19, it.position());
}

#[test]
fn number_overflow_one_past_largest() {
    let mut it = Cursor::new("9223372036854775808");
    assert_eq!(LexItem::Overflow, get_number(&mut it));
    assert_eq!(19, it.position());
    assert_eq!(None, it.peek());
}

#[test]
fn number_overflow_consumes_whole_run() {
    let mut it = Cursor::new("99999999999999999999999x");
    assert_eq!(LexItem::Overflow, get_number(&mut it));
    assert_eq!(23, it.position());
    assert_eq!(Some('x'), it.peek());
}

#[test]
fn number_scan_repeats_on_same_state() {
    let mut a = Cursor::new("42 43");
    let mut b = Cursor::new("42 43");
    assert_eq!(get_number(&mut a), get_number(&mut b));
    assert_eq!(a.position(), b.position());
}

#[test]
fn number_then_word() {
    let mut it = Cursor::new("10abc");
    assert_eq!(LexItem::Number(10), get_number(&mut it));
    assert_eq!(LexItem::Other, get_word(&mut it));
    assert_eq!(5, it.position());
}
