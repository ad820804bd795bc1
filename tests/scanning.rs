use chomp::ascii::{decimal, is_whitespace, signed, skip_whitespace};
use chomp::combinators::{count, scan, skip_while, take_while, token};
use chomp::input::Input;
use chomp::result::{Error, ParseResult};

fn is_digit(c: u8) -> bool {
    c >= b'0' && c <= b'9'
}

#[test]
fn take_while_returns_the_run() {
    match take_while(Input::new(&b"123abc"[..]), is_digit) {
        ParseResult::Data(i, b) => {
            assert_eq!(b, &b"123"[..]);
            assert_eq!(i.remaining(), &b"abc"[..]);
        }
        _ => panic!("expected success"),
    }
}

#[test]
fn take_while_zero_matches_is_success() {
    match take_while(Input::new(&b"abc"[..]), is_digit) {
        ParseResult::Data(i, b) => {
            assert!(b.is_empty());
            assert_eq!(i.remaining(), &b"abc"[..]);
        }
        _ => panic!("expected success"),
    }
}

#[test]
fn take_while_to_end_of_complete_data() {
    match take_while(Input::new(&b"123"[..]), is_digit) {
        ParseResult::Data(i, b) => {
            assert_eq!(b, &b"123"[..]);
            assert!(i.remaining().is_empty());
        }
        _ => panic!("expected success"),
    }
}

#[test]
fn take_while_on_partial_data_asks_for_more() {
    assert!(matches!(take_while(Input::partial(&b"123"[..]), is_digit), ParseResult::Incomplete(1)));
    assert!(matches!(take_while(Input::partial(&b"12a"[..]), is_digit), ParseResult::Data(_, b) if b == &b"12"[..]));
}

#[test]
fn skip_while_drops_the_run() {
    match skip_while(Input::new(&b"   x"[..]), |c: u8| c == b' ') {
        ParseResult::Data(i, ()) => assert_eq!(i.remaining(), &b"x"[..]),
        _ => panic!("expected success"),
    }
}

#[test]
fn scan_stops_before_unescaped_quote() {
    // Accepts tokens until a quote that does not follow a backslash.
    let step = |escaped: bool, c: u8| -> Option<bool> {
        if c == b'"' && !escaped {
            None
        } else {
            Some(c == b'\\' && !escaped)
        }
    };
    match scan(Input::new(&br#"ab\"c"rest"#[..]), false, step) {
        ParseResult::Data(i, (b, st)) => {
            assert_eq!(b, &br#"ab\"c"#[..]);
            assert!(!st);
            assert_eq!(i.remaining(), &br#""rest"#[..]);
        }
        _ => panic!("expected success"),
    }
    assert!(matches!(scan(Input::partial(&b"abc"[..]), false, step), ParseResult::Incomplete(1)));
}

#[test]
fn scan_returns_final_state() {
    match scan(Input::new(&b"12345"[..]), 0u32, |n: u32, _c: u8| if n < 3 { Some(n + 1) } else { None }) {
        ParseResult::Data(i, (b, n)) => {
            assert_eq!(b, &b"123"[..]);
            assert_eq!(n, 3);
            assert_eq!(i.remaining(), &b"45"[..]);
        }
        _ => panic!("expected success"),
    }
}

#[test]
fn count_applies_exactly_n_times() {
    match count(Input::new(&b"aaaa"[..]), 3, |i| token(i, b'a')) {
        ParseResult::Data(i, v) => {
            assert_eq!(v, b"aaa".to_vec());
            assert_eq!(i.remaining(), &b"a"[..]);
        }
        _ => panic!("expected success"),
    }
}

#[test]
fn count_fails_at_start_when_short() {
    match count(Input::new(&b"aab"[..]), 3, |i| token(i, b'a')) {
        ParseResult::Error(i, e) => {
            assert_eq!(e, Error::Unexpected);
            assert_eq!(i.remaining(), &b"aab"[..]);
        }
        _ => panic!("expected failure"),
    }
    assert!(matches!(count(Input::partial(&b"aa"[..]), 3, |i| token(i, b'a')), ParseResult::Incomplete(1)));
    assert!(matches!(count(Input::new(&b""[..]), 0, |i| token(i, b'a')), ParseResult::Data(_, ref v) if v.is_empty()));
}

#[test]
fn signed_negates_after_minus() {
    assert!(matches!(signed(Input::new(&b"-123x"[..]), decimal::<i32>), ParseResult::Data(_, -123)));
    assert!(matches!(signed(Input::new(&b"+45"[..]), decimal::<i64>), ParseResult::Data(_, 45)));
    assert!(matches!(signed(Input::new(&b"67"[..]), decimal::<i16>), ParseResult::Data(_, 67)));
    assert!(matches!(signed(Input::new(&b"-x"[..]), decimal::<i8>), ParseResult::Error(_, Error::Unexpected)));
    assert!(matches!(signed(Input::new(&b"-128"[..]), decimal::<i8>), ParseResult::Error(_, Error::Overflow)));
}

#[test]
fn bind_and_map_sequence_steps() {
    let r = token(Input::new(&b"a12"[..]), b'a').bind(|i, _| decimal::<u32>(i)).map(|v| v * 2);
    assert!(matches!(r, ParseResult::Data(_, 24)));
    let r = token(Input::new(&b"b12"[..]), b'a').bind(|i, _| decimal::<u32>(i));
    assert!(matches!(r, ParseResult::Error(i, Error::Unexpected) if i.remaining() == &b"b12"[..]));
    let r = token(Input::new(&b"a7"[..]), b'a').followed_by(|i| decimal::<u8>(i));
    assert!(matches!(r, ParseResult::Data(_, 7)));
    let r = token(Input::partial(&b""[..]), b'a').map(|c| c as u32);
    assert!(matches!(r, ParseResult::Incomplete(1)));
}

#[test]
fn skip_whitespace_stops_at_text() {
    match skip_whitespace(Input::new(&b" \t\r\n x "[..])) {
        ParseResult::Data(i, ()) => assert_eq!(i.remaining(), &b"x "[..]),
        _ => panic!("expected success"),
    }
    match skip_whitespace(Input::new(&b"x"[..])) {
        ParseResult::Data(i, ()) => assert_eq!(i.remaining(), &b"x"[..]),
        _ => panic!("expected success"),
    }
    assert!(matches!(skip_whitespace(Input::partial(&b"  "[..])), ParseResult::Incomplete(1)));
    assert!(is_whitespace(b' ') && is_whitespace(b'\n') && !is_whitespace(b'a') && !is_whitespace(0));
}
