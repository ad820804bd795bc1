use chomp::ascii::decimal;
use chomp::combinators::{any, many, many1, or, satisfy, sep_by, string, token};
use chomp::input::Input;
use chomp::result::{Error, ParseResult};
use chomp::stream::Stream;

fn rest<'a, T: Copy, U, E>(r: &ParseResult<Input<'a, T>, U, E>) -> Vec<T> {
    match r {
        ParseResult::Data(i, _) => i.to_vec(),
        ParseResult::Error(i, _) => i.to_vec(),
        ParseResult::Incomplete(_) => panic!("no input in a request for more data"),
    }
}

fn letter_a(i: Input<u8>) -> ParseResult<Input<u8>, u8, Error> {
    token(i, b'a')
}

fn comma(i: Input<u8>) -> ParseResult<Input<u8>, u8, Error> {
    token(i, b',')
}

fn number(i: Input<u8>) -> ParseResult<Input<u8>, u32, Error> {
    decimal::<u32>(i)
}

#[test]
fn any_takes_one_token() {
    let r = any(Input::new(&b"xy"[..]));
    assert!(matches!(r, ParseResult::Data(_, b'x')));
    assert_eq!(rest(&r), b"y".to_vec());
    let r = any(Input::<u8>::new(&b""[..]));
    assert!(matches!(r, ParseResult::Error(_, Error::Unexpected)));
    let r = any(Input::<u8>::partial(&b""[..]));
    assert!(matches!(r, ParseResult::Incomplete(1)));
}

#[test]
fn satisfy_checks_predicate() {
    let r = satisfy(Input::new(&b"7a"[..]), |c: u8| c >= b'0' && c <= b'9');
    assert!(matches!(r, ParseResult::Data(_, b'7')));
    let r = satisfy(Input::new(&b"a7"[..]), |c: u8| c >= b'0' && c <= b'9');
    assert!(matches!(r, ParseResult::Error(_, Error::Unexpected)));
    assert_eq!(rest(&r), b"a7".to_vec());
}

#[test]
fn token_mismatch_keeps_position() {
    let r = token(Input::new(&b"ba"[..]), b'a');
    assert!(matches!(r, ParseResult::Error(_, Error::Unexpected)));
    assert_eq!(rest(&r), b"ba".to_vec());
    let r = token(Input::new(&b"ab"[..]), b'a');
    assert!(matches!(r, ParseResult::Data(_, b'a')));
    assert_eq!(rest(&r), b"b".to_vec());
}

#[test]
fn string_matches_exactly_the_literal() {
    let r = string(Input::new(&b"pattern and more"[..]), b"pattern");
    match r {
        ParseResult::Data(i, b) => {
            assert_eq!(b, &b"pattern"[..]);
            assert_eq!(i.remaining(), &b" and more"[..]);
        }
        _ => panic!("expected a match"),
    }
}

#[test]
fn string_mismatch_rewinds_to_start() {
    let r = string(Input::new(&b"patron"[..]), b"pattern");
    assert!(matches!(r, ParseResult::Error(_, Error::Unexpected)));
    assert_eq!(rest(&r), b"patron".to_vec());
    let r = string(Input::new(&b"pat"[..]), b"pattern");
    assert!(matches!(r, ParseResult::Error(_, Error::Unexpected)));
    assert_eq!(rest(&r), b"pat".to_vec());
}

#[test]
fn string_on_partial_input_asks_for_the_rest() {
    let r = string(Input::partial(&b"pat"[..]), b"pattern");
    assert!(matches!(r, ParseResult::Incomplete(4)));
    let r = string(Input::partial(&b"pax"[..]), b"pattern");
    assert!(matches!(r, ParseResult::Error(_, Error::Unexpected)));
}

#[test]
fn string_empty_literal_consumes_nothing() {
    let r = string(Input::new(&b"abc"[..]), b"");
    assert!(matches!(r, ParseResult::Data(_, b) if b.is_empty()));
    assert_eq!(rest(&r), b"abc".to_vec());
}

#[test]
fn many_collects_until_failure() {
    let r = many(Input::new(&b"aaab"[..]), letter_a);
    match &r {
        ParseResult::Data(_, v) => assert_eq!(v, &b"aaa".to_vec()),
        _ => panic!("expected success"),
    }
    assert_eq!(rest(&r), b"b".to_vec());
}

#[test]
fn many_zero_matches_is_success() {
    let r = many(Input::new(&b"bbb"[..]), letter_a);
    match &r {
        ParseResult::Data(_, v) => assert!(v.is_empty()),
        _ => panic!("expected success"),
    }
    assert_eq!(rest(&r), b"bbb".to_vec());
}

#[test]
fn many_passes_on_request_for_more() {
    let r = many(Input::partial(&b"aa"[..]), letter_a);
    assert!(matches!(r, ParseResult::Incomplete(1)));
}

#[test]
fn many1_requires_one_match() {
    let r = many1(Input::new(&b"bbb"[..]), letter_a);
    assert!(matches!(r, ParseResult::Error(_, Error::Unexpected)));
    assert_eq!(rest(&r), b"bbb".to_vec());
}

#[test]
fn many1_agrees_with_many_on_success() {
    for text in [&b"aab"[..], &b"a"[..], &b"ab"[..]] {
        let r = many(Input::new(text), letter_a);
        let r1 = many1(Input::new(text), letter_a);
        match (&r, &r1) {
            (ParseResult::Data(i, v), ParseResult::Data(i1, v1)) => {
                assert!(!v.is_empty());
                assert_eq!(v, v1);
                assert_eq!(i.remaining(), i1.remaining());
            }
            _ => panic!("expected two successes"),
        }
    }
    let r = many(Input::new(&b"b"[..]), letter_a);
    assert!(matches!(r, ParseResult::Data(_, ref v) if v.is_empty()));
    assert!(matches!(many1(Input::new(&b"b"[..]), letter_a), ParseResult::Error(..)));
}

#[test]
fn or_tries_second_branch_from_same_place() {
    let r = or(Input::new(&b"pear"[..]), |i| string(i, b"peach"), |i| string(i, b"pear"));
    match r {
        ParseResult::Data(i, b) => {
            assert_eq!(b, &b"pear"[..]);
            assert!(i.remaining().is_empty());
        }
        _ => panic!("expected the second branch"),
    }
}

#[test]
fn or_is_deterministic() {
    let text = &b"pear"[..];
    let a = or(Input::new(text), |i| string(i, b"peach"), |i| string(i, b"pear"));
    let b = or(Input::new(text), |i| string(i, b"peach"), |i| string(i, b"pear"));
    assert_eq!(a, b);
    let a = or(Input::new(text), |i| string(i, b"plum"), |i| string(i, b"fig"));
    let b = or(Input::new(text), |i| string(i, b"plum"), |i| string(i, b"fig"));
    assert_eq!(a, b);
}

#[test]
fn or_passes_on_request_for_more_without_second_branch() {
    let r = or(Input::partial(&b"pe"[..]), |i| string(i, b"peach"), |i| string(i, b"pe"));
    assert!(matches!(r, ParseResult::Incomplete(3)));
}

#[test]
fn sep_by_parses_separated_list() {
    let r = sep_by(Input::new(&b"1,22,333;"[..]), number, comma);
    match &r {
        ParseResult::Data(_, v) => assert_eq!(v, &vec![1, 22, 333]),
        _ => panic!("expected success"),
    }
    assert_eq!(rest(&r), b";".to_vec());
}

#[test]
fn sep_by_leaves_trailing_separator() {
    let r = sep_by(Input::new(&b"1,2,x"[..]), number, comma);
    match &r {
        ParseResult::Data(_, v) => assert_eq!(v, &vec![1, 2]),
        _ => panic!("expected success"),
    }
    assert_eq!(rest(&r), b",x".to_vec());
}

#[test]
fn sep_by_without_item_is_empty_and_consumes_nothing() {
    let r = sep_by(Input::new(&b"x,1"[..]), number, comma);
    match &r {
        ParseResult::Data(_, v) => assert!(v.is_empty()),
        _ => panic!("expected success"),
    }
    assert_eq!(rest(&r), b"x,1".to_vec());
}

#[test]
fn decimal_overflow_on_u8() {
    let r = decimal::<u8>(Input::new(&b"256"[..]));
    assert!(matches!(r, ParseResult::Error(_, Error::Overflow)));
    assert_eq!(rest(&r), b"256".to_vec());
    let r = decimal::<u8>(Input::new(&b"255"[..]));
    assert!(matches!(r, ParseResult::Data(_, 255u8)));
    assert!(rest(&r).is_empty());
}

#[test]
fn decimal_takes_longest_digit_run() {
    let r = decimal::<u32>(Input::new(&b"123foobar"[..]));
    assert!(matches!(r, ParseResult::Data(_, 123u32)));
    assert_eq!(rest(&r), b"foobar".to_vec());
}

#[test]
fn decimal_needs_a_digit() {
    let r = decimal::<u32>(Input::new(&b"foobar"[..]));
    assert!(matches!(r, ParseResult::Error(_, Error::Unexpected)));
    assert_eq!(rest(&r), b"foobar".to_vec());
    let r = decimal::<u32>(Input::new(&b""[..]));
    assert!(matches!(r, ParseResult::Error(_, Error::Unexpected)));
}

#[test]
fn decimal_wide_types() {
    let r = decimal::<u64>(Input::new(&b"18446744073709551615"[..]));
    assert!(matches!(r, ParseResult::Data(_, u64::MAX)));
    let r = decimal::<u64>(Input::new(&b"18446744073709551616"[..]));
    assert!(matches!(r, ParseResult::Error(_, Error::Overflow)));
    let r = decimal::<i8>(Input::new(&b"127"[..]));
    assert!(matches!(r, ParseResult::Data(_, 127i8)));
    let r = decimal::<i8>(Input::new(&b"128"[..]));
    assert!(matches!(r, ParseResult::Error(_, Error::Overflow)));
    let r = decimal::<u16>(Input::new(&b"007"[..]));
    assert!(matches!(r, ParseResult::Data(_, 7u16)));
}

#[test]
fn decimal_incomplete_resumption() {
    let mut s: Stream<u8> = Stream::new();
    s.fill(&b"12"[..]);
    assert!(matches!(decimal::<u32>(s.input()), ParseResult::Incomplete(1)));
    s.fill(&b"3"[..]);
    s.finish();
    let resumed = decimal::<u32>(s.input());
    let whole = decimal::<u32>(Input::new(&b"123"[..]));
    assert!(matches!(resumed, ParseResult::Data(_, 123)));
    assert_eq!(resumed, whole);
    assert_eq!(rest(&resumed), rest(&whole));
}

#[test]
fn stream_advance_drops_consumed_tokens() {
    let mut s: Stream<u8> = Stream::new();
    s.fill(&b"12,"[..]);
    let used = match decimal::<u32>(s.input()) {
        ParseResult::Data(i, v) => {
            assert_eq!(v, 12);
            3 - i.len()
        }
        _ => panic!("expected success"),
    };
    s.advance(used);
    s.fill(&b"4"[..]);
    assert_eq!(s.input().to_vec(), b",4".to_vec());
    assert!(!s.input().is_last());
}

#[test]
fn buffer_unaffected_by_input_mutation() {
    let data = b"pattern rest".to_vec();
    let mut i = Input::new(&data[..]);
    let b = i.take(7);
    let before = b.to_vec();
    i.consume(1);
    let tail = i.consume_remaining();
    assert_eq!(tail, &b"rest"[..]);
    assert_eq!(b, &before[..]);
    assert_eq!(b, &b"pattern"[..]);
    assert!(i.remaining().is_empty());
}
