use chomp::float::match_float;
use chomp::input::Input;
use chomp::result::{Error, ParseResult};

fn matched(text: &[u8]) -> Option<(Vec<u8>, Vec<u8>)> {
    match match_float(Input::new(text)) {
        ParseResult::Data(i, b) => Some((b.to_vec(), i.to_vec())),
        _ => None,
    }
}

#[test]
fn match_float_full_literal() {
    assert_eq!(matched(b"-12.5e+3,"), Some((b"-12.5e+3".to_vec(), b",".to_vec())));
    assert_eq!(matched(b"3.25"), Some((b"3.25".to_vec(), vec![])));
    assert_eq!(matched(b"42x"), Some((b"42".to_vec(), b"x".to_vec())));
}

#[test]
fn match_float_point_forms() {
    assert_eq!(matched(b".5"), Some((b".5".to_vec(), vec![])));
    assert_eq!(matched(b"1."), Some((b"1.".to_vec(), vec![])));
    assert_eq!(matched(b"1E7"), Some((b"1E7".to_vec(), vec![])));
}

#[test]
fn match_float_leaves_exponent_without_digits() {
    assert_eq!(matched(b"1e"), Some((b"1".to_vec(), b"e".to_vec())));
    assert_eq!(matched(b"1e+x"), Some((b"1".to_vec(), b"e+x".to_vec())));
}

#[test]
fn match_float_needs_a_digit() {
    for text in [&b"abc"[..], &b"+"[..], &b"."[..], &b"-.e5"[..], &b""[..]] {
        match match_float(Input::new(text)) {
            ParseResult::Error(i, e) => {
                assert_eq!(e, Error::Unexpected);
                assert_eq!(i.remaining(), text);
            }
            _ => panic!("expected failure"),
        }
    }
}

#[test]
fn match_float_partial_data_asks_for_more() {
    for text in [&b"12"[..], &b"1.5"[..], &b"1e"[..], &b"1e-"[..], &b"-"[..]] {
        assert!(matches!(match_float(Input::partial(text)), ParseResult::Incomplete(1)));
    }
    assert!(matches!(match_float(Input::partial(&b"1.5 "[..])), ParseResult::Data(_, b) if b == &b"1.5"[..]));
}

#[test]
fn float_pi_precision() {
    let text = b"3.14159265358979323846264338327950288419716939937510 rest";
    let (lit, rest) = matched(text).expect("a literal");
    assert_eq!(rest, b" rest".to_vec());
    let v: f64 = std::str::from_utf8(&lit).unwrap().parse().unwrap();
    assert_eq!(v, std::f64::consts::PI);
    assert_eq!(v, "3.14159265358979323846264338327950288419716939937510".parse::<f64>().unwrap());
}
