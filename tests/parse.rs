use chomp::parse::{parse_only, parse_only_str, run_parser};
use chomp::input::Input;
use chomp::result::ParseResult;

#[test]
fn inspect_input() {
    let mut input = None;

    assert_eq!(
        parse_only(
            |i| {
                input = Some(i.to_vec());

                i.ret::<_, ()>("the result")
            },
            b"the input"
        ),
        Ok("the result")
    );

    assert_eq!(input, Some(b"the input".to_vec()));
}

#[test]
fn err() {
    assert_eq!(
        parse_only(
            |mut i| {
                i.consume(4);

                i.err::<(), _>("my error")
            },
            b"the input"
        ),
        Err((&b"input"[..], "my error"))
    );
}

#[test]
fn inspect_input_str() {
    let mut input = None;

    assert_eq!(
        parse_only_str(
            |i| {
                input = Some(i.to_owned());

                i.ret::<_, ()>("the result")
            },
            "the input"
        ),
        Ok("the result")
    );

    assert_eq!(input, Some("the input".to_owned()));
}

#[test]
fn err_str() {
    assert_eq!(
        parse_only_str(
            |mut i| {
                i.consume(4);

                i.err::<(), _>("my error")
            },
            "the input"
        ),
        Err(("input", "my error"))
    );
}

#[test]
fn err_str_counts_characters() {
    assert_eq!(
        parse_only_str(
            |mut i| {
                i.consume(2);

                i.err::<(), _>("bad")
            },
            "héllo"
        ),
        Err(("llo", "bad"))
    );
}

#[test]
fn run_parser_returns_remaining_input() {
    let (rest, r) = run_parser(Input::new(&b"abc"[..]), |mut i: Input<u8>| {
        i.consume(1);
        i.ret::<u32, ()>(7)
    });
    assert_eq!(r, Ok(7));
    assert_eq!(rest.remaining(), &b"bc"[..]);

    let (rest, r) = run_parser(Input::new(&b"abc"[..]), |i: Input<u8>| i.err::<u32, _>("no"));
    assert_eq!(r, Err("no"));
    assert_eq!(rest.remaining(), &b"abc"[..]);
}

#[test]
fn parse_only_discards_remainder_on_success() {
    let r = parse_only(|mut i| {
        let b = i.take(3);
        i.ret::<_, ()>(b.to_vec())
    }, b"pattern and more");
    assert_eq!(r, Ok(b"pat".to_vec()));
}

#[test]
fn into_inner_splits_outcome() {
    let r: ParseResult<u8, u32, ()> = ParseResult::Data(1, 2);
    assert_eq!(r.into_inner(), (1, Ok(2)));
    let r: ParseResult<u8, u32, &str> = ParseResult::Error(3, "e");
    assert_eq!(r.into_inner(), (3, Err("e")));
}
