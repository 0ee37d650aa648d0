use bytes::Bytes;
use netbench::h09::parse_h09_request;
use netbench::Error;

fn run(chunks: &[&'static str]) -> Result<Option<String>, Error> {
    let chunks: Vec<Bytes> = chunks.iter().map(|c| Bytes::from_static(c.as_bytes())).collect();
    let mut path = String::new();

    for idx in 0..chunks.len() {
        let _ = parse_h09_request(&chunks[..idx], &mut path, true);
    }

    let result = parse_h09_request(&chunks, &mut path, false);
    result.map(|has_request| if has_request { Some(path) } else { None })
}

#[test]
fn parse_h09_request_test() {
    assert!(matches!(run(&[]), Err(_)));
    assert_eq!(run(&["GET /"]), Ok(Some(String::new())));
    assert_eq!(run(&["GET /abc"]), Ok(Some("abc".to_string())));
    assert_eq!(run(&["GET /abc/123"]), Ok(Some("abc/123".to_string())));
    assert_eq!(run(&["GET /CAPS/lower"]), Ok(Some("CAPS/lower".to_string())));
    assert_eq!(run(&["GET /abc\rextra stuff"]), Ok(Some("abc".to_string())));
    assert_eq!(run(&["G", "E", "T", " ", "/", "t", "E", "s", "T"]), Ok(Some("tEsT".to_string())));
}

#[test]
fn h09_incomplete_request_waits_while_open() {
    let chunks = [Bytes::from_static(b"GE")];
    let mut path = String::from("keep");
    assert_eq!(parse_h09_request(&chunks, &mut path, true), Ok(false));
    assert_eq!(path, "keep");
    assert_eq!(parse_h09_request(&chunks, &mut path, false), Err(Error::InvalidRequest));
    assert_eq!(path, "keep");
}

#[test]
fn h09_path_still_open_is_not_done() {
    let chunks = [Bytes::from_static(b"GET /a-b.c")];
    let mut path = String::new();
    assert_eq!(parse_h09_request(&chunks, &mut path, true), Ok(false));
    assert_eq!(path, "a-b.c");
}

#[test]
fn h09_rejects_other_methods_and_bytes() {
    let mut path = String::new();
    assert_eq!(parse_h09_request(&[Bytes::from_static(b"PUT /x\n")], &mut path, false), Err(Error::InvalidRequest));
    let mut path = String::new();
    assert_eq!(
        parse_h09_request(&[Bytes::from_static(b"GET /a b\n")], &mut path, false),
        Err(Error::InvalidRequestByte(b' '))
    );
    assert_eq!(path, "a");
    let mut path = String::new();
    assert_eq!(parse_h09_request(&[Bytes::from_static(b"GET /x\n")], &mut path, true), Ok(true));
    assert_eq!(path, "x");
}
