use jedis::resp::parser::{parse_command, ParseOutcome};
use jedis::resp::writer::{array, bulk_string, empty_array, error, integer, nil, simple_string};

fn complete(b: &[u8]) -> (Vec<String>, usize) {
    match parse_command(b) {
        ParseOutcome::Complete(p, n) => (p, n),
        ParseOutcome::Incomplete => panic!("incomplete"),
        ParseOutcome::Invalid => panic!("invalid"),
    }
}

#[test]
fn writer_forms() {
    assert_eq!(simple_string("OK"), "+OK\r\n");
    assert_eq!(error("something"), "-ERR something\r\n");
    assert_eq!(integer(42), ":42\r\n");
    assert_eq!(integer(-7), ":-7\r\n");
    assert_eq!(integer(i64::MIN), ":-9223372036854775808\r\n");
    assert_eq!(bulk_string("Aditya"), "$6\r\nAditya\r\n");
    assert_eq!(bulk_string("€"), "$3\r\n€\r\n");
    assert_eq!(nil(), "$-1\r\n");
    assert_eq!(array(&["foo".to_string(), "bar".to_string()]), "*2\r\n$3\r\nfoo\r\n$3\r\nbar\r\n");
    assert_eq!(array(&[]), "*0\r\n");
    assert_eq!(empty_array(), "*0\r\n");
}

#[test]
fn parse_simple_command() {
    let (parts, used) = complete(b"*2\r\n$3\r\nGET\r\n$3\r\nkey\r\n");
    assert_eq!(parts, vec!["GET".to_string(), "key".to_string()]);
    assert_eq!(used, 22);
}

#[test]
fn parse_leaves_following_bytes() {
    let (parts, used) = complete(b"*1\r\n$4\r\nPING\r\n*1\r\n$4\r\nPING\r\n");
    assert_eq!(parts, vec!["PING".to_string()]);
    assert_eq!(used, 14);
}

#[test]
fn parse_needs_more_bytes() {
    for cut in [0usize, 1, 3, 4, 8, 12, 13] {
        let b = b"*1\r\n$4\r\nPING\r\n";
        assert!(matches!(parse_command(&b[..cut]), ParseOutcome::Incomplete), "cut {}", cut);
    }
}

#[test]
fn parse_rejects_bad_headers() {
    assert!(matches!(parse_command(b"PING\r\n"), ParseOutcome::Invalid));
    assert!(matches!(parse_command(b"*x\r\n"), ParseOutcome::Invalid));
    assert!(matches!(parse_command(b"*1\r\n:4\r\nPING\r\n"), ParseOutcome::Invalid));
    assert!(matches!(parse_command(b"*-1\r\n"), ParseOutcome::Invalid));
    assert!(matches!(parse_command(b"\xff*1\r\n"), ParseOutcome::Invalid));
}

#[test]
fn parse_is_lenient_like_the_line_reader() {
    // lines are trimmed, '+' signs are accepted, and the two bytes after the data are skipped
    let (parts, used) = complete(b"  *+1 \n$+2\nhiXY");
    assert_eq!(parts, vec!["hi".to_string()]);
    assert_eq!(used, 15);
    let (parts, _) = complete(b"*0\r\n");
    assert!(parts.is_empty());
}

#[test]
fn parse_replaces_invalid_utf8_in_data() {
    let (parts, _) = complete(b"*1\r\n$2\r\n\xffA\r\n");
    assert_eq!(parts, vec!["\u{fffd}A".to_string()]);
}

#[test]
fn writer_output_parses_back() {
    let items = vec!["SET".to_string(), "caf\u{e9}".to_string(), "".to_string(), "a b\r\nc".to_string()];
    let text = array(&items);
    let (parts, used) = complete(text.as_bytes());
    assert_eq!(parts, items);
    assert_eq!(used, text.len());
}

#[test]
fn parse_decision_is_kept_when_more_bytes_arrive() {
    let whole = b"*2\r\n$4\r\nECHO\r\n$2\r\nhi\r\n";
    for extra in [&b""[..], b"*", b"*1\r\n$4\r\nPING\r\n", b"\xff\xfe"] {
        let mut b = whole.to_vec();
        b.extend_from_slice(extra);
        let (parts, used) = complete(&b);
        assert_eq!(parts, vec!["ECHO".to_string(), "hi".to_string()]);
        assert_eq!(used, whole.len());
    }
    let mut bad = b"GET x\r\n".to_vec();
    assert!(matches!(parse_command(&bad), ParseOutcome::Invalid));
    bad.extend_from_slice(b"*1\r\n$4\r\nPING\r\n");
    assert!(matches!(parse_command(&bad), ParseOutcome::Invalid));
    // a read that needs more bytes completes once they arrive
    assert!(matches!(parse_command(&whole[..10]), ParseOutcome::Incomplete));
    assert_eq!(complete(whole).1, whole.len());
}
