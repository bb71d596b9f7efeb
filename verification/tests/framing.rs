use relay::build_login_msg;
use relay::build_message_msg;
use relay::framer::Framer;
use relay::framer::Pushed;

fn feed_strings(f: &mut Framer, data: &[u8]) -> Vec<String> {
    f.feed(data).into_iter().map(|l| String::from_utf8(l).unwrap()).collect()
}

#[test]
fn login_message_format() {
    assert_eq!(build_login_msg(5001), "LOGIN:5001");
    assert_eq!(build_login_msg(0), "LOGIN:0");
    assert_eq!(build_login_msg(65535), "LOGIN:65535");
}

#[test]
fn relay_message_format() {
    assert_eq!(build_message_msg(5001, "hello"), "MESSAGE:5001 hello");
    assert_eq!(build_message_msg(7, ""), "MESSAGE:7 ");
    assert_eq!(build_message_msg(80, "two words"), "MESSAGE:80 two words");
}

#[test]
fn encode_appends_the_delimiter() {
    assert_eq!(relay::framer::encode_line("hi"), "hi\n");
    assert_eq!(relay::framer::encode_line(""), "\n");
}

#[test]
fn splits_lines_on_newline() {
    let mut f = Framer::new(8192);
    let lines = feed_strings(&mut f, b"hello\nworld\n");
    assert_eq!(lines, vec!["hello".to_string(), "world".to_string()]);
    assert!(!f.has_failed());
}

#[test]
fn partial_line_is_retained_across_feeds() {
    let mut f = Framer::new(8192);
    assert!(f.feed(b"hel").is_empty());
    let lines = feed_strings(&mut f, b"lo\n");
    assert_eq!(lines, vec!["hello".to_string()]);
}

#[test]
fn trailing_carriage_return_is_stripped() {
    let mut f = Framer::new(8192);
    let lines = feed_strings(&mut f, b"abc\r\n");
    assert_eq!(lines, vec!["abc".to_string()]);
}

#[test]
fn inner_carriage_return_is_kept() {
    let mut f = Framer::new(8192);
    let lines = feed_strings(&mut f, b"a\rb\n");
    assert_eq!(lines, vec!["a\rb".to_string()]);
}

#[test]
fn line_of_exactly_the_limit_is_accepted() {
    let mut f = Framer::new(4);
    let lines = feed_strings(&mut f, b"abcd\n");
    assert_eq!(lines, vec!["abcd".to_string()]);
    assert!(!f.has_failed());
}

#[test]
fn line_one_over_the_limit_fails_framing() {
    let mut f = Framer::new(4);
    let lines = f.feed(b"abcde");
    assert!(lines.is_empty());
    assert!(f.has_failed());
    // The sequence has ended: later bytes yield nothing.
    assert!(f.feed(b"x\n").is_empty());
    assert!(f.has_failed());
}

#[test]
fn push_byte_reports_each_outcome() {
    let mut f = Framer::new(2);
    assert!(matches!(f.push_byte(b'a'), Pushed::Pending));
    assert!(matches!(f.push_byte(b'b'), Pushed::Pending));
    match f.push_byte(b'\n') {
        Pushed::Line(l) => assert_eq!(l, b"ab".to_vec()),
        _ => panic!("expected a completed line"),
    }
    assert!(matches!(f.push_byte(b'x'), Pushed::Pending));
    assert!(matches!(f.push_byte(b'y'), Pushed::Pending));
    assert!(matches!(f.push_byte(b'z'), Pushed::Overflow));
    assert!(f.has_failed());
}
