//! Commands, framing, messages, status codes and validation.
use macro_bus::command::ParseError;
use macro_bus::frame::{encode_body, stuff_line, unstuff_line};
use macro_bus::number::{read_digits, to_decimal, to_hex};
use macro_bus::reply::{write_line, Reply};
use macro_bus::status;
use macro_bus::status::{class, is_async, Class};
use macro_bus::text::{self, Trim};
use macro_bus::validate::{is_tchar, is_valid_key, is_valid_type};
use macro_bus::wire::{discard_line, take_line, LineTake};
use macro_bus::{greeting, parse, peer_greeting, Command, Message};

// --- commands -------------------------------------------------------------------

#[test]
fn parses_simple_commands() {
    assert_eq!(parse("CAPABILITIES").unwrap(), Command::Capabilities);
    assert_eq!(parse("help").unwrap(), Command::Help);
    assert_eq!(parse("QuIt").unwrap(), Command::Quit);
    assert_eq!(parse("LIST TYPES").unwrap(), Command::ListTypes);
    assert_eq!(parse("list types").unwrap(), Command::ListTypes);
}

#[test]
fn commands_are_case_insensitive_args_are_not() {
    assert_eq!(
        parse("register Sensors.Temp S3cr3t").unwrap(),
        Command::Register { msg_type: "Sensors.Temp".into(), key: "S3cr3t".into() }
    );
    // A different-cased type is a distinct type.
    assert_ne!(
        parse("SUBSCRIBE sensors.temp").unwrap(),
        parse("SUBSCRIBE sensors.TEMP").unwrap()
    );
}

#[test]
fn register_and_publish_shapes() {
    assert_eq!(
        parse("PUBLISH a.b key1").unwrap(),
        Command::Publish { msg_type: "a.b".into(), key: "key1".into() }
    );
    assert_eq!(
        parse("SUBSCRIBE a.b").unwrap(),
        Command::Subscribe { msg_type: "a.b".into() }
    );
    assert_eq!(
        parse("UNSUBSCRIBE a.b").unwrap(),
        Command::Unsubscribe { msg_type: "a.b".into() }
    );
}

#[test]
fn tolerates_surrounding_and_internal_whitespace() {
    assert_eq!(
        parse("  SUBSCRIBE   a.b  ").unwrap(),
        Command::Subscribe { msg_type: "a.b".into() }
    );
    assert_eq!(
        parse("REGISTER   a.b   k").unwrap(),
        Command::Register { msg_type: "a.b".into(), key: "k".into() }
    );
}

#[test]
fn rejects_bad_arity() {
    assert_eq!(parse("SUBSCRIBE").unwrap_err().code, status::SYNTAX_PARAMS);
    assert_eq!(parse("SUBSCRIBE a b").unwrap_err().code, status::SYNTAX_PARAMS);
    assert_eq!(parse("REGISTER a").unwrap_err().code, status::SYNTAX_PARAMS);
    assert_eq!(parse("REGISTER a b c").unwrap_err().code, status::SYNTAX_PARAMS);
    assert_eq!(parse("CAPABILITIES x").unwrap_err().code, status::SYNTAX_PARAMS);
}

#[test]
fn rejects_unknown_command() {
    assert_eq!(parse("FROBNICATE x").unwrap_err().code, status::SYNTAX);
    assert_eq!(parse("").unwrap_err().code, status::SYNTAX);
}

#[test]
fn rejects_invalid_type_name() {
    assert_eq!(parse("SUBSCRIBE bad name").unwrap_err().code, status::SYNTAX_PARAMS); // too many args
    assert_eq!(parse("SUBSCRIBE bad!name").unwrap_err().code, status::INVALID_TYPE);
    assert_eq!(parse("REGISTER bad!name k").unwrap_err().code, status::INVALID_TYPE);
}

#[test]
fn list_variants() {
    assert_eq!(parse("LIST").unwrap_err().code, status::SYNTAX_PARAMS);
    assert_eq!(parse("LIST FROBS").unwrap_err().code, status::NOT_IMPLEMENTED);
}

#[test]
fn parse_errors_say_why() {
    let reason = |line: &str| parse(line).unwrap_err().reason;
    assert_eq!(reason(" \t "), "empty command");
    assert_eq!(reason("NOPE"), "command unrecognized");
    assert_eq!(reason("QUIT now"), "command takes no arguments");
    assert_eq!(reason("SUBSCRIBE"), "missing argument");
    assert_eq!(reason("SUBSCRIBE a b"), "too many arguments");
    assert_eq!(reason("PUBLISH"), "missing arguments");
    assert_eq!(reason("PUBLISH a"), "missing second argument");
    assert_eq!(reason("PUBLISH a b c"), "too many arguments");
    assert_eq!(reason("PUBLISH a! b"), "invalid message type name");
    assert_eq!(reason("PUBLISH a b\u{e9}"), "invalid authorization key");
    assert_eq!(reason("LIST"), "LIST requires a sub-command (TYPES)");
    assert_eq!(reason("LIST FROBS"), "only LIST TYPES is supported");
    assert_eq!(
        parse("LIST FROBS").unwrap_err().to_text(),
        "502 only LIST TYPES is supported"
    );
    let e = ParseError { code: 500, reason: "x".into() };
    assert_eq!(e.to_text(), "500 x");
}

#[test]
fn ascii_white_space_around_a_command_is_tolerated() {
    assert_eq!(parse("\u{c}QUIT").unwrap(), Command::Quit);
    assert_eq!(parse("\r\n\t HELP \u{c}\t").unwrap(), Command::Help);
    // A vertical tab and a no-break space are not ASCII white space.
    assert_eq!(parse("\u{b}QUIT").unwrap_err().code, status::SYNTAX);
    assert_eq!(parse("\u{a0}QUIT").unwrap_err().code, status::SYNTAX);
}

#[test]
fn verbs_end_at_a_space_only() {
    // A tab after the verb is part of the verb.
    assert_eq!(parse("QUIT\tnow").unwrap_err().code, status::SYNTAX);
    // Other white space around an argument is dropped with it.
    assert_eq!(
        parse("SUBSCRIBE \u{a0}a.b\u{a0}").unwrap(),
        Command::Subscribe { msg_type: "a.b".into() }
    );
}

// --- framing ----------------------------------------------------------------------

#[test]
fn stuffing_roundtrip() {
    for raw in ["hello", ".hidden", "..double", "normal.", "", "21.4C"] {
        let stuffed = stuff_line(raw);
        let back = unstuff_line(&stuffed);
        assert_eq!(back, raw, "roundtrip failed for {raw:?}");
    }
}

#[test]
fn stuff_only_when_leading_dot() {
    assert_eq!(&*stuff_line("foo"), "foo");
    assert_eq!(&*stuff_line(".foo"), "..foo");
    assert_eq!(&*stuff_line("."), "..");
}

#[test]
fn unstuff_strips_one_dot() {
    assert_eq!(unstuff_line("..foo"), ".foo");
    assert_eq!(unstuff_line("..."), "..");
    assert_eq!(unstuff_line("foo"), "foo");
}

#[test]
fn unstuff_leaves_a_single_dot() {
    assert_eq!(unstuff_line(".foo"), ".foo");
    assert_eq!(unstuff_line(".\u{e9}"), ".\u{e9}");
    assert_eq!(unstuff_line("..\u{e9}"), ".\u{e9}");
}

#[test]
fn encodes_full_block() {
    let body = vec!["line one".to_string(), ".dotted".to_string()];
    assert_eq!(encode_body(&body), "line one\r\n..dotted\r\n.\r\n");
}

#[test]
fn encodes_empty_body() {
    assert_eq!(encode_body(&[]), ".\r\n");
}

// --- greetings and messages ---------------------------------------------------------

#[test]
fn greeting_format() {
    assert_eq!(greeting("d1"), "200 d1 macro-bus MBP/1.0 ready");
}

#[test]
fn peer_greeting_format() {
    assert_eq!(peer_greeting("d1"), "200 d1 macro-bus-peer MBP/1.0 ready");
}

#[test]
fn delivery_block_format() {
    let m = Message::new("sensors.temp", "d1-1", "d1", vec!["21.4C".into()]);
    assert_eq!(m.msg_header(), "101 MSG sensors.temp d1-1 d1");
    assert_eq!(
        m.encode_delivery(),
        "101 MSG sensors.temp d1-1 d1\r\n21.4C\r\n.\r\n"
    );
}

#[test]
fn dotted_body_line_is_stuffed_in_delivery() {
    let m = Message::new("t", "d1-2", "d1", vec![".leading".into()]);
    assert_eq!(
        m.encode_delivery(),
        "101 MSG t d1-2 d1\r\n..leading\r\n.\r\n"
    );
}

#[test]
fn feed_header_format() {
    let m = Message::new("t", "d1-3", "d1", vec![]);
    assert_eq!(m.feed_header(), "FEED t d1-3 d1");
}

#[test]
fn feed_block_format() {
    let m = Message::new("t", "d1-4", "d1", vec!["a".into(), ".b".into()]);
    assert_eq!(m.encode_feed(), "FEED t d1-4 d1\r\na\r\n..b\r\n.\r\n");
}

// --- status codes and replies ----------------------------------------------------------

#[test]
fn classification_by_leading_digit() {
    assert_eq!(class(101), Class::Async);
    assert_eq!(class(200), Class::Positive);
    assert_eq!(class(354), Class::Intermediate);
    assert_eq!(class(441), Class::Transient);
    assert_eq!(class(500), Class::Permanent);
    assert_eq!(class(999), Class::Other);
}

#[test]
fn only_1xx_is_async() {
    assert!(is_async(status::MSG));
    assert!(is_async(status::DROP));
    assert!(is_async(status::NOTE));
    assert!(!is_async(status::SERVICE_READY));
    assert!(!is_async(status::ACCEPTED));
    assert!(!is_async(status::START_BODY));
    assert!(!is_async(status::KEY_MISMATCH));
    assert!(!is_async(status::SYNTAX));
}

#[test]
fn replies_on_the_wire() {
    assert_eq!(write_line(250, "message accepted"), "250 message accepted\r\n");
    assert_eq!(Reply::line(221, "bye").encode(), "221 bye\r\n");
    let r = Reply::listing(215, "type list follows", vec!["a".into(), ".b".into()]);
    assert_eq!(r.encode(), "215 type list follows\r\na\r\n..b\r\n.\r\n");
}

// --- validation -------------------------------------------------------------------------

#[test]
fn valid_types() {
    assert!(is_valid_type("sensors.temperature"));
    assert!(is_valid_type("orders/created"));
    assert!(is_valid_type("a-b_c.d/e"));
    assert!(is_valid_type("X"));
}

#[test]
fn invalid_types() {
    assert!(!is_valid_type(""));
    assert!(!is_valid_type("has space"));
    assert!(!is_valid_type("bang!"));
    assert!(!is_valid_type("tab\there"));
    assert!(!is_valid_type("uni\u{00e9}code"));
}

#[test]
fn keys() {
    assert!(is_valid_key("s3cr3t"));
    assert!(is_valid_key("!@#$%^&*()"));
    assert!(!is_valid_key(""));
    assert!(!is_valid_key("has space"));
    assert!(!is_valid_key("nul\0"));
}

#[test]
fn token_characters() {
    for c in ['a', 'Z', '0', '-', '.', '_', '/'] {
        assert!(is_tchar(c));
    }
    for c in [' ', '!', '\\', ':', '\u{e9}'] {
        assert!(!is_tchar(c));
    }
}

// --- text and numbers ----------------------------------------------------------------------

#[test]
fn numbers_as_text() {
    assert_eq!(to_decimal(0), "0");
    assert_eq!(to_decimal(u64::MAX), "18446744073709551615");
    assert_eq!(to_hex(0), "0");
    assert_eq!(to_hex(0xbeef), "beef");
    assert_eq!(to_hex(u64::MAX), "ffffffffffffffff");
}

#[test]
fn text_as_numbers() {
    assert_eq!(read_digits("37", 100), Some(37));
    assert_eq!(read_digits("007", 100), Some(7));
    assert_eq!(read_digits("101", 100), None);
    assert_eq!(read_digits("", 100), None);
    assert_eq!(read_digits("+", 100), None);
    assert_eq!(read_digits("-1", 100), None);
    assert_eq!(read_digits("1x", 100), None);
    assert_eq!(read_digits("18446744073709551615", u64::MAX), Some(u64::MAX));
    assert_eq!(read_digits("18446744073709551616", u64::MAX), None);
    assert_eq!(read_digits("+37", 100), None);
}

#[test]
fn text_helpers() {
    assert_eq!(text::split_on("a,,b", ','), vec!["a", "", "b"]);
    assert_eq!(text::split_on("", ','), vec![""]);
    assert_eq!(text::split_words("  a  b "), vec!["a", "b"]);
    assert_eq!(text::trimmed("\u{2003}a b\n", Trim::White), "a b");
    assert_eq!(text::trimmed(" \t\r\u{c}\u{b}a\n", Trim::Ascii), "\u{b}a");
    assert_eq!(text::trimmed_start("  a ", Trim::Space), "a ");
    assert_eq!(text::to_upper("aZ\u{e9}1"), "AZ\u{e9}1");
    assert!(text::str_lt("a", "b"));
    assert!(text::str_lt("a", "aa"));
    assert!(!text::str_lt("b", "a"));
    assert!(!text::str_lt("a", "a"));
    assert!(text::str_eq("\u{e9}", "\u{e9}"));
    assert!(!text::str_eq("e", "\u{e9}"));
    assert_eq!(text::after_prefix("NOTE x", "NOTE "), Some("x".to_string()));
    assert_eq!(text::after_prefix("NOT", "NOTE "), None);
}

// --- lines off a buffer -------------------------------------------------------------------

#[test]
fn lines_are_taken_off_a_buffer() {
    let mut buf = b"one\r\ntwo\nthr".to_vec();
    assert!(matches!(take_line(&mut buf, 8), LineTake::Line(l) if l == b"one"));
    assert!(matches!(take_line(&mut buf, 8), LineTake::Line(l) if l == b"two"));
    assert!(matches!(take_line(&mut buf, 8), LineTake::Need));
    assert_eq!(buf, b"thr");
    // Only one carriage return belongs to the terminator.
    let mut buf = b"x\r\r\n".to_vec();
    assert!(matches!(take_line(&mut buf, 8), LineTake::Line(l) if l == b"x\r"));
}

#[test]
fn overlong_lines_are_refused() {
    // A complete one is consumed; its terminator does not count.
    let mut buf = b"12345\r\n123\r\n".to_vec();
    assert!(matches!(take_line(&mut buf, 4), LineTake::TooLong));
    assert!(matches!(take_line(&mut buf, 4), LineTake::Line(l) if l == b"123"));
    // One whose end has not arrived stays.
    let mut buf = b"12345".to_vec();
    assert!(matches!(take_line(&mut buf, 4), LineTake::TooLong));
    assert_eq!(buf, b"12345");
    assert!(!discard_line(&mut buf));
    assert!(buf.is_empty());
    let mut buf = b"67\nnext".to_vec();
    assert!(discard_line(&mut buf));
    assert_eq!(buf, b"next");
}

#[test]
fn a_pending_carriage_return_does_not_count() {
    // The limit leaves out the terminator, of which only the first half is there.
    let mut buf = b"abc\r".to_vec();
    assert!(matches!(take_line(&mut buf, 3), LineTake::Need));
    assert_eq!(buf, b"abc\r");
    buf.push(b'\n');
    assert!(matches!(take_line(&mut buf, 3), LineTake::Line(l) if l == b"abc"));
    // It was no terminator after all.
    let mut buf = b"abc\rx".to_vec();
    assert!(matches!(take_line(&mut buf, 3), LineTake::TooLong));
    let mut buf = b"abcd\r".to_vec();
    assert!(matches!(take_line(&mut buf, 3), LineTake::TooLong));
}
