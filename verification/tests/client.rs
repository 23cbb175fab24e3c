//! The client, against scripted servers, and what the command line shows.
use macro_bus::cli::{
    body_lines, published_text, registered_text, show, subscribed_text,
};
use macro_bus::client::{split_status, Client, ClientError, Event, Progress};
use macro_bus::reply::Reply;
use macro_bus::Message;

/// A client whose server wrote `script`, starting with a greeting, and closed the
/// connection or not.
fn scripted(script: &[u8], keep_open: bool) -> Client {
    let mut c = Client::new();
    c.feed(script);
    if !keep_open {
        c.close();
    }
    match c.poll() {
        Progress::Done(Ok(_)) => c,
        other => panic!("expected a greeting, got {other:?}"),
    }
}

/// Await the exchange that is under way.
fn outcome(c: &mut Client) -> Result<Reply, ClientError> {
    match c.poll() {
        Progress::Done(r) => r,
        other => panic!("not done: {other:?}"),
    }
}

fn event(c: &mut Client) -> Result<Event, ClientError> {
    c.next_event().expect("more input needed")
}

fn lines(list: &[&str]) -> Vec<String> {
    list.iter().map(|s| s.to_string()).collect()
}

#[test]
fn split_status_parsing() {
    assert_eq!(split_status("210 ok").unwrap(), (210, "ok".to_string()));
    assert_eq!(split_status("221").unwrap(), (221, String::new()));
    assert!(matches!(
        split_status("ab").unwrap_err(),
        ClientError::Protocol(_)
    ));
    assert!(matches!(
        split_status("xyz foo").unwrap_err(),
        ClientError::Protocol(_)
    ));
}

#[test]
fn split_status_edge_cases() {
    assert_eq!(split_status("210").unwrap(), (210, String::new()));
    assert_eq!(split_status("210 ").unwrap(), (210, String::new()));
    assert_eq!(split_status("210-more").unwrap(), (210, "more".to_string()));
    assert_eq!(split_status("210\u{e9}x").unwrap(), (210, String::new()));
    assert_eq!(
        split_status("+21 ok").unwrap_err(),
        ClientError::Protocol("non-numeric status: \"+21 ok\"".into())
    );
    assert!(matches!(
        split_status("ab\u{fffd}").unwrap_err(),
        ClientError::Protocol(_)
    ));
    assert_eq!(
        split_status("ab").unwrap_err(),
        ClientError::Protocol("short response line: \"ab\"".into())
    );
    assert_eq!(
        split_status("a\u{20ac}").unwrap_err(),
        ClientError::Protocol("non-numeric status: \"a\u{20ac}\"".into())
    );
}

#[test]
fn greeting_records_daemon_id() {
    let c = scripted(b"200 dz macro-bus MBP/1.0 ready\r\n", true);
    assert_eq!(c.daemon_id(), "dz");
}

#[test]
fn greeting_error_is_surfaced() {
    let mut c = Client::new();
    c.feed(b"400 service not available\r\n");
    match outcome(&mut c) {
        Err(ClientError::Server { code, .. }) => assert_eq!(code, 400),
        Err(e) => panic!("expected 400, got error {e:?}"),
        Ok(_) => panic!("expected 400, got a connected client"),
    }
}

#[test]
fn message_push_is_parsed_and_unstuffed() {
    let mut c = scripted(
        b"200 d macro-bus MBP/1.0 ready\r\n\
          101 MSG t abc d\r\nline1\r\n..dot\r\n.\r\n",
        true,
    );
    match event(&mut c).unwrap() {
        Event::Message(m) => {
            assert_eq!(m.msg_type, "t");
            assert_eq!(m.msg_id, "abc");
            assert_eq!(m.origin, "d");
            assert_eq!(m.body, vec!["line1".to_string(), ".dot".to_string()]);
        }
        other => panic!("expected message, got {other:?}"),
    }
}

#[test]
fn drop_and_note_pushes() {
    let mut c = scripted(
        b"200 d macro-bus MBP/1.0 ready\r\n\
          102 DROP sensors.temp 37\r\n\
          190 NOTE peer d2 up\r\n",
        true,
    );
    assert_eq!(
        event(&mut c).unwrap(),
        Event::Drop { msg_type: "sensors.temp".into(), count: 37 }
    );
    assert_eq!(event(&mut c).unwrap(), Event::Note("peer d2 up".into()));
}

#[test]
fn non_1xx_while_awaiting_push_is_protocol_error() {
    let mut c = scripted(b"200 d macro-bus MBP/1.0 ready\r\n250 unexpected\r\n", true);
    assert!(matches!(event(&mut c), Err(ClientError::Protocol(_))));
}

#[test]
fn closed_connection_reports_closed() {
    let mut c = scripted(b"200 d macro-bus MBP/1.0 ready\r\n", false);
    assert!(matches!(event(&mut c), Err(ClientError::Closed)));
}

#[test]
fn command_error_mapped_to_server_error() {
    let mut c = scripted(
        b"200 d macro-bus MBP/1.0 ready\r\n433 t already registered\r\n",
        true,
    );
    assert_eq!(c.register("t", "k"), "REGISTER t k\r\n");
    match outcome(&mut c) {
        Err(ClientError::Server { code, text }) => {
            assert_eq!(code, 433);
            assert!(text.contains("already registered"));
        }
        other => panic!("expected server error, got {other:?}"),
    }
}

#[test]
fn simple_command_acks() {
    // subscribe / unsubscribe / quit happy paths.
    let mut c = scripted(
        b"200 d macro-bus MBP/1.0 ready\r\n\
          211 subscribed t\r\n\
          212 unsubscribed t\r\n\
          221 closing connection\r\n",
        true,
    );
    assert_eq!(c.subscribe("t"), "SUBSCRIBE t\r\n");
    outcome(&mut c).unwrap();
    assert_eq!(c.unsubscribe("t"), "UNSUBSCRIBE t\r\n");
    outcome(&mut c).unwrap();
    assert_eq!(c.quit(), "QUIT\r\n");
    outcome(&mut c).unwrap();
}

#[test]
fn list_and_help_and_capabilities_blocks() {
    let mut c = scripted(
        b"200 d macro-bus MBP/1.0 ready\r\n\
          215 type list follows\r\na.t\r\nb.t\r\n.\r\n\
          231 help follows\r\nHELP line\r\n.\r\n\
          231 capabilities follow\r\nVERSION MBP/1.0\r\n.\r\n",
        true,
    );
    assert_eq!(c.list_types(), "LIST TYPES\r\n");
    assert_eq!(outcome(&mut c).unwrap().block, Some(lines(&["a.t", "b.t"])));
    assert_eq!(c.help(), "HELP\r\n");
    assert_eq!(outcome(&mut c).unwrap().block, Some(lines(&["HELP line"])));
    assert_eq!(c.capabilities(), "CAPABILITIES\r\n");
    assert_eq!(outcome(&mut c).unwrap().block, Some(lines(&["VERSION MBP/1.0"])));
}

#[test]
fn publish_body_then_ack() {
    // 354 invitation, then (after body) 250.
    let mut c = scripted(
        b"200 d macro-bus MBP/1.0 ready\r\n\
          354 enter body\r\n250 message accepted\r\n",
        true,
    );
    assert_eq!(c.publish("t", "k", &lines(&[".dotted", "plain"])), "PUBLISH t k\r\n");
    match c.poll() {
        Progress::Send(body) => assert_eq!(body, "..dotted\r\nplain\r\n.\r\n"),
        other => panic!("expected the body, got {other:?}"),
    }
    outcome(&mut c).unwrap();
}

#[test]
fn publish_precheck_error_instead_of_354() {
    let mut c = scripted(
        b"200 d macro-bus MBP/1.0 ready\r\n441 authorization key mismatch\r\n",
        true,
    );
    c.publish("t", "wrong", &lines(&["x"]));
    match outcome(&mut c) {
        Err(ClientError::Server { code, .. }) => assert_eq!(code, 441),
        other => panic!("expected 441, got {other:?}"),
    }
}

#[test]
fn push_buffered_during_command_is_returned_by_next_event() {
    // A 101 push arrives before the command reply; the reply must still be
    // matched, and the push returned afterwards.
    let mut c = scripted(
        b"200 d macro-bus MBP/1.0 ready\r\n\
          101 MSG t id1 d\r\nhi\r\n.\r\n\
          211 subscribed t\r\n",
        true,
    );
    c.subscribe("t");
    outcome(&mut c).unwrap();
    match event(&mut c).unwrap() {
        Event::Message(m) => assert_eq!(m.body, vec!["hi".to_string()]),
        other => panic!("expected buffered message, got {other:?}"),
    }
}

#[test]
fn input_may_arrive_in_pieces() {
    let mut c = Client::new();
    let script = b"200 d macro-bus MBP/1.0 ready\r\n101 MSG t id d\r\nhi\r\n.\r\n211 subscribed t\r\n";
    assert!(matches!(c.poll(), Progress::Read));
    let mut done = 0;
    for b in script {
        c.feed(&[*b]);
        match c.poll() {
            Progress::Read => {}
            Progress::Done(r) => {
                r.unwrap();
                done += 1;
                if done == 1 {
                    c.subscribe("t");
                }
            }
            other => panic!("unexpected {other:?}"),
        }
    }
    assert_eq!(done, 2);
    assert!(matches!(event(&mut c), Ok(Event::Message(_))));
    assert!(c.next_event().is_none());
}

#[test]
fn malformed_pushes_are_protocol_errors() {
    let mut c = scripted(
        b"200 d macro-bus MBP/1.0 ready\r\n\
          101 MSX t id d\r\n\
          101 MSG t id\r\n\
          102 DRIP t 1\r\n\
          102 DROP t x\r\n\
          102 DROP t +5\r\n\
          102 DROP t\r\n\
          190 plain\r\n\
          199 odd\r\n\
          hello\r\n",
        true,
    );
    let mut texts = Vec::new();
    for _ in 0..6 {
        match event(&mut c) {
            Err(ClientError::Protocol(s)) => texts.push(s),
            other => panic!("expected an error, got {other:?}"),
        }
    }
    assert_eq!(
        texts,
        vec![
            "bad 101 header: MSX t id d",
            "incomplete 101 header: MSG t id",
            "bad 102 header: DRIP t 1",
            "bad 102 count: DROP t x",
            "bad 102 count: DROP t +5",
            "bad 102 count: DROP t",
        ]
    );
    assert_eq!(event(&mut c).unwrap(), Event::Note("plain".into()));
    assert_eq!(
        event(&mut c).unwrap_err(),
        ClientError::Protocol("unknown 1xx code 199".into())
    );
    assert_eq!(
        event(&mut c).unwrap_err().to_text(),
        "protocol error: non-numeric status: \"hello\""
    );
}

#[test]
fn overlong_line_is_a_protocol_error() {
    let mut c = scripted(b"200 d macro-bus MBP/1.0 ready\r\n", true);
    c.feed(&vec![b'x'; 131073]);
    assert_eq!(
        event(&mut c).unwrap_err(),
        ClientError::Protocol("line too long".into())
    );
    let mut c = scripted(b"200 d macro-bus MBP/1.0 ready\r\n", true);
    c.feed(&vec![b'x'; 131072]);
    assert!(c.next_event().is_none());
}

#[test]
fn connection_lost_during_a_command() {
    let mut c = scripted(b"200 d macro-bus MBP/1.0 ready\r\n211 subs", false);
    c.subscribe("t");
    assert_eq!(outcome(&mut c).unwrap_err(), ClientError::Closed);
    // Nothing is under way any more.
    assert!(matches!(c.poll(), Progress::Read));
}

#[test]
fn errors_in_words() {
    assert_eq!(ClientError::Io("gone".into()).to_text(), "io error: gone");
    assert_eq!(ClientError::Closed.to_text(), "connection closed by server");
    assert_eq!(
        ClientError::Server { code: 433, text: "t already registered".into() }.to_text(),
        "server error 433: t already registered"
    );
    assert_eq!(ClientError::Protocol("x".into()).to_text(), "protocol error: x");
}

// --- the command line -----------------------------------------------------------------

#[test]
fn body_text_is_split_into_lines() {
    assert_eq!(body_lines("21.4C\n"), lines(&["21.4C"]));
    assert_eq!(body_lines("21.4C"), lines(&["21.4C"]));
    assert_eq!(body_lines("a\n\nb\n\n"), lines(&["a", "", "b", ""]));
    assert_eq!(body_lines(""), lines(&[]));
    assert_eq!(body_lines("\n"), lines(&[""]));
}

#[test]
fn events_are_shown() {
    let m = Message::new("sensors.temp", "d1-1", "d1", lines(&["21.4C"]));
    let s = show(Ok(Event::Message(m)));
    assert_eq!(s.out, lines(&["--- sensors.temp [d1-1] from d1", "21.4C"]));
    assert!(s.err.is_empty() && s.end.is_none());

    let s = show(Ok(Event::Drop { msg_type: "t".into(), count: 37 }));
    assert_eq!(s.err, lines(&["[dropped 37 message(s) on t \u{2014} consumer fell behind]"]));
    assert!(s.out.is_empty() && s.end.is_none());

    let s = show(Ok(Event::Note("peer up".into())));
    assert_eq!(s.err, lines(&["[note] peer up"]));

    let s = show(Err(ClientError::Closed));
    assert_eq!(s.err, lines(&["connection closed by daemon"]));
    assert_eq!(s.end, Some(Ok(())));

    let s = show(Err(ClientError::Protocol("x".into())));
    assert!(s.out.is_empty() && s.err.is_empty());
    assert_eq!(s.end, Some(Err(ClientError::Protocol("x".into()))));
}

#[test]
fn results_are_shown() {
    assert_eq!(registered_text("t"), "registered t");
    assert_eq!(published_text("t", 2), "published to t (2 line(s))");
    assert_eq!(
        subscribed_text(&lines(&["a", "b", "c"]), "d1"),
        "subscribed to [a, b, c] on d1 \u{2014} waiting for messages (Ctrl-C to stop)"
    );
    assert_eq!(
        subscribed_text(&lines(&["a"]), "d1"),
        "subscribed to [a] on d1 \u{2014} waiting for messages (Ctrl-C to stop)"
    );
}
