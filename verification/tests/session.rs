//! A daemon's connections, driven line by line and through the client.
use macro_bus::client::{Client, ClientError, Event, Progress};
use macro_bus::config::Limits;
use macro_bus::conn::{
    encode_outbound, next_conn_id, now_ms, timestamp, Conn, Flow, Forward, FIRST_CONN_ID,
};
use macro_bus::queue::Outbound;
use macro_bus::registry::Registry;
use macro_bus::reply::Reply;

/// A standalone daemon.
struct Daemon {
    registry: Registry,
    counter: u64,
    limits: Limits,
}

/// One connection to it, with what the daemon wrote.
struct Wire {
    conn: Conn,
    output: String,
    closed: bool,
    forwards: Vec<Forward>,
}

impl Daemon {
    fn start(id: &str) -> Daemon {
        Daemon { registry: Registry::new(id, 1024), counter: 1, limits: Limits::default() }
    }

    fn connect(&mut self) -> Wire {
        let id = next_conn_id(&mut self.counter);
        let output = Conn::banner(&self.registry);
        Wire { conn: Conn::new(id, self.limits), output, closed: false, forwards: Vec::new() }
    }

    /// Let a connection work until it waits, delivering what is queued for it
    /// where that is in order.
    fn serve(&mut self, w: &mut Wire) {
        while !w.closed {
            let step = w.conn.step(&mut self.registry, 7);
            w.output.push_str(&step.output);
            w.forwards.extend(step.forward);
            match step.flow {
                Flow::Continue => {}
                Flow::Read => return,
                Flow::Close => w.closed = true,
                Flow::Select => match w.conn.out_rx.try_recv() {
                    Ok(item) => w.output.push_str(&encode_outbound(&item)),
                    Err(_) => return,
                },
            }
        }
    }

    fn send(&mut self, w: &mut Wire, text: &str) {
        w.conn.feed(text.as_bytes());
        w.conn.feed(b"\r\n");
        self.serve(w);
    }
}

impl Wire {
    fn line(&mut self) -> String {
        let end = self.output.find("\r\n").expect("no line was written");
        let line = self.output[..end].to_string();
        self.output.drain(..end + 2);
        line
    }

    fn code(&mut self) -> u16 {
        self.line()[..3].parse().unwrap()
    }

    fn block(&mut self) -> Vec<String> {
        let mut out = Vec::new();
        loop {
            let line = self.line();
            if line == "." {
                return out;
            }
            out.push(macro_bus::frame::unstuff_line(&line).to_string());
        }
    }
}

fn connect(d: &mut Daemon) -> Wire {
    let mut w = d.connect();
    let banner = w.line();
    assert!(banner.starts_with("200 "), "greeting was {banner:?}");
    w
}

fn lines(list: &[&str]) -> Vec<String> {
    list.iter().map(|s| s.to_string()).collect()
}

#[test]
fn publish_subscribe_delivery() {
    let mut d = Daemon::start("d-test");
    let mut pubc = connect(&mut d);
    let mut subc = connect(&mut d);

    d.send(&mut subc, "SUBSCRIBE sensors.temp");
    assert_eq!(subc.code(), 211);
    d.send(&mut pubc, "REGISTER sensors.temp s3cr3t");
    assert_eq!(pubc.code(), 210);
    d.send(&mut pubc, "PUBLISH sensors.temp s3cr3t");
    assert_eq!(pubc.code(), 354);
    d.send(&mut pubc, "21.4C");
    d.send(&mut pubc, ".");
    assert_eq!(pubc.code(), 250);

    // Subscriber receives the async push.
    d.serve(&mut subc);
    let header = subc.line();
    assert!(header.starts_with("101 MSG sensors.temp "), "header: {header}");
    assert!(header.ends_with(" d-test"), "origin daemon in header: {header}");
    assert_eq!(subc.block(), lines(&["21.4C"]));
}

#[test]
fn dot_stuffed_multiline_body_roundtrips() {
    let mut d = Daemon::start("d1");
    let mut pubc = connect(&mut d);
    let mut subc = connect(&mut d);
    d.send(&mut subc, "SUBSCRIBE t");
    subc.code();
    d.send(&mut pubc, "REGISTER t k");
    pubc.code();

    d.send(&mut pubc, "PUBLISH t k");
    assert_eq!(pubc.code(), 354);
    d.send(&mut pubc, "line one");
    d.send(&mut pubc, "..dotted"); // wire-level: represents a body line ".dotted"
    d.send(&mut pubc, "plain");
    d.send(&mut pubc, ".");
    assert_eq!(pubc.code(), 250);

    d.serve(&mut subc);
    assert_eq!(subc.code(), 101);
    assert_eq!(subc.block(), lines(&["line one", ".dotted", "plain"]));
}

#[test]
fn auth_key_rejection_and_unknown_type() {
    let mut d = Daemon::start("d1");
    let mut c = connect(&mut d);

    // Publishing an unregistered type -> 430, no 354.
    d.send(&mut c, "PUBLISH nope k");
    assert_eq!(c.line(), "430 nope not registered");
    d.send(&mut c, "REGISTER orders.created owner-key");
    assert_eq!(c.code(), 210);
    // Wrong key -> 441, no 354, no body read.
    d.send(&mut c, "PUBLISH orders.created wrong");
    assert_eq!(c.line(), "441 authorization key mismatch");
    // Correct key -> 354.
    d.send(&mut c, "PUBLISH orders.created owner-key");
    assert_eq!(c.line(), "354 enter message body; end with <CRLF>.<CRLF>");
    d.send(&mut c, ".");
    assert_eq!(c.line(), "250 message accepted");
}

#[test]
fn registration_idempotent_and_conflict() {
    let mut d = Daemon::start("d1");
    let mut c = connect(&mut d);
    d.send(&mut c, "REGISTER t key1");
    assert_eq!(c.line(), "210 t registered");
    // Same key -> idempotent success.
    d.send(&mut c, "REGISTER t key1");
    assert_eq!(c.line(), "210 t registered");
    // Different key -> 433.
    d.send(&mut c, "REGISTER t key2");
    assert_eq!(c.line(), "433 t already registered");
}

#[test]
fn list_types_never_leaks_keys() {
    let mut d = Daemon::start("d1");
    let mut c = connect(&mut d);
    d.send(&mut c, "REGISTER b.type secret-b");
    c.code();
    d.send(&mut c, "REGISTER a.type secret-a");
    c.code();

    d.send(&mut c, "LIST TYPES");
    assert_eq!(c.code(), 215);
    let types = c.block();
    assert_eq!(types, lines(&["a.type", "b.type"]));
    // No key material anywhere.
    assert!(types.iter().all(|t| !t.contains("secret")));
}

#[test]
fn capabilities_and_help_blocks() {
    let mut d = Daemon::start("d1");
    let mut c = connect(&mut d);
    d.send(&mut c, "CAPABILITIES");
    assert_eq!(c.line(), "231 capabilities follow");
    let caps = c.block();
    assert_eq!(
        caps,
        lines(&[
            "VERSION MBP/1.0",
            "MAXMSG 1048576",
            "QUEUE 1024",
            "DROP-POLICY tail-drop",
            "PAYLOAD text",
            "TLS federation",
        ])
    );

    d.send(&mut c, "HELP");
    assert_eq!(c.line(), "231 help follows");
    let help = c.block();
    assert_eq!(help.len(), 8);
    assert!(help.iter().any(|l| l.contains("PUBLISH")));
}

#[test]
fn syntax_errors() {
    let mut d = Daemon::start("d1");
    let mut c = connect(&mut d);
    d.send(&mut c, "FROBNICATE x");
    assert_eq!(c.code(), 500);
    d.send(&mut c, "SUBSCRIBE");
    assert_eq!(c.code(), 501);
    d.send(&mut c, "SUBSCRIBE bad!name");
    assert_eq!(c.code(), 521);
}

#[test]
fn slow_consumer_tail_drop_notice() {
    // Depth-1 outbound queue, and a subscriber that is not served while messages
    // are published.
    let mut d = Daemon::start("d1");
    d.limits.queue_depth = 1;
    let mut pubc = connect(&mut d);
    let mut subc = connect(&mut d);
    d.send(&mut subc, "SUBSCRIBE t");
    subc.code();
    d.send(&mut pubc, "REGISTER t k");
    pubc.code();
    for _ in 0..200 {
        d.send(&mut pubc, "PUBLISH t k");
        assert_eq!(pubc.code(), 354);
        d.send(&mut pubc, "x");
        d.send(&mut pubc, ".");
        assert_eq!(pubc.code(), 250);
    }
    // Now the subscriber drains: a notice of what it missed, and what it did not.
    d.serve(&mut subc);
    assert_eq!(subc.line(), "102 DROP t 199");
    assert_eq!(subc.code(), 101);
    assert_eq!(subc.block(), lines(&["x"]));
    assert!(subc.output.is_empty());
}

#[test]
fn quit_closes_connection() {
    let mut d = Daemon::start("d1");
    let mut c = connect(&mut d);
    d.send(&mut c, "QUIT");
    assert_eq!(c.line(), "221 closing connection");
    assert!(c.closed, "expected EOF after QUIT");
}

#[test]
fn unsubscribe_stops_delivery() {
    let mut d = Daemon::start("d1");
    let mut pubc = connect(&mut d);
    let mut subc = connect(&mut d);
    d.send(&mut pubc, "REGISTER t k");
    d.send(&mut subc, "SUBSCRIBE t");
    subc.code();
    d.send(&mut subc, "UNSUBSCRIBE t");
    assert_eq!(subc.line(), "212 unsubscribed t");

    // Publish after unsubscribe; the subscriber must NOT receive it.
    pubc.output.clear();
    d.send(&mut pubc, "PUBLISH t k");
    assert_eq!(pubc.code(), 354);
    d.send(&mut pubc, "gone");
    d.send(&mut pubc, ".");
    assert_eq!(pubc.code(), 250);
    d.serve(&mut subc);
    assert!(subc.output.is_empty());
}

#[test]
fn pushes_wait_for_the_end_of_an_exchange() {
    let mut d = Daemon::start("d1");
    let mut pubc = connect(&mut d);
    let mut both = connect(&mut d);
    d.send(&mut pubc, "REGISTER t k");
    d.send(&mut both, "SUBSCRIBE t");
    d.send(&mut both, "PUBLISH t k");
    both.output.clear();
    // A message for the connection arrives while it is sending a body.
    d.send(&mut pubc, "PUBLISH t k");
    d.send(&mut pubc, "first");
    d.send(&mut pubc, ".");
    d.send(&mut both, "second");
    assert!(both.output.is_empty());
    d.send(&mut both, ".");
    assert_eq!(both.line(), "250 message accepted");
    assert_eq!(both.line(), "101 MSG t d1-1 d1");
    assert_eq!(both.block(), lines(&["first"]));
    assert_eq!(both.line(), "101 MSG t d1-2 d1");
    assert_eq!(both.block(), lines(&["second"]));
}

#[test]
fn pipelined_commands_are_answered_in_order() {
    let mut d = Daemon::start("d1");
    let mut c = connect(&mut d);
    c.conn.feed(b"REGISTER t k\nPUBLISH t k\r\nx\n.\nLIST TYPES\r\nQUIT\r\nHELP\r\n");
    d.serve(&mut c);
    assert_eq!(
        c.output,
        "210 t registered\r\n354 enter message body; end with <CRLF>.<CRLF>\r\n\
         250 message accepted\r\n215 type list follows\r\nt\r\n.\r\n221 closing connection\r\n"
    );
}

#[test]
fn overlong_command_line_closes() {
    let mut d = Daemon::start("d1");
    d.limits.max_command_line_bytes = 8;
    let mut c = connect(&mut d);
    d.send(&mut c, "LISTEN!!");
    assert_eq!(c.code(), 500);
    c.conn.feed(b"123456789");
    d.serve(&mut c);
    assert_eq!(c.line(), "500 command line too long");
    assert!(c.closed);
}

#[test]
fn oversized_bodies_are_drained_and_refused() {
    let mut d = Daemon::start("d1");
    d.limits.max_message_bytes = 10;
    d.limits.max_body_line_bytes = 8;
    let mut c = connect(&mut d);
    d.send(&mut c, "REGISTER t k");
    c.code();
    // Ten octets, the terminators of lines included, are within the limit.
    d.send(&mut c, "PUBLISH t k");
    d.send(&mut c, "1234");
    d.send(&mut c, "1234");
    d.send(&mut c, ".");
    assert_eq!((c.code(), c.code()), (354, 250));
    // Eleven are not.
    d.send(&mut c, "PUBLISH t k");
    d.send(&mut c, "1234");
    d.send(&mut c, "12345");
    d.send(&mut c, "LIST TYPES");
    d.send(&mut c, ".");
    assert_eq!((c.code(), c.line()), (354, "452 message too large".to_string()));
    // Nor is a line of nine, whether it arrives at once or in pieces.
    d.send(&mut c, "PUBLISH t k");
    d.send(&mut c, "123456789");
    d.send(&mut c, ".");
    assert_eq!((c.code(), c.code()), (354, 452));
    d.send(&mut c, "PUBLISH t k");
    c.conn.feed(b"123456789");
    d.serve(&mut c);
    c.conn.feed(b"123456789");
    d.serve(&mut c);
    d.send(&mut c, "1\r\nx");
    d.send(&mut c, ".");
    assert_eq!((c.code(), c.code()), (354, 452));
    // The stream is still framed.
    d.send(&mut c, "LIST TYPES");
    assert_eq!(c.code(), 215);
}

#[test]
fn terminators_may_arrive_in_pieces() {
    let mut d = Daemon::start("d1");
    d.limits.max_body_line_bytes = 1;
    d.limits.max_command_line_bytes = 12;
    let mut c = connect(&mut d);
    // A command line of just the length that is allowed.
    c.conn.feed(b"REGISTER t k\r");
    d.serve(&mut c);
    assert!(c.output.is_empty() && !c.closed);
    c.conn.feed(b"\n");
    d.serve(&mut c);
    assert_eq!(c.code(), 210);
    // An empty body, under a limit that its end just meets.
    d.send(&mut c, "PUBLISH t k");
    assert_eq!(c.code(), 354);
    c.conn.feed(b".\r");
    d.serve(&mut c);
    assert!(c.output.is_empty());
    c.conn.feed(b"\n");
    d.serve(&mut c);
    assert_eq!(c.code(), 250);
}

#[test]
fn a_session_does_not_depend_on_how_its_input_is_split() {
    let input = "REGISTER t k\r\nSUBSCRIBE t\r\nPUBLISH t k\r\na\r\n..b\r\n.\r\n\
                 PUBLISH t x\r\nPUBLISH t k\r\n123456789\r\n.\r\nLIST TYPES\r\nNOPE\r\nQUIT\r\n";
    let session = |size: usize| {
        let mut d = Daemon::start("d1");
        d.limits.max_body_line_bytes = 8;
        let mut c = connect(&mut d);
        for piece in input.as_bytes().chunks(size) {
            c.conn.feed(piece);
            // What is delivered depends on when the queue is looked at: leave it.
            loop {
                let step = c.conn.step(&mut d.registry, 7);
                c.output.push_str(&step.output);
                if step.flow != Flow::Continue {
                    c.closed = step.flow == Flow::Close;
                    break;
                }
            }
        }
        assert!(c.closed);
        (c.output, d.registry.subscriber_count("t"), d.registry.list_types())
    };
    let whole = session(input.len());
    assert_eq!(whole.0.matches("\r\n").count(), 12);
    for size in [1, 2, 3, 5, 7, 11] {
        assert_eq!(session(size), whole);
    }
}

#[test]
fn subscriptions_lead_to_the_queue_of_the_configured_depth() {
    let mut d = Daemon::start("d1");
    d.limits.queue_depth = 3;
    let mut c = connect(&mut d);
    assert_eq!(c.conn.out_rx.max_capacity(), 3);
    let h = c.conn.conn_handle();
    assert_eq!((h.id, h.tx.max_capacity()), (c.conn.id(), 3));
    d.registry.register_local("t", "k", 1).unwrap();
    d.send(&mut c, "SUBSCRIBE t");
    for n in 0..5 {
        d.registry.publish_local("t", "k", vec![n.to_string()]).unwrap();
    }
    // The drops woke whoever waits on the connection's own flag.
    let rt = tokio::runtime::Builder::new_current_thread().build().unwrap();
    rt.block_on(c.conn.drop_notify.notified());
    // Three fit; the other two are reported.
    assert_eq!(c.conn.out_rx.len(), 3);
    assert_eq!(d.registry.take_drops(c.conn.id()), vec![("t".to_string(), 2)]);
    assert!(d.registry.take_drops(c.conn.id()).is_empty());
    assert!(matches!(c.conn.out_rx.try_recv(), Ok(Outbound::Deliver(m)) if m.body == ["0"]));
}

#[test]
fn what_peers_have_to_learn_is_passed_on() {
    let mut d = Daemon::start("d1");
    let mut c = connect(&mut d);
    d.send(&mut c, "REGISTER t k");
    d.send(&mut c, "REGISTER t k");
    d.send(&mut c, "REGISTER t x");
    d.send(&mut c, "PUBLISH t k");
    d.send(&mut c, "hi");
    d.send(&mut c, ".");
    assert_eq!(c.forwards.len(), 2);
    match &c.forwards[0] {
        Forward::Registration(t, reg) => {
            assert_eq!((t.as_str(), reg.key.as_str()), ("t", "k"));
            assert_eq!((reg.origin_daemon.as_str(), reg.ts), ("d1", 7));
        }
        Forward::Message(_) => panic!("expected a registration"),
    }
    match &c.forwards[1] {
        Forward::Message(m) => assert_eq!(m.encode_feed(), "FEED t d1-1 d1\r\nhi\r\n.\r\n"),
        Forward::Registration(..) => panic!("expected a message"),
    }
}

#[test]
fn ended_connections_listen_to_nothing() {
    let mut d = Daemon::start("d1");
    let mut c = connect(&mut d);
    d.send(&mut c, "SUBSCRIBE a");
    d.send(&mut c, "SUBSCRIBE b");
    d.send(&mut c, "SUBSCRIBE a");
    d.send(&mut c, "UNSUBSCRIBE b");
    assert_eq!(d.registry.subscriber_count("a"), 1);
    assert_eq!(d.registry.subscriber_count("b"), 0);
    assert!(c.conn.end_of_input().is_none());
    c.conn.finish(&mut d.registry);
    assert_eq!(d.registry.subscriber_count("a"), 0);
}

#[test]
fn input_that_ends_in_a_body_is_an_error() {
    let mut d = Daemon::start("d1");
    let mut c = connect(&mut d);
    d.send(&mut c, "REGISTER t k");
    d.send(&mut c, "PUBLISH t k");
    assert_eq!(c.conn.end_of_input().unwrap(), "eof during DATA body");
}

#[test]
fn malformed_utf8_in_a_body_is_patched() {
    let mut d = Daemon::start("d1");
    let mut c = connect(&mut d);
    d.send(&mut c, "REGISTER t k");
    d.send(&mut c, "PUBLISH t k");
    c.conn.feed(b"a\xffb\r\n.\r\n");
    d.serve(&mut c);
    match &c.forwards[1] {
        Forward::Message(m) => assert_eq!(m.body, lines(&["a\u{fffd}b"])),
        Forward::Registration(..) => panic!("expected a message"),
    }
}

#[test]
fn notes_go_out_after_their_code() {
    let note = Outbound::Note("NOTE peer d2 up".into());
    assert_eq!(encode_outbound(&note), "190 NOTE peer d2 up\r\n");
}

#[test]
fn connection_ids_and_the_clock() {
    let mut counter = FIRST_CONN_ID;
    assert_eq!(next_conn_id(&mut counter), 1);
    assert_eq!(next_conn_id(&mut counter), 2);
    counter = u64::MAX;
    assert_eq!(next_conn_id(&mut counter), u64::MAX);
    assert_eq!(next_conn_id(&mut counter), 0);
    assert_eq!(timestamp(None), 0);
    assert_eq!(timestamp(Some((1751650000, 999_999))), 1751650000000);
    assert_eq!(timestamp(Some((1, 2_999_999))), 1002);
    // 18446744073709551 s and 621 ms are five milliseconds past 2^64 ms.
    assert_eq!(timestamp(Some((18446744073709551, 621_000_000))), 5);
    // Well after the start of the year 2020.
    assert!(now_ms() > 1_577_836_800_000);
}

// --- through the client ------------------------------------------------------------------

/// A client and its connection.
struct Pair {
    client: Client,
    wire: Wire,
}

impl Pair {
    fn new(d: &mut Daemon) -> Pair {
        let mut p = Pair { client: Client::new(), wire: d.connect() };
        p.exchange(d).unwrap();
        p
    }

    /// Carry bytes back and forth until the exchange that is under way is over.
    fn exchange(&mut self, d: &mut Daemon) -> Result<Reply, ClientError> {
        for _ in 0..10 {
            d.serve(&mut self.wire);
            self.client.feed(self.wire.output.as_bytes());
            self.wire.output.clear();
            match self.client.poll() {
                Progress::Read => {}
                Progress::Send(text) => self.wire.conn.feed(text.as_bytes()),
                Progress::Done(r) => return r,
            }
        }
        panic!("the exchange does not end");
    }

    fn run(&mut self, d: &mut Daemon, request: String) -> Result<Reply, ClientError> {
        self.wire.conn.feed(request.as_bytes());
        self.exchange(d)
    }

    fn register(&mut self, d: &mut Daemon, t: &str, k: &str) -> Result<Reply, ClientError> {
        let request = self.client.register(t, k);
        self.run(d, request)
    }

    fn subscribe(&mut self, d: &mut Daemon, t: &str) {
        let request = self.client.subscribe(t);
        self.run(d, request).unwrap();
    }

    fn publish(
        &mut self,
        d: &mut Daemon,
        t: &str,
        k: &str,
        body: &[&str],
    ) -> Result<Reply, ClientError> {
        let request = self.client.publish(t, k, &lines(body));
        self.run(d, request)
    }

    fn event(&mut self, d: &mut Daemon) -> Event {
        d.serve(&mut self.wire);
        self.client.feed(self.wire.output.as_bytes());
        self.wire.output.clear();
        self.client.next_event().expect("no event").unwrap()
    }
}

fn server_code(r: Result<Reply, ClientError>) -> u16 {
    match r {
        Err(ClientError::Server { code, .. }) => code,
        other => panic!("expected a server error, got {other:?}"),
    }
}

#[test]
fn end_to_end_via_client_library() {
    let mut d = Daemon::start("d-lib");
    let mut publisher = Pair::new(&mut d);
    let mut subscriber = Pair::new(&mut d);
    assert_eq!(subscriber.client.daemon_id(), "d-lib");

    subscriber.subscribe(&mut d, "sensors.temp");
    publisher.register(&mut d, "sensors.temp", "s3cr3t").unwrap();
    publisher.publish(&mut d, "sensors.temp", "s3cr3t", &["21.4C"]).unwrap();

    match subscriber.event(&mut d) {
        Event::Message(m) => {
            assert_eq!(m.msg_type, "sensors.temp");
            assert_eq!(m.origin, "d-lib");
            assert_eq!(m.body, lines(&["21.4C"]));
        }
        other => panic!("expected message, got {other:?}"),
    }
}

#[test]
fn register_conflict_surfaces_as_server_error() {
    let mut d = Daemon::start("d1");
    let mut a = Pair::new(&mut d);
    let mut b = Pair::new(&mut d);
    a.register(&mut d, "t", "key1").unwrap();
    // Same key is idempotent.
    b.register(&mut d, "t", "key1").unwrap();
    // Different key -> 433.
    assert_eq!(server_code(b.register(&mut d, "t", "key2")), 433);
}

#[test]
fn publish_auth_errors() {
    let mut d = Daemon::start("d1");
    let mut c = Pair::new(&mut d);
    assert_eq!(server_code(c.publish(&mut d, "unknown", "k", &["x"])), 430);
    c.register(&mut d, "t", "right").unwrap();
    assert_eq!(server_code(c.publish(&mut d, "t", "wrong", &["x"])), 441);
}

#[test]
fn multiline_body_roundtrip_with_dot_lines() {
    let mut d = Daemon::start("d1");
    let mut p = Pair::new(&mut d);
    let mut s = Pair::new(&mut d);
    s.subscribe(&mut d, "t");
    p.register(&mut d, "t", "k").unwrap();
    // Body lines that start with '.' are dot-stuffed on the way.
    p.publish(&mut d, "t", "k", &["hello", ".world", "..dots", "bye"]).unwrap();
    match s.event(&mut d) {
        Event::Message(m) => assert_eq!(m.body, lines(&["hello", ".world", "..dots", "bye"])),
        other => panic!("expected message, got {other:?}"),
    }
}

#[test]
fn command_buffers_pending_push() {
    // A command issued while a push is pending must still return its own reply;
    // the push is kept for next_event().
    let mut d = Daemon::start("d1");
    let mut p = Pair::new(&mut d);
    let mut s = Pair::new(&mut d);
    s.subscribe(&mut d, "t");
    p.register(&mut d, "t", "k").unwrap();
    p.publish(&mut d, "t", "k", &["payload"]).unwrap();
    d.serve(&mut s.wire);

    let request = s.client.list_types();
    let reply = s.run(&mut d, request).unwrap();
    assert_eq!(reply.block, Some(lines(&["t"])));
    match s.event(&mut d) {
        Event::Message(m) => assert_eq!(m.body, lines(&["payload"])),
        other => panic!("expected buffered message, got {other:?}"),
    }
}

#[test]
fn capabilities_and_list() {
    let mut d = Daemon::start("d1");
    let mut c = Pair::new(&mut d);
    let request = c.client.capabilities();
    let caps = c.run(&mut d, request).unwrap().block.unwrap();
    assert!(caps.iter().any(|l| l.starts_with("VERSION MBP/1.0")));
    c.register(&mut d, "z.type", "k").unwrap();
    c.register(&mut d, "a.type", "k").unwrap();
    let request = c.client.list_types();
    let types = c.run(&mut d, request).unwrap().block.unwrap();
    assert_eq!(types, lines(&["a.type", "z.type"]));
}

#[test]
fn drop_notices_reach_the_client() {
    let mut d = Daemon::start("d1");
    d.limits.queue_depth = 1;
    let mut p = Pair::new(&mut d);
    let mut s = Pair::new(&mut d);
    s.subscribe(&mut d, "t");
    p.register(&mut d, "t", "k").unwrap();
    for _ in 0..3 {
        p.publish(&mut d, "t", "k", &["x"]).unwrap();
    }
    assert_eq!(s.event(&mut d), Event::Drop { msg_type: "t".into(), count: 2 });
    assert!(matches!(s.event(&mut d), Event::Message(_)));
}
