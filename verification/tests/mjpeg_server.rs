use kite::audience::{Audience, RoundStep};
use kite::feed::{
    Broadcast, Delivery, EndStep, DROP_REPORT_INTERVAL, MAX_UNFRAMED_BYTES,
};
use kite::client::{Client, PushStep, Settled, WriteOutcome, CLIENT_STALL_TIMEOUT};
use kite::multipart::{cut_parts, frame_len};
use kite::request::{
    after_accept, before_accept, preamble, wants_raw, AcceptStep, Accepted, Handshake, Step,
    ACCEPT_PAUSE_MS, REQUEST_LIMIT,
};

const HTTP_HEADERS_MULTIPART: &[u8] = b"HTTP/1.1 200 OK\r\n\
    Content-Type: multipart/x-mixed-replace; boundary=ffmpeg\r\n\
    Access-Control-Allow-Origin: *\r\n\
    Cache-Control: no-cache\r\n\
    Connection: close\r\n\
    \r\n";

const HTTP_HEADERS_OCTET: &[u8] = b"HTTP/1.1 200 OK\r\n\
    Content-Type: application/octet-stream\r\n\
    Access-Control-Allow-Origin: *\r\n\
    Cache-Control: no-cache\r\n\
    Connection: close\r\n\
    \r\n";

/// What a client gets that sends these segments and then waits.
fn answer_to(segments: &[&[u8]]) -> Vec<u8> {
    let mut handshake = Handshake::new();
    let mut answer: Vec<u8> = Vec::new();
    let mut left = segments.iter();
    loop {
        match handshake.step() {
            Step::Read(room) => match left.next() {
                Some(segment) => handshake.heard(&segment[..segment.len().min(room)]),
                None => handshake.hung_up(),
            },
            Step::Write(bytes) => {
                answer.extend_from_slice(bytes);
                handshake.done(true);
            }
            Step::Flush | Step::Unblock => handshake.done(true),
            Step::Register => return answer,
            Step::Drop => panic!("the client was let go"),
        }
    }
}

/// The preamble that a client with this request target gets. The request arrives in two segments, cut in
/// the middle of the target.
fn preamble_for(target: &str) -> String {
    let req = format!("GET {target} HTTP/1.1\r\nHost: 127.0.0.1:9\r\n\r\n");
    let (head, tail) = req.split_at(6);
    String::from_utf8_lossy(&answer_to(&[head.as_bytes(), tail.as_bytes()])).into_owned()
}

#[test]
fn a_plain_request_still_gets_the_multipart_preamble() {
    assert_eq!(preamble_for("/"), String::from_utf8_lossy(HTTP_HEADERS_MULTIPART));
}

#[test]
fn the_raw_variant_gets_the_non_multipart_preamble() {
    assert_eq!(preamble_for("/?raw=1"), String::from_utf8_lossy(HTTP_HEADERS_OCTET));
}

/// What ffmpeg's mpjpeg muxer emits for these bodies.
fn mpjpeg(bodies: &[&[u8]]) -> Vec<u8> {
    let mut out = Vec::new();
    for (i, body) in bodies.iter().enumerate() {
        if i > 0 {
            out.extend_from_slice(b"\r\n");
        }
        out.extend_from_slice(b"--ffmpeg\r\nContent-type: image/jpeg\r\n");
        out.extend_from_slice(format!("Content-length: {}\r\n\r\n", body.len()).as_bytes());
        out.extend_from_slice(body);
    }
    out
}

#[test]
fn parts_are_cut_whole_and_in_order() {
    let stream = mpjpeg(&[b"AAAA", b"BBBBBB"]);
    let first = frame_len(&stream).expect("first part is complete");
    assert!(stream[..first].ends_with(b"AAAA"));
    assert!(stream[..first].starts_with(b"--ffmpeg"));

    // The second part carries the CRLF that closed the first body, so a client that missed a frame
    // still receives correct framing.
    let rest = &stream[first..];
    let second = frame_len(rest).expect("second part is complete");
    assert_eq!(second, rest.len());
    assert!(rest.starts_with(b"\r\n--ffmpeg"));
    assert!(rest[..second].ends_with(b"BBBBBB"));
}

#[test]
fn an_incomplete_part_waits() {
    let stream = mpjpeg(&[b"AAAA"]);
    // Body one byte short, and headers only.
    assert_eq!(frame_len(&stream[..stream.len() - 1]), None);
    assert_eq!(frame_len(b"--ffmpeg\r\nContent-length: 4\r\n"), None);
    // Header block present but no length to frame on: nothing is claimed.
    assert_eq!(frame_len(b"--ffmpeg\r\nContent-type: image/jpeg\r\n\r\nAAAA"), None);
}

/// A socket with a buffer that its reader empties.
struct Socket {
    buffer: Vec<u8>,
    capacity: usize,
    read: Vec<u8>,
}

impl Socket {
    fn new(capacity: usize) -> Socket {
        Socket { buffer: Vec::new(), capacity, read: Vec::new() }
    }

    fn write(&mut self, bytes: &[u8]) -> WriteOutcome {
        let n = bytes.len().min(self.capacity - self.buffer.len());
        if n == 0 {
            return WriteOutcome::WouldBlock;
        }
        self.buffer.extend_from_slice(&bytes[..n]);
        WriteOutcome::Wrote(n)
    }

    fn drain(&mut self, most: usize) {
        let n = most.min(self.buffer.len());
        self.read.extend(self.buffer.drain(..n));
    }
}

/// Pushes a part to a client. Returns false when the client should go.
fn push(client: &mut Client, socket: &mut Socket, frame: &[u8], now: u64) -> bool {
    let mut step = client.first_step();
    loop {
        let outcome = match step {
            PushStep::WriteOwed => socket.write(client.owed()),
            PushStep::WriteFrame => socket.write(frame),
            PushStep::Stays => return true,
            PushStep::Goes => return false,
        };
        step = client.wrote(step, frame, outcome, now);
    }
}

/// Pushes a part to every client, and closes the sockets of those that go.
fn push_all(audience: &mut Audience, sockets: &mut Vec<Socket>, frame: &[u8], now: u64) {
    let mut step = audience.begin_round();
    loop {
        step = match step {
            RoundStep::WriteOwed(i) => {
                let outcome = sockets[i].write(audience.owed(i));
                audience.wrote(step, frame, outcome, now)
            }
            RoundStep::WriteFrame(i) => {
                let outcome = sockets[i].write(frame);
                audience.wrote(step, frame, outcome, now)
            }
            RoundStep::Close(i) => {
                sockets.remove(i);
                audience.closed(i)
            }
            RoundStep::Done => return,
        };
    }
}

#[test]
fn a_slow_sink_does_not_hold_up_a_fast_one() {
    let frames = 180;
    let frame_time = 16_666_000;
    let mut broadcast = Broadcast::new(0);
    let mut audience = Audience::new();
    audience.join();
    audience.join();
    // The first one is slow, the second one is fast.
    let mut sockets = vec![Socket::new(65536), Socket::new(65536)];
    let mut seen_drops = false;
    for i in 0..frames {
        let now = i as u64 * frame_time;
        let part = mpjpeg(&[&vec![0x5a; 30_000]]);
        // The source is read as it comes, in pieces.
        for piece in part.chunks(16 * 1024) {
            if let Delivery::Parts(list) = broadcast.received(piece).delivery {
                for frame in &list {
                    push_all(&mut audience, &mut sockets, frame, now);
                }
            }
            sockets[1].drain(65536);
        }
        // The slow one takes 1024 bytes every 25 ms, the fast one takes all it gets.
        sockets[0].drain(1024 * 16 / 25);
        seen_drops |= audience.losses().iter().any(|dropped| *dropped > 0);
    }
    let received = sockets[1].read.windows(8).filter(|w| *w == b"--ffmpeg").count();
    assert!(
        received * 100 / frames >= 90,
        "the fast sink received only {received} of {frames} parts while a slow sink was attached"
    );
    assert!(
        seen_drops,
        "no frame was ever dropped for the slow sink — the broadcast is waiting on it again"
    );
    assert_eq!(audience.dropped(1), 0);
    audience.clear();
    assert_eq!(audience.len(), 0);
}

#[test]
fn a_client_that_goes_leaves_the_others() {
    let mut audience = Audience::new();
    assert_eq!(audience.begin_round(), RoundStep::Done);
    for _ in 0..3 {
        audience.join();
    }
    let step = audience.begin_round();
    assert_eq!(step, RoundStep::WriteFrame(0));
    let step = audience.wrote(step, b"AAAA", WriteOutcome::Wrote(1), 0);
    assert_eq!(step, RoundStep::WriteFrame(1));
    let step = audience.wrote(step, b"AAAA", WriteOutcome::Failed, 0);
    assert_eq!(step, RoundStep::Close(1));
    assert_eq!(audience.len(), 2);
    let step = audience.closed(1);
    assert_eq!(step, RoundStep::WriteFrame(1));
    let step = audience.wrote(step, b"AAAA", WriteOutcome::Wrote(2), 0);
    assert_eq!(step, RoundStep::Done);
    assert_eq!(audience.owed(0), b"AAA");
    assert_eq!(audience.owed(1), b"AA");

    let step = audience.begin_round();
    assert_eq!(step, RoundStep::WriteOwed(0));
    let step = audience.wrote(step, b"BB", WriteOutcome::Wrote(3), 1);
    assert_eq!(step, RoundStep::WriteFrame(0));
    let step = audience.wrote(step, b"BB", WriteOutcome::Wrote(2), 1);
    assert_eq!(step, RoundStep::WriteOwed(1));
    let step = audience.wrote(step, b"BB", WriteOutcome::WouldBlock, 1);
    assert_eq!(step, RoundStep::Done);
    assert_eq!(audience.losses(), vec![0, 1]);
}

#[test]
fn a_client_that_accepts_bytes_stays() {
    let mut client = Client::new();
    assert!(client.offer(b"AAAA", WriteOutcome::WouldBlock, 100));
    let late = 100 + CLIENT_STALL_TIMEOUT;
    // Behind for as long as the timeout, but a byte was just accepted: the timeout begins anew.
    assert_eq!(client.settle(WriteOutcome::Wrote(1), late), Settled::Behind);
    assert_eq!(client.owed(), b"AAA");
    assert_eq!(
        client.settle(WriteOutcome::WouldBlock, late + CLIENT_STALL_TIMEOUT - 1),
        Settled::Behind
    );
    assert_eq!(
        client.settle(WriteOutcome::WouldBlock, late + CLIENT_STALL_TIMEOUT),
        Settled::Gone
    );
    assert_eq!(client.dropped(), 3);
}

#[test]
fn raw_variant_is_opt_in() {
    // What the off-thread reader sends on a WebKit engine.
    assert!(wants_raw("GET /?raw=1 HTTP/1.1\r\nHost: 127.0.0.1:9\r\n\r\n"));
    // What every other client sends — and what WebView2 keeps sending.
    assert!(!wants_raw("GET / HTTP/1.1\r\nHost: 127.0.0.1:9\r\n\r\n"));
    assert!(!wants_raw(""));
    // A value that merely contains the marker is not the marker.
    assert!(!wants_raw("GET /?src=raw=12 HTTP/1.1\r\n\r\n"));
    assert!(!wants_raw("GET /raw=1 HTTP/1.1\r\n\r\n"));
    // Order among parameters must not matter.
    assert!(wants_raw("GET /?x=1&raw=1 HTTP/1.1\r\n\r\n"));
}

#[test]
fn the_request_line_ends_where_lines_end() {
    assert!(wants_raw("GET /?raw=1 HTTP/1.1\nHost: x"));
    assert!(wants_raw("GET /?raw=1"));
    assert!(wants_raw("GET /?raw=1&x=1 HTTP/1.1\r\n"));
    assert!(wants_raw(" \t GET \u{2003}/?raw=1"));
    assert!(!wants_raw("GET / HTTP/1.1\r\nX: /?raw=1\r\n"));
    assert!(!wants_raw("\r\nGET /?raw=1 HTTP/1.1"));
    assert!(!wants_raw("GET /?a?raw=1 HTTP/1.1"));
    assert!(!wants_raw("GET /?RAW=1 HTTP/1.1"));
}

#[test]
fn the_preambles_are_sent_byte_for_byte() {
    assert_eq!(preamble(false), HTTP_HEADERS_MULTIPART);
    assert_eq!(preamble(true), HTTP_HEADERS_OCTET);
}

#[test]
fn a_silent_client_gets_the_multipart_preamble() {
    assert_eq!(answer_to(&[]), HTTP_HEADERS_MULTIPART);
    assert_eq!(answer_to(&[b"GET "]), HTTP_HEADERS_MULTIPART);
}

#[test]
fn an_unreadable_client_gets_the_multipart_preamble() {
    for sent in [&b""[..], b"GET /?raw=1", b"GET /?raw=1 HTTP/1.1"] {
        let mut handshake = Handshake::new();
        handshake.heard(sent);
        handshake.unread();
        match handshake.step() {
            Step::Write(bytes) => assert_eq!(bytes, HTTP_HEADERS_MULTIPART),
            other => panic!("{other:?}"),
        }
    }
}

#[test]
fn a_request_cut_inside_a_character_is_judged_by_its_first_line() {
    let mut request = "GET /?raw=1 HTTP/1.1\r\nX: ü\r\n".as_bytes().to_vec();
    let cut = request.iter().position(|byte| *byte == 0xc3).unwrap() + 1;
    request.truncate(cut);
    assert_eq!(answer_to(&[&request]), HTTP_HEADERS_OCTET);
}

#[test]
fn a_request_may_arrive_byte_by_byte() {
    let request = "GET /ä?raw=1 HTTP/1.1\r\n\r\n".as_bytes();
    let pieces: Vec<&[u8]> = request.chunks(1).collect();
    assert_eq!(answer_to(&pieces), HTTP_HEADERS_OCTET);
}

#[test]
fn a_request_that_is_not_text_is_still_judged() {
    assert_eq!(answer_to(&[b"GET /\xff?raw=1 HTTP/1.1\r\n"]), HTTP_HEADERS_OCTET);
    assert_eq!(answer_to(&[b"GET /?raw=1\xff HTTP/1.1\r\n"]), HTTP_HEADERS_MULTIPART);
}

#[test]
fn a_request_in_pieces_reads_as_in_one() {
    let request = b"GET /?x=1&raw=1 HTTP/1.1\r\n\r\n";
    for cut in 1..24 {
        assert_eq!(answer_to(&[&request[..cut], &request[cut..]]), HTTP_HEADERS_OCTET);
    }
}

#[test]
fn no_more_of_a_request_is_read_than_fits() {
    let mut handshake = Handshake::new();
    assert!(matches!(handshake.step(), Step::Read(REQUEST_LIMIT)));
    handshake.heard(&[b'x'; 500]);
    assert!(matches!(handshake.step(), Step::Read(12)));
    handshake.heard(&[b'x'; 12]);
    assert!(matches!(handshake.step(), Step::Write(_)));
}

#[test]
fn a_client_that_cannot_be_answered_is_let_go() {
    for step in 0..3 {
        let mut handshake = Handshake::new();
        handshake.heard(b"GET / HTTP/1.1\r\n");
        for _ in 0..step {
            handshake.done(true);
        }
        handshake.done(false);
        assert!(matches!(handshake.step(), Step::Drop));
    }
}

#[test]
fn clients_are_accepted_until_the_server_stops() {
    assert_eq!(before_accept(true), AcceptStep::Stop);
    assert_eq!(before_accept(false), AcceptStep::Accept);
    assert_eq!(after_accept(Accepted::Connected), AcceptStep::Serve);
    assert_eq!(after_accept(Accepted::WouldBlock), AcceptStep::Pause(100));
    assert_eq!(after_accept(Accepted::Failed), AcceptStep::Stop);
    assert_eq!(ACCEPT_PAUSE_MS, 100);
}

#[test]
fn a_part_states_its_length() {
    let part = b"--ffmpeg\r\nContent-length: 4\r\n\r\nAAAA";
    assert_eq!(frame_len(part), Some(part.len()));
    assert_eq!(frame_len(b"x: y\r\nCONTENT-LENGTH:+2\r\n\r\nABCD"), Some(29));
    assert_eq!(frame_len(b" content-length \t: \x0b3 \r\n\r\nABC"), Some(29));
    // The first length counts, also where it cannot be read.
    assert_eq!(frame_len(b"Content-length: x\r\nContent-length: 1\r\n\r\nA"), None);
    assert_eq!(frame_len(b"Content-length: -1\r\n\r\nA"), None);
    assert_eq!(frame_len(b"Content-length: \r\n\r\nA"), None);
    assert_eq!(frame_len(b"Content-length: 99999999999999999999\r\n\r\nA"), None);
    assert_eq!(frame_len(b"Content-length: 18446744073709551615\r\n\r\nA"), None);
    // A head that is not text holds no length.
    assert_eq!(frame_len(b"\xff\r\nContent-length: 1\r\n\r\nA"), None);
    assert_eq!(frame_len(b""), None);
}

#[test]
fn parts_do_not_depend_on_reads() {
    let stream = mpjpeg(&[b"A", b"", b"CCC", b"DD\r\n\r\nDD"]);
    let (whole, cut) = cut_parts(&stream);
    assert_eq!(whole.len(), 4);
    assert_eq!(cut, stream.len());
    assert_eq!(whole.concat(), stream);
    for size in 1..stream.len() {
        let mut broadcast = Broadcast::new(0);
        let mut parts: Vec<Vec<u8>> = Vec::new();
        for read in stream.chunks(size) {
            if let Delivery::Parts(list) = broadcast.received(read).delivery {
                parts.extend(list);
            }
        }
        assert_eq!(parts, whole);
    }
}

#[test]
fn bytes_without_parts_are_forwarded_in_the_end() {
    let mut broadcast = Broadcast::new(0);
    let first = broadcast.received(&vec![0x5a; MAX_UNFRAMED_BYTES - 1]);
    assert!(first.first);
    assert!(matches!(first.delivery, Delivery::Nothing));
    let second = broadcast.received(&[0x5b]);
    assert!(!second.first);
    match second.delivery {
        Delivery::Raw(bytes) => {
            assert_eq!(bytes.len(), 4 * 1024 * 1024);
            assert_eq!(bytes[bytes.len() - 1], 0x5b);
        }
        _ => panic!("the bytes were held"),
    }
    // Nothing is left of them.
    let part = mpjpeg(&[b"AAAA"]);
    match broadcast.received(&part).delivery {
        Delivery::Parts(list) => assert_eq!(list, vec![part]),
        _ => panic!("the part was not cut"),
    }
}

#[test]
fn only_a_running_feed_is_announced() {
    let fresh = Broadcast::new(0);
    let closing = vec![EndStep::StopAccepting, EndStep::CloseClients];
    let announcing = vec![EndStep::StopAccepting, EndStep::CloseClients, EndStep::Announce];
    assert_eq!(fresh.ended(false, true), closing);
    let mut live = Broadcast::new(0);
    live.received(b"x");
    assert_eq!(live.ended(true, true), closing);
    assert_eq!(live.ended(false, false), closing);
    assert_eq!(live.ended(false, true), announcing);
    // Nobody waits for this one.
    let running = Broadcast::running(0);
    assert_eq!(running.ended(false, true), announcing);
    assert_eq!(running.ended(true, true), closing);
}

#[test]
fn no_bytes_are_not_the_first_bytes() {
    let mut broadcast = Broadcast::new(0);
    assert!(!broadcast.received(b"").first);
    assert!(broadcast.received(b"x").first);
    assert!(!broadcast.received(b"x").first);
    assert!(!Broadcast::running(0).received(b"x").first);
}

#[test]
fn dropped_parts_are_reported_now_and_then() {
    let mut broadcast = Broadcast::new(1_000);
    assert_eq!(broadcast.report_drops(&vec![3, 4], 1_000 + DROP_REPORT_INTERVAL - 1), None);
    assert_eq!(broadcast.report_drops(&vec![3, 4], 1_000 + DROP_REPORT_INTERVAL), Some(7));
    assert_eq!(broadcast.report_drops(&vec![3, 4], 1_001 + DROP_REPORT_INTERVAL), None);
    assert_eq!(broadcast.report_drops(&vec![0, 0], 1_000 + 2 * DROP_REPORT_INTERVAL), None);
    // Looking for something to report counts as a report.
    assert_eq!(broadcast.report_drops(&vec![1], 1_001 + 2 * DROP_REPORT_INTERVAL), None);
}

#[test]
fn a_client_gets_whole_parts_only() {
    let mut client = Client::new();
    let mut socket = Socket::new(6);
    assert!(push(&mut client, &mut socket, b"AAAA", 0));
    assert!(push(&mut client, &mut socket, b"BBBB", 1));
    assert_eq!(client.owed(), b"BB");
    // Behind: the next part is lost.
    assert!(push(&mut client, &mut socket, b"CCCC", 2));
    assert_eq!(client.dropped(), 1);
    socket.drain(6);
    assert!(push(&mut client, &mut socket, b"DDDD", 3));
    assert!(client.owed().is_empty());
    socket.drain(6);
    assert_eq!(socket.read, b"AAAABBBBDDDD");
}

#[test]
fn a_client_that_takes_nothing_goes() {
    let mut client = Client::new();
    assert!(client.offer(b"AAAA", WriteOutcome::WouldBlock, 100));
    assert_eq!(client.owed(), b"AAAA");
    assert_eq!(
        client.settle(WriteOutcome::WouldBlock, 100 + CLIENT_STALL_TIMEOUT - 1),
        Settled::Behind
    );
    assert_eq!(
        client.settle(WriteOutcome::WouldBlock, 100 + CLIENT_STALL_TIMEOUT),
        Settled::Gone
    );
    assert_eq!(CLIENT_STALL_TIMEOUT, 10_000_000_000);
}

#[test]
fn a_broken_client_goes() {
    let mut client = Client::new();
    assert!(!client.offer(b"AAAA", WriteOutcome::Failed, 0));
    assert!(!client.offer(b"AAAA", WriteOutcome::Wrote(0), 0));
    assert!(client.offer(b"AAAA", WriteOutcome::Wrote(4), 0));
    assert!(client.offer(b"AAAA", WriteOutcome::Wrote(1), 0));
    assert_eq!(client.settle(WriteOutcome::Wrote(0), 0), Settled::Gone);
    assert_eq!(client.settle(WriteOutcome::Failed, 0), Settled::Gone);
    assert_eq!(client.settle(WriteOutcome::Wrote(3), 0), Settled::Free);
    assert!(client.owed().is_empty());
    assert_eq!(client.dropped(), 0);
}
