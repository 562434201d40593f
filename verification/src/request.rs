//! What a client asks for, and what it is answered before the stream.
//!
//! Every client gets the same bytes behind its answer. A client that asks for the raw variant, with
//! `raw=1` in its query, is answered with a content type that a WebKit `fetch` hands over; every other
//! client gets the multipart answer, which is the only one that an image element can render.

use crate::encoding;
use crate::encoding::utf8_text_lossy;
use crate::text;
use crate::text::{chars_of, find_char, has_field, word};
use vstd::prelude::*;
use vstd::slice::slice_subrange;

verus! {

/// How much of a request is read at most.
pub const REQUEST_LIMIT: usize = 512;

/// How long a client gets to send its request line before it is answered, in milliseconds.
pub const REQUEST_READ_TIMEOUT_MS: u64 = 500;

/// How long to wait when no client wants to connect, in milliseconds.
pub const ACCEPT_PAUSE_MS: u64 = 100;

/// The first line of `s`; nothing if there is none.
pub open spec fn first_line(s: Seq<char>) -> Seq<char> {
    if text::lines(s).len() > 0 {
        text::lines(s)[0]
    } else {
        Seq::empty()
    }
}

/// Whether a request target has the field `raw=1` in its query.
pub open spec fn target_is_raw(target: Seq<char>) -> bool {
    match text::cut_at(target, '?') {
        Some((_, query)) => text::fields(query, '&').contains("raw=1"@),
        None => false,
    }
}

/// Whether a request asks for the raw variant: the second word of its first line is the target.
pub open spec fn asks_for_raw(request: Seq<char>) -> bool {
    let words = text::words(first_line(request));
    words.len() > 1 && target_is_raw(words[1])
}

/// Whether a request asks for the raw variant. Only the request line is looked at.
pub fn wants_raw(request: &str) -> (r: bool)
    ensures
        r == asks_for_raw(request@),
{
    let chars: Vec<char> = chars_of(request);
    let all: &[char] = chars.as_slice();
    let end: usize = find_char(all, '\n');
    let stop: usize = if end < all.len() && end > 0 && all[end - 1] == '\r' {
        end - 1
    } else {
        end
    };
    let line: &[char] = slice_subrange(all, 0, stop);
    proof {
        if all@.len() == 0 {
            assert(line@ =~= first_line(all@));
        } else if end < all@.len() {
            assert(line@ =~= text::without_cr(all@.take(end as int)));
        } else {
            assert(line@ =~= all@);
        }
        assert(line@ == first_line(all@));
    }
    match word(line, 1) {
        Some(target) => {
            let mark: usize = find_char(target, '?');
            if mark < target.len() {
                let wanted: Vec<char> = chars_of("raw=1");
                has_field(slice_subrange(target, mark + 1, target.len()), '&', wanted.as_slice())
            } else {
                false
            }
        },
        None => false,
    }
}

/// The answer to a client that did not ask for the raw variant.
pub open spec fn multipart_preamble() -> Seq<char> {
    "HTTP/1.1 200 OK\r\n\
    Content-Type: multipart/x-mixed-replace; boundary=ffmpeg\r\n\
    Access-Control-Allow-Origin: *\r\n\
    Cache-Control: no-cache\r\n\
    Connection: close\r\n\
    \r\n"@
}

/// The answer to a client that asked for the raw variant.
pub open spec fn octet_preamble() -> Seq<char> {
    "HTTP/1.1 200 OK\r\n\
    Content-Type: application/octet-stream\r\n\
    Access-Control-Allow-Origin: *\r\n\
    Cache-Control: no-cache\r\n\
    Connection: close\r\n\
    \r\n"@
}

/// The answer that is sent before the stream.
pub open spec fn preamble_text(raw: bool) -> Seq<char> {
    if raw {
        octet_preamble()
    } else {
        multipart_preamble()
    }
}

/// The answer that is sent before the stream.
pub fn preamble(raw: bool) -> (r: &'static [u8])
    ensures
        r@ == vstd::utf8::encode_utf8(preamble_text(raw)),
{
    if raw {
        "HTTP/1.1 200 OK\r\n\
        Content-Type: application/octet-stream\r\n\
        Access-Control-Allow-Origin: *\r\n\
        Cache-Control: no-cache\r\n\
        Connection: close\r\n\
        \r\n".as_bytes()
    } else {
        "HTTP/1.1 200 OK\r\n\
        Content-Type: multipart/x-mixed-replace; boundary=ffmpeg\r\n\
        Access-Control-Allow-Origin: *\r\n\
        Cache-Control: no-cache\r\n\
        Connection: close\r\n\
        \r\n".as_bytes()
    }
}

/// How far a client has come that has just connected.
#[derive(Clone, Copy, PartialEq, Eq, Debug, Structural)]
pub enum Phase {
    /// Its request line is being read.
    Reading,
    /// It is being answered.
    Answering,
    /// The answer is being flushed.
    Flushing,
    /// Its socket is being made non-blocking.
    Unblocking,
    /// It takes part in the broadcast.
    Registered,
    /// It could not be answered, and is let go.
    Dropped,
}

/// What to do next for a client that has just connected.
#[derive(Debug)]
pub enum Step {
    /// Read at most this many bytes.
    Read(usize),
    /// Write all of these bytes.
    Write(&'static [u8]),
    /// Flush the socket.
    Flush,
    /// Make the socket non-blocking.
    Unblock,
    /// Let the client take part in the broadcast.
    Register,
    /// Close the socket.
    Drop,
}

/// A client that has just connected.
#[derive(Debug)]
pub struct Handshake {
    request: Vec<u8>,
    unreadable: bool,
    phase: Phase,
}

/// What a client that has just connected has come to.
pub struct Greeting {
    /// What it has sent.
    pub request: Seq<u8>,
    /// Whether a read of its request line timed out or failed.
    pub unreadable: bool,
    /// How far it has come.
    pub phase: Phase,
}

impl View for Handshake {
    type V = Greeting;

    closed spec fn view(&self) -> Greeting {
        Greeting { request: self.request@, unreadable: self.unreadable, phase: self.phase }
    }
}

impl Greeting {
    /// Nothing has been read.
    pub open spec fn start() -> Greeting {
        Greeting { request: Seq::empty(), unreadable: false, phase: Phase::Reading }
    }

    /// What has been read fits, and more can be read while it is being read.
    pub open spec fn wf(self) -> bool {
        &&& self.request.len() <= REQUEST_LIMIT
        &&& self.phase == Phase::Reading ==> self.request.len() < REQUEST_LIMIT
            && !self.request.contains(10u8) && !self.unreadable
    }

    /// How many bytes can still be read.
    pub open spec fn room(self) -> int {
        REQUEST_LIMIT - self.request.len()
    }

    /// `bytes` have been read. The first line is complete with a line feed, and no more is read than fits.
    pub open spec fn heard(self, bytes: Seq<u8>) -> Greeting {
        let request = self.request + bytes;
        if request.contains(10u8) || request.len() >= REQUEST_LIMIT {
            Greeting { request, phase: Phase::Answering, ..self }
        } else {
            Greeting { request, phase: Phase::Reading, ..self }
        }
    }

    /// The client has hung up: it is judged by what has arrived.
    pub open spec fn hung_up(self) -> Greeting {
        Greeting { phase: Phase::Answering, ..self }
    }

    /// A read timed out or failed before the line was complete: the client does not get the raw variant.
    pub open spec fn unread(self) -> Greeting {
        Greeting { unreadable: true, phase: Phase::Answering, ..self }
    }

    /// All of these have been read, one after the other, as long as the line was not complete.
    pub open spec fn heard_all(self, pieces: Seq<Seq<u8>>) -> Greeting
        decreases pieces.len(),
    {
        if pieces.len() == 0 {
            self
        } else {
            let before = self.heard_all(pieces.drop_last());
            if before.phase == Phase::Reading {
                before.heard(pieces.last())
            } else {
                before
            }
        }
    }

    /// Each of these is read with room for it, as far as it is read.
    pub open spec fn has_room_for(self, pieces: Seq<Seq<u8>>) -> bool
        decreases pieces.len(),
    {
        pieces.len() > 0 ==> {
            let before = self.heard_all(pieces.drop_last());
            &&& self.has_room_for(pieces.drop_last())
            &&& before.phase == Phase::Reading ==> pieces.last().len() <= before.room()
        }
    }

    /// What was sent is a beginning of this request, with the whole of its first line.
    pub open spec fn begins(self, request: Seq<char>) -> bool {
        &&& self.request.is_prefix_of(vstd::utf8::encode_utf8(request))
        &&& self.request.contains(10u8)
    }

    /// The step was done, or failed.
    pub open spec fn done(self, ok: bool) -> Greeting {
        let phase = if !ok {
            Phase::Dropped
        } else {
            match self.phase {
                Phase::Answering => Phase::Flushing,
                Phase::Flushing => Phase::Unblocking,
                _ => Phase::Registered,
            }
        };
        Greeting { phase, ..self }
    }

    /// Whether the step can be done or fail.
    pub open spec fn is_answering(self) -> bool {
        self.phase == Phase::Answering || self.phase == Phase::Flushing || self.phase
            == Phase::Unblocking
    }

    /// Whether the client gets the raw variant: what was sent asks for it, and could be read.
    pub open spec fn is_raw(self) -> bool {
        !self.unreadable && asks_for_raw(encoding::lossy_text(self.request))
    }
}

impl Handshake {
    /// A client that has just connected.
    pub fn new() -> (r: Handshake)
        ensures
            r@ == Greeting::start(),
            r@.wf(),
    {
        let r: Handshake = Handshake {
            request: Vec::new(),
            unreadable: false,
            phase: Phase::Reading,
        };
        proof {
            assert(r@.request =~= Seq::<u8>::empty());
        }
        r
    }

    /// What to do next.
    pub fn step(&self) -> (r: Step)
        requires
            self@.wf(),
        ensures
            match self@.phase {
                Phase::Reading => r == Step::Read(self@.room() as usize) && self@.room() > 0,
                Phase::Answering => r is Write && r->Write_0@ == vstd::utf8::encode_utf8(
                    preamble_text(self@.is_raw()),
                ),
                Phase::Flushing => r == Step::Flush,
                Phase::Unblocking => r == Step::Unblock,
                Phase::Registered => r == Step::Register,
                Phase::Dropped => r == Step::Drop,
            },
            self@.phase == Phase::Answering && !self@.unreadable && vstd::utf8::valid_utf8(
                self@.request,
            ) ==> r->Write_0@ == vstd::utf8::encode_utf8(
                preamble_text(asks_for_raw(vstd::utf8::decode_utf8(self@.request))),
            ),
            self@.phase == Phase::Answering && (self@.unreadable || self@.request.len() == 0)
                ==> r->Write_0@ == vstd::utf8::encode_utf8(multipart_preamble()),
            self@.phase == Phase::Answering && !self@.unreadable ==> forall|request: Seq<char>|
                #[trigger]
                self@.begins(request) ==> r->Write_0@ == vstd::utf8::encode_utf8(
                    preamble_text(asks_for_raw(request)),
                ),
    {
        match self.phase {
            Phase::Reading => Step::Read(REQUEST_LIMIT - self.request.len()),
            Phase::Answering => {
                if self.unreadable {
                    return Step::Write(preamble(false));
                }
                let request: String = utf8_text_lossy(self.request.as_slice());
                proof {
                    if self@.request.len() == 0 {
                        assert(self@.request =~= Seq::<u8>::empty());
                        assert(vstd::utf8::valid_utf8(self@.request));
                        assert(request@ =~= Seq::<char>::empty());
                        law_silence_is_not_raw();
                    }
                    assert forall|whole: Seq<char>| #[trigger] self@.begins(whole) implies asks_for_raw(
                        request@,
                    ) == asks_for_raw(whole) by {
                        let n = lemma_line_is_text(self@.request, whole);
                        assert(vstd::utf8::valid_utf8(self.request@.take(n)));
                        lemma_same_first_line(vstd::utf8::decode_utf8(self@.request.take(n)), whole);
                        lemma_same_first_line(
                            vstd::utf8::decode_utf8(self@.request.take(n)),
                            request@,
                        );
                    }
                }
                Step::Write(preamble(wants_raw(request.as_str())))
            },
            Phase::Flushing => Step::Flush,
            Phase::Unblocking => Step::Unblock,
            Phase::Registered => Step::Register,
            Phase::Dropped => Step::Drop,
        }
    }

    /// Takes in what has been read.
    pub fn heard(&mut self, bytes: &[u8])
        requires
            old(self)@.wf(),
            old(self)@.phase == Phase::Reading,
            bytes@.len() <= old(self)@.room(),
        ensures
            final(self)@ == old(self)@.heard(bytes@),
            final(self)@.wf(),
    {
        self.request.extend_from_slice(bytes);
        proof {
            assert(self.request@ =~= old(self)@.request + bytes@);
        }
        let mut complete: bool = self.request.len() >= REQUEST_LIMIT;
        let mut i: usize = 0;
        while i < self.request.len()
            invariant
                i <= self.request@.len(),
                complete <==> self.request@.len() >= REQUEST_LIMIT || exists|j: int|
                    0 <= j < i && self.request@[j] == 10u8,
            decreases self.request@.len() - i,
        {
            if self.request[i] == 10 {
                complete = true;
            }
            i = i + 1;
        }
        proof {
            assert(self.request@.contains(10u8) <==> exists|j: int|
                0 <= j < i && self.request@[j] == 10u8);
        }
        if complete {
            self.phase = Phase::Answering;
        }
    }

    /// Takes in that a read timed out or failed before the line was complete.
    pub fn unread(&mut self)
        requires
            old(self)@.wf(),
            old(self)@.phase == Phase::Reading,
        ensures
            final(self)@ == old(self)@.unread(),
            final(self)@.wf(),
    {
        self.unreadable = true;
        self.phase = Phase::Answering;
    }

    /// Takes in that the client has hung up.
    pub fn hung_up(&mut self)
        requires
            old(self)@.wf(),
            old(self)@.phase == Phase::Reading,
        ensures
            final(self)@ == old(self)@.hung_up(),
            final(self)@.wf(),
    {
        self.phase = Phase::Answering;
    }

    /// Takes in whether the step could be done.
    pub fn done(&mut self, ok: bool)
        requires
            old(self)@.wf(),
            old(self)@.is_answering(),
        ensures
            final(self)@ == old(self)@.done(ok),
            final(self)@.wf(),
    {
        if !ok {
            self.phase = Phase::Dropped;
        } else {
            self.phase = match self.phase {
                Phase::Answering => Phase::Flushing,
                Phase::Flushing => Phase::Unblocking,
                _ => Phase::Registered,
            };
        }
    }
}

/// What came of waiting for a client.
#[derive(Clone, Copy, PartialEq, Eq, Debug, Structural)]
pub enum Accepted {
    /// A client has connected.
    Connected,
    /// No client wants to connect right now.
    WouldBlock,
    /// No client can connect any more.
    Failed,
}

/// What to do next for new clients.
#[derive(Clone, Copy, PartialEq, Eq, Debug, Structural)]
pub enum AcceptStep {
    /// See whether a client wants to connect.
    Accept,
    /// Answer the client that has connected.
    Serve,
    /// Wait for this many milliseconds.
    Pause(u64),
    /// Accept no more clients.
    Stop,
}

/// What to do before waiting for a client: nothing more once the server is asked to stop.
pub fn before_accept(asked_to_stop: bool) -> (r: AcceptStep)
    ensures
        r == (if asked_to_stop {
            AcceptStep::Stop
        } else {
            AcceptStep::Accept
        }),
{
    if asked_to_stop {
        AcceptStep::Stop
    } else {
        AcceptStep::Accept
    }
}

/// What to do with what came of waiting for a client.
pub fn after_accept(outcome: Accepted) -> (r: AcceptStep)
    ensures
        r == (match outcome {
            Accepted::Connected => AcceptStep::Serve,
            Accepted::WouldBlock => AcceptStep::Pause(ACCEPT_PAUSE_MS),
            Accepted::Failed => AcceptStep::Stop,
        }),
{
    match outcome {
        Accepted::Connected => AcceptStep::Serve,
        Accepted::WouldBlock => AcceptStep::Pause(ACCEPT_PAUSE_MS),
        Accepted::Failed => AcceptStep::Stop,
    }
}

/// A request may arrive in pieces: reading it in two is the same as reading it in one, as long as the first
/// piece does not complete the line.
pub proof fn law_request_may_arrive_in_pieces(greeting: Greeting, a: Seq<u8>, b: Seq<u8>)
    requires
        greeting.wf(),
        greeting.phase == Phase::Reading,
        greeting.heard(a).phase == Phase::Reading,
        a.len() + b.len() <= greeting.room(),
    ensures
        greeting.heard(a).heard(b) == greeting.heard(a + b),
{
    assert((greeting.request + a) + b =~= greeting.request + (a + b));
}

/// A client takes part in the broadcast only when its answer was written and flushed and its socket made
/// non-blocking, in this order; it is let go as soon as one of them fails.
pub proof fn law_only_an_answered_client_is_registered(greeting: Greeting)
    requires
        greeting.phase == Phase::Answering,
    ensures
        greeting.done(true).phase == Phase::Flushing,
        greeting.done(true).done(true).phase == Phase::Unblocking,
        greeting.done(true).done(true).done(true).phase == Phase::Registered,
        greeting.done(false).phase == Phase::Dropped,
        greeting.done(true).done(false).phase == Phase::Dropped,
        greeting.done(true).done(true).done(false).phase == Phase::Dropped,
{
}

/// Only the request line counts: what is behind its line feed changes nothing.
pub proof fn law_only_the_request_line_counts(request: Seq<char>, end: int)
    requires
        0 <= end < request.len(),
        text::position(request, '\n') == end,
    ensures
        asks_for_raw(request) == asks_for_raw(request.take(end + 1)),
{
    let line = request.take(end + 1);
    lemma_none_before(request, '\n');
    text::lemma_position(line, '\n', end);
    assert(line.take(end) =~= request.take(end));
    assert(text::lines(request)[0] == text::without_cr(request.take(end)));
    assert(text::lines(line)[0] == text::without_cr(line.take(end)));
}

/// A client that sends nothing does not ask for the raw variant.
pub proof fn law_silence_is_not_raw()
    ensures
        !asks_for_raw(Seq::empty()),
{
    assert(text::lines(Seq::<char>::empty()) =~= Seq::<Seq<char>>::empty());
    assert(text::words(Seq::<char>::empty()) =~= Seq::<Seq<char>>::empty());
}

/// No `c` comes before its first position, and the position is within the text or at its end.
proof fn lemma_none_before(s: Seq<char>, c: char)
    ensures
        text::position(s, c) <= s.len(),
        forall|j: int| 0 <= j < text::position(s, c) ==> s[j] != c,
        text::position(s, c) < s.len() ==> s[text::position(s, c) as int] == c,
    decreases s.len(),
{
    if s.len() > 0 && s[0] != c {
        let t = s.drop_first();
        lemma_none_before(t, c);
        assert forall|j: int| 0 <= j < text::position(s, c) implies s[j] != c by {
            if j > 0 {
                assert(t[j - 1] == s[j]);
            }
        }
    }
}

/// Whether `part` is cut out of `s`.
spec fn is_within(part: Seq<char>, s: Seq<char>) -> bool {
    exists|i: int| 0 <= i <= s.len() - part.len() && #[trigger] s.subrange(i, i + part.len()) == part
}

proof fn lemma_cut_out(s: Seq<char>, i: int, j: int)
    requires
        0 <= i <= j <= s.len(),
    ensures
        is_within(s.subrange(i, j), s),
{
    let part = s.subrange(i, j);
    assert(s.subrange(i, i + part.len()) == part);
}

proof fn lemma_within_within(a: Seq<char>, b: Seq<char>, c: Seq<char>)
    requires
        is_within(a, b),
        is_within(b, c),
    ensures
        is_within(a, c),
{
    let i = choose|i: int|
        0 <= i <= b.len() - a.len() && #[trigger] b.subrange(i, i + a.len()) == a;
    let j = choose|j: int|
        0 <= j <= c.len() - b.len() && #[trigger] c.subrange(j, j + b.len()) == b;
    assert(c.subrange(j + i, j + i + a.len()) =~= a);
}

proof fn lemma_field_is_within(s: Seq<char>, c: char, k: int)
    requires
        0 <= k < text::fields(s, c).len(),
    ensures
        is_within(text::fields(s, c)[k], s),
    decreases s.len(),
{
    lemma_none_before(s, c);
    let i = text::position(s, c) as int;
    if i < s.len() {
        if k == 0 {
            assert(s.take(i) =~= s.subrange(0, i));
            lemma_cut_out(s, 0, i);
        } else {
            let rest = s.skip(i + 1);
            assert(text::fields(s, c)[k] == text::fields(rest, c)[k - 1]);
            lemma_field_is_within(rest, c, k - 1);
            assert(rest =~= s.subrange(i + 1, s.len() as int));
            lemma_cut_out(s, i + 1, s.len() as int);
            lemma_within_within(text::fields(s, c)[k], rest, s);
        }
    } else {
        assert(s.subrange(0, s.len() as int) =~= s);
        lemma_cut_out(s, 0, s.len() as int);
    }
}

proof fn lemma_trimmed_start_is_within(s: Seq<char>)
    ensures
        is_within(text::trimmed_start(s), s),
    decreases s.len(),
{
    if s.len() > 0 && text::is_white_space(s[0]) {
        let rest = s.drop_first();
        lemma_trimmed_start_is_within(rest);
        assert(rest =~= s.subrange(1, s.len() as int));
        lemma_cut_out(s, 1, s.len() as int);
        lemma_within_within(text::trimmed_start(s), rest, s);
    } else {
        assert(s.subrange(0, s.len() as int) =~= s);
        lemma_cut_out(s, 0, s.len() as int);
    }
}

proof fn lemma_word_is_within(s: Seq<char>, k: int)
    requires
        0 <= k < text::words(s).len(),
    ensures
        is_within(text::words(s)[k], s),
    decreases s.len(),
{
    let t = text::trimmed_start(s);
    let n = text::word_length(t) as int;
    text::lemma_trimmed_start_front(s);
    text::lemma_word_length_bounds(t);
    lemma_trimmed_start_is_within(s);
    if k == 0 {
        assert(text::words(s)[0] == t.take(n));
        assert(t.take(n) =~= t.subrange(0, n));
        lemma_cut_out(t, 0, n);
        lemma_within_within(t.take(n), t, s);
    } else {
        let rest = t.skip(n);
        assert(text::words(s)[k] == text::words(rest)[k - 1]);
        lemma_word_is_within(rest, k - 1);
        assert(rest =~= t.subrange(n, t.len() as int));
        lemma_cut_out(t, n, t.len() as int);
        lemma_within_within(text::words(s)[k], rest, t);
        lemma_within_within(text::words(s)[k], t, s);
    }
}

proof fn lemma_first_line_is_within(s: Seq<char>)
    ensures
        is_within(first_line(s), s),
{
    lemma_none_before(s, '\n');
    let i = text::position(s, '\n') as int;
    if s.len() == 0 {
        assert(s.subrange(0, 0) =~= first_line(s));
        lemma_cut_out(s, 0, 0);
    } else if i < s.len() {
        let line = s.take(i);
        assert(first_line(s) == text::without_cr(line));
        let n = first_line(s).len() as int;
        assert(first_line(s) =~= s.subrange(0, n));
        lemma_cut_out(s, 0, n);
    } else {
        assert(s.subrange(0, s.len() as int) =~= s);
        lemma_cut_out(s, 0, s.len() as int);
    }
}

/// The raw variant is opt-in: a request in which `raw=1` does not occur does not get it.
pub proof fn law_raw_is_opt_in(request: Seq<char>)
    requires
        !text::contains_text(request, "raw=1"@),
    ensures
        !asks_for_raw(request),
{
    if asks_for_raw(request) {
        let marker = "raw=1"@;
        let line = first_line(request);
        let target = text::words(line)[1];
        let query = match text::cut_at(target, '?') {
            Some((_, query)) => query,
            None => Seq::empty(),
        };
        let k = text::fields(query, '&').index_of(marker);
        lemma_field_is_within(query, '&', k);
        let i = text::position(target, '?') as int;
        assert(query =~= target.subrange(i + 1, target.len() as int));
        lemma_cut_out(target, i + 1, target.len() as int);
        lemma_within_within(marker, query, target);
        lemma_word_is_within(line, 1);
        lemma_within_within(marker, target, line);
        lemma_first_line_is_within(request);
        lemma_within_within(marker, line, request);
        assert(text::contains_text(request, marker));
    }
}

proof fn lemma_fields_in_two(a: Seq<char>, b: Seq<char>, c: char)
    ensures
        text::fields(a + seq![c] + b, c) == text::fields(a, c) + text::fields(b, c),
    decreases a.len(),
{
    let all = a + seq![c] + b;
    lemma_none_before(a, c);
    let i = text::position(a, c) as int;
    if i < a.len() {
        assert(all[i] == c);
        assert forall|j: int| 0 <= j < i implies all[j] != c by {
            assert(all[j] == a[j]);
        }
        text::lemma_position(all, c, i);
        let rest = a.skip(i + 1);
        lemma_fields_in_two(rest, b, c);
        assert(all.skip(i + 1) =~= rest + seq![c] + b);
        assert(all.take(i) =~= a.take(i));
        assert(text::fields(all, c) =~= text::fields(a, c) + text::fields(b, c));
    } else {
        let n = a.len() as int;
        assert(all[n] == c);
        assert forall|j: int| 0 <= j < n implies all[j] != c by {
            assert(all[j] == a[j]);
        }
        text::lemma_position(all, c, n);
        assert(all.take(n) =~= a);
        assert(all.skip(n + 1) =~= b);
        assert(text::fields(all, c) =~= text::fields(a, c) + text::fields(b, c));
    }
}

/// The order of the parameters of a query does not matter.
pub proof fn law_order_of_parameters_does_not_matter(path: Seq<char>, a: Seq<char>, b: Seq<char>)
    requires
        !path.contains('?'),
    ensures
        target_is_raw(path + seq!['?'] + (a + seq!['&'] + b)) == target_is_raw(
            path + seq!['?'] + (b + seq!['&'] + a),
        ),
{
    let ab = a + seq!['&'] + b;
    let ba = b + seq!['&'] + a;
    lemma_query_of(path, ab);
    lemma_query_of(path, ba);
    lemma_fields_in_two(a, b, '&');
    lemma_fields_in_two(b, a, '&');
    lemma_contains_in_two(text::fields(a, '&'), text::fields(b, '&'), "raw=1"@);
    lemma_contains_in_two(text::fields(b, '&'), text::fields(a, '&'), "raw=1"@);
}

proof fn lemma_query_of(path: Seq<char>, query: Seq<char>)
    requires
        !path.contains('?'),
    ensures
        target_is_raw(path + seq!['?'] + query) == text::fields(query, '&').contains("raw=1"@),
{
    let target = path + seq!['?'] + query;
    let n = path.len() as int;
    assert(target[n] == '?');
    assert forall|j: int| 0 <= j < n implies target[j] != '?' by {
        assert(target[j] == path[j]);
    }
    text::lemma_position(target, '?', n);
    assert(target.skip(n + 1) =~= query);
}

proof fn lemma_contains_in_two(a: Seq<Seq<char>>, b: Seq<Seq<char>>, x: Seq<char>)
    ensures
        (a + b).contains(x) <==> a.contains(x) || b.contains(x),
{
    if a.contains(x) {
        let i = a.index_of(x);
        assert((a + b)[i] == x);
    }
    if b.contains(x) {
        let i = b.index_of(x);
        assert((a + b)[a.len() + i] == x);
    }
    if (a + b).contains(x) {
        let i = (a + b).index_of(x);
        if i < a.len() {
            assert(a[i] == x);
        } else {
            assert(b[i - a.len()] == x);
        }
    }
}

/// A beginning of a request with its first line asks for what the request asks for.
proof fn lemma_same_first_line(front: Seq<char>, request: Seq<char>)
    requires
        front.is_prefix_of(request),
        front.contains('\n'),
    ensures
        asks_for_raw(front) == asks_for_raw(request),
{
    lemma_none_before(front, '\n');
    let k = front.index_of('\n');
    let end = text::position(front, '\n') as int;
    assert(end < front.len()) by {
        if end >= front.len() {
            assert(front[k] == '\n');
        }
    }
    assert forall|j: int| 0 <= j < end implies request[j] != '\n' by {
        assert(front[j] == request[j]);
    }
    assert(request[end] == front[end]);
    text::lemma_position(request, '\n', end);
    law_only_the_request_line_counts(front, end);
    law_only_the_request_line_counts(request, end);
    assert(front.take(end + 1) =~= request.take(end + 1));
}

/// The code of a character other than a line feed holds no line feed.
proof fn lemma_no_line_feed_in_code(c: char)
    requires
        c != '\n',
    ensures
        !vstd::utf8::encode_scalar(c as u32).contains(10u8),
        vstd::utf8::encode_scalar(c as u32).len() > 0,
{
    let v: u32 = c as u32;
    vstd::utf8::char_is_scalar(c);
    assert(v != 10);
    assert(v <= 0x7f && v != 10 ==> (v & 0x7f) as u8 != 10u8) by (bit_vector);
    assert((0xC0u8 | ((v >> 6) & 0x1F) as u8) >= 0x80) by (bit_vector);
    assert((0xE0u8 | ((v >> 12) & 0x0F) as u8) >= 0x80) by (bit_vector);
    assert((0xF0u8 | ((v >> 18) & 0x7) as u8) >= 0x80) by (bit_vector);
    assert((0x80u8 | (v & 0x3F) as u8) >= 0x80) by (bit_vector);
    assert((0x80u8 | ((v >> 6) & 0x3F) as u8) >= 0x80) by (bit_vector);
    assert((0x80u8 | ((v >> 12) & 0x3F) as u8) >= 0x80) by (bit_vector);
}

/// The code of a text with a line feed begins with the code of its first line, which holds a line feed at its
/// end and nowhere else.
proof fn lemma_code_of_first_line(request: Seq<char>) -> (end: int)
    requires
        vstd::utf8::encode_utf8(request).contains(10u8),
    ensures
        0 <= end < request.len(),
        request[end] == '\n',
        ({
            let line = vstd::utf8::encode_utf8(request.take(end + 1));
            &&& line.is_prefix_of(vstd::utf8::encode_utf8(request))
            &&& line.len() > 0
            &&& line.last() == 10u8
            &&& forall|j: int| 0 <= j < line.len() - 1 ==> line[j] != 10u8
        }),
    decreases request.len(),
{
    let all = vstd::utf8::encode_utf8(request);
    let c = request[0];
    let head = vstd::utf8::encode_scalar(c as u32);
    let rest = request.drop_first();
    let tail = vstd::utf8::encode_utf8(rest);
    assert(request.len() > 0);
    if c == '\n' {
        let v: u32 = c as u32;
        assert(v == 10);
        assert((10u32 & 0x7f) as u8 == 10u8) by (bit_vector);
        assert(head =~= seq![10u8]);
        let first = request.take(1);
        assert(first.drop_first() =~= Seq::<char>::empty());
        assert(vstd::utf8::encode_utf8(Seq::<char>::empty()) =~= Seq::<u8>::empty());
        assert(vstd::utf8::encode_utf8(first) =~= head);
        assert(request.take(0int + 1) =~= first);
        0
    } else {
        lemma_no_line_feed_in_code(c);
        let k = all.index_of(10u8);
        assert(k >= head.len()) by {
            if k < head.len() {
                assert(head[k] == 10u8);
            }
        }
        assert(tail[k - head.len()] == 10u8);
        assert(tail.contains(10u8));
        let m = lemma_code_of_first_line(rest);
        let end = m + 1;
        let front = request.take(end + 1);
        assert(front.drop_first() =~= rest.take(m + 1));
        let short = vstd::utf8::encode_utf8(rest.take(m + 1));
        let line = vstd::utf8::encode_utf8(front);
        assert(line =~= head + short);
        assert(line =~= all.take(line.len() as int)) by {
            assert(short =~= tail.take(short.len() as int));
        }
        assert forall|j: int| 0 <= j < line.len() - 1 implies line[j] != 10u8 by {
            if j < head.len() {
                assert(head.contains(head[j]));
            } else {
                assert(line[j] == short[j - head.len()]);
            }
        }
        end
    }
}

/// Bytes at the front of the code of a text that hold its first line feed hold the code of its first line,
/// which is a beginning of the text.
proof fn lemma_line_is_text(bytes: Seq<u8>, request: Seq<char>) -> (n: int)
    requires
        bytes.is_prefix_of(vstd::utf8::encode_utf8(request)),
        bytes.contains(10u8),
    ensures
        0 <= n <= bytes.len(),
        vstd::utf8::valid_utf8(bytes.take(n)),
        vstd::utf8::decode_utf8(bytes.take(n)).is_prefix_of(request),
        vstd::utf8::decode_utf8(bytes.take(n)).contains('\n'),
{
    let all = vstd::utf8::encode_utf8(request);
    let k = bytes.index_of(10u8);
    assert(all[k] == 10u8);
    let end = lemma_code_of_first_line(request);
    let front = request.take(end + 1);
    let line = vstd::utf8::encode_utf8(front);
    let n = line.len() as int;
    assert(n <= bytes.len()) by {
        if k < n - 1 {
            assert(line[k] == all[k]);
        }
    }
    assert(bytes.take(n) =~= line) by {
        assert forall|j: int| 0 <= j < n implies bytes[j] == line[j] by {
            assert(bytes[j] == all[j]);
            assert(line[j] == all[j]);
        }
    }
    vstd::utf8::encode_utf8_valid_utf8(front);
    vstd::utf8::encode_utf8_decode_utf8(front);
    assert(front[end] == '\n');
    n
}

/// The bytes of all the pieces, one after the other.
pub open spec fn in_one(pieces: Seq<Seq<u8>>) -> Seq<u8>
    decreases pieces.len(),
{
    if pieces.len() == 0 {
        Seq::empty()
    } else {
        in_one(pieces.drop_last()) + pieces.last()
    }
}

proof fn lemma_heard_all(request: Seq<char>, pieces: Seq<Seq<u8>>, feed: int)
    requires
        0 <= feed < REQUEST_LIMIT,
        feed < vstd::utf8::encode_utf8(request).len(),
        vstd::utf8::encode_utf8(request)[feed] == 10u8,
        in_one(pieces).is_prefix_of(vstd::utf8::encode_utf8(request)),
        Greeting::start().has_room_for(pieces),
    ensures
        ({
            let end = Greeting::start().heard_all(pieces);
            &&& end.wf()
            &&& !end.unreadable
            &&& end.request.is_prefix_of(in_one(pieces))
            &&& end.phase == Phase::Reading || end.phase == Phase::Answering
            &&& end.phase == Phase::Reading ==> end.request == in_one(pieces)
            &&& end.phase == Phase::Answering ==> end.request.contains(10u8)
        }),
    decreases pieces.len(),
{
    let all = vstd::utf8::encode_utf8(request);
    if pieces.len() > 0 {
        let earlier = pieces.drop_last();
        let last = pieces.last();
        let before = Greeting::start().heard_all(earlier);
        let read = in_one(pieces);
        assert(in_one(earlier) =~= read.take(in_one(earlier).len() as int));
        assert(in_one(earlier) =~= all.take(in_one(earlier).len() as int));
        lemma_heard_all(request, earlier, feed);
        let end = Greeting::start().heard_all(pieces);
        if before.phase == Phase::Reading {
            assert(end.request =~= read);
            if end.request.len() >= REQUEST_LIMIT {
                assert(end.request[feed] == all[feed]);
            }
        } else {
            assert(before.request =~= read.take(before.request.len() as int));
        }
    }
}

/// A request may arrive in any number of pieces: where its first line feed is among the bytes that are read
/// at most, what is read is a beginning of it with the whole of its first line, however it was split. So the
/// client is answered as what it asks for in the request as a whole.
pub proof fn law_request_may_arrive_in_any_pieces(
    request: Seq<char>,
    pieces: Seq<Seq<u8>>,
    feed: int,
)
    requires
        0 <= feed < REQUEST_LIMIT,
        feed < in_one(pieces).len(),
        in_one(pieces).is_prefix_of(vstd::utf8::encode_utf8(request)),
        in_one(pieces)[feed] == 10u8,
        Greeting::start().has_room_for(pieces),
    ensures
        Greeting::start().heard_all(pieces).phase == Phase::Answering,
        !Greeting::start().heard_all(pieces).unreadable,
        Greeting::start().heard_all(pieces).begins(request),
{
    let all = vstd::utf8::encode_utf8(request);
    assert(all[feed] == 10u8);
    lemma_heard_all(request, pieces, feed);
    let end = Greeting::start().heard_all(pieces);
    if end.phase == Phase::Reading {
        assert(end.request[feed] == 10u8);
        assert(end.request.contains(10u8));
    }
    assert(end.request =~= all.take(end.request.len() as int));
}

/// A client of which a read timed out or failed before its request line was complete does not get the raw
/// variant, whatever has arrived of the line.
pub proof fn law_unreadable_is_not_raw(greeting: Greeting)
    ensures
        !greeting.unread().is_raw(),
        greeting.unread().phase == Phase::Answering,
{
}

/// A target is raw exactly where `raw=1` is one of the parameters behind its first question mark: alone,
/// before others, behind them or among them. A target without a question mark is not, nor is one with a
/// parameter that is anything else.
pub proof fn law_a_parameter_makes_a_target_raw(
    path: Seq<char>,
    a: Seq<char>,
    b: Seq<char>,
    other: Seq<char>,
)
    requires
        !path.contains('?'),
    ensures
        !target_is_raw(path),
        target_is_raw(path + seq!['?'] + "raw=1"@),
        !other.contains('&') && other != "raw=1"@ ==> !target_is_raw(path + seq!['?'] + other),
        target_is_raw(path + seq!['?'] + (a + seq!['&'] + b)) <==> target_is_raw(
            path + seq!['?'] + a,
        ) || target_is_raw(path + seq!['?'] + b),
{
    reveal_strlit("raw=1");
    let marker = "raw=1"@;
    text::law_text_is_cut_at_the_first_separator(path, '?', marker);
    lemma_query_of(path, marker);
    lemma_query_of(path, other);
    lemma_query_of(path, a);
    lemma_query_of(path, b);
    lemma_query_of(path, a + seq!['&'] + b);
    text::law_fields_stand_between_separators(marker, '&', a);
    assert(text::fields(marker, '&')[0] == marker);
    if !other.contains('&') && other != marker {
        text::law_fields_stand_between_separators(other, '&', a);
        assert(!seq![other].contains(marker));
    }
    lemma_fields_in_two(a, b, '&');
    lemma_contains_in_two(text::fields(a, '&'), text::fields(b, '&'), marker);
}

/// The second word of the request line is the target, whatever the method, however much white space stands
/// before it and around it, and whatever comes behind it: a request asks for the raw variant exactly where
/// that target does. A request of one word does not.
pub proof fn law_the_second_word_is_the_target(
    method: Seq<char>,
    space: char,
    target: Seq<char>,
    rest: Seq<char>,
)
    requires
        method.len() > 0,
        forall|i: int| 0 <= i < method.len() ==> !text::is_white_space(#[trigger] method[i]),
        target.len() > 0,
        forall|i: int| 0 <= i < target.len() ==> !text::is_white_space(#[trigger] target[i]),
        text::is_white_space(space),
        space != '\n',
        rest.len() > 0 ==> text::is_white_space(rest[0]),
    ensures
        asks_for_raw(method + seq![space] + target + rest) == target_is_raw(target),
        !asks_for_raw(method),
        rest.len() > 0 && rest[0] == '\n' ==> !asks_for_raw(method + rest),
{
    let asked = method + seq![space] + target;
    assert forall|i: int| 0 <= i < asked.len() implies #[trigger] asked[i] != '\n' by {
        if i < method.len() {
            assert(!text::is_white_space(method[i]));
        } else if i > method.len() {
            assert(asked[i] == target[i - method.len() - 1]);
            assert(!text::is_white_space(target[i - method.len() - 1]));
        }
    }
    assert(asked.last() == target.last());
    assert(!text::is_white_space(target[target.len() - 1]));
    lemma_first_line_begun(asked, rest);
    let line = first_line(asked + rest);
    let tail = line.skip(asked.len() as int);
    let none = Seq::<char>::empty();
    assert(line =~= method + seq![space] + (target + tail));
    text::law_words_stand_between_white_space(method, space, target + tail);
    if tail.len() == 0 {
        assert(target + tail =~= target);
        text::law_words_stand_between_white_space(target, space, none);
    } else {
        let end = tail.drop_first();
        assert(target + tail =~= target + seq![tail[0]] + end);
        text::law_words_stand_between_white_space(target, tail[0], end);
    }
    assert(text::words(line)[1] == target);
    assert forall|i: int| 0 <= i < method.len() implies #[trigger] method[i] != '\n' by {
        assert(!text::is_white_space(method[i]));
    }
    assert(!text::is_white_space(method[method.len() - 1]));
    lemma_first_line_begun(method, none);
    assert(method + none =~= method);
    assert(first_line(method) =~= method);
    if rest.len() > 0 && rest[0] == '\n' {
        lemma_first_line_begun(method, rest);
        assert(first_line(method + rest) =~= method);
    }
}

/// What begins a text and holds neither a line feed nor white space at its end begins the first line; what
/// follows in the line is nothing, or begins as what follows in the text.
proof fn lemma_first_line_begun(begun: Seq<char>, rest: Seq<char>)
    requires
        begun.len() > 0,
        forall|i: int| 0 <= i < begun.len() ==> #[trigger] begun[i] != '\n',
        !text::is_white_space(begun.last()),
    ensures
        ({
            let line = first_line(begun + rest);
            let tail = line.skip(begun.len() as int);
            &&& line.len() >= begun.len()
            &&& line == begun + tail
            &&& tail.len() > 0 ==> rest.len() > 0 && tail[0] == rest[0]
            &&& rest.len() == 0 || rest[0] == '\n' ==> tail.len() == 0
        }),
{
    let all = begun + rest;
    let n = begun.len() as int;
    lemma_none_before(all, '\n');
    let i = text::position(all, '\n') as int;
    let line = first_line(all);
    assert(all[n - 1] == begun.last());
    if i < n && i < all.len() {
        assert(all[i] == begun[i]);
    }
    if i < all.len() {
        assert(all.take(i).take(n) =~= begun);
        if i == n {
            assert(all.take(i) =~= begun);
        }
    } else if rest.len() > 0 {
        assert(all[n] == rest[0]);
    }
    if i < all.len() && rest.len() > 0 && rest[0] == '\n' {
        assert(all[n] == '\n');
        assert(i == n);
    }
    assert(line =~= begun + line.skip(n));
}

/// A client is answered once a line feed has come, or as much as is read at most, and what it has sent is
/// kept as it came; while neither has come, it is read on.
pub proof fn law_a_client_is_read_until_its_line_ends(greeting: Greeting, bytes: Seq<u8>)
    ensures
        greeting.heard(bytes).request == greeting.request + bytes,
        greeting.heard(bytes).unreadable == greeting.unreadable,
        greeting.heard(bytes).phase == Phase::Answering <==> (exists|i: int|
            0 <= i < (greeting.request + bytes).len() && #[trigger] (greeting.request + bytes)[i] == 10u8)
            || greeting.request.len() + bytes.len() >= 512,
        greeting.heard(bytes).phase == Phase::Answering || greeting.heard(bytes).phase
            == Phase::Reading,
        greeting.room() + greeting.request.len() == 512,
{
    let request = greeting.request + bytes;
    if exists|i: int| 0 <= i < request.len() && #[trigger] request[i] == 10u8 {
        let i = choose|i: int| 0 <= i < request.len() && #[trigger] request[i] == 10u8;
        assert(request.contains(request[i]));
    }
    if request.contains(10u8) {
        let i = request.index_of(10u8);
        assert(request[i] == 10u8);
    }
}

/// A client that hangs up is judged by what has arrived, which is not changed, and one whose line could be
/// read gets the raw variant exactly where what it sent asks for it.
pub proof fn law_a_client_is_judged_by_what_arrived(greeting: Greeting)
    requires
        !greeting.unreadable,
    ensures
        greeting.hung_up().phase == Phase::Answering,
        greeting.hung_up().request == greeting.request,
        greeting.hung_up().unreadable == greeting.unreadable,
        greeting.unread().request == greeting.request,
        greeting.is_raw() <==> asks_for_raw(encoding::lossy_text(greeting.request)),
        greeting.hung_up().is_raw() == greeting.is_raw(),
        Greeting::start().request.len() == 0,
        !Greeting::start().unreadable,
        Greeting::start().phase == Phase::Reading,
{
}

/// The two answers differ in nothing but the content type: both are a success that any page may read, that
/// nothing keeps, and that ends with the connection.
pub proof fn law_answers_differ_in_the_content_type()
    ensures
        ({
            let front = "HTTP/1.1 200 OK\r\nContent-Type: "@;
            let end =
                "\r\nAccess-Control-Allow-Origin: *\r\nCache-Control: no-cache\r\nConnection: close\r\n\r\n"@;
            &&& preamble_text(true) == front + "application/octet-stream"@ + end
            &&& preamble_text(false) == front + "multipart/x-mixed-replace; boundary=ffmpeg"@ + end
        }),
{
    reveal_strlit("HTTP/1.1 200 OK\r\nContent-Type: ");
    reveal_strlit(
        "\r\nAccess-Control-Allow-Origin: *\r\nCache-Control: no-cache\r\nConnection: close\r\n\r\n",
    );
    reveal_strlit("application/octet-stream");
    reveal_strlit("multipart/x-mixed-replace; boundary=ffmpeg");
    reveal_strlit(
        "HTTP/1.1 200 OK\r\n\
        Content-Type: application/octet-stream\r\n\
        Access-Control-Allow-Origin: *\r\n\
        Cache-Control: no-cache\r\n\
        Connection: close\r\n\
        \r\n",
    );
    reveal_strlit(
        "HTTP/1.1 200 OK\r\n\
        Content-Type: multipart/x-mixed-replace; boundary=ffmpeg\r\n\
        Access-Control-Allow-Origin: *\r\n\
        Cache-Control: no-cache\r\n\
        Connection: close\r\n\
        \r\n",
    );
}

} // verus!
