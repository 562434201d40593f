//! The broadcast of one source to every connected client.
//!
//! What the source writes is gathered until a part is complete, and whole parts go out, so that a client
//! that is behind loses a picture rather than half of one, and so that reading from the source never
//! waits for a socket.
//!
//! The caller reads from the source and hands over what came (`received`, or `ended` when nothing more
//! will come), and does what it is told to.

use crate::audience;
use crate::client;
use crate::client::{Push, PushStep, Sink};
use crate::multipart;
use crate::multipart::cut_parts;
use crate::server;
use crate::server::{Progress, StartEvent, StopStep};
use vstd::prelude::*;

verus! {

/// If this much gathers without a complete part, the framing is not what is expected, and the bytes are
/// forwarded as they are rather than held forever.
pub const MAX_UNFRAMED_BYTES: usize = 4 * 1024 * 1024;

/// How often dropped parts are reported at most: every five seconds, in nanoseconds.
pub const DROP_REPORT_INTERVAL: u64 = 5_000_000_000;

/// What goes out to the clients.
#[derive(Debug)]
pub enum Delivery {
    /// Nothing yet: a part is still arriving.
    Nothing,
    /// Complete parts, in order.
    Parts(Vec<Vec<u8>>),
    /// Bytes in which no part can be made out, as they came.
    Raw(Vec<u8>),
}

/// What to do with what the source has written.
#[derive(Debug)]
pub struct Received {
    /// Whether these are the first bytes, which is what the start of the feed waits for.
    pub first: bool,
    /// What goes out to the clients.
    pub delivery: Delivery,
}

/// A step of the end of a broadcast.
#[derive(Clone, Copy, PartialEq, Eq, Debug, Structural)]
pub enum EndStep {
    /// Accept no more clients.
    StopAccepting,
    /// Close every client's socket, so that the sinks see their stream end.
    CloseClients,
    /// Say that a running feed's source has died.
    Announce,
}

/// The broadcast of one source.
#[derive(Debug)]
pub struct Broadcast {
    /// What has been read of a part that is not complete yet.
    acc: Vec<u8>,
    /// Whether anything has been read, or nobody waits for it.
    live: bool,
    /// When dropped parts were last reported, in nanoseconds.
    reported_at: u64,
}

/// What a broadcast is.
pub struct Feed {
    /// What has been read of a part that is not complete yet.
    pub acc: Seq<u8>,
    /// Whether anything has been read, or nobody waits for it.
    pub live: bool,
    /// When dropped parts were last reported.
    pub reported_at: u64,
}

impl View for Broadcast {
    type V = Feed;

    closed spec fn view(&self) -> Feed {
        Feed { acc: self.acc@, live: self.live, reported_at: self.reported_at }
    }
}

/// The bytes of a delivery, piece by piece.
pub open spec fn pieces(delivery: Delivery) -> Seq<Seq<u8>> {
    match delivery {
        Delivery::Nothing => Seq::empty(),
        Delivery::Parts(list) => multipart::contents(list@),
        Delivery::Raw(bytes) => seq![bytes@],
    }
}

impl Feed {
    /// What has been gathered when `bytes` have come.
    pub open spec fn gathered(self, bytes: Seq<u8>) -> Seq<u8> {
        self.acc + bytes
    }

    /// Whether so much has gathered without a complete part that it is forwarded as it is.
    pub open spec fn overflows(self, bytes: Seq<u8>) -> bool {
        &&& multipart::parts(self.gathered(bytes)).len() == 0
        &&& self.gathered(bytes).len() >= MAX_UNFRAMED_BYTES
    }

    /// What goes out, piece by piece, when `bytes` have come.
    pub open spec fn delivered(self, bytes: Seq<u8>) -> Seq<Seq<u8>> {
        if self.overflows(bytes) {
            seq![self.gathered(bytes)]
        } else {
            multipart::parts(self.gathered(bytes))
        }
    }

    /// The broadcast when `bytes` have come.
    pub open spec fn after(self, bytes: Seq<u8>) -> Feed {
        Feed {
            acc: if self.overflows(bytes) {
                Seq::empty()
            } else {
                multipart::remainder(self.gathered(bytes))
            },
            live: self.live || bytes.len() > 0,
            ..self
        }
    }

    /// Whether dropped parts are to be reported again.
    pub open spec fn report_due(self, now: u64) -> bool {
        client::elapsed(self.reported_at, now) >= DROP_REPORT_INTERVAL
    }

    /// What has to be done when nothing more will come. `started` says whether the start of the feed has
    /// succeeded.
    pub open spec fn end_steps(self, asked_to_stop: bool, started: bool) -> Seq<EndStep> {
        if self.live && started && !asked_to_stop {
            seq![EndStep::StopAccepting, EndStep::CloseClients, EndStep::Announce]
        } else {
            seq![EndStep::StopAccepting, EndStep::CloseClients]
        }
    }
}

/// The sum of the numbers.
pub open spec fn total(counts: Seq<u64>) -> nat
    decreases counts.len(),
{
    if counts.len() == 0 {
        0
    } else {
        total(counts.drop_last()) + counts.last() as nat
    }
}

proof fn lemma_total_of_front(counts: Seq<u64>, n: int)
    requires
        0 <= n <= counts.len(),
    ensures
        total(counts.take(n)) <= total(counts),
    decreases counts.len() - n,
{
    if n < counts.len() {
        lemma_total_of_front(counts, n + 1);
        assert(counts.take(n + 1).drop_last() =~= counts.take(n));
    } else {
        assert(counts.take(n) =~= counts);
    }
}

impl Broadcast {
    /// A broadcast of a source of which nothing has been read yet, and whose first bytes are waited for.
    pub fn new(now: u64) -> (r: Broadcast)
        ensures
            r@ == (Feed { acc: Seq::empty(), live: false, reported_at: now }),
    {
        Broadcast { acc: Vec::new(), live: false, reported_at: now }
    }

    /// A broadcast of a source that counts as running, since nobody waits for its first bytes.
    pub fn running(now: u64) -> (r: Broadcast)
        ensures
            r@ == (Feed { acc: Seq::empty(), live: true, reported_at: now }),
    {
        Broadcast { acc: Vec::new(), live: true, reported_at: now }
    }

    /// Takes in what has been read from the source.
    pub fn received(&mut self, bytes: &[u8]) -> (r: Received)
        ensures
            final(self)@ == old(self)@.after(bytes@),
            r.first == (!old(self)@.live && bytes@.len() > 0),
            pieces(r.delivery) == old(self)@.delivered(bytes@),
            r.delivery is Raw <==> old(self)@.overflows(bytes@),
            r.delivery is Nothing <==> old(self)@.delivered(bytes@).len() == 0,
    {
        let first: bool = !self.live && bytes.len() > 0;
        self.live = self.live || first;
        self.acc.extend_from_slice(bytes);
        proof {
            assert(self.acc@ =~= old(self)@.gathered(bytes@));
            multipart::law_parts_cover_the_stream(self.acc@);
        }
        let (list, cut) = cut_parts(self.acc.as_slice());
        proof {
            assert(multipart::contents(list@).len() == list@.len());
        }
        if list.len() == 0 {
            proof {
                assert(self.acc@.skip(0) =~= self.acc@);
            }
            if self.acc.len() >= MAX_UNFRAMED_BYTES {
                let mut raw: Vec<u8> = Vec::new();
                raw.append(&mut self.acc);
                proof {
                    assert(self.acc@ =~= Seq::<u8>::empty());
                    assert(raw@ =~= old(self)@.gathered(bytes@));
                }
                return Received { first, delivery: Delivery::Raw(raw) };
            }
            proof {
                assert(old(self)@.delivered(bytes@) =~= Seq::<Seq<u8>>::empty());
            }
            return Received { first, delivery: Delivery::Nothing };
        }
        self.acc = self.acc.split_off(cut);
        proof {
            assert(self.acc@ =~= old(self)@.gathered(bytes@).skip(cut as int));
        }
        Received { first, delivery: Delivery::Parts(list) }
    }

    /// How many parts were dropped for all the clients together, whenever that is to be reported and
    /// there is something to report. `counts` holds the number of each client.
    pub fn report_drops(&mut self, counts: &Vec<u64>, now: u64) -> (r: Option<u64>)
        requires
            old(self)@.report_due(now) ==> total(counts@) <= u64::MAX,
        ensures
            final(self)@ == (Feed {
                reported_at: if old(self)@.report_due(now) {
                    now
                } else {
                    old(self)@.reported_at
                },
                ..old(self)@
            }),
            r is Some <==> old(self)@.report_due(now) && total(counts@) > 0,
            r is Some ==> r->0 == total(counts@),
    {
        let passed: u64 = if now >= self.reported_at {
            now - self.reported_at
        } else {
            0
        };
        if passed < DROP_REPORT_INTERVAL {
            return None;
        }
        self.reported_at = now;
        let mut lost: u64 = 0;
        let mut i: usize = 0;
        while i < counts.len()
            invariant
                i <= counts@.len(),
                total(counts@) <= u64::MAX,
                lost == total(counts@.take(i as int)),
            decreases counts@.len() - i,
        {
            proof {
                assert(counts@.take(i + 1).drop_last() =~= counts@.take(i as int));
                lemma_total_of_front(counts@, i + 1);
            }
            lost = lost + counts[i];
            i = i + 1;
        }
        proof {
            assert(counts@.take(i as int) =~= counts@);
        }
        if lost > 0 {
            Some(lost)
        } else {
            None
        }
    }

    /// What has to be done, in this order, when nothing more will come: the source has ended or cannot be
    /// read, or the broadcast was asked to stop. `started` says whether the start of the feed has succeeded;
    /// it has where nobody waits for it.
    pub fn ended(&self, asked_to_stop: bool, started: bool) -> (r: Vec<EndStep>)
        ensures
            r@ == self@.end_steps(asked_to_stop, started),
    {
        let mut steps: Vec<EndStep> = Vec::new();
        steps.push(EndStep::StopAccepting);
        steps.push(EndStep::CloseClients);
        if self.live && started && !asked_to_stop {
            steps.push(EndStep::Announce);
        }
        steps
    }
}

impl Feed {
    /// The broadcast when all the reads have come.
    pub open spec fn after_reads(self, reads: Seq<Seq<u8>>) -> Feed
        decreases reads.len(),
    {
        if reads.len() == 0 {
            self
        } else {
            self.after_reads(reads.drop_last()).after(reads.last())
        }
    }

    /// What goes out, piece by piece, in all the reads.
    pub open spec fn delivered_in(self, reads: Seq<Seq<u8>>) -> Seq<Seq<u8>>
        decreases reads.len(),
    {
        if reads.len() == 0 {
            Seq::empty()
        } else {
            self.delivered_in(reads.drop_last()) + self.after_reads(reads.drop_last()).delivered(
                reads.last(),
            )
        }
    }

    /// Whether no read makes the broadcast forward bytes in which no part can be made out.
    pub open spec fn stays_framed(self, reads: Seq<Seq<u8>>) -> bool
        decreases reads.len(),
    {
        reads.len() > 0 ==> {
            &&& self.stays_framed(reads.drop_last())
            &&& !self.after_reads(reads.drop_last()).overflows(reads.last())
        }
    }
}

/// The bytes of all the pieces, one after the other.
pub open spec fn joined(list: Seq<Seq<u8>>) -> Seq<u8>
    decreases list.len(),
{
    if list.len() == 0 {
        Seq::empty()
    } else {
        joined(list.drop_last()) + list.last()
    }
}

proof fn lemma_joined_in_two(a: Seq<Seq<u8>>, b: Seq<Seq<u8>>)
    ensures
        joined(a + b) == joined(a) + joined(b),
    decreases b.len(),
{
    if b.len() == 0 {
        assert(a + b =~= a);
        assert(joined(a) + joined(b) =~= joined(a));
    } else {
        lemma_joined_in_two(a, b.drop_last());
        assert((a + b).drop_last() =~= a + b.drop_last());
        assert((a + b).last() == b.last());
        assert(joined(a + b) =~= joined(a) + joined(b));
    }
}

proof fn lemma_joined_is_flat(list: Seq<Seq<u8>>)
    ensures
        joined(list) == list.flatten(),
    decreases list.len(),
{
    if list.len() > 0 {
        let one = seq![list[0]];
        let rest = list.drop_first();
        lemma_joined_is_flat(rest);
        lemma_joined_in_two(one, rest);
        assert(one + rest =~= list);
        assert(one.drop_last() =~= Seq::<Seq<u8>>::empty());
        assert(joined(one.drop_last()) =~= Seq::<u8>::empty());
        assert(joined(one) =~= list[0]);
    }
}

proof fn lemma_step_loses_nothing(feed: Feed, bytes: Seq<u8>)
    ensures
        joined(feed.delivered(bytes)) + feed.after(bytes).acc == feed.acc + bytes,
{
    let all = feed.gathered(bytes);
    if feed.overflows(bytes) {
        let one = seq![all];
        assert(one.drop_last() =~= Seq::<Seq<u8>>::empty());
        assert(joined(one.drop_last()) =~= Seq::<u8>::empty());
        assert(joined(one) =~= all);
        assert(joined(one) + Seq::<u8>::empty() =~= all);
    } else {
        multipart::law_parts_cover_the_stream(all);
        lemma_joined_is_flat(multipart::parts(all));
    }
}

/// Nothing that the source writes is lost, repeated or moved on its way: what goes out, one piece after the
/// other, and what is still held are what was read.
pub proof fn law_feed_loses_nothing(feed: Feed, reads: Seq<Seq<u8>>)
    ensures
        joined(feed.delivered_in(reads)) + feed.after_reads(reads).acc == feed.acc + joined(reads),
    decreases reads.len(),
{
    if reads.len() == 0 {
        assert(joined(feed.delivered_in(reads)) + feed.acc =~= feed.acc + joined(reads));
    } else {
        let earlier = reads.drop_last();
        let last = reads.last();
        law_feed_loses_nothing(feed, earlier);
        let before = feed.after_reads(earlier);
        lemma_step_loses_nothing(before, last);
        lemma_joined_in_two(feed.delivered_in(earlier), before.delivered(last));
        let a = joined(feed.delivered_in(earlier));
        let b = joined(before.delivered(last));
        let held = before.after(last).acc;
        assert((a + b) + held =~= a + (b + held));
        assert(a + (before.acc + last) =~= (a + before.acc) + last);
        assert((feed.acc + joined(earlier)) + last =~= feed.acc + joined(reads));
    }
}

/// The parts that go out do not depend on how the reads cut the stream: they are the parts of the stream as
/// a whole, as long as no bytes had to be forwarded unframed.
pub proof fn law_feed_delivers_the_parts(feed: Feed, reads: Seq<Seq<u8>>)
    requires
        multipart::part_length(feed.acc) is None,
        feed.stays_framed(reads),
    ensures
        feed.delivered_in(reads) == multipart::parts(feed.acc + joined(reads)),
        feed.after_reads(reads).acc == multipart::remainder(feed.acc + joined(reads)),
    decreases reads.len(),
{
    if reads.len() == 0 {
        assert(feed.acc + joined(reads) =~= feed.acc);
    } else {
        let earlier = reads.drop_last();
        let last = reads.last();
        law_feed_delivers_the_parts(feed, earlier);
        let before = feed.after_reads(earlier);
        let stream = feed.acc + joined(earlier);
        multipart::law_parts_do_not_depend_on_reads(stream, last);
        assert(stream + last =~= feed.acc + joined(reads));
    }
}

/// Bytes are not held forever: what is held after a read is less than the limit, or less than what was read
/// just now.
pub proof fn law_held_bytes_are_bounded(feed: Feed, bytes: Seq<u8>)
    requires
        multipart::part_length(feed.acc) is None,
    ensures
        feed.after(bytes).acc.len() < MAX_UNFRAMED_BYTES || feed.after(bytes).acc.len()
            < bytes.len(),
        multipart::part_length(feed.after(bytes).acc) is None,
{
    let all = feed.gathered(bytes);
    multipart::law_parts_cover_the_stream(all);
    if feed.overflows(bytes) {
        assert(multipart::head_length(Seq::<u8>::empty()) is None);
    } else if multipart::parts(all).len() > 0 {
        let n = multipart::part_length(all)->0 as int;
        multipart::lemma_part_length_bounds(all);
        if n <= feed.acc.len() {
            lemma_complete_part_was_complete(feed.acc, bytes);
        }
        lemma_remainder_is_shorter(all.skip(n));
    }
}

/// A part that lies within the first bytes was complete when only they were there.
proof fn lemma_complete_part_was_complete(first: Seq<u8>, next: Seq<u8>)
    requires
        multipart::part_length(first + next) is Some,
        multipart::part_length(first + next)->0 <= first.len(),
    ensures
        multipart::part_length(first) is Some,
{
    let all = first + next;
    multipart::lemma_head_length_bounds(all);
    let head = multipart::head_length(all)->0 as int;
    assert(multipart::blank_line_at(first, head - 4));
    assert forall|j: int| 0 <= j < head - 4 implies !#[trigger] multipart::blank_line_at(
        first,
        j,
    ) by {
        assert(!multipart::blank_line_at(all, j));
    }
    multipart::lemma_head_length(first, head - 4);
    assert(first.take(head) =~= all.take(head));
}

proof fn lemma_remainder_is_shorter(buf: Seq<u8>)
    ensures
        multipart::remainder(buf).len() <= buf.len(),
    decreases buf.len(),
{
    if multipart::part_length(buf) is Some {
        multipart::lemma_part_length_bounds(buf);
        lemma_remainder_is_shorter(buf.skip(multipart::part_length(buf)->0 as int));
    }
}

proof fn lemma_live_after_bytes(feed: Feed, reads: Seq<Seq<u8>>)
    ensures
        feed.after_reads(reads).live == (feed.live || joined(reads).len() > 0),
    decreases reads.len(),
{
    if reads.len() > 0 {
        lemma_live_after_bytes(feed, reads.drop_last());
    }
}

/// The end of a feed is announced only if bytes were read, its start succeeded and nobody asked for the end:
/// never for a start that failed, and never for a stop.
pub proof fn law_only_a_running_feed_is_announced(
    feed: Feed,
    reads: Seq<Seq<u8>>,
    asked_to_stop: bool,
    started: bool,
)
    requires
        !feed.live,
    ensures
        feed.after_reads(reads).end_steps(asked_to_stop, started).contains(EndStep::Announce)
            <==> joined(reads).len() > 0 && started && !asked_to_stop,
{
    lemma_live_after_bytes(feed, reads);
    let end = feed.after_reads(reads);
    let steps = end.end_steps(asked_to_stop, started);
    if end.live && started && !asked_to_stop {
        assert(steps[2] == EndStep::Announce);
    }
}

/// The end of a feed that nobody waits for is announced even before any bytes, if nobody asked for it.
pub proof fn law_unawaited_feed_is_announced(
    feed: Feed,
    reads: Seq<Seq<u8>>,
    asked_to_stop: bool,
)
    requires
        feed.live,
    ensures
        feed.after_reads(reads).end_steps(asked_to_stop, true).contains(EndStep::Announce)
            <==> !asked_to_stop,
{
    lemma_live_after_bytes(feed, reads);
    let steps = feed.after_reads(reads).end_steps(asked_to_stop, true);
    if !asked_to_stop {
        assert(steps[2] == EndStep::Announce);
    }
}

/// A start that failed is never announced: where the machine of the start has come to an error, whatever the
/// feed has read and however it ends, the end holds no announcement. Where it has come to a port, the end of
/// a feed that has read bytes is announced unless it was asked for.
pub proof fn law_failed_start_is_not_announced(
    progress: Progress,
    events: Seq<StartEvent>,
    feed: Feed,
    asked_to_stop: bool,
)
    ensures
        ({
            let end = progress.after(events);
            let steps = feed.end_steps(asked_to_stop, server::has_started(end));
            &&& end is Finished && end->Finished_0 is Err ==> !steps.contains(EndStep::Announce)
            &&& end is Finished && end->Finished_0 is Ok ==> (steps.contains(EndStep::Announce)
                <==> feed.live && !asked_to_stop)
        }),
{
    let end = progress.after(events);
    let steps = feed.end_steps(asked_to_stop, server::has_started(end));
    if feed.live && server::has_started(end) && !asked_to_stop {
        assert(steps[2] == EndStep::Announce);
    }
}

/// The clients are closed before the end is announced, so that a reader that notices by itself and the
/// announcement agree on what happened.
pub proof fn law_clients_are_closed_first(
    feed: Feed,
    asked_to_stop: bool,
    started: bool,
    i: int,
    j: int,
)
    requires
        0 <= i < feed.end_steps(asked_to_stop, started).len(),
        0 <= j < feed.end_steps(asked_to_stop, started).len(),
        feed.end_steps(asked_to_stop, started)[i] == EndStep::CloseClients,
        feed.end_steps(asked_to_stop, started)[j] == EndStep::Announce,
    ensures
        i < j,
{
}

/// A stop closes the clients and announces nothing, and a second one does nothing more: the steps that stop a
/// server begin by asking its threads to stop, leave neither the program nor a thread, and a feed that ends
/// when it was asked to closes its clients and stays silent.
pub proof fn law_stop_closes_and_stays_silent(live: bool, feed: Feed, started: bool)
    ensures
        ({
            let steps = server::stop_steps(live);
            let end = feed.end_steps(true, started);
            &&& live ==> steps[0] == StopStep::SignalShutdown && steps.contains(StopStep::Kill)
                && steps.contains(StopStep::Reap) && steps.contains(StopStep::JoinReader)
                && steps.contains(StopStep::JoinAccept) && steps.contains(StopStep::JoinStderr)
            &&& end == seq![EndStep::StopAccepting, EndStep::CloseClients]
            &&& end.contains(EndStep::CloseClients)
            &&& !end.contains(EndStep::Announce)
            &&& steps + server::stop_steps(false) == steps
            &&& server::stop_steps(false).len() == 0
        }),
{
    let steps = server::stop_steps(live);
    let end = feed.end_steps(true, started);
    if live {
        assert(steps[1] == StopStep::Kill);
        assert(steps[2] == StopStep::Reap);
        assert(steps[3] == StopStep::JoinReader);
        assert(steps[4] == StopStep::JoinAccept);
        assert(steps[5] == StopStep::JoinStderr);
    }
    assert(end[1] == EndStep::CloseClients);
    server::law_stop_is_idempotent(live);
}

/// Complete parts, none of them as long as what is held at most.
pub open spec fn are_parts(list: Seq<Seq<u8>>) -> bool {
    forall|i: int|
        0 <= i < list.len() ==> multipart::part_length(#[trigger] list[i]) == Some(list[i].len())
            && list[i].len() < MAX_UNFRAMED_BYTES
}

proof fn lemma_joined_first(list: Seq<Seq<u8>>)
    requires
        list.len() > 0,
    ensures
        joined(list) == list[0] + joined(list.drop_first()),
{
    lemma_joined_is_flat(list);
    lemma_joined_is_flat(list.drop_first());
}

proof fn lemma_are_parts_behind(list: Seq<Seq<u8>>, j: int)
    requires
        are_parts(list),
        0 <= j <= list.len(),
    ensures
        are_parts(list.skip(j)),
{
    assert forall|i: int| 0 <= i < list.skip(j).len() implies multipart::part_length(
        #[trigger] list.skip(j)[i],
    ) == Some(list.skip(j)[i].len()) && list.skip(j)[i].len() < MAX_UNFRAMED_BYTES by {
        assert(list.skip(j)[i] == list[i + j]);
    }
}

/// Bytes at the front of complete parts that reach the end of the first one begin with it.
proof fn lemma_first_part_is_cut(list: Seq<Seq<u8>>, s: Seq<u8>)
    requires
        are_parts(list),
        list.len() > 0,
        s.is_prefix_of(joined(list)),
        s.len() >= list[0].len(),
    ensures
        multipart::part_length(s) == Some(list[0].len()),
        s.take(list[0].len() as int) == list[0],
        s.skip(list[0].len() as int).is_prefix_of(joined(list.drop_first())),
        list[0].len() > 0,
{
    let n = list[0].len() as int;
    lemma_joined_first(list);
    let all = joined(list);
    let rest = joined(list.drop_first());
    assert(s.take(n) =~= list[0]);
    assert(s =~= list[0] + s.skip(n));
    multipart::law_complete_part_is_final(list[0], s.skip(n));
    multipart::lemma_part_length_bounds(list[0]);
    assert(s.skip(n) =~= rest.take(s.len() - n));
}

/// Bytes at the front of complete parts in which no part is complete are fewer than what is held at most.
proof fn lemma_unframed_is_short(list: Seq<Seq<u8>>, s: Seq<u8>)
    requires
        are_parts(list),
        s.is_prefix_of(joined(list)),
        multipart::parts(s).len() == 0,
    ensures
        s.len() < MAX_UNFRAMED_BYTES,
{
    if list.len() > 0 && s.len() >= list[0].len() {
        lemma_first_part_is_cut(list, s);
    }
}

/// Bytes at the front of complete parts are whole parts and a beginning of the next: `j` of them are whole.
proof fn lemma_front_of_parts(list: Seq<Seq<u8>>, s: Seq<u8>) -> (j: int)
    requires
        are_parts(list),
        s.is_prefix_of(joined(list)),
    ensures
        0 <= j <= list.len(),
        multipart::parts(s) == list.take(j),
        s == joined(list.take(j)) + multipart::remainder(s),
        multipart::remainder(s).is_prefix_of(joined(list.skip(j))),
        j < list.len() ==> multipart::remainder(s).len() < list[j].len(),
    decreases list.len(),
{
    if list.len() == 0 || s.len() < list[0].len() {
        if multipart::part_length(s) is Some {
            let n = multipart::part_length(s)->0;
            multipart::lemma_part_length_bounds(s);
            if list.len() > 0 {
                lemma_joined_first(list);
                assert(s + list[0].skip(s.len() as int) =~= list[0]);
                multipart::law_complete_part_is_final(s, list[0].skip(s.len() as int));
            }
            assert(false);
        }
        assert(list.take(0) =~= Seq::<Seq<u8>>::empty());
        assert(list.skip(0) =~= list);
        assert(joined(list.take(0)) + s =~= s);
        0
    } else {
        let n = list[0].len() as int;
        lemma_first_part_is_cut(list, s);
        lemma_are_parts_behind(list, 1);
        let rest = list.drop_first();
        assert(list.skip(1) =~= rest);
        let k = lemma_front_of_parts(rest, s.skip(n));
        let j = k + 1;
        assert(list.take(j).drop_first() =~= rest.take(k));
        lemma_joined_first(list.take(j));
        assert(list.skip(j) =~= rest.skip(k));
        assert(multipart::parts(s) =~= list.take(j));
        assert(s =~= list[0] + s.skip(n));
        assert(s =~= joined(list.take(j)) + multipart::remainder(s));
        j
    }
}

proof fn lemma_parts_stay_framed(feed: Feed, reads: Seq<Seq<u8>>, list: Seq<Seq<u8>>)
    requires
        feed.acc.len() == 0,
        are_parts(list),
        joined(reads).is_prefix_of(joined(list)),
    ensures
        feed.stays_framed(reads),
    decreases reads.len(),
{
    if reads.len() > 0 {
        let earlier = reads.drop_last();
        let last = reads.last();
        let before = joined(earlier);
        assert(before =~= joined(reads).take(before.len() as int));
        assert(before =~= joined(list).take(before.len() as int));
        lemma_parts_stay_framed(feed, earlier, list);
        assert(feed.acc =~= Seq::<u8>::empty());
        assert(multipart::head_length(feed.acc) is None);
        law_feed_delivers_the_parts(feed, earlier);
        assert(feed.acc + before =~= before);
        let held = multipart::remainder(before);
        let j = lemma_front_of_parts(list, before);
        let rest = list.skip(j);
        lemma_joined_in_two(list.take(j), rest);
        assert(list.take(j) + rest =~= list);
        let now = held + last;
        assert(joined(reads) =~= joined(list.take(j)) + now);
        let whole = joined(list);
        assert(now =~= joined(rest).take(now.len() as int)) by {
            let m = joined(list.take(j)).len();
            assert(whole =~= joined(list.take(j)) + joined(rest));
            assert forall|i: int| 0 <= i < now.len() implies now[i] == joined(rest)[i] by {
                assert(joined(reads)[m + i] == whole[m + i]);
            }
        }
        lemma_are_parts_behind(list, j);
        if multipart::parts(now).len() == 0 {
            lemma_unframed_is_short(rest, now);
        }
    }
}

/// A source that writes complete parts, each below the limit, has exactly those parts delivered, whatever
/// the sizes of the reads: no bytes are forwarded unframed, and nothing is held in the end.
pub proof fn law_parts_are_delivered(feed: Feed, reads: Seq<Seq<u8>>, list: Seq<Seq<u8>>)
    requires
        feed.acc.len() == 0,
        are_parts(list),
        joined(reads) == joined(list),
    ensures
        feed.stays_framed(reads),
        feed.delivered_in(reads) == list,
        feed.after_reads(reads).acc.len() == 0,
{
    lemma_parts_stay_framed(feed, reads, list);
    assert(feed.acc =~= Seq::<u8>::empty());
    assert(multipart::head_length(feed.acc) is None);
    law_feed_delivers_the_parts(feed, reads);
    assert(feed.acc + joined(reads) =~= joined(list));
    let j = lemma_front_of_parts(list, joined(list));
    if j < list.len() {
        let rest = list.skip(j);
        lemma_joined_in_two(list.take(j), rest);
        assert(list.take(j) + rest =~= list);
        lemma_joined_first(rest);
        assert(rest[0] == list[j]);
        assert(false);
    }
    assert(list.take(j) =~= list);
    assert(list.skip(j) =~= Seq::<Seq<u8>>::empty());
}

/// A client that keeps up gets what the source writes: where the source writes complete parts, each below
/// the limit, the bytes that the socket takes are those parts in order, one write for each, whatever the
/// sizes of the reads. No other client comes into it, and the parts are the same if there is none.
pub proof fn law_client_that_keeps_up_gets_the_stream(
    feed: Feed,
    reads: Seq<Seq<u8>>,
    list: Seq<Seq<u8>>,
    sink: Sink,
    pushes: Seq<Push>,
)
    requires
        feed.acc.len() == 0,
        are_parts(list),
        joined(reads) == joined(list),
        sink.pending.len() == 0,
        pushes.len() == feed.delivered_in(reads).len(),
        forall|i: int|
            0 <= i < pushes.len() ==> (#[trigger] pushes[i]).frame == feed.delivered_in(reads)[i]
                && pushes[i].offered is Wrote && client::taken(pushes[i].offered)
                == pushes[i].frame.len(),
    ensures
        sink.stays_for(pushes),
        sink.sent_in(pushes) == joined(list),
        sink.after_pushes(pushes) == sink,
        pushes.len() == list.len(),
        forall|i: int| 0 <= i < list.len() ==> (#[trigger] pushes[i]).frame == list[i],
{
    law_parts_are_delivered(feed, reads, list);
    assert forall|i: int| 0 <= i < pushes.len() implies (#[trigger] pushes[i]).frame.len() > 0
        && pushes[i].offered is Wrote && client::taken(pushes[i].offered)
        == pushes[i].frame.len() by {
        assert(multipart::part_length(list[i]) == Some(list[i].len()));
        multipart::lemma_part_length_bounds(list[i]);
    }
    client::law_client_that_keeps_up_gets_everything(sink, pushes);
    lemma_frames_are_joined(pushes, list);
}

proof fn lemma_frames_are_joined(pushes: Seq<Push>, list: Seq<Seq<u8>>)
    requires
        pushes.len() == list.len(),
        forall|i: int| 0 <= i < list.len() ==> (#[trigger] pushes[i]).frame == list[i],
    ensures
        client::frames_of(pushes) == joined(list),
    decreases list.len(),
{
    if list.len() > 0 {
        let earlier = pushes.drop_last();
        assert forall|i: int| 0 <= i < list.len() - 1 implies (#[trigger] earlier[i]).frame
            == list.drop_last()[i] by {
            assert(pushes[i] == earlier[i]);
        }
        lemma_frames_are_joined(earlier, list.drop_last());
        assert(pushes[pushes.len() - 1] == pushes.last());
    }
}

/// Every part goes round, and the socket of the client at `i` takes every write whole.
pub open spec fn keeps_up_at(
    sinks: Seq<Sink>,
    i: int,
    rounds: Seq<Seq<Push>>,
    parts: Seq<Seq<u8>>,
) -> bool {
    let own = audience::own_pushes(sinks, i, rounds);
    &&& rounds.len() == parts.len()
    &&& own.len() == parts.len()
    &&& forall|k: int|
        0 <= k < own.len() ==> (#[trigger] own[k]).frame == parts[k] && own[k].offered is Wrote
            && client::taken(own[k].offered) == own[k].frame.len()
}

/// One sink that cannot keep up does not slow the others down: where the source writes complete parts, each
/// below the limit, and each goes round all the clients, the client at `i` that takes every write whole is
/// sent exactly what the source wrote, in order and with one write for each part. It stays and owes nothing,
/// whatever the sizes of the reads, however slow or broken the other clients are, and whoever of them goes.
pub proof fn law_slow_sink_does_not_hold_up_a_fast_one(
    feed: Feed,
    reads: Seq<Seq<u8>>,
    list: Seq<Seq<u8>>,
    sinks: Seq<Sink>,
    i: int,
    rounds: Seq<Seq<Push>>,
)
    requires
        feed.acc.len() == 0,
        are_parts(list),
        joined(reads) == joined(list),
        0 <= i < sinks.len(),
        sinks[i].pending.len() == 0,
        audience::reach_everyone(sinks, rounds),
        keeps_up_at(sinks, i, rounds, feed.delivered_in(reads)),
    ensures
        feed.delivered_in(reads) == list,
        sinks[i].sent_in(audience::own_pushes(sinks, i, rounds)) == joined(list),
        0 <= audience::place_after(sinks, i, rounds) < audience::after_rounds(sinks, rounds).len(),
        audience::after_rounds(sinks, rounds)[audience::place_after(sinks, i, rounds)] == sinks[i],
        sinks[i].first_step() == PushStep::WriteFrame,
        forall|k: int|
            0 <= k < list.len() ==> sinks[i].next_step(
                PushStep::WriteFrame,
                (#[trigger] audience::own_pushes(sinks, i, rounds)[k]).offered,
                audience::own_pushes(sinks, i, rounds)[k].now,
            ) == PushStep::Stays,
{
    let own = audience::own_pushes(sinks, i, rounds);
    law_parts_are_delivered(feed, reads, list);
    law_client_that_keeps_up_gets_the_stream(feed, reads, list, sinks[i], own);
    audience::law_others_change_nothing(sinks, i, rounds);
    assert forall|k: int| 0 <= k < list.len() implies sinks[i].next_step(
        PushStep::WriteFrame,
        (#[trigger] own[k]).offered,
        own[k].now,
    ) == PushStep::Stays by {
        assert(multipart::part_length(list[k]) == Some(list[k].len()));
        multipart::lemma_part_length_bounds(list[k]);
        assert(own[k].frame == list[k]);
    }
}

/// Bytes in which no part can be made out are held while they are fewer than four mebibytes, and forwarded as
/// they are once they are as many; complete parts go out as they are, and what is behind them is held.
pub proof fn law_bytes_are_held_or_forwarded(feed: Feed, bytes: Seq<u8>)
    ensures
        ({
            let all = feed.acc + bytes;
            &&& multipart::parts(all).len() == 0 && all.len() >= 4194304 ==> feed.delivered(bytes)
                == seq![all] && feed.after(bytes).acc.len() == 0
            &&& multipart::parts(all).len() == 0 && all.len() < 4194304 ==> feed.delivered(
                bytes,
            ).len() == 0 && feed.after(bytes).acc == all
            &&& multipart::parts(all).len() > 0 ==> feed.delivered(bytes) == multipart::parts(all)
                && feed.after(bytes).acc == multipart::remainder(all)
            &&& feed.overflows(bytes) <==> multipart::parts(all).len() == 0 && all.len() >= 4194304
        }),
{
    multipart::law_parts_cover_the_stream(feed.acc + bytes);
    let all = feed.acc + bytes;
    if multipart::parts(all).len() == 0 {
        assert(multipart::parts(all).flatten() + multipart::remainder(all)
            =~= multipart::remainder(all));
    }
}

/// A feed is live once any byte has come, however few, and stays so; nothing else makes it live. When drops
/// were last reported is not changed by what comes.
pub proof fn law_a_feed_lives_by_its_bytes(feed: Feed, bytes: Seq<u8>)
    ensures
        feed.after(bytes).live <==> feed.live || bytes.len() >= 1,
        feed.after(bytes).reported_at == feed.reported_at,
{
}

/// What goes out is what a delivery holds: nothing, the parts one for one, or the bytes in one piece.
pub proof fn law_deliveries_hold_their_pieces(list: Vec<Vec<u8>>, bytes: Vec<u8>, i: int)
    ensures
        pieces(Delivery::Nothing).len() == 0,
        pieces(Delivery::Raw(bytes)) == seq![bytes@],
        pieces(Delivery::Parts(list)).len() == list@.len(),
        0 <= i < list@.len() ==> pieces(Delivery::Parts(list))[i] == list@[i]@,
{
}

/// Drops are reported again five seconds after the last report, and not before.
pub proof fn law_drops_are_reported_every_five_seconds(feed: Feed, now: u64)
    ensures
        feed.report_due(now) <==> now - feed.reported_at >= 5_000_000_000,
{
}

/// The losses of all the clients are added up: none is left out and none counted twice.
pub proof fn law_losses_add_up(a: Seq<u64>, b: Seq<u64>, n: u64)
    ensures
        total(Seq::empty()) == 0,
        total(seq![n]) == n,
        total(a + b) == total(a) + total(b),
    decreases b.len(),
{
    assert(seq![n].drop_last() =~= Seq::<u64>::empty());
    assert(total(Seq::<u64>::empty()) == 0);
    if b.len() == 0 {
        assert(a + b =~= a);
    } else {
        law_losses_add_up(a, b.drop_last(), n);
        assert((a + b).drop_last() =~= a + b.drop_last());
        assert((a + b).last() == b.last());
    }
}

/// However a feed ends, it first stops accepting and then closes every client; the announcement comes last,
/// and only for a live feed that had started and was not asked to stop.
pub proof fn law_a_feed_ends_in_order(feed: Feed, asked_to_stop: bool, started: bool)
    ensures
        ({
            let steps = feed.end_steps(asked_to_stop, started);
            &&& steps[0] == EndStep::StopAccepting
            &&& steps[1] == EndStep::CloseClients
            &&& feed.live && started && !asked_to_stop ==> steps.len() == 3 && steps[2]
                == EndStep::Announce
            &&& !(feed.live && started && !asked_to_stop) ==> steps.len() == 2
        }),
{
}

} // verus!
