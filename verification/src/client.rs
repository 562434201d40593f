//! One connected sink of the broadcast.
//!
//! Writes are non-blocking and never waited on: a client that cannot take a part right now loses that
//! part, and the broadcast moves on. This is what keeps one slow consumer from stalling everyone. A
//! part that a socket took only half of is finished before anything else is sent, so that a client
//! loses whole pictures and never half of one.
//!
//! The socket stays with the caller. Pushing a part takes up to two writes: first what is still owed, if
//! anything is, and then the part itself, if nothing is owed any more. `first_step` and `wrote` say which
//! write comes next, and in the end whether the client stays.

use vstd::prelude::*;
use vstd::slice::slice_subrange;

verus! {

/// A client that has not accepted a single byte for this long is given up: ten seconds, in nanoseconds. This
/// is no guard against stutter, since the broadcast never waits for anyone; it is the point at which a socket
/// that never drains again is considered gone.
pub const CLIENT_STALL_TIMEOUT: u64 = 10_000_000_000;

/// What came of a non-blocking write.
#[derive(Clone, Copy, PartialEq, Eq, Debug, Structural)]
pub enum WriteOutcome {
    /// The socket took this many bytes.
    Wrote(usize),
    /// The socket could not take anything right now.
    WouldBlock,
    /// The socket is broken.
    Failed,
}

/// Whether the outcome can come of a write of `length` bytes.
pub open spec fn fits(outcome: WriteOutcome, length: nat) -> bool {
    outcome matches WriteOutcome::Wrote(n) ==> n <= length
}

/// How many bytes the socket took.
pub open spec fn taken(outcome: WriteOutcome) -> nat {
    match outcome {
        WriteOutcome::Wrote(n) => n as nat,
        _ => 0,
    }
}

/// Whether the outcome shows that the socket is gone: it broke, or it took nothing at all without
/// saying that it would block.
pub open spec fn is_gone(outcome: WriteOutcome) -> bool {
    outcome == WriteOutcome::Failed || outcome == WriteOutcome::Wrote(0)
}

/// What to do next for a client that owed something.
#[derive(Clone, Copy, PartialEq, Eq, Debug, Structural)]
pub enum Settled {
    /// The socket is gone, or has accepted nothing for too long: the client should go.
    Gone,
    /// The client is still behind. It loses the part, and stays.
    Behind,
    /// Nothing is owed any more: the part can be offered.
    Free,
}

/// One connected sink, without its socket.
#[derive(Debug)]
pub struct Client {
    /// The rest of a part that the socket would not take in one go. While this is not empty the client
    /// is behind, and new parts are dropped for it rather than queued.
    pending: Vec<u8>,
    /// When the client fell behind, in nanoseconds.
    behind_since: Option<u64>,
    /// When the client that is behind last accepted a byte, or fell behind, in nanoseconds.
    accepted_at: Option<u64>,
    /// How many parts were dropped for this client.
    dropped: u64,
}

/// What a client is.
pub struct Sink {
    /// What is still owed of a part.
    pub pending: Seq<u8>,
    /// When the client fell behind.
    pub behind_since: Option<u64>,
    /// When the client that is behind last accepted a byte, or fell behind.
    pub accepted_at: Option<u64>,
    /// How many parts were dropped for it.
    pub dropped: nat,
}

impl View for Client {
    type V = Sink;

    closed spec fn view(&self) -> Sink {
        Sink {
            pending: self.pending@,
            behind_since: self.behind_since,
            accepted_at: self.accepted_at,
            dropped: self.dropped as nat,
        }
    }
}

/// The time from `since` to `now`; none has passed if `now` is the earlier one.
pub open spec fn elapsed(since: u64, now: u64) -> nat {
    if now >= since {
        (now - since) as nat
    } else {
        0
    }
}

impl Sink {
    /// A client that has just been accepted.
    pub open spec fn fresh() -> Sink {
        Sink { pending: Seq::empty(), behind_since: None, accepted_at: None, dropped: 0 }
    }

    /// The client is behind exactly as long as it owes something, and the times are known then.
    pub open spec fn wf(self) -> bool {
        &&& self.pending.len() == 0 <==> self.behind_since is None
        &&& self.pending.len() == 0 <==> self.accepted_at is None
    }

    /// Whether the client has accepted nothing for too long.
    pub open spec fn has_stalled(self, now: u64) -> bool {
        match self.accepted_at {
            Some(at) => elapsed(at, now) >= CLIENT_STALL_TIMEOUT,
            None => false,
        }
    }

    /// The client when a write of what it owes came out so.
    pub open spec fn after_settling(self, outcome: WriteOutcome, now: u64) -> Sink {
        let left = self.pending.skip(taken(outcome) as int);
        if is_gone(outcome) {
            self
        } else if left.len() == 0 {
            Sink { pending: left, behind_since: None, accepted_at: None, ..self }
        } else if outcome == WriteOutcome::WouldBlock {
            Sink { dropped: self.dropped + 1, ..self }
        } else {
            Sink {
                pending: left,
                accepted_at: Some(now),
                dropped: self.dropped + 1,
                ..self
            }
        }
    }

    /// What to do next when a write of what the client owes came out so. A client that has just accepted
    /// bytes does not go.
    pub open spec fn settled(self, outcome: WriteOutcome, now: u64) -> Settled {
        if is_gone(outcome) || outcome == WriteOutcome::WouldBlock && self.has_stalled(now) {
            Settled::Gone
        } else if taken(outcome) < self.pending.len() {
            Settled::Behind
        } else {
            Settled::Free
        }
    }

    /// The client when a write of the part came out so.
    pub open spec fn after_offer(self, frame: Seq<u8>, outcome: WriteOutcome, now: u64) -> Sink {
        if is_gone(outcome) || outcome is Wrote && taken(outcome) == frame.len() {
            self
        } else {
            Sink {
                pending: self.pending + frame.skip(taken(outcome) as int),
                behind_since: Some(now),
                accepted_at: Some(now),
                ..self
            }
        }
    }

    /// A part that is lost when the write of what the client owes came out so can still be counted.
    pub open spec fn can_count(self, outcome: WriteOutcome) -> bool {
        !is_gone(outcome) && taken(outcome) < self.pending.len() ==> self.dropped < u64::MAX
    }

    /// The write that a push begins with.
    pub open spec fn first_step(self) -> PushStep {
        if self.pending.len() > 0 {
            PushStep::WriteOwed
        } else {
            PushStep::WriteFrame
        }
    }

    /// The write can come out so.
    pub open spec fn can_come(
        self,
        step: PushStep,
        frame: Seq<u8>,
        outcome: WriteOutcome,
    ) -> bool {
        match step {
            PushStep::WriteOwed => self.pending.len() > 0 && fits(outcome, self.pending.len()),
            PushStep::WriteFrame => self.pending.len() == 0 && fits(outcome, frame.len()),
            _ => false,
        }
    }

    /// The client when the write came out so.
    pub open spec fn after_step(
        self,
        step: PushStep,
        frame: Seq<u8>,
        outcome: WriteOutcome,
        now: u64,
    ) -> Sink {
        match step {
            PushStep::WriteOwed => self.after_settling(outcome, now),
            PushStep::WriteFrame => self.after_offer(frame, outcome, now),
            _ => self,
        }
    }

    /// What comes next when the write came out so.
    pub open spec fn next_step(
        self,
        step: PushStep,
        outcome: WriteOutcome,
        now: u64,
    ) -> PushStep {
        match step {
            PushStep::WriteOwed => match self.settled(outcome, now) {
                Settled::Gone => PushStep::Goes,
                Settled::Behind => PushStep::Stays,
                Settled::Free => PushStep::WriteFrame,
            },
            PushStep::WriteFrame => if is_gone(outcome) {
                PushStep::Goes
            } else {
                PushStep::Stays
            },
            _ => step,
        }
    }
}

/// What to do next for a push.
#[derive(Clone, Copy, PartialEq, Eq, Debug, Structural)]
pub enum PushStep {
    /// Write what is still owed.
    WriteOwed,
    /// Write the part.
    WriteFrame,
    /// The push is over, and the client stays.
    Stays,
    /// The push is over, and the client should go.
    Goes,
}

impl Client {
    /// A client that has just been accepted.
    pub fn new() -> (r: Client)
        ensures
            r@ == Sink::fresh(),
    {
        Client { pending: Vec::new(), behind_since: None, accepted_at: None, dropped: 0 }
    }

    /// What is still owed of a part.
    pub fn owed(&self) -> (r: &[u8])
        ensures
            r@ == self@.pending,
    {
        self.pending.as_slice()
    }

    /// How many parts were dropped for this client so far.
    pub fn dropped(&self) -> (r: u64)
        ensures
            r == self@.dropped,
    {
        self.dropped
    }

    /// Takes in what came of a write of what is owed.
    pub fn settle(&mut self, outcome: WriteOutcome, now: u64) -> (r: Settled)
        requires
            old(self)@.pending.len() > 0,
            fits(outcome, old(self)@.pending.len()),
            old(self)@.can_count(outcome),
        ensures
            final(self)@ == old(self)@.after_settling(outcome, now),
            r == old(self)@.settled(outcome, now),
    {
        match outcome {
            WriteOutcome::Failed => Settled::Gone,
            WriteOutcome::Wrote(n) => {
                if n == 0 {
                    return Settled::Gone;
                }
                self.pending = self.pending.split_off(n);
                proof {
                    assert(self@.pending =~= old(self)@.pending.skip(taken(outcome) as int));
                }
                if self.pending.len() > 0 {
                    self.accepted_at = Some(now);
                    self.dropped = self.dropped + 1;
                    Settled::Behind
                } else {
                    self.behind_since = None;
                    self.accepted_at = None;
                    Settled::Free
                }
            },
            WriteOutcome::WouldBlock => {
                proof {
                    assert(self@.pending =~= old(self)@.pending.skip(taken(outcome) as int));
                }
                self.dropped = self.dropped + 1;
                let passed: u64 = match self.accepted_at {
                    Some(at) => {
                        if now >= at {
                            now - at
                        } else {
                            0
                        }
                    },
                    None => 0,
                };
                if passed >= CLIENT_STALL_TIMEOUT {
                    Settled::Gone
                } else {
                    Settled::Behind
                }
            },
        }
    }

    /// Takes in what came of a write of the part. Returns false when the socket is gone and the client
    /// should go.
    pub fn offer(&mut self, frame: &[u8], outcome: WriteOutcome, now: u64) -> (r: bool)
        requires
            old(self)@.pending.len() == 0,
            fits(outcome, frame@.len()),
        ensures
            final(self)@ == old(self)@.after_offer(frame@, outcome, now),
            r == !is_gone(outcome),
    {
        let taken_now: usize = match outcome {
            WriteOutcome::Failed => {
                return false;
            },
            WriteOutcome::Wrote(n) => {
                if n == 0 {
                    return false;
                }
                if n == frame.len() {
                    return true;
                }
                n
            },
            WriteOutcome::WouldBlock => 0,
        };
        let left: &[u8] = slice_subrange(frame, taken_now, frame.len());
        self.pending.extend_from_slice(left);
        self.behind_since = Some(now);
        self.accepted_at = Some(now);
        proof {
            assert(self@.pending =~= old(self)@.pending + frame@.skip(taken(outcome) as int));
        }
        true
    }

    /// The write that a push begins with: what is owed goes before anything new.
    pub fn first_step(&self) -> (r: PushStep)
        ensures
            r == self@.first_step(),
    {
        if self.pending.len() > 0 {
            PushStep::WriteOwed
        } else {
            PushStep::WriteFrame
        }
    }

    /// Takes in what came of a write of a push. Returns what comes next.
    pub fn wrote(
        &mut self,
        step: PushStep,
        frame: &[u8],
        outcome: WriteOutcome,
        now: u64,
    ) -> (r: PushStep)
        requires
            old(self)@.can_come(step, frame@, outcome),
            step == PushStep::WriteOwed ==> old(self)@.can_count(outcome),
        ensures
            final(self)@ == old(self)@.after_step(step, frame@, outcome, now),
            r == old(self)@.next_step(step, outcome, now),
    {
        match step {
            PushStep::WriteOwed => match self.settle(outcome, now) {
                Settled::Gone => PushStep::Goes,
                Settled::Behind => PushStep::Stays,
                Settled::Free => PushStep::WriteFrame,
            },
            PushStep::WriteFrame => {
                if self.offer(frame, outcome, now) {
                    PushStep::Stays
                } else {
                    PushStep::Goes
                }
            },
            PushStep::Stays => PushStep::Stays,
            PushStep::Goes => PushStep::Goes,
        }
    }
}

/// One part on its way to one client: the part, what came of a write of what was owed, what came of a
/// write of the part, and when.
pub struct Push {
    /// The part.
    pub frame: Seq<u8>,
    /// What came of the write of what was owed, where something was.
    pub owed: WriteOutcome,
    /// What came of the write of the part, where it was offered.
    pub offered: WriteOutcome,
    /// When the part was pushed.
    pub now: u64,
}

impl Sink {
    /// Whether the writes of the push can come out so.
    pub open spec fn accepts(self, push: Push) -> bool {
        &&& self.pending.len() > 0 ==> fits(push.owed, self.pending.len())
        &&& fits(push.offered, push.frame.len())
    }

    /// Whether the part is offered: nothing is owed, or nothing any more.
    pub open spec fn offers(self, push: Push) -> bool {
        self.pending.len() == 0 || self.settled(push.owed, push.now) == Settled::Free
    }

    /// The client that the part is offered to, or that has lost it.
    pub open spec fn settled_sink(self, push: Push) -> Sink {
        if self.pending.len() == 0 {
            self
        } else {
            self.after_settling(push.owed, push.now)
        }
    }

    /// The client after the push.
    pub open spec fn pushed(self, push: Push) -> Sink {
        if self.offers(push) {
            self.settled_sink(push).after_offer(push.frame, push.offered, push.now)
        } else {
            self.settled_sink(push)
        }
    }

    /// Whether the client stays.
    pub open spec fn stays(self, push: Push) -> bool {
        if self.offers(push) {
            !is_gone(push.offered)
        } else {
            self.settled(push.owed, push.now) == Settled::Behind
        }
    }

    /// The bytes that the socket takes.
    pub open spec fn sent(self, push: Push) -> Seq<u8> {
        let owed = if self.pending.len() == 0 {
            Seq::empty()
        } else {
            self.pending.take(taken(push.owed) as int)
        };
        if self.offers(push) {
            owed + push.frame.take(taken(push.offered) as int)
        } else {
            owed
        }
    }

    /// The client after all the pushes.
    pub open spec fn after_pushes(self, pushes: Seq<Push>) -> Sink
        decreases pushes.len(),
    {
        if pushes.len() == 0 {
            self
        } else {
            self.after_pushes(pushes.drop_last()).pushed(pushes.last())
        }
    }

    /// Whether the writes of all the pushes can come out so, and the client stays throughout.
    pub open spec fn stays_for(self, pushes: Seq<Push>) -> bool
        decreases pushes.len(),
    {
        if pushes.len() == 0 {
            true
        } else {
            let before = self.after_pushes(pushes.drop_last());
            &&& self.stays_for(pushes.drop_last())
            &&& before.accepts(pushes.last())
            &&& before.stays(pushes.last())
        }
    }

    /// The bytes that the socket takes in all the pushes.
    pub open spec fn sent_in(self, pushes: Seq<Push>) -> Seq<u8>
        decreases pushes.len(),
    {
        if pushes.len() == 0 {
            Seq::empty()
        } else {
            self.sent_in(pushes.drop_last()) + self.after_pushes(pushes.drop_last()).sent(
                pushes.last(),
            )
        }
    }

    /// The parts that were offered, one after the other.
    pub open spec fn offered_in(self, pushes: Seq<Push>) -> Seq<u8>
        decreases pushes.len(),
    {
        if pushes.len() == 0 {
            Seq::empty()
        } else {
            let before = self.after_pushes(pushes.drop_last());
            let earlier = self.offered_in(pushes.drop_last());
            if before.offers(pushes.last()) {
                earlier + pushes.last().frame
            } else {
                earlier
            }
        }
    }

    /// How many parts were not offered.
    pub open spec fn lost_in(self, pushes: Seq<Push>) -> nat
        decreases pushes.len(),
    {
        if pushes.len() == 0 {
            0
        } else {
            let before = self.after_pushes(pushes.drop_last());
            let earlier = self.lost_in(pushes.drop_last());
            if before.offers(pushes.last()) {
                earlier
            } else {
                earlier + 1
            }
        }
    }
}

/// A push either sends the part, or counts it as dropped and sends nothing of it. What the socket took
/// and what is still owed are together what was owed before, and the part if it was sent.
pub proof fn law_push_sends_all_or_nothing(sink: Sink, push: Push)
    requires
        sink.accepts(push),
        sink.stays(push),
    ensures
        sink.offers(push) ==> {
            &&& sink.sent(push) + sink.pushed(push).pending == sink.pending + push.frame
            &&& sink.pushed(push).dropped == sink.dropped
        },
        !sink.offers(push) ==> {
            &&& sink.sent(push) + sink.pushed(push).pending == sink.pending
            &&& sink.pushed(push).dropped == sink.dropped + 1
        },
{
    let after = sink.pushed(push);
    let n = taken(push.owed) as int;
    let m = taken(push.offered) as int;
    let left = sink.settled_sink(push);
    if sink.pending.len() > 0 {
        assert(sink.pending.take(n) + left.pending =~= sink.pending);
    }
    if sink.offers(push) {
        assert(left.pending.len() == 0);
        assert(push.frame.take(m) + after.pending =~= push.frame);
        assert(sink.sent(push) + after.pending =~= sink.pending + push.frame);
    } else {
        assert(sink.sent(push) + after.pending =~= sink.pending);
    }
}

/// A client loses whole parts and never half of one: as long as it stays, the bytes that its socket took
/// and what is still owed are the parts that it was sent, whole and in order, and every other part is
/// counted as dropped.
pub proof fn law_client_gets_whole_parts(sink: Sink, pushes: Seq<Push>)
    requires
        sink.stays_for(pushes),
    ensures
        sink.sent_in(pushes) + sink.after_pushes(pushes).pending == sink.pending
            + sink.offered_in(pushes),
        sink.after_pushes(pushes).dropped == sink.dropped + sink.lost_in(pushes),
    decreases pushes.len(),
{
    if pushes.len() == 0 {
        assert(sink.sent_in(pushes) + sink.pending =~= sink.pending + sink.offered_in(pushes));
    } else {
        let earlier = pushes.drop_last();
        let last = pushes.last();
        law_client_gets_whole_parts(sink, earlier);
        let before = sink.after_pushes(earlier);
        law_push_sends_all_or_nothing(before, last);
        let after = before.pushed(last);
        assert(sink.sent_in(pushes) + after.pending =~= sink.sent_in(earlier) + (before.sent(last)
            + after.pending));
        if before.offers(last) {
            assert(sink.sent_in(earlier) + (before.pending + last.frame) =~= (sink.sent_in(earlier)
                + before.pending) + last.frame);
            assert(sink.sent_in(pushes) + after.pending =~= sink.pending + sink.offered_in(pushes));
        }
    }
}

impl Sink {
    /// The steps of a push, one after the other: the client, and whether it stays or goes.
    pub open spec fn stepped(self, step: PushStep, push: Push) -> (Sink, PushStep) {
        match step {
            PushStep::WriteOwed => {
                let after = self.after_step(step, push.frame, push.owed, push.now);
                let next = self.next_step(step, push.owed, push.now);
                if next == PushStep::WriteFrame {
                    (
                        after.after_step(next, push.frame, push.offered, push.now),
                        after.next_step(next, push.offered, push.now),
                    )
                } else {
                    (after, next)
                }
            },
            PushStep::WriteFrame => (
                self.after_step(step, push.frame, push.offered, push.now),
                self.next_step(step, push.offered, push.now),
            ),
            _ => (self, step),
        }
    }
}

/// The steps make up the push: they come to the client that the push leaves, and to whether it stays.
pub proof fn law_steps_make_the_push(sink: Sink, push: Push)
    requires
        sink.accepts(push),
    ensures
        sink.stepped(sink.first_step(), push) == (
            sink.pushed(push),
            if sink.stays(push) {
                PushStep::Stays
            } else {
                PushStep::Goes
            },
        ),
{
}

/// A client is behind exactly as long as it owes something, and every push keeps it so. It has been behind
/// since this push if this part was left unfinished, and since when it was before if what it owed still is.
pub proof fn law_owing_is_dated(sink: Sink, push: Push)
    requires
        sink.wf(),
        sink.accepts(push),
        push.frame.len() > 0,
    ensures
        Sink::fresh().wf(),
        sink.pushed(push).wf(),
        sink.offers(push) && sink.pushed(push).pending.len() > 0 ==> sink.pushed(push).behind_since
            == Some(push.now),
        !sink.offers(push) ==> sink.pushed(push).behind_since == sink.behind_since,
{
}

/// Only a client that has not accepted a single byte for as long as the stall timeout is given up, apart from
/// one whose socket is gone: one that is behind goes exactly where the socket is gone, or would block with
/// the timeout passed since it last accepted a byte or fell behind.
pub proof fn law_only_a_stalled_client_is_given_up(sink: Sink, outcome: WriteOutcome, now: u64, at: u64)
    requires
        sink.pending.len() > 0,
        sink.accepted_at == Some(at),
        fits(outcome, sink.pending.len()),
    ensures
        sink.settled(outcome, now) == Settled::Gone <==> is_gone(outcome) || outcome
            == WriteOutcome::WouldBlock && elapsed(at, now) >= CLIENT_STALL_TIMEOUT,
{
}

/// A client that has just accepted some of what it owes stays behind, however long it has been so, and the
/// stall timeout begins anew.
pub proof fn law_accepting_client_stays(sink: Sink, push: Push)
    requires
        push.owed is Wrote,
        0 < taken(push.owed) < sink.pending.len(),
    ensures
        sink.stays(push),
        sink.pushed(push).accepted_at == Some(push.now),
        sink.pushed(push).behind_since == sink.behind_since,
{
}

/// A client that is behind does not go while the stall timeout has not passed, and goes once it has,
/// if its socket would block.
pub proof fn law_stalled_client_goes(sink: Sink, push: Push, at: u64)
    requires
        sink.pending.len() > 0,
        sink.accepted_at == Some(at),
        push.owed == WriteOutcome::WouldBlock,
        push.now >= at,
    ensures
        sink.stays(push) <==> push.now - at < CLIENT_STALL_TIMEOUT,
{
}

/// A client that accepts nothing for as long as the stall timeout does not stay.
pub proof fn law_client_that_accepts_nothing_goes(sink: Sink, pushes: Seq<Push>, at: u64)
    requires
        sink.pending.len() > 0,
        sink.accepted_at == Some(at),
        forall|i: int|
            0 <= i < pushes.len() ==> (#[trigger] pushes[i]).owed == WriteOutcome::WouldBlock,
        pushes.len() > 0,
        pushes.last().now - at >= CLIENT_STALL_TIMEOUT,
    ensures
        !sink.stays_for(pushes),
{
    let earlier = pushes.drop_last();
    assert forall|i: int| 0 <= i < earlier.len() implies (#[trigger] earlier[i]).owed
        == WriteOutcome::WouldBlock by {
        assert(pushes[i] == earlier[i]);
    }
    lemma_blocked_client_stays_behind(sink, earlier);
    assert(pushes[pushes.len() - 1] == pushes.last());
}

proof fn lemma_blocked_client_stays_behind(sink: Sink, pushes: Seq<Push>)
    requires
        sink.pending.len() > 0,
        forall|i: int|
            0 <= i < pushes.len() ==> (#[trigger] pushes[i]).owed == WriteOutcome::WouldBlock,
    ensures
        sink.after_pushes(pushes).pending == sink.pending,
        sink.after_pushes(pushes).accepted_at == sink.accepted_at,
    decreases pushes.len(),
{
    if pushes.len() > 0 {
        let earlier = pushes.drop_last();
        assert forall|i: int| 0 <= i < earlier.len() implies (#[trigger] earlier[i]).owed
            == WriteOutcome::WouldBlock by {
            assert(pushes[i] == earlier[i]);
        }
        lemma_blocked_client_stays_behind(sink, earlier);
        assert(pushes[pushes.len() - 1] == pushes.last());
        assert(sink.after_pushes(pushes).pending =~= sink.pending);
    }
}

/// The parts, one after the other.
pub open spec fn frames_of(pushes: Seq<Push>) -> Seq<u8>
    decreases pushes.len(),
{
    if pushes.len() == 0 {
        Seq::empty()
    } else {
        frames_of(pushes.drop_last()) + pushes.last().frame
    }
}

/// The socket takes every part in one write.
pub open spec fn keeps_up(pushes: Seq<Push>) -> bool {
    forall|i: int|
        0 <= i < pushes.len() ==> (#[trigger] pushes[i]).frame.len() > 0 && pushes[i].offered is Wrote
            && taken(pushes[i].offered) == pushes[i].frame.len()
}

/// A client that keeps up gets every part, whole and in order, and loses none. Nothing here depends on any
/// other client, so a slow one does not hold up a fast one.
pub proof fn law_client_that_keeps_up_gets_everything(sink: Sink, pushes: Seq<Push>)
    requires
        sink.pending.len() == 0,
        keeps_up(pushes),
    ensures
        sink.stays_for(pushes),
        sink.after_pushes(pushes) == sink,
        sink.sent_in(pushes) == frames_of(pushes),
    decreases pushes.len(),
{
    if pushes.len() > 0 {
        let earlier = pushes.drop_last();
        let last = pushes.last();
        assert forall|i: int| 0 <= i < earlier.len() implies (#[trigger] earlier[i]).frame.len() > 0
            && earlier[i].offered is Wrote && taken(earlier[i].offered) == earlier[i].frame.len() by {
            assert(pushes[i] == earlier[i]);
        }
        law_client_that_keeps_up_gets_everything(sink, earlier);
        assert(pushes[pushes.len() - 1] == last);
        assert(sink.sent(last) =~= last.frame);
    }
}

/// Parts are not queued for a client that is behind: it is never owed more than it was, or than one part.
pub proof fn law_parts_are_not_queued(sink: Sink, push: Push)
    requires
        sink.accepts(push),
    ensures
        sink.pushed(push).pending.len() <= sink.pending.len() || sink.pushed(push).pending.len()
            <= push.frame.len(),
{
}

/// A client whose socket would block loses the part while it is behind, and only then.
pub proof fn law_slow_client_loses_the_part(sink: Sink, push: Push)
    requires
        push.owed == WriteOutcome::WouldBlock,
        push.offered == WriteOutcome::WouldBlock,
    ensures
        sink.pushed(push).dropped == (if sink.pending.len() > 0 {
            sink.dropped + 1
        } else {
            sink.dropped
        }),
        sink.pending.len() > 0 ==> sink.pushed(push).pending == sink.pending,
        sink.pending.len() == 0 ==> sink.pushed(push).pending == push.frame,
{
    if sink.pending.len() > 0 {
        assert(sink.pushed(push).pending =~= sink.pending);
    } else {
        assert(sink.pushed(push).pending =~= push.frame);
    }
}

/// What comes of a write of what is owed: the bytes that the socket took are owed no more and the rest still
/// is. Where all of it was taken the part follows; otherwise the part is lost and counted. A socket that is
/// broken, or takes nothing without saying that it would block, ends the client, and so does one that would
/// block ten seconds after it last took a byte.
pub proof fn law_what_is_owed_goes_first(
    sink: Sink,
    frame: Seq<u8>,
    n: usize,
    now: u64,
    at: u64,
)
    requires
        sink.pending.len() > 0,
        0 < n <= sink.pending.len(),
        sink.accepted_at == Some(at),
    ensures
        sink.first_step() == PushStep::WriteOwed,
        ({
            let step = PushStep::WriteOwed;
            let took = sink.after_step(step, frame, WriteOutcome::Wrote(n), now);
            let blocked = sink.after_step(step, frame, WriteOutcome::WouldBlock, now);
            &&& took.pending == sink.pending.skip(n as int)
            &&& n < sink.pending.len() ==> {
                &&& sink.next_step(step, WriteOutcome::Wrote(n), now) == PushStep::Stays
                &&& took.behind_since == sink.behind_since
                &&& took.accepted_at == Some(now)
                &&& took.dropped == sink.dropped + 1
            }
            &&& n == sink.pending.len() ==> {
                &&& sink.next_step(step, WriteOutcome::Wrote(n), now) == PushStep::WriteFrame
                &&& took.behind_since is None
                &&& took.accepted_at is None
                &&& took.dropped == sink.dropped
            }
            &&& blocked == Sink { dropped: sink.dropped + 1, ..sink }
            &&& now - at >= 10_000_000_000 ==> sink.next_step(step, WriteOutcome::WouldBlock, now)
                == PushStep::Goes
            &&& now - at < 10_000_000_000 ==> sink.next_step(step, WriteOutcome::WouldBlock, now)
                == PushStep::Stays
            &&& sink.next_step(step, WriteOutcome::Failed, now) == PushStep::Goes
            &&& sink.next_step(step, WriteOutcome::Wrote(0), now) == PushStep::Goes
            &&& sink.after_step(step, frame, WriteOutcome::Failed, now) == sink
            &&& sink.after_step(step, frame, WriteOutcome::Wrote(0), now) == sink
        }),
{
    assert(sink.pending.skip(0) =~= sink.pending);
}

/// What comes of a write of a part: what the socket did not take of it is owed from now on, and nothing is
/// where it took all. The client goes exactly where the socket is broken, or takes nothing without saying that
/// it would block. No part is lost by it.
pub proof fn law_what_is_not_taken_is_owed(sink: Sink, frame: Seq<u8>, n: usize, now: u64)
    requires
        sink.pending.len() == 0,
        0 < n <= frame.len(),
    ensures
        sink.first_step() == PushStep::WriteFrame,
        ({
            let step = PushStep::WriteFrame;
            let took = sink.after_step(step, frame, WriteOutcome::Wrote(n), now);
            let blocked = sink.after_step(step, frame, WriteOutcome::WouldBlock, now);
            &&& took.pending == frame.skip(n as int)
            &&& took.dropped == sink.dropped
            &&& n == frame.len() ==> took == sink
            &&& n < frame.len() ==> took.behind_since == Some(now) && took.accepted_at == Some(now)
            &&& sink.next_step(step, WriteOutcome::Wrote(n), now) == PushStep::Stays
            &&& blocked.pending == frame
            &&& blocked.behind_since == Some(now)
            &&& blocked.accepted_at == Some(now)
            &&& blocked.dropped == sink.dropped
            &&& sink.next_step(step, WriteOutcome::WouldBlock, now) == PushStep::Stays
            &&& sink.next_step(step, WriteOutcome::Failed, now) == PushStep::Goes
            &&& sink.next_step(step, WriteOutcome::Wrote(0), now) == PushStep::Goes
            &&& sink.after_step(step, frame, WriteOutcome::Failed, now) == sink
        }),
{
    let took = sink.after_step(PushStep::WriteFrame, frame, WriteOutcome::Wrote(n), now);
    let blocked = sink.after_step(PushStep::WriteFrame, frame, WriteOutcome::WouldBlock, now);
    assert(took.pending =~= frame.skip(n as int));
    assert(blocked.pending =~= frame);
}

/// A push that is over changes nothing more.
pub proof fn law_a_push_ends_once(sink: Sink, frame: Seq<u8>, outcome: WriteOutcome, now: u64)
    ensures
        sink.after_step(PushStep::Stays, frame, outcome, now) == sink,
        sink.after_step(PushStep::Goes, frame, outcome, now) == sink,
        sink.next_step(PushStep::Stays, outcome, now) == PushStep::Stays,
        sink.next_step(PushStep::Goes, outcome, now) == PushStep::Goes,
{
}

/// The socket took what it says it took, and nothing where it would block or is broken.
pub proof fn law_outcomes_say_what_was_taken(n: usize, length: nat)
    ensures
        taken(WriteOutcome::Wrote(n)) == n,
        taken(WriteOutcome::WouldBlock) == 0,
        taken(WriteOutcome::Failed) == 0,
        is_gone(WriteOutcome::Wrote(n)) <==> n == 0,
        !is_gone(WriteOutcome::WouldBlock),
        is_gone(WriteOutcome::Failed),
        fits(WriteOutcome::Wrote(n), length) <==> n <= length,
        fits(WriteOutcome::WouldBlock, length),
        fits(WriteOutcome::Failed, length),
{
}

/// The time that has passed is the difference of the two times, and none where the clock went back.
pub proof fn law_time_passes_forward(since: u64, now: u64, later: u64)
    ensures
        since <= now ==> since + elapsed(since, now) == now,
        now <= since ==> elapsed(since, now) == 0,
        now <= later ==> elapsed(since, now) <= elapsed(since, later),
{
}

} // verus!
