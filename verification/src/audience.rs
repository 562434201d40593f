//! All the connected sinks of the broadcast.
//!
//! Each client is pushed every part on its own: what one client's socket does changes nothing for another.
//! The sockets stay with the caller, in the same order as the clients here.
//!
//! A part goes round: `begin_round` says what to do first, and `wrote` and `closed` what to do next, until
//! every client has been pushed the part and those that should go are gone.

use crate::client;
use crate::client::{Client, Push, PushStep, Sink, WriteOutcome};
use vstd::prelude::*;

verus! {

/// All the connected sinks.
#[derive(Debug)]
pub struct Audience {
    clients: Vec<Client>,
}

/// What the clients are.
pub open spec fn sinks(clients: Seq<Client>) -> Seq<Sink> {
    clients.map_values(|client: Client| client@)
}

/// How many parts were dropped for each client.
pub open spec fn losses_of(sinks: Seq<Sink>) -> Seq<nat> {
    sinks.map_values(|sink: Sink| sink.dropped)
}

impl View for Audience {
    type V = Seq<Sink>;

    closed spec fn view(&self) -> Seq<Sink> {
        sinks(self.clients@)
    }
}

impl Audience {
    /// Nobody is connected.
    pub fn new() -> (r: Audience)
        ensures
            r@ == Seq::<Sink>::empty(),
    {
        let r: Audience = Audience { clients: Vec::new() };
        proof {
            assert(r@ =~= Seq::<Sink>::empty());
        }
        r
    }

    /// How many clients are connected.
    pub fn len(&self) -> (r: usize)
        ensures
            r == self@.len(),
    {
        self.clients.len()
    }

    /// A client has connected. It comes last.
    pub fn join(&mut self)
        ensures
            final(self)@ == old(self)@.push(Sink::fresh()),
    {
        self.clients.push(Client::new());
        proof {
            assert(self@ =~= old(self)@.push(Sink::fresh()));
        }
    }

    /// All the clients go.
    pub fn clear(&mut self)
        ensures
            final(self)@ == Seq::<Sink>::empty(),
    {
        self.clients = Vec::new();
        proof {
            assert(self@ =~= Seq::<Sink>::empty());
        }
    }

    /// What is still owed to a client of a part.
    pub fn owed(&self, i: usize) -> (r: &[u8])
        requires
            i < self@.len(),
        ensures
            r@ == self@[i as int].pending,
    {
        self.clients[i].owed()
    }

    /// How many parts were dropped for a client so far.
    pub fn dropped(&self, i: usize) -> (r: u64)
        requires
            i < self@.len(),
        ensures
            r == self@[i as int].dropped,
    {
        self.clients[i].dropped()
    }

    /// How many parts were dropped for each client so far.
    pub fn losses(&self) -> (r: Vec<u64>)
        ensures
            r@.map_values(|n: u64| n as nat) == losses_of(self@),
    {
        let mut counts: Vec<u64> = Vec::new();
        let mut i: usize = 0;
        while i < self.clients.len()
            invariant
                i <= self.clients@.len(),
                counts@.len() == i,
                forall|k: int| 0 <= k < i ==> counts@[k] as nat == self.clients@[k]@.dropped,
            decreases self.clients@.len() - i,
        {
            counts.push(self.clients[i].dropped());
            i = i + 1;
        }
        proof {
            assert(counts@.map_values(|n: u64| n as nat) =~= losses_of(self@));
        }
        counts
    }

    fn step_at(&self, i: usize) -> (r: RoundStep)
        ensures
            r == round_at(self@, i as int),
    {
        if i >= self.clients.len() {
            return RoundStep::Done;
        }
        match self.clients[i].first_step() {
            PushStep::WriteOwed => RoundStep::WriteOwed(i),
            _ => RoundStep::WriteFrame(i),
        }
    }

    /// What to do first to push a part to every client.
    pub fn begin_round(&self) -> (r: RoundStep)
        ensures
            r == round_at(self@, 0),
    {
        self.step_at(0)
    }

    /// Takes in what came of a write to a client. Returns what to do next. A client that should go is gone,
    /// and those behind it have moved up; its socket is to be closed. The other clients stay as they are.
    pub fn wrote(
        &mut self,
        step: RoundStep,
        frame: &[u8],
        outcome: WriteOutcome,
        now: u64,
    ) -> (r: RoundStep)
        requires
            writes_to(step) is Some,
            ({
                let (i, write) = writes_to(step)->0;
                &&& i < old(self)@.len()
                &&& old(self)@[i].can_come(write, frame@, outcome)
                &&& write == PushStep::WriteOwed ==> old(self)@[i].can_count(outcome)
            }),
        ensures
            (final(self)@, r) == round_after(old(self)@, step, frame@, outcome, now),
    {
        let (i, write): (usize, PushStep) = match step {
            RoundStep::WriteOwed(i) => (i, PushStep::WriteOwed),
            RoundStep::WriteFrame(i) => (i, PushStep::WriteFrame),
            RoundStep::Close(i) => (i, PushStep::Goes),
            RoundStep::Done => (0, PushStep::Stays),
        };
        let next: PushStep = self.clients[i].wrote(write, frame, outcome, now);
        let ghost pushed = old(self)@.update(
            i as int,
            old(self)@[i as int].after_step(write, frame@, outcome, now),
        );
        proof {
            assert(self@ =~= pushed);
            assert(i < self.clients.len());
        }
        match next {
            PushStep::Goes => {
                let _gone: Client = self.clients.remove(i);
                proof {
                    assert(self@ =~= old(self)@.remove(i as int));
                }
                RoundStep::Close(i)
            },
            PushStep::Stays => self.step_at(i + 1),
            PushStep::WriteFrame => RoundStep::WriteFrame(i),
            PushStep::WriteOwed => RoundStep::WriteOwed(i),
        }
    }

    /// Takes in that the socket of a client that is gone has been closed. Returns what to do next.
    pub fn closed(&self, i: usize) -> (r: RoundStep)
        ensures
            r == round_at(self@, i as int),
    {
        self.step_at(i)
    }
}

/// What to do next to push a part to every client.
#[derive(Clone, Copy, PartialEq, Eq, Debug, Structural)]
pub enum RoundStep {
    /// Write what is owed to this client.
    WriteOwed(usize),
    /// Write the part to this client.
    WriteFrame(usize),
    /// Close the socket at this place, whose client is gone.
    Close(usize),
    /// Every client has been pushed the part.
    Done,
}

/// What to do next once the clients before `i` have been pushed the part.
pub open spec fn round_at(sinks: Seq<Sink>, i: int) -> RoundStep {
    if i >= sinks.len() {
        RoundStep::Done
    } else {
        match sinks[i].first_step() {
            PushStep::WriteOwed => RoundStep::WriteOwed(i as usize),
            _ => RoundStep::WriteFrame(i as usize),
        }
    }
}

/// The client that is written to, and what is written.
pub open spec fn writes_to(step: RoundStep) -> Option<(int, PushStep)> {
    match step {
        RoundStep::WriteOwed(i) => Some((i as int, PushStep::WriteOwed)),
        RoundStep::WriteFrame(i) => Some((i as int, PushStep::WriteFrame)),
        _ => None,
    }
}

/// The clients, and what to do next, when the write came out so.
pub open spec fn round_after(
    sinks: Seq<Sink>,
    step: RoundStep,
    frame: Seq<u8>,
    outcome: WriteOutcome,
    now: u64,
) -> (Seq<Sink>, RoundStep) {
    match writes_to(step) {
        Some((i, write)) => {
            let pushed = sinks.update(i, sinks[i].after_step(write, frame, outcome, now));
            match sinks[i].next_step(write, outcome, now) {
                PushStep::WriteOwed => (pushed, RoundStep::WriteOwed(i as usize)),
                PushStep::WriteFrame => (pushed, RoundStep::WriteFrame(i as usize)),
                PushStep::Stays => (pushed, round_at(pushed, i + 1)),
                PushStep::Goes => (sinks.remove(i), RoundStep::Close(i as usize)),
            }
        },
        None => (sinks, step),
    }
}

/// The writes of the push to the client whose turn it is, and the closing of its socket if it goes: the
/// clients, and what to do next.
pub open spec fn turn(sinks: Seq<Sink>, i: int, push: Push) -> (Seq<Sink>, RoundStep) {
    let begun = round_at(sinks, i);
    let first = if begun is WriteOwed {
        push.owed
    } else {
        push.offered
    };
    let (once, next) = round_after(sinks, begun, push.frame, first, push.now);
    let (twice, end) = if begun is WriteOwed && next is WriteFrame && next->WriteFrame_0 == i {
        round_after(once, next, push.frame, push.offered, push.now)
    } else {
        (once, next)
    };
    match end {
        RoundStep::Close(j) => (twice, round_at(twice, j as int)),
        _ => (twice, end),
    }
}

/// The clients from `i` on are pushed the part, one after the other. Where one goes, the next is in its
/// place.
pub open spec fn round_from(sinks: Seq<Sink>, i: int, pushes: Seq<Push>) -> Seq<Sink>
    decreases pushes.len(),
{
    if pushes.len() == 0 || i >= sinks.len() {
        sinks
    } else {
        let push = pushes[0];
        let rest = turn(sinks, i, push).0;
        round_from(
            rest,
            if sinks[i].stays(push) {
                i + 1
            } else {
                i
            },
            pushes.drop_first(),
        )
    }
}

/// The clients that stay, each after its own push, in their order.
pub open spec fn survivors(sinks: Seq<Sink>, pushes: Seq<Push>) -> Seq<Sink>
    decreases sinks.len(),
{
    if sinks.len() == 0 {
        Seq::empty()
    } else {
        let rest = survivors(sinks.drop_first(), pushes.drop_first());
        if sinks[0].stays(pushes[0]) {
            seq![sinks[0].pushed(pushes[0])] + rest
        } else {
            rest
        }
    }
}

/// The turn of a client comes to its push: the client after it if it stays, and the client gone if it goes.
/// The next client's turn follows, and no other client is changed.
pub proof fn law_turn_is_one_push(sinks: Seq<Sink>, i: int, push: Push)
    requires
        0 <= i < sinks.len() <= usize::MAX,
        sinks[i].accepts(push),
    ensures
        sinks[i].stays(push) ==> turn(sinks, i, push) == (
            sinks.update(i, sinks[i].pushed(push)),
            round_at(sinks.update(i, sinks[i].pushed(push)), i + 1),
        ),
        !sinks[i].stays(push) ==> turn(sinks, i, push) == (
            sinks.remove(i),
            round_at(sinks.remove(i), i),
        ),
{
    let sink = sinks[i];
    client::law_steps_make_the_push(sink, push);
    let settled = sinks.update(i, sink.after_settling(push.owed, push.now));
    assert(settled.update(i, sink.pushed(push)) =~= sinks.update(i, sink.pushed(push)));
    assert(settled.remove(i) =~= sinks.remove(i));
}

proof fn lemma_round_from(before: Seq<Sink>, sinks: Seq<Sink>, pushes: Seq<Push>)
    requires
        pushes.len() == sinks.len(),
        before.len() + sinks.len() <= usize::MAX,
        forall|k: int| 0 <= k < sinks.len() ==> (#[trigger] sinks[k]).accepts(pushes[k]),
    ensures
        round_from(before + sinks, before.len() as int, pushes) == before + survivors(sinks, pushes),
    decreases sinks.len(),
{
    let all = before + sinks;
    let n = before.len() as int;
    if sinks.len() == 0 {
        assert(all =~= before);
        assert(before + survivors(sinks, pushes) =~= before);
    } else {
        let push = pushes[0];
        let rest = sinks.drop_first();
        let more = pushes.drop_first();
        assert(all[n] == sinks[0]);
        law_turn_is_one_push(all, n, push);
        assert forall|k: int| 0 <= k < rest.len() implies (#[trigger] rest[k]).accepts(more[k]) by {
            assert(sinks[k + 1].accepts(pushes[k + 1]));
        }
        if sinks[0].stays(push) {
            let kept = before.push(sinks[0].pushed(push));
            assert(all.update(n, sinks[0].pushed(push)) =~= kept + rest);
            lemma_round_from(kept, rest, more);
            assert(kept + survivors(rest, more) =~= before + survivors(sinks, pushes));
        } else {
            assert(all.remove(n) =~= before + rest);
            lemma_round_from(before, rest, more);
        }
    }
}

/// A round pushes the part to every client once, and leaves those that stay, in their order.
pub proof fn law_round_pushes_to_everyone(sinks: Seq<Sink>, pushes: Seq<Push>)
    requires
        pushes.len() == sinks.len(),
        sinks.len() <= usize::MAX,
        forall|k: int| 0 <= k < sinks.len() ==> (#[trigger] sinks[k]).accepts(pushes[k]),
    ensures
        round_from(sinks, 0, pushes) == survivors(sinks, pushes),
{
    lemma_round_from(Seq::empty(), sinks, pushes);
    assert(Seq::<Sink>::empty() + sinks =~= sinks);
    assert(Seq::<Sink>::empty() + survivors(sinks, pushes) =~= survivors(sinks, pushes));
}

/// What a round leaves of a client is its own push alone, however slow or broken the others are: the clients
/// before it and behind it change nothing for it.
pub proof fn law_clients_are_independent(sinks: Seq<Sink>, pushes: Seq<Push>, i: int)
    requires
        pushes.len() == sinks.len(),
        0 <= i < sinks.len(),
    ensures
        survivors(sinks, pushes) == survivors(sinks.take(i), pushes.take(i)) + survivors(
            seq![sinks[i]],
            seq![pushes[i]],
        ) + survivors(sinks.skip(i + 1), pushes.skip(i + 1)),
        survivors(seq![sinks[i]], seq![pushes[i]]) == (if sinks[i].stays(pushes[i]) {
            seq![sinks[i].pushed(pushes[i])]
        } else {
            Seq::empty()
        }),
{
    lemma_survivors_in_two(sinks.take(i), pushes.take(i), sinks.skip(i), pushes.skip(i));
    assert(sinks.take(i) + sinks.skip(i) =~= sinks);
    assert(pushes.take(i) + pushes.skip(i) =~= pushes);
    lemma_survivors_in_two(
        seq![sinks[i]],
        seq![pushes[i]],
        sinks.skip(i + 1),
        pushes.skip(i + 1),
    );
    assert(seq![sinks[i]] + sinks.skip(i + 1) =~= sinks.skip(i));
    assert(seq![pushes[i]] + pushes.skip(i + 1) =~= pushes.skip(i));
    assert(seq![sinks[i]].drop_first() =~= Seq::<Sink>::empty());
    assert(survivors(Seq::<Sink>::empty(), seq![pushes[i]].drop_first()) =~= Seq::<Sink>::empty());
    assert(survivors(sinks, pushes) =~= survivors(sinks.take(i), pushes.take(i)) + survivors(
        seq![sinks[i]],
        seq![pushes[i]],
    ) + survivors(sinks.skip(i + 1), pushes.skip(i + 1)));
}

proof fn lemma_survivors_in_two(
    a: Seq<Sink>,
    a_pushes: Seq<Push>,
    b: Seq<Sink>,
    b_pushes: Seq<Push>,
)
    requires
        a.len() == a_pushes.len(),
        b.len() == b_pushes.len(),
    ensures
        survivors(a + b, a_pushes + b_pushes) == survivors(a, a_pushes) + survivors(b, b_pushes),
    decreases a.len(),
{
    if a.len() == 0 {
        assert(a + b =~= b);
        assert(a_pushes + b_pushes =~= b_pushes);
        assert(survivors(a, a_pushes) + survivors(b, b_pushes) =~= survivors(b, b_pushes));
    } else {
        lemma_survivors_in_two(a.drop_first(), a_pushes.drop_first(), b, b_pushes);
        assert((a + b).drop_first() =~= a.drop_first() + b);
        assert((a_pushes + b_pushes).drop_first() =~= a_pushes.drop_first() + b_pushes);
        assert((a + b)[0] == a[0]);
        assert((a_pushes + b_pushes)[0] == a_pushes[0]);
        assert(survivors(a + b, a_pushes + b_pushes) =~= survivors(a, a_pushes) + survivors(
            b,
            b_pushes,
        ));
    }
}

/// The clients after rounds, each with one push for each client that is there.
pub open spec fn after_rounds(sinks: Seq<Sink>, rounds: Seq<Seq<Push>>) -> Seq<Sink>
    decreases rounds.len(),
{
    if rounds.len() == 0 {
        sinks
    } else {
        survivors(after_rounds(sinks, rounds.drop_last()), rounds.last())
    }
}

/// Where the client at `i` is after rounds in which it stays.
pub open spec fn place_after(sinks: Seq<Sink>, i: int, rounds: Seq<Seq<Push>>) -> int
    decreases rounds.len(),
{
    if rounds.len() == 0 {
        i
    } else {
        let at = place_after(sinks, i, rounds.drop_last());
        survivors(
            after_rounds(sinks, rounds.drop_last()).take(at),
            rounds.last().take(at),
        ).len() as int
    }
}

/// The pushes to the client at `i`.
pub open spec fn own_pushes(sinks: Seq<Sink>, i: int, rounds: Seq<Seq<Push>>) -> Seq<Push>
    decreases rounds.len(),
{
    if rounds.len() == 0 {
        Seq::empty()
    } else {
        own_pushes(sinks, i, rounds.drop_last()).push(
            rounds.last()[place_after(sinks, i, rounds.drop_last())],
        )
    }
}

/// Each round has one push for each client that is there.
pub open spec fn reach_everyone(sinks: Seq<Sink>, rounds: Seq<Seq<Push>>) -> bool
    decreases rounds.len(),
{
    rounds.len() > 0 ==> {
        &&& reach_everyone(sinks, rounds.drop_last())
        &&& rounds.last().len() == after_rounds(sinks, rounds.drop_last()).len()
    }
}

/// Over any number of rounds a client that stays is what its own pushes make of it, however slow or broken
/// the others are, and whoever of them goes.
pub proof fn law_others_change_nothing(sinks: Seq<Sink>, i: int, rounds: Seq<Seq<Push>>)
    requires
        0 <= i < sinks.len(),
        reach_everyone(sinks, rounds),
        sinks[i].stays_for(own_pushes(sinks, i, rounds)),
    ensures
        0 <= place_after(sinks, i, rounds) < after_rounds(sinks, rounds).len(),
        after_rounds(sinks, rounds)[place_after(sinks, i, rounds)] == sinks[i].after_pushes(
            own_pushes(sinks, i, rounds),
        ),
    decreases rounds.len(),
{
    if rounds.len() > 0 {
        let earlier = rounds.drop_last();
        let own = own_pushes(sinks, i, earlier);
        let all = own_pushes(sinks, i, rounds);
        assert(all.drop_last() =~= own);
        law_others_change_nothing(sinks, i, earlier);
        let there = after_rounds(sinks, earlier);
        let at = place_after(sinks, i, earlier);
        let last = rounds.last();
        law_clients_are_independent(there, last, at);
        let front = survivors(there.take(at), last.take(at));
        let one = seq![there[at].pushed(last[at])];
        let behind = survivors(there.skip(at + 1), last.skip(at + 1));
        assert(survivors(there, last) =~= front + one + behind);
        assert((front + one + behind)[front.len() as int] == one[0]);
    }
}

/// The clients and their losses are theirs, one for one.
pub proof fn law_clients_are_counted_one_by_one(clients: Seq<Client>, sinks_of: Seq<Sink>, i: int)
    ensures
        sinks(clients).len() == clients.len(),
        0 <= i < clients.len() ==> sinks(clients)[i] == clients[i]@,
        losses_of(sinks_of).len() == sinks_of.len(),
        0 <= i < sinks_of.len() ==> losses_of(sinks_of)[i] == sinks_of[i].dropped,
{
}

/// Every client has its turn: the one at `i` is written what it is owed where it is owed anything, and the
/// part where it is not; the round is over exactly where no client is left.
pub proof fn law_every_client_has_its_turn(sinks: Seq<Sink>, i: int)
    requires
        0 <= i <= usize::MAX,
    ensures
        i < sinks.len() && sinks[i].pending.len() > 0 ==> round_at(sinks, i) == RoundStep::WriteOwed(
            i as usize,
        ),
        i < sinks.len() && sinks[i].pending.len() == 0 ==> round_at(sinks, i)
            == RoundStep::WriteFrame(i as usize),
        i >= sinks.len() ==> round_at(sinks, i) == RoundStep::Done,
{
}

/// A write to one client changes no other: where the client stays, all of them are there, and where it goes,
/// all but that one, whose socket is closed.
pub proof fn law_a_write_changes_one_client(
    sinks: Seq<Sink>,
    i: usize,
    owed: bool,
    frame: Seq<u8>,
    outcome: WriteOutcome,
    now: u64,
    k: int,
)
    requires
        i < sinks.len() <= usize::MAX,
    ensures
        ({
            let write = if owed {
                PushStep::WriteOwed
            } else {
                PushStep::WriteFrame
            };
            let step = if owed {
                RoundStep::WriteOwed(i)
            } else {
                RoundStep::WriteFrame(i)
            };
            let (after, next) = round_after(sinks, step, frame, outcome, now);
            let goes = sinks[i as int].next_step(write, outcome, now) == PushStep::Goes;
            &&& writes_to(step) == Some((i as int, write))
            &&& goes ==> next == RoundStep::Close(i) && after.len() == sinks.len() - 1
            &&& goes && 0 <= k < i ==> after[k] == sinks[k]
            &&& goes && i <= k < sinks.len() - 1 ==> after[k] == sinks[k + 1]
            &&& !goes ==> after.len() == sinks.len() && after[i as int]
                == sinks[i as int].after_step(write, frame, outcome, now)
            &&& !goes && 0 <= k < sinks.len() && k != i ==> after[k] == sinks[k]
            &&& !goes && sinks[i as int].next_step(write, outcome, now) == PushStep::WriteFrame
                ==> next == RoundStep::WriteFrame(i)
            &&& !goes && sinks[i as int].next_step(write, outcome, now) == PushStep::Stays && i + 1
                >= sinks.len() ==> next == RoundStep::Done
            &&& !goes && sinks[i as int].next_step(write, outcome, now) == PushStep::Stays && i + 1
                < sinks.len() ==> next == if sinks[i + 1].pending.len() > 0 {
                RoundStep::WriteOwed((i + 1) as usize)
            } else {
                RoundStep::WriteFrame((i + 1) as usize)
            }
        }),
{
}

} // verus!
