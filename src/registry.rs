//! Subscriber registry: the outbound channel of every connected subscriber,
//! with a broadcast that delivers an event to each of them and drops, in the
//! same pass, those whose receiving side has gone.

use vstd::prelude::*;
use tokio::sync::mpsc::Sender;
use tokio::sync::mpsc::error::TrySendError;
use crate::message::ChatMessage;

verus! {

/// tokio's bounded `mpsc::Sender`, the sending end of a subscriber's queue,
/// held as an opaque handle.
#[verifier::external_type_specification]
#[verifier::external_body]
#[verifier::reject_recursive_types(T)]
pub struct ExSender<T>(Sender<T>);

/// What became of one event offered to one subscriber.
#[derive(Clone, Copy, Debug, PartialEq, Eq, Structural)]
pub enum Delivery {
    /// The event is queued for the subscriber.
    Sent,
    /// The subscriber's queue had no room: this event is lost for it, and the
    /// subscriber stays.
    Full,
    /// The subscriber's receiving side is gone.
    Closed,
}

/// Relies on tokio's `mpsc::Sender::try_send`: it never waits, queues the
/// message when the channel has room, and otherwise tells a full channel from
/// one whose receiver was closed or dropped. Which of the three comes back
/// depends on the receiving side.
#[verifier::external_body]
fn offer(tx: &Sender<ChatMessage>, m: ChatMessage) -> (r: Delivery) {
    match tx.try_send(m) {
        Ok(()) => Delivery::Sent,
        Err(TrySendError::Full(_)) => Delivery::Full,
        Err(TrySendError::Closed(_)) => Delivery::Closed,
    }
}

/// The subscribers of `s` that stay after the outcomes `o` of one broadcast:
/// those whose channel was not found closed, in their order.
pub open spec fn kept<T>(s: Seq<T>, o: Seq<Delivery>) -> Seq<T>
    decreases s.len(),
{
    if s.len() == 0 || o.len() == 0 {
        Seq::empty()
    } else {
        let rest = kept(s.drop_last(), o.drop_last());
        if o.last() == Delivery::Closed {
            rest
        } else {
            rest.push(s.last())
        }
    }
}

/// How many of the outcomes `o` are deliveries.
pub open spec fn sent_count(o: Seq<Delivery>) -> nat
    decreases o.len(),
{
    if o.len() == 0 {
        0
    } else {
        sent_count(o.drop_last()) + if o.last() == Delivery::Sent {
            1nat
        } else {
            0nat
        }
    }
}

/// The outcomes of one broadcast to `s` where the subscribers marked by `live`
/// accept the event and the others are closed.
pub open spec fn outcomes_for<T>(s: Seq<T>, live: spec_fn(T) -> bool) -> Seq<Delivery> {
    s.map_values(|h: T| if live(h) { Delivery::Sent } else { Delivery::Closed })
}

/// The subscribers left after `n` broadcasts to `s` under `live`.
pub open spec fn after_broadcasts<T>(s: Seq<T>, live: spec_fn(T) -> bool, n: nat) -> Seq<T>
    decreases n,
{
    if n == 0 {
        s
    } else {
        after_broadcasts(kept(s, outcomes_for(s, live)), live, (n - 1) as nat)
    }
}

/// The deliveries made by `n` broadcasts to `s` under `live`.
pub open spec fn deliveries<T>(s: Seq<T>, live: spec_fn(T) -> bool, n: nat) -> nat
    decreases n,
{
    if n == 0 {
        0
    } else {
        sent_count(outcomes_for(s, live)) + deliveries(
            kept(s, outcomes_for(s, live)),
            live,
            (n - 1) as nat,
        )
    }
}

proof fn lemma_one_broadcast<T>(s: Seq<T>, live: spec_fn(T) -> bool)
    ensures
        kept(s, outcomes_for(s, live)) == s.filter(live),
        sent_count(outcomes_for(s, live)) == s.filter(live).len(),
    decreases s.len(),
{
    reveal(Seq::filter);
    if s.len() > 0 {
        let o = outcomes_for(s, live);
        assert(o.drop_last() =~= outcomes_for(s.drop_last(), live));
        assert(o.last() == if live(s.last()) {
            Delivery::Sent
        } else {
            Delivery::Closed
        });
        lemma_one_broadcast(s.drop_last(), live);
        assert(s.filter(live) == if live(s.last()) {
            s.drop_last().filter(live).push(s.last())
        } else {
            s.drop_last().filter(live)
        });
    }
}

proof fn lemma_filter_again<T>(s: Seq<T>, live: spec_fn(T) -> bool)
    ensures
        s.filter(live).filter(live) == s.filter(live),
    decreases s.len(),
{
    reveal(Seq::filter);
    if s.len() > 0 {
        lemma_filter_again(s.drop_last(), live);
        let f = s.drop_last().filter(live);
        let g = s.filter(live);
        if live(s.last()) {
            assert(g == f.push(s.last()));
            assert(g.drop_last() =~= f);
            assert(g.last() == s.last());
            assert(g.filter(live) == g.drop_last().filter(live).push(g.last()));
        } else {
            assert(g == f);
        }
    }
}

proof fn lemma_broadcasts_to_live<T>(s: Seq<T>, live: spec_fn(T) -> bool, n: nat)
    requires
        s.filter(live) == s,
    ensures
        after_broadcasts(s, live, n) == s,
        deliveries(s, live, n) == n * s.len(),
    decreases n,
{
    if n > 0 {
        lemma_one_broadcast(s, live);
        lemma_broadcasts_to_live(s, live, (n - 1) as nat);
        let k = s.len();
        assert((n - 1) as nat * k + k == n * k) by (nonlinear_arith)
            requires
                n > 0,
        ;
    } else {
        assert(n * s.len() == 0) by (nonlinear_arith)
            requires
                n == 0,
        ;
    }
}

/// Broadcasting `n >= 1` events to subscribers of which `live` marks those
/// still connected (each of them accepts every event, each of the others is
/// found closed) leaves exactly the live ones registered, and delivers each
/// event once to each live subscriber.
pub proof fn lemma_broadcasts_keep_the_live<T>(s: Seq<T>, live: spec_fn(T) -> bool, n: nat)
    requires
        n >= 1,
    ensures
        after_broadcasts(s, live, n) == s.filter(live),
        deliveries(s, live, n) == n * s.filter(live).len(),
{
    lemma_one_broadcast(s, live);
    let f = s.filter(live);
    lemma_filter_again(s, live);
    lemma_broadcasts_to_live(f, live, (n - 1) as nat);
    let k = f.len();
    assert((n - 1) as nat * k + k == n * k) by (nonlinear_arith)
        requires
            n > 0,
    ;
}

/// The outbound channels of the connected subscribers.
pub struct Registry {
    subscribers: Vec<Sender<ChatMessage>>,
}

impl View for Registry {
    type V = Seq<Sender<ChatMessage>>;

    closed spec fn view(&self) -> Seq<Sender<ChatMessage>> {
        self.subscribers@
    }
}

impl Registry {
    /// A registry with no subscriber.
    pub fn new() -> (r: Registry)
        ensures
            r@ == Seq::<Sender<ChatMessage>>::empty(),
    {
        Registry { subscribers: Vec::new() }
    }

    /// Adds the outbound channel of a new subscriber.
    pub fn register(&mut self, tx: Sender<ChatMessage>)
        ensures
            final(self)@ == old(self)@.push(tx),
    {
        self.subscribers.push(tx);
    }

    /// The number of registered subscribers.
    pub fn len(&self) -> (r: usize)
        ensures
            r == self@.len(),
    {
        self.subscribers.len()
    }

    /// Drops the subscribers that the outcomes of a broadcast found closed,
    /// position by position.
    pub fn prune(&mut self, outcomes: &Vec<Delivery>)
        requires
            outcomes@.len() == old(self)@.len(),
        ensures
            final(self)@ == kept(old(self)@, outcomes@),
    {
        let ghost s = self.subscribers@;
        let mut rest: Vec<Sender<ChatMessage>> = Vec::new();
        std::mem::swap(&mut rest, &mut self.subscribers);
        assert(rest@ == s);
        assert(s.take(s.len() as int) =~= s);
        assert(outcomes@.take(s.len() as int) =~= outcomes@);
        assert(Seq::<Sender<ChatMessage>>::empty().reverse() =~= Seq::<Sender<ChatMessage>>::empty());
        let mut kept_rev: Vec<Sender<ChatMessage>> = Vec::new();
        let mut i: usize = rest.len();
        while i > 0
            invariant
                i <= s.len(),
                rest@ == s.take(i as int),
                outcomes@.len() == s.len(),
                kept(s, outcomes@) == kept(s.take(i as int), outcomes@.take(i as int)) + kept_rev@.reverse(),
            decreases i,
        {
            let h = rest.pop().unwrap();
            i = i - 1;
            assert(s.take(i as int + 1).drop_last() =~= s.take(i as int));
            assert(outcomes@.take(i as int + 1).drop_last() =~= outcomes@.take(i as int));
            let ghost before = kept_rev@;
            if outcomes[i] != Delivery::Closed {
                kept_rev.push(h);
                assert(kept_rev@.reverse() =~= seq![h] + before.reverse());
            }
        }
        assert(s.take(0) =~= Seq::<Sender<ChatMessage>>::empty());
        let mut out: Vec<Sender<ChatMessage>> = Vec::new();
        let ghost target = kept_rev@.reverse();
        while kept_rev.len() > 0
            invariant
                target == out@ + kept_rev@.reverse(),
            decreases kept_rev.len(),
        {
            let ghost before = kept_rev@;
            let h = kept_rev.pop().unwrap();
            assert(before.reverse() =~= seq![h] + kept_rev@.reverse());
            out.push(h);
        }
        assert(out@ =~= target);
        self.subscribers = out;
    }

    /// Offers `m` to every subscriber without waiting, then drops those whose
    /// channel was found closed. Returns what became of the event for each
    /// subscriber, in registration order.
    pub fn broadcast(&mut self, m: &ChatMessage) -> (outcomes: Vec<Delivery>)
        ensures
            outcomes@.len() == old(self)@.len(),
            final(self)@ == kept(old(self)@, outcomes@),
    {
        let mut outcomes: Vec<Delivery> = Vec::new();
        let mut i: usize = 0;
        while i < self.subscribers.len()
            invariant
                i <= self.subscribers@.len(),
                outcomes@.len() == i,
            decreases self.subscribers.len() - i,
        {
            let d = offer(&self.subscribers[i], m.duplicate());
            outcomes.push(d);
            i = i + 1;
        }
        self.prune(&outcomes);
        outcomes
    }
}

} // verus!
