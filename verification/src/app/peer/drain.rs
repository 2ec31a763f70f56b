//! Bringing an app that was started again what was queued for it. An envelope leaves the inbox
//! only after it has arrived, so what was not brought is still there the next time.

use vstd::prelude::*;
use crate::app::peer::mailbox::{durable_id, Mailbox, PeerEnvelope};

verus! {

/// What became of an envelope that was to be brought.
#[derive(Debug, Clone, Copy, PartialEq, Eq, Structural)]
pub enum Delivery {
    /// The worker could not be reached.
    NotSent,
    /// The worker has it, and has not said that it took it in.
    Sent,
    /// The worker has said that it took it in.
    Folded,
}

/// How far the inbox has been gone through: so many envelopes stand before the next one, and
/// whether nothing more is brought.
pub struct DrainView {
    pub kept: int,
    pub stopped: bool,
}

/// Whether an envelope leaves the inbox. A durable one does when it was taken in; one without an
/// id is never confirmed and leaves when it was sent.
pub open spec fn leaves(e: PeerEnvelope, delivery: Delivery) -> bool {
    match delivery {
        Delivery::NotSent => false,
        Delivery::Sent => durable_id(e) is None,
        Delivery::Folded => true,
    }
}

/// Whether there is an envelope to bring.
pub open spec fn has_next(d: DrainView, queue: Seq<PeerEnvelope>) -> bool {
    !d.stopped && 0 <= d.kept < queue.len()
}

/// The drain and the inbox after an envelope was brought, or could not be.
pub open spec fn drained(d: DrainView, queue: Seq<PeerEnvelope>, delivery: Delivery) -> (
    DrainView,
    Seq<PeerEnvelope>,
) {
    if !has_next(d, queue) {
        (d, queue)
    } else if delivery == Delivery::NotSent {
        (DrainView { stopped: true, ..d }, queue)
    } else if leaves(queue[d.kept], delivery) {
        (d, queue.remove(d.kept))
    } else {
        (DrainView { kept: d.kept + 1, ..d }, queue)
    }
}

/// The drain and the inbox after several envelopes were brought.
pub open spec fn drained_by(
    d: DrainView,
    queue: Seq<PeerEnvelope>,
    deliveries: Seq<Delivery>,
) -> (DrainView, Seq<PeerEnvelope>)
    decreases deliveries.len(),
{
    if deliveries.len() == 0 {
        (d, queue)
    } else {
        let (e, q) = drained_by(d, queue, deliveries.drop_last());
        drained(e, q, deliveries.last())
    }
}

/// What of a queue is left after its first envelopes were brought, one delivery for each.
pub open spec fn left_behind(queue: Seq<PeerEnvelope>, deliveries: Seq<Delivery>) -> Seq<
    PeerEnvelope,
>
    decreases deliveries.len(),
{
    if deliveries.len() == 0 {
        Seq::empty()
    } else {
        let before = left_behind(queue, deliveries.drop_last());
        let e = queue[deliveries.len() - 1];
        if leaves(e, deliveries.last()) {
            before
        } else {
            before.push(e)
        }
    }
}

/// One way through an inbox.
#[derive(Debug)]
pub struct InboxDrain {
    kept: usize,
    stopped: bool,
}

impl View for InboxDrain {
    type V = DrainView;

    closed spec fn view(&self) -> DrainView {
        DrainView { kept: self.kept as int, stopped: self.stopped }
    }
}

impl InboxDrain {
    pub fn new() -> (d: Self)
        ensures
            d@ == (DrainView { kept: 0, stopped: false }),
    {
        InboxDrain { kept: 0, stopped: false }
    }

    /// The envelope to bring next, which stays in the inbox.
    pub fn next<'a>(&self, inbox: &'a Mailbox) -> (r: Option<&'a PeerEnvelope>)
        ensures
            match r {
                Some(e) => has_next(self@, inbox@) && *e == inbox@[self@.kept],
                None => !has_next(self@, inbox@),
            },
    {
        let queue = inbox.peek();
        if !self.stopped && self.kept < queue.len() {
            Some(&queue[self.kept])
        } else {
            None
        }
    }

    /// Notes what became of that envelope, and takes it out of the inbox where it has arrived.
    pub fn record(&mut self, inbox: &mut Mailbox, delivery: Delivery)
        ensures
            (final(self)@, final(inbox)@) == drained(old(self)@, old(inbox)@, delivery),
            final(inbox).place() == old(inbox).place(),
    {
        if self.stopped || self.kept >= inbox.depth() {
            return;
        }
        let plain = inbox.peek()[self.kept].durable().is_none();
        match delivery {
            Delivery::NotSent => {
                self.stopped = true;
            },
            Delivery::Sent => {
                if plain {
                    let _brought = inbox.remove_at(self.kept);
                } else {
                    self.kept = self.kept + 1;
                }
            },
            Delivery::Folded => {
                let _brought = inbox.remove_at(self.kept);
            },
        }
    }
}

/// An envelope leaves the inbox only after it was brought: a durable one after it was taken in,
/// one without an id after it was sent. Nothing else leaves with it, and the others keep their
/// order.
pub proof fn only_what_arrived_leaves(d: DrainView, queue: Seq<PeerEnvelope>, delivery: Delivery)
    ensures
        ({
            let after = drained(d, queue, delivery).1;
            after == queue || {
                &&& has_next(d, queue)
                &&& after == queue.take(d.kept) + queue.skip(d.kept + 1)
                &&& delivery == Delivery::Folded || (delivery == Delivery::Sent && durable_id(
                    queue[d.kept],
                ) is None)
            }
        }),
{
    if has_next(d, queue) {
        assert(queue.remove(d.kept) =~= queue.take(d.kept) + queue.skip(d.kept + 1));
    }
}

/// The envelopes are brought in the order of their arrival, each once: after so many were brought,
/// the inbox is what was left behind of those and all of the others, the first of which is next.
pub proof fn mail_is_brought_in_order(queue: Seq<PeerEnvelope>, deliveries: Seq<Delivery>)
    requires
        deliveries.len() <= queue.len(),
        forall|i: int| 0 <= i < deliveries.len() ==> #[trigger] deliveries[i] != Delivery::NotSent,
    ensures
        ({
            let (d, q) = drained_by(DrainView { kept: 0, stopped: false }, queue, deliveries);
            &&& !d.stopped
            &&& d.kept == left_behind(queue, deliveries).len()
            &&& q == left_behind(queue, deliveries) + queue.skip(deliveries.len() as int)
            &&& has_next(d, q) <==> deliveries.len() < queue.len()
            &&& has_next(d, q) ==> q[d.kept] == queue[deliveries.len() as int]
        }),
    decreases deliveries.len(),
{
    if deliveries.len() == 0 {
        assert(queue.skip(0) =~= queue);
        assert(Seq::<PeerEnvelope>::empty() + queue.skip(0) =~= queue);
    } else {
        let n = deliveries.len() as int;
        let before = deliveries.drop_last();
        assert forall|i: int| 0 <= i < before.len() implies #[trigger] before[i]
            != Delivery::NotSent by {
            assert(before[i] == deliveries[i]);
        }
        mail_is_brought_in_order(queue, before);
        assert(deliveries.last() == deliveries[n - 1]);
        let (d, q) = drained_by(DrainView { kept: 0, stopped: false }, queue, before);
        let left = left_behind(queue, before);
        assert(q.remove(d.kept) =~= left + queue.skip(n));
        assert(q =~= left.push(queue[n - 1]) + queue.skip(n));
    }
}

/// Where a worker can no longer be reached, what was not brought yet stays in the inbox, and
/// nothing more is brought.
pub proof fn failed_delivery_keeps_the_rest(d: DrainView, queue: Seq<PeerEnvelope>)
    requires
        has_next(d, queue),
    ensures
        drained(d, queue, Delivery::NotSent).1 == queue,
        !has_next(drained(d, queue, Delivery::NotSent).0, queue),
{
}

} // verus!
