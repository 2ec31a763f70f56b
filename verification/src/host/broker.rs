//! The relay between peers: a live peer gets a message at once, an absent one finds it in its
//! inbox, and a durable envelope stays in the inbox until its receiver has taken it in.

use vstd::prelude::*;
use crate::app::peer::directory;
use crate::app::peer::directory::PeerDirectory;
use crate::app::peer::mailbox;
use crate::app::peer::mailbox::{Mailbox, PeerEnvelope};
use crate::app::peer::{NodeId, PeerId};
use crate::app::AppId;
use crate::name_set::NameSet;
use crate::protocol::{
    Authorization, DeliveryOutcome, DurableEnvelope, HostToAgent, PeerEnvelopeId, PeerPayload,
    PeerWire, WorldPeerId,
};
use vstd::string::*;

verus! {

/// How long the broker waits for a receiver to take an envelope in, in milliseconds.
pub const DEFAULT_FOLD_ACK_TIMEOUT_MS: u64 = 5_000;

/// What became of a message.
#[derive(Debug, Clone, PartialEq, Eq)]
pub enum PeerRouteOutcome {
    Delivered,
    Queued { wake: PeerId },
    Rejected,
}

/// What became of a message, as plain values.
#[verifier::ext_equal]
pub enum OutcomeView {
    Delivered,
    Queued { wake: (Seq<char>, Seq<char>) },
    Rejected,
}

impl View for PeerRouteOutcome {
    type V = OutcomeView;

    open spec fn view(&self) -> OutcomeView {
        match self {
            PeerRouteOutcome::Delivered => OutcomeView::Delivered,
            PeerRouteOutcome::Queued { wake } => OutcomeView::Queued { wake: wake@ },
            PeerRouteOutcome::Rejected => OutcomeView::Rejected,
        }
    }
}

/// What to do next with a message.
#[derive(Debug, Clone, PartialEq, Eq)]
pub enum RelayStep {
    /// Nothing more: this became of it.
    Done(PeerRouteOutcome),
    /// Send it to the live receiver, and say whether that worked.
    Deliver,
    /// Wait for the receiver to take the envelope in, and say whether it did.
    AwaitFold,
}

/// What to do next with a message, as plain values.
#[verifier::ext_equal]
pub enum StepView {
    Done(OutcomeView),
    Deliver,
    AwaitFold,
}

impl View for RelayStep {
    type V = StepView;

    open spec fn view(&self) -> StepView {
        match self {
            RelayStep::Done(o) => StepView::Done(o@),
            RelayStep::Deliver => StepView::Deliver,
            RelayStep::AwaitFold => StepView::AwaitFold,
        }
    }
}

/// What the broker knows.
#[verifier::ext_equal]
pub struct BrokerView {
    /// The known peers, the most recently used first.
    pub known: Seq<(Seq<char>, Seq<char>)>,
    /// The peers that can be sent to.
    pub live: Set<(Seq<char>, Seq<char>)>,
    /// The envelopes that were taken in before anybody waited for it.
    pub confirmed: Set<Seq<char>>,
    /// The envelopes that somebody waits for.
    pub waiting: Set<Seq<char>>,
    /// How many envelopes an inbox holds at most; zero is no limit.
    pub cap: int,
}

/// The broker.
#[derive(Debug)]
pub struct PeerBroker {
    directory: PeerDirectory,
    sinks: PeerDirectory,
    confirmed: NameSet,
    waiters: NameSet,
    fold_ack_timeout_ms: u64,
    peer_inbox_cap: u32,
}

impl View for PeerBroker {
    type V = BrokerView;

    closed spec fn view(&self) -> BrokerView {
        BrokerView {
            known: self.directory@,
            live: self.sinks@.to_set(),
            confirmed: self.confirmed@,
            waiting: self.waiters@,
            cap: self.peer_inbox_cap as int,
        }
    }
}

/// A full inbox: there is a limit, and it is reached.
pub open spec fn full(cap: int, queue: Seq<PeerEnvelope>) -> bool {
    cap > 0 && queue.len() >= cap
}

/// The broker after a peer was used.
pub open spec fn touched(b: BrokerView, id: (Seq<char>, Seq<char>)) -> BrokerView {
    BrokerView { known: directory::to_front(b.known, id), ..b }
}

/// The broker without a peer.
pub open spec fn gone(b: BrokerView, id: (Seq<char>, Seq<char>)) -> BrokerView {
    BrokerView {
        known: directory::without(b.known, id),
        live: b.live.remove(id),
        ..b
    }
}

/// A message for an absent peer without a durable envelope: into the inbox, unless it is full.
pub open spec fn plain_queued(
    b: BrokerView,
    to: (Seq<char>, Seq<char>),
    e: PeerEnvelope,
    queue: Seq<PeerEnvelope>,
) -> (Seq<PeerEnvelope>, StepView) {
    if full(b.cap, queue) {
        (queue, StepView::Done(OutcomeView::Rejected))
    } else {
        (queue.push(e), StepView::Done(OutcomeView::Queued { wake: to }))
    }
}

/// The first step of a relay. Nobody writes to itself. A durable envelope goes into the inbox
/// before anything else, unless the inbox is full and does not hold it yet; anything else goes
/// there only where the receiver is absent.
pub open spec fn relay_start(
    b: BrokerView,
    from: (Seq<char>, Seq<char>),
    to: (Seq<char>, Seq<char>),
    e: PeerEnvelope,
    queue: Seq<PeerEnvelope>,
) -> (BrokerView, Seq<PeerEnvelope>, StepView) {
    if from == to {
        (b, queue, StepView::Done(OutcomeView::Rejected))
    } else {
        let after = touched(b, from);
        match mailbox::durable_id(e) {
            Some(id) => if full(b.cap, queue) && mailbox::first_with(queue, id, 0) is None {
                (after, queue, StepView::Done(OutcomeView::Rejected))
            } else {
                (
                    after,
                    mailbox::with_unique(queue, e, id),
                    if b.live.contains(to) {
                        StepView::Deliver
                    } else {
                        StepView::Done(OutcomeView::Queued { wake: to })
                    },
                )
            },
            None => if b.live.contains(to) {
                (after, queue, StepView::Deliver)
            } else {
                let (q, step) = plain_queued(after, to, e, queue);
                (after, q, step)
            },
        }
    }
}

/// The step after a send. A durable envelope counts as delivered only once it was taken in; a
/// receiver that could not be sent to is absent from now on.
pub open spec fn relay_sent(
    b: BrokerView,
    to: (Seq<char>, Seq<char>),
    e: PeerEnvelope,
    queue: Seq<PeerEnvelope>,
    sent: bool,
) -> (BrokerView, Seq<PeerEnvelope>, StepView) {
    match mailbox::durable_id(e) {
        Some(id) => if !sent {
            (gone(b, to), queue, StepView::Done(OutcomeView::Queued { wake: to }))
        } else if b.confirmed.contains(id) {
            (
                touched(BrokerView { confirmed: b.confirmed.remove(id), ..b }, to),
                mailbox::advanced(queue, id),
                StepView::Done(OutcomeView::Delivered),
            )
        } else {
            (BrokerView { waiting: b.waiting.insert(id), ..b }, queue, StepView::AwaitFold)
        },
        None => if sent {
            (touched(b, to), queue, StepView::Done(OutcomeView::Delivered))
        } else {
            let after = gone(b, to);
            let (q, step) = plain_queued(after, to, e, queue);
            (after, q, step)
        },
    }
}

/// The step after the wait: delivered where the envelope was taken in, and left in the inbox
/// where it was not.
pub open spec fn relay_waited(
    b: BrokerView,
    to: (Seq<char>, Seq<char>),
    id: Seq<char>,
    queue: Seq<PeerEnvelope>,
    folded: bool,
) -> (BrokerView, Seq<PeerEnvelope>, OutcomeView) {
    let after = BrokerView { waiting: b.waiting.remove(id), ..b };
    if folded {
        (touched(after, to), mailbox::advanced(queue, id), OutcomeView::Delivered)
    } else {
        (after, queue, OutcomeView::Queued { wake: to })
    }
}

proof fn live_after_front(list: Seq<(Seq<char>, Seq<char>)>, id: (Seq<char>, Seq<char>))
    ensures
        directory::to_front(list, id).to_set() == list.to_set().insert(id),
        directory::without(list, id).to_set() == list.to_set().remove(id),
{
    directory::without_keeps_the_others(list, id);
    let w = directory::without(list, id);
    let f = directory::to_front(list, id);
    assert forall|x: (Seq<char>, Seq<char>)| f.contains(x) <==> list.to_set().insert(
        id,
    ).contains(x) by {
        if f.contains(x) {
            let k = choose|k: int| 0 <= k < f.len() && f[k] == x;
            if k > 0 {
                assert(w[k - 1] == x);
                assert(w.contains(x));
            }
        }
        if list.contains(x) && x != id {
            assert(w.contains(x));
            let k = choose|k: int| 0 <= k < w.len() && w[k] == x;
            assert(f[k + 1] == x);
        }
        assert(f[0] == id);
    }
    assert(f.to_set() =~= list.to_set().insert(id));
    assert forall|x: (Seq<char>, Seq<char>)| w.to_set().contains(x) <==> list.to_set().remove(
        id,
    ).contains(x) by {
        if x != id {
            assert(w.contains(x) <==> list.contains(x));
        }
    }
    assert(w.to_set() =~= list.to_set().remove(id));
}

fn envelope_id(payload: &PeerWire) -> (r: Option<PeerEnvelopeId>)
    ensures
        match (r, payload.durable) {
            (Some(id), Some(d)) => id == d.id,
            (None, None) => true,
            _ => false,
        },
{
    match &payload.durable {
        Some(d) => Some(d.id.copy()),
        None => None,
    }
}

/// The broker after a receiver took an envelope in, and whether somebody is told: whoever waits
/// for it and still listens. Otherwise it is noted down.
pub open spec fn fold_confirmed(b: BrokerView, id: Seq<char>, listening: bool) -> (
    BrokerView,
    bool,
) {
    let tell = b.waiting.contains(id) && listening;
    (
        BrokerView {
            waiting: b.waiting.remove(id),
            confirmed: if tell {
                b.confirmed
            } else {
                b.confirmed.insert(id)
            },
            ..b
        },
        tell,
    )
}

/// The broker after somebody asked for an envelope to be taken in, and whether it was already.
pub open spec fn fold_awaited(b: BrokerView, id: Seq<char>) -> (BrokerView, bool) {
    if b.confirmed.contains(id) {
        (BrokerView { confirmed: b.confirmed.remove(id), ..b }, true)
    } else {
        (BrokerView { waiting: b.waiting.insert(id), ..b }, false)
    }
}

impl PeerBroker {
    pub closed spec fn valid(&self) -> bool {
        &&& self.directory.valid()
        &&& self.sinks.valid()
        &&& self.confirmed.valid()
        &&& self.waiters.valid()
    }

    /// How long the broker waits, in milliseconds.
    pub closed spec fn patience(&self) -> int {
        self.fold_ack_timeout_ms as int
    }

    /// A broker that knows nobody and limits no inbox.
    pub fn new() -> (b: Self)
        ensures
            b.valid(),
            b@ == (BrokerView {
                known: Seq::empty(),
                live: Set::empty(),
                confirmed: Set::empty(),
                waiting: Set::empty(),
                cap: 0,
            }),
            b.patience() == DEFAULT_FOLD_ACK_TIMEOUT_MS,
    {
        let b = PeerBroker {
            directory: PeerDirectory::new(),
            sinks: PeerDirectory::new(),
            confirmed: NameSet::new(),
            waiters: NameSet::new(),
            fold_ack_timeout_ms: DEFAULT_FOLD_ACK_TIMEOUT_MS,
            peer_inbox_cap: 0,
        };
        assert(b@.live =~= Set::empty());
        b
    }

    pub fn with_fold_ack_timeout(self, timeout_ms: u64) -> (b: Self)
        requires
            self.valid(),
        ensures
            b.valid(),
            b@ == self@,
            b.patience() == timeout_ms,
    {
        PeerBroker { fold_ack_timeout_ms: timeout_ms, ..self }
    }

    pub fn with_peer_inbox_cap(self, cap: u32) -> (b: Self)
        requires
            self.valid(),
        ensures
            b.valid(),
            b@ == (BrokerView { cap: cap as int, ..self@ }),
            b.patience() == self.patience(),
    {
        PeerBroker { peer_inbox_cap: cap, ..self }
    }

    /// How long to wait for a receiver, in milliseconds.
    pub fn fold_ack_timeout_ms(&self) -> (r: u64)
        ensures
            r == self.patience(),
    {
        self.fold_ack_timeout_ms
    }

    pub fn peer_inbox_cap(&self) -> (r: u32)
        ensures
            r == self@.cap,
    {
        self.peer_inbox_cap
    }

    /// A receiver took an envelope in. Whoever waits for it, and still listens, is to be told;
    /// otherwise it is noted down for whoever will wait.
    pub fn confirm_fold(&mut self, id: &PeerEnvelopeId, listening: bool) -> (tell: bool)
        requires
            old(self).valid(),
        ensures
            final(self).valid(),
            final(self).patience() == old(self).patience(),
            (final(self)@, tell) == fold_confirmed(old(self)@, id.0@, listening),
    {
        let waited = self.waiters.remove(id.0.as_str());
        if waited && listening {
            true
        } else {
            let _new = self.confirmed.insert(id.0.as_str());
            false
        }
    }

    /// Asks whether an envelope was taken in already, which then counts no second time. Where it
    /// was not, somebody waits for it from now on.
    pub fn await_fold(&mut self, id: &PeerEnvelopeId) -> (already: bool)
        requires
            old(self).valid(),
        ensures
            final(self).valid(),
            final(self).patience() == old(self).patience(),
            (final(self)@, already) == fold_awaited(old(self)@, id.0@),
    {
        if self.confirmed.remove(id.0.as_str()) {
            true
        } else {
            assert(old(self)@.confirmed.remove(id.0@) =~= old(self)@.confirmed);
            let _new = self.waiters.insert(id.0.as_str());
            false
        }
    }

    /// Nobody waits any longer for an envelope to be taken in.
    pub fn stop_waiting(&mut self, id: &PeerEnvelopeId)
        requires
            old(self).valid(),
        ensures
            final(self).valid(),
            final(self).patience() == old(self).patience(),
            final(self)@ == (BrokerView {
                waiting: old(self)@.waiting.remove(id.0@),
                ..old(self)@
            }),
    {
        let _waited = self.waiters.remove(id.0.as_str());
    }

    /// A peer can be sent to.
    pub fn register(&mut self, id: PeerId)
        requires
            old(self).valid(),
        ensures
            final(self).valid(),
            final(self).patience() == old(self).patience(),
            final(self)@ == (BrokerView {
                live: old(self)@.live.insert(id@),
                ..touched(old(self)@, id@)
            }),
    {
        proof {
            live_after_front(self.sinks@, id@);
        }
        self.directory.register(id.copy());
        self.sinks.register(id);
    }

    /// A peer can no longer be sent to. It can still be written to: its inbox is there.
    pub fn unregister(&mut self, id: &PeerId)
        requires
            old(self).valid(),
        ensures
            final(self).valid(),
            final(self).patience() == old(self).patience(),
            final(self)@ == gone(old(self)@, id@),
    {
        proof {
            live_after_front(self.sinks@, id@);
        }
        let _sink = self.sinks.unregister(id);
        let _known = self.directory.unregister(id);
    }

    /// The peers that a peer can write to, the most recently used first.
    pub fn list_for(&mut self, from: &PeerId) -> (r: Vec<PeerId>)
        requires
            old(self).valid(),
        ensures
            final(self).valid(),
            final(self).patience() == old(self).patience(),
            final(self)@ == touched(old(self)@, from@),
            directory::peer_views(r@) == directory::without(final(self)@.known, from@),
    {
        self.directory.touch(from);
        self.directory.addressable_by(from)
    }

    fn is_full(&self, inbox: &Mailbox) -> (r: bool)
        ensures
            r == full(self@.cap, inbox@),
    {
        self.peer_inbox_cap > 0 && inbox.depth() >= self.peer_inbox_cap as usize
    }

    fn queue_plain(&self, to: &PeerId, envelope: PeerEnvelope, inbox: &mut Mailbox) -> (step:
        RelayStep)
        ensures
            (final(inbox)@, step@) == plain_queued(self@, to@, envelope, old(inbox)@),
            final(inbox).place() == old(inbox).place(),
    {
        if self.is_full(inbox) {
            RelayStep::Done(PeerRouteOutcome::Rejected)
        } else {
            inbox.enqueue(envelope);
            RelayStep::Done(PeerRouteOutcome::Queued { wake: to.copy() })
        }
    }

    /// Starts the relay of a message to the peer whose inbox is at hand.
    pub fn relay(
        &mut self,
        from: &PeerId,
        to: &PeerId,
        payload: PeerWire,
        inbox: &mut Mailbox,
    ) -> (step: RelayStep)
        requires
            old(self).valid(),
        ensures
            final(self).valid(),
            final(self).patience() == old(self).patience(),
            (final(self)@, final(inbox)@, step@) == relay_start(
                old(self)@,
                from@,
                to@,
                (PeerEnvelope { from: *from, payload }),
                old(inbox)@,
            ),
            final(inbox).place() == old(inbox).place(),
    {
        if !self.directory.may_send(from, to) {
            return RelayStep::Done(PeerRouteOutcome::Rejected);
        }
        self.directory.touch(from);
        let live = self.sinks.contains(to);
        let id = envelope_id(&payload);
        let envelope = PeerEnvelope { from: from.copy(), payload };
        match id {
            Some(id) => {
                if self.is_full(inbox) && !inbox.holds(&id) {
                    return RelayStep::Done(PeerRouteOutcome::Rejected);
                }
                let _new = inbox.enqueue_unique(envelope, &id);
                if live {
                    RelayStep::Deliver
                } else {
                    RelayStep::Done(PeerRouteOutcome::Queued { wake: to.copy() })
                }
            },
            None => {
                if live {
                    RelayStep::Deliver
                } else {
                    self.queue_plain(to, envelope, inbox)
                }
            },
        }
    }

    /// Goes on after the message was sent to the live receiver, or could not be.
    pub fn after_send(
        &mut self,
        from: &PeerId,
        to: &PeerId,
        payload: PeerWire,
        inbox: &mut Mailbox,
        sent: bool,
    ) -> (step: RelayStep)
        requires
            old(self).valid(),
        ensures
            final(self).valid(),
            final(self).patience() == old(self).patience(),
            (final(self)@, final(inbox)@, step@) == relay_sent(
                old(self)@,
                to@,
                (PeerEnvelope { from: *from, payload }),
                old(inbox)@,
                sent,
            ),
            final(inbox).place() == old(inbox).place(),
    {
        let id = envelope_id(&payload);
        let envelope = PeerEnvelope { from: from.copy(), payload };
        match id {
            Some(id) => {
                if !sent {
                    self.unregister(to);
                    return RelayStep::Done(PeerRouteOutcome::Queued { wake: to.copy() });
                }
                if self.await_fold(&id) {
                    let _taken = inbox.advance(&id);
                    self.directory.touch(to);
                    RelayStep::Done(PeerRouteOutcome::Delivered)
                } else {
                    RelayStep::AwaitFold
                }
            },
            None => {
                if sent {
                    self.directory.touch(to);
                    RelayStep::Done(PeerRouteOutcome::Delivered)
                } else {
                    self.unregister(to);
                    self.queue_plain(to, envelope, inbox)
                }
            },
        }
    }

    /// Goes on after the wait for the receiver to take an envelope in.
    pub fn after_wait(
        &mut self,
        to: &PeerId,
        id: &PeerEnvelopeId,
        inbox: &mut Mailbox,
        folded: bool,
    ) -> (outcome: PeerRouteOutcome)
        requires
            old(self).valid(),
        ensures
            final(self).valid(),
            final(self).patience() == old(self).patience(),
            (final(self)@, final(inbox)@, outcome@) == relay_waited(
                old(self)@,
                to@,
                id.0@,
                old(inbox)@,
                folded,
            ),
            final(inbox).place() == old(inbox).place(),
    {
        let _waited = self.waiters.remove(id.0.as_str());
        if folded {
            let _taken = inbox.advance(id);
            self.directory.touch(to);
            PeerRouteOutcome::Delivered
        } else {
            PeerRouteOutcome::Queued { wake: to.copy() }
        }
    }
}

/// The frame that brings a message to its receiver: it names the sender's app.
pub fn deliver_frame(from: &PeerId, payload: PeerWire) -> (frame: HostToAgent)
    ensures
        frame matches HostToAgent::PeerDeliver { from: f, payload: p } && f@ == from@.0 && p
            == payload,
{
    HostToAgent::PeerDeliver { from: from.app_id.0.clone(), payload }
}

/// Sends on behalf of one peer.
#[derive(Debug)]
pub struct BrokerPeerSender {
    from: PeerId,
}

impl BrokerPeerSender {
    /// The sender.
    pub closed spec fn sender(&self) -> PeerId {
        self.from
    }

    pub fn new(from: PeerId) -> (s: Self)
        ensures
            s.sender() == from,
    {
        BrokerPeerSender { from }
    }

    /// The durable envelope around a payload: under its id, in the sender's name.
    pub fn envelope(&self, payload: PeerPayload, id: &PeerEnvelopeId) -> (d: DurableEnvelope)
        ensures
            d.id == *id,
            d.payload == payload,
            d.auth.from.app_id@ == self.sender()@.0,
            d.auth.from.node_id@ == self.sender()@.1,
            d.auth.token@ == self.sender()@.0,
    {
        DurableEnvelope {
            id: id.copy(),
            payload,
            auth: Authorization {
                from: WorldPeerId {
                    app_id: self.from.app_id.0.clone(),
                    node_id: self.from.node_id.0.clone(),
                },
                token: self.from.app_id.0.clone(),
            },
        }
    }

    /// The receiver as the broker knows it.
    pub fn receiver(to: &WorldPeerId) -> (p: PeerId)
        ensures
            p@ == (to.app_id@, to.node_id@),
    {
        PeerId::new(AppId(to.app_id.clone()), NodeId(to.node_id.clone()))
    }

    /// What the sender is told.
    pub fn told(outcome: &PeerRouteOutcome) -> (r: DeliveryOutcome)
        ensures
            r == (match outcome@ {
                OutcomeView::Delivered => DeliveryOutcome::Delivered,
                OutcomeView::Queued { .. } => DeliveryOutcome::Queued,
                OutcomeView::Rejected => DeliveryOutcome::Rejected,
            }),
    {
        match outcome {
            PeerRouteOutcome::Delivered => DeliveryOutcome::Delivered,
            PeerRouteOutcome::Queued { .. } => DeliveryOutcome::Queued,
            PeerRouteOutcome::Rejected => DeliveryOutcome::Rejected,
        }
    }
}

// ---------------------------------------------------------------------------
// Laws
// ---------------------------------------------------------------------------

/// A whole relay: its first step, and the others as far as it comes to them, given whether the
/// send works and whether the receiver takes the envelope in while it is waited for.
pub open spec fn relayed(
    b: BrokerView,
    from: (Seq<char>, Seq<char>),
    to: (Seq<char>, Seq<char>),
    e: PeerEnvelope,
    queue: Seq<PeerEnvelope>,
    sent: bool,
    folded: bool,
) -> (BrokerView, Seq<PeerEnvelope>, OutcomeView) {
    let (b1, q1, step1) = relay_start(b, from, to, e, queue);
    match step1 {
        StepView::Done(o) => (b1, q1, o),
        _ => {
            let (b2, q2, step2) = relay_sent(b1, to, e, q1, sent);
            match step2 {
                StepView::Done(o) => (b2, q2, o),
                _ => relay_waited(b2, to, mailbox::durable_id(e)->0, q2, folded),
            }
        },
    }
}

/// A durable envelope counts as delivered only where its receiver took it in, and then it has
/// left the inbox.
pub proof fn delivered_only_after_fold(
    b: BrokerView,
    from: (Seq<char>, Seq<char>),
    to: (Seq<char>, Seq<char>),
    e: PeerEnvelope,
    queue: Seq<PeerEnvelope>,
    sent: bool,
    folded: bool,
)
    requires
        mailbox::durable_id(e) is Some,
    ensures
        ({
            let id = mailbox::durable_id(e)->0;
            let (b2, q2, o) = relayed(b, from, to, e, queue, sent, folded);
            o is Delivered ==> {
                &&& sent
                &&& folded || b.confirmed.contains(id)
                &&& q2 == mailbox::advanced(mailbox::with_unique(queue, e, id), id)
            }
        }),
{
}

/// A rejected message leaves the inbox as it was.
pub proof fn rejected_leaves_the_inbox(
    b: BrokerView,
    from: (Seq<char>, Seq<char>),
    to: (Seq<char>, Seq<char>),
    e: PeerEnvelope,
    queue: Seq<PeerEnvelope>,
    sent: bool,
    folded: bool,
)
    ensures
        relayed(b, from, to, e, queue, sent, folded).2 is Rejected ==> relayed(
            b,
            from,
            to,
            e,
            queue,
            sent,
            folded,
        ).1 == queue,
{
}

/// A durable envelope that counts as queued is in the inbox: it is not lost whatever happened on
/// the way.
pub proof fn queued_is_not_lost(
    b: BrokerView,
    from: (Seq<char>, Seq<char>),
    to: (Seq<char>, Seq<char>),
    e: PeerEnvelope,
    queue: Seq<PeerEnvelope>,
    sent: bool,
    folded: bool,
)
    requires
        mailbox::durable_id(e) is Some,
    ensures
        relayed(b, from, to, e, queue, sent, folded).2 is Queued ==> mailbox::first_with(
            relayed(b, from, to, e, queue, sent, folded).1,
            mailbox::durable_id(e)->0,
            0,
        ) is Some,
{
    mailbox::unique_is_idempotent(queue, e, mailbox::durable_id(e)->0);
}

/// An inbox with a limit never grows beyond it.
pub proof fn inbox_stays_within_its_limit(
    b: BrokerView,
    from: (Seq<char>, Seq<char>),
    to: (Seq<char>, Seq<char>),
    e: PeerEnvelope,
    queue: Seq<PeerEnvelope>,
    sent: bool,
    folded: bool,
)
    requires
        b.cap > 0,
        queue.len() <= b.cap,
    ensures
        relayed(b, from, to, e, queue, sent, folded).1.len() <= b.cap,
{
    if let Some(id) = mailbox::durable_id(e) {
        mailbox::advance_takes_exactly_one(mailbox::with_unique(queue, e, id), id);
        mailbox::first_with_is_first(mailbox::with_unique(queue, e, id), id, 0);
    }
}

/// Sending the same durable envelope again passes a full inbox that holds it, and adds nothing.
pub proof fn retry_passes_a_full_inbox(
    b: BrokerView,
    from: (Seq<char>, Seq<char>),
    to: (Seq<char>, Seq<char>),
    e: PeerEnvelope,
    queue: Seq<PeerEnvelope>,
)
    requires
        from != to,
        mailbox::durable_id(e) is Some,
        mailbox::first_with(queue, mailbox::durable_id(e)->0, 0) is Some,
    ensures
        relay_start(b, from, to, e, queue).1 == queue,
        !(relay_start(b, from, to, e, queue).2 matches StepView::Done(
            o,
        ) && o is Rejected),
{
}

/// An envelope whose receiver was sent it but did not take it in is sent again on the next try,
/// and the inbox is then as it was before the first.
pub proof fn crash_before_fold_is_made_good(
    b: BrokerView,
    from: (Seq<char>, Seq<char>),
    to: (Seq<char>, Seq<char>),
    e: PeerEnvelope,
    queue: Seq<PeerEnvelope>,
)
    requires
        from != to,
        b.live.contains(to),
        mailbox::durable_id(e) is Some,
        mailbox::first_with(queue, mailbox::durable_id(e)->0, 0) is None,
        !full(b.cap, queue),
        !b.confirmed.contains(mailbox::durable_id(e)->0),
    ensures
        ({
            let (b1, q1, first) = relayed(b, from, to, e, queue, true, false);
            let (b2, q2, second) = relayed(b1, from, to, e, q1, true, true);
            &&& first == OutcomeView::Queued { wake: to }
            &&& q1 == queue.push(e)
            &&& second is Delivered
            &&& q2 == queue
        }),
{
    let id = mailbox::durable_id(e)->0;
    mailbox::unique_is_idempotent(queue, e, id);
    mailbox::advance_undoes_enqueue(queue, e, id);
}

/// A confirmation that nobody waits for is not lost: whoever asks next has it at once. Repeating
/// it changes nothing.
pub proof fn early_confirmation_is_kept(b: BrokerView, id: Seq<char>, listening: bool)
    requires
        !b.waiting.contains(id),
    ensures
        ({
            let (b1, told) = fold_confirmed(b, id, listening);
            &&& !told
            &&& fold_confirmed(b1, id, listening) == (b1, false)
            &&& fold_awaited(b1, id).1
        }),
{
    let b1 = fold_confirmed(b, id, listening).0;
    let b2 = fold_confirmed(b1, id, listening).0;
    assert(b2.waiting =~= b1.waiting);
    assert(b2.confirmed =~= b1.confirmed);
}

/// Whoever waits for an envelope and still listens is told when it is taken in; who has given up
/// finds the confirmation on asking again.
pub proof fn confirmation_reaches_who_waits(b: BrokerView, id: Seq<char>, listening: bool)
    requires
        !b.confirmed.contains(id),
    ensures
        ({
            let (b1, already) = fold_awaited(b, id);
            let (b2, told) = fold_confirmed(b1, id, listening);
            &&& !already
            &&& told == listening
            &&& fold_awaited(b2, id).1 == !listening
        }),
{
}

/// An envelope with an id is in an inbox.
pub open spec fn is_held(queue: Seq<PeerEnvelope>, id: Seq<char>) -> bool {
    exists|i: int|
        0 <= i < queue.len() && ((#[trigger] queue[i]).payload.durable matches Some(d) && d.id.0@
            == id)
}

/// What becomes of an envelope that must not be lost. It is rejected where it goes to its own
/// sender, or where the inbox is full and does not hold it; otherwise the inbox holds it, at the
/// end where it was not there. It is delivered exactly where the receiver is there, the send works
/// and the envelope is taken in, and is queued in all other cases.
pub proof fn durable_envelope_is_kept_until_taken_in(
    b: BrokerView,
    from: (Seq<char>, Seq<char>),
    to: (Seq<char>, Seq<char>),
    e: PeerEnvelope,
    queue: Seq<PeerEnvelope>,
    sent: bool,
    folded: bool,
)
    requires
        e.payload.durable is Some,
    ensures
        ({
            let id = e.payload.durable->0.id.0@;
            let (after, left, outcome) = relayed(b, from, to, e, queue, sent, folded);
            let refused = from == to || (b.cap > 0 && queue.len() >= b.cap && !is_held(queue, id));
            let arrives = b.live.contains(to) && sent && (folded || b.confirmed.contains(id));
            &&& outcome is Rejected <==> refused
            &&& outcome is Delivered <==> !refused && arrives
            &&& outcome matches OutcomeView::Queued { wake } ==> wake == to
            &&& refused ==> left == queue
            &&& !refused && !arrives ==> left == (if is_held(queue, id) {
                queue
            } else {
                queue.push(e)
            })
            &&& !refused && arrives && !is_held(queue, id) ==> left == queue
            &&& !refused && arrives && is_held(queue, id) ==> left.len() == queue.len() - 1
        }),
{
    let id = e.payload.durable->0.id.0@;
    mailbox::first_with_is_first(queue, id, 0);
    assert(mailbox::durable_id(e) == Some(id));
    assert(is_held(queue, id) <==> mailbox::first_with(queue, id, 0) is Some) by {
        if is_held(queue, id) {
            let i = choose|i: int|
                0 <= i < queue.len() && ((#[trigger] queue[i]).payload.durable matches Some(d)
                    && d.id.0@ == id);
            assert(mailbox::durable_id(queue[i]) == Some(id));
        }
        if let Some(k) = mailbox::first_with(queue, id, 0) {
            assert(queue[k].payload.durable is Some);
        }
    }
    if mailbox::first_with(queue, id, 0) is None {
        mailbox::advance_undoes_enqueue(queue, e, id);
    } else {
        mailbox::advance_takes_exactly_one(queue, id);
    }
}

/// What becomes of a message that may be lost: it is delivered where the receiver is there and the
/// send works, and the inbox stays as it is; otherwise it waits at the end of the inbox, or is
/// rejected where that is full.
pub proof fn plain_message_is_delivered_or_queued(
    b: BrokerView,
    from: (Seq<char>, Seq<char>),
    to: (Seq<char>, Seq<char>),
    e: PeerEnvelope,
    queue: Seq<PeerEnvelope>,
    sent: bool,
    folded: bool,
)
    requires
        e.payload.durable is None,
    ensures
        ({
            let (after, left, outcome) = relayed(b, from, to, e, queue, sent, folded);
            let arrives = b.live.contains(to) && sent;
            let is_full = b.cap > 0 && queue.len() >= b.cap;
            &&& outcome is Delivered <==> from != to && arrives
            &&& outcome is Rejected <==> from == to || (!arrives && is_full)
            &&& outcome matches OutcomeView::Queued { wake } ==> wake == to && left == queue.push(e)
            &&& !(outcome is Queued) ==> left == queue
        }),
{
}

/// Who sends has been used last, unless the receiver took the message, who then comes before. A
/// receiver to whom nothing could be sent is not there any more, and of who is there nothing else
/// changes.
pub proof fn use_is_noted(
    b: BrokerView,
    from: (Seq<char>, Seq<char>),
    to: (Seq<char>, Seq<char>),
    e: PeerEnvelope,
    queue: Seq<PeerEnvelope>,
    sent: bool,
    folded: bool,
)
    requires
        from != to,
    ensures
        ({
            let (after, left, outcome) = relayed(b, from, to, e, queue, sent, folded);
            &&& after.known.len() > 0
            &&& outcome is Delivered ==> after.known[0] == to && after.known.contains(from)
            &&& !(outcome is Delivered) && (sent || !b.live.contains(to)) ==> after.known[0] == from
            &&& after.live == b.live || (!sent && after.live == b.live.remove(to))
            &&& after.cap == b.cap
        }),
{
    directory::without_keeps_the_others(b.known, from);
    let one = directory::to_front(b.known, from);
    assert(one[0] == from);
    directory::without_keeps_the_others(one, to);
    assert(one.contains(from));
    let two = directory::to_front(one, to);
    assert(two[0] == to);
    assert(directory::without(one, to).contains(from));
    let k = choose|k: int|
        0 <= k < directory::without(one, to).len() && directory::without(one, to)[k] == from;
    assert(two[k + 1] == from);
    assert(directory::without(one, to).len() > 0);
}

/// A peer that is gone cannot be sent to and is not listed; all others are as before.
pub proof fn a_peer_that_is_gone_is_not_addressed(
    b: BrokerView,
    id: (Seq<char>, Seq<char>),
    other: (Seq<char>, Seq<char>),
)
    ensures
        !gone(b, id).live.contains(id),
        !gone(b, id).known.contains(id),
        other != id ==> gone(b, id).live.contains(other) == b.live.contains(other),
        other != id ==> gone(b, id).known.contains(other) == b.known.contains(other),
        !b.known.contains(id) ==> gone(b, id).known == b.known,
        gone(b, id).confirmed == b.confirmed && gone(b, id).waiting == b.waiting && gone(b, id).cap
            == b.cap,
{
    directory::without_keeps_the_others(b.known, id);
}

/// A receiver to whom a message could not be sent is gone, and stays known to nobody until it
/// comes back.
pub proof fn failed_send_takes_the_receiver_away(
    b: BrokerView,
    to: (Seq<char>, Seq<char>),
    e: PeerEnvelope,
    queue: Seq<PeerEnvelope>,
)
    ensures
        !relay_sent(b, to, e, queue, false).0.live.contains(to),
        !relay_sent(b, to, e, queue, false).0.known.contains(to),
        relay_sent(b, to, e, queue, true).0.live == b.live,
{
    a_peer_that_is_gone_is_not_addressed(b, to, to);
}

/// A confirmation is used up by the one who waits for it: it does not answer a second wait, and
/// confirmations of other envelopes are untouched.
pub proof fn a_confirmation_serves_once(b: BrokerView, id: Seq<char>, other: Seq<char>)
    ensures
        ({
            let (after, already) = fold_awaited(b, id);
            &&& already == b.confirmed.contains(id)
            &&& !after.confirmed.contains(id)
            &&& !fold_awaited(after, id).1
            &&& other != id ==> after.confirmed.contains(other) == b.confirmed.contains(other)
            &&& other != id ==> after.waiting.contains(other) == b.waiting.contains(other)
            &&& after.waiting.contains(id) == (b.waiting.contains(id) || !already)
            &&& after.known == b.known && after.live == b.live && after.cap == b.cap
        }),
{
}

/// Whoever confirms ends the wait for that envelope, and changes nothing about others.
pub proof fn confirming_ends_the_wait(
    b: BrokerView,
    id: Seq<char>,
    listening: bool,
    other: Seq<char>,
)
    ensures
        ({
            let (after, tell) = fold_confirmed(b, id, listening);
            &&& !after.waiting.contains(id)
            &&& tell <==> b.waiting.contains(id) && listening
            &&& tell ==> after.confirmed == b.confirmed
            &&& !tell ==> after.confirmed.contains(id)
            &&& other != id ==> after.confirmed.contains(other) == b.confirmed.contains(other)
            &&& other != id ==> after.waiting.contains(other) == b.waiting.contains(other)
            &&& after.known == b.known && after.live == b.live && after.cap == b.cap
        }),
{
}

/// When an envelope was relayed nobody waits for it any more, and a confirmation that came before
/// is used up where it made the delivery; about other envelopes nothing changes.
pub proof fn relaying_leaves_no_wait(
    b: BrokerView,
    from: (Seq<char>, Seq<char>),
    to: (Seq<char>, Seq<char>),
    e: PeerEnvelope,
    queue: Seq<PeerEnvelope>,
    sent: bool,
    folded: bool,
    other: Seq<char>,
)
    requires
        e.payload.durable is Some,
    ensures
        ({
            let id = e.payload.durable->0.id.0@;
            let (after, left, outcome) = relayed(b, from, to, e, queue, sent, folded);
            &&& !b.waiting.contains(id) ==> !after.waiting.contains(id)
            &&& outcome is Delivered ==> !after.confirmed.contains(id)
            &&& !(outcome is Delivered) ==> after.confirmed == b.confirmed
            &&& other != id ==> after.confirmed.contains(other) == b.confirmed.contains(other)
            &&& other != id ==> after.waiting.contains(other) == b.waiting.contains(other)
        }),
{
    let id = e.payload.durable->0.id.0@;
    assert(mailbox::durable_id(e) == Some(id));
}

} // verus!
