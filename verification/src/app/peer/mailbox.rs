//! The inbox of an app: envelopes in the order of their arrival, kept until they are taken out.

use vstd::prelude::*;
use crate::app::peer::PeerId;
use crate::protocol::{DurableEnvelope, PeerEnvelopeId, PeerWire};
use crate::text;
use vstd::string::*;

verus! {

/// The name of an inbox's file.
pub const INBOX_FILE: &'static str = "inbox.jsonl";

/// An envelope with its sender.
#[derive(Debug, Clone, PartialEq)]
pub struct PeerEnvelope {
    pub from: PeerId,
    pub payload: PeerWire,
}

/// The id of the durable envelope that an envelope carries.
pub open spec fn durable_id(e: PeerEnvelope) -> Option<Seq<char>> {
    match e.payload.durable {
        Some(d) => Some(d.id.0@),
        None => None,
    }
}

impl PeerEnvelope {
    /// The durable envelope that this one carries.
    pub fn durable(&self) -> (r: Option<&DurableEnvelope>)
        ensures
            match r {
                Some(d) => self.payload.durable == Some(*d),
                None => self.payload.durable is None,
            },
    {
        match &self.payload.durable {
            Some(d) => Some(d),
            None => None,
        }
    }

    fn has_id(&self, id: &PeerEnvelopeId) -> (r: bool)
        ensures
            r == (durable_id(*self) == Some(id.0@)),
    {
        match &self.payload.durable {
            Some(d) => text::same(d.id.0.as_str(), id.0.as_str()),
            None => false,
        }
    }
}

/// The first envelope with an id, from place `i` on.
pub open spec fn first_with(queue: Seq<PeerEnvelope>, id: Seq<char>, i: int) -> Option<int>
    decreases queue.len() - i,
{
    if i < 0 || i >= queue.len() {
        None
    } else if durable_id(queue[i]) == Some(id) {
        Some(i)
    } else {
        first_with(queue, id, i + 1)
    }
}

/// `first_with` gives the least place, or `None` where there is none.
pub proof fn first_with_is_first(queue: Seq<PeerEnvelope>, id: Seq<char>, i: int)
    requires
        0 <= i,
    ensures
        match first_with(queue, id, i) {
            Some(k) => i <= k < queue.len() && durable_id(queue[k]) == Some(id) && (forall|j: int|
                i <= j < k ==> durable_id(#[trigger] queue[j]) != Some(id)),
            None => forall|j: int|
                i <= j < queue.len() ==> durable_id(#[trigger] queue[j]) != Some(id),
        },
    decreases queue.len() - i,
{
    if i < queue.len() && durable_id(queue[i]) != Some(id) {
        first_with_is_first(queue, id, i + 1);
    }
}

/// The queue after an envelope came in that is kept once.
pub open spec fn with_unique(queue: Seq<PeerEnvelope>, e: PeerEnvelope, id: Seq<char>) -> Seq<
    PeerEnvelope,
> {
    if first_with(queue, id, 0) is Some {
        queue
    } else {
        queue.push(e)
    }
}

/// The queue without the first envelope of an id.
pub open spec fn advanced(queue: Seq<PeerEnvelope>, id: Seq<char>) -> Seq<PeerEnvelope> {
    match first_with(queue, id, 0) {
        Some(k) => queue.remove(k),
        None => queue,
    }
}

/// An inbox: where it is kept, and what is in it.
#[derive(Debug)]
pub struct Mailbox {
    path: String,
    queue: Vec<PeerEnvelope>,
}

impl View for Mailbox {
    type V = Seq<PeerEnvelope>;

    /// The envelopes, the first one to arrive first.
    closed spec fn view(&self) -> Seq<PeerEnvelope> {
        self.queue@
    }
}

impl Mailbox {
    /// Where the inbox is kept.
    pub closed spec fn place(&self) -> Seq<char> {
        self.path@
    }

    /// The inbox of an app's directory, with nothing in it yet.
    pub fn in_dir(app_dir: &str) -> (m: Self)
        ensures
            m.place() == text::path_join(app_dir@, INBOX_FILE@),
            m@ == Seq::<PeerEnvelope>::empty(),
    {
        Mailbox { path: text::joined_path(app_dir, INBOX_FILE), queue: Vec::new() }
    }

    /// The inbox of an app's directory with what was read from it.
    pub fn with_queue(app_dir: &str, queue: Vec<PeerEnvelope>) -> (m: Self)
        ensures
            m.place() == text::path_join(app_dir@, INBOX_FILE@),
            m@ == queue@,
    {
        Mailbox { path: text::joined_path(app_dir, INBOX_FILE), queue }
    }

    pub fn path(&self) -> (r: &str)
        ensures
            r@ == self.place(),
    {
        self.path.as_str()
    }

    /// Puts an envelope behind the others.
    pub fn enqueue(&mut self, envelope: PeerEnvelope)
        ensures
            final(self)@ == old(self)@.push(envelope),
            final(self).place() == old(self).place(),
    {
        self.queue.push(envelope);
    }

    fn find(&self, id: &PeerEnvelopeId) -> (r: Option<usize>)
        ensures
            match r {
                Some(k) => first_with(self@, id.0@, 0) == Some(k as int) && k < self@.len(),
                None => first_with(self@, id.0@, 0) is None,
            },
            self@.len() == self.queue@.len(),
    {
        let mut i: usize = 0;
        while i < self.queue.len()
            invariant
                i <= self.queue.len(),
                first_with(self@, id.0@, 0) == first_with(self@, id.0@, i as int),
            decreases self.queue.len() - i,
        {
            if self.queue[i].has_id(id) {
                return Some(i);
            }
            i = i + 1;
        }
        None
    }

    /// Puts an envelope behind the others unless its id is there already; says whether it did.
    pub fn enqueue_unique(&mut self, envelope: PeerEnvelope, id: &PeerEnvelopeId) -> (r: bool)
        ensures
            r == (first_with(old(self)@, id.0@, 0) is None),
            final(self)@ == with_unique(old(self)@, envelope, id.0@),
            final(self).place() == old(self).place(),
    {
        if self.find(id).is_some() {
            false
        } else {
            self.queue.push(envelope);
            true
        }
    }

    pub fn is_empty(&self) -> (r: bool)
        ensures
            r == (self@.len() == 0),
    {
        self.queue.len() == 0
    }

    /// How many envelopes wait.
    pub fn depth(&self) -> (r: usize)
        ensures
            r == self@.len(),
    {
        self.queue.len()
    }

    /// The envelopes that wait, which stay where they are.
    pub fn peek(&self) -> (r: &Vec<PeerEnvelope>)
        ensures
            r@ == self@,
    {
        &self.queue
    }

    /// Whether an envelope with an id waits.
    pub fn holds(&self, id: &PeerEnvelopeId) -> (r: bool)
        ensures
            r == (first_with(self@, id.0@, 0) is Some),
    {
        self.find(id).is_some()
    }

    /// Takes everything out.
    pub fn drain(&mut self) -> (r: Vec<PeerEnvelope>)
        ensures
            r@ == old(self)@,
            final(self)@ == Seq::<PeerEnvelope>::empty(),
            final(self).place() == old(self).place(),
    {
        let mut out: Vec<PeerEnvelope> = Vec::new();
        out.append(&mut self.queue);
        assert(out@ =~= old(self)@);
        out
    }

    /// Takes out the first envelope with an id; says whether there was one.
    pub fn advance(&mut self, id: &PeerEnvelopeId) -> (r: bool)
        ensures
            r == (first_with(old(self)@, id.0@, 0) is Some),
            final(self)@ == advanced(old(self)@, id.0@),
            final(self).place() == old(self).place(),
    {
        match self.find(id) {
            Some(k) => {
                let _taken = self.queue.remove(k);
                true
            },
            None => false,
        }
    }

    /// Takes out the envelope at a place.
    pub(crate) fn remove_at(&mut self, at: usize) -> (e: PeerEnvelope)
        requires
            at < old(self)@.len(),
        ensures
            e == old(self)@[at as int],
            final(self)@ == old(self)@.remove(at as int),
            final(self).place() == old(self).place(),
    {
        self.queue.remove(at)
    }

    /// Takes out the envelope that has waited longest.
    pub fn remove_first(&mut self) -> (r: Option<PeerEnvelope>)
        ensures
            match r {
                Some(e) => old(self)@.len() > 0 && e == old(self)@[0] && final(self)@ == old(
                    self,
                )@.drop_first(),
                None => old(self)@.len() == 0 && final(self)@ == old(self)@,
            },
            final(self).place() == old(self).place(),
    {
        if self.queue.len() == 0 {
            None
        } else {
            let e = self.queue.remove(0);
            assert(self@ =~= old(self)@.drop_first());
            Some(e)
        }
    }
}

/// An envelope that is kept once stays kept once: bringing it again changes nothing.
pub proof fn unique_is_idempotent(queue: Seq<PeerEnvelope>, e: PeerEnvelope, id: Seq<char>)
    requires
        durable_id(e) == Some(id),
    ensures
        with_unique(with_unique(queue, e, id), e, id) == with_unique(queue, e, id),
        first_with(with_unique(queue, e, id), id, 0) is Some,
{
    let q = with_unique(queue, e, id);
    first_with_is_first(queue, id, 0);
    first_with_is_first(q, id, 0);
    if first_with(queue, id, 0) is None {
        assert(q[queue.len() as int] == e);
    }
}

/// An envelope that came in and was taken in again leaves the rest as it was.
pub proof fn advance_undoes_enqueue(queue: Seq<PeerEnvelope>, e: PeerEnvelope, id: Seq<char>)
    requires
        durable_id(e) == Some(id),
        first_with(queue, id, 0) is None,
    ensures
        advanced(with_unique(queue, e, id), id) == queue,
{
    let q = queue.push(e);
    first_with_is_first(queue, id, 0);
    first_with_is_first(q, id, 0);
    let k = first_with(q, id, 0);
    assert(q[queue.len() as int] == e);
    assert(k == Some(queue.len() as int)) by {
        if let Some(j) = k {
            if j < queue.len() {
                assert(q[j] == queue[j]);
            }
        }
    }
    assert(q.remove(queue.len() as int) =~= queue);
}

/// Taking an envelope out takes out exactly one, of that id, and the others keep their order.
pub proof fn advance_takes_exactly_one(queue: Seq<PeerEnvelope>, id: Seq<char>)
    ensures
        first_with(queue, id, 0) matches Some(k) ==> {
            &&& durable_id(queue[k]) == Some(id)
            &&& advanced(queue, id).len() == queue.len() - 1
            &&& advanced(queue, id) == queue.take(k) + queue.skip(k + 1)
        },
        first_with(queue, id, 0) is None ==> advanced(queue, id) == queue,
{
    first_with_is_first(queue, id, 0);
    if let Some(k) = first_with(queue, id, 0) {
        assert(queue.remove(k) =~= queue.take(k) + queue.skip(k + 1));
    }
}

} // verus!
