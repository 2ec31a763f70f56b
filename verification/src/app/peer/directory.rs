//! The directory of known peers, the most recently used first.

use vstd::prelude::*;
use crate::app::peer::PeerId;
use vstd::string::*;

verus! {


/// The known peers, the most recently used first, none of them twice.
#[derive(Debug)]
pub struct PeerDirectory {
    entries: Vec<PeerId>,
}

/// What a list of peers says.
pub open spec fn peer_views(list: Seq<PeerId>) -> Seq<(Seq<char>, Seq<char>)> {
    list.map_values(|p: PeerId| p@)
}

/// The list with a peer moved, or put, to the front.
pub open spec fn to_front(
    list: Seq<(Seq<char>, Seq<char>)>,
    id: (Seq<char>, Seq<char>),
) -> Seq<(Seq<char>, Seq<char>)> {
    seq![id] + without(list, id)
}

/// The list without a peer.
pub open spec fn without(
    list: Seq<(Seq<char>, Seq<char>)>,
    id: (Seq<char>, Seq<char>),
) -> Seq<(Seq<char>, Seq<char>)>
    decreases list.len(),
{
    if list.len() == 0 {
        list
    } else if list.last() == id {
        without(list.drop_last(), id)
    } else {
        without(list.drop_last(), id).push(list.last())
    }
}

/// A list without a peer holds the others, in their order, and not that one.
pub proof fn without_keeps_the_others(
    list: Seq<(Seq<char>, Seq<char>)>,
    id: (Seq<char>, Seq<char>),
)
    ensures
        !without(list, id).contains(id),
        forall|x: (Seq<char>, Seq<char>)|
            x != id ==> (#[trigger] without(list, id).contains(x) <==> list.contains(x)),
        !list.contains(id) ==> without(list, id) == list,
        list.no_duplicates() ==> without(list, id).no_duplicates(),
        without(list, id).len() <= list.len(),
    decreases list.len(),
{
    if list.len() > 0 {
        let init = list.drop_last();
        let w = without(init, id);
        without_keeps_the_others(init, id);
        assert(init.push(list.last()) =~= list);
        assert forall|x: (Seq<char>, Seq<char>)| x != id implies (#[trigger] without(
            list,
            id,
        ).contains(x) <==> list.contains(x)) by {
            if list.contains(x) {
                let k = choose|k: int| 0 <= k < list.len() && list[k] == x;
                if k < init.len() {
                    assert(init[k] == x);
                    assert(init.contains(x));
                    assert(w.contains(x));
                    let j = choose|j: int| 0 <= j < w.len() && w[j] == x;
                    assert(without(list, id)[j] == x);
                } else {
                    assert(without(list, id).last() == x);
                    assert(without(list, id)[w.len() as int] == x);
                }
            }
            if without(list, id).contains(x) {
                let k = choose|k: int| 0 <= k < without(list, id).len() && without(list, id)[k] == x;
                if k < w.len() {
                    assert(w[k] == x);
                    assert(w.contains(x));
                    assert(init.contains(x));
                    let j = choose|j: int| 0 <= j < init.len() && init[j] == x;
                    assert(list[j] == x);
                } else {
                    assert(list[list.len() - 1] == x);
                }
            }
        }
        assert(!without(list, id).contains(id)) by {
            if without(list, id).contains(id) {
                let k = choose|k: int|
                    0 <= k < without(list, id).len() && without(list, id)[k] == id;
                if k < w.len() {
                    assert(w[k] == id);
                }
            }
        }
        if !list.contains(id) {
            assert(list[list.len() - 1] == list.last());
            assert(!init.contains(id)) by {
                if init.contains(id) {
                    let k = choose|k: int| 0 <= k < init.len() && init[k] == id;
                    assert(list[k] == id);
                }
            }
        }
        if list.no_duplicates() {
            assert(init.no_duplicates());
            if list.last() != id {
                assert(!w.contains(list.last())) by {
                    if init.contains(list.last()) {
                        let k = choose|k: int| 0 <= k < init.len() && init[k] == list.last();
                        assert(list[k] == list[list.len() - 1]);
                    }
                }
                let n = without(list, id);
                assert forall|i: int, j: int| 0 <= i < n.len() && 0 <= j < n.len() && i
                    != j implies n[i] != n[j] by {
                    if i == w.len() {
                        assert(w.contains(w[j]));
                    } else if j == w.len() {
                        assert(w.contains(w[i]));
                    }
                }
            }
        }
    }
}

/// A peer at the front occurs once in the list.
proof fn front_is_unique(list: Seq<(Seq<char>, Seq<char>)>, id: (Seq<char>, Seq<char>))
    requires
        list.no_duplicates(),
    ensures
        to_front(list, id).no_duplicates(),
{
    without_keeps_the_others(list, id);
    let w = without(list, id);
    let f = to_front(list, id);
    assert forall|i: int, j: int| 0 <= i < f.len() && 0 <= j < f.len() && i != j implies f[i]
        != f[j] by {
        if i == 0 {
            assert(f[j] == w[j - 1]);
            assert(w.contains(w[j - 1]));
        } else if j == 0 {
            assert(f[i] == w[i - 1]);
            assert(w.contains(w[i - 1]));
        } else {
            assert(f[i] == w[i - 1] && f[j] == w[j - 1]);
        }
    }
}

proof fn without_at(list: Seq<(Seq<char>, Seq<char>)>, k: int)
    requires
        list.no_duplicates(),
        0 <= k < list.len(),
    ensures
        without(list, list[k]) == list.remove(k),
    decreases list.len(),
{
    let id = list[k];
    let init = list.drop_last();
    if k == list.len() - 1 {
        assert(list.remove(k) =~= init);
        assert(!init.contains(id)) by {
            if init.contains(id) {
                let j = choose|j: int| 0 <= j < init.len() && init[j] == id;
                assert(list[j] == list[k]);
            }
        }
        without_keeps_the_others(init, id);
    } else {
        assert(init[k] == id);
        assert(list[list.len() - 1] != list[k]);
        without_at(init, k);
        assert(list.remove(k) =~= init.remove(k).push(list.last()));
    }
}

impl View for PeerDirectory {
    type V = Seq<(Seq<char>, Seq<char>)>;

    closed spec fn view(&self) -> Seq<(Seq<char>, Seq<char>)> {
        peer_views(self.entries@)
    }
}

impl PeerDirectory {
    /// No peer occurs twice.
    pub open spec fn valid(&self) -> bool {
        self@.no_duplicates()
    }

    pub fn new() -> (d: Self)
        ensures
            d.valid(),
            d@ == Seq::<(Seq<char>, Seq<char>)>::empty(),
    {
        let d = PeerDirectory { entries: Vec::new() };
        assert(d@ =~= Seq::empty());
        d
    }

    fn index_of(&self, id: &PeerId) -> (r: Option<usize>)
        ensures
            match r {
                Some(k) => k < self@.len() && self@[k as int] == id@ && self@.contains(id@),
                None => !self@.contains(id@),
            },
            self@.len() == self.entries@.len(),
    {
        let mut i: usize = 0;
        while i < self.entries.len()
            invariant
                i <= self.entries.len(),
                forall|k: int| 0 <= k < i ==> #[trigger] self@[k] != id@,
            decreases self.entries.len() - i,
        {
            if self.entries[i].same(id) {
                assert(self@[i as int] == id@);
                return Some(i);
            }
            i = i + 1;
        }
        None
    }

    /// Admits a peer, or notes that a known one was used: it is the most recent one now.
    pub fn register(&mut self, id: PeerId)
        requires
            old(self).valid(),
        ensures
            final(self).valid(),
            final(self)@ == to_front(old(self)@, id@),
    {
        proof {
            front_is_unique(self@, id@);
            without_keeps_the_others(self@, id@);
        }
        if let Some(k) = self.index_of(&id) {
            proof {
                without_at(self@, k as int);
            }
            let _known = self.entries.remove(k);
            assert(self@ =~= old(self)@.remove(k as int));
        }
        let ghost rest = self@;
        self.entries.insert(0, id);
        assert(self@ =~= seq![id@] + rest);
    }

    /// Notes that a peer was used.
    pub fn touch(&mut self, id: &PeerId)
        requires
            old(self).valid(),
        ensures
            final(self).valid(),
            final(self)@ == to_front(old(self)@, id@),
    {
        self.register(id.copy());
    }

    /// Removes a peer; says whether it was known.
    pub fn unregister(&mut self, id: &PeerId) -> (r: bool)
        requires
            old(self).valid(),
        ensures
            final(self).valid(),
            final(self)@ == without(old(self)@, id@),
            r == old(self)@.contains(id@),
    {
        proof {
            without_keeps_the_others(self@, id@);
        }
        match self.index_of(id) {
            Some(k) => {
                proof {
                    without_at(self@, k as int);
                }
                let _known = self.entries.remove(k);
                assert(self@ =~= old(self)@.remove(k as int));
                true
            },
            None => false,
        }
    }

    pub fn contains(&self, id: &PeerId) -> (r: bool)
        ensures
            r == self@.contains(id@),
    {
        self.index_of(id).is_some()
    }

    pub fn len(&self) -> (r: usize)
        ensures
            r == self@.len(),
    {
        self.entries.len()
    }

    pub fn is_empty(&self) -> (r: bool)
        ensures
            r == (self@.len() == 0),
    {
        self.entries.len() == 0
    }

    /// The known peers, the most recently used first.
    pub fn list(&self) -> (r: Vec<PeerId>)
        ensures
            peer_views(r@) == self@,
    {
        let mut r: Vec<PeerId> = Vec::new();
        let mut i: usize = 0;
        while i < self.entries.len()
            invariant
                i <= self.entries.len(),
                peer_views(r@) == self@.take(i as int),
            decreases self.entries.len() - i,
        {
            let ghost before = r@;
            let p = self.entries[i].copy();
            r.push(p);
            assert(peer_views(r@) =~= peer_views(before).push(p@));
            assert(self@.take(i as int + 1) =~= self@.take(i as int).push(p@));
            i = i + 1;
        }
        assert(self@.take(i as int) =~= self@);
        r
    }

    /// The peers that a peer may write to, the most recently used first: all but itself.
    pub fn addressable_by(&self, from: &PeerId) -> (r: Vec<PeerId>)
        ensures
            peer_views(r@) == without(self@, from@),
    {
        let mut r: Vec<PeerId> = Vec::new();
        let mut i: usize = 0;
        assert(self@.take(0) =~= Seq::empty());
        assert(peer_views(r@) =~= Seq::empty());
        while i < self.entries.len()
            invariant
                i <= self.entries.len(),
                peer_views(r@) == without(self@.take(i as int), from@),
            decreases self.entries.len() - i,
        {
            assert(self@.take(i as int + 1).drop_last() =~= self@.take(i as int));
            assert(self@.take(i as int + 1).last() == self.entries@[i as int]@);
            if self.may_send(from, &self.entries[i]) {
                let ghost before = r@;
                let p = self.entries[i].copy();
                r.push(p);
                assert(peer_views(r@) =~= peer_views(before).push(p@));
            }
            i = i + 1;
        }
        assert(self@.take(i as int) =~= self@);
        r
    }

    /// Whether a peer may write to another: to any but itself, known or not.
    pub fn may_send(&self, from: &PeerId, to: &PeerId) -> (r: bool)
        ensures
            r == (from@ != to@),
    {
        !from.same(to)
    }
}

/// Registering a peer again adds no second entry; registering a new one adds exactly one.
pub proof fn register_adds_at_most_one(
    list: Seq<(Seq<char>, Seq<char>)>,
    id: (Seq<char>, Seq<char>),
)
    requires
        list.no_duplicates(),
    ensures
        to_front(list, id).contains(id),
        to_front(list, id)[0] == id,
        to_front(list, id).len() == (if list.contains(id) {
            list.len()
        } else {
            list.len() + 1
        }),
        to_front(to_front(list, id), id) == to_front(list, id),
{
    without_keeps_the_others(list, id);
    assert(to_front(list, id)[0] == id);
    if list.contains(id) {
        let k = choose|k: int| 0 <= k < list.len() && list[k] == id;
        without_at(list, k);
    }
    front_is_unique(list, id);
    let f = to_front(list, id);
    without_at(f, 0);
    assert(f.remove(0) =~= without(list, id));
}

/// What is unregistered is gone, and registering it again admits it anew.
pub proof fn unregister_then_register(
    list: Seq<(Seq<char>, Seq<char>)>,
    id: (Seq<char>, Seq<char>),
)
    ensures
        !without(list, id).contains(id),
        to_front(without(list, id), id) == to_front(list, id),
{
    without_keeps_the_others(list, id);
    without_keeps_the_others(without(list, id), id);
}

// ---------------------------------------------------------------------------
// Whole histories
// ---------------------------------------------------------------------------

/// Something that is done to a directory.
pub enum DirectoryStep {
    Register((Seq<char>, Seq<char>)),
    Touch((Seq<char>, Seq<char>)),
    Unregister((Seq<char>, Seq<char>)),
}

/// The list after a step.
pub open spec fn stepped(list: Seq<(Seq<char>, Seq<char>)>, step: DirectoryStep) -> Seq<
    (Seq<char>, Seq<char>),
> {
    match step {
        DirectoryStep::Register(id) => to_front(list, id),
        DirectoryStep::Touch(id) => to_front(list, id),
        DirectoryStep::Unregister(id) => without(list, id),
    }
}

/// The list that a history of steps leaves of an empty one.
pub open spec fn after_steps(steps: Seq<DirectoryStep>) -> Seq<(Seq<char>, Seq<char>)>
    decreases steps.len(),
{
    if steps.len() == 0 {
        Seq::empty()
    } else {
        stepped(after_steps(steps.drop_last()), steps.last())
    }
}

/// When a peer was last registered or touched; `None` where it never was, or was unregistered
/// since.
pub open spec fn last_use(steps: Seq<DirectoryStep>, p: (Seq<char>, Seq<char>)) -> Option<int>
    decreases steps.len(),
{
    if steps.len() == 0 {
        None
    } else {
        let earlier = last_use(steps.drop_last(), p);
        match steps.last() {
            DirectoryStep::Register(id) => if id == p {
                Some(steps.len() - 1)
            } else {
                earlier
            },
            DirectoryStep::Touch(id) => if id == p {
                Some(steps.len() - 1)
            } else {
                earlier
            },
            DirectoryStep::Unregister(id) => if id == p {
                None
            } else {
                earlier
            },
        }
    }
}

proof fn last_use_is_a_step(steps: Seq<DirectoryStep>, p: (Seq<char>, Seq<char>))
    ensures
        last_use(steps, p) matches Some(t) ==> 0 <= t < steps.len(),
    decreases steps.len(),
{
    if steps.len() > 0 {
        last_use_is_a_step(steps.drop_last(), p);
    }
}

/// A list without a peer is in the order of the list.
proof fn without_keeps_the_order(
    list: Seq<(Seq<char>, Seq<char>)>,
    id: (Seq<char>, Seq<char>),
    i: int,
    j: int,
) -> (places: (int, int))
    requires
        list.no_duplicates(),
        0 <= i < j < without(list, id).len(),
    ensures
        0 <= places.0 < places.1 < list.len(),
        list[places.0] == without(list, id)[i],
        list[places.1] == without(list, id)[j],
{
    if list.contains(id) {
        let k = choose|k: int| 0 <= k < list.len() && list[k] == id;
        without_at(list, k);
        let a = if i < k {
            i
        } else {
            i + 1
        };
        let b = if j < k {
            j
        } else {
            j + 1
        };
        (a, b)
    } else {
        without_keeps_the_others(list, id);
        (i, j)
    }
}

/// After whatever was done to it, a directory holds exactly the peers that were registered or
/// touched and not unregistered since, each once, and one stands before another exactly where it
/// was used later.
pub proof fn directory_is_in_order_of_use(steps: Seq<DirectoryStep>)
    ensures
        after_steps(steps).no_duplicates(),
        forall|p: (Seq<char>, Seq<char>)| #[trigger]
            after_steps(steps).contains(p) <==> last_use(steps, p) is Some,
        forall|i: int, j: int|
            0 <= i < after_steps(steps).len() && 0 <= j < after_steps(steps).len() ==> (i < j <==> (
            last_use(steps, #[trigger] after_steps(steps)[i])->0 > last_use(
                steps,
                #[trigger] after_steps(steps)[j],
            )->0)),
    decreases steps.len(),
{
    if steps.len() > 0 {
        let init = steps.drop_last();
        let before = after_steps(init);
        let list = after_steps(steps);
        directory_is_in_order_of_use(init);
        let id = match steps.last() {
            DirectoryStep::Register(id) => id,
            DirectoryStep::Touch(id) => id,
            DirectoryStep::Unregister(id) => id,
        };
        let w = without(before, id);
        without_keeps_the_others(before, id);
        front_is_unique(before, id);
        let shift: int = if steps.last() is Unregister {
            0
        } else {
            1
        };
        assert forall|p: (Seq<char>, Seq<char>)| #[trigger] list.contains(p) <==> last_use(
            steps,
            p,
        ) is Some by {
            assert(before.contains(p) <==> last_use(init, p) is Some);
            if shift == 1 {
                assert(list[0] == id);
                if p != id {
                    if w.contains(p) {
                        let k = choose|k: int| 0 <= k < w.len() && w[k] == p;
                        assert(list[k + 1] == p);
                    }
                    if list.contains(p) {
                        let k = choose|k: int| 0 <= k < list.len() && list[k] == p;
                        assert(w[k - 1] == p);
                    }
                }
            }
        }
        assert forall|i: int, j: int| 0 <= i < j < list.len() implies last_use(
            steps,
            #[trigger] list[i],
        )->0 > last_use(steps, #[trigger] list[j])->0 by {
            assert(list[j] == w[j - shift]);
            assert(w.contains(w[j - shift]));
            last_use_is_a_step(init, list[j]);
            assert(before.contains(list[j]));
            if i >= shift {
                assert(list[i] == w[i - shift]);
                assert(w.contains(w[i - shift]));
                let (a, b) = without_keeps_the_order(before, id, i - shift, j - shift);
                assert(before[a] == list[i] && before[b] == list[j]);
            } else {
                assert(list[i] == id);
            }
        }
        assert forall|i: int, j: int| 0 <= i < list.len() && 0 <= j < list.len() implies (i < j
            <==> (last_use(steps, #[trigger] list[i])->0 > last_use(
            steps,
            #[trigger] list[j],
        )->0)) by {
            if j < i {
                assert(last_use(steps, list[j])->0 > last_use(steps, list[i])->0);
            }
        }
    }
}

} // verus!
