//! Which sends are still outstanding, read from the log of their outcomes.

use vstd::prelude::*;
use crate::protocol::{DeliveryOutcome, LogicalInput, WorldPeerId};

use vstd::string::*;

verus! {

/// What a send is known by: its receiver and the fingerprint of its payload.
#[derive(Debug, Clone, PartialEq, Eq)]
pub struct OutboxKey {
    pub to: WorldPeerId,
    pub fingerprint: String,
}

/// A send that is outstanding.
#[derive(Debug, Clone, PartialEq, Eq)]
pub struct OutboxEntry {
    pub cmd: u64,
    pub entity: u64,
    pub to: WorldPeerId,
}

/// What a log entry says of a send: the receiver's app, its node and the fingerprint, and what
/// became of it under which command for which entity.
pub struct SendWord {
    pub key: (Seq<char>, Seq<char>, Seq<char>),
    pub outcome: DeliveryOutcome,
    pub cmd: u64,
    pub entity: u64,
}

/// What a log entry says of a send, where it speaks of one.
pub open spec fn outcome_of(input: LogicalInput) -> Option<SendWord> {
    match input {
        LogicalInput::PeerSendOutcome { cmd, entity, fingerprint, to, outcome } => Some(
            SendWord { key: (to.app_id@, to.node_id@, fingerprint.0@), outcome, cmd, entity },
        ),
        _ => None,
    }
}

/// A later entry than `i` speaks of the same send.
pub open spec fn spoken_of_later(log: Seq<LogicalInput>, i: int) -> bool {
    exists|j: int|
        i < j < log.len() && outcome_of(#[trigger] log[j]) is Some && outcome_of(log[j])->0.key
            == outcome_of(log[i])->0.key
}

/// Entry `i` is the last word on its send, and the send was queued.
pub open spec fn outstanding(log: Seq<LogicalInput>, i: int) -> bool {
    &&& 0 <= i < log.len()
    &&& outcome_of(log[i]) matches Some(o) && o.outcome == DeliveryOutcome::Queued
    &&& !spoken_of_later(log, i)
}

/// The sends that are outstanding.
pub open spec fn outbox_of(log: Seq<LogicalInput>) -> Map<
    (Seq<char>, Seq<char>, Seq<char>),
    (u64, u64),
> {
    Map::new(
        |k: (Seq<char>, Seq<char>, Seq<char>)|
            exists|i: int| #[trigger] outstanding(log, i) && outcome_of(log[i])->0.key == k,
        |k: (Seq<char>, Seq<char>, Seq<char>)|
            {
                let i = choose|i: int| #[trigger]
                    outstanding(log, i) && outcome_of(log[i])->0.key == k;
                (outcome_of(log[i])->0.cmd, outcome_of(log[i])->0.entity)
            },
    )
}

/// The last word on a send is one entry.
proof fn last_word_is_unique(log: Seq<LogicalInput>, i: int, j: int)
    requires
        outstanding(log, i),
        outstanding(log, j),
        outcome_of(log[i])->0.key == outcome_of(log[j])->0.key,
    ensures
        i == j,
{
    if i < j {
        assert(spoken_of_later(log, i));
    } else if j < i {
        assert(spoken_of_later(log, j));
    }
}

/// The outstanding sends, each under its key.
#[derive(Debug, Clone)]
pub struct Outbox {
    keys: Vec<OutboxKey>,
    entries: Vec<OutboxEntry>,
}

/// A key as plain values.
pub open spec fn key_view(k: OutboxKey) -> (Seq<char>, Seq<char>, Seq<char>) {
    (k.to.app_id@, k.to.node_id@, k.fingerprint@)
}

/// The keys of a list.
pub open spec fn key_views(keys: Seq<OutboxKey>) -> Seq<(Seq<char>, Seq<char>, Seq<char>)> {
    keys.map_values(|k: OutboxKey| key_view(k))
}

impl Outbox {
    pub closed spec fn valid(&self) -> bool {
        &&& self.keys@.len() == self.entries@.len()
        &&& key_views(self.keys@).no_duplicates()
        &&& forall|i: int|
            0 <= i < self.keys@.len() ==> (#[trigger] self.entries@[i]).to == self.keys@[i].to
    }
}

impl View for Outbox {
    type V = Map<(Seq<char>, Seq<char>, Seq<char>), (u64, u64)>;

    closed spec fn view(&self) -> Map<(Seq<char>, Seq<char>, Seq<char>), (u64, u64)> {
        let keys = key_views(self.keys@);
        Map::new(
            |k: (Seq<char>, Seq<char>, Seq<char>)| keys.contains(k),
            |k: (Seq<char>, Seq<char>, Seq<char>)|
                {
                    let e = self.entries@[keys.index_of(k)];
                    (e.cmd, e.entity)
                },
        )
    }
}

impl Outbox {
    fn find(&self, key: &OutboxKey) -> (r: Option<usize>)
        requires
            self.valid(),
        ensures
            match r {
                Some(i) => i < self.entries@.len() && self@.contains_key(key_view(*key))
                    && self@[key_view(*key)] == (
                    self.entries@[i as int].cmd,
                    self.entries@[i as int].entity,
                ) && key_view(self.keys@[i as int]) == key_view(*key),
                None => !self@.contains_key(key_view(*key)),
            },
    {
        let ghost keys = key_views(self.keys@);
        let mut i: usize = 0;
        while i < self.keys.len()
            invariant
                i <= self.keys.len(),
                self.valid(),
                keys == key_views(self.keys@),
                forall|k: int| 0 <= k < i ==> #[trigger] keys[k] != key_view(*key),
            decreases self.keys.len() - i,
        {
            let k = &self.keys[i];
            if k.to.app_id == key.to.app_id && k.to.node_id == key.to.node_id && k.fingerprint
                == key.fingerprint {
                assert(keys[i as int] == key_view(*key));
                assert(keys.contains(key_view(*key)));
                assert(keys.index_of(key_view(*key)) == i);
                return Some(i);
            }
            i = i + 1;
        }
        None
    }

    /// The outstanding send under a key.
    pub fn get(&self, key: &OutboxKey) -> (r: Option<&OutboxEntry>)
        requires
            self.valid(),
        ensures
            match r {
                Some(e) => self@.contains_key(key_view(*key)) && self@[key_view(*key)] == (
                    e.cmd,
                    e.entity,
                ) && e.to.app_id@ == key.to.app_id@ && e.to.node_id@ == key.to.node_id@,
                None => !self@.contains_key(key_view(*key)),
            },
    {
        match self.find(key) {
            Some(i) => Some(&self.entries[i]),
            None => None,
        }
    }

    pub fn contains_key(&self, key: &OutboxKey) -> (r: bool)
        requires
            self.valid(),
        ensures
            r == self@.contains_key(key_view(*key)),
    {
        self.find(key).is_some()
    }

    /// How many sends are outstanding.
    pub fn len(&self) -> (r: usize)
        requires
            self.valid(),
        ensures
            self@.dom().finite(),
            r == self@.dom().len(),
    {
        proof {
            let keys = key_views(self.keys@);
            keys.unique_seq_to_set();
            assert(self@.dom() =~= keys.to_set());
            vstd::seq_lib::seq_to_set_is_finite(keys);
        }
        self.keys.len()
    }

    pub fn is_empty(&self) -> (r: bool)
        requires
            self.valid(),
        ensures
            r == (self@ == Map::<(Seq<char>, Seq<char>, Seq<char>), (u64, u64)>::empty()),
    {
        proof {
            let keys = key_views(self.keys@);
            if keys.len() > 0 {
                assert(keys.contains(keys[0]));
                assert(self@.contains_key(keys[0]));
            } else {
                assert(self@ =~= Map::empty());
            }
        }
        self.keys.len() == 0
    }
}

fn later_word(log: &Vec<LogicalInput>, i: usize) -> (r: bool)
    requires
        i < log.len(),
        outcome_of(log@[i as int]) is Some,
    ensures
        r == spoken_of_later(log@, i as int),
{
    let mut j: usize = i + 1;
    while j < log.len()
        invariant
            i < j <= log.len(),
            outcome_of(log@[i as int]) is Some,
            forall|k: int|
                i < k < j ==> !(outcome_of(#[trigger] log@[k]) is Some && outcome_of(log@[k])->0.key
                    == outcome_of(log@[i as int])->0.key),
        decreases log.len() - j,
    {
        match (&log[i], &log[j]) {
            (
                LogicalInput::PeerSendOutcome { fingerprint: fa, to: ta, .. },
                LogicalInput::PeerSendOutcome { fingerprint: fb, to: tb, .. },
            ) => {
                if ta.app_id == tb.app_id && ta.node_id == tb.node_id && fa.0 == fb.0 {
                    assert(outcome_of(log@[j as int])->0.key == outcome_of(log@[i as int])->0.key);
                    return true;
                }
            },
            _ => {},
        }
        j = j + 1;
    }
    false
}

/// The outstanding sends of a log: for each send its last outcome counts, and it is outstanding
/// where that was to be queued.
pub fn reconstruct_outbox(log: &Vec<LogicalInput>) -> (outbox: Outbox)
    ensures
        outbox.valid(),
        outbox@ == outbox_of(log@),
{
    let mut keys: Vec<OutboxKey> = Vec::new();
    let mut entries: Vec<OutboxEntry> = Vec::new();
    let ghost mut places: Seq<int> = Seq::empty();
    let mut i: usize = 0;
    while i < log.len()
        invariant
            i <= log.len(),
            keys@.len() == entries@.len(),
            places.len() == keys@.len(),
            forall|k: int|
                0 <= k < places.len() ==> {
                    &&& 0 <= #[trigger] places[k] < i
                    &&& outstanding(log@, places[k])
                    &&& outcome_of(log@[places[k]])->0.key == key_view(keys@[k])
                    &&& outcome_of(log@[places[k]])->0.cmd == entries@[k].cmd
                    &&& outcome_of(log@[places[k]])->0.entity == entries@[k].entity
                    &&& entries@[k].to == keys@[k].to
                },
            forall|a: int, b: int|
                0 <= a < b < places.len() ==> #[trigger] places[a] < #[trigger] places[b],
            forall|p: int|
                0 <= p < i && #[trigger] outstanding(log@, p) ==> exists|k: int|
                    0 <= k < places.len() && places[k] == p,
        decreases log.len() - i,
    {
        let ghost before = places;
        if let LogicalInput::PeerSendOutcome { cmd, entity, fingerprint, to, outcome } = &log[i] {
            if *outcome == DeliveryOutcome::Queued && !later_word(log, i) {
                keys.push(OutboxKey { to: to.copy(), fingerprint: fingerprint.0.clone() });
                entries.push(OutboxEntry { cmd: *cmd, entity: *entity, to: to.copy() });
                proof {
                    places = places.push(i as int);
                }
            }
        }
        assert forall|p: int|
            0 <= p < i + 1 && #[trigger] outstanding(log@, p) implies exists|k: int|
            0 <= k < places.len() && places[k] == p by {
            if p < i {
                let k = choose|k: int| 0 <= k < before.len() && before[k] == p;
                assert(places[k] == p);
            } else {
                assert(places[before.len() as int] == p);
            }
        }
        i = i + 1;
    }
    let outbox = Outbox { keys, entries };
    let ghost ks = key_views(outbox.keys@);
    assert(ks.no_duplicates()) by {
        assert forall|a: int, b: int| 0 <= a < ks.len() && 0 <= b < ks.len() && a
            != b implies ks[a] != ks[b] by {
            if ks[a] == ks[b] {
                last_word_is_unique(log@, places[a], places[b]);
            }
        }
    }
    assert forall|k: int| 0 <= k < outbox.keys@.len() implies (#[trigger] outbox.entries@[k]).to
        == outbox.keys@[k].to by {
        assert(outstanding(log@, places[k]));
    }
    assert(outbox@ =~= outbox_of(log@)) by {
        assert forall|k: (Seq<char>, Seq<char>, Seq<char>)| #[trigger]
            outbox@.contains_key(k) <==> outbox_of(log@).contains_key(k) by {
            if ks.contains(k) {
                let x = choose|x: int| 0 <= x < ks.len() && ks[x] == k;
                assert(outstanding(log@, places[x]));
            }
            if outbox_of(log@).contains_key(k) {
                let p = choose|p: int| #[trigger]
                    outstanding(log@, p) && outcome_of(log@[p])->0.key == k;
                let x = choose|x: int| 0 <= x < places.len() && places[x] == p;
                assert(ks[x] == k);
            }
        }
        assert forall|k: (Seq<char>, Seq<char>, Seq<char>)| outbox@.contains_key(
            k,
        ) implies #[trigger] outbox@[k] == outbox_of(log@)[k] by {
            let x = ks.index_of(k);
            assert(ks.contains(k));
            assert(ks[x] == k);
            assert(outstanding(log@, places[x]));
            let p = choose|p: int| #[trigger]
                outstanding(log@, p) && outcome_of(log@[p])->0.key == k;
            last_word_is_unique(log@, p, places[x]);
        }
    }
    outbox
}

/// A send whose last word is not to be queued is not outstanding, whatever was said before.
pub proof fn delivered_send_leaves_the_outbox(log: Seq<LogicalInput>, last: LogicalInput)
    requires
        outcome_of(last) is Some,
        outcome_of(last)->0.outcome != DeliveryOutcome::Queued,
    ensures
        !outbox_of(log.push(last)).contains_key(outcome_of(last)->0.key),
{
    let all = log.push(last);
    let n = log.len() as int;
    assert(all[n] == last);
    assert forall|i: int| #[trigger] outstanding(all, i) implies outcome_of(all[i])->0.key
        != outcome_of(last)->0.key by {
        if outcome_of(all[i])->0.key == outcome_of(last)->0.key && i < n {
            assert(spoken_of_later(all, i));
        }
    }
}

/// A send whose last word is to be queued is outstanding, under that word's command.
pub proof fn queued_send_is_in_the_outbox(log: Seq<LogicalInput>, last: LogicalInput)
    requires
        outcome_of(last) is Some,
        outcome_of(last)->0.outcome == DeliveryOutcome::Queued,
    ensures
        outbox_of(log.push(last)).contains_key(outcome_of(last)->0.key),
        outbox_of(log.push(last))[outcome_of(last)->0.key] == (
            outcome_of(last)->0.cmd,
            outcome_of(last)->0.entity,
        ),
{
    let all = log.push(last);
    let n = log.len() as int;
    let k = outcome_of(last)->0.key;
    assert(all[n] == last);
    assert(outstanding(all, n));
    let i = choose|i: int| #[trigger] outstanding(all, i) && outcome_of(all[i])->0.key == k;
    last_word_is_unique(all, i, n);
}

/// An input that is no word about a send changes nothing in the outbox, and a word about one send
/// changes nothing about another.
pub proof fn other_sends_are_kept(
    log: Seq<LogicalInput>,
    last: LogicalInput,
    k: (Seq<char>, Seq<char>, Seq<char>),
)
    requires
        last matches LogicalInput::PeerSendOutcome { to, fingerprint, .. } ==> k != (
            to.app_id@,
            to.node_id@,
            fingerprint.0@,
        ),
    ensures
        outbox_of(log.push(last)).contains_key(k) <==> outbox_of(log).contains_key(k),
        outbox_of(log).contains_key(k) ==> outbox_of(log.push(last))[k] == outbox_of(log)[k],
        !outbox_of(Seq::empty()).contains_key(k),
{
    let after = log.push(last);
    assert(outcome_of(last) is Some ==> outcome_of(last)->0.key != k);
    assert forall|i: int| (outcome_of(log[i]) is Some && outcome_of(log[i])->0.key == k && 0 <= i
        < log.len()) implies (#[trigger] outstanding(after, i) == outstanding(log, i)) by {
        assert(after[i] == log[i]);
        if spoken_of_later(log, i) {
            let j = choose|j: int|
                i < j < log.len() && outcome_of(#[trigger] log[j]) is Some && outcome_of(
                    log[j],
                )->0.key == outcome_of(log[i])->0.key;
            assert(after[j] == log[j]);
        }
        if spoken_of_later(after, i) {
            let j = choose|j: int|
                i < j < after.len() && outcome_of(#[trigger] after[j]) is Some && outcome_of(
                    after[j],
                )->0.key == outcome_of(after[i])->0.key;
            assert(j < log.len());
            assert(after[j] == log[j]);
        }
    }
    if outbox_of(log).contains_key(k) {
        let i = choose|i: int| #[trigger] outstanding(log, i) && outcome_of(log[i])->0.key == k;
        assert(after[i] == log[i]);
        assert(outstanding(after, i));
        let m = choose|m: int| #[trigger]
            outstanding(after, m) && outcome_of(after[m])->0.key == k;
        assert(m < log.len());
        assert(after[m] == log[m]);
        assert(outstanding(log, m));
        assert(m == i) by {
            if m < i {
                assert(spoken_of_later(log, m));
            }
            if i < m {
                assert(spoken_of_later(log, i));
            }
        }
    }
    if outbox_of(after).contains_key(k) {
        let m = choose|m: int| #[trigger]
            outstanding(after, m) && outcome_of(after[m])->0.key == k;
        assert(m < log.len());
        assert(after[m] == log[m]);
        assert(outstanding(log, m));
    }
}

/// The last word about a send decides: where the peer has it still to get, the send is in the
/// outbox with what it was sent for, and otherwise it is not.
pub proof fn last_word_decides(
    log: Seq<LogicalInput>,
    cmd: u64,
    entity: u64,
    last: LogicalInput,
    k: (Seq<char>, Seq<char>, Seq<char>),
)
    requires
        last matches LogicalInput::PeerSendOutcome { cmd: c, entity: e, fingerprint, to, .. } && c
            == cmd && e == entity && k == (to.app_id@, to.node_id@, fingerprint.0@),
    ensures
        outbox_of(log.push(last)).contains_key(k) <==> last->outcome == DeliveryOutcome::Queued,
        last->outcome == DeliveryOutcome::Queued ==> outbox_of(log.push(last))[k] == (cmd, entity),
{
    if last->outcome == DeliveryOutcome::Queued {
        queued_send_is_in_the_outbox(log, last);
    } else {
        delivered_send_leaves_the_outbox(log, last);
    }
}

} // verus!
