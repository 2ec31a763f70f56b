//! What the supervisor holds of a running worker.

use vstd::prelude::*;
use crate::protocol::AgentInteraction;
use crate::text;
use vstd::string::*;

verus! {

/// The interactions with another request id, in their order.
pub open spec fn except(list: Seq<AgentInteraction>, request_id: Seq<char>) -> Seq<
    AgentInteraction,
>
    decreases list.len(),
{
    if list.len() == 0 {
        list
    } else if list.last().request_id@ == request_id {
        except(list.drop_last(), request_id)
    } else {
        except(list.drop_last(), request_id).push(list.last())
    }
}

/// A worker's open questions to the user.
#[derive(Debug, Clone)]
pub struct WorkerHandle {
    pending_interactions: Vec<AgentInteraction>,
}

impl View for WorkerHandle {
    type V = Seq<AgentInteraction>;

    closed spec fn view(&self) -> Seq<AgentInteraction> {
        self.pending_interactions@
    }
}

fn retain(list: &Vec<AgentInteraction>, request_id: &str) -> (kept: Vec<AgentInteraction>)
    ensures
        kept@ == except(list@, request_id@),
{
    let mut kept: Vec<AgentInteraction> = Vec::new();
    let mut i: usize = 0;
    assert(list@.take(0) =~= Seq::empty());
    while i < list.len()
        invariant
            i <= list.len(),
            kept@ == except(list@.take(i as int), request_id@),
        decreases list.len() - i,
    {
        assert(list@.take(i as int + 1).drop_last() =~= list@.take(i as int));
        if !text::same(list[i].request_id.as_str(), request_id) {
            kept.push(list[i].copy());
        }
        i = i + 1;
    }
    assert(list@.take(i as int) =~= list@);
    kept
}

impl WorkerHandle {
    pub fn new() -> (h: Self)
        ensures
            h@ == Seq::<AgentInteraction>::empty(),
    {
        WorkerHandle { pending_interactions: Vec::new() }
    }

    /// The open questions, the oldest first.
    pub fn pending_interactions(&self) -> (r: Vec<AgentInteraction>)
        ensures
            r@ == self@,
    {
        let mut r: Vec<AgentInteraction> = Vec::new();
        let mut i: usize = 0;
        while i < self.pending_interactions.len()
            invariant
                i <= self.pending_interactions.len(),
                r@ == self@.take(i as int),
            decreases self.pending_interactions.len() - i,
        {
            r.push(self.pending_interactions[i].copy());
            assert(self@.take(i as int + 1) =~= self@.take(i as int).push(self@[i as int]));
            i = i + 1;
        }
        assert(self@.take(i as int) =~= self@);
        r
    }

    pub fn has_pending_interaction(&self) -> (r: bool)
        ensures
            r == (self@.len() > 0),
    {
        self.pending_interactions.len() > 0
    }

    /// Notes a question down, in place of an earlier one with its request id.
    pub fn add_interaction(&mut self, interaction: AgentInteraction)
        ensures
            final(self)@ == except(old(self)@, interaction.request_id@).push(interaction),
    {
        self.pending_interactions = retain(
            &self.pending_interactions,
            interaction.request_id.as_str(),
        );
        self.pending_interactions.push(interaction);
    }

    /// Replaces all open questions.
    pub fn set_pending_interactions(&mut self, interactions: Vec<AgentInteraction>)
        ensures
            final(self)@ == interactions@,
    {
        self.pending_interactions = interactions;
    }

    /// Drops the question with a request id.
    pub fn clear_interaction(&mut self, request_id: &str)
        ensures
            final(self)@ == except(old(self)@, request_id@),
    {
        self.pending_interactions = retain(&self.pending_interactions, request_id);
    }
}

/// Of all questions exactly those with the request id are dropped.
pub proof fn except_drops_exactly_those(list: Seq<AgentInteraction>, request_id: Seq<char>)
    ensures
        forall|x: AgentInteraction| #[trigger]
            except(list, request_id).contains(x) <==> list.contains(x) && x.request_id@
                != request_id,
    decreases list.len(),
{
    if list.len() > 0 {
        let init = list.drop_last();
        except_drops_exactly_those(init, request_id);
        let kept = except(list, request_id);
        let before = except(init, request_id);
        assert forall|x: AgentInteraction| #[trigger]
            kept.contains(x) <==> list.contains(x) && x.request_id@ != request_id by {
            if kept.contains(x) {
                let k = choose|k: int| 0 <= k < kept.len() && kept[k] == x;
                if k < before.len() {
                    assert(before[k] == x);
                    assert(before.contains(x));
                    let j = choose|j: int| 0 <= j < init.len() && init[j] == x;
                    assert(list[j] == x);
                } else {
                    assert(list[list.len() - 1] == x);
                }
            }
            if list.contains(x) && x.request_id@ != request_id {
                let k = choose|k: int| 0 <= k < list.len() && list[k] == x;
                if k < init.len() {
                    assert(init[k] == x);
                    assert(init.contains(x));
                    assert(before.contains(x));
                    let j = choose|j: int| 0 <= j < before.len() && before[j] == x;
                    assert(kept[j] == x);
                } else {
                    assert(kept[before.len() as int] == x);
                }
            }
        }
    }
}

/// After a question came in it is open, and no other with its request id is.
pub proof fn added_question_is_the_only_one(list: Seq<AgentInteraction>, q: AgentInteraction)
    ensures
        ({
            let after = except(list, q.request_id@).push(q);
            &&& after.contains(q)
            &&& forall|x: AgentInteraction|
                #[trigger] after.contains(x) && x.request_id@ == q.request_id@ ==> x == q
        }),
{
    except_drops_exactly_those(list, q.request_id@);
    let before = except(list, q.request_id@);
    let after = before.push(q);
    assert(after[before.len() as int] == q);
    assert forall|x: AgentInteraction| #[trigger]
        after.contains(x) && x.request_id@ == q.request_id@ implies x == q by {
        let k = choose|k: int| 0 <= k < after.len() && after[k] == x;
        if k < before.len() {
            assert(before[k] == x);
            assert(before.contains(x));
        }
    }
}

/// Of the open questions those with another id are left, all of them and in their order.
pub proof fn remaining_questions_add_up(
    a: Seq<AgentInteraction>,
    b: Seq<AgentInteraction>,
    x: AgentInteraction,
    request_id: Seq<char>,
)
    ensures
        except(a + b, request_id) == except(a, request_id) + except(b, request_id),
        except(seq![x], request_id) == (if x.request_id@ == request_id {
            Seq::empty()
        } else {
            seq![x]
        }),
    decreases b.len(),
{
    let one = seq![x];
    assert(one.drop_last() =~= Seq::<AgentInteraction>::empty());
    reveal_with_fuel(except, 2);
    assert(except(one, request_id) =~= (if x.request_id@ == request_id {
            Seq::empty()
        } else {
            seq![x]
        }));
    if b.len() == 0 {
        assert(a + b =~= a);
        assert(except(a, request_id) + except(b, request_id) =~= except(a, request_id));
    } else {
        assert((a + b).drop_last() =~= a + b.drop_last());
        assert((a + b).last() == b.last());
        remaining_questions_add_up(a, b.drop_last(), x, request_id);
        assert(except(a + b, request_id) =~= except(a, request_id) + except(b, request_id));
    }
}

} // verus!
