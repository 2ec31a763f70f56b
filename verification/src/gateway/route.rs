//! What is shown of the agent's conversation.

use vstd::prelude::*;
use crate::conversation::{Entry, Message, ToolCall};
use crate::gateway::error::GatewayError;
use crate::text;
use vstd::string::*;

verus! {

/// Which entries to list.
#[derive(Debug, Clone, PartialEq, Eq)]
pub struct ListEntriesParams {
    pub role: Option<String>,
    pub since_id: Option<usize>,
}

/// The name of the role that says a message.
pub open spec fn role_of(m: Message) -> Seq<char> {
    match m {
        Message::System { .. } => "system"@,
        Message::User { .. } => "user"@,
        Message::Assistant { .. } => "assistant"@,
        Message::Tool { .. } => "tool"@,
    }
}

/// The name of the role that says a message.
pub fn message_role(m: &Message) -> (r: &'static str)
    ensures
        r@ == role_of(*m),
{
    match m {
        Message::System { .. } => "system",
        Message::User { .. } => "user",
        Message::Assistant { .. } => "assistant",
        Message::Tool { .. } => "tool",
    }
}

/// An entry is asked for: it has the role, and comes after the given one.
pub open spec fn is_asked_for(e: Entry, params: ListEntriesParams) -> bool {
    &&& params.role matches Some(role) ==> role_of(e.message) == role@
    &&& params.since_id matches Some(since) ==> e.id > since
}

/// The entries that are asked for, in their order.
pub open spec fn listed(entries: Seq<Entry>, params: ListEntriesParams) -> Seq<Entry>
    decreases entries.len(),
{
    if entries.len() == 0 {
        Seq::empty()
    } else if is_asked_for(entries.last(), params) {
        listed(entries.drop_last(), params).push(entries.last())
    } else {
        listed(entries.drop_last(), params)
    }
}

fn asked_for(e: &Entry, params: &ListEntriesParams) -> (r: bool)
    ensures
        r == is_asked_for(*e, *params),
{
    if let Some(role) = &params.role {
        if !text::same(message_role(&e.message), role.as_str()) {
            return false;
        }
    }
    if let Some(since) = params.since_id {
        if e.id <= since {
            return false;
        }
    }
    true
}

/// What references refer to.
pub open spec fn referred(list: Seq<&Entry>) -> Seq<Entry> {
    list.map_values(|e: &Entry| *e)
}

/// The entries that are asked for, in their order.
pub fn list_entries<'a>(entries: &'a Vec<Entry>, params: &ListEntriesParams) -> (r: Vec<&'a Entry>)
    ensures
        referred(r@) == listed(entries@, *params),
{
    let mut r: Vec<&'a Entry> = Vec::new();
    let mut i: usize = 0;
    assert(referred(r@) =~= listed(entries@.take(0), *params));
    while i < entries.len()
        invariant
            i <= entries.len(),
            referred(r@) == listed(entries@.take(i as int), *params),
        decreases entries.len() - i,
    {
        assert(entries@.take(i as int + 1).drop_last() =~= entries@.take(i as int));
        let ghost before = r@;
        let e: &'a Entry = &entries[i];
        if asked_for(e, params) {
            r.push(e);
            assert(referred(r@) =~= referred(before).push(*e));
        }
        i = i + 1;
    }
    assert(entries@.take(i as int) =~= entries@);
    r
}

/// The place of the first entry with an id, from place `i` on.
pub open spec fn first_with_id(entries: Seq<Entry>, id: usize, i: int) -> Option<int>
    decreases entries.len() - i,
{
    if i < 0 || i >= entries.len() {
        None
    } else if entries[i].id == id {
        Some(i)
    } else {
        first_with_id(entries, id, i + 1)
    }
}

/// The entry with an id.
pub fn get_entry<'a>(entries: &'a Vec<Entry>, id: usize) -> (r: Result<&'a Entry, GatewayError>)
    ensures
        match first_with_id(entries@, id, 0) {
            Some(k) => r matches Ok(e) && *e == entries@[k],
            None => r matches Err(e) && e == GatewayError::EntryNotFound(id),
        },
{
    let mut i: usize = 0;
    while i < entries.len()
        invariant
            i <= entries.len(),
            first_with_id(entries@, id, 0) == first_with_id(entries@, id, i as int),
        decreases entries.len() - i,
    {
        if entries[i].id == id {
            return Ok(&entries[i]);
        }
        i = i + 1;
    }
    Err(GatewayError::EntryNotFound(id))
}

/// What a tool answered.
#[derive(Debug, Clone, PartialEq)]
pub struct ToolResultInfo {
    pub entry_id: usize,
    pub tool_call_id: String,
    pub content: String,
}

/// A call of a tool, with the answer where there is one.
#[derive(Debug, Clone, PartialEq)]
pub struct ToolCallPair<'a> {
    pub entry_id: usize,
    pub call: &'a ToolCall,
    pub result: Option<ToolResultInfo>,
}

/// What such a pair says.
pub struct PairView {
    pub entry_id: usize,
    pub call: ToolCall,
    pub result: Option<ToolResultInfo>,
}

impl<'a> View for ToolCallPair<'a> {
    type V = PairView;

    open spec fn view(&self) -> PairView {
        PairView { entry_id: self.entry_id, call: *self.call, result: self.result }
    }
}

/// What a list of pairs says.
pub open spec fn pair_views(pairs: Seq<ToolCallPair<'_>>) -> Seq<PairView> {
    pairs.map_values(|p: ToolCallPair<'_>| p@)
}

/// What an entry answers to a call.
pub open spec fn answer_in(e: Entry, call_id: Seq<char>) -> Option<ToolResultInfo> {
    match e.message {
        Message::Tool { tool_call_id, content, .. } => if tool_call_id@ == call_id {
            Some(ToolResultInfo { entry_id: e.id, tool_call_id, content })
        } else {
            None
        },
        _ => None,
    }
}

/// The first answer to a call, from place `i` on.
pub open spec fn answer_from(entries: Seq<Entry>, call_id: Seq<char>, i: int) -> Option<
    ToolResultInfo,
>
    decreases entries.len() - i,
{
    if i < 0 || i >= entries.len() {
        None
    } else if answer_in(entries[i], call_id) is Some {
        answer_in(entries[i], call_id)
    } else {
        answer_from(entries, call_id, i + 1)
    }
}

/// The calls that an entry asks for.
pub open spec fn calls_in(e: Entry) -> Seq<ToolCall> {
    match e.message {
        Message::Assistant { tool_calls: Some(calls), .. } => calls@,
        _ => Seq::empty(),
    }
}

/// The calls of an entry, each with its answer.
pub open spec fn pairs_in(entries: Seq<Entry>, e: Entry) -> Seq<PairView> {
    calls_in(e).map_values(
        |c: ToolCall|
            PairView { entry_id: e.id, call: c, result: answer_from(entries, c.id@, 0) },
    )
}

/// The calls of the first `n` entries, each with its answer among all entries.
pub open spec fn pairs_of(entries: Seq<Entry>, n: int) -> Seq<PairView>
    decreases n,
{
    if n <= 0 {
        Seq::empty()
    } else {
        pairs_of(entries, n - 1) + pairs_in(entries, entries[n - 1])
    }
}

fn find_answer(entries: &Vec<Entry>, call_id: &str) -> (r: Option<ToolResultInfo>)
    ensures
        r == answer_from(entries@, call_id@, 0),
{
    let mut i: usize = 0;
    while i < entries.len()
        invariant
            i <= entries.len(),
            answer_from(entries@, call_id@, 0) == answer_from(entries@, call_id@, i as int),
        decreases entries.len() - i,
    {
        if let Message::Tool { tool_call_id, content, .. } = &entries[i].message {
            if text::same(tool_call_id.as_str(), call_id) {
                return Some(
                    ToolResultInfo {
                        entry_id: entries[i].id,
                        tool_call_id: tool_call_id.clone(),
                        content: content.clone(),
                    },
                );
            }
        }
        i = i + 1;
    }
    None
}

fn add_calls<'a>(
    entries: &'a Vec<Entry>,
    e: &'a Entry,
    calls: &'a Vec<ToolCall>,
    pairs: &mut Vec<ToolCallPair<'a>>,
)
    requires
        calls_in(*e) == calls@,
    ensures
        pair_views(final(pairs)@) == pair_views(old(pairs)@) + pairs_in(entries@, *e),
{
    let ghost want = pairs_in(entries@, *e);
    let ghost start = pair_views(pairs@);
    let mut k: usize = 0;
    assert(start =~= start + want.take(0));
    while k < calls.len()
        invariant
            k <= calls.len(),
            calls_in(*e) == calls@,
            want == pairs_in(entries@, *e),
            pair_views(pairs@) == start + want.take(k as int),
        decreases calls.len() - k,
    {
        let c = &calls[k];
        let pair = ToolCallPair {
            entry_id: e.id,
            call: c,
            result: find_answer(entries, c.id.as_str()),
        };
        assert(pair@ == want[k as int]);
        let ghost before = pairs@;
        pairs.push(pair);
        assert(pair_views(pairs@) =~= pair_views(before).push(pair@));
        assert(want.take(k as int + 1) =~= want.take(k as int).push(pair@));
        assert(pair_views(pairs@) =~= start + want.take(k as int + 1));
        k = k + 1;
    }
    assert(want.take(k as int) =~= want);
}

/// All calls of tools in their order, each with the first answer to it.
pub fn list_tool_calls<'a>(entries: &'a Vec<Entry>) -> (pairs: Vec<ToolCallPair<'a>>)
    ensures
        pair_views(pairs@) == pairs_of(entries@, entries@.len() as int),
{
    let mut pairs: Vec<ToolCallPair<'a>> = Vec::new();
    let mut i: usize = 0;
    assert(pair_views(pairs@) =~= Seq::empty());
    while i < entries.len()
        invariant
            i <= entries.len(),
            pair_views(pairs@) == pairs_of(entries@, i as int),
        decreases entries.len() - i,
    {
        let e = &entries[i];
        let ghost before = pair_views(pairs@);
        match &e.message {
            Message::Assistant { tool_calls: Some(calls), .. } => {
                add_calls(entries, e, calls, &mut pairs);
            },
            _ => {
                assert(pairs_in(entries@, *e) =~= Seq::empty());
                assert(before + Seq::<PairView>::empty() =~= before);
            },
        }
        i = i + 1;
    }
    pairs
}

// ---------------------------------------------------------------------------
// Laws
// ---------------------------------------------------------------------------

/// With nothing asked for in particular, all entries are listed.
pub proof fn everything_is_listed(entries: Seq<Entry>, params: ListEntriesParams)
    requires
        params.role is None,
        params.since_id is None,
    ensures
        listed(entries, params) == entries,
    decreases entries.len(),
{
    if entries.len() > 0 {
        everything_is_listed(entries.drop_last(), params);
        assert(entries.drop_last().push(entries.last()) =~= entries);
    }
}

/// What is listed is exactly what is asked for.
pub proof fn listed_is_what_is_asked_for(entries: Seq<Entry>, params: ListEntriesParams, e: Entry)
    ensures
        listed(entries, params).contains(e) <==> entries.contains(e) && is_asked_for(e, params),
    decreases entries.len(),
{
    if entries.len() > 0 {
        let init = entries.drop_last();
        let before = listed(init, params);
        let after = listed(entries, params);
        listed_is_what_is_asked_for(init, params, e);
        if after.contains(e) {
            let k = choose|k: int| 0 <= k < after.len() && after[k] == e;
            if k < before.len() {
                assert(before[k] == e);
                assert(before.contains(e));
                let j = choose|j: int| 0 <= j < init.len() && init[j] == e;
                assert(entries[j] == e);
            } else {
                assert(entries[entries.len() - 1] == e);
            }
        }
        if entries.contains(e) && is_asked_for(e, params) {
            let k = choose|k: int| 0 <= k < entries.len() && entries[k] == e;
            if k < init.len() {
                assert(init[k] == e);
                assert(init.contains(e));
                let j = choose|j: int| 0 <= j < before.len() && before[j] == e;
                assert(after[j] == e);
            } else {
                assert(after[before.len() as int] == e);
            }
        }
    }
}

/// A call is answered exactly where some tool's entry names it, and the answer is the first one.
pub proof fn first_answer_counts(entries: Seq<Entry>, call_id: Seq<char>, i: int)
    requires
        0 <= i,
    ensures
        match answer_from(entries, call_id, i) {
            Some(a) => exists|k: int|
                i <= k < entries.len() && answer_in(#[trigger] entries[k], call_id) == Some(a) && (
                forall|m: int| i <= m < k ==> answer_in(#[trigger] entries[m], call_id) is None),
            None => forall|k: int|
                i <= k < entries.len() ==> answer_in(#[trigger] entries[k], call_id) is None,
        },
    decreases entries.len() - i,
{
    if i < entries.len() && answer_in(entries[i], call_id) is None {
        first_answer_counts(entries, call_id, i + 1);
        if let Some(a) = answer_from(entries, call_id, i + 1) {
            let k = choose|k: int|
                i + 1 <= k < entries.len() && answer_in(#[trigger] entries[k], call_id) == Some(a)
                    && (forall|m: int|
                    i + 1 <= m < k ==> answer_in(#[trigger] entries[m], call_id) is None);
            assert(answer_in(entries[k], call_id) == Some(a));
        }
    }
}

// ---------------------------------------------------------------------------
// What holds of tool calls
// ---------------------------------------------------------------------------

/// What a pair is: the entry that makes the call, the call, and its result.
pub proof fn a_pair_is_its_parts(p: ToolCallPair<'_>)
    ensures
        p@.entry_id == p.entry_id,
        p@.call == *p.call,
        p@.result == p.result,
{
}

/// Every call of every entry is listed, once and in order: the calls of an entry stand behind those
/// of the entries before it, each with the entry's id and with the first result that names it.
pub proof fn every_call_is_listed(entries: Seq<Entry>, i: int, n: int)
    requires
        0 <= i < n <= entries.len(),
    ensures
        pairs_of(entries, 0).len() == 0,
        pairs_of(entries, i + 1).len() <= pairs_of(entries, n).len(),
        match entries[i].message {
            Message::Assistant { tool_calls: Some(calls), .. } => {
                let at = pairs_of(entries, i).len();
                &&& pairs_of(entries, i + 1).len() == at + calls@.len()
                &&& forall|k: int|
                    0 <= k < calls@.len() ==> {
                        let p = #[trigger] pairs_of(entries, n)[at + k];
                        &&& p.entry_id == entries[i].id
                        &&& p.call == calls@[k]
                        &&& is_result_of(entries, calls@[k].id@, p.result)
                    }
            },
            _ => pairs_of(entries, i + 1).len() == pairs_of(entries, i).len(),
        },
    decreases n - i,
{
    pairs_go_on(entries, i + 1, n);
    let at = pairs_of(entries, i).len();
    if let Message::Assistant { tool_calls: Some(calls), .. } = entries[i].message {
        assert forall|k: int| 0 <= k < calls@.len() implies {
            let p = #[trigger] pairs_of(entries, n)[at + k];
            &&& p.entry_id == entries[i].id
            &&& p.call == calls@[k]
            &&& is_result_of(entries, calls@[k].id@, p.result)
        } by {
            assert(pairs_of(entries, n)[at + k] == pairs_of(entries, i + 1)[at + k]);
            assert(pairs_of(entries, i + 1)[at + k] == pairs_in(entries, entries[i])[k]);
            result_is_the_first(entries, calls@[k].id@);
        }
    }
}

/// The result of a call among the entries: of those that answer it the first, and none where none
/// does.
pub open spec fn is_result_of(
    entries: Seq<Entry>,
    call_id: Seq<char>,
    result: Option<ToolResultInfo>,
) -> bool {
    match result {
        Some(r) => exists|m: int|
            0 <= m < entries.len() && (#[trigger] entries[m]).id == r.entry_id && r.tool_call_id@
                == call_id && (entries[m].message matches Message::Tool {
                tool_call_id,
                content,
                ..
            } && tool_call_id == r.tool_call_id && content == r.content) && forall|j: int|
                0 <= j < m ==> !answers_call(#[trigger] entries[j], call_id),
        None => forall|j: int|
            0 <= j < entries.len() ==> !answers_call(#[trigger] entries[j], call_id),
    }
}

/// An entry is the answer to a call.
pub open spec fn answers_call(e: Entry, call_id: Seq<char>) -> bool {
    e.message matches Message::Tool { tool_call_id, .. } && tool_call_id@ == call_id
}

/// The first entry that answers a call gives its result.
pub proof fn result_is_the_first(entries: Seq<Entry>, call_id: Seq<char>)
    ensures
        is_result_of(entries, call_id, answer_from(entries, call_id, 0)),
{
    first_answer_counts(entries, call_id, 0);
    if let Some(r) = answer_from(entries, call_id, 0) {
        let m = choose|k: int|
            0 <= k < entries.len() && answer_in(#[trigger] entries[k], call_id) == Some(r) && (
            forall|j: int| 0 <= j < k ==> answer_in(#[trigger] entries[j], call_id) is None);
        assert(entries[m].id == r.entry_id);
        assert forall|j: int| 0 <= j < m implies !answers_call(
            #[trigger] entries[j],
            call_id,
        ) by {
            assert(answer_in(entries[j], call_id) is None);
        }
    } else {
        assert forall|j: int| 0 <= j < entries.len() implies !answers_call(
            #[trigger] entries[j],
            call_id,
        ) by {
            assert(answer_in(entries[j], call_id) is None);
        }
    }
}

proof fn pairs_go_on(entries: Seq<Entry>, m: int, n: int)
    requires
        0 <= m <= n <= entries.len(),
    ensures
        pairs_of(entries, m).is_prefix_of(pairs_of(entries, n)),
    decreases n - m,
{
    if m < n {
        pairs_go_on(entries, m, n - 1);
    }
}

/// Entries are listed part by part, in their order: one is listed where it has the role that is asked
/// for, if any is, and an id behind the one given, if any is.
pub proof fn listed_entries_add_up(
    a: Seq<Entry>,
    b: Seq<Entry>,
    x: Entry,
    params: ListEntriesParams,
)
    ensures
        listed(a + b, params) == listed(a, params) + listed(b, params),
        listed(seq![x], params) == (if (params.role matches Some(role) ==> role@ == (match x.message {
            Message::System { .. } => "system"@,
            Message::User { .. } => "user"@,
            Message::Assistant { .. } => "assistant"@,
            Message::Tool { .. } => "tool"@,
        })) && (params.since_id matches Some(since) ==> x.id > since) {
            seq![x]
        } else {
            Seq::empty()
        }),
    decreases b.len(),
{
    let one = seq![x];
    assert(one.drop_last() =~= Seq::<Entry>::empty());
    reveal_with_fuel(listed, 2);
    assert(listed(one, params) =~= (if (params.role matches Some(role) ==> role@ == (match x.message {
            Message::System { .. } => "system"@,
            Message::User { .. } => "user"@,
            Message::Assistant { .. } => "assistant"@,
            Message::Tool { .. } => "tool"@,
        })) && (params.since_id matches Some(since) ==> x.id > since) {
            seq![x]
        } else {
            Seq::empty()
        }));
    if b.len() == 0 {
        assert(a + b =~= a);
        assert(listed(a, params) + listed(b, params) =~= listed(a, params));
    } else {
        assert((a + b).drop_last() =~= a + b.drop_last());
        assert((a + b).last() == b.last());
        listed_entries_add_up(a, b.drop_last(), x, params);
        assert(listed(a + b, params) =~= listed(a, params) + listed(b, params));
    }
}

/// The entry that is looked up is the first with the id; where none has it, none is found.
pub proof fn looked_up_entry_is_the_first(entries: Seq<Entry>, id: usize, i: int)
    requires
        0 <= i,
    ensures
        match first_with_id(entries, id, i) {
            Some(k) => i <= k < entries.len() && entries[k].id == id && forall|j: int|
                i <= j < k ==> (#[trigger] entries[j]).id != id,
            None => forall|j: int| i <= j < entries.len() ==> (#[trigger] entries[j]).id != id,
        },
    decreases entries.len() - i,
{
    if i < entries.len() && entries[i].id != id {
        looked_up_entry_is_the_first(entries, id, i + 1);
    }
}

} // verus!
