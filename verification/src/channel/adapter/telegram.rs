//! Telegram: what the model is told about it, what is sent to it, and how sent messages are
//! noted down.

use vstd::prelude::*;
use crate::channel::adapter::markup;
use crate::channel::adapter::markup::{
    Document, MessageElement, MessageView, Node, NodeView, ReactionElement, ReactionView,
};
use crate::channel::adapter::parser;
use crate::channel::adapter::parser::{Segment, SegmentView};
use crate::channel::adapter::rereading;
use crate::channel::adapter::round_trip;
use crate::conversation::{Entry, EntryOrigin, Message};
use crate::markdown;
use crate::text;
use vstd::string::*;

verus! {

/// What the model is told about the channel.
pub const TELEGRAM_PROMPT: &'static str = "## Telegram\n\nThe user talks to you through Telegram. Messages arrive as <telegram-message> elements, reactions as <telegram-reaction> elements. Only what you put into a <telegram-message from=\"assistant\" to=\"user\"> element is sent.";

/// The reactions that a chat allows where it names none of its own.
pub const DEFAULT_REACTIONS: [&'static str; 73] = [
    "👍",
    "👎",
    "❤",
    "🔥",
    "🥰",
    "👏",
    "😁",
    "🤔",
    "🤯",
    "😱",
    "🤬",
    "😢",
    "🎉",
    "🤩",
    "🤮",
    "💩",
    "🙏",
    "👌",
    "🕊",
    "🤡",
    "🥱",
    "🥴",
    "😍",
    "🐳",
    "❤\u{200d}🔥",
    "🌚",
    "🌭",
    "💯",
    "🤣",
    "⚡",
    "🍌",
    "🏆",
    "💔",
    "🤨",
    "😐",
    "🍓",
    "🍾",
    "💋",
    "🖕",
    "😈",
    "😴",
    "😭",
    "🤓",
    "👻",
    "👨\u{200d}💻",
    "👀",
    "🎃",
    "🙈",
    "😇",
    "😨",
    "🤝",
    "✍",
    "🤗",
    "🫡",
    "🎅",
    "🎄",
    "☃",
    "💅",
    "🤪",
    "🗿",
    "🆒",
    "💘",
    "🙉",
    "🦄",
    "😘",
    "💊",
    "🙊",
    "😎",
    "👾",
    "🤷\u{200d}♂",
    "🤷",
    "🤷\u{200d}♀",
    "😡",
];

pub const REACTIONS_HEAD: &'static str = "## Reactions\n\nAvailable reaction emojis: ";

pub const REACTIONS_GUIDE: &'static str = "\n\nGuidelines:\n- Use reactions sparingly to acknowledge messages or express genuine sentiment.\n- Do not react to every message. Reserve reactions for moments where they add warmth or clarity.\n- Prefer simple, universally understood emojis (👍 ❤ 🔥 🎉 😁) over niche ones.\n- Never use reactions as a substitute for a text response when the user expects information.\n- Avoid 🖕 and other potentially offensive emojis unless the user explicitly sets a casual tone.\n- Do not use emojis outside this list — they will be rejected by Telegram.";

/// What the model is told about the channel.
pub fn channel_prompt() -> (r: &'static str)
    ensures
        r@ == TELEGRAM_PROMPT@,
{
    TELEGRAM_PROMPT
}

/// The section about reactions: the emojis with spaces between them, and the guidelines.
pub open spec fn reaction_section(emojis: Seq<String>) -> Seq<char> {
    REACTIONS_HEAD@ + text::join(text::views(emojis), " "@) + REACTIONS_GUIDE@
}

/// Writes the section about reactions.
pub fn format_reaction_section(emojis: &Vec<String>) -> (r: String)
    ensures
        r@ == reaction_section(emojis@),
{
    let list = text::joined(emojis, " ");
    text::concat3(REACTIONS_HEAD, list.as_str(), REACTIONS_GUIDE)
}

/// A reaction that a chat allows.
#[derive(Debug, Clone, PartialEq, Eq)]
pub enum AllowedReaction {
    Emoji(String),
    Other,
}

/// The emojis among the reactions, in order.
pub open spec fn emojis_of(reactions: Seq<AllowedReaction>) -> Seq<Seq<char>>
    decreases reactions.len(),
{
    if reactions.len() == 0 {
        Seq::empty()
    } else {
        match reactions.last() {
            AllowedReaction::Emoji(e) => emojis_of(reactions.drop_last()).push(e@),
            AllowedReaction::Other => emojis_of(reactions.drop_last()),
        }
    }
}

/// The default reactions as a list of texts.
pub open spec fn default_emojis() -> Seq<Seq<char>> {
    DEFAULT_REACTIONS@.map_values(|s: &'static str| s@)
}

/// The emojis to offer: those among the reactions that the chat names, or the default ones where
/// it names none or could not be asked.
pub fn available_reactions(named: &Option<Vec<AllowedReaction>>) -> (emojis: Vec<String>)
    ensures
        text::views(emojis@) == (match *named {
            Some(reactions) => emojis_of(reactions@),
            None => default_emojis(),
        }),
{
    let mut emojis: Vec<String> = Vec::new();
    let mut i: usize = 0;
    match named {
        Some(reactions) => {
            assert(text::views(emojis@) =~= Seq::empty());
            while i < reactions.len()
                invariant
                    i <= reactions.len(),
                    text::views(emojis@) == emojis_of(reactions@.take(i as int)),
                decreases reactions.len() - i,
            {
                assert(reactions@.take(i as int + 1).drop_last() =~= reactions@.take(i as int));
                if let AllowedReaction::Emoji(e) = &reactions[i] {
                    let ghost before = emojis@;
                    emojis.push(e.clone());
                    assert(text::views(emojis@) =~= text::views(before).push(e@));
                }
                i = i + 1;
            }
            assert(reactions@.take(i as int) =~= reactions@);
        },
        None => {
            assert(text::views(emojis@) =~= default_emojis().take(0));
            while i < DEFAULT_REACTIONS.len()
                invariant
                    i <= DEFAULT_REACTIONS@.len(),
                    text::views(emojis@) == default_emojis().take(i as int),
                decreases DEFAULT_REACTIONS@.len() - i,
            {
                let ghost before = emojis@;
                let emoji: String = DEFAULT_REACTIONS[i].to_string();
                emojis.push(emoji);
                assert(text::views(emojis@) =~= text::views(before).push(emoji@));
                assert(default_emojis().take(i as int + 1) =~= default_emojis().take(
                    i as int,
                ).push(emoji@));
                i = i + 1;
            }
            assert(default_emojis().take(i as int) =~= default_emojis());
        },
    }
    emojis
}

/// The emojis of the first list that are not in the second, in their order.
pub open spec fn missing_from(emojis: Seq<Seq<char>>, others: Seq<Seq<char>>) -> Seq<Seq<char>>
    decreases emojis.len(),
{
    if emojis.len() == 0 {
        Seq::empty()
    } else if others.contains(emojis.last()) {
        missing_from(emojis.drop_last(), others)
    } else {
        missing_from(emojis.drop_last(), others).push(emojis.last())
    }
}

/// A user's change of a reaction, as an element.
pub open spec fn reaction_change(
    action: Seq<char>,
    emoji: Seq<char>,
    message_id: int,
    date: Seq<char>,
) -> NodeView {
    NodeView::Reaction(
        ReactionView {
            from: "user"@,
            action,
            emoji,
            message_id: text::decimal_int(message_id),
            date: Some(date),
        },
    )
}

/// The elements for a number of emojis.
pub open spec fn reaction_changes_of(
    action: Seq<char>,
    emojis: Seq<Seq<char>>,
    message_id: int,
    date: Seq<char>,
) -> Seq<NodeView> {
    emojis.map_values(|e: Seq<char>| reaction_change(action, e, message_id, date))
}

fn add_changes(
    nodes: &mut Vec<Node>,
    action: &str,
    emojis: &Vec<String>,
    others: &Vec<String>,
    message_id: i32,
    date: &str,
)
    ensures
        markup::node_views(final(nodes)@) == markup::node_views(old(nodes)@) + reaction_changes_of(
            action@,
            missing_from(text::views(emojis@), text::views(others@)),
            message_id as int,
            date@,
        ),
{
    let ghost all = text::views(emojis@);
    let ghost known = text::views(others@);
    let ghost start = markup::node_views(nodes@);
    let mut i: usize = 0;
    assert(all.take(0) =~= Seq::empty());
    assert(start =~= start + reaction_changes_of(
        action@,
        Seq::<Seq<char>>::empty(),
        message_id as int,
        date@,
    ));
    while i < emojis.len()
        invariant
            i <= emojis.len(),
            all == text::views(emojis@),
            known == text::views(others@),
            markup::node_views(nodes@) == start + reaction_changes_of(
                action@,
                missing_from(all.take(i as int), known),
                message_id as int,
                date@,
            ),
        decreases emojis.len() - i,
    {
        let ghost before = missing_from(all.take(i as int), known);
        assert(all.take(i as int + 1).drop_last() =~= all.take(i as int));
        assert(all.take(i as int + 1).last() == emojis@[i as int]@);
        if !text::is_among(emojis[i].as_str(), others) {
            let node = Node::Reaction(
                ReactionElement {
                    from: "user".to_string(),
                    action: action.to_string(),
                    emoji: emojis[i].clone(),
                    message_id: text::decimal_int_string(message_id as i64),
                    date: Some(date.to_string()),
                },
            );
            let ghost view = node@;
            let ghost list = nodes@;
            nodes.push(node);
            assert(markup::node_views(nodes@) =~= markup::node_views(list).push(view));
            let ghost after = before.push(emojis@[i as int]@);
            assert(reaction_changes_of(action@, after, message_id as int, date@)
                =~= reaction_changes_of(action@, before, message_id as int, date@).push(view));
            assert(markup::node_views(nodes@) =~= start + reaction_changes_of(
                action@,
                after,
                message_id as int,
                date@,
            ));
        }
        i = i + 1;
    }
    assert(all.take(i as int) =~= all);
}

/// What a user changed in the reactions to a message: those that are gone, and then those that are
/// new.
pub fn reaction_changes(
    before: &Vec<String>,
    after: &Vec<String>,
    message_id: i32,
    date: &str,
) -> (nodes: Vec<Node>)
    ensures
        markup::node_views(nodes@) == reaction_changes_of(
            "unset"@,
            missing_from(text::views(before@), text::views(after@)),
            message_id as int,
            date@,
        ) + reaction_changes_of(
            "set"@,
            missing_from(text::views(after@), text::views(before@)),
            message_id as int,
            date@,
        ),
{
    let mut nodes: Vec<Node> = Vec::new();
    assert(markup::node_views(nodes@) =~= Seq::empty());
    add_changes(&mut nodes, "unset", before, after, message_id, date);
    assert(markup::node_views(nodes@) =~= reaction_changes_of(
        "unset"@,
        missing_from(text::views(before@), text::views(after@)),
        message_id as int,
        date@,
    ));
    add_changes(&mut nodes, "set", after, before, message_id, date);
    nodes
}

// ---------------------------------------------------------------------------
// Noting down the ids of sent messages
// ---------------------------------------------------------------------------

/// A message from the assistant to the user.
pub open spec fn is_reply(n: NodeView) -> bool {
    n matches NodeView::Message(m) && m.from == "assistant"@ && m.to == "user"@
}

/// The first message from the assistant to the user, from node `i` on.
pub open spec fn reply_from(doc: Seq<NodeView>, i: int) -> Option<int>
    decreases doc.len() - i,
{
    if i < 0 || i >= doc.len() {
        None
    } else if is_reply(doc[i]) {
        Some(i)
    } else {
        reply_from(doc, i + 1)
    }
}

/// The message with an id.
pub open spec fn with_id(m: MessageView, id: int) -> MessageView {
    MessageView { id: Some(text::decimal_int(id)), ..m }
}

/// The whole text as one message from the assistant to the user.
pub open spec fn wrapped(t: Seq<char>, id: int) -> MessageView {
    MessageView {
        from: "assistant"@,
        to: "user"@,
        id: Some(text::decimal_int(id)),
        date: None,
        content: t,
    }
}

/// The text after a message that it holds was sent under an id: the first message from the
/// assistant to the user carries the id, unless it has one, and a text without such a message is
/// wrapped into one.
pub open spec fn noted(t: Seq<char>, id: int) -> Seq<char> {
    let doc = markup::document(t);
    match reply_from(doc, 0) {
        Some(k) => {
            let m = doc[k]->Message_0;
            if m.id is Some {
                t
            } else {
                markup::document_text(doc.update(k, NodeView::Message(with_id(m, id))))
            }
        },
        None => markup::message_text(wrapped(t, id)),
    }
}

proof fn reply_bounds(doc: Seq<NodeView>, i: int)
    requires
        0 <= i,
    ensures
        reply_from(doc, i) matches Some(k) ==> i <= k < doc.len() && is_reply(doc[k]) && (forall|
            j: int,
        |
            i <= j < k ==> !is_reply(#[trigger] doc[j])),
    decreases doc.len() - i,
{
    if i < doc.len() && !is_reply(doc[i]) {
        reply_bounds(doc, i + 1);
    }
}

proof fn reply_is(doc: Seq<NodeView>, i: int, k: int)
    requires
        0 <= i <= k < doc.len(),
        is_reply(doc[k]),
        forall|j: int| i <= j < k ==> !is_reply(#[trigger] doc[j]),
    ensures
        reply_from(doc, i) == Some(k),
    decreases k - i,
{
    if i < k {
        reply_is(doc, i + 1, k);
    }
}

fn find_reply(nodes: &Vec<Node>) -> (r: Option<usize>)
    ensures
        match r {
            Some(k) => reply_from(markup::node_views(nodes@), 0) == Some(k as int) && k
                < nodes.len() && nodes@[k as int] is Message,
            None => reply_from(markup::node_views(nodes@), 0) is None,
        },
{
    let ghost doc = markup::node_views(nodes@);
    let mut i: usize = 0;
    while i < nodes.len()
        invariant
            i <= nodes.len(),
            doc == markup::node_views(nodes@),
            reply_from(doc, 0) == reply_from(doc, i as int),
        decreases nodes.len() - i,
    {
        assert(doc[i as int] == nodes@[i as int]@);
        if let Node::Message(m) = &nodes[i] {
            if text::same(m.from.as_str(), "assistant") && text::same(m.to.as_str(), "user") {
                return Some(i);
            }
        }
        i = i + 1;
    }
    None
}

/// Notes down the id under which a message of the text was sent.
pub fn inject_assistant_message_id(input: &mut String, msg_id: i32)
    ensures
        final(input)@ == noted(old(input)@, msg_id as int),
{
    let id = text::decimal_int_string(msg_id as i64);
    let mut doc = markup::parse(input.as_str());
    match find_reply(&doc.nodes) {
        Some(k) => {
            let ghost before = doc.nodes@;
            let new_node = match &doc.nodes[k] {
                Node::Message(m) => {
                    if m.id.is_some() {
                        return;
                    }
                    Node::Message(
                        MessageElement {
                            from: m.from.clone(),
                            to: m.to.clone(),
                            id: Some(id),
                            date: m.date.clone(),
                            content: m.content.clone(),
                        },
                    )
                },
                _ => {
                    return;
                },
            };
            let ghost view = new_node@;
            doc.nodes.set(k, new_node);
            assert(markup::node_views(doc.nodes@) =~= markup::node_views(before).update(
                k as int,
                view,
            ));
            assert(markup::node_views(before)[k as int] == before[k as int]@);
            *input = markup::serialize(&doc);
        },
        None => {
            let m = Node::Message(
                MessageElement {
                    from: "assistant".to_string(),
                    to: "user".to_string(),
                    id: Some(id),
                    date: None,
                    content: input.clone(),
                },
            );
            *input = markup::serialize_node(&m);
        },
    }
}

proof fn decimal_is_clean(n: nat)
    ensures
        round_trip::lacks(text::decimal(n), '"'),
        round_trip::lacks(text::decimal(n), '>'),
    decreases n,
{
    if n >= 10 {
        decimal_is_clean(n / 10);
        let d = text::decimal(n);
        assert forall|i: int| 0 <= i < d.len() implies #[trigger] d[i] != '"' && d[i] != '>' by {
            if i < d.len() - 1 {
                assert(d[i] == text::decimal(n / 10)[i]);
            }
        }
    }
}

proof fn decimal_int_is_clean(n: int)
    ensures
        round_trip::lacks(text::decimal_int(n), '"'),
        round_trip::lacks(text::decimal_int(n), '>'),
{
    if n < 0 {
        decimal_is_clean((-n) as nat);
        let d = text::decimal_int(n);
        assert forall|i: int| 0 <= i < d.len() implies #[trigger] d[i] != '"' && d[i] != '>' by {
            if i > 0 {
                assert(d[i] == text::decimal((-n) as nat)[i - 1]);
            }
        }
    } else {
        decimal_is_clean(n as nat);
    }
}

/// The document of a text after the id of its first reply, which has none, was noted down.
pub open spec fn noted_document(t: Seq<char>, id: int) -> Seq<NodeView> {
    let doc = markup::document(t);
    match reply_from(doc, 0) {
        Some(k) => doc.update(k, NodeView::Message(with_id(doc[k]->Message_0, id))),
        None => doc,
    }
}

/// The texts before the first reply are still texts when the id is noted down and the document is
/// written anew.
pub open spec fn texts_before_reply_stay(t: Seq<char>, id: int) -> bool {
    reply_from(markup::document(t), 0) matches Some(k) ==> rereading::texts_stay(
        noted_document(t, id),
        k,
    )
}

/// The texts before the first reply leave no tag open.
pub open spec fn calm_before_reply(t: Seq<char>) -> bool {
    reply_from(markup::document(t), 0) matches Some(k) ==> rereading::texts_are_calm(
        markup::document(t),
        k,
    )
}

/// A wrapped text reads as a document whose first node is a reply that has an id.
proof fn wrapped_starts_with_reply(t: Seq<char>, id: int)
    ensures
        ({
            let doc = markup::document(markup::message_text(wrapped(t, id)));
            &&& doc.len() > 0
            &&& is_reply(doc[0])
            &&& doc[0]->Message_0.id is Some
        }),
{
    let m = wrapped(t, id);
    let w = markup::message_text(m);
    let none = Seq::<char>::empty();
    let end = "</telegram-message>"@;
    decimal_int_is_clean(id);
    assert(round_trip::message_tag_writable(m)) by {
        reveal_strlit("assistant");
        reveal_strlit("user");
    }
    let open = markup::message_open_text(m);
    round_trip::message_tag_read(m);
    round_trip::message_pairs_lookup(m);
    round_trip::message_open_lacks_close(m);
    let rest = t + end;
    round_trip::message_open_is_found(none, m, rest);
    assert(none + open + seq!['>'] + rest =~= w);
    let c = open.len() as int;
    assert(w.subrange(0, c) =~= open);
    text::find_is_first(w, end, c + 1);
    let e = c + 1 + t.len();
    assert(w.subrange(e, e + end.len()) =~= end);
    assert(text::has_at(w, end, e));
    assert(markup::message_at(w, 0) is Some);
    assert(w[0] == open[0]);
    markup::element_at_bounds(w, 0);
    assert(w.subrange(0, 0) =~= none);
    let (n, after) = markup::element_at(w, 0)->0;
    let doc = markup::document(w);
    assert(doc == markup::text_nodes(none) + seq![n] + markup::nodes_from(w, after, after));
    assert(doc[0] == n);
}

/// A reply that was read can be written with an id.
proof fn reply_with_id_is_writable(t: Seq<char>, k: int, id: int)
    requires
        0 <= k < markup::document(t).len(),
        markup::document(t)[k] is Message,
    ensures
        round_trip::node_writable(
            NodeView::Message(with_id(markup::document(t)[k]->Message_0, id)),
        ),
{
    round_trip::documents_are_well_read(t, 0, 0);
    decimal_int_is_clean(id);
    assert(round_trip::node_writable(markup::document(t)[k]));
}

/// Noting down an id a second time changes nothing: the first id stays. Left out is a text before
/// the reply that becomes an element when the document is written anew: it leaves a tag open,
/// which then ends in the reply.
pub proof fn noting_twice_is_noting_once(t: Seq<char>, first: int, second: int)
    requires
        texts_before_reply_stay(t, first),
    ensures
        noted(noted(t, first), second) == noted(t, first),
{
    let doc = markup::document(t);
    reply_bounds(doc, 0);
    match reply_from(doc, 0) {
        None => {
            wrapped_starts_with_reply(t, first);
        },
        Some(k) => {
            let m = doc[k]->Message_0;
            if m.id is None {
                let new_node = NodeView::Message(with_id(m, first));
                let new_doc = doc.update(k, new_node);
                let head = new_doc.take(k + 1);
                let r = noted(t, first);
                reply_with_id_is_writable(t, k, first);
                round_trip::documents_are_well_read(t, 0, 0);
                assert(round_trip::well_read(head)) by {
                    assert forall|i: int| 0 <= i < head.len() implies (match #[trigger] head[i] {
                        NodeView::Text(x) => x.len() > 0,
                        n => round_trip::node_writable(n),
                    }) by {
                        if i < k {
                            assert(head[i] == doc[i]);
                        }
                    }
                    assert forall|i: int, j: int|
                        0 <= i && j == i + 1 && j < head.len() implies !(#[trigger] head[i] is Text
                        && #[trigger] head[j] is Text) by {
                        assert(head[i] == doc[i]);
                        if j < k {
                            assert(head[j] == doc[j]);
                        }
                    }
                }
                rereading::staying_texts_are_read_back(new_doc, k, 0);
                assert(new_doc.take(0) =~= Seq::<NodeView>::empty());
                let again = markup::document(r);
                let n = rereading::offset(new_doc, k + 1);
                assert(again == new_doc.subrange(0, k + 1) + markup::nodes_from(r, n, n));
                assert forall|j: int| 0 <= j < k implies !is_reply(#[trigger] again[j]) by {
                    assert(again[j] == doc[j]);
                }
                assert(again[k] == new_node);
                reply_is(again, 0, k);
            }
        },
    }
}

/// Noting down an id a second time changes nothing where no text before the reply leaves a tag
/// open.
pub proof fn noting_twice_after_calm_text(t: Seq<char>, first: int, second: int)
    requires
        calm_before_reply(t),
    ensures
        noted(noted(t, first), second) == noted(t, first),
{
    let doc = markup::document(t);
    reply_bounds(doc, 0);
    if let Some(k) = reply_from(doc, 0) {
        reply_with_id_is_writable(t, k, first);
        rereading::calm_texts_stay(
            t,
            k,
            NodeView::Message(with_id(doc[k]->Message_0, first)),
        );
    }
    noting_twice_is_noting_once(t, first, second);
}

/// Noting down an id a second time changes nothing where at most one tag starts in the text.
pub proof fn noting_twice_with_one_tag(t: Seq<char>, first: int, second: int)
    requires
        rereading::one_tag(t),
    ensures
        noted(noted(t, first), second) == noted(t, first),
{
    let doc = markup::document(t);
    reply_bounds(doc, 0);
    if let Some(k) = reply_from(doc, 0) {
        rereading::one_tag_leaves_texts_calm(t, k);
    }
    noting_twice_after_calm_text(t, first, second);
}

// ---------------------------------------------------------------------------
// Sending
// ---------------------------------------------------------------------------

/// A message to send: formatted first, and plain where the formatted one is rejected.
#[derive(Debug, Clone, PartialEq, Eq)]
pub struct OutboundMessage {
    pub chat_id: i64,
    pub formatted: String,
    pub plain: String,
    pub reply_to: Option<i32>,
}

/// The contents of the replies among the segments, in order.
pub open spec fn replies(segments: Seq<SegmentView>) -> Seq<Seq<char>>
    decreases segments.len(),
{
    if segments.len() == 0 {
        Seq::empty()
    } else {
        match segments.last() {
            SegmentView::TelegramMessage { content } => replies(segments.drop_last()).push(content),
            _ => replies(segments.drop_last()),
        }
    }
}

/// A message to send says this.
pub open spec fn sends(
    m: OutboundMessage,
    chat_id: i64,
    content: Seq<char>,
    reply_to: Option<i32>,
) -> bool {
    &&& m.chat_id == chat_id
    &&& m.plain@ == content
    &&& m.formatted@ == markdown::telegram::formatted(content)
    &&& m.reply_to == reply_to
}

/// The id of the message to reply to, as Telegram counts them.
pub open spec fn reply_id(id: Option<i64>) -> Option<i32> {
    match id {
        Some(n) => Some(n as i32),
        None => None,
    }
}

/// What to send for an entry. Only what the assistant says goes out, only where the metadata
/// names a chat, and of it only the replies, in order.
pub fn plan_outbound(
    origin: &EntryOrigin,
    chat_id: Option<i64>,
    message_id: Option<i64>,
    content: &str,
) -> (plan: Vec<OutboundMessage>)
    ensures
        (*origin is Assistant && chat_id is Some) ==> {
            let contents = replies(parser::model_segments(content@));
            &&& plan@.len() == contents.len()
            &&& forall|i: int|
                0 <= i < plan@.len() ==> sends(
                    #[trigger] plan@[i],
                    chat_id->0,
                    contents[i],
                    reply_id(message_id),
                )
        },
        !(*origin is Assistant && chat_id is Some) ==> plan@.len() == 0,
{
    let mut plan: Vec<OutboundMessage> = Vec::new();
    if let EntryOrigin::Assistant = origin {
        if let Some(chat) = chat_id {
            let reply_to: Option<i32> = match message_id {
                Some(n) => Some(#[verifier::truncate] (n as i32)),
                None => None,
            };
            let segments = parser::parse_model_output(content);
            let ghost all = parser::segment_views(segments@);
            let mut i: usize = 0;
            while i < segments.len()
                invariant
                    i <= segments.len(),
                    all == parser::segment_views(segments@),
                    reply_to == reply_id(message_id),
                    plan@.len() == replies(all.take(i as int)).len(),
                    forall|k: int|
                        0 <= k < plan@.len() ==> sends(
                            #[trigger] plan@[k],
                            chat,
                            replies(all.take(i as int))[k],
                            reply_to,
                        ),
                decreases segments.len() - i,
            {
                assert(all.take(i as int + 1).drop_last() =~= all.take(i as int));
                assert(all.take(i as int + 1).last() == segments@[i as int]@);
                if let Segment::TelegramMessage { content: reply } = &segments[i] {
                    let formatted = markdown::telegram::format(reply.as_str());
                    plan.push(
                        OutboundMessage {
                            chat_id: chat,
                            formatted,
                            plain: reply.clone(),
                            reply_to,
                        },
                    );
                }
                i = i + 1;
            }
            assert(all.take(i as int) =~= all);
        }
    }
    plan
}

/// The message with the id under which a reply of it was sent.
pub open spec fn notes(before: Message, after: Message, id: int) -> bool {
    match (before, after) {
        (
            Message::Assistant { content: Some(t), reasoning_content: r, tool_calls: c, partial: p },
            Message::Assistant { content: Some(u), reasoning_content: s, tool_calls: d, partial: q },
        ) => u@ == noted(t@, id) && s == r && d == c && q == p,
        (Message::Assistant { content: Some(_), .. }, _) => false,
        (b, a) => a == b,
    }
}

fn note_sent(message: &mut Message, id: i32)
    ensures
        notes(*old(message), *final(message), id as int),
{
    if let Message::Assistant { content: Some(text), .. } = message {
        inject_assistant_message_id(text, id);
    }
}

/// The sending of a number of messages, one after the other, each formatted first and plain where
/// the formatted one is rejected.
#[derive(Debug, Clone)]
pub struct OutboundRun {
    plan: Vec<OutboundMessage>,
    at: usize,
    plain: bool,
}

/// Which message is to be sent, and whether as plain text.
pub struct SendState {
    pub at: int,
    pub plain: bool,
}

/// What is sent after a message was sent, or rejected.
pub open spec fn send_after(s: SendState, sent: bool) -> SendState {
    if !sent && !s.plain {
        SendState { at: s.at, plain: true }
    } else {
        SendState { at: s.at + 1, plain: false }
    }
}

impl OutboundRun {
    /// All messages, in order.
    pub closed spec fn messages(&self) -> Seq<OutboundMessage> {
        self.plan@
    }

    /// What is to be sent.
    pub closed spec fn state(&self) -> SendState {
        SendState { at: self.at as int, plain: self.plain }
    }

    pub fn new(plan: Vec<OutboundMessage>) -> (r: Self)
        ensures
            r.messages() == plan@,
            r.state() == (SendState { at: 0, plain: false }),
    {
        OutboundRun { plan, at: 0, plain: false }
    }

    /// The message to send, and whether as plain text; `None` where all were sent.
    pub fn next(&self) -> (r: Option<(&OutboundMessage, bool)>)
        ensures
            match r {
                Some((m, plain)) => self.state().at < self.messages().len() && *m
                    == self.messages()[self.state().at] && plain == self.state().plain,
                None => self.state().at >= self.messages().len(),
            },
    {
        if self.at < self.plan.len() {
            Some((&self.plan[self.at], self.plain))
        } else {
            None
        }
    }

    /// Goes on after a message was sent under an id, or was rejected. The id is noted in the entry
    /// that the reply belongs to. Where all were sent, nothing changes.
    pub fn advance(&mut self, sent: Option<i32>, message: &mut Message)
        ensures
            final(self).messages() == old(self).messages(),
            if old(self).state().at < old(self).messages().len() {
                &&& final(self).state() == send_after(old(self).state(), sent is Some)
                &&& match sent {
                    Some(id) => notes(*old(message), *final(message), id as int),
                    None => *final(message) == *old(message),
                }
            } else {
                &&& final(self).state() == old(self).state()
                &&& *final(message) == *old(message)
            },
    {
        if self.at >= self.plan.len() {
            return;
        }
        if let Some(id) = sent {
            note_sent(message, id);
        }
        if sent.is_none() && !self.plain {
            self.plain = true;
        } else {
            self.at = self.at + 1;
            self.plain = false;
        }
    }
}

/// What is sent after a number of tries.
pub open spec fn sent_through(s: SendState, tries: Seq<bool>) -> SendState
    decreases tries.len(),
{
    if tries.len() == 0 {
        s
    } else {
        send_after(sent_through(s, tries.drop_last()), tries.last())
    }
}

/// Every message gets its turn: after twice as many tries as there are messages, the last one is
/// done, whatever was rejected. Only what was rejected once is sent as plain text.
pub proof fn every_message_gets_its_turn(tries: Seq<bool>)
    ensures
        ({
            let s = sent_through(SendState { at: 0, plain: false }, tries);
            &&& tries.len() <= 2 * s.at + (if s.plain {
                1int
            } else {
                0int
            })
            &&& s.at <= tries.len()
            &&& s.plain ==> tries.len() > 0 && !tries.last()
        }),
    decreases tries.len(),
{
    if tries.len() > 0 {
        every_message_gets_its_turn(tries.drop_last());
    }
}

// ---------------------------------------------------------------------------
// Where a conversation came from
// ---------------------------------------------------------------------------

/// The entries seen so far, at most one for each id.
#[derive(Debug, Clone)]
pub struct EntryCache {
    entries: Vec<Entry>,
}

/// The entry with an id.
pub open spec fn entry_with(entries: Seq<Entry>, id: usize) -> Option<Entry>
    decreases entries.len(),
{
    if entries.len() == 0 {
        None
    } else if entries.last().id == id {
        Some(entries.last())
    } else {
        entry_with(entries.drop_last(), id)
    }
}

/// Going from parent to parent comes to an end after at most `n` steps.
pub open spec fn climbs(entries: Seq<Entry>, e: Entry, n: nat) -> bool
    decreases n,
{
    match e.parent_id {
        None => true,
        Some(p) => match entry_with(entries, p) {
            None => true,
            Some(parent) => n > 0 && climbs(entries, parent, (n - 1) as nat),
        },
    }
}

/// The entry without a parent that `e` goes back to; `None` where a parent is not known.
pub open spec fn root_of(entries: Seq<Entry>, e: Entry, n: nat) -> Option<Entry>
    decreases n,
{
    match e.parent_id {
        None => Some(e),
        Some(p) => match entry_with(entries, p) {
            None => None,
            Some(parent) => if n == 0 {
                None
            } else {
                root_of(entries, parent, (n - 1) as nat)
            },
        },
    }
}

/// The chat and the message that a root entry came from, where it came from Telegram.
pub open spec fn telegram_source(root: Option<Entry>) -> (Option<i64>, Option<i32>) {
    match root {
        Some(e) => match (e.origin, e.channel_metadata) {
            (EntryOrigin::User { channel }, Some(meta)) => if channel@ == "telegram"@ {
                (meta.chat_id, reply_id(meta.message_id))
            } else {
                (None, None)
            },
            _ => (None, None),
        },
        None => (None, None),
    }
}

proof fn root_is_stable(entries: Seq<Entry>, e: Entry, n: nat, m: nat)
    requires
        climbs(entries, e, n),
        climbs(entries, e, m),
    ensures
        root_of(entries, e, n) == root_of(entries, e, m),
    decreases n,
{
    if let Some(p) = e.parent_id {
        if let Some(parent) = entry_with(entries, p) {
            root_is_stable(entries, parent, (n - 1) as nat, (m - 1) as nat);
        }
    }
}

proof fn replaced_entry(entries: Seq<Entry>, i: int, e: Entry, id: usize)
    requires
        0 <= i < entries.len(),
        entries[i].id == e.id,
        forall|k: int, j: int|
            0 <= k < j < entries.len() ==> (#[trigger] entries[k]).id != (#[trigger] entries[j]).id,
    ensures
        entry_with(entries.update(i, e), id) == (if id == e.id {
            Some(e)
        } else {
            entry_with(entries, id)
        }),
    decreases entries.len(),
{
    let n = entries.len() - 1;
    let init = entries.drop_last();
    if i == n {
        assert(entries.update(i, e).drop_last() =~= init);
    } else {
        assert(entries.update(i, e).drop_last() =~= init.update(i, e));
        assert(entries.update(i, e).last() == entries.last());
        assert(entries[i].id != entries[n].id);
        replaced_entry(init, i, e, id);
    }
}

impl EntryCache {
    /// The entries, in the order in which their ids were first seen.
    pub closed spec fn list(&self) -> Seq<Entry> {
        self.entries@
    }

    /// No id occurs twice.
    pub open spec fn valid(&self) -> bool {
        forall|k: int, j: int|
            0 <= k < j < self.list().len() ==> (#[trigger] self.list()[k]).id != (
            #[trigger] self.list()[j]).id
    }

    pub fn new() -> (cache: Self)
        ensures
            cache.valid(),
            cache.list() == Seq::<Entry>::empty(),
    {
        EntryCache { entries: Vec::new() }
    }

    /// Notes an entry down, in place of an earlier one with its id.
    pub fn insert(&mut self, entry: Entry)
        requires
            old(self).valid(),
        ensures
            final(self).valid(),
            forall|id: usize| #[trigger]
                entry_with(final(self).list(), id) == (if id == entry.id {
                    Some(entry)
                } else {
                    entry_with(old(self).list(), id)
                }),
    {
        let ghost before = self.entries@;
        let mut i: usize = 0;
        while i < self.entries.len()
            invariant
                i <= self.entries.len(),
                self.entries@ == before,
                old(self).valid(),
                before == old(self).list(),
                forall|k: int| 0 <= k < i ==> (#[trigger] before[k]).id != entry.id,
            decreases self.entries.len() - i,
        {
            if self.entries[i].id == entry.id {
                self.entries.set(i, entry);
                proof {
                    assert forall|id: usize| #[trigger]
                        entry_with(self.entries@, id) == (if id == entry.id {
                            Some(entry)
                        } else {
                            entry_with(before, id)
                        }) by {
                        replaced_entry(before, i as int, entry, id);
                    }
                }
                return;
            }
            i = i + 1;
        }
        self.entries.push(entry);
        assert(self.entries@.drop_last() =~= before);
    }

    fn get(&self, id: usize) -> (r: Option<&Entry>)
        ensures
            match r {
                Some(e) => entry_with(self.list(), id) == Some(*e),
                None => entry_with(self.list(), id) is None,
            },
    {
        let ghost all = self.entries@;
        let mut i: usize = self.entries.len();
        assert(all.take(i as int) =~= all);
        while i > 0
            invariant
                i <= self.entries.len(),
                all == self.entries@,
                entry_with(all, id) == entry_with(all.take(i as int), id),
            decreases i,
        {
            assert(all.take(i as int).drop_last() =~= all.take(i - 1));
            if self.entries[i - 1].id == id {
                return Some(&self.entries[i - 1]);
            }
            i = i - 1;
        }
        None
    }

    /// Whether going from parent to parent comes to an end within a number of steps.
    pub fn climbs_within(&self, entry: &Entry, steps: usize) -> (r: bool)
        ensures
            r == climbs(self.list(), *entry, steps as nat),
    {
        let mut current: &Entry = entry;
        let mut left: usize = steps;
        loop
            invariant
                climbs(self.list(), *entry, steps as nat) == climbs(
                    self.list(),
                    *current,
                    left as nat,
                ),
            decreases left,
        {
            match current.parent_id {
                Some(parent_id) => match self.get(parent_id) {
                    Some(parent) => {
                        if left == 0 {
                            return false;
                        }
                        current = parent;
                        left = left - 1;
                    },
                    None => {
                        return true;
                    },
                },
                None => {
                    return true;
                },
            }
        }
    }

    /// How many entries are known.
    pub fn len(&self) -> (r: usize)
        ensures
            r == self.list().len(),
    {
        self.entries.len()
    }

    /// The chat and the message that an entry goes back to. Its parents lead somewhere: a circle
    /// of parents has no root.
    pub fn find_telegram_context(&self, entry: &Entry) -> (r: (Option<i64>, Option<i32>))
        requires
            exists|n: nat| climbs(self.list(), *entry, n),
        ensures
            forall|n: nat| #[trigger]
                climbs(self.list(), *entry, n) ==> r == telegram_source(
                    root_of(self.list(), *entry, n),
                ),
    {
        let ghost n0 = choose|n: nat| climbs(self.list(), *entry, n);
        let ghost root = root_of(self.list(), *entry, n0);
        proof {
            assert forall|n: nat| #[trigger] climbs(self.list(), *entry, n) implies root_of(
                self.list(),
                *entry,
                n,
            ) == root by {
                root_is_stable(self.list(), *entry, n, n0);
            }
        }
        let ghost mut n = n0;
        let mut current: &Entry = entry;
        loop
            invariant
                climbs(self.list(), *current, n),
                root_of(self.list(), *current, n) == root,
                forall|n: nat| #[trigger]
                    climbs(self.list(), *entry, n) ==> root_of(self.list(), *entry, n) == root,
            decreases n,
        {
            match current.parent_id {
                Some(parent_id) => {
                    match self.get(parent_id) {
                        Some(parent) => {
                            current = parent;
                            proof {
                                n = (n - 1) as nat;
                            }
                        },
                        None => {
                            return (None, None);
                        },
                    }
                },
                None => {
                    return match (&current.origin, &current.channel_metadata) {
                        (EntryOrigin::User { channel }, Some(meta)) => {
                            if text::same(channel.as_str(), "telegram") {
                                let id: Option<i32> = match meta.message_id {
                                    Some(v) => Some(#[verifier::truncate] (v as i32)),
                                    None => None,
                                };
                                (meta.chat_id, id)
                            } else {
                                (None, None)
                            }
                        },
                        _ => (None, None),
                    };
                },
            }
        }
    }
}

// ---------------------------------------------------------------------------
// What holds of plans and contexts
// ---------------------------------------------------------------------------

/// Replies are found part by part: what is said before or behind a part changes nothing of the
/// replies in it, and the replies come in the order of the parts.
pub proof fn replies_add_up(a: Seq<SegmentView>, b: Seq<SegmentView>)
    ensures
        replies(a + b) == replies(a) + replies(b),
    decreases b.len(),
{
    if b.len() == 0 {
        assert(a + b =~= a);
        assert(replies(a) + replies(b) =~= replies(a));
    } else {
        assert((a + b).drop_last() =~= a + b.drop_last());
        assert((a + b).last() == b.last());
        replies_add_up(a, b.drop_last());
        assert(replies(a + b) =~= replies(a) + replies(b));
    }
}

/// A message to the user alone is one reply, its content; a segment of another kind is none.
pub proof fn a_message_is_a_reply(s: SegmentView)
    ensures
        replies(seq![s]) == (match s {
            SegmentView::TelegramMessage { content } => seq![content],
            _ => Seq::empty(),
        }),
{
    let one = seq![s];
    assert(one.drop_last() =~= Seq::<SegmentView>::empty());
    reveal_with_fuel(replies, 2);
    match s {
        SegmentView::TelegramMessage { content } => {
            assert(replies(one) =~= seq![content]);
        },
        _ => {},
    }
}

/// There are as many replies as there are messages to the user among the segments, and the reply to
/// each is its content: the message at `k` is the reply that has as many before it as there are
/// messages before `k`.
pub proof fn every_message_is_a_reply(segments: Seq<SegmentView>, k: int)
    requires
        0 <= k < segments.len(),
    ensures
        replies(segments).len() == segments.filter(
            |s: SegmentView| s is TelegramMessage,
        ).len(),
        segments[k] matches SegmentView::TelegramMessage { content } ==> {
            let before = segments.take(k).filter(|s: SegmentView| s is TelegramMessage).len();
            before < replies(segments).len() && replies(segments)[before as int] == content
        },
{
    let is_message = |s: SegmentView| s is TelegramMessage;
    replies_are_counted(segments);
    replies_are_counted(segments.take(k));
    if let SegmentView::TelegramMessage { content } = segments[k] {
        let front = segments.take(k);
        let one = seq![segments[k]];
        let back = segments.skip(k + 1);
        assert(segments =~= front + (one + back));
        replies_add_up(front, one + back);
        replies_add_up(one, back);
        a_message_is_a_reply(segments[k]);
        assert(replies(segments)[replies(front).len() as int] == content);
    }
}

proof fn replies_are_counted(segments: Seq<SegmentView>)
    ensures
        replies(segments).len() == segments.filter(
            |s: SegmentView| s is TelegramMessage,
        ).len(),
    decreases segments.len(),
{
    reveal(Seq::filter);
    if segments.len() > 0 {
        replies_are_counted(segments.drop_last());
    }
}

/// What is known under an id has that id and is among the entries; under an id that none of them
/// has, nothing is known.
pub proof fn an_entry_is_known_by_its_id(entries: Seq<Entry>, id: usize)
    ensures
        entry_with(entries, id) matches Some(e) ==> e.id == id && entries.contains(e),
        entry_with(entries, id) is None ==> forall|k: int|
            0 <= k < entries.len() ==> (#[trigger] entries[k]).id != id,
    decreases entries.len(),
{
    if entries.len() > 0 {
        let init = entries.drop_last();
        an_entry_is_known_by_its_id(init, id);
        assert(entries[entries.len() - 1] == entries.last());
        if entries.last().id != id {
            if let Some(e) = entry_with(init, id) {
                let k = choose|k: int| 0 <= k < init.len() && init[k] == e;
                assert(entries[k] == e);
            } else {
                assert forall|k: int| 0 <= k < entries.len() implies (#[trigger] entries[k]).id
                    != id by {
                    if k < init.len() {
                        assert(init[k] == entries[k]);
                    }
                }
            }
        }
    }
}

/// An entry that has no parent goes back to itself.
pub proof fn a_root_is_its_own(entries: Seq<Entry>, e: Entry, n: nat)
    requires
        e.parent_id is None,
    ensures
        climbs(entries, e, n),
        root_of(entries, e, n) == Some(e),
{
}

/// An entry goes back to what its parent goes back to, in one step more.
pub proof fn an_entry_goes_back_with_its_parent(
    entries: Seq<Entry>,
    e: Entry,
    parent: Entry,
    n: nat,
)
    requires
        e.parent_id matches Some(p) && entry_with(entries, p) == Some(parent),
    ensures
        climbs(entries, e, n + 1) == climbs(entries, parent, n),
        root_of(entries, e, n + 1) == root_of(entries, parent, n),
        telegram_source(root_of(entries, e, n + 1)) == telegram_source(
            root_of(entries, parent, n),
        ),
{
}

/// A chain of entries, each the parent of the one before it.
pub open spec fn is_chain(entries: Seq<Entry>, chain: Seq<Entry>) -> bool {
    forall|i: int|
        0 <= i < chain.len() - 1 ==> is_parent(entries, #[trigger] chain[i], chain[i + 1])
}

/// An entry is known under the id that another gives as its parent's.
pub open spec fn is_parent(entries: Seq<Entry>, e: Entry, parent: Entry) -> bool {
    e.parent_id matches Some(p) && entry_with(entries, p) == Some(parent)
}

/// The reply to a message from Telegram goes to its chat, however many entries lie between: the
/// last of the chain of parents, which has none itself, tells the chat and the message.
pub proof fn a_chain_leads_to_its_end(entries: Seq<Entry>, chain: Seq<Entry>)
    requires
        chain.len() > 0,
        is_chain(entries, chain),
        chain.last().parent_id is None,
    ensures
        climbs(entries, chain[0], (chain.len() - 1) as nat),
        root_of(entries, chain[0], (chain.len() - 1) as nat) == Some(chain.last()),
        telegram_source(root_of(entries, chain[0], (chain.len() - 1) as nat)) == (match (
            chain.last().origin,
            chain.last().channel_metadata,
        ) {
            (EntryOrigin::User { channel }, Some(meta)) => if channel@ == "telegram"@ {
                (
                    meta.chat_id,
                    match meta.message_id {
                        Some(id) => Some(id as i32),
                        None => None,
                    },
                )
            } else {
                (None, None)
            },
            _ => (None, None),
        }),
    decreases chain.len(),
{
    if chain.len() > 1 {
        let rest = chain.drop_first();
        assert forall|i: int| 0 <= i < rest.len() - 1 implies is_parent(
            entries,
            #[trigger] rest[i],
            rest[i + 1],
        ) by {
            assert(rest[i] == chain[i + 1]);
            assert(rest[i + 1] == chain[i + 2]);
        }
        assert(rest.last() == chain.last());
        assert(is_parent(entries, chain[0], chain[1]));
        assert(rest[0] == chain[1]);
        a_chain_leads_to_its_end(entries, rest);
    }
}

/// Where an entry goes back to one, that one has no parent.
pub proof fn the_end_has_no_parent(entries: Seq<Entry>, e: Entry, n: nat)
    ensures
        root_of(entries, e, n) matches Some(r) ==> r.parent_id is None && (r == e || exists|p: usize|
            #[trigger] entry_with(entries, p) == Some(r)),
        climbs(entries, e, n) && root_of(entries, e, n) is None ==> e.parent_id is Some,
    decreases n,
{
    if let Some(p) = e.parent_id {
        if let Some(parent) = entry_with(entries, p) {
            if n > 0 {
                the_end_has_no_parent(entries, parent, (n - 1) as nat);
            }
        }
    }
}

/// The emojis among reactions are found part by part: an emoji is itself, another reaction is none.
pub proof fn emojis_add_up(a: Seq<AllowedReaction>, b: Seq<AllowedReaction>, r: AllowedReaction)
    ensures
        emojis_of(a + b) == emojis_of(a) + emojis_of(b),
        emojis_of(seq![r]) == (match r {
            AllowedReaction::Emoji(e) => seq![e@],
            AllowedReaction::Other => Seq::empty(),
        }),
    decreases b.len(),
{
    let one = seq![r];
    assert(one.drop_last() =~= Seq::<AllowedReaction>::empty());
    reveal_with_fuel(emojis_of, 2);
    if let AllowedReaction::Emoji(e) = r {
        assert(emojis_of(one) =~= seq![e@]);
    }
    if b.len() == 0 {
        assert(a + b =~= a);
        assert(emojis_of(a) + emojis_of(b) =~= emojis_of(a));
    } else {
        assert((a + b).drop_last() =~= a + b.drop_last());
        assert((a + b).last() == b.last());
        emojis_add_up(a, b.drop_last(), r);
        assert(emojis_of(a + b) =~= emojis_of(a) + emojis_of(b));
    }
}

/// The section about reactions lists every emoji, in order, with a blank between two.
pub proof fn section_lists_every_emoji(a: Seq<String>, b: Seq<String>)
    requires
        a.len() > 0,
        b.len() > 0,
    ensures
        reaction_section(a + b) == REACTIONS_HEAD@ + text::join(text::views(a), " "@) + " "@
            + text::join(text::views(b), " "@) + REACTIONS_GUIDE@,
{
    assert(text::views(a + b) =~= text::views(a) + text::views(b));
    text::joins_add_up(text::views(a), text::views(b), " "@);
    assert(reaction_section(a + b) =~= REACTIONS_HEAD@ + text::join(text::views(a), " "@) + " "@
        + text::join(text::views(b), " "@) + REACTIONS_GUIDE@);
}

/// An emoji of the first list is told exactly where it is not in the second, in the order of the
/// first.
pub proof fn missing_emojis_add_up(
    a: Seq<Seq<char>>,
    b: Seq<Seq<char>>,
    e: Seq<char>,
    others: Seq<Seq<char>>,
)
    ensures
        missing_from(a + b, others) == missing_from(a, others) + missing_from(b, others),
        missing_from(seq![e], others) == (if others.contains(e) {
            Seq::empty()
        } else {
            seq![e]
        }),
    decreases b.len(),
{
    let one = seq![e];
    assert(one.drop_last() =~= Seq::<Seq<char>>::empty());
    reveal_with_fuel(missing_from, 2);
    assert(missing_from(one, others) =~= (if others.contains(e) {
        Seq::empty()
    } else {
        seq![e]
    }));
    if b.len() == 0 {
        assert(a + b =~= a);
        assert(missing_from(a, others) + missing_from(b, others) =~= missing_from(a, others));
    } else {
        assert((a + b).drop_last() =~= a + b.drop_last());
        assert((a + b).last() == b.last());
        missing_emojis_add_up(a, b.drop_last(), e, others);
        assert(missing_from(a + b, others) =~= missing_from(a, others) + missing_from(b, others));
    }
}

/// An element for each emoji, with the action, the message and the time.
pub proof fn every_change_has_its_element(
    action: Seq<char>,
    emojis: Seq<Seq<char>>,
    message_id: int,
    date: Seq<char>,
    k: int,
)
    requires
        0 <= k < emojis.len(),
    ensures
        reaction_changes_of(action, emojis, message_id, date).len() == emojis.len(),
        reaction_changes_of(action, emojis, message_id, date)[k] matches NodeView::Reaction(r)
            && r.from == "user"@ && r.action == action && r.emoji == emojis[k] && r.date == Some(
            date,
        ) && text::integer_value(r.message_id) == Some(message_id),
{
    text::whole_number_is_read_back(message_id);
}

/// The first message of the assistant to the user in a document is the one that is noted.
pub proof fn first_reply_is_the_first(doc: Seq<NodeView>, i: int)
    requires
        0 <= i,
    ensures
        match reply_from(doc, i) {
            Some(k) => i <= k < doc.len() && (doc[k] matches NodeView::Message(m) && m.from
                == "assistant"@ && m.to == "user"@) && forall|j: int|
                i <= j < k ==> !is_reply(#[trigger] doc[j]),
            None => forall|j: int| i <= j < doc.len() ==> !is_reply(#[trigger] doc[j]),
        },
        forall|j: int|
            is_reply(#[trigger] doc[j]) <==> (doc[j] matches NodeView::Message(m) && m.from
                == "assistant"@ && m.to == "user"@),
    decreases doc.len() - i,
{
    if i < doc.len() && !is_reply(doc[i]) {
        first_reply_is_the_first(doc, i + 1);
    }
}

/// Noting the id of a sent message: a reply that has an id already changes nothing; a first reply
/// without one gets the id, and the document is otherwise written as it was read; a text without a
/// reply becomes one, with the whole text in it.
pub proof fn noting_touches_the_first_reply_alone(t: Seq<char>, id: int)
    ensures
        ({
            let doc = markup::document(t);
            &&& (forall|j: int| 0 <= j < doc.len() ==> !is_reply(#[trigger] doc[j])) ==> noted(t, id)
                == "<telegram-message from=\"assistant\" to=\"user\" id=\""@ + text::decimal_int(id)
                + "\">"@ + t + "</telegram-message>"@
            &&& forall|k: int|
                0 <= k < doc.len() && is_reply(#[trigger] doc[k]) && (forall|j: int|
                    0 <= j < k ==> !is_reply(#[trigger] doc[j])) ==> {
                    let m = doc[k]->Message_0;
                    &&& m.id is Some ==> noted(t, id) == t
                    &&& m.id is None ==> noted(t, id) == markup::document_text(doc.take(k))
                        + markup::message_text(
                        MessageView {
                            from: m.from,
                            to: m.to,
                            id: Some(text::decimal_int(id)),
                            date: m.date,
                            content: m.content,
                        },
                    ) + markup::document_text(doc.skip(k + 1))
                }
        }),
{
    let doc = markup::document(t);
    first_reply_is_the_first(doc, 0);
    if reply_from(doc, 0) is None {
        reveal_strlit("<telegram-message from=\"assistant\" to=\"user\" id=\"");
        reveal_strlit("<telegram-message");
        reveal_strlit("from");
        reveal_strlit("to");
        reveal_strlit("id");
        reveal_strlit("assistant");
        reveal_strlit("user");
        reveal_strlit("\">");
        assert(noted(t, id) =~= "<telegram-message from=\"assistant\" to=\"user\" id=\""@
            + text::decimal_int(id) + "\">"@ + t + "</telegram-message>"@);
    }
    assert forall|k: int|
        0 <= k < doc.len() && is_reply(#[trigger] doc[k]) && (forall|j: int|
            0 <= j < k ==> !is_reply(#[trigger] doc[j])) implies {
        let m = doc[k]->Message_0;
        &&& m.id is Some ==> noted(t, id) == t
        &&& m.id is None ==> noted(t, id) == markup::document_text(doc.take(k))
            + markup::message_text(
            MessageView {
                from: m.from,
                to: m.to,
                id: Some(text::decimal_int(id)),
                date: m.date,
                content: m.content,
            },
        ) + markup::document_text(doc.skip(k + 1))
    } by {
        assert(reply_from(doc, 0) == Some(k));
        let m = doc[k]->Message_0;
        if m.id is None {
            let n = NodeView::Message(with_id(m, id));
            let after = doc.update(k, n);
            assert(after =~= doc.take(k) + (seq![n] + doc.skip(k + 1)));
            markup::written_parts_add_up(doc.take(k), seq![n] + doc.skip(k + 1), n);
            markup::written_parts_add_up(seq![n], doc.skip(k + 1), n);
            assert(noted(t, id) =~= markup::document_text(doc.take(k)) + markup::message_text(
                with_id(m, id),
            ) + markup::document_text(doc.skip(k + 1)));
        }
    }
}

/// A message is tried with its formatting first, and plain exactly where that fails; whatever
/// becomes of the plain try, the next message follows.
pub proof fn a_failed_try_is_repeated_plain(s: SendState, sent: bool)
    ensures
        !s.plain && !sent ==> send_after(s, sent).at == s.at && send_after(s, sent).plain,
        s.plain || sent ==> send_after(s, sent).at == s.at + 1 && !send_after(s, sent).plain,
{
}

/// A planned message goes to the chat, answers the message, and says the content, formatted and
/// plain.
pub proof fn planned_message_is_the_reply(
    m: OutboundMessage,
    chat_id: i64,
    content: Seq<char>,
    reply_to: Option<i32>,
)
    ensures
        sends(m, chat_id, content, reply_to) <==> m.chat_id == chat_id && m.plain@ == content
            && m.formatted@ == markdown::telegram::formatted(content) && m.reply_to == reply_to,
{
}

/// When the id of a message that was sent is noted, nothing else of the answer changes; and what is
/// no answer is left alone.
pub proof fn noting_changes_the_text_alone(before: Message, after: Message, id: int)
    requires
        notes(before, after, id),
    ensures
        match before {
            Message::Assistant { content: Some(t), reasoning_content, tool_calls, partial } => {
                after matches Message::Assistant {
                    content: Some(u),
                    reasoning_content: s,
                    tool_calls: d,
                    partial: q,
                } && s == reasoning_content && d == tool_calls && q == partial && u@ == noted(t@, id)
            },
            _ => after == before,
        },
{
}

} // verus!
