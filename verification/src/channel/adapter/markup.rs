//! The markup dialect in which Telegram messages and reactions are written into a
//! conversation, with a reader that treats code spans as opaque text.

use vstd::prelude::*;
use crate::text;
use vstd::string::*;

verus! {

/// A parsed text: elements and the plain text between them, in order.
#[derive(Debug, Clone, PartialEq)]
pub struct Document {
    pub nodes: Vec<Node>,
}

/// One piece of a document.
#[derive(Debug, Clone, PartialEq)]
pub enum Node {
    Message(MessageElement),
    Reaction(ReactionElement),
    Text(String),
}

/// A `<telegram-message ...>content</telegram-message>` element.
#[derive(Debug, Clone, PartialEq)]
pub struct MessageElement {
    pub from: String,
    pub to: String,
    pub id: Option<String>,
    pub date: Option<String>,
    pub content: String,
}

/// A `<telegram-reaction ... />` element.
#[derive(Debug, Clone, PartialEq)]
pub struct ReactionElement {
    pub from: String,
    pub action: String,
    pub emoji: String,
    pub message_id: String,
    pub date: Option<String>,
}

/// What a message element says.
#[verifier::ext_equal]
pub struct MessageView {
    pub from: Seq<char>,
    pub to: Seq<char>,
    pub id: Option<Seq<char>>,
    pub date: Option<Seq<char>>,
    pub content: Seq<char>,
}

/// What a reaction element says.
#[verifier::ext_equal]
pub struct ReactionView {
    pub from: Seq<char>,
    pub action: Seq<char>,
    pub emoji: Seq<char>,
    pub message_id: Seq<char>,
    pub date: Option<Seq<char>>,
}

/// What a node says.
#[verifier::ext_equal]
pub enum NodeView {
    Message(MessageView),
    Reaction(ReactionView),
    Text(Seq<char>),
}

impl View for MessageElement {
    type V = MessageView;

    open spec fn view(&self) -> MessageView {
        MessageView {
            from: self.from@,
            to: self.to@,
            id: text::opt_view(self.id),
            date: text::opt_view(self.date),
            content: self.content@,
        }
    }
}

impl View for ReactionElement {
    type V = ReactionView;

    open spec fn view(&self) -> ReactionView {
        ReactionView {
            from: self.from@,
            action: self.action@,
            emoji: self.emoji@,
            message_id: self.message_id@,
            date: text::opt_view(self.date),
        }
    }
}

impl View for Node {
    type V = NodeView;

    open spec fn view(&self) -> NodeView {
        match self {
            Node::Message(m) => NodeView::Message(m@),
            Node::Reaction(r) => NodeView::Reaction(r@),
            Node::Text(t) => NodeView::Text(t@),
        }
    }
}

/// What a list of nodes says.
pub open spec fn node_views(nodes: Seq<Node>) -> Seq<NodeView> {
    nodes.map_values(|n: Node| n@)
}

impl View for Document {
    type V = Seq<NodeView>;

    open spec fn view(&self) -> Seq<NodeView> {
        node_views(self.nodes@)
    }
}

// ---------------------------------------------------------------------------
// Attributes
// ---------------------------------------------------------------------------

/// The characters of an attribute's name: ASCII letters and digits, and the hyphen.
pub open spec fn name_char(c: char) -> bool {
    ('a' <= c && c <= 'z') || ('A' <= c && c <= 'Z') || ('0' <= c && c <= '9') || c == '-'
}

/// The first position at or after `i` that holds no name character, or the end.
pub open spec fn name_end(t: Seq<char>, i: int) -> int
    decreases t.len() - i,
{
    if 0 <= i < t.len() && name_char(t[i]) {
        name_end(t, i + 1)
    } else {
        i
    }
}

pub proof fn name_end_bounds(t: Seq<char>, i: int)
    requires
        0 <= i <= t.len(),
    ensures
        i <= name_end(t, i) <= t.len(),
        i < t.len() && name_char(t[i]) ==> i < name_end(t, i),
    decreases t.len() - i,
{
    if i < t.len() && name_char(t[i]) {
        name_end_bounds(t, i + 1);
    }
}

/// The `name="value"` pairs of a tag from position `i` on. What is no such pair is passed over;
/// a value without its closing quote ends the list.
pub open spec fn attrs_from(t: Seq<char>, i: int) -> Seq<(Seq<char>, Seq<char>)>
    decreases t.len() - i,
{
    if i < 0 || i >= t.len() {
        Seq::empty()
    } else if !name_char(t[i]) {
        attrs_from(t, i + 1)
    } else {
        let e = name_end(t, i);
        proof {
            name_end_bounds(t, i);
            text::find_is_first(t, seq!['"'], e + 2);
        }
        if e + 1 >= t.len() || t[e] != '=' || t[e + 1] != '"' {
            attrs_from(t, e)
        } else {
            match text::find_from(t, seq!['"'], e + 2) {
                None => Seq::empty(),
                Some(q) => seq![(t.subrange(i, e), t.subrange(e + 2, q))] + attrs_from(t, q + 1),
            }
        }
    }
}

/// The value of the first pair with that name.
pub open spec fn attr(attrs: Seq<(Seq<char>, Seq<char>)>, name: Seq<char>) -> Option<Seq<char>>
    decreases attrs.len(),
{
    if attrs.len() == 0 {
        None
    } else if attrs[0].0 == name {
        Some(attrs[0].1)
    } else {
        attr(attrs.drop_first(), name)
    }
}

/// What a list of pairs says.
pub open spec fn pair_views(attrs: Seq<(String, String)>) -> Seq<(Seq<char>, Seq<char>)> {
    attrs.map_values(|p: (String, String)| (p.0@, p.1@))
}

fn is_name_char(c: char) -> (r: bool)
    ensures
        r == name_char(c),
{
    (c >= 'a' && c <= 'z') || (c >= 'A' && c <= 'Z') || (c >= '0' && c <= '9') || c == '-'
}

fn parse_attributes(t: &Vec<char>) -> (attrs: Vec<(String, String)>)
    ensures
        pair_views(attrs@) == attrs_from(t@, 0),
{
    let mut attrs: Vec<(String, String)> = Vec::new();
    let mut quote: Vec<char> = Vec::new();
    quote.push('"');
    assert(quote@ =~= seq!['"']);
    let mut pos: usize = 0;
    assert(pair_views(attrs@) + attrs_from(t@, 0) =~= attrs_from(t@, 0));
    while pos < t.len()
        invariant
            pos <= t.len(),
            quote@ == seq!['"'],
            pair_views(attrs@) + attrs_from(t@, pos as int) == attrs_from(t@, 0),
        decreases t.len() - pos,
    {
        if !is_name_char(t[pos]) {
            pos = pos + 1;
            continue;
        }
        let mut e: usize = pos;
        while e < t.len() && is_name_char(t[e])
            invariant
                pos <= e <= t.len(),
                name_end(t@, pos as int) == name_end(t@, e as int),
            decreases t.len() - e,
        {
            e = e + 1;
        }
        proof {
            name_end_bounds(t@, pos as int);
        }
        if e >= t.len() || t.len() - e < 2 || t[e] != '=' || t[e + 1] != '"' {
            pos = e;
            continue;
        }
        match text::find(t, &quote, e + 2) {
            None => {
                assert(pair_views(attrs@) + attrs_from(t@, pos as int) =~= pair_views(attrs@));
                return attrs;
            },
            Some(q) => {
                let name = text::slice(t, pos, e);
                let value = text::slice(t, e + 2, q);
                let ghost before = attrs@;
                attrs.push((name, value));
                assert(pair_views(attrs@) =~= pair_views(before).push((name@, value@)));
                assert(pair_views(attrs@) + attrs_from(t@, q + 1) =~= pair_views(before)
                    + attrs_from(t@, pos as int));
                pos = q + 1;
            },
        }
    }
    assert(pair_views(attrs@) + attrs_from(t@, pos as int) =~= pair_views(attrs@));
    attrs
}

fn attr_value(attrs: &Vec<(String, String)>, name: &str) -> (r: Option<String>)
    ensures
        text::opt_view(r) == attr(pair_views(attrs@), name@),
{
    let mut i: usize = 0;
    assert(pair_views(attrs@).skip(0) =~= pair_views(attrs@));
    while i < attrs.len()
        invariant
            i <= attrs.len(),
            attr(pair_views(attrs@).skip(i as int), name@) == attr(pair_views(attrs@), name@),
        decreases attrs.len() - i,
    {
        assert(pair_views(attrs@).skip(i as int)[0] == (attrs@[i as int].0@, attrs@[i as int].1@));
        assert(pair_views(attrs@).skip(i as int).drop_first() =~= pair_views(attrs@).skip(
            i as int + 1,
        ));
        if text::same(attrs[i].0.as_str(), name) {
            return Some(attrs[i].1.clone());
        }
        i = i + 1;
    }
    None
}

// ---------------------------------------------------------------------------
// Reading
// ---------------------------------------------------------------------------

/// Where the code span that starts with the backtick at `i` ends. A fence runs from its opening
/// line to the next three backticks, inline code to the next backtick, either one to the end of
/// the text where nothing closes it.
pub open spec fn code_end(s: Seq<char>, i: int) -> int {
    if text::has_at(s, seq!['`', '`', '`'], i) {
        let line = match text::find_from(s, seq!['\n'], i + 3) {
            Some(j) => j,
            None => s.len() as int,
        };
        match text::find_from(s, seq!['`', '`', '`'], line) {
            Some(j) => j + 3,
            None => s.len() as int,
        }
    } else {
        match text::find_from(s, seq!['`'], i + 1) {
            Some(j) => j + 1,
            None => s.len() as int,
        }
    }
}

pub proof fn code_end_bounds(s: Seq<char>, i: int)
    requires
        0 <= i < s.len(),
    ensures
        i < code_end(s, i) <= s.len(),
{
    if text::has_at(s, seq!['`', '`', '`'], i) {
        text::find_is_first(s, seq!['\n'], i + 3);
        let line = match text::find_from(s, seq!['\n'], i + 3) {
            Some(j) => j,
            None => s.len() as int,
        };
        text::find_is_first(s, seq!['`', '`', '`'], line);
    } else {
        text::find_is_first(s, seq!['`'], i + 1);
    }
}

/// The message element whose opening tag starts at `i`, with the position after it. There is
/// none where the tag has no `>`, closes itself, lacks `from` or `to`, or is never closed.
pub open spec fn message_at(s: Seq<char>, i: int) -> Option<(MessageView, int)> {
    match text::find_from(s, seq!['>'], i) {
        None => None,
        Some(c) => {
            let tag = s.subrange(i, c);
            let attrs = attrs_from(tag, 0);
            if tag.len() > 0 && tag.last() == '/' {
                None
            } else {
                match text::find_from(s, "</telegram-message>"@, c + 1) {
                    None => None,
                    Some(e) => match (attr(attrs, "from"@), attr(attrs, "to"@)) {
                        (Some(from), Some(to)) => Some(
                            (
                                MessageView {
                                    from,
                                    to,
                                    id: attr(attrs, "id"@),
                                    date: attr(attrs, "date"@),
                                    content: s.subrange(c + 1, e),
                                },
                                e + "</telegram-message>"@.len(),
                            ),
                        ),
                        _ => None,
                    },
                }
            }
        },
    }
}

/// The reaction element that starts at `i`, with the position after it. There is none where the
/// tag has no `/>` or lacks one of its four required attributes.
pub open spec fn reaction_at(s: Seq<char>, i: int) -> Option<(ReactionView, int)> {
    match text::find_from(s, seq!['/', '>'], i) {
        None => None,
        Some(e) => {
            let attrs = attrs_from(s.subrange(i, e), 0);
            match (
                attr(attrs, "from"@),
                attr(attrs, "action"@),
                attr(attrs, "emoji"@),
                attr(attrs, "message-id"@),
            ) {
                (Some(from), Some(action), Some(emoji), Some(message_id)) => Some(
                    (
                        ReactionView { from, action, emoji, message_id, date: attr(attrs, "date"@) },
                        e + 2,
                    ),
                ),
                _ => None,
            }
        },
    }
}

/// The element that starts at `i`, with the position after it.
pub open spec fn element_at(s: Seq<char>, i: int) -> Option<(NodeView, int)> {
    if text::has_at(s, "<telegram-message "@, i) || text::has_at(s, "<telegram-message>"@, i) {
        match message_at(s, i) {
            Some((m, e)) => Some((NodeView::Message(m), e)),
            None => None,
        }
    } else if text::has_at(s, "<telegram-reaction "@, i) {
        match reaction_at(s, i) {
            Some((r, e)) => Some((NodeView::Reaction(r), e)),
            None => None,
        }
    } else {
        None
    }
}

pub proof fn element_at_bounds(s: Seq<char>, i: int)
    requires
        0 <= i < s.len(),
    ensures
        element_at(s, i) matches Some((n, e)) ==> i < e <= s.len(),
{
    text::find_is_first(s, seq!['>'], i);
    text::find_is_first(s, seq!['/', '>'], i);
    if let Some(c) = text::find_from(s, seq!['>'], i) {
        text::find_is_first(s, "</telegram-message>"@, c + 1);
    }
}

/// A text node for a text that is not empty.
pub open spec fn text_nodes(t: Seq<char>) -> Seq<NodeView> {
    if t.len() == 0 {
        Seq::empty()
    } else {
        seq![NodeView::Text(t)]
    }
}

/// The nodes of `s` from position `i` on, where the plain text since `start` is still open.
/// Code spans are plain text whatever they hold, and so is a tag that is no element.
pub open spec fn nodes_from(s: Seq<char>, start: int, i: int) -> Seq<NodeView>
    decreases s.len() - i,
{
    if i < 0 || i >= s.len() {
        text_nodes(s.subrange(start, s.len() as int))
    } else {
        proof {
            code_end_bounds(s, i);
            element_at_bounds(s, i);
        }
        if s[i] == '`' {
            nodes_from(s, start, code_end(s, i))
        } else {
            match element_at(s, i) {
                Some((n, e)) => text_nodes(s.subrange(start, i)) + seq![n] + nodes_from(s, e, e),
                None => nodes_from(s, start, i + 1),
            }
        }
    }
}

/// What a text says as a document.
pub open spec fn document(s: Seq<char>) -> Seq<NodeView> {
    nodes_from(s, 0, 0)
}

/// Where the code span that starts with the backtick at `i` ends.
pub(crate) fn skip_code(s: &Vec<char>, i: usize) -> (e: usize)
    requires
        i < s.len(),
    ensures
        e == code_end(s@, i as int),
        i < e <= s.len(),
{
    let mut tick: Vec<char> = Vec::new();
    tick.push('`');
    let mut fence: Vec<char> = Vec::new();
    fence.push('`');
    fence.push('`');
    fence.push('`');
    let mut newline: Vec<char> = Vec::new();
    newline.push('\n');
    assert(tick@ =~= seq!['`']);
    assert(fence@ =~= seq!['`', '`', '`']);
    assert(newline@ =~= seq!['\n']);
    proof {
        code_end_bounds(s@, i as int);
    }
    if text::occurs_at(s, &fence, i) {
        let line: usize = match text::find(s, &newline, i + 3) {
            Some(j) => j,
            None => s.len(),
        };
        match text::find(s, &fence, line) {
            Some(j) => j + 3,
            None => s.len(),
        }
    } else {
        match text::find(s, &tick, i + 1) {
            Some(j) => j + 1,
            None => s.len(),
        }
    }
}

fn parse_message_tag(s: &Vec<char>, i: usize) -> (r: Option<(MessageElement, usize)>)
    requires
        i < s.len(),
    ensures
        match r {
            Some((m, e)) => message_at(s@, i as int) == Some((m@, e as int)),
            None => message_at(s@, i as int) is None,
        },
{
    let mut close: Vec<char> = Vec::new();
    close.push('>');
    assert(close@ =~= seq!['>']);
    let c: usize = match text::find(s, &close, i) {
        Some(c) => c,
        None => {
            return None;
        },
    };
    let tag = text::to_chars(text::slice(s, i, c).as_str());
    if tag.len() > 0 && tag[tag.len() - 1] == '/' {
        return None;
    }
    let attrs = parse_attributes(&tag);
    let end_tag = text::to_chars("</telegram-message>");
    match text::find(s, &end_tag, c + 1) {
        Some(e) => {
            match (attr_value(&attrs, "from"), attr_value(&attrs, "to")) {
                (Some(from), Some(to)) => {
                    let id = attr_value(&attrs, "id");
                    let date = attr_value(&attrs, "date");
                    let content = text::slice(s, c + 1, e);
                    let m = MessageElement { from, to, id, date, content };
                    Some((m, e + end_tag.len()))
                },
                _ => None,
            }
        },
        None => None,
    }
}

fn parse_reaction_tag(s: &Vec<char>, i: usize) -> (r: Option<(ReactionElement, usize)>)
    requires
        i < s.len(),
    ensures
        match r {
            Some((m, e)) => reaction_at(s@, i as int) == Some((m@, e as int)),
            None => reaction_at(s@, i as int) is None,
        },
{
    let mut close: Vec<char> = Vec::new();
    close.push('/');
    close.push('>');
    assert(close@ =~= seq!['/', '>']);
    match text::find(s, &close, i) {
        Some(e) => {
            let attrs = parse_attributes(&text::to_chars(text::slice(s, i, e).as_str()));
            match (
                attr_value(&attrs, "from"),
                attr_value(&attrs, "action"),
                attr_value(&attrs, "emoji"),
                attr_value(&attrs, "message-id"),
            ) {
                (Some(from), Some(action), Some(emoji), Some(message_id)) => {
                    let date = attr_value(&attrs, "date");
                    Some((ReactionElement { from, action, emoji, message_id, date }, e + 2))
                },
                _ => None,
            }
        },
        None => None,
    }
}

fn parse_element(s: &Vec<char>, i: usize) -> (r: Option<(Node, usize)>)
    requires
        i < s.len(),
    ensures
        match r {
            Some((n, e)) => element_at(s@, i as int) == Some((n@, e as int)) && i < e <= s.len(),
            None => element_at(s@, i as int) is None,
        },
{
    proof {
        element_at_bounds(s@, i as int);
    }
    if text::occurs_at(s, &text::to_chars("<telegram-message "), i) || text::occurs_at(
        s,
        &text::to_chars("<telegram-message>"),
        i,
    ) {
        match parse_message_tag(s, i) {
            Some((m, e)) => Some((Node::Message(m), e)),
            None => None,
        }
    } else if text::occurs_at(s, &text::to_chars("<telegram-reaction "), i) {
        match parse_reaction_tag(s, i) {
            Some((m, e)) => Some((Node::Reaction(m), e)),
            None => None,
        }
    } else {
        None
    }
}

fn flush_text(s: &Vec<char>, start: usize, end: usize, nodes: &mut Vec<Node>)
    requires
        start <= end <= s.len(),
    ensures
        node_views(final(nodes)@) == node_views(old(nodes)@) + text_nodes(
            s@.subrange(start as int, end as int),
        ),
{
    if start < end {
        nodes.push(Node::Text(text::slice(s, start, end)));
    }
    assert(node_views(nodes@) =~= node_views(old(nodes)@) + text_nodes(
        s@.subrange(start as int, end as int),
    ));
}

/// Reads a text into a document.
pub fn parse(input: &str) -> (doc: Document)
    ensures
        doc@ == document(input@),
{
    let s = text::to_chars(input);
    let mut nodes: Vec<Node> = Vec::new();
    let mut start: usize = 0;
    let mut pos: usize = 0;
    assert(node_views(nodes@) + nodes_from(s@, 0, 0) =~= document(input@));
    while pos < s.len()
        invariant
            s@ == input@,
            start <= pos <= s.len(),
            node_views(nodes@) + nodes_from(s@, start as int, pos as int) == document(input@),
        decreases s.len() - pos,
    {
        if s[pos] == '`' {
            pos = skip_code(&s, pos);
            continue;
        }
        match parse_element(&s, pos) {
            Some((n, e)) => {
                let ghost before = node_views(nodes@);
                let ghost rest = nodes_from(s@, e as int, e as int);
                let ghost view = n@;
                flush_text(&s, start, pos, &mut nodes);
                let ghost flushed = nodes@;
                nodes.push(n);
                assert(node_views(nodes@) =~= node_views(flushed).push(view));
                assert(node_views(nodes@) + rest =~= before + (text_nodes(
                    s@.subrange(start as int, pos as int),
                ) + seq![view] + rest));
                start = e;
                pos = e;
            },
            None => {
                pos = pos + 1;
            },
        }
    }
    flush_text(&s, start, pos, &mut nodes);
    Document { nodes }
}

// ---------------------------------------------------------------------------
// Writing
// ---------------------------------------------------------------------------

/// An attribute as it is written.
pub open spec fn attr_text(key: Seq<char>, value: Seq<char>) -> Seq<char> {
    seq![' '] + key + seq!['=', '"'] + value + seq!['"']
}

/// An optional attribute as it is written.
pub open spec fn opt_attr_text(key: Seq<char>, value: Option<Seq<char>>) -> Seq<char> {
    match value {
        Some(v) => attr_text(key, v),
        None => Seq::empty(),
    }
}

/// A message's opening tag as it is written, without its `>`.
pub open spec fn message_open_text(m: MessageView) -> Seq<char> {
    "<telegram-message"@ + attr_text("from"@, m.from) + attr_text("to"@, m.to) + opt_attr_text(
        "id"@,
        m.id,
    ) + opt_attr_text("date"@, m.date)
}

/// A message as it is written.
pub open spec fn message_text(m: MessageView) -> Seq<char> {
    message_open_text(m) + seq!['>'] + m.content + "</telegram-message>"@
}

/// A reaction's tag as it is written, without its closing ` />`.
pub open spec fn reaction_open_text(r: ReactionView) -> Seq<char> {
    "<telegram-reaction"@ + attr_text("from"@, r.from) + attr_text("action"@, r.action)
        + attr_text("emoji"@, r.emoji) + attr_text("message-id"@, r.message_id) + opt_attr_text(
        "date"@,
        r.date,
    )
}

/// A reaction as it is written.
pub open spec fn reaction_text(r: ReactionView) -> Seq<char> {
    reaction_open_text(r) + seq![' ', '/', '>']
}

/// A node as it is written.
pub open spec fn node_text(n: NodeView) -> Seq<char> {
    match n {
        NodeView::Message(m) => message_text(m),
        NodeView::Reaction(r) => reaction_text(r),
        NodeView::Text(t) => t,
    }
}

/// A document as it is written: its nodes, one after the other.
pub open spec fn document_text(doc: Seq<NodeView>) -> Seq<char>
    decreases doc.len(),
{
    if doc.len() == 0 {
        Seq::empty()
    } else {
        node_text(doc[0]) + document_text(doc.drop_first())
    }
}

fn push_attr(out: &mut String, key: &str, value: &str)
    ensures
        final(out)@ == old(out)@ + attr_text(key@, value@),
{
    out.push(' ');
    out.append(key);
    out.push('=');
    out.push('"');
    out.append(value);
    out.push('"');
    assert(out@ =~= old(out)@ + attr_text(key@, value@));
}

fn push_opt_attr(out: &mut String, key: &str, value: &Option<String>)
    ensures
        final(out)@ == old(out)@ + opt_attr_text(key@, text::opt_view(*value)),
{
    if let Some(v) = value {
        push_attr(out, key, v.as_str());
    }
    assert(out@ =~= old(out)@ + opt_attr_text(key@, text::opt_view(*value)));
}

fn serialize_message(el: &MessageElement, out: &mut String)
    ensures
        final(out)@ == old(out)@ + message_text(el@),
{
    out.append("<telegram-message");
    push_attr(out, "from", el.from.as_str());
    push_attr(out, "to", el.to.as_str());
    push_opt_attr(out, "id", &el.id);
    push_opt_attr(out, "date", &el.date);
    out.push('>');
    out.append(el.content.as_str());
    out.append("</telegram-message>");
    assert(out@ =~= old(out)@ + message_text(el@));
}

fn serialize_reaction(el: &ReactionElement, out: &mut String)
    ensures
        final(out)@ == old(out)@ + reaction_text(el@),
{
    out.append("<telegram-reaction");
    push_attr(out, "from", el.from.as_str());
    push_attr(out, "action", el.action.as_str());
    push_attr(out, "emoji", el.emoji.as_str());
    push_attr(out, "message-id", el.message_id.as_str());
    push_opt_attr(out, "date", &el.date);
    out.push(' ');
    out.push('/');
    out.push('>');
    assert(out@ =~= old(out)@ + reaction_text(el@));
}

fn serialize_node_into(node: &Node, out: &mut String)
    ensures
        final(out)@ == old(out)@ + node_text(node@),
{
    match node {
        Node::Text(t) => {
            out.append(t.as_str());
        },
        Node::Message(el) => {
            serialize_message(el, out);
        },
        Node::Reaction(el) => {
            serialize_reaction(el, out);
        },
    }
}

/// Writes a document.
pub fn serialize(doc: &Document) -> (out: String)
    ensures
        out@ == document_text(doc@),
{
    let mut out: String = String::new();
    let mut i: usize = 0;
    assert(doc@.skip(0) =~= doc@);
    assert(out@ + document_text(doc@.skip(0)) =~= document_text(doc@));
    while i < doc.nodes.len()
        invariant
            i <= doc.nodes.len(),
            out@ + document_text(doc@.skip(i as int)) == document_text(doc@),
        decreases doc.nodes.len() - i,
    {
        let ghost before = out@;
        assert(doc@.skip(i as int).drop_first() =~= doc@.skip(i as int + 1));
        serialize_node_into(&doc.nodes[i], &mut out);
        assert(out@ + document_text(doc@.skip(i as int + 1)) =~= before + document_text(
            doc@.skip(i as int),
        ));
        i = i + 1;
    }
    assert(out@ + document_text(doc@.skip(i as int)) =~= out@);
    out
}

/// Writes one node.
pub fn serialize_node(node: &Node) -> (out: String)
    ensures
        out@ == node_text(node@),
{
    let mut out: String = String::new();
    serialize_node_into(node, &mut out);
    assert(out@ =~= node_text(node@));
    out
}

/// Nodes are written one after the other: a list in two parts, and a single one as itself.
pub proof fn written_parts_add_up(a: Seq<NodeView>, b: Seq<NodeView>, n: NodeView)
    ensures
        document_text(a + b) == document_text(a) + document_text(b),
        document_text(seq![n]) == (match n {
            NodeView::Message(m) => message_text(m),
            NodeView::Reaction(r) => reaction_text(r),
            NodeView::Text(t) => t,
        }),
    decreases a.len(),
{
    let one = seq![n];
    assert(one.drop_first() =~= Seq::<NodeView>::empty());
    reveal_with_fuel(document_text, 2);
    assert(document_text(one) =~= node_text(n));
    if a.len() == 0 {
        assert(a + b =~= b);
        assert(document_text(a) + document_text(b) =~= document_text(b));
    } else {
        assert((a + b).drop_first() =~= a.drop_first() + b);
        assert((a + b)[0] == a[0]);
        written_parts_add_up(a.drop_first(), b, n);
        assert(document_text(a + b) =~= document_text(a) + document_text(b));
    }
}

/// A tag that closes itself is no message, whatever it says and whatever comes behind it.
pub proof fn a_tag_that_closes_itself_is_no_message(tag: Seq<char>, rest: Seq<char>)
    requires
        forall|k: int| 0 <= k < tag.len() ==> #[trigger] tag[k] != '>',
    ensures
        message_at(tag + seq!['/', '>'] + rest, 0) is None,
{
    let s = tag + seq!['/', '>'] + rest;
    let close = seq!['>'];
    let n = tag.len() as int + 1;
    assert(text::has_at(s, close, n)) by {
        assert(s.subrange(n, n + 1) =~= close);
    }
    assert forall|k: int| 0 <= k < n implies !#[trigger] text::has_at(s, close, k) by {
        if text::has_at(s, close, k) {
            assert(s.subrange(k, k + 1)[0] == '>');
            assert(s[k] == '>');
        }
    }
    text::find_unique(s, close, 0, n);
    assert(s.subrange(0, n).last() == '/');
}

/// An element is seen with all its parts, and a document with all its nodes in their order.
pub proof fn elements_are_their_parts(m: MessageElement, r: ReactionElement, d: Document, i: int)
    ensures
        m@.from == m.from@ && m@.to == m.to@ && m@.content == m.content@,
        m.id matches Some(s) ==> m@.id == Some(s@),
        m.id is None ==> m@.id is None,
        m.date matches Some(s) ==> m@.date == Some(s@),
        m.date is None ==> m@.date is None,
        r@.from == r.from@ && r@.action == r.action@ && r@.emoji == r.emoji@ && r@.message_id
            == r.message_id@,
        r.date matches Some(s) ==> r@.date == Some(s@),
        r.date is None ==> r@.date is None,
        d@.len() == d.nodes@.len(),
        0 <= i < d.nodes@.len() ==> (match d.nodes@[i] {
            Node::Message(x) => d@[i] == NodeView::Message(x@),
            Node::Reaction(x) => d@[i] == NodeView::Reaction(x@),
            Node::Text(t) => d@[i] == NodeView::Text(t@),
        }),
{
}

} // verus!
