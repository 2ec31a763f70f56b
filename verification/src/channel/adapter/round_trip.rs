//! What is written in the markup dialect is read back as it was.

use vstd::prelude::*;
use crate::channel::adapter::markup;
use crate::channel::adapter::markup::{MessageView, NodeView, ReactionView};
use crate::text;
use vstd::string::*;

verus! {

/// `c` does not occur in `s`.
pub open spec fn lacks(s: Seq<char>, c: char) -> bool {
    forall|i: int| 0 <= i < s.len() ==> #[trigger] s[i] != c
}

/// An optional value in which `c` does not occur.
pub open spec fn opt_lacks(o: Option<Seq<char>>, c: char) -> bool {
    o matches Some(s) ==> lacks(s, c)
}

/// An optional value in which `p` does not stand.
pub open spec fn opt_free_of(o: Option<Seq<char>>, p: Seq<char>) -> bool {
    o matches Some(s) ==> !text::contains_text(s, p)
}

/// A message whose attributes its written form can carry: no quote or `>` in any of them.
pub open spec fn message_tag_writable(m: MessageView) -> bool {
    &&& lacks(m.from, '"') && lacks(m.from, '>')
    &&& lacks(m.to, '"') && lacks(m.to, '>')
    &&& opt_lacks(m.id, '"') && opt_lacks(m.id, '>')
    &&& opt_lacks(m.date, '"') && opt_lacks(m.date, '>')
}

/// A message that its written form can carry: its attributes can be, and there is no end tag in
/// the content.
pub open spec fn message_writable(m: MessageView) -> bool {
    message_tag_writable(m) && !text::contains_text(m.content, "</telegram-message>"@)
}

/// A reaction that its written form can carry: no quote and no `/>` in an attribute.
pub open spec fn reaction_writable(r: ReactionView) -> bool {
    &&& lacks(r.from, '"') && !text::contains_text(r.from, seq!['/', '>'])
    &&& lacks(r.action, '"') && !text::contains_text(r.action, seq!['/', '>'])
    &&& lacks(r.emoji, '"') && !text::contains_text(r.emoji, seq!['/', '>'])
    &&& lacks(r.message_id, '"') && !text::contains_text(r.message_id, seq!['/', '>'])
    &&& opt_lacks(r.date, '"') && opt_free_of(r.date, seq!['/', '>'])
}

/// From position `i` on, `t` agrees with `o` as far as both go.
pub open spec fn agrees(t: Seq<char>, i: int, o: Seq<char>) -> bool {
    forall|k: int| 0 <= k < o.len() && i + k < t.len() ==> #[trigger] o[k] == t[i + k]
}

/// The text from position `i` on may be the start of an element's tag.
pub open spec fn tag_like(t: Seq<char>, i: int) -> bool {
    ||| agrees(t, i, "<telegram-message "@)
    ||| agrees(t, i, "<telegram-message>"@)
    ||| agrees(t, i, "<telegram-reaction "@)
}

/// Where the code span that starts at `i` is closed within `t`.
pub open spec fn closed_code_end(t: Seq<char>, i: int) -> Option<int> {
    if text::has_at(t, seq!['`', '`', '`'], i) {
        match text::find_from(t, seq!['\n'], i + 3) {
            Some(line) => match text::find_from(t, seq!['`', '`', '`'], line) {
                Some(j) => Some(j + 3),
                None => None,
            },
            None => None,
        }
    } else {
        match text::find_from(t, seq!['`'], i + 1) {
            Some(j) => Some(j + 1),
            None => None,
        }
    }
}

pub proof fn closed_code_end_bounds(t: Seq<char>, i: int)
    requires
        0 <= i < t.len(),
    ensures
        closed_code_end(t, i) matches Some(e) ==> i < e <= t.len(),
{
    text::find_is_first(t, seq!['\n'], i + 3);
    if let Some(line) = text::find_from(t, seq!['\n'], i + 3) {
        text::find_is_first(t, seq!['`', '`', '`'], line);
    }
    text::find_is_first(t, seq!['`'], i + 1);
}

/// From position `i` on the text is plain whatever follows it: it starts no tag and closes every
/// code span that it opens.
pub open spec fn plain_from(t: Seq<char>, i: int) -> bool
    decreases t.len() - i,
{
    if i < 0 || i >= t.len() {
        i == t.len()
    } else if t[i] == '`' {
        proof {
            closed_code_end_bounds(t, i);
        }
        match closed_code_end(t, i) {
            Some(e) => plain_from(t, e),
            None => false,
        }
    } else if t[i] == '<' && tag_like(t, i) {
        false
    } else {
        plain_from(t, i + 1)
    }
}

/// A node that its written form can carry.
pub open spec fn node_writable(n: NodeView) -> bool {
    match n {
        NodeView::Message(m) => message_writable(m),
        NodeView::Reaction(r) => reaction_writable(r),
        NodeView::Text(t) => t.len() > 0 && plain_from(t, 0),
    }
}

/// A document that its written form can carry: each node can, and no two texts are neighbours.
pub open spec fn writable(doc: Seq<NodeView>) -> bool {
    &&& forall|i: int| 0 <= i < doc.len() ==> node_writable(#[trigger] doc[i])
    &&& forall|i: int, j: int|
        0 <= i && j == i + 1 && j < doc.len() ==> !(#[trigger] doc[i] is Text
            && #[trigger] doc[j] is Text)
}

// ---------------------------------------------------------------------------
// Searching in a part of a text
// ---------------------------------------------------------------------------

/// What stands inside a part stands in the whole.
pub proof fn has_at_inside(pre: Seq<char>, t: Seq<char>, rest: Seq<char>, p: Seq<char>, k: int)
    requires
        0 <= k,
        k + p.len() <= t.len(),
    ensures
        text::has_at(pre + t + rest, p, pre.len() + k) == text::has_at(t, p, k),
{
    let s = pre + t + rest;
    assert(s.subrange(pre.len() + k, pre.len() + k + p.len()) =~= t.subrange(k, k + p.len()));
}

/// What is found inside a part is found in the whole.
pub proof fn find_inside(pre: Seq<char>, t: Seq<char>, rest: Seq<char>, p: Seq<char>, i: int)
    requires
        0 <= i,
        text::find_from(t, p, i) is Some,
    ensures
        text::find_from(pre + t + rest, p, pre.len() + i) == Some(pre.len() + text::find_from(t, p, i)->0),
{
    let s = pre + t + rest;
    text::find_is_first(t, p, i);
    let j = text::find_from(t, p, i)->0;
    has_at_inside(pre, t, rest, p, j);
    assert forall|k: int| pre.len() + i <= k < pre.len() + j implies !#[trigger] text::has_at(
        s,
        p,
        k,
    ) by {
        has_at_inside(pre, t, rest, p, k - pre.len());
        assert(!text::has_at(t, p, k - pre.len()));
    }
    text::find_unique(s, p, pre.len() + i, pre.len() + j);
}

// ---------------------------------------------------------------------------
// Attributes
// ---------------------------------------------------------------------------

proof fn name_end_is(t: Seq<char>, i: int, e: int)
    requires
        0 <= i <= e < t.len(),
        forall|k: int| i <= k < e ==> markup::name_char(#[trigger] t[k]),
        !markup::name_char(t[e]),
    ensures
        markup::name_end(t, i) == e,
    decreases e - i,
{
    if i < e {
        assert(markup::name_char(t[i]));
        name_end_is(t, i + 1, e);
    }
}

/// A written attribute is read as one pair.
proof fn attr_read(pre: Seq<char>, key: Seq<char>, value: Seq<char>, rest: Seq<char>)
    requires
        key.len() > 0,
        forall|k: int| 0 <= k < key.len() ==> markup::name_char(#[trigger] key[k]),
        lacks(value, '"'),
    ensures
        markup::attrs_from(pre + markup::attr_text(key, value) + rest, pre.len() as int) == seq![(key, value)]
            + markup::attrs_from(
            pre + markup::attr_text(key, value) + rest,
            (pre + markup::attr_text(key, value)).len() as int,
        ),
{
    let a = markup::attr_text(key, value);
    let t = pre + a + rest;
    let i = pre.len() as int;
    assert forall|k: int| 0 <= k < a.len() implies #[trigger] t[i + k] == a[k] by {}
    assert(t[i] == a[0]);
    assert(t[i] == ' ');
    let n = i + 1;
    let e = n + key.len();
    assert forall|k: int| n <= k < e implies markup::name_char(#[trigger] t[k]) by {
        assert(t[k] == a[k - i]);
        assert(a[k - i] == key[k - n]);
    }
    assert(t[e] == a[e - i]);
    assert(t[e + 1] == a[e + 1 - i]);
    assert(markup::name_char(t[n]));
    name_end_is(t, n, e);
    let q = e + 2 + value.len();
    assert(t[q] == a[q - i]);
    assert(t.subrange(q, q + 1) =~= seq!['"']);
    let quote = seq!['"'];
    assert forall|k: int| e + 2 <= k < q implies !#[trigger] text::has_at(t, quote, k) by {
        assert(t[k] == a[k - i]);
        assert(a[k - i] == value[k - e - 2]);
        assert(t.subrange(k, k + 1)[0] == t[k]);
    }
    text::find_unique(t, quote, e + 2, q);
    assert(t.subrange(n, e) =~= key) by {
        assert forall|k: int| 0 <= k < key.len() implies t.subrange(n, e)[k] == key[k] by {
            assert(t[n + k] == a[n + k - i]);
        }
    }
    assert(t.subrange(e + 2, q) =~= value) by {
        assert forall|k: int| 0 <= k < value.len() implies t.subrange(e + 2, q)[k] == value[k] by {
            assert(t[e + 2 + k] == a[e + 2 + k - i]);
        }
    }
    assert(markup::attrs_from(t, i) == markup::attrs_from(t, n));
}

/// A pair as a list, or nothing.
pub open spec fn opt_pair(key: Seq<char>, value: Option<Seq<char>>) -> Seq<
    (Seq<char>, Seq<char>),
> {
    match value {
        Some(v) => seq![(key, v)],
        None => Seq::empty(),
    }
}

proof fn opt_attr_read(pre: Seq<char>, key: Seq<char>, value: Option<Seq<char>>, rest: Seq<char>)
    requires
        key.len() > 0,
        forall|k: int| 0 <= k < key.len() ==> markup::name_char(#[trigger] key[k]),
        opt_lacks(value, '"'),
    ensures
        markup::attrs_from(pre + markup::opt_attr_text(key, value) + rest, pre.len() as int) == opt_pair(key, value)
            + markup::attrs_from(
            pre + markup::opt_attr_text(key, value) + rest,
            (pre + markup::opt_attr_text(key, value)).len() as int,
        ),
{
    match value {
        Some(v) => {
            attr_read(pre, key, v, rest);
        },
        None => {
            assert(pre + markup::opt_attr_text(key, value) =~= pre);
            assert(opt_pair(key, value) + markup::attrs_from(pre + rest, pre.len() as int) =~= markup::attrs_from(
                pre + rest,
                pre.len() as int,
            ));
        },
    }
}

proof fn keys_are_names()
    ensures
        forall|k: int| 0 <= k < "from"@.len() ==> markup::name_char(#[trigger] "from"@[k]),
        forall|k: int| 0 <= k < "to"@.len() ==> markup::name_char(#[trigger] "to"@[k]),
        forall|k: int| 0 <= k < "id"@.len() ==> markup::name_char(#[trigger] "id"@[k]),
        forall|k: int| 0 <= k < "date"@.len() ==> markup::name_char(#[trigger] "date"@[k]),
        forall|k: int| 0 <= k < "action"@.len() ==> markup::name_char(#[trigger] "action"@[k]),
        forall|k: int| 0 <= k < "emoji"@.len() ==> markup::name_char(#[trigger] "emoji"@[k]),
        forall|k: int| 0 <= k < "message-id"@.len() ==> markup::name_char(#[trigger] "message-id"@[k]),
        "from"@.len() == 4,
        "to"@.len() == 2,
        "id"@.len() == 2,
        "date"@.len() == 4,
        "action"@.len() == 6,
        "emoji"@.len() == 5,
        "message-id"@.len() == 10,
        "from"@ != "date"@,
        "to"@ != "id"@,
{
    reveal_strlit("from");
    reveal_strlit("to");
    reveal_strlit("id");
    reveal_strlit("date");
    reveal_strlit("action");
    reveal_strlit("emoji");
    reveal_strlit("message-id");
    assert("from"@[0] == 'f' && "date"@[0] == 'd');
    assert("to"@[0] == 't' && "id"@[0] == 'i');
}

/// The start of a tag, up to its first attribute, holds no pair.
proof fn tag_start_read(open: Seq<char>, rest: Seq<char>)
    requires
        open == "<telegram-message"@ || open == "<telegram-reaction"@,
        rest.len() > 0,
        rest[0] == ' ',
    ensures
        markup::attrs_from(open + rest, 0) == markup::attrs_from(open + rest, open.len() as int),
{
    reveal_strlit("<telegram-message");
    reveal_strlit("<telegram-reaction");
    let t = open + rest;
    assert(t[0] == open[0]);
    assert(!markup::name_char(t[0]));
    assert forall|k: int| 1 <= k < open.len() implies markup::name_char(#[trigger] t[k]) by {
        assert(t[k] == open[k]);
    }
    assert(t[open.len() as int] == rest[0]);
    assert(markup::name_char(t[1]));
    name_end_is(t, 1, open.len() as int);
    assert(markup::attrs_from(t, 0) == markup::attrs_from(t, 1));
}

/// The pairs of a message's opening tag.
pub open spec fn message_pairs(m: MessageView) -> Seq<(Seq<char>, Seq<char>)> {
    seq![("from"@, m.from)] + (seq![("to"@, m.to)] + (opt_pair("id"@, m.id) + opt_pair(
        "date"@,
        m.date,
    )))
}

pub proof fn message_tag_read(m: MessageView)
    requires
        message_tag_writable(m),
    ensures
        markup::attrs_from(markup::message_open_text(m), 0) == message_pairs(m),
{
    keys_are_names();
    let t = markup::message_open_text(m);
    let p0 = "<telegram-message"@;
    let a1 = markup::attr_text("from"@, m.from);
    let a2 = markup::attr_text("to"@, m.to);
    let a3 = markup::opt_attr_text("id"@, m.id);
    let a4 = markup::opt_attr_text("date"@, m.date);
    let r1 = a2 + a3 + a4;
    assert(t =~= p0 + (a1 + a2 + a3 + a4));
    assert((a1 + a2 + a3 + a4)[0] == a1[0]);
    tag_start_read(p0, a1 + a2 + a3 + a4);
    assert(t =~= p0 + a1 + r1);
    attr_read(p0, "from"@, m.from, r1);
    let p1 = p0 + a1;
    let r2 = a3 + a4;
    assert(t =~= p1 + a2 + r2);
    attr_read(p1, "to"@, m.to, r2);
    let p2 = p1 + a2;
    assert(t =~= p2 + a3 + a4);
    opt_attr_read(p2, "id"@, m.id, a4);
    let p3 = p2 + a3;
    assert(t =~= p3 + a4 + Seq::<char>::empty());
    opt_attr_read(p3, "date"@, m.date, Seq::empty());
    assert(opt_pair("date"@, m.date) + markup::attrs_from(t, t.len() as int) =~= opt_pair("date"@, m.date));
}

pub proof fn message_pairs_lookup(m: MessageView)
    ensures
        markup::attr(message_pairs(m), "from"@) == Some(m.from),
        markup::attr(message_pairs(m), "to"@) == Some(m.to),
        markup::attr(message_pairs(m), "id"@) == m.id,
        markup::attr(message_pairs(m), "date"@) == m.date,
{
    keys_are_names();
    let tail = opt_pair("id"@, m.id) + opt_pair("date"@, m.date);
    assert(message_pairs(m).drop_first() =~= seq![("to"@, m.to)] + tail);
    assert((seq![("to"@, m.to)] + tail).drop_first() =~= tail);
    if m.id is Some {
        assert(tail.drop_first() =~= opt_pair("date"@, m.date));
    } else {
        assert(tail =~= opt_pair("date"@, m.date));
    }
    if m.date is Some {
        assert(opt_pair("date"@, m.date).drop_first() =~= Seq::<(Seq<char>, Seq<char>)>::empty());
    }
    reveal_with_fuel(markup::attr, 5);
}

/// The pairs of a reaction's tag.
pub open spec fn reaction_pairs(r: ReactionView) -> Seq<(Seq<char>, Seq<char>)> {
    seq![("from"@, r.from)] + (seq![("action"@, r.action)] + (seq![("emoji"@, r.emoji)] + (seq![
        ("message-id"@, r.message_id),
    ] + opt_pair("date"@, r.date))))
}

proof fn reaction_tag_read(r: ReactionView)
    requires
        reaction_writable(r),
    ensures
        markup::attrs_from(markup::reaction_open_text(r) + seq![' '], 0) == reaction_pairs(r),
{
    keys_are_names();
    let t = markup::reaction_open_text(r) + seq![' '];
    let p0 = "<telegram-reaction"@;
    let a1 = markup::attr_text("from"@, r.from);
    let a2 = markup::attr_text("action"@, r.action);
    let a3 = markup::attr_text("emoji"@, r.emoji);
    let a4 = markup::attr_text("message-id"@, r.message_id);
    let a5 = markup::opt_attr_text("date"@, r.date);
    let z = seq![' '];
    assert(t =~= p0 + (a1 + a2 + a3 + a4 + a5 + z));
    assert((a1 + a2 + a3 + a4 + a5 + z)[0] == a1[0]);
    tag_start_read(p0, a1 + a2 + a3 + a4 + a5 + z);
    assert(t =~= p0 + a1 + (a2 + a3 + a4 + a5 + z));
    attr_read(p0, "from"@, r.from, a2 + a3 + a4 + a5 + z);
    let p1 = p0 + a1;
    assert(t =~= p1 + a2 + (a3 + a4 + a5 + z));
    attr_read(p1, "action"@, r.action, a3 + a4 + a5 + z);
    let p2 = p1 + a2;
    assert(t =~= p2 + a3 + (a4 + a5 + z));
    attr_read(p2, "emoji"@, r.emoji, a4 + a5 + z);
    let p3 = p2 + a3;
    assert(t =~= p3 + a4 + (a5 + z));
    attr_read(p3, "message-id"@, r.message_id, a5 + z);
    let p4 = p3 + a4;
    assert(t =~= p4 + a5 + z);
    opt_attr_read(p4, "date"@, r.date, z);
    let p5 = p4 + a5;
    assert(t[p5.len() as int] == ' ');
    assert(markup::attrs_from(t, p5.len() as int) == markup::attrs_from(t, p5.len() as int + 1));
    assert(opt_pair("date"@, r.date) + markup::attrs_from(t, t.len() as int) =~= opt_pair("date"@, r.date));
}

proof fn reaction_pairs_lookup(r: ReactionView)
    ensures
        markup::attr(reaction_pairs(r), "from"@) == Some(r.from),
        markup::attr(reaction_pairs(r), "action"@) == Some(r.action),
        markup::attr(reaction_pairs(r), "emoji"@) == Some(r.emoji),
        markup::attr(reaction_pairs(r), "message-id"@) == Some(r.message_id),
        markup::attr(reaction_pairs(r), "date"@) == r.date,
{
    keys_are_names();
    let t4 = opt_pair("date"@, r.date);
    let t3 = seq![("message-id"@, r.message_id)] + t4;
    let t2 = seq![("emoji"@, r.emoji)] + t3;
    let t1 = seq![("action"@, r.action)] + t2;
    assert(reaction_pairs(r).drop_first() =~= t1);
    assert(t1.drop_first() =~= t2);
    assert(t2.drop_first() =~= t3);
    assert(t3.drop_first() =~= t4);
    if r.date is Some {
        assert(t4.drop_first() =~= Seq::<(Seq<char>, Seq<char>)>::empty());
    }
    reveal_with_fuel(markup::attr, 6);
}

// ---------------------------------------------------------------------------
// Elements
// ---------------------------------------------------------------------------

proof fn lacks_concat(a: Seq<char>, b: Seq<char>, c: char)
    requires
        lacks(a, c),
        lacks(b, c),
    ensures
        lacks(a + b, c),
{
    assert forall|i: int| 0 <= i < (a + b).len() implies #[trigger] (a + b)[i] != c by {
        if i < a.len() {
            assert((a + b)[i] == a[i]);
        } else {
            assert((a + b)[i] == b[i - a.len()]);
        }
    }
}

proof fn attr_text_lacks_close(key: Seq<char>, value: Seq<char>)
    requires
        lacks(value, '>'),
        lacks(key, '>'),
    ensures
        lacks(markup::attr_text(key, value), '>'),
{
    lacks_concat(seq![' '], key, '>');
    lacks_concat(seq![' '] + key, seq!['=', '"'], '>');
    lacks_concat(seq![' '] + key + seq!['=', '"'], value, '>');
    lacks_concat(seq![' '] + key + seq!['=', '"'] + value, seq!['"'], '>');
}

pub proof fn message_open_lacks_close(m: MessageView)
    requires
        message_tag_writable(m),
    ensures
        lacks(markup::message_open_text(m), '>'),
        markup::message_open_text(m).last() == '"',
        markup::message_open_text(m).len() > 18,
{
    keys_are_names();
    let p0 = "<telegram-message"@;
    assert(lacks(p0, '>')) by {
        reveal_strlit("<telegram-message");
    }
    assert(p0.len() == 17) by {
        reveal_strlit("<telegram-message");
    }
    let a1 = markup::attr_text("from"@, m.from);
    let a2 = markup::attr_text("to"@, m.to);
    let a3 = markup::opt_attr_text("id"@, m.id);
    let a4 = markup::opt_attr_text("date"@, m.date);
    assert(lacks("from"@, '>') && lacks("to"@, '>') && lacks("id"@, '>') && lacks("date"@, '>'));
    attr_text_lacks_close("from"@, m.from);
    attr_text_lacks_close("to"@, m.to);
    if let Some(v) = m.id {
        attr_text_lacks_close("id"@, v);
    }
    if let Some(v) = m.date {
        attr_text_lacks_close("date"@, v);
    }
    lacks_concat(p0, a1, '>');
    lacks_concat(p0 + a1, a2, '>');
    lacks_concat(p0 + a1 + a2, a3, '>');
    lacks_concat(p0 + a1 + a2 + a3, a4, '>');
    assert(a2.last() == '"');
    assert((p0 + a1 + a2).last() == '"');
    if m.id is Some {
        assert((p0 + a1 + a2 + a3).last() == a3.last());
    } else {
        assert(p0 + a1 + a2 + a3 =~= p0 + a1 + a2);
    }
    if m.date is Some {
        assert(markup::message_open_text(m).last() == a4.last());
    } else {
        assert(markup::message_open_text(m) =~= p0 + a1 + a2 + a3);
    }
}

/// A pattern whose first character occurs nowhere else in it, behind a content without it, is
/// first found right there.
pub proof fn pattern_behind_content(
    pre: Seq<char>,
    content: Seq<char>,
    p: Seq<char>,
    rest: Seq<char>,
)
    requires
        !text::contains_text(content, p),
        p.len() > 0,
        forall|k: int| 0 < k < p.len() ==> #[trigger] p[k] != p[0],
    ensures
        text::find_from(pre + content + p + rest, p, pre.len() as int) == Some(
            (pre.len() + content.len()) as int,
        ),
{
    let s = pre + content + p + rest;
    let c = pre.len() as int;
    let e = c + content.len();
    assert(s.subrange(e, e + p.len()) =~= p);
    assert forall|k: int| c <= k < e implies !#[trigger] text::has_at(s, p, k) by {
        if text::has_at(s, p, k) {
            let found = s.subrange(k, k + p.len());
            if k + p.len() <= e {
                assert(content.subrange(k - c, k - c + p.len()) =~= found);
                assert(text::has_at(content, p, k - c));
            } else {
                assert(found[e - k] == s[e]);
                assert(s[e] == p[0]);
                assert(found[e - k] == p[e - k]);
            }
        }
    }
    text::find_unique(s, p, c, e);
}

proof fn end_tag_starts_once()
    ensures
        "</telegram-message>"@.len() > 0,
        forall|k: int|
            0 < k < "</telegram-message>"@.len() ==> #[trigger] "</telegram-message>"@[k]
                != "</telegram-message>"@[0],
{
    reveal_strlit("</telegram-message>");
}

/// The opening tag of a written message is recognised and ends at its own bracket.
pub proof fn message_open_is_found(pre: Seq<char>, m: MessageView, rest: Seq<char>)
    requires
        message_tag_writable(m),
    ensures
        text::has_at(
            pre + markup::message_open_text(m) + seq!['>'] + rest,
            "<telegram-message "@,
            pre.len() as int,
        ),
        text::find_from(
            pre + markup::message_open_text(m) + seq!['>'] + rest,
            seq!['>'],
            pre.len() as int,
        ) == Some((pre.len() + markup::message_open_text(m).len()) as int),
        markup::message_open_text(m)[0] == '<',
{
    let open = markup::message_open_text(m);
    let close = seq!['>'];
    let s = pre + open + close + rest;
    let i = pre.len() as int;
    let c = i + open.len();
    message_open_lacks_close(m);
    reveal_strlit("<telegram-message");
    reveal_strlit("<telegram-message ");
    let o = "<telegram-message "@;
    let p0 = "<telegram-message"@;
    assert(open =~= p0 + (markup::attr_text("from"@, m.from) + markup::attr_text("to"@, m.to)
        + markup::opt_attr_text("id"@, m.id) + markup::opt_attr_text("date"@, m.date)));
    assert(open[17] == ' ');
    assert forall|k: int| 0 <= k < o.len() implies s.subrange(i, i + o.len())[k] == o[k] by {
        assert(s[i + k] == open[k]);
        if k < 17 {
            assert(open[k] == p0[k]);
        }
    }
    assert(s.subrange(c, c + 1) =~= close);
    assert forall|k: int| i <= k < c implies !#[trigger] text::has_at(s, close, k) by {
        assert(s[k] == open[k - i]);
        assert(s.subrange(k, k + 1)[0] == s[k]);
    }
    text::find_unique(s, close, i, c);
}

/// A written message has its opening tag, its first bracket and its first end tag where they
/// were written.
pub proof fn message_parts(pre: Seq<char>, m: MessageView, rest: Seq<char>)
    requires
        message_writable(m),
    ensures
        ({
            let s = pre + markup::message_text(m) + rest;
            let c = pre.len() as int + markup::message_open_text(m).len();
            let e = c + 1 + m.content.len();
            &&& text::has_at(s, "<telegram-message "@, pre.len() as int)
            &&& text::find_from(s, seq!['>'], pre.len() as int) == Some(c)
            &&& text::find_from(s, "</telegram-message>"@, c + 1) == Some(e)
            &&& s.subrange(pre.len() as int, c) == markup::message_open_text(m)
            &&& s.subrange(c + 1, e) == m.content
            &&& e + "</telegram-message>"@.len() == (pre + markup::message_text(m)).len()
        }),
        markup::message_text(m).len() > 0,
        markup::message_text(m)[0] == '<',
{
    let end = "</telegram-message>"@;
    let w = markup::message_text(m);
    let open = markup::message_open_text(m);
    let close = seq!['>'];
    let s = pre + w + rest;
    message_open_lacks_close(m);
    assert(s =~= pre + open + close + (m.content + end + rest));
    message_open_is_found(pre, m, m.content + end + rest);
    assert(s =~= (pre + open + close) + m.content + end + rest);
    end_tag_starts_once();
    pattern_behind_content(pre + open + close, m.content, end, rest);
    let i = pre.len() as int;
    let c = i + open.len();
    assert(s.subrange(i, c) =~= open);
    assert(s.subrange(c + 1, c + 1 + m.content.len()) =~= m.content);
    assert(w[0] == open[0]);
}

/// A written message is read as that message.
pub proof fn message_is_read_back(pre: Seq<char>, m: MessageView, rest: Seq<char>)
    requires
        message_writable(m),
    ensures
        markup::element_at(pre + markup::message_text(m) + rest, pre.len() as int) == Some(
            (NodeView::Message(m), (pre + markup::message_text(m)).len() as int),
        ),
        markup::message_text(m).len() > 0,
        markup::message_text(m)[0] == '<',
{
    message_open_lacks_close(m);
    message_tag_read(m);
    message_pairs_lookup(m);
    message_parts(pre, m, rest);
}

/// Two texts without the end of an element have none together, unless it lies across both.
pub proof fn free_concat(a: Seq<char>, b: Seq<char>)
    requires
        !text::contains_text(a, seq!['/', '>']),
        !text::contains_text(b, seq!['/', '>']),
        a.len() > 0 ==> a.last() != '/',
    ensures
        !text::contains_text(a + b, seq!['/', '>']),
{
    let p = seq!['/', '>'];
    let s = a + b;
    assert forall|k: int| !#[trigger] text::has_at(s, p, k) by {
        if text::has_at(s, p, k) {
            assert(s.subrange(k, k + 2)[0] == '/' && s.subrange(k, k + 2)[1] == '>');
            if k + 2 <= a.len() {
                assert(a.subrange(k, k + 2) =~= p);
                assert(text::has_at(a, p, k));
            } else if k >= a.len() {
                assert(b.subrange(k - a.len(), k - a.len() + 2) =~= p);
                assert(text::has_at(b, p, k - a.len()));
            }
        }
    }
}

/// A text without a slash does not hold the end of an element.
pub proof fn free_of_short(a: Seq<char>)
    requires
        forall|i: int| 0 <= i < a.len() ==> #[trigger] a[i] != '/',
    ensures
        !text::contains_text(a, seq!['/', '>']),
{
    let p = seq!['/', '>'];
    assert forall|k: int| !#[trigger] text::has_at(a, p, k) by {
        if text::has_at(a, p, k) {
            assert(a.subrange(k, k + 2)[0] == '/');
        }
    }
}

proof fn attr_text_free(key: Seq<char>, value: Seq<char>)
    requires
        forall|i: int| 0 <= i < key.len() ==> #[trigger] key[i] != '/',
        !text::contains_text(value, seq!['/', '>']),
    ensures
        !text::contains_text(markup::attr_text(key, value), seq!['/', '>']),
        markup::attr_text(key, value).len() > 0,
        markup::attr_text(key, value).last() == '"',
{
    let head = seq![' '] + key + seq!['=', '"'];
    assert forall|i: int| 0 <= i < head.len() implies #[trigger] head[i] != '/' by {
        if 1 <= i < 1 + key.len() {
            assert(head[i] == key[i - 1]);
        }
    }
    free_of_short(head);
    free_of_short(seq!['"']);
    // The closing quote cannot complete a `/>` that the value starts.
    let p = seq!['/', '>'];
    let s = value + seq!['"'];
    assert forall|k: int| !#[trigger] text::has_at(s, p, k) by {
        if text::has_at(s, p, k) {
            assert(s.subrange(k, k + 2)[0] == '/' && s.subrange(k, k + 2)[1] == '>');
            assert(k + 2 <= value.len());
            assert(value.subrange(k, k + 2) =~= p);
            assert(text::has_at(value, p, k));
        }
    }
    free_concat(head, s);
    assert(head + s =~= markup::attr_text(key, value));
}

/// The start of a reaction does not hold its end.
pub proof fn reaction_open_free(r: ReactionView)
    requires
        reaction_writable(r),
    ensures
        !text::contains_text(markup::reaction_open_text(r), seq!['/', '>']),
        markup::reaction_open_text(r).last() == '"',
        markup::reaction_open_text(r).len() > 19,
{
    keys_are_names();
    let p0 = "<telegram-reaction"@;
    reveal_strlit("<telegram-reaction");
    free_of_short(p0);
    let a1 = markup::attr_text("from"@, r.from);
    let a2 = markup::attr_text("action"@, r.action);
    let a3 = markup::attr_text("emoji"@, r.emoji);
    let a4 = markup::attr_text("message-id"@, r.message_id);
    attr_text_free("from"@, r.from);
    attr_text_free("action"@, r.action);
    attr_text_free("emoji"@, r.emoji);
    attr_text_free("message-id"@, r.message_id);
    free_concat(p0, a1);
    assert((p0 + a1).last() == a1.last());
    free_concat(p0 + a1, a2);
    assert((p0 + a1 + a2).last() == a2.last());
    free_concat(p0 + a1 + a2, a3);
    assert((p0 + a1 + a2 + a3).last() == a3.last());
    free_concat(p0 + a1 + a2 + a3, a4);
    assert((p0 + a1 + a2 + a3 + a4).last() == a4.last());
    match r.date {
        Some(v) => {
            attr_text_free("date"@, v);
            free_concat(p0 + a1 + a2 + a3 + a4, markup::attr_text("date"@, v));
            assert(markup::reaction_open_text(r).last() == markup::attr_text("date"@, v).last());
        },
        None => {
            assert(markup::reaction_open_text(r) =~= p0 + a1 + a2 + a3 + a4);
        },
    }
}

/// A written reaction is read as that reaction.
pub proof fn reaction_is_read_back(pre: Seq<char>, r: ReactionView, rest: Seq<char>)
    requires
        reaction_writable(r),
    ensures
        markup::element_at(pre + markup::reaction_text(r) + rest, pre.len() as int) == Some(
            (NodeView::Reaction(r), (pre + markup::reaction_text(r)).len() as int),
        ),
        markup::reaction_text(r).len() > 0,
        markup::reaction_text(r)[0] == '<',
{
    let w = markup::reaction_text(r);
    let open = markup::reaction_open_text(r);
    let s = pre + w + rest;
    let i = pre.len() as int;
    let p = seq!['/', '>'];
    reaction_open_free(r);
    reaction_tag_read(r);
    reaction_pairs_lookup(r);
    assert forall|k: int| 0 <= k < w.len() implies #[trigger] s[i + k] == w[k] by {}
    assert(text::has_at(s, "<telegram-reaction "@, i) && !text::has_at(s, "<telegram-message "@, i) && !text::has_at(
        s,
        "<telegram-message>"@,
        i,
    ) && w[0] == '<') by {
        reveal_strlit("<telegram-reaction");
        reveal_strlit("<telegram-reaction ");
        reveal_strlit("<telegram-message ");
        reveal_strlit("<telegram-message>");
        let o = "<telegram-reaction "@;
        let p0 = "<telegram-reaction"@;
        assert forall|k: int| 0 <= k < o.len() implies s.subrange(i, i + o.len())[k] == o[k] by {
            assert(s[i + k] == w[k]);
            assert(w[k] == open[k]);
            if k < p0.len() {
                assert(open[k] == p0[k]);
            } else {
                assert(open[k] == markup::attr_text("from"@, r.from)[0]);
            }
        }
        assert(s.subrange(i, i + o.len())[10] == 'r');
        let m1 = "<telegram-message "@;
        let m2 = "<telegram-message>"@;
        if text::has_at(s, m1, i) {
            assert(s.subrange(i, i + m1.len())[10] == m1[10]);
        }
        if text::has_at(s, m2, i) {
            assert(s.subrange(i, i + m2.len())[10] == m2[10]);
        }
    }
    let e = i + open.len() + 1;
    assert(s[e] == w[e - i] && s[e + 1] == w[e + 1 - i] && s[e - 1] == w[e - 1 - i]);
    assert(s.subrange(e, e + 2) =~= p);
    assert forall|k: int| i <= k < e implies !#[trigger] text::has_at(s, p, k) by {
        if text::has_at(s, p, k) {
            assert(s.subrange(k, k + 2)[0] == '/' && s.subrange(k, k + 2)[1] == '>');
            assert(s[k] == w[k - i] && s[k + 1] == w[k + 1 - i]);
            if k + 2 <= i + open.len() {
                assert(open.subrange(k - i, k - i + 2) =~= p);
                assert(text::has_at(open, p, k - i));
            }
        }
    }
    text::find_unique(s, p, i, e);
    assert(s.subrange(i, e) =~= open + seq![' ']) by {
        assert forall|k: int| 0 <= k < open.len() + 1 implies s.subrange(i, e)[k] == (open + seq![
            ' ',
        ])[k] by {
            assert(s[i + k] == w[k]);
        }
    }
}

// ---------------------------------------------------------------------------
// Texts and documents
// ---------------------------------------------------------------------------

/// A tag that does not start in the text alone does not start in it with something behind it.
proof fn not_tag_like(pre: Seq<char>, t: Seq<char>, rest: Seq<char>, i: int, o: Seq<char>)
    requires
        0 <= i < t.len(),
        !agrees(t, i, o),
    ensures
        !text::has_at(pre + t + rest, o, pre.len() + i),
{
    let s = pre + t + rest;
    let k = choose|k: int| 0 <= k < o.len() && i + k < t.len() && #[trigger] o[k] != t[i + k];
    if text::has_at(s, o, pre.len() + i) {
        assert(s.subrange(pre.len() + i, pre.len() + i + o.len())[k] == o[k]);
        assert(s[pre.len() + i + k] == t[i + k]);
    }
}

proof fn openers_start_with_bracket()
    ensures
        "<telegram-message "@.len() > 0 && "<telegram-message "@[0] == '<',
        "<telegram-message>"@.len() > 0 && "<telegram-message>"@[0] == '<',
        "<telegram-reaction "@.len() > 0 && "<telegram-reaction "@[0] == '<',
{
    reveal_strlit("<telegram-message ");
    reveal_strlit("<telegram-message>");
    reveal_strlit("<telegram-reaction ");
}

/// Plain text is passed over to its end, whatever element follows it.
proof fn plain_text_is_passed(
    pre: Seq<char>,
    t: Seq<char>,
    rest: Seq<char>,
    start: int,
    i: int,
)
    requires
        0 <= i <= t.len(),
        plain_from(t, i),
        rest.len() > 0 ==> rest[0] == '<',
    ensures
        markup::nodes_from(pre + t + rest, start, pre.len() + i) == markup::nodes_from(
            pre + t + rest,
            start,
            (pre.len() + t.len()) as int,
        ),
    decreases t.len() - i,
{
    let s = pre + t + rest;
    let n = pre.len() as int;
    if i < t.len() {
        assert(s[n + i] == t[i]);
        if t[i] == '`' {
            closed_code_end_bounds(t, i);
            let e = closed_code_end(t, i)->0;
            let fence = seq!['`', '`', '`'];
            if text::has_at(t, fence, i) {
                has_at_inside(pre, t, rest, fence, i);
                find_inside(pre, t, rest, seq!['\n'], i + 3);
                let line = text::find_from(t, seq!['\n'], i + 3)->0;
                text::find_is_first(t, seq!['\n'], i + 3);
                find_inside(pre, t, rest, fence, line);
            } else {
                if text::has_at(s, fence, n + i) {
                    assert(s.subrange(n + i, n + i + 3)[1] == '`');
                    assert(s.subrange(n + i, n + i + 3)[2] == '`');
                    if i + 3 <= t.len() {
                        has_at_inside(pre, t, rest, fence, i);
                    } else {
                        assert(s[n + t.len()] == rest[0]);
                    }
                }
                find_inside(pre, t, rest, seq!['`'], i + 1);
            }
            assert(markup::code_end(s, n + i) == n + e);
            plain_text_is_passed(pre, t, rest, start, e);
        } else {
            openers_start_with_bracket();
            if t[i] == '<' {
                not_tag_like(pre, t, rest, i, "<telegram-message "@);
                not_tag_like(pre, t, rest, i, "<telegram-message>"@);
                not_tag_like(pre, t, rest, i, "<telegram-reaction "@);
            } else {
                if text::has_at(s, "<telegram-message "@, n + i) {
                    assert(s.subrange(n + i, n + i + "<telegram-message "@.len())[0] == s[n + i]);
                }
                if text::has_at(s, "<telegram-message>"@, n + i) {
                    assert(s.subrange(n + i, n + i + "<telegram-message>"@.len())[0] == s[n + i]);
                }
                if text::has_at(s, "<telegram-reaction "@, n + i) {
                    assert(s.subrange(n + i, n + i + "<telegram-reaction "@.len())[0] == s[n + i]);
                }
            }
            assert(markup::element_at(s, n + i) is None);
            plain_text_is_passed(pre, t, rest, start, i + 1);
        }
    }
}

/// An element node is read where its text starts.
pub proof fn element_is_read_back(pre: Seq<char>, n: NodeView, rest: Seq<char>)
    requires
        node_writable(n),
        !(n is Text),
    ensures
        markup::element_at(pre + markup::node_text(n) + rest, pre.len() as int) == Some(
            (n, (pre + markup::node_text(n)).len() as int),
        ),
        markup::node_text(n).len() > 0,
        markup::node_text(n)[0] == '<',
{
    match n {
        NodeView::Message(m) => {
            message_is_read_back(pre, m, rest);
        },
        NodeView::Reaction(r) => {
            reaction_is_read_back(pre, r, rest);
        },
        NodeView::Text(_) => {},
    }
}

/// Writing two documents one after the other is writing them as one.
pub proof fn document_text_concat(a: Seq<NodeView>, b: Seq<NodeView>)
    ensures
        markup::document_text(a + b) == markup::document_text(a) + markup::document_text(b),
    decreases a.len(),
{
    if a.len() == 0 {
        assert(a + b =~= b);
        assert(markup::document_text(a) + markup::document_text(b) =~= markup::document_text(b));
    } else {
        assert((a + b).drop_first() =~= a.drop_first() + b);
        document_text_concat(a.drop_first(), b);
        assert(markup::document_text(a + b) =~= markup::document_text(a)
            + markup::document_text(b));
    }
}

/// A text before a document that starts and ends with an element reads as that text's node
/// before the document's nodes, whatever follows.
proof fn nodes_after_text(pre: Seq<char>, t: Seq<char>, doc: Seq<NodeView>, rest: Seq<char>)
    requires
        writable(doc),
        doc.len() > 0,
        !(doc[0] is Text),
        !(doc.last() is Text),
    ensures
        ({
            let s = pre + t + markup::document_text(doc) + rest;
            let n = (pre + t + markup::document_text(doc)).len() as int;
            markup::nodes_from(s, pre.len() as int, (pre + t).len() as int) == markup::text_nodes(t)
                + doc + markup::nodes_from(s, n, n)
        }),
    decreases doc.len(), 1int,
{
    let s = pre + t + markup::document_text(doc) + rest;
    let i = (pre + t).len() as int;
    let n = doc[0];
    let tail = doc.drop_first();
    let after = markup::document_text(tail) + rest;
    assert(node_writable(n));
    element_is_read_back(pre + t, n, after);
    assert(s =~= pre + t + markup::node_text(n) + after);
    assert(s[i] == markup::node_text(n)[0]);
    assert(s.subrange(pre.len() as int, i) =~= t);
    let last = markup::nodes_from(
        s,
        (pre + t + markup::document_text(doc)).len() as int,
        (pre + t + markup::document_text(doc)).len() as int,
    );
    if tail.len() == 0 {
        assert(markup::document_text(doc) =~= markup::node_text(n));
        assert(markup::text_nodes(t) + seq![n] + last =~= markup::text_nodes(t) + doc + last);
    } else {
        tail_writable(doc);
        assert(tail.last() == doc.last());
        document_then(pre + t + markup::node_text(n), tail, rest);
        assert(s =~= (pre + t + markup::node_text(n)) + markup::document_text(tail) + rest);
        assert(markup::text_nodes(t) + seq![n] + (tail + last) =~= markup::text_nodes(t) + doc
            + last);
    }
}

proof fn tail_writable(doc: Seq<NodeView>)
    requires
        writable(doc),
        doc.len() > 0,
    ensures
        writable(doc.drop_first()),
{
    let tail = doc.drop_first();
    assert forall|i: int| 0 <= i < tail.len() implies node_writable(#[trigger] tail[i]) by {
        assert(tail[i] == doc[i + 1]);
    }
    assert forall|i: int, j: int| 0 <= i && j == i + 1 && j < tail.len() implies !(
    #[trigger] tail[i] is Text && #[trigger] tail[j] is Text) by {
        assert(tail[i] == doc[i + 1] && tail[j] == doc[j + 1]);
    }
}

/// A written document that ends with an element is read back from where it starts, and the
/// reading goes on behind it.
pub proof fn document_then(pre: Seq<char>, doc: Seq<NodeView>, rest: Seq<char>)
    requires
        writable(doc),
        doc.len() > 0,
        !(doc.last() is Text),
    ensures
        ({
            let s = pre + markup::document_text(doc) + rest;
            let n = (pre + markup::document_text(doc)).len() as int;
            markup::nodes_from(s, pre.len() as int, pre.len() as int) == doc + markup::nodes_from(
                s,
                n,
                n,
            )
        }),
    decreases doc.len(), 2int,
{
    let none = Seq::<char>::empty();
    let s = pre + markup::document_text(doc) + rest;
    let n = (pre + markup::document_text(doc)).len() as int;
    if !(doc[0] is Text) {
        nodes_after_text(pre, none, doc, rest);
        assert(pre + none =~= pre);
        assert(markup::text_nodes(none) + doc =~= doc);
    } else {
        let t = doc[0]->Text_0;
        let tail = doc.drop_first();
        assert(node_writable(doc[0]));
        tail_writable(doc);
        assert(tail.last() == doc.last());
        let after = markup::document_text(tail) + rest;
        assert(s =~= pre + t + after);
        assert(pre + markup::document_text(doc) =~= pre + t + markup::document_text(tail));
        assert(tail[0] == doc[1]);
        assert(!(doc[0] is Text && doc[1] is Text));
        assert(node_writable(tail[0]));
        element_is_read_back(none, tail[0], none);
        assert(after[0] == markup::node_text(tail[0])[0]);
        plain_text_is_passed(pre, t, after, pre.len() as int, 0);
        nodes_after_text(pre, t, tail, rest);
        assert(s =~= pre + t + markup::document_text(tail) + rest);
        let last = markup::nodes_from(s, n, n);
        assert(markup::text_nodes(t) + tail + last =~= doc + last);
    }
}

/// Reading what was written gives the document back: `parse` undoes `serialize` on every
/// document whose nodes their written forms can carry.
pub proof fn parse_undoes_serialize(doc: Seq<NodeView>)
    requires
        writable(doc),
    ensures
        markup::document(markup::document_text(doc)) == doc,
{
    let none = Seq::<char>::empty();
    let s = markup::document_text(doc);
    let n = s.len() as int;
    assert(s.subrange(n, n) =~= none);
    if doc.len() == 0 {
        assert(s.subrange(0, n) =~= none);
    } else if !(doc.last() is Text) {
        document_then(none, doc, none);
        assert(none + s + none =~= s);
        assert(none + s =~= s);
        assert(doc + markup::text_nodes(none) =~= doc);
    } else {
        let init = doc.drop_last();
        let t = doc.last()->Text_0;
        assert(node_writable(doc.last()));
        assert(init + seq![doc.last()] =~= doc);
        document_text_concat(init, seq![doc.last()]);
        assert(seq![doc.last()].drop_first() =~= Seq::<NodeView>::empty());
        reveal_with_fuel(markup::document_text, 2);
        assert(markup::document_text(seq![doc.last()]) =~= t);
        let head = markup::document_text(init);
        let m = head.len() as int;
        assert(s =~= head + t + none);
        plain_text_is_passed(head, t, none, m, 0);
        assert(s.subrange(m, n) =~= t);
        if init.len() > 0 {
            assert forall|i: int| 0 <= i < init.len() implies node_writable(#[trigger] init[i]) by {
                assert(init[i] == doc[i]);
            }
            assert forall|i: int, j: int| 0 <= i && j == i + 1 && j < init.len() implies !(
            #[trigger] init[i] is Text && #[trigger] init[j] is Text) by {
                assert(init[i] == doc[i] && init[j] == doc[j]);
            }
            assert(init.last() == doc[doc.len() - 2]);
            assert(!(doc[doc.len() - 2] is Text && doc[doc.len() - 1] is Text));
            document_then(none, init, t);
            assert(none + head + t =~= s);
            assert(none + head =~= head);
        } else {
            assert(head =~= none);
        }
        assert(init + markup::text_nodes(t) =~= doc);
    }
}

/// Plain text is one text node, character for character.
pub proof fn plain_text_is_one_node(t: Seq<char>)
    requires
        t.len() > 0,
        plain_from(t, 0),
    ensures
        markup::document(t) == seq![NodeView::Text(t)],
{
    let doc = seq![NodeView::Text(t)];
    assert(writable(doc));
    parse_undoes_serialize(doc);
    assert(doc.drop_first() =~= Seq::<NodeView>::empty());
    reveal_with_fuel(markup::document_text, 2);
    assert(markup::document_text(doc) =~= t);
}

// ---------------------------------------------------------------------------
// What reading gives
// ---------------------------------------------------------------------------

/// Every value of a tag is a part of it without a quote.
proof fn values_are_parts(t: Seq<char>, i: int, k: int)
    requires
        0 <= i,
        0 <= k < markup::attrs_from(t, i).len(),
    ensures
        exists|a: int, b: int|
            0 <= a <= b <= t.len() && #[trigger] t.subrange(a, b) == markup::attrs_from(t, i)[k].1
                && lacks(t.subrange(a, b), '"'),
    decreases t.len() - i,
{
    if i < t.len() {
        if !markup::name_char(t[i]) {
            values_are_parts(t, i + 1, k);
        } else {
            let e = markup::name_end(t, i);
            markup::name_end_bounds(t, i);
            let quote = seq!['"'];
            text::find_is_first(t, quote, e + 2);
            if e + 1 >= t.len() || t[e] != '=' || t[e + 1] != '"' {
                values_are_parts(t, e, k);
            } else {
                let q = text::find_from(t, quote, e + 2)->0;
                if k == 0 {
                    let v = t.subrange(e + 2, q);
                    assert forall|x: int| 0 <= x < v.len() implies #[trigger] v[x] != '"' by {
                        if v[x] == '"' {
                            assert(t.subrange(e + 2 + x, e + 2 + x + 1) =~= quote);
                            assert(text::has_at(t, quote, e + 2 + x));
                        }
                    }
                    assert(t.subrange(e + 2, q) == markup::attrs_from(t, i)[k].1);
                } else {
                    values_are_parts(t, q + 1, k - 1);
                    assert(markup::attrs_from(t, i)[k] == markup::attrs_from(t, q + 1)[k - 1]);
                }
            }
        }
    }
}

proof fn attr_is_in(attrs: Seq<(Seq<char>, Seq<char>)>, name: Seq<char>)
    ensures
        markup::attr(attrs, name) matches Some(v) ==> exists|k: int|
            0 <= k < attrs.len() && (#[trigger] attrs[k]).1 == v,
    decreases attrs.len(),
{
    if attrs.len() > 0 && attrs[0].0 != name {
        let tail = attrs.drop_first();
        attr_is_in(tail, name);
        if let Some(v) = markup::attr(tail, name) {
            let k = choose|k: int| 0 <= k < tail.len() && (#[trigger] tail[k]).1 == v;
            assert(attrs[k + 1].1 == v);
        }
    }
}

/// A value read from a tag has no quote, and holds no character or pattern that the tag lacks.
proof fn read_value_is_clean(tag: Seq<char>, name: Seq<char>, c: char, p: Seq<char>)
    ensures
        markup::attr(markup::attrs_from(tag, 0), name) matches Some(v) ==> lacks(v, '"') && (lacks(
            tag,
            c,
        ) ==> lacks(v, c)) && (!text::contains_text(tag, p) ==> !text::contains_text(v, p)),
{
    let attrs = markup::attrs_from(tag, 0);
    attr_is_in(attrs, name);
    if let Some(v) = markup::attr(attrs, name) {
        let k = choose|k: int| 0 <= k < attrs.len() && (#[trigger] attrs[k]).1 == v;
        values_are_parts(tag, 0, k);
        let (a, b) = choose|a: int, b: int|
            0 <= a <= b <= tag.len() && #[trigger] tag.subrange(a, b) == attrs[k].1 && lacks(
                tag.subrange(a, b),
                '"',
            );
        if lacks(tag, c) {
            assert forall|x: int| 0 <= x < v.len() implies #[trigger] v[x] != c by {
                assert(v[x] == tag[a + x]);
            }
        }
        if !text::contains_text(tag, p) {
            assert forall|x: int| !#[trigger] text::has_at(v, p, x) by {
                if text::has_at(v, p, x) {
                    assert(tag.subrange(a + x, a + x + p.len()) =~= v.subrange(x, x + p.len()));
                    assert(text::has_at(tag, p, a + x));
                }
            }
        }
    }
}

/// A part of a text before the first place of a pattern does not hold the pattern.
proof fn free_before_first(s: Seq<char>, p: Seq<char>, i: int)
    requires
        0 <= i,
        p.len() > 0,
    ensures
        text::find_from(s, p, i) matches Some(j) ==> !text::contains_text(s.subrange(i, j), p),
{
    text::find_is_first(s, p, i);
    if let Some(j) = text::find_from(s, p, i) {
        let part = s.subrange(i, j);
        assert forall|x: int| !#[trigger] text::has_at(part, p, x) by {
            if text::has_at(part, p, x) {
                assert(s.subrange(i + x, i + x + p.len()) =~= part.subrange(x, x + p.len()));
                assert(text::has_at(s, p, i + x));
            }
        }
    }
}

/// An element that was read can be written.
pub proof fn read_element_is_writable(s: Seq<char>, i: int)
    requires
        0 <= i < s.len(),
    ensures
        markup::element_at(s, i) matches Some((n, e)) ==> node_writable(n) && !(n is Text),
{
    let close = seq!['>'];
    let self_close = seq!['/', '>'];
    let end = "</telegram-message>"@;
    end_tag_starts_once();
    if let Some((n, e)) = markup::element_at(s, i) {
        match n {
            NodeView::Message(m) => {
                let c = text::find_from(s, close, i)->0;
                let tag = s.subrange(i, c);
                text::find_is_first(s, close, i);
                assert(lacks(tag, '>')) by {
                    assert forall|x: int| 0 <= x < tag.len() implies #[trigger] tag[x] != '>' by {
                        if tag[x] == '>' {
                            assert(s.subrange(i + x, i + x + 1) =~= close);
                            assert(text::has_at(s, close, i + x));
                        }
                    }
                }
                read_value_is_clean(tag, "from"@, '>', close);
                read_value_is_clean(tag, "to"@, '>', close);
                read_value_is_clean(tag, "id"@, '>', close);
                read_value_is_clean(tag, "date"@, '>', close);
                free_before_first(s, end, c + 1);
            },
            NodeView::Reaction(r) => {
                let q = text::find_from(s, self_close, i)->0;
                let tag = s.subrange(i, q);
                free_before_first(s, self_close, i);
                read_value_is_clean(tag, "from"@, '"', self_close);
                read_value_is_clean(tag, "action"@, '"', self_close);
                read_value_is_clean(tag, "emoji"@, '"', self_close);
                read_value_is_clean(tag, "message-id"@, '"', self_close);
                read_value_is_clean(tag, "date"@, '"', self_close);
            },
            NodeView::Text(_) => {},
        }
    }
}

/// What was read has elements that can be written, texts that are not empty, and no two texts
/// side by side.
pub open spec fn well_read(doc: Seq<NodeView>) -> bool {
    &&& forall|i: int|
        0 <= i < doc.len() ==> (match #[trigger] doc[i] {
            NodeView::Text(t) => t.len() > 0,
            n => node_writable(n),
        })
    &&& forall|i: int, j: int|
        0 <= i && j == i + 1 && j < doc.len() ==> !(#[trigger] doc[i] is Text
            && #[trigger] doc[j] is Text)
}

/// Every document that was read is well read.
pub proof fn documents_are_well_read(s: Seq<char>, start: int, i: int)
    requires
        0 <= start <= i <= s.len(),
    ensures
        well_read(markup::nodes_from(s, start, i)),
    decreases s.len() - i,
{
    if i < s.len() {
        markup::code_end_bounds(s, i);
        markup::element_at_bounds(s, i);
        if s[i] == '`' {
            documents_are_well_read(s, start, markup::code_end(s, i));
        } else {
            match markup::element_at(s, i) {
                Some((n, e)) => {
                    read_element_is_writable(s, i);
                    documents_are_well_read(s, e, e);
                    let doc = markup::nodes_from(s, start, i);
                    let head = markup::text_nodes(s.subrange(start, i));
                    let rest = markup::nodes_from(s, e, e);
                    assert(doc == head + seq![n] + rest);
                    assert forall|x: int, y: int| 0 <= x && y == x + 1 && y < doc.len() implies !(
                    #[trigger] doc[x] is Text && #[trigger] doc[y] is Text) by {
                        if x > head.len() {
                            assert(doc[x] == rest[x - head.len() - 1]);
                            assert(doc[y] == rest[y - head.len() - 1]);
                        }
                    }
                    assert forall|x: int| 0 <= x < doc.len() implies (match #[trigger] doc[x] {
                        NodeView::Text(t) => t.len() > 0,
                        n => node_writable(n),
                    }) by {
                        if x > head.len() {
                            assert(doc[x] == rest[x - head.len() - 1]);
                        }
                    }
                },
                None => {
                    documents_are_well_read(s, start, i + 1);
                },
            }
        }
    }
}

} // verus!
