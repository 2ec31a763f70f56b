//! Reading a document again after it was written anew: when its texts are still texts.

use vstd::prelude::*;
use crate::channel::adapter::markup;
use crate::channel::adapter::markup::NodeView;
use crate::channel::adapter::round_trip;
use crate::text;
use vstd::string::*;

verus! {

// ---------------------------------------------------------------------------
// Passing over text
// ---------------------------------------------------------------------------

/// Reading `s` from position `i` on reaches position `n` without meeting an element.
#[verifier::opaque]
pub open spec fn passed(s: Seq<char>, n: int, i: int) -> bool
    decreases s.len() - i,
{
    if i < 0 || i >= n || i >= s.len() {
        i == n
    } else if s[i] == '`' {
        proof {
            markup::code_end_bounds(s, i);
        }
        passed(s, n, markup::code_end(s, i))
    } else {
        markup::element_at(s, i) is None && passed(s, n, i + 1)
    }
}

/// How far one step of the reading goes.
proof fn passed_step(s: Seq<char>, n: int, i: int)
    requires
        0 <= i <= s.len(),
    ensures
        passed(s, n, i) ==> i <= n,
        i >= n || i >= s.len() ==> passed(s, n, i) == (i == n),
        i < n && i < s.len() && s[i] == '`' ==> {
            &&& i < markup::code_end(s, i) <= s.len()
            &&& passed(s, n, i) == passed(s, n, markup::code_end(s, i))
        },
        i < n && i < s.len() && s[i] != '`' ==> passed(s, n, i) == (markup::element_at(s, i) is None
            && passed(s, n, i + 1)),
{
    reveal(passed);
    if i < s.len() {
        markup::code_end_bounds(s, i);
    }
}

/// What is passed over in two parts is passed over.
proof fn passed_then(s: Seq<char>, a: int, b: int, c: int)
    requires
        0 <= a <= s.len(),
        b <= c <= s.len(),
        passed(s, b, a),
        passed(s, c, b),
    ensures
        passed(s, c, a),
    decreases s.len() - a,
{
    passed_step(s, b, a);
    passed_step(s, c, a);
    if a < b {
        if s[a] == '`' {
            passed_then(s, markup::code_end(s, a), b, c);
        } else {
            passed_then(s, a + 1, b, c);
        }
    }
}

/// Text that is passed over stays in the open text node.
proof fn passed_text_stays_open(s: Seq<char>, start: int, i: int, n: int)
    requires
        0 <= i <= n <= s.len(),
        passed(s, n, i),
    ensures
        markup::nodes_from(s, start, i) == markup::nodes_from(s, start, n),
    decreases s.len() - i,
{
    passed_step(s, n, i);
    if i < n {
        if s[i] == '`' {
            let e = markup::code_end(s, i);
            passed_step(s, n, e);
            passed_text_stays_open(s, start, e, n);
        } else {
            passed_text_stays_open(s, start, i + 1, n);
        }
    }
}

// ---------------------------------------------------------------------------
// Where the texts of a document come from
// ---------------------------------------------------------------------------

/// A text that stands in `s` before an element, and was passed over.
pub open spec fn was_passed(s: Seq<char>, x: Seq<char>, a: int, b: int) -> bool {
    &&& 0 <= a <= b < s.len()
    &&& x == s.subrange(a, b)
    &&& passed(s, b, a)
    &&& markup::element_at(s, b) is Some
}

/// A node that, where it is a text, was passed over before an element.
pub open spec fn came_from(s: Seq<char>, n: NodeView) -> bool {
    n matches NodeView::Text(x) ==> exists|a: int, b: int| was_passed(s, x, a, b)
}

/// Every text of a document that has a node behind it was passed over before an element.
proof fn texts_were_passed(s: Seq<char>, start: int, i: int)
    requires
        0 <= start <= i <= s.len(),
        passed(s, i, start),
    ensures
        forall|q: int|
            0 <= q < markup::nodes_from(s, start, i).len() - 1 ==> came_from(
                s,
                #[trigger] markup::nodes_from(s, start, i)[q],
            ),
    decreases s.len() - i,
{
    if i < s.len() {
        markup::code_end_bounds(s, i);
        markup::element_at_bounds(s, i);
        if s[i] == '`' {
            let e = markup::code_end(s, i);
            passed_step(s, e, i);
            passed_step(s, e, e);
            passed_then(s, start, i, e);
            texts_were_passed(s, start, e);
            assert(markup::nodes_from(s, start, i) == markup::nodes_from(s, start, e));
        } else {
            match markup::element_at(s, i) {
                Some((n, e)) => {
                    round_trip::read_element_is_writable(s, i);
                    passed_step(s, e, e);
                    texts_were_passed(s, e, e);
                    let doc = markup::nodes_from(s, start, i);
                    let head = markup::text_nodes(s.subrange(start, i));
                    let rest = markup::nodes_from(s, e, e);
                    assert(doc == head + seq![n] + rest);
                    assert forall|q: int| 0 <= q < doc.len() - 1 implies came_from(
                        s,
                        #[trigger] doc[q],
                    ) by {
                        if q < head.len() {
                            let x = s.subrange(start, i);
                            assert(doc[q]->Text_0 == x);
                            assert(was_passed(s, doc[q]->Text_0, start, i));
                        } else if q > head.len() {
                            let p = q - head.len() - 1;
                            assert(0 <= p < rest.len() - 1);
                            assert(doc[q] == rest[p]);
                        } else {
                            assert(doc[q] == n);
                        }
                    }
                },
                None => {
                    passed_step(s, i + 1, i);
                    passed_step(s, i + 1, i + 1);
                    passed_then(s, start, i, i + 1);
                    texts_were_passed(s, start, i + 1);
                    assert(markup::nodes_from(s, start, i) == markup::nodes_from(s, start, i + 1));
                },
            }
        }
    } else {
        assert(markup::nodes_from(s, start, i).len() <= 1);
    }
}

// ---------------------------------------------------------------------------
// Texts in another place
// ---------------------------------------------------------------------------

/// What starts an element's tag at position `i`, if anything does, is closed in the text and is no
/// element, whatever follows.
pub open spec fn dead(x: Seq<char>, i: int) -> bool {
    &&& text::has_at(x, "<telegram-message "@, i) || text::has_at(x, "<telegram-message>"@, i) ==> {
        &&& text::find_from(x, seq!['>'], i) matches Some(c)
        &&& {
            let tag = x.subrange(i, c);
            let attrs = markup::attrs_from(tag, 0);
            ||| tag.len() > 0 && tag.last() == '/'
            ||| markup::attr(attrs, "from"@) is None
            ||| markup::attr(attrs, "to"@) is None
        }
    }
    &&& text::has_at(x, "<telegram-reaction "@, i) ==> {
        &&& text::find_from(x, seq!['/', '>'], i) matches Some(e)
        &&& {
            let attrs = markup::attrs_from(x.subrange(i, e), 0);
            ||| markup::attr(attrs, "from"@) is None
            ||| markup::attr(attrs, "action"@) is None
            ||| markup::attr(attrs, "emoji"@) is None
            ||| markup::attr(attrs, "message-id"@) is None
        }
    }
}

/// From position `i` on, outside its code spans, the text leaves no element's tag open.
pub open spec fn calm_from(x: Seq<char>, i: int) -> bool
    decreases x.len() - i,
{
    if i < 0 || i >= x.len() {
        true
    } else if x[i] == '`' {
        proof {
            round_trip::closed_code_end_bounds(x, i);
        }
        match round_trip::closed_code_end(x, i) {
            Some(e) => calm_from(x, e),
            None => true,
        }
    } else {
        dead(x, i) && calm_from(x, i + 1)
    }
}

/// A code span ends within a part of a text exactly where it is closed there.
proof fn code_end_inside(pre: Seq<char>, x: Seq<char>, rest: Seq<char>, i: int)
    requires
        0 <= i < x.len(),
        x[i] == '`',
        rest.len() > 0,
        rest[0] == '<',
    ensures
        match round_trip::closed_code_end(x, i) {
            Some(e) => markup::code_end(pre + x + rest, pre.len() + i) == pre.len() + e,
            None => markup::code_end(pre + x + rest, pre.len() + i) > pre.len() + x.len(),
        },
{
    let s = pre + x + rest;
    let n = pre.len() as int;
    let m = n + x.len();
    let fence = seq!['`', '`', '`'];
    let tick = seq!['`'];
    let newline = seq!['\n'];
    assert(s[m] == '<');
    if text::has_at(s, fence, n + i) && i + 3 > x.len() {
        assert(s.subrange(n + i, n + i + 3)[m - n - i] == '`');
    }
    if i + 3 <= x.len() {
        round_trip::has_at_inside(pre, x, rest, fence, i);
    }
    if text::has_at(x, fence, i) {
        text::find_is_first(x, newline, i + 3);
        text::find_is_first(s, newline, n + i + 3);
        match text::find_from(x, newline, i + 3) {
            Some(line) => {
                round_trip::find_inside(pre, x, rest, newline, i + 3);
                text::find_is_first(x, fence, line);
                text::find_is_first(s, fence, n + line);
                match text::find_from(x, fence, line) {
                    Some(_) => {
                        round_trip::find_inside(pre, x, rest, fence, line);
                    },
                    None => {
                        if let Some(q) = text::find_from(s, fence, n + line) {
                            if q + 3 <= m {
                                round_trip::has_at_inside(pre, x, rest, fence, q - n);
                            }
                        }
                    },
                }
            },
            None => {
                let line = match text::find_from(s, newline, n + i + 3) {
                    Some(j) => j,
                    None => s.len() as int,
                };
                assert(line >= m) by {
                    if line < m {
                        round_trip::has_at_inside(pre, x, rest, newline, line - n);
                    }
                }
                text::find_is_first(s, fence, line);
            },
        }
    } else {
        text::find_is_first(x, tick, i + 1);
        text::find_is_first(s, tick, n + i + 1);
        match text::find_from(x, tick, i + 1) {
            Some(_) => {
                round_trip::find_inside(pre, x, rest, tick, i + 1);
            },
            None => {
                if let Some(q) = text::find_from(s, tick, n + i + 1) {
                    if q < m {
                        round_trip::has_at_inside(pre, x, rest, tick, q - n);
                    }
                }
            },
        }
    }
}

/// A pattern with no second `<` that stands in the whole from within a part, before a `<`, stands
/// in the part.
proof fn opener_inside(pre: Seq<char>, x: Seq<char>, rest: Seq<char>, o: Seq<char>, i: int)
    requires
        0 <= i < x.len(),
        rest.len() > 0,
        rest[0] == '<',
        forall|k: int| 0 < k < o.len() ==> #[trigger] o[k] != '<',
    ensures
        text::has_at(pre + x + rest, o, pre.len() + i) ==> text::has_at(x, o, i) && i + o.len()
            <= x.len(),
{
    let s = pre + x + rest;
    let n = pre.len() as int;
    if text::has_at(s, o, n + i) {
        if i + o.len() > x.len() {
            let k = x.len() - i;
            assert(s.subrange(n + i, n + i + o.len())[k] == s[n + x.len()]);
            assert(o[k] == '<');
        } else {
            round_trip::has_at_inside(pre, x, rest, o, i);
        }
    }
}

proof fn openers_have_one_bracket()
    ensures
        forall|k: int|
            0 < k < "<telegram-message "@.len() ==> #[trigger] "<telegram-message "@[k] != '<',
        forall|k: int|
            0 < k < "<telegram-message>"@.len() ==> #[trigger] "<telegram-message>"@[k] != '<',
        forall|k: int|
            0 < k < "<telegram-reaction "@.len() ==> #[trigger] "<telegram-reaction "@[k] != '<',
{
    reveal_strlit("<telegram-message ");
    reveal_strlit("<telegram-message>");
    reveal_strlit("<telegram-reaction ");
}

/// Where a text leaves no tag open, no element starts in it, whatever element follows.
proof fn dead_is_no_element(pre: Seq<char>, x: Seq<char>, rest: Seq<char>, i: int)
    requires
        0 <= i < x.len(),
        dead(x, i),
        rest.len() > 0,
        rest[0] == '<',
    ensures
        markup::element_at(pre + x + rest, pre.len() + i) is None,
{
    let s = pre + x + rest;
    let n = pre.len() as int;
    openers_have_one_bracket();
    opener_inside(pre, x, rest, "<telegram-message "@, i);
    opener_inside(pre, x, rest, "<telegram-message>"@, i);
    opener_inside(pre, x, rest, "<telegram-reaction "@, i);
    if text::has_at(s, "<telegram-message "@, n + i) || text::has_at(
        s,
        "<telegram-message>"@,
        n + i,
    ) {
        let close = seq!['>'];
        round_trip::find_inside(pre, x, rest, close, i);
        text::find_is_first(x, close, i);
        let c = text::find_from(x, close, i)->0;
        assert(s.subrange(n + i, n + c) =~= x.subrange(i, c));
    } else if text::has_at(s, "<telegram-reaction "@, n + i) {
        let close = seq!['/', '>'];
        round_trip::find_inside(pre, x, rest, close, i);
        text::find_is_first(x, close, i);
        let e = text::find_from(x, close, i)->0;
        assert(s.subrange(n + i, n + e) =~= x.subrange(i, e));
    }
}

/// An element starts with a bracket.
proof fn element_starts_with_bracket(s: Seq<char>, b: int)
    requires
        0 <= b < s.len(),
        markup::element_at(s, b) is Some,
    ensures
        s[b] == '<',
        text::has_at(s, "<telegram-"@, b),
{
    reveal_strlit("<telegram-message ");
    reveal_strlit("<telegram-message>");
    reveal_strlit("<telegram-reaction ");
    reveal_strlit("<telegram-");
    let o = if text::has_at(s, "<telegram-message "@, b) {
        "<telegram-message "@
    } else if text::has_at(s, "<telegram-message>"@, b) {
        "<telegram-message>"@
    } else {
        "<telegram-reaction "@
    };
    assert forall|k: int| 0 <= k < 10 implies #[trigger] s[b + k] == "<telegram-"@[k] by {
        assert(s.subrange(b, b + o.len())[k] == s[b + k]);
        assert(o[k] == "<telegram-"@[k]);
    }
    assert(s.subrange(b, b + 10) =~= "<telegram-"@);
    assert(s[b + 0] == "<telegram-"@[0]);
}

/// A code span that ends within a text before an element ends at the same place wherever that text
/// stands before an element.
proof fn same_code_end(s: Seq<char>, a: int, b: int, pre: Seq<char>, rest: Seq<char>, i: int)
    requires
        0 <= a <= a + i < b < s.len(),
        s[a + i] == '`',
        s[b] == '<',
        markup::code_end(s, a + i) <= b,
        rest.len() > 0,
        rest[0] == '<',
    ensures
        round_trip::closed_code_end(s.subrange(a, b), i) == Some(markup::code_end(s, a + i) - a),
        markup::code_end(pre + s.subrange(a, b) + rest, pre.len() + i) == pre.len()
            + markup::code_end(s, a + i) - a,
{
    let x = s.subrange(a, b);
    let before = s.subrange(0, a);
    let after = s.subrange(b, s.len() as int);
    assert(s =~= before + x + after);
    assert(x[i] == '`');
    code_end_inside(before, x, after, i);
    code_end_inside(pre, x, rest, i);
}

/// A text that was passed over before an element, and leaves no tag open, is passed over wherever
/// it stands before an element.
proof fn calm_text_is_passed(
    s: Seq<char>,
    x: Seq<char>,
    a: int,
    b: int,
    pre: Seq<char>,
    rest: Seq<char>,
    i: int,
)
    requires
        0 <= a <= b < s.len(),
        x == s.subrange(a, b),
        s[b] == '<',
        0 <= i <= x.len(),
        passed(s, b, a + i),
        calm_from(x, i),
        rest.len() > 0,
        rest[0] == '<',
    ensures
        passed(pre + x + rest, (pre.len() + x.len()) as int, pre.len() + i),
    decreases x.len() - i,
{
    let w = pre + x + rest;
    let n = pre.len() as int;
    passed_step(w, n + x.len(), n + i);
    passed_step(s, b, a + i);
    if i < x.len() {
        assert(w[n + i] == x[i]);
        assert(s[a + i] == x[i]);
        if x[i] == '`' {
            let e = markup::code_end(s, a + i);
            passed_step(s, b, e);
            same_code_end(s, a, b, pre, rest, i);
            calm_text_is_passed(s, x, a, b, pre, rest, e - a);
        } else {
            dead_is_no_element(pre, x, rest, i);
            calm_text_is_passed(s, x, a, b, pre, rest, i + 1);
        }
    }
}

/// A text without the start of any tag leaves none open.
proof fn untagged_is_calm(x: Seq<char>, i: int)
    requires
        0 <= i,
        forall|k: int| i <= k < x.len() ==> !#[trigger] text::has_at(x, "<telegram-"@, k),
    ensures
        calm_from(x, i),
    decreases x.len() - i,
{
    if i < x.len() {
        if x[i] == '`' {
            round_trip::closed_code_end_bounds(x, i);
            if let Some(e) = round_trip::closed_code_end(x, i) {
                untagged_is_calm(x, e);
            }
        } else {
            assert(dead(x, i)) by {
                reveal_strlit("<telegram-message ");
                reveal_strlit("<telegram-message>");
                reveal_strlit("<telegram-reaction ");
                reveal_strlit("<telegram-");
                if !dead(x, i) {
                    let o = if text::has_at(x, "<telegram-message "@, i) {
                        "<telegram-message "@
                    } else if text::has_at(x, "<telegram-message>"@, i) {
                        "<telegram-message>"@
                    } else {
                        "<telegram-reaction "@
                    };
                    assert(text::has_at(x, o, i));
                    assert forall|k: int| 0 <= k < 10 implies x[i + k] == "<telegram-"@[k] by {
                        assert(x.subrange(i, i + o.len())[k] == x[i + k]);
                        assert(o[k] == "<telegram-"@[k]);
                    }
                    assert(x.subrange(i, i + 10) =~= "<telegram-"@);
                    assert(text::has_at(x, "<telegram-"@, i));
                }
            }
            untagged_is_calm(x, i + 1);
        }
    }
}

// ---------------------------------------------------------------------------
// Documents written anew
// ---------------------------------------------------------------------------

/// Where node `i` starts in the written document.
pub open spec fn offset(doc: Seq<NodeView>, i: int) -> int {
    markup::document_text(doc.take(i)).len() as int
}

/// The texts among the first `k` nodes are passed over where they stand in the written document.
pub open spec fn texts_stay(doc: Seq<NodeView>, k: int) -> bool {
    forall|i: int|
        0 <= i < k && #[trigger] doc[i] is Text ==> passed(
            markup::document_text(doc),
            offset(doc, i + 1),
            offset(doc, i),
        )
}

/// The written document is what stands before a node, the node, and what stands behind it.
proof fn written_around(doc: Seq<NodeView>, i: int)
    requires
        0 <= i < doc.len(),
    ensures
        markup::document_text(doc) == markup::document_text(doc.take(i)) + markup::node_text(doc[i])
            + markup::document_text(doc.skip(i + 1)),
        offset(doc, i + 1) == offset(doc, i) + markup::node_text(doc[i]).len(),
        offset(doc, i + 1) <= markup::document_text(doc).len(),
{
    let head = doc.take(i);
    let one = seq![doc[i]];
    let tail = doc.skip(i + 1);
    assert(head + one =~= doc.take(i + 1));
    assert(doc.take(i + 1) + tail =~= doc);
    round_trip::document_text_concat(head, one);
    round_trip::document_text_concat(doc.take(i + 1), tail);
    assert(one.drop_first() =~= Seq::<NodeView>::empty());
    reveal_with_fuel(markup::document_text, 2);
    assert(markup::document_text(one) =~= markup::node_text(doc[i]));
}

/// An element of a written document is read where it stands.
proof fn element_node_is_read(doc: Seq<NodeView>, i: int, start: int)
    requires
        0 <= i < doc.len(),
        !(doc[i] is Text),
        round_trip::node_writable(doc[i]),
    ensures
        markup::nodes_from(markup::document_text(doc), start, offset(doc, i)) == markup::text_nodes(
            markup::document_text(doc).subrange(start, offset(doc, i)),
        ) + seq![doc[i]] + markup::nodes_from(
            markup::document_text(doc),
            offset(doc, i + 1),
            offset(doc, i + 1),
        ),
{
    let s = markup::document_text(doc);
    let pre = markup::document_text(doc.take(i));
    written_around(doc, i);
    round_trip::element_is_read_back(pre, doc[i], markup::document_text(doc.skip(i + 1)));
    assert(s[offset(doc, i)] == markup::node_text(doc[i])[0]);
}

/// The first nodes of a written document, up to an element, are read back where their texts stay
/// texts.
#[verifier::spinoff_prover]
#[verifier::rlimit(50)]
pub proof fn staying_texts_are_read_back(doc: Seq<NodeView>, k: int, i: int)
    requires
        round_trip::well_read(doc.take(k + 1)),
        0 <= i <= k < doc.len(),
        !(doc[k] is Text),
        texts_stay(doc, k),
    ensures
        markup::nodes_from(markup::document_text(doc), offset(doc, i), offset(doc, i))
            == doc.subrange(i, k + 1) + markup::nodes_from(
            markup::document_text(doc),
            offset(doc, k + 1),
            offset(doc, k + 1),
        ),
    decreases k - i,
{
    let s = markup::document_text(doc);
    let o = offset(doc, i);
    let first = doc.take(k + 1);
    let last = markup::nodes_from(s, offset(doc, k + 1), offset(doc, k + 1));
    assert(first[i] == doc[i]);
    written_around(doc, i);
    let j = if doc[i] is Text {
        i + 1
    } else {
        i
    };
    assert(first[j] == doc[j]);
    let before = s.subrange(o, offset(doc, j));
    if j > i {
        passed_text_stays_open(s, o, o, offset(doc, j));
        assert(before =~= doc[i]->Text_0);
        assert(markup::text_nodes(before) =~= seq![doc[i]]);
    } else {
        assert(markup::text_nodes(before) =~= Seq::<NodeView>::empty());
    }
    assert(markup::text_nodes(before) + seq![doc[j]] =~= doc.subrange(i, j + 1));
    element_node_is_read(doc, j, o);
    if j < k {
        staying_texts_are_read_back(doc, k, j + 1);
        assert(doc.subrange(i, j + 1) + (doc.subrange(j + 1, k + 1) + last) =~= doc.subrange(
            i,
            k + 1,
        ) + last);
    }
}

/// The first texts of a document leave no tag open.
pub open spec fn texts_are_calm(doc: Seq<NodeView>, k: int) -> bool {
    forall|i: int| 0 <= i < k ==> (#[trigger] doc[i] matches NodeView::Text(x) ==> calm_from(x, 0))
}

/// Where the texts before a node leave no tag open, they stay texts when the document is written
/// with another element in that node's place.
pub proof fn calm_texts_stay(s: Seq<char>, k: int, n: NodeView)
    requires
        0 <= k < markup::document(s).len(),
        texts_are_calm(markup::document(s), k),
        round_trip::node_writable(n),
        !(n is Text),
    ensures
        texts_stay(markup::document(s).update(k, n), k),
{
    let old_doc = markup::document(s);
    let doc = old_doc.update(k, n);
    passed_step(s, 0, 0);
    texts_were_passed(s, 0, 0);
    round_trip::documents_are_well_read(s, 0, 0);
    assert forall|i: int| 0 <= i < k && #[trigger] doc[i] is Text implies passed(
        markup::document_text(doc),
        offset(doc, i + 1),
        offset(doc, i),
    ) by {
        assert(doc[i] == old_doc[i]);
        assert(came_from(s, old_doc[i]));
        let x = old_doc[i]->Text_0;
        let (a, b) = choose|a: int, b: int| was_passed(s, x, a, b);
        element_starts_with_bracket(s, b);
        let j = i + 1;
        let pre = markup::document_text(doc.take(i));
        let rest = markup::document_text(doc.skip(j));
        written_around(doc, i);
        if j < k {
            assert(doc[j] == old_doc[j]);
            assert(!(old_doc[i] is Text && old_doc[j] is Text));
        }
        assert(doc.skip(j)[0] == doc[j]);
        round_trip::element_is_read_back(Seq::empty(), doc[j], Seq::empty());
        assert(rest[0] == markup::node_text(doc[j])[0]);
        calm_text_is_passed(s, x, a, b, pre, rest, 0);
    }
}

/// At most one tag starts in the text.
pub open spec fn one_tag(s: Seq<char>) -> bool {
    forall|i: int, j: int| #[trigger]
        text::has_at(s, "<telegram-"@, i) && #[trigger] text::has_at(s, "<telegram-"@, j) ==> i == j
}

/// In a text in which at most one tag starts, the texts before a node leave none open.
pub proof fn one_tag_leaves_texts_calm(s: Seq<char>, k: int)
    requires
        one_tag(s),
        0 <= k < markup::document(s).len(),
    ensures
        texts_are_calm(markup::document(s), k),
{
    let doc = markup::document(s);
    passed_step(s, 0, 0);
    texts_were_passed(s, 0, 0);
    assert forall|i: int| 0 <= i < k implies (#[trigger] doc[i] matches NodeView::Text(x)
        ==> calm_from(x, 0)) by {
        assert(came_from(s, doc[i]));
        if let NodeView::Text(x) = doc[i] {
            let (a, b) = choose|a: int, b: int| was_passed(s, x, a, b);
            element_starts_with_bracket(s, b);
            reveal_strlit("<telegram-");
            assert forall|q: int| 0 <= q < x.len() implies !#[trigger] text::has_at(
                x,
                "<telegram-"@,
                q,
            ) by {
                if text::has_at(x, "<telegram-"@, q) {
                    assert(s.subrange(a + q, a + q + 10) =~= x.subrange(q, q + 10));
                    assert(text::has_at(s, "<telegram-"@, a + q));
                }
            }
            untagged_is_calm(x, 0);
        }
    }
}

} // verus!
