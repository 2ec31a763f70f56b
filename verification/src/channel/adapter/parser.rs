//! What the model said: replies and reactions for Telegram, and everything else.

use vstd::prelude::*;
use crate::channel::adapter::markup;
use crate::channel::adapter::markup::{MessageView, ReactionView};
use crate::channel::adapter::round_trip;
use crate::text;
use vstd::string::*;

verus! {

/// One piece of the model's output.
#[derive(Debug, PartialEq)]
pub enum Segment {
    TelegramMessage { content: String },
    TelegramReaction { emoji: String, message_id: i32 },
    Internal(String),
}

/// What a segment says.
#[verifier::ext_equal]
pub enum SegmentView {
    TelegramMessage { content: Seq<char> },
    TelegramReaction { emoji: Seq<char>, message_id: int },
    Internal(Seq<char>),
}

impl View for Segment {
    type V = SegmentView;

    open spec fn view(&self) -> SegmentView {
        match self {
            Segment::TelegramMessage { content } => SegmentView::TelegramMessage {
                content: content@,
            },
            Segment::TelegramReaction { emoji, message_id } => SegmentView::TelegramReaction {
                emoji: emoji@,
                message_id: *message_id as int,
            },
            Segment::Internal(t) => SegmentView::Internal(t@),
        }
    }
}

/// What a list of segments says.
pub open spec fn segment_views(v: Seq<Segment>) -> Seq<SegmentView> {
    v.map_values(|s: Segment| s@)
}

/// The text between the first `name="` of a tag and the quote that closes it.
pub open spec fn quoted(tag: Seq<char>, name: Seq<char>) -> Option<Seq<char>> {
    let pattern = name + seq!['=', '"'];
    match text::find_from(tag, pattern, 0) {
        None => None,
        Some(a) => match text::find_from(tag, seq!['"'], a + pattern.len()) {
            None => None,
            Some(q) => Some(tag.subrange(a + pattern.len(), q)),
        },
    }
}

/// The reply whose tag starts at `i`, with the position after it.
pub open spec fn reply_at(s: Seq<char>, i: int) -> Option<(SegmentView, int)> {
    match text::find_from(s, seq!['>'], i) {
        None => None,
        Some(c) => match text::find_from(s, "</telegram-message>"@, c + 1) {
            None => None,
            Some(e) => Some(
                (
                    SegmentView::TelegramMessage { content: s.subrange(c + 1, e) },
                    e + "</telegram-message>"@.len(),
                ),
            ),
        },
    }
}

/// The reaction whose tag starts at `i`, with the position after it. It takes an emoji and a
/// message id that spells an `i32`.
pub open spec fn reaction_at(s: Seq<char>, i: int) -> Option<(SegmentView, int)> {
    match text::find_from(s, seq!['/', '>'], i) {
        None => None,
        Some(e) => {
            let tag = s.subrange(i, e + 2);
            match (quoted(tag, "emoji"@), quoted(tag, "message-id"@)) {
                (Some(emoji), Some(id)) => match text::i32_value(id) {
                    Some(message_id) => Some(
                        (SegmentView::TelegramReaction { emoji, message_id }, e + 2),
                    ),
                    None => None,
                },
                _ => None,
            }
        },
    }
}

/// The text is the start of a tag that the assistant wrote.
pub open spec fn assistant_tag_at(s: Seq<char>, i: int) -> bool {
    text::has_at(s, "<telegram-message from=\"assistant\""@, i) || text::has_at(
        s,
        "<telegram-reaction from=\"assistant\""@,
        i,
    )
}

/// The segment of the assistant's tag at `i`, with the position after it.
pub open spec fn tag_segment_at(s: Seq<char>, i: int) -> Option<(SegmentView, int)> {
    if text::has_at(s, "<telegram-message from=\"assistant\""@, i) {
        reply_at(s, i)
    } else {
        reaction_at(s, i)
    }
}

pub proof fn tag_segment_bounds(s: Seq<char>, i: int)
    requires
        0 <= i < s.len(),
    ensures
        tag_segment_at(s, i) matches Some((n, e)) ==> i < e <= s.len(),
{
    text::find_is_first(s, seq!['>'], i);
    text::find_is_first(s, seq!['/', '>'], i);
    if let Some(c) = text::find_from(s, seq!['>'], i) {
        text::find_is_first(s, "</telegram-message>"@, c + 1);
    }
}

/// Text outside the assistant's tags: trimmed, and nothing where nothing is left.
pub open spec fn internal_segments(t: Seq<char>) -> Seq<SegmentView> {
    if text::trim(t).len() == 0 {
        Seq::empty()
    } else {
        seq![SegmentView::Internal(text::trim(t))]
    }
}

/// The segments of `s` from position `i` on, where the internal text since `start` is still
/// open. Code spans are internal text whatever they hold, and so are other people's tags. A tag
/// of the assistant's that cannot be read closes the internal text before it.
pub open spec fn segments_from(s: Seq<char>, start: int, i: int) -> Seq<SegmentView>
    decreases s.len() - i,
{
    if i < 0 || i >= s.len() {
        internal_segments(s.subrange(start, s.len() as int))
    } else {
        proof {
            markup::code_end_bounds(s, i);
            tag_segment_bounds(s, i);
        }
        if s[i] == '`' {
            segments_from(s, start, markup::code_end(s, i))
        } else if assistant_tag_at(s, i) {
            match tag_segment_at(s, i) {
                Some((segment, e)) => internal_segments(s.subrange(start, i)) + seq![segment]
                    + segments_from(s, e, e),
                None => internal_segments(s.subrange(start, i)) + segments_from(s, i, i + 1),
            }
        } else {
            segments_from(s, start, i + 1)
        }
    }
}

/// What the model's output says.
pub open spec fn model_segments(s: Seq<char>) -> Seq<SegmentView> {
    segments_from(s, 0, 0)
}

fn flush_internal(s: &Vec<char>, start: usize, end: usize, segments: &mut Vec<Segment>)
    requires
        start <= end <= s.len(),
    ensures
        segment_views(final(segments)@) == segment_views(old(segments)@) + internal_segments(
            s@.subrange(start as int, end as int),
        ),
{
    let trimmed = text::trimmed(text::slice(s, start, end).as_str());
    if !trimmed.as_str().is_empty() {
        segments.push(Segment::Internal(trimmed));
    }
    assert(segment_views(segments@) =~= segment_views(old(segments)@) + internal_segments(
        s@.subrange(start as int, end as int),
    ));
}

fn parse_telegram_message(s: &Vec<char>, i: usize) -> (r: Option<(Segment, usize)>)
    requires
        i < s.len(),
    ensures
        match r {
            Some((n, e)) => reply_at(s@, i as int) == Some((n@, e as int)),
            None => reply_at(s@, i as int) is None,
        },
{
    let mut close: Vec<char> = Vec::new();
    close.push('>');
    assert(close@ =~= seq!['>']);
    match text::find(s, &close, i) {
        None => None,
        Some(c) => {
            let end_tag = text::to_chars("</telegram-message>");
            match text::find(s, &end_tag, c + 1) {
                None => None,
                Some(e) => Some(
                    (
                        Segment::TelegramMessage { content: text::slice(s, c + 1, e) },
                        e + end_tag.len(),
                    ),
                ),
            }
        },
    }
}

fn extract_attr_value(tag: &Vec<char>, name: &str) -> (r: Option<String>)
    ensures
        text::opt_view(r) == quoted(tag@, name@),
{
    let mut pattern = text::to_chars(name);
    pattern.push('=');
    pattern.push('"');
    assert(pattern@ =~= name@ + seq!['=', '"']);
    let mut quote: Vec<char> = Vec::new();
    quote.push('"');
    assert(quote@ =~= seq!['"']);
    match text::find(tag, &pattern, 0) {
        None => None,
        Some(a) => {
            match text::find(tag, &quote, a + pattern.len()) {
                None => None,
                Some(q) => Some(text::slice(tag, a + pattern.len(), q)),
            }
        },
    }
}

fn parse_telegram_reaction(s: &Vec<char>, i: usize) -> (r: Option<(Segment, usize)>)
    requires
        i < s.len(),
    ensures
        match r {
            Some((n, e)) => reaction_at(s@, i as int) == Some((n@, e as int)),
            None => reaction_at(s@, i as int) is None,
        },
{
    let mut close: Vec<char> = Vec::new();
    close.push('/');
    close.push('>');
    assert(close@ =~= seq!['/', '>']);
    match text::find(s, &close, i) {
        None => None,
        Some(e) => {
            let tag = text::to_chars(text::slice(s, i, e + 2).as_str());
            match (extract_attr_value(&tag, "emoji"), extract_attr_value(&tag, "message-id")) {
                (Some(emoji), Some(id)) => {
                    match text::read_i32(id.as_str()) {
                        Some(message_id) => Some(
                            (Segment::TelegramReaction { emoji, message_id }, e + 2),
                        ),
                        None => None,
                    }
                },
                _ => None,
            }
        },
    }
}

/// What has been taken out so far, the internal text and a segment, before what is still to come.
proof fn taken_segment(
    before: Seq<SegmentView>,
    internal: Seq<SegmentView>,
    segment: SegmentView,
    rest: Seq<SegmentView>,
)
    ensures
        (before + internal).push(segment) + rest == before + (internal + seq![segment] + rest),
        (before + internal) + rest == before + (internal + rest),
{
    assert((before + internal).push(segment) + rest =~= before + (internal + seq![segment] + rest));
    assert((before + internal) + rest =~= before + (internal + rest));
}

fn push_segment(segments: &mut Vec<Segment>, segment: Segment)
    ensures
        segment_views(final(segments)@) == segment_views(old(segments)@).push(segment@),
{
    segments.push(segment);
    assert(segment_views(segments@) =~= segment_views(old(segments)@).push(segment@));
}

/// Splits the model's output into its segments.
#[verifier::rlimit(40)]
#[verifier::spinoff_prover]
pub fn parse_model_output(input: &str) -> (segments: Vec<Segment>)
    ensures
        segment_views(segments@) == model_segments(input@),
{
    let s = text::to_chars(input);
    let message_tag = text::to_chars("<telegram-message from=\"assistant\"");
    let reaction_tag = text::to_chars("<telegram-reaction from=\"assistant\"");
    let mut segments: Vec<Segment> = Vec::new();
    let mut start: usize = 0;
    let mut pos: usize = 0;
    assert(segment_views(segments@) + segments_from(s@, 0, 0) =~= model_segments(input@));
    while pos < s.len()
        invariant
            s@ == input@,
            message_tag@ == "<telegram-message from=\"assistant\""@,
            reaction_tag@ == "<telegram-reaction from=\"assistant\""@,
            start <= pos <= s.len(),
            segment_views(segments@) + segments_from(s@, start as int, pos as int)
                == model_segments(input@),
        decreases s.len() - pos,
    {
        if s[pos] == '`' {
            pos = markup::skip_code(&s, pos);
            continue;
        }
        let is_message = text::occurs_at(&s, &message_tag, pos);
        let is_reaction = text::occurs_at(&s, &reaction_tag, pos);
        if !is_message && !is_reaction {
            pos = pos + 1;
            continue;
        }
        let ghost before = segment_views(segments@);
        let ghost internal = internal_segments(s@.subrange(start as int, pos as int));
        let parsed = if is_message {
            parse_telegram_message(&s, pos)
        } else {
            parse_telegram_reaction(&s, pos)
        };
        proof {
            tag_segment_bounds(s@, pos as int);
        }
        flush_internal(&s, start, pos, &mut segments);
        match parsed {
            Some((segment, e)) => {
                proof {
                    taken_segment(before, internal, segment@, segments_from(s@, e as int, e as int));
                }
                push_segment(&mut segments, segment);
                start = e;
                pos = e;
            },
            None => {
                proof {
                    taken_segment(
                        before,
                        internal,
                        SegmentView::Internal(Seq::empty()),
                        segments_from(s@, pos as int, pos as int + 1),
                    );
                }
                start = pos;
                pos = pos + 1;
            },
        }
    }
    flush_internal(&s, start, pos, &mut segments);
    segments
}

/// Internal text is never blank and never padded: every internal segment is trimmed and holds
/// something.
pub proof fn internal_text_is_trimmed(s: Seq<char>, start: int, i: int, k: int)
    requires
        0 <= start <= i <= s.len(),
        0 <= k < segments_from(s, start, i).len(),
    ensures
        segments_from(s, start, i)[k] matches SegmentView::Internal(t) ==> t.len() > 0
            && !text::is_space(t[0]) && !text::is_space(t.last()),
    decreases s.len() - i,
{
    if i >= s.len() {
        text::trim_has_no_outer_space(s.subrange(start, s.len() as int));
    } else {
        markup::code_end_bounds(s, i);
        tag_segment_bounds(s, i);
        if s[i] == '`' {
            internal_text_is_trimmed(s, start, markup::code_end(s, i), k);
        } else if assistant_tag_at(s, i) {
            let t = s.subrange(start, i);
            text::trim_has_no_outer_space(t);
            let n = internal_segments(t).len() as int;
            match tag_segment_at(s, i) {
                Some((segment, e)) => {
                    if k > n {
                        internal_text_is_trimmed(s, e, e, k - n - 1);
                    }
                },
                None => {
                    if k >= n {
                        internal_text_is_trimmed(s, i, i + 1, k - n);
                    }
                },
            }
        } else {
            internal_text_is_trimmed(s, start, i + 1, k);
        }
    }
}

/// A message that the assistant writes in the markup dialect reaches the user as one reply with
/// that content, and nothing of it counts as internal.
pub proof fn written_reply_is_extracted(m: MessageView)
    requires
        round_trip::message_writable(m),
        m.from == "assistant"@,
    ensures
        model_segments(markup::message_text(m)) == seq![
            SegmentView::TelegramMessage { content: m.content },
        ],
{
    let none = Seq::<char>::empty();
    let w = markup::message_text(m);
    let tag = "<telegram-message from=\"assistant\""@;
    round_trip::message_parts(none, m, none);
    assert(none + w + none =~= w);
    assert(text::has_at(w, tag, 0)) by {
        reveal_strlit("<telegram-message from=\"assistant\"");
        reveal_strlit("<telegram-message");
        reveal_strlit("from");
        reveal_strlit("assistant");
        let head = "<telegram-message"@ + markup::attr_text("from"@, m.from);
        assert(head =~= tag);
        let tail = markup::attr_text("to"@, m.to) + markup::opt_attr_text("id"@, m.id)
            + markup::opt_attr_text("date"@, m.date) + seq!['>'] + m.content
            + "</telegram-message>"@;
        assert(w =~= head + tail);
        assert(w.subrange(0, tag.len() as int) =~= tag);
    }
    assert(w.subrange(0, 0) =~= none);
    assert(w.subrange(w.len() as int, w.len() as int) =~= none);
    assert(text::trim(none) =~= none);
    assert(internal_segments(none) =~= Seq::<SegmentView>::empty());
    assert(segments_from(w, w.len() as int, w.len() as int) =~= Seq::<SegmentView>::empty());
}

// ---------------------------------------------------------------------------
// What holds of outputs in parts
// ---------------------------------------------------------------------------

/// What is found behind the start of a text is found there without the start.
proof fn found_behind(pre: Seq<char>, t: Seq<char>, p: Seq<char>, i: int)
    requires
        0 <= i,
    ensures
        text::find_from(pre + t, p, pre.len() + i) == (match text::find_from(t, p, i) {
            Some(j) => Some(pre.len() + j),
            None => None,
        }),
{
    let s = pre + t;
    assert forall|k: int| 0 <= k implies #[trigger] text::has_at(t, p, k) == text::has_at(
        s,
        p,
        pre.len() + k,
    ) by {
        if k + p.len() <= t.len() {
            assert(s.subrange(pre.len() + k, pre.len() + k + p.len()) =~= t.subrange(
                k,
                k + p.len(),
            ));
        }
    }
    text::find_is_first(t, p, i);
    text::find_is_first(s, p, pre.len() + i);
    match text::find_from(t, p, i) {
        Some(j) => {
            assert forall|k: int| pre.len() + i <= k < pre.len() + j implies !#[trigger] text::has_at(
                s,
                p,
                k,
            ) by {
                assert(!text::has_at(t, p, k - pre.len()));
            }
            text::find_unique(s, p, pre.len() + i, pre.len() + j);
        },
        None => {
            if let Some(k) = text::find_from(s, p, pre.len() + i) {
                assert(text::has_at(t, p, k - pre.len()));
            }
        },
    }
}

proof fn code_ends_behind(pre: Seq<char>, t: Seq<char>, i: int)
    requires
        0 <= i < t.len(),
    ensures
        markup::code_end(pre + t, pre.len() + i) == pre.len() + markup::code_end(t, i),
{
    let s = pre + t;
    let fence = seq!['`', '`', '`'];
    if i + 3 <= t.len() {
        assert(s.subrange(pre.len() + i, pre.len() + i + 3) =~= t.subrange(i, i + 3));
    }
    found_behind(pre, t, seq!['\n'], i + 3);
    let line = match text::find_from(t, seq!['\n'], i + 3) {
        Some(j) => j,
        None => t.len() as int,
    };
    text::find_is_first(t, seq!['\n'], i + 3);
    found_behind(pre, t, fence, line);
    found_behind(pre, t, seq!['`'], i + 1);
}

proof fn starts_behind(pre: Seq<char>, t: Seq<char>, p: Seq<char>, i: int)
    requires
        0 <= i,
    ensures
        text::has_at(pre + t, p, pre.len() + i) == text::has_at(t, p, i),
{
    if i + p.len() <= t.len() {
        assert((pre + t).subrange(pre.len() + i, pre.len() + i + p.len()) =~= t.subrange(
            i,
            i + p.len(),
        ));
    }
}

proof fn reply_is_read_behind(pre: Seq<char>, t: Seq<char>, i: int)
    requires
        0 <= i < t.len(),
    ensures
        reply_at(pre + t, pre.len() + i) == (match reply_at(t, i) {
            Some((n, e)) => Some((n, pre.len() + e)),
            None => None,
        }),
{
    let s = pre + t;
    found_behind(pre, t, seq!['>'], i);
    text::find_is_first(t, seq!['>'], i);
    if let Some(c) = text::find_from(t, seq!['>'], i) {
        found_behind(pre, t, "</telegram-message>"@, c + 1);
        text::find_is_first(t, "</telegram-message>"@, c + 1);
        if let Some(e) = text::find_from(t, "</telegram-message>"@, c + 1) {
            assert(s.subrange(pre.len() + c + 1, pre.len() + e) =~= t.subrange(c + 1, e));
        }
    }
}

proof fn reaction_is_read_behind(pre: Seq<char>, t: Seq<char>, i: int)
    requires
        0 <= i < t.len(),
    ensures
        reaction_at(pre + t, pre.len() + i) == (match reaction_at(t, i) {
            Some((n, e)) => Some((n, pre.len() + e)),
            None => None,
        }),
{
    let s = pre + t;
    found_behind(pre, t, seq!['/', '>'], i);
    text::find_is_first(t, seq!['/', '>'], i);
    if let Some(e) = text::find_from(t, seq!['/', '>'], i) {
        assert(s.subrange(pre.len() + i, pre.len() + e + 2) =~= t.subrange(i, e + 2));
    }
}

proof fn tags_are_read_behind(pre: Seq<char>, t: Seq<char>, i: int)
    requires
        0 <= i < t.len(),
    ensures
        assistant_tag_at(pre + t, pre.len() + i) == assistant_tag_at(t, i),
        tag_segment_at(pre + t, pre.len() + i) == (match tag_segment_at(t, i) {
            Some((n, e)) => Some((n, pre.len() + e)),
            None => None,
        }),
{
    starts_behind(pre, t, "<telegram-message from=\"assistant\""@, i);
    starts_behind(pre, t, "<telegram-reaction from=\"assistant\""@, i);
    reply_is_read_behind(pre, t, i);
    reaction_is_read_behind(pre, t, i);
}

/// What is read of a text does not depend on what was read before it.
proof fn read_on_alike(pre: Seq<char>, t: Seq<char>, start: int, i: int)
    requires
        0 <= start <= i <= t.len(),
    ensures
        segments_from(pre + t, pre.len() + start, pre.len() + i) == segments_from(t, start, i),
    decreases t.len() - i,
{
    let s = pre + t;
    if i >= t.len() {
        assert(s.subrange(pre.len() + start, s.len() as int) =~= t.subrange(
            start,
            t.len() as int,
        ));
    } else {
        assert(s[pre.len() + i] == t[i]);
        assert(s.subrange(pre.len() + start, pre.len() + i) =~= t.subrange(start, i));
        markup::code_end_bounds(t, i);
        tag_segment_bounds(t, i);
        code_ends_behind(pre, t, i);
        tags_are_read_behind(pre, t, i);
        if t[i] == '`' {
            read_on_alike(pre, t, start, markup::code_end(t, i));
        } else if assistant_tag_at(t, i) {
            match tag_segment_at(t, i) {
                Some((n, e)) => {
                    read_on_alike(pre, t, e, e);
                },
                None => {
                    read_on_alike(pre, t, i, i + 1);
                },
            }
        } else {
            read_on_alike(pre, t, start, i + 1);
        }
    }
}

/// A text in which no tag and no code starts.
pub open spec fn is_quiet(t: Seq<char>) -> bool {
    forall|k: int| 0 <= k < t.len() ==> #[trigger] t[k] != '<' && t[k] != '`'
}

proof fn quiet_is_passed(s: Seq<char>, start: int, i: int, n: int)
    requires
        0 <= start <= i <= n <= s.len(),
        forall|k: int| i <= k < n ==> #[trigger] s[k] != '<' && s[k] != '`',
    ensures
        segments_from(s, start, i) == segments_from(s, start, n),
    decreases n - i,
{
    if i < n {
        reveal_strlit("<telegram-message from=\"assistant\"");
        reveal_strlit("<telegram-reaction from=\"assistant\"");
        assert(s[i] != '<');
        let m = "<telegram-message from=\"assistant\""@;
        let r = "<telegram-reaction from=\"assistant\""@;
        if text::has_at(s, m, i) {
            assert(s.subrange(i, i + m.len())[0] == m[0]);
        }
        if text::has_at(s, r, i) {
            assert(s.subrange(i, i + r.len())[0] == r[0]);
        }
        quiet_is_passed(s, start, i + 1, n);
    }
}

/// A message that the assistant writes reaches the user as one reply with that content, whatever
/// stands around it: the text before it is internal, and what follows is read as if it came first.
pub proof fn reply_is_extracted_from_its_surroundings(
    before: Seq<char>,
    m: MessageView,
    rest: Seq<char>,
)
    requires
        is_quiet(before),
        round_trip::message_writable(m),
        m.from == "assistant"@,
    ensures
        model_segments(before + markup::message_text(m) + rest) == internal_segments(before) + seq![
            SegmentView::TelegramMessage { content: m.content },
        ] + model_segments(rest),
{
    round_trip::message_parts(before, m, rest);
    assistant_wrote_it(before, m, rest);
    extracted_from_its_surroundings(
        before,
        markup::message_text(m),
        SegmentView::TelegramMessage { content: m.content },
        rest,
    );
}

proof fn assistant_wrote_it(before: Seq<char>, m: MessageView, rest: Seq<char>)
    requires
        m.from == "assistant"@,
    ensures
        text::has_at(
            before + markup::message_text(m) + rest,
            "<telegram-message from=\"assistant\""@,
            before.len() as int,
        ),
{
    let w = markup::message_text(m);
    let s = before + w + rest;
    let n = before.len() as int;
    let tag = "<telegram-message from=\"assistant\""@;
    reveal_strlit("<telegram-message from=\"assistant\"");
    reveal_strlit("<telegram-message");
    reveal_strlit("from");
    reveal_strlit("assistant");
    let head = "<telegram-message"@ + markup::attr_text("from"@, m.from);
    assert(head =~= tag);
    let tail = markup::attr_text("to"@, m.to) + markup::opt_attr_text("id"@, m.id)
        + markup::opt_attr_text("date"@, m.date) + seq!['>'] + m.content + "</telegram-message>"@;
    assert(w =~= head + tail);
    assert(s.subrange(n, n + tag.len()) =~= tag);
}

/// A text without tags and code is internal as a whole, and blank text is nothing.
pub proof fn quiet_text_is_internal(t: Seq<char>)
    requires
        is_quiet(t),
    ensures
        model_segments(t) == (if text::trim(t).len() > 0 {
            seq![SegmentView::Internal(text::trim(t))]
        } else {
            Seq::empty()
        }),
{
    quiet_is_passed(t, 0, 0, t.len() as int);
    assert(t.subrange(0, t.len() as int) =~= t);
}

/// What stands in code is not sent, whatever tags it holds: it stays internal with the text around
/// it.
pub proof fn code_is_internal(before: Seq<char>, code: Seq<char>, behind: Seq<char>)
    requires
        is_quiet(before),
        is_quiet(behind),
        code.len() > 0,
        forall|k: int| 0 <= k < code.len() ==> #[trigger] code[k] != '`',
    ensures
        ({
            let s = before + seq!['`'] + code + seq!['`'] + behind;
            model_segments(s) == seq![SegmentView::Internal(text::trim(s))]
        }),
{
    let s = before + seq!['`'] + code + seq!['`'] + behind;
    let n = before.len() as int;
    let e = n + 1 + code.len();
    quiet_is_passed(s, 0, 0, n);
    assert(s[n] == '`');
    assert(s[e] == '`');
    assert(s[n + 1] == code[0]);
    assert(s.subrange(n, n + 3)[1] == code[0]) by {
        assert(n + 3 <= s.len());
    }
    assert(!text::has_at(s, seq!['`', '`', '`'], n));
    assert(s.subrange(e, e + 1) =~= seq!['`']);
    assert forall|k: int| n + 1 <= k < e implies !#[trigger] text::has_at(s, seq!['`'], k) by {
        assert(s[k] == code[k - n - 1]);
        if text::has_at(s, seq!['`'], k) {
            assert(s.subrange(k, k + 1)[0] == '`');
        }
    }
    text::find_unique(s, seq!['`'], n + 1, e);
    assert(markup::code_end(s, n) == e + 1);
    assert forall|k: int| e + 1 <= k < s.len() implies #[trigger] s[k] != '<' && s[k] != '`' by {
        assert(s[k] == behind[k - e - 1]);
    }
    quiet_is_passed(s, 0, e + 1, s.len() as int);
    assert(s.subrange(0, s.len() as int) =~= s);
    text::trim_is_the_middle(s);
    assert(!text::is_space(s[n]));
}

/// In front of every equals sign of a text stands something, and not the given character.
pub open spec fn no_key_ends_in(x: Seq<char>, c: char) -> bool {
    forall|k: int| 0 <= k < x.len() && #[trigger] x[k] == '=' ==> k > 0 && x[k - 1] != c
}

proof fn keys_of_two(a: Seq<char>, b: Seq<char>, c: char)
    requires
        no_key_ends_in(a, c),
        no_key_ends_in(b, c),
    ensures
        no_key_ends_in(a + b, c),
{
    let s = a + b;
    assert forall|k: int| 0 <= k < s.len() && #[trigger] s[k] == '=' implies k > 0 && s[k - 1]
        != c by {
        if k < a.len() {
            assert(a[k] == '=');
        } else {
            assert(b[k - a.len()] == '=');
        }
    }
}

proof fn key_of_an_attribute(key: Seq<char>, value: Seq<char>, c: char)
    requires
        key.len() > 0,
        key.last() != c,
        round_trip::lacks(key, '='),
        round_trip::lacks(value, '='),
    ensures
        no_key_ends_in(markup::attr_text(key, value), c),
{
    let t = markup::attr_text(key, value);
    assert forall|k: int| 0 <= k < t.len() && #[trigger] t[k] == '=' implies k > 0 && t[k - 1]
        != c by {
        if 1 <= k < 1 + key.len() {
            assert(t[k] == key[k - 1]);
        } else if k == 1 + key.len() {
            assert(t[k - 1] == key.last());
        } else if key.len() + 3 <= k < key.len() + 3 + value.len() {
            assert(t[k] == value[k - key.len() - 3]);
        }
    }
}

proof fn attribute_is_not_before(x: Seq<char>, name: Seq<char>)
    requires
        name.len() > 0,
        no_key_ends_in(x, name.last()),
    ensures
        !text::contains_text(x, name + seq!['=', '"']),
{
    let p = name + seq!['=', '"'];
    if text::contains_text(x, p) {
        let i = choose|i: int| text::has_at(x, p, i);
        let n = i + name.len();
        assert(x.subrange(i, i + p.len())[name.len() as int] == '=');
        assert(x[n] == '=');
        assert(x.subrange(i, i + p.len())[name.len() - 1] == name.last());
        assert(x[n - 1] == name.last());
    }
}

/// An attribute is read from a tag where it first stands.
proof fn attribute_is_read(x: Seq<char>, name: Seq<char>, value: Seq<char>, rest: Seq<char>)
    requires
        name.len() > 0,
        no_key_ends_in(x, name.last()),
        forall|k: int| 0 < k < name.len() ==> #[trigger] name[k] != name[0],
        name[0] != '=' && name[0] != '"',
        round_trip::lacks(value, '"'),
    ensures
        quoted(x + name + seq!['=', '"'] + value + seq!['"'] + rest, name) == Some(value),
{
    let p = name + seq!['=', '"'];
    let q = seq!['"'];
    let none = Seq::<char>::empty();
    let tag = x + name + seq!['=', '"'] + value + q + rest;
    attribute_is_not_before(x, name);
    assert forall|k: int| 0 < k < p.len() implies #[trigger] p[k] != p[0] by {
        if k < name.len() {
            assert(p[k] == name[k]);
        }
    }
    round_trip::pattern_behind_content(none, x, p, value + q + rest);
    assert(none + x + p + (value + q + rest) =~= tag);
    let pre = x + p;
    assert(!text::contains_text(value, q)) by {
        if text::contains_text(value, q) {
            let i = choose|i: int| text::has_at(value, q, i);
            assert(value.subrange(i, i + 1)[0] == '"');
            assert(value[i] == '"');
        }
    }
    round_trip::pattern_behind_content(pre, value, q, rest);
    assert(pre + value + q + rest =~= tag);
    assert(tag.subrange(pre.len() as int, (pre.len() + value.len()) as int) =~= value);
}

proof fn reaction_attributes_are_read(r: ReactionView)
    requires
        round_trip::reaction_writable(r),
        round_trip::lacks(r.from, '='),
        round_trip::lacks(r.action, '='),
        round_trip::lacks(r.emoji, '='),
    ensures
        quoted(markup::reaction_text(r), "emoji"@) == Some(r.emoji),
        quoted(markup::reaction_text(r), "message-id"@) == Some(r.message_id),
{
    reveal_strlit("<telegram-reaction");
    reveal_strlit("from");
    reveal_strlit("action");
    reveal_strlit("emoji");
    reveal_strlit("message-id");
    let open = "<telegram-reaction"@;
    let a = markup::attr_text("from"@, r.from);
    let b = markup::attr_text("action"@, r.action);
    let c = markup::attr_text("emoji"@, r.emoji);
    let d = markup::attr_text("message-id"@, r.message_id);
    let e = markup::opt_attr_text("date"@, r.date) + seq![' ', '/', '>'];
    let w = markup::reaction_text(r);
    let blank = seq![' '];
    assert(no_key_ends_in(open, 'i') && no_key_ends_in(open, 'd'));
    assert(no_key_ends_in(blank, 'i') && no_key_ends_in(blank, 'd'));
    key_of_an_attribute("from"@, r.from, 'i');
    key_of_an_attribute("from"@, r.from, 'd');
    key_of_an_attribute("action"@, r.action, 'i');
    key_of_an_attribute("action"@, r.action, 'd');
    key_of_an_attribute("emoji"@, r.emoji, 'd');
    keys_of_two(open, a, 'i');
    keys_of_two(open + a, b, 'i');
    keys_of_two(open + a + b, blank, 'i');
    keys_of_two(open, a, 'd');
    keys_of_two(open + a, b, 'd');
    keys_of_two(open + a + b, c, 'd');
    keys_of_two(open + a + b + c, blank, 'd');
    attribute_is_read(open + a + b + blank, "emoji"@, r.emoji, d + e);
    assert(w =~= open + a + b + blank + "emoji"@ + seq!['=', '"'] + r.emoji + seq!['"'] + (d + e));
    attribute_is_read(open + a + b + c + blank, "message-id"@, r.message_id, e);
    assert(w =~= open + a + b + c + blank + "message-id"@ + seq!['=', '"'] + r.message_id + seq![
        '"',
    ] + e);
}

/// A reaction that the assistant writes is one reaction with that emoji to that message, whatever
/// stands around it: the text before it is internal, and what follows is read as if it came first.
pub proof fn reaction_is_extracted_from_its_surroundings(
    before: Seq<char>,
    r: ReactionView,
    message_id: int,
    rest: Seq<char>,
)
    requires
        is_quiet(before),
        round_trip::reaction_writable(r),
        r.from == "assistant"@,
        round_trip::lacks(r.action, '='),
        round_trip::lacks(r.emoji, '='),
        text::i32_value(r.message_id) == Some(message_id),
    ensures
        model_segments(before + markup::reaction_text(r) + rest) == internal_segments(before) + seq![
            SegmentView::TelegramReaction { emoji: r.emoji, message_id },
        ] + model_segments(rest),
{
    reaction_starts_with_its_tag(before, r, rest);
    reaction_tag_is_read(before, r, message_id, rest);
    extracted_from_its_surroundings(
        before,
        markup::reaction_text(r),
        SegmentView::TelegramReaction { emoji: r.emoji, message_id },
        rest,
    );
}

proof fn end_of_a_reaction(before: Seq<char>, r: ReactionView, rest: Seq<char>)
    requires
        round_trip::reaction_writable(r),
    ensures
        text::find_from(
            before + markup::reaction_text(r) + rest,
            seq!['/', '>'],
            before.len() as int,
        ) == Some((before + markup::reaction_text(r)).len() - 2),
{
    let w = markup::reaction_text(r);
    let open = markup::reaction_open_text(r);
    let blank = seq![' '];
    let slash = seq!['/', '>'];
    round_trip::reaction_open_free(r);
    round_trip::free_of_short(blank);
    round_trip::free_concat(open, blank);
    round_trip::pattern_behind_content(before, open + blank, slash, rest);
    assert(w =~= open + blank + slash);
    assert(before + (open + blank) + slash + rest =~= before + w + rest);
}

#[verifier::spinoff_prover]
proof fn reaction_tag_is_read(before: Seq<char>, r: ReactionView, message_id: int, rest: Seq<char>)
    requires
        round_trip::reaction_writable(r),
        r.from == "assistant"@,
        round_trip::lacks(r.action, '='),
        round_trip::lacks(r.emoji, '='),
        text::i32_value(r.message_id) == Some(message_id),
    ensures
        reaction_at(before + markup::reaction_text(r) + rest, before.len() as int) == Some(
            (
                SegmentView::TelegramReaction { emoji: r.emoji, message_id },
                (before + markup::reaction_text(r)).len() as int,
            ),
        ),
{
    end_of_a_reaction(before, r, rest);
    assert(round_trip::lacks(r.from, '=')) by {
        reveal_strlit("assistant");
    }
    reaction_attributes_are_read(r);
    reaction_is_told(before, markup::reaction_text(r), r, message_id, rest);
}

proof fn reaction_is_told(
    before: Seq<char>,
    w: Seq<char>,
    r: ReactionView,
    message_id: int,
    rest: Seq<char>,
)
    requires
        text::find_from(before + w + rest, seq!['/', '>'], before.len() as int) == Some(
            (before + w).len() - 2,
        ),
        quoted(w, "emoji"@) == Some(r.emoji),
        quoted(w, "message-id"@) == Some(r.message_id),
        text::i32_value(r.message_id) == Some(message_id),
    ensures
        reaction_at(before + w + rest, before.len() as int) == Some(
            (
                SegmentView::TelegramReaction { emoji: r.emoji, message_id },
                (before + w).len() as int,
            ),
        ),
{
    let s = before + w + rest;
    assert(s.subrange(before.len() as int, (before + w).len() as int) =~= w);
}

proof fn extracted_from_its_surroundings(
    before: Seq<char>,
    w: Seq<char>,
    segment: SegmentView,
    rest: Seq<char>,
)
    requires
        is_quiet(before),
        w.len() > 0,
        w[0] == '<',
        assistant_tag_at(before + w + rest, before.len() as int),
        tag_segment_at(before + w + rest, before.len() as int) == Some(
            (segment, (before + w).len() as int),
        ),
    ensures
        model_segments(before + w + rest) == internal_segments(before) + seq![segment]
            + model_segments(rest),
{
    let s = before + w + rest;
    let n = before.len() as int;
    let e = (before + w).len() as int;
    assert forall|k: int| 0 <= k < n implies #[trigger] s[k] != '<' && s[k] != '`' by {
        assert(s[k] == before[k]);
    }
    quiet_is_passed(s, 0, 0, n);
    assert(s[n] == w[0]);
    assert(s.subrange(0, n) =~= before);
    assert(s =~= (before + w) + rest);
    read_on_alike(before + w, rest, 0, 0);
    assert(segments_from(s, e, e) == model_segments(rest));
    assert(segments_from(s, 0, n) == internal_segments(before) + seq![segment] + segments_from(
        s,
        e,
        e,
    ));
}

proof fn reaction_starts_with_its_tag(before: Seq<char>, r: ReactionView, rest: Seq<char>)
    requires
        r.from == "assistant"@,
    ensures
        ({
            let s = before + markup::reaction_text(r) + rest;
            let n = before.len() as int;
            &&& text::has_at(s, "<telegram-reaction from=\"assistant\""@, n)
            &&& !text::has_at(s, "<telegram-message from=\"assistant\""@, n)
            &&& markup::reaction_text(r).len() > 0 && markup::reaction_text(r)[0] == '<'
        }),
{
    let w = markup::reaction_text(r);
    let s = before + w + rest;
    let n = before.len() as int;
    let tag = "<telegram-reaction from=\"assistant\""@;
    let other = "<telegram-message from=\"assistant\""@;
    reveal_strlit("<telegram-reaction from=\"assistant\"");
    reveal_strlit("<telegram-message from=\"assistant\"");
    reveal_strlit("<telegram-reaction");
    reveal_strlit("from");
    reveal_strlit("assistant");
    let head = "<telegram-reaction"@ + markup::attr_text("from"@, r.from);
    assert(head =~= tag);
    let tail = markup::attr_text("action"@, r.action) + markup::attr_text("emoji"@, r.emoji)
        + markup::attr_text("message-id"@, r.message_id) + markup::opt_attr_text("date"@, r.date)
        + seq![' ', '/', '>'];
    assert(w =~= head + tail);
    assert(s.subrange(n, n + tag.len()) =~= tag);
    assert(s[n] == tag[0]);
    assert(s[n + 10] == tag[10]);
    if text::has_at(s, other, n) {
        assert(s.subrange(n, n + other.len())[10] == other[10]);
    }
}

/// Segments are seen one by one, in their order, each with all that is in it.
pub proof fn segments_are_their_parts(list: Seq<Segment>, i: int)
    requires
        0 <= i < list.len(),
    ensures
        segment_views(list).len() == list.len(),
        match list[i] {
            Segment::TelegramMessage { content } => segment_views(list)[i] == (
            SegmentView::TelegramMessage { content: content@ }),
            Segment::TelegramReaction { emoji, message_id } => segment_views(list)[i] == (
            SegmentView::TelegramReaction { emoji: emoji@, message_id: message_id as int }),
            Segment::Internal(t) => segment_views(list)[i] == SegmentView::Internal(t@),
        },
{
}

} // verus!
