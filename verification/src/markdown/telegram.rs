//! Markdown for Telegram: tables become blocks of lines, the rest goes through the MarkdownV2
//! converter.

use vstd::prelude::*;
use crate::text;
use pulldown_cmark::Event::{Code, End, HardBreak, SoftBreak, Start, Text};
use pulldown_cmark::{Options, Parser, Tag, TagEnd};
use telegram_markdown_v2::UnsupportedTagsStrategy;
use vstd::string::*;

verus! {

/// What a Markdown parser reports, as far as tables go.
pub enum MdEvent {
    TableStart,
    TableEnd,
    HeadStart,
    HeadEnd,
    RowStart,
    RowEnd,
    CellStart,
    CellEnd,
    Words(String),
    CodeSpan(String),
    SoftBreak,
    HardBreak,
    Other,
}

/// What an event says.
#[verifier::ext_equal]
pub enum EventView {
    TableStart,
    TableEnd,
    HeadStart,
    HeadEnd,
    RowStart,
    RowEnd,
    CellStart,
    CellEnd,
    Words(Seq<char>),
    CodeSpan(Seq<char>),
    SoftBreak,
    HardBreak,
    Other,
}

impl View for MdEvent {
    type V = EventView;

    open spec fn view(&self) -> EventView {
        match self {
            MdEvent::TableStart => EventView::TableStart,
            MdEvent::TableEnd => EventView::TableEnd,
            MdEvent::HeadStart => EventView::HeadStart,
            MdEvent::HeadEnd => EventView::HeadEnd,
            MdEvent::RowStart => EventView::RowStart,
            MdEvent::RowEnd => EventView::RowEnd,
            MdEvent::CellStart => EventView::CellStart,
            MdEvent::CellEnd => EventView::CellEnd,
            MdEvent::Words(t) => EventView::Words(t@),
            MdEvent::CodeSpan(t) => EventView::CodeSpan(t@),
            MdEvent::SoftBreak => EventView::SoftBreak,
            MdEvent::HardBreak => EventView::HardBreak,
            MdEvent::Other => EventView::Other,
        }
    }
}

/// An event with the range of bytes of the source that it stands for.
pub struct Span {
    pub event: MdEvent,
    pub start: usize,
    pub end: usize,
}

impl View for Span {
    type V = (EventView, int, int);

    open spec fn view(&self) -> (EventView, int, int) {
        (self.event@, self.start as int, self.end as int)
    }
}

/// What a list of spans says.
pub open spec fn span_views(spans: Seq<Span>) -> Seq<(EventView, int, int)> {
    spans.map_values(|s: Span| s@)
}

/// What `pulldown_cmark`'s parser reports of a text, with tables enabled.
pub uninterp spec fn markdown_spans(input: Seq<char>) -> Seq<(EventView, int, int)>;

/// What `telegram_markdown_v2` makes of a text; `None` where it reports an error.
pub uninterp spec fn markdown_v2(input: Seq<char>) -> Option<Seq<char>>;

/// `pulldown_cmark::Parser::new_ext` with `ENABLE_TABLES`, read through `into_offset_iter`. The
/// events and their byte ranges are a function of the text alone; nothing else is claimed of
/// them, not even that the ranges lie within the text. That the parser does not panic is taken on
/// its authors' word.
#[verifier::external_body]
fn parse_spans(input: &str) -> (spans: Vec<Span>)
    ensures
        span_views(spans@) == markdown_spans(input@),
{
    let events = Parser::new_ext(input, Options::ENABLE_TABLES).into_offset_iter();
    events.map(|(e, r)| Span { start: r.start, end: r.end, event: match e {
        Start(Tag::Table(_)) => MdEvent::TableStart,
        End(TagEnd::Table) => MdEvent::TableEnd,
        Start(Tag::TableHead) => MdEvent::HeadStart,
        End(TagEnd::TableHead) => MdEvent::HeadEnd,
        Start(Tag::TableRow) => MdEvent::RowStart,
        End(TagEnd::TableRow) => MdEvent::RowEnd,
        Start(Tag::TableCell) => MdEvent::CellStart,
        End(TagEnd::TableCell) => MdEvent::CellEnd,
        Text(t) => MdEvent::Words(t.into_string()),
        Code(t) => MdEvent::CodeSpan(t.into_string()),
        SoftBreak => MdEvent::SoftBreak,
        HardBreak => MdEvent::HardBreak,
        _ => MdEvent::Other } }).collect()
}

/// `telegram_markdown_v2::convert_with_strategy` with the strategy that escapes what MarkdownV2
/// does not have. The result is a function of the text alone; the error is dropped. That the
/// conversion comes to its end is not claimed of deeply nested text, which it goes through
/// recursively; that it does not panic otherwise is taken on its authors' word.
#[verifier::external_body]
fn convert(input: &str) -> (r: Option<String>)
    ensures
        text::opt_view(r) == markdown_v2(input@),
{
    telegram_markdown_v2::convert_with_strategy(input, UnsupportedTagsStrategy::Escape).ok()
}

// ---------------------------------------------------------------------------
// Escaping
// ---------------------------------------------------------------------------

/// The characters that MarkdownV2 wants escaped.
pub open spec fn special(c: char) -> bool {
    ||| c == '_'
    ||| c == '*'
    ||| c == '['
    ||| c == ']'
    ||| c == '('
    ||| c == ')'
    ||| c == '~'
    ||| c == '`'
    ||| c == '>'
    ||| c == '#'
    ||| c == '+'
    ||| c == '-'
    ||| c == '='
    ||| c == '|'
    ||| c == '{'
    ||| c == '}'
    ||| c == '.'
    ||| c == '!'
}

/// The text with a backslash before every special character.
pub open spec fn escaped(s: Seq<char>) -> Seq<char>
    decreases s.len(),
{
    if s.len() == 0 {
        Seq::empty()
    } else if special(s.last()) {
        escaped(s.drop_last()) + seq!['\\', s.last()]
    } else {
        escaped(s.drop_last()).push(s.last())
    }
}

/// The text without the backslash before each special character.
pub open spec fn unescaped(s: Seq<char>) -> Seq<char>
    decreases s.len(),
{
    if s.len() == 0 {
        Seq::empty()
    } else if special(s.last()) && s.len() >= 2 {
        unescaped(s.take(s.len() - 2)).push(s.last())
    } else {
        unescaped(s.drop_last()).push(s.last())
    }
}

/// Escaping loses nothing: taking the backslashes away gives the text back.
pub proof fn unescape_undoes_escape(s: Seq<char>)
    ensures
        unescaped(escaped(s)) == s,
    decreases s.len(),
{
    if s.len() > 0 {
        let e = escaped(s);
        let head = escaped(s.drop_last());
        unescape_undoes_escape(s.drop_last());
        assert(e.last() == s.last());
        if special(s.last()) {
            assert(e.take(e.len() - 2) =~= head);
        } else {
            assert(e.drop_last() =~= head);
        }
        assert(s.drop_last().push(s.last()) =~= s);
    }
}

fn is_special(c: char) -> (r: bool)
    ensures
        r == special(c),
{
    c == '_' || c == '*' || c == '[' || c == ']' || c == '(' || c == ')' || c == '~' || c == '`'
        || c == '>' || c == '#' || c == '+' || c == '-' || c == '=' || c == '|' || c == '{' || c
        == '}' || c == '.' || c == '!'
}

fn escape_fallback(input: &str) -> (out: String)
    ensures
        out@ == escaped(input@),
{
    let v = text::to_chars(input);
    let mut out: String = String::new();
    let mut i: usize = 0;
    while i < v.len()
        invariant
            i <= v.len(),
            v@ == input@,
            out@ == escaped(input@.take(i as int)),
        decreases v.len() - i,
    {
        assert(input@.take(i as int + 1).drop_last() =~= input@.take(i as int));
        let ghost before = out@;
        if is_special(v[i]) {
            out.push('\\');
        }
        out.push(v[i]);
        assert(out@ =~= escaped(input@.take(i as int + 1)));
        i = i + 1;
    }
    assert(input@.take(i as int) =~= input@);
    out
}

// ---------------------------------------------------------------------------
// Tables
// ---------------------------------------------------------------------------

/// What has been read of a table.
#[verifier::ext_equal]
pub struct TableView {
    pub headers: Seq<Seq<char>>,
    pub rows: Seq<Seq<Seq<char>>>,
    pub cell: Seq<char>,
    pub row: Seq<Seq<char>>,
    pub in_head: bool,
}

/// A table of which nothing has been read.
pub open spec fn empty_table() -> TableView {
    TableView {
        headers: Seq::empty(),
        rows: Seq::empty(),
        cell: Seq::empty(),
        row: Seq::empty(),
        in_head: false,
    }
}

/// What an event adds to a table. A cell is the trimmed text of what stands in it; the head's
/// cells are the headers, every other row is a row.
pub open spec fn table_step(t: TableView, e: EventView) -> TableView {
    match e {
        EventView::HeadStart => TableView { in_head: true, row: Seq::empty(), ..t },
        EventView::HeadEnd => TableView {
            headers: t.row,
            row: Seq::empty(),
            in_head: false,
            ..t
        },
        EventView::RowStart => TableView { row: Seq::empty(), ..t },
        EventView::RowEnd => TableView {
            rows: if t.in_head {
                t.rows
            } else {
                t.rows.push(t.row)
            },
            row: Seq::empty(),
            ..t
        },
        EventView::CellStart => TableView { cell: Seq::empty(), ..t },
        EventView::CellEnd => TableView {
            row: t.row.push(text::trim(t.cell)),
            cell: Seq::empty(),
            ..t
        },
        EventView::Words(w) => TableView { cell: t.cell + w, ..t },
        EventView::CodeSpan(c) => TableView { cell: t.cell.push('`') + c.push('`'), ..t },
        EventView::SoftBreak => TableView { cell: t.cell.push(' '), ..t },
        EventView::HardBreak => TableView { cell: t.cell.push(' '), ..t },
        _ => t,
    }
}

/// The table that the spans from `i` on add up to, the index after its end, and the byte where
/// it ends. Where no span ends it, the spans do, and `end` stands.
pub open spec fn table_from(
    spans: Seq<(EventView, int, int)>,
    i: int,
    t: TableView,
    end: int,
) -> (TableView, int, int)
    decreases spans.len() - i,
{
    if i < 0 || i >= spans.len() {
        (t, i, end)
    } else if spans[i].0 is TableEnd {
        (t, i + 1, spans[i].2)
    } else {
        table_from(spans, i + 1, table_step(t, spans[i].0), end)
    }
}

pub proof fn table_from_goes_on(
    spans: Seq<(EventView, int, int)>,
    i: int,
    t: TableView,
    end: int,
)
    requires
        0 <= i <= spans.len(),
    ensures
        i <= table_from(spans, i, t, end).1 <= spans.len(),
    decreases spans.len() - i,
{
    if i < spans.len() && !(spans[i].0 is TableEnd) {
        table_from_goes_on(spans, i + 1, table_step(t, spans[i].0), end);
    }
}

/// A row of a table with at most one column: a list item, or nothing for an empty row.
pub open spec fn item_text(row: Seq<Seq<char>>) -> Seq<char> {
    if row.len() == 0 {
        Seq::empty()
    } else {
        "- "@ + row[0] + "\n"@
    }
}

/// The first `n` cells of a row, each behind its header on a line of its own.
pub open spec fn field_lines(headers: Seq<Seq<char>>, row: Seq<Seq<char>>, n: int) -> Seq<char>
    decreases n,
{
    if n <= 0 {
        Seq::empty()
    } else {
        field_lines(headers, row, n - 1) + ("  "@ + headers[n - 1] + ": "@ + row[n - 1] + "\n"@)
    }
}

/// A row of a table with several columns: its first cell as a title, a line for each cell that
/// has a header, and a blank line.
pub open spec fn block_text(headers: Seq<Seq<char>>, row: Seq<Seq<char>>) -> Seq<char> {
    let n = if headers.len() <= row.len() {
        headers.len()
    } else {
        row.len()
    };
    "**"@ + (if row.len() == 0 {
        "(unknown)"@
    } else {
        row[0]
    }) + "**\n"@ + field_lines(headers, row, n as int) + "\n"@
}

/// A table as blocks of lines.
pub open spec fn table_text(headers: Seq<Seq<char>>, rows: Seq<Seq<Seq<char>>>) -> Seq<char>
    decreases rows.len(),
{
    if rows.len() == 0 {
        Seq::empty()
    } else {
        table_text(headers, rows.drop_last()) + (if headers.len() <= 1 {
            item_text(rows.last())
        } else {
            block_text(headers, rows.last())
        })
    }
}

/// What a list of rows says.
pub open spec fn row_views(rows: Seq<Vec<String>>) -> Seq<Seq<Seq<char>>> {
    rows.map_values(|r: Vec<String>| text::views(r@))
}

/// Writes a table as blocks of lines.
pub fn render_table_as_blocks(headers: &Vec<String>, rows: &Vec<Vec<String>>) -> (out: String)
    ensures
        out@ == table_text(text::views(headers@), row_views(rows@)),
{
    let ghost hs = text::views(headers@);
    let ghost all = row_views(rows@);
    let mut out: String = String::new();
    let mut i: usize = 0;
    while i < rows.len()
        invariant
            i <= rows.len(),
            hs == text::views(headers@),
            all == row_views(rows@),
            out@ == table_text(hs, all.take(i as int)),
        decreases rows.len() - i,
    {
        let row = &rows[i];
        let ghost r = text::views(row@);
        let ghost before = out@;
        assert(all.take(i as int + 1).drop_last() =~= all.take(i as int));
        assert(all.take(i as int + 1).last() == r);
        if headers.len() <= 1 {
            if row.len() > 0 {
                out.append("- ");
                out.append(row[0].as_str());
                out.append("\n");
                assert(r[0] == row@[0]@);
                assert(out@ =~= before + item_text(r));
            } else {
                assert(out@ =~= before + item_text(r));
            }
        } else {
            out.append("**");
            if row.len() > 0 {
                assert(r[0] == row@[0]@);
                out.append(row[0].as_str());
            } else {
                out.append("(unknown)");
            }
            out.append("**\n");
            let ghost title = out@;
            let mut k: usize = 0;
            assert(title + field_lines(hs, r, 0) =~= title);
            while k < headers.len() && k < row.len()
                invariant
                    k <= headers.len(),
                    k <= row.len(),
                    hs == text::views(headers@),
                    r == text::views(row@),
                    out@ == title + field_lines(hs, r, k as int),
                decreases headers.len() - k,
            {
                out.append("  ");
                out.append(headers[k].as_str());
                out.append(": ");
                out.append(row[k].as_str());
                out.append("\n");
                assert(hs[k as int] == headers@[k as int]@);
                assert(r[k as int] == row@[k as int]@);
                assert(out@ =~= title + field_lines(hs, r, k as int + 1));
                k = k + 1;
            }
            out.append("\n");
            assert(out@ =~= before + block_text(hs, r));
        }
        i = i + 1;
    }
    assert(all.take(i as int) =~= all);
    out
}

struct Table {
    headers: Vec<String>,
    rows: Vec<Vec<String>>,
    cell: String,
    row: Vec<String>,
    in_head: bool,
}

impl View for Table {
    type V = TableView;

    closed spec fn view(&self) -> TableView {
        TableView {
            headers: text::views(self.headers@),
            rows: row_views(self.rows@),
            cell: self.cell@,
            row: text::views(self.row@),
            in_head: self.in_head,
        }
    }
}

impl Table {
    fn step(&mut self, e: &MdEvent)
        ensures
            final(self)@ == table_step(old(self)@, e@),
    {
        match e {
            MdEvent::HeadStart => {
                self.in_head = true;
                self.row = Vec::new();
            },
            MdEvent::HeadEnd => {
                self.headers = self.row.clone();
                self.row = Vec::new();
                self.in_head = false;
            },
            MdEvent::RowStart => {
                self.row = Vec::new();
            },
            MdEvent::RowEnd => {
                if !self.in_head {
                    let row = self.row.clone();
                    assert(row@ == self.row@);
                    self.rows.push(row);
                    assert(row_views(self.rows@) =~= row_views(old(self).rows@).push(
                        text::views(old(self).row@),
                    ));
                }
                self.row = Vec::new();
            },
            MdEvent::CellStart => {
                self.cell = String::new();
            },
            MdEvent::CellEnd => {
                let cell = text::trimmed(self.cell.as_str());
                self.row.push(cell);
                assert(text::views(self.row@) =~= text::views(old(self).row@).push(cell@));
                self.cell = String::new();
            },
            MdEvent::Words(w) => {
                self.cell.append(w.as_str());
            },
            MdEvent::CodeSpan(c) => {
                self.cell.push('`');
                self.cell.append(c.as_str());
                self.cell.push('`');
                assert(self.cell@ =~= old(self).cell@.push('`') + c@.push('`'));
            },
            MdEvent::SoftBreak => {
                self.cell.push(' ');
            },
            MdEvent::HardBreak => {
                self.cell.push(' ');
            },
            _ => {},
        }
        assert(text::views(Seq::<String>::empty()) =~= Seq::<Seq<char>>::empty());
        assert(self@ =~= table_step(old(self)@, e@));
    }
}

fn collect_table(spans: &Vec<Span>, start: usize) -> (r: (String, usize, usize))
    requires
        start < spans.len(),
    ensures
        ({
            let all = span_views(spans@);
            let (t, next, end) = table_from(all, start + 1, empty_table(), all[start as int].2);
            &&& r.0@ == table_text(t.headers, t.rows)
            &&& r.1 == next
            &&& r.2 == end
            &&& start < r.1 <= spans.len()
        }),
{
    let ghost all = span_views(spans@);
    let ghost whole = table_from(all, start + 1, empty_table(), all[start as int].2);
    let mut t = Table {
        headers: Vec::new(),
        rows: Vec::new(),
        cell: String::new(),
        row: Vec::new(),
        in_head: false,
    };
    let mut end: usize = spans[start].end;
    let mut i: usize = start + 1;
    assert(t@ =~= empty_table());
    proof {
        table_from_goes_on(all, start + 1, empty_table(), all[start as int].2);
    }
    while i < spans.len()
        invariant_except_break
            start < i <= spans.len(),
            start < spans.len(),
            all == span_views(spans@),
            end == all[start as int].2,
            table_from(all, i as int, t@, end as int) == whole,
        ensures
            start < i <= spans.len(),
            (t@, i as int, end as int) == whole,
        decreases spans.len() - i,
    {
        assert(all[i as int] == spans@[i as int]@);
        if let MdEvent::TableEnd = &spans[i].event {
            end = spans[i].end;
            i = i + 1;
            break;
        }
        t.step(&spans[i].event);
        i = i + 1;
    }
    (render_table_as_blocks(&t.headers, &t.rows), i, end)
}

/// The number of bytes of a character in UTF-8.
pub open spec fn utf8_len(c: char) -> int {
    let n = c as u32;
    if n < 0x80 {
        1
    } else if n < 0x800 {
        2
    } else if n < 0x10000 {
        3
    } else {
        4
    }
}

/// The character that starts `offset` bytes after the start of character `k`; `None` where no
/// character starts there and it is not the end.
pub open spec fn char_at_byte(s: Seq<char>, k: int, offset: int) -> Option<int>
    decreases s.len() - k,
{
    if offset == 0 {
        Some(k)
    } else if k < 0 || k >= s.len() || offset < utf8_len(s[k]) {
        None
    } else {
        char_at_byte(s, k + 1, offset - utf8_len(s[k]))
    }
}

fn char_index(v: &Vec<char>, offset: usize) -> (r: Option<usize>)
    ensures
        match r {
            Some(k) => char_at_byte(v@, 0, offset as int) == Some(k as int) && k <= v.len(),
            None => char_at_byte(v@, 0, offset as int) is None,
        },
{
    let mut k: usize = 0;
    let mut left: usize = offset;
    while left > 0
        invariant
            k <= v.len(),
            char_at_byte(v@, 0, offset as int) == char_at_byte(v@, k as int, left as int),
        decreases left,
    {
        if k >= v.len() {
            return None;
        }
        let n: u32 = v[k] as u32;
        let size: usize = if n < 0x80 {
            1
        } else if n < 0x800 {
            2
        } else if n < 0x10000 {
            3
        } else {
            4
        };
        if left < size {
            return None;
        }
        left = left - size;
        k = k + 1;
    }
    Some(k)
}

/// The text with every table that the spans report replaced by its blocks of lines: from span
/// `i` on, where the text up to character `last` is done. `None` where a table's range does not
/// cut the text in order and between characters.
pub open spec fn tables_replaced(
    s: Seq<char>,
    spans: Seq<(EventView, int, int)>,
    i: int,
    last: int,
) -> Option<Seq<char>>
    decreases spans.len() - i,
{
    if i < 0 || i >= spans.len() {
        Some(s.subrange(last, s.len() as int))
    } else if spans[i].0 is TableStart {
        let (t, next, end) = table_from(spans, i + 1, empty_table(), spans[i].2);
        proof {
            table_from_goes_on(spans, i + 1, empty_table(), spans[i].2);
        }
        match (char_at_byte(s, 0, spans[i].1), char_at_byte(s, 0, end)) {
            (Some(a), Some(b)) => if last <= a && b <= s.len() {
                match tables_replaced(s, spans, next, b) {
                    Some(rest) => Some(s.subrange(last, a) + table_text(t.headers, t.rows) + rest),
                    None => None,
                }
            } else {
                None
            },
            _ => None,
        }
    } else {
        tables_replaced(s, spans, i + 1, last)
    }
}

/// Replaces the tables that the spans report.
pub fn replace_tables(input: &str, spans: &Vec<Span>) -> (r: Option<String>)
    ensures
        text::opt_view(r) == tables_replaced(input@, span_views(spans@), 0, 0),
{
    let ghost all = span_views(spans@);
    let s = text::to_chars(input);
    let mut out: String = String::new();
    let mut last: usize = 0;
    let mut i: usize = 0;
    let ghost whole = tables_replaced(input@, all, 0, 0);
    assert(match tables_replaced(input@, all, 0, 0) {
        Some(rest) => whole == Some(out@ + rest),
        None => whole is None,
    }) by {
        if let Some(rest) = whole {
            assert(out@ + rest =~= rest);
        }
    }
    while i < spans.len()
        invariant
            s@ == input@,
            all == span_views(spans@),
            i <= spans.len(),
            last <= s.len(),
            whole == tables_replaced(input@, all, 0, 0),
            match tables_replaced(input@, all, i as int, last as int) {
                Some(rest) => whole == Some(out@ + rest),
                None => whole is None,
            },
        decreases spans.len() - i,
    {
        assert(all[i as int] == spans@[i as int]@);
        if let MdEvent::TableStart = &spans[i].event {
            let (table, next, end) = collect_table(spans, i);
            match (char_index(&s, spans[i].start), char_index(&s, end)) {
                (Some(a), Some(b)) => {
                    if last > a {
                        return None;
                    }
                    let ghost before = out@;
                    let cut = text::slice(&s, last, a);
                    out.append(cut.as_str());
                    out.append(table.as_str());
                    proof {
                        if let Some(rest) = tables_replaced(input@, all, next as int, b as int) {
                            assert(out@ + rest =~= before + (cut@ + table@ + rest));
                        }
                    }
                    last = b;
                    i = next;
                },
                _ => {
                    return None;
                },
            }
        } else {
            i = i + 1;
        }
    }
    let cut = text::slice(&s, last, s.len());
    out.append(cut.as_str());
    Some(out)
}

/// What the converter made of a text, or the escaped text where it failed.
pub open spec fn converted_or_escaped(
    converted: Option<Seq<char>>,
    preprocessed: Seq<char>,
) -> Seq<char> {
    match converted {
        Some(r) => r,
        None => escaped(preprocessed),
    }
}

/// What the converter made of a text, or the escaped text where it failed.
pub fn take_converted(converted: Option<String>, preprocessed: &str) -> (r: String)
    ensures
        r@ == converted_or_escaped(text::opt_view(converted), preprocessed@),
{
    match converted {
        Some(r) => r,
        None => escape_fallback(preprocessed),
    }
}

/// The text before it goes to the converter: its tables replaced, or unchanged where their
/// ranges do not cut it.
pub open spec fn preprocessed(input: Seq<char>) -> Seq<char> {
    match tables_replaced(input, markdown_spans(input), 0, 0) {
        Some(p) => p,
        None => input,
    }
}

/// Replaces the tables of a text by blocks of lines.
pub fn preprocess_tables(input: &str) -> (r: String)
    ensures
        r@ == preprocessed(input@),
{
    let spans = parse_spans(input);
    match replace_tables(input, &spans) {
        Some(p) => p,
        None => input.to_string(),
    }
}

/// A text in Telegram's MarkdownV2.
pub open spec fn formatted(input: Seq<char>) -> Seq<char> {
    converted_or_escaped(markdown_v2(preprocessed(input)), preprocessed(input))
}

/// Formats a text for Telegram.
pub fn format(input: &str) -> (r: String)
    ensures
        r@ == formatted(input@),
{
    let p = preprocess_tables(input);
    take_converted(convert(p.as_str()), p.as_str())
}

/// A text in which the parser reports no table reaches the converter unchanged.
pub proof fn text_without_tables_is_kept(s: Seq<char>, spans: Seq<(EventView, int, int)>, i: int)
    requires
        0 <= i <= spans.len(),
        forall|k: int| i <= k < spans.len() ==> !((#[trigger] spans[k]).0 is TableStart),
    ensures
        tables_replaced(s, spans, i, 0) == Some(s),
    decreases spans.len() - i,
{
    if i < spans.len() {
        text_without_tables_is_kept(s, spans, i + 1);
    } else {
        assert(s.subrange(0, s.len() as int) =~= s);
    }
}

// ---------------------------------------------------------------------------
// What holds of tables
// ---------------------------------------------------------------------------

/// The rows of a table are written one after the other, each as if it were the only one.
pub proof fn rows_are_written_one_by_one(
    headers: Seq<Seq<char>>,
    a: Seq<Seq<Seq<char>>>,
    b: Seq<Seq<Seq<char>>>,
)
    ensures
        table_text(headers, a + b) == table_text(headers, a) + table_text(headers, b),
    decreases b.len(),
{
    if b.len() == 0 {
        assert(a + b =~= a);
        assert(table_text(headers, a) + table_text(headers, b) =~= table_text(headers, a));
    } else {
        assert((a + b).drop_last() =~= a + b.drop_last());
        assert((a + b).last() == b.last());
        rows_are_written_one_by_one(headers, a, b.drop_last());
        assert(table_text(headers, a + b) =~= table_text(headers, a) + table_text(headers, b));
    }
}

proof fn field_lines_are_lines(headers: Seq<Seq<char>>, row: Seq<Seq<char>>, n: int)
    requires
        0 <= n <= headers.len(),
        n <= row.len(),
    ensures
        field_lines(headers, row, n) == Seq::new(
            n as nat,
            |k: int| "  "@ + headers[k] + ": "@ + row[k] + "\n"@,
        ).flatten(),
    decreases n,
{
    let lines = Seq::new(n as nat, |k: int| "  "@ + headers[k] + ": "@ + row[k] + "\n"@);
    if n == 0 {
        assert(lines.flatten() =~= Seq::<char>::empty());
    } else {
        field_lines_are_lines(headers, row, n - 1);
        let before = Seq::new(
            (n - 1) as nat,
            |k: int| "  "@ + headers[k] + ": "@ + row[k] + "\n"@,
        );
        assert(lines.drop_last() =~= before);
        lines.lemma_flatten_and_flatten_alt_are_equivalent();
        before.lemma_flatten_and_flatten_alt_are_equivalent();
    }
}

proof fn one_row_is_its_text(headers: Seq<Seq<char>>, row: Seq<Seq<char>>)
    ensures
        table_text(headers, seq![row]) == (if headers.len() <= 1 {
            item_text(row)
        } else {
            block_text(headers, row)
        }),
{
    let rows = seq![row];
    assert(rows.drop_last() =~= Seq::<Seq<Seq<char>>>::empty());
    reveal_with_fuel(table_text, 2);
    assert(table_text(headers, rows) =~= (if headers.len() <= 1 {
        item_text(row)
    } else {
        block_text(headers, row)
    }));
}

/// A row of a table with two columns or more is a block: its first cell as the heading, and then a
/// line for every cell that has a header, in their order. None is lost.
pub proof fn every_cell_has_its_line(headers: Seq<Seq<char>>, row: Seq<Seq<char>>)
    requires
        headers.len() >= 2,
    ensures
        table_text(headers, seq![row]) == "**"@ + (if row.len() > 0 {
            row[0]
        } else {
            "(unknown)"@
        }) + "**\n"@ + Seq::new(
            (if headers.len() <= row.len() {
                headers.len()
            } else {
                row.len()
            }),
            |k: int| "  "@ + headers[k] + ": "@ + row[k] + "\n"@,
        ).flatten() + "\n"@,
{
    one_row_is_its_text(headers, row);
    if headers.len() <= row.len() {
        field_lines_are_lines(headers, row, headers.len() as int);
    } else {
        field_lines_are_lines(headers, row, row.len() as int);
    }
}

/// One more column is one more line at the end of a row's block, whatever the columns before it.
pub proof fn another_column_is_another_line(
    headers: Seq<Seq<char>>,
    row: Seq<Seq<char>>,
    header: Seq<char>,
    cell: Seq<char>,
)
    requires
        headers.len() >= 2,
        headers.len() == row.len(),
    ensures
        table_text(headers, seq![row]).len() > 0,
        table_text(headers.push(header), seq![row.push(cell)]) == table_text(
            headers,
            seq![row],
        ).drop_last() + "  "@ + header + ": "@ + cell + "\n\n"@,
{
    let n = headers.len() as int;
    one_row_is_its_text(headers, row);
    one_row_is_its_text(headers.push(header), row.push(cell));
    field_lines_look_no_further(headers, row, header, cell, n);
    reveal_strlit("\n");
    reveal_strlit("\n\n");
    assert("\n\n"@ =~= "\n"@ + "\n"@);
    assert(table_text(headers, seq![row]).drop_last() =~= "**"@ + row[0] + "**\n"@ + field_lines(
        headers,
        row,
        n,
    ));
    assert(table_text(headers.push(header), seq![row.push(cell)]) =~= table_text(
        headers,
        seq![row],
    ).drop_last() + "  "@ + header + ": "@ + cell + "\n\n"@);
}

proof fn field_lines_look_no_further(
    headers: Seq<Seq<char>>,
    row: Seq<Seq<char>>,
    header: Seq<char>,
    cell: Seq<char>,
    n: int,
)
    requires
        n <= headers.len(),
        n <= row.len(),
    ensures
        field_lines(headers.push(header), row.push(cell), n) == field_lines(headers, row, n),
    decreases n,
{
    if n > 0 {
        field_lines_look_no_further(headers, row, header, cell, n - 1);
    }
}

/// A row of a table with one column, or none, is an item with its first cell; an empty row is
/// nothing.
pub proof fn a_single_column_is_a_list(headers: Seq<Seq<char>>, row: Seq<Seq<char>>)
    requires
        headers.len() <= 1,
    ensures
        row.len() > 0 ==> table_text(headers, seq![row]) == "- "@ + row[0] + "\n"@,
        row.len() == 0 ==> table_text(headers, seq![row]) == Seq::<char>::empty(),
{
    one_row_is_its_text(headers, row);
}

/// Every character is kept, in its order, and those that MarkdownV2 reads as marks get a backslash
/// before them.
pub proof fn escaping_adds_up(
    a: Seq<char>,
    b: Seq<char>,
    x: char,
)
    ensures
        escaped(a + b) == escaped(a) + escaped(b),
        escaped(seq![x]) == (if x == '_' || x == '*' || x == '[' || x == ']' || x == '(' || x == ')' || x == '~' || x == '`'
            || x == '>' || x == '#' || x == '+' || x == '-' || x == '=' || x == '|' || x == '{' || x
            == '}' || x == '.' || x == '!' {
            seq!['\\', x]
        } else {
            seq![x]
        }),
    decreases b.len(),
{
    let one = seq![x];
    assert(one.drop_last() =~= Seq::<char>::empty());
    reveal_with_fuel(escaped, 2);
    assert(escaped(one) =~= (if x == '_' || x == '*' || x == '[' || x == ']' || x == '(' || x == ')' || x == '~' || x == '`'
            || x == '>' || x == '#' || x == '+' || x == '-' || x == '=' || x == '|' || x == '{' || x
            == '}' || x == '.' || x == '!' {
            seq!['\\', x]
        } else {
            seq![x]
        }));
    if b.len() == 0 {
        assert(a + b =~= a);
        assert(escaped(a) + escaped(b) =~= escaped(a));
    } else {
        assert((a + b).drop_last() =~= a + b.drop_last());
        assert((a + b).last() == b.last());
        escaping_adds_up(a, b.drop_last(), x);
        assert(escaped(a + b) =~= escaped(a) + escaped(b));
    }
}

/// A text that could be converted is what the converter made of it; one that could not is sent with
/// its marks escaped.
pub proof fn unconverted_text_is_escaped(converted: Option<Seq<char>>, preprocessed: Seq<char>)
    ensures
        converted matches Some(r) ==> converted_or_escaped(converted, preprocessed) == r,
        converted is None ==> converted_or_escaped(converted, preprocessed) == escaped(
            preprocessed,
        ),
        converted is None ==> unescaped(converted_or_escaped(converted, preprocessed))
            == preprocessed,
{
    unescape_undoes_escape(preprocessed);
}

/// Characters are counted by their bytes: the first stands at the start, the next behind the bytes
/// of the one before it, and none within another's bytes or behind the last.
pub proof fn characters_stand_at_their_bytes(s: Seq<char>, k: int)
    requires
        0 <= k <= s.len(),
    ensures
        char_at_byte(s, 0, 0) == Some(0int),
        char_at_byte(s, 0, bytes_before(s, k)) == Some(k),
        k < s.len() ==> bytes_before(s, k + 1) == bytes_before(s, k) + (if (s[k] as u32) < 0x80 {
            1int
        } else if (s[k] as u32) < 0x800 {
            2
        } else if (s[k] as u32) < 0x10000 {
            3
        } else {
            4
        }),
        k < s.len() ==> forall|d: int|
            bytes_before(s, k) < d < bytes_before(s, k + 1) ==> #[trigger] char_at_byte(s, 0, d)
                is None,
        forall|d: int| d > bytes_before(s, s.len() as int) ==> #[trigger] char_at_byte(s, 0, d)
            is None,
{
    stands_at(s, 0, k);
    if k < s.len() {
        assert forall|d: int|
            bytes_before(s, k) < d < bytes_before(s, k + 1) implies #[trigger] char_at_byte(s, 0, d)
            is None by {
            stands_behind(s, 0, k, d - bytes_before(s, k));
        }
    }
    assert forall|d: int| d > bytes_before(s, s.len() as int) implies #[trigger] char_at_byte(
        s,
        0,
        d,
    ) is None by {
        stands_behind(s, 0, s.len() as int, d - bytes_before(s, s.len() as int));
    }
}

/// How many bytes the first `k` characters have.
pub open spec fn bytes_before(s: Seq<char>, k: int) -> int
    decreases k,
{
    if k <= 0 {
        0
    } else {
        bytes_before(s, k - 1) + utf8_len(s[k - 1])
    }
}

proof fn stands_at(s: Seq<char>, i: int, k: int)
    requires
        0 <= i <= k <= s.len(),
    ensures
        char_at_byte(s, i, bytes_before(s, k) - bytes_before(s, i)) == Some(k),
        bytes_before(s, i) <= bytes_before(s, k),
        i < k ==> bytes_before(s, i) < bytes_before(s, k),
    decreases k - i,
{
    if i < k {
        stands_at(s, i + 1, k);
        assert(bytes_before(s, i + 1) == bytes_before(s, i) + utf8_len(s[i]));
    }
}

proof fn stands_behind(s: Seq<char>, i: int, k: int, d: int)
    requires
        0 <= i <= k <= s.len(),
        d > 0,
    ensures
        char_at_byte(s, i, bytes_before(s, k) - bytes_before(s, i) + d) == char_at_byte(s, k, d),
    decreases k - i,
{
    if i < k {
        stands_at(s, i + 1, k);
        stands_behind(s, i + 1, k, d);
        assert(bytes_before(s, i + 1) == bytes_before(s, i) + utf8_len(s[i]));
    }
}

/// A cell holds its words and code, joined and without the space around them, and comes behind the
/// cells before it.
pub proof fn a_cell_is_read(t: TableView, words: Seq<char>, code: Seq<char>)
    ensures
        ({
            let start = table_step(t, EventView::CellStart);
            let said = table_step(start, EventView::Words(words));
            let read = table_step(said, EventView::CellEnd);
            &&& read == (TableView { row: t.row.push(text::trim(words)), cell: Seq::empty(), ..t })
            &&& table_step(said, EventView::CodeSpan(code)).cell == words + seq!['`'] + code + seq![
                '`',
            ]
            &&& table_step(said, EventView::SoftBreak).cell == words + seq![' ']
            &&& table_step(said, EventView::HardBreak).cell == words + seq![' ']
            &&& table_step(said, EventView::Other) == said
        }),
{
    let none = Seq::<char>::empty();
    assert(none + words =~= words);
    assert(words.push('`') + code.push('`') =~= words + seq!['`'] + code + seq!['`']);
    assert(words.push(' ') =~= words + seq![' ']);
}

/// The cells of a row are a row of the table, behind those before it; the cells of the head are the
/// headers, and no row.
pub proof fn rows_and_head_are_read(t: TableView)
    ensures
        table_step(t, EventView::RowStart) == (TableView { row: Seq::empty(), ..t }),
        !t.in_head ==> table_step(t, EventView::RowEnd) == (TableView {
            rows: t.rows.push(t.row),
            row: Seq::empty(),
            ..t
        }),
        table_step(t, EventView::HeadStart).in_head && table_step(t, EventView::HeadStart).row
            == Seq::<Seq<char>>::empty(),
        table_step(t, EventView::HeadEnd) == (TableView {
            headers: t.row,
            row: Seq::empty(),
            in_head: false,
            ..t
        }),
{
}

/// A table is what its events say, one after the other, up to its end.
pub proof fn table_is_read_to_its_end(
    spans: Seq<(EventView, int, int)>,
    i: int,
    j: int,
    t: TableView,
    end: int,
)
    requires
        0 <= i <= j < spans.len(),
        spans[j].0 is TableEnd,
        forall|k: int| i <= k < j ==> !((#[trigger] spans[k]).0 is TableEnd),
    ensures
        table_from(spans, i, t, end) == (
            spans.subrange(i, j).fold_left(
                t,
                |t: TableView, e: (EventView, int, int)| table_step(t, e.0),
            ),
            j + 1,
            spans[j].2,
        ),
    decreases j - i,
{
    let f = |t: TableView, e: (EventView, int, int)| table_step(t, e.0);
    let part = spans.subrange(i, j);
    if i == j {
        assert(part =~= Seq::empty());
    } else {
        table_is_read_to_its_end(spans, i + 1, j, table_step(t, spans[i].0), end);
        let rest = spans.subrange(i + 1, j);
        assert(part.drop_first() =~= rest);
        part.lemma_fold_left_alt(t, f);
        rest.lemma_fold_left_alt(f(t, part[0]), f);
        assert(part.fold_left_alt(t, f) == part.subrange(1, part.len() as int).fold_left_alt(
            f(t, part[0]),
            f,
        ));
        assert(part.subrange(1, part.len() as int) =~= rest);
    }
}

/// A table is replaced by its blocks, and the text before and behind it stays as it is.
pub proof fn a_table_is_replaced_in_its_place(
    s: Seq<char>,
    spans: Seq<(EventView, int, int)>,
    i: int,
    j: int,
    a: int,
    b: int,
)
    requires
        0 <= i < j < spans.len(),
        spans[i].0 is TableStart,
        spans[j].0 is TableEnd,
        forall|k: int| i < k < j ==> !((#[trigger] spans[k]).0 is TableEnd),
        forall|k: int|
            0 <= k < spans.len() && !(i <= k <= j) ==> !((#[trigger] spans[k]).0 is TableStart),
        0 <= a <= b <= s.len(),
        spans[i].1 == bytes_before(s, a),
        spans[j].2 == bytes_before(s, b),
    ensures
        ({
            let t = spans.subrange(i + 1, j).fold_left(
                empty_table(),
                |t: TableView, e: (EventView, int, int)| table_step(t, e.0),
            );
            tables_replaced(s, spans, 0, 0) == Some(
                s.take(a) + table_text(t.headers, t.rows) + s.skip(b),
            )
        }),
{
    table_is_read_to_its_end(spans, i + 1, j, empty_table(), spans[i].2);
    characters_stand_at_their_bytes(s, a);
    characters_stand_at_their_bytes(s, b);
    no_table_until(s, spans, 0, i, 0);
    no_table_until(s, spans, j + 1, spans.len() as int, b);
    assert(s.subrange(0, a) =~= s.take(a));
    assert(s.subrange(b, s.len() as int) =~= s.skip(b));
}

proof fn no_table_until(
    s: Seq<char>,
    spans: Seq<(EventView, int, int)>,
    i: int,
    n: int,
    last: int,
)
    requires
        0 <= i <= n <= spans.len(),
        forall|k: int| i <= k < n ==> !((#[trigger] spans[k]).0 is TableStart),
    ensures
        tables_replaced(s, spans, i, last) == tables_replaced(s, spans, n, last),
    decreases n - i,
{
    if i < n {
        assert(!(spans[i].0 is TableStart));
        no_table_until(s, spans, i + 1, n, last);
    }
}

/// Tables are replaced wherever they can be, and a text in which they cannot is left as it is.
pub proof fn tables_are_replaced_where_they_can_be(input: Seq<char>)
    ensures
        match tables_replaced(input, markdown_spans(input), 0, 0) {
            Some(p) => preprocessed(input) == p,
            None => preprocessed(input) == input,
        },
        (forall|i: int|
            0 <= i < markdown_spans(input).len() ==> !((#[trigger] markdown_spans(
                input,
            )[i]).0 is TableStart)) ==> preprocessed(input) == input,
{
    if forall|i: int|
        0 <= i < markdown_spans(input).len() ==> !((#[trigger] markdown_spans(
            input,
        )[i]).0 is TableStart) {
        nothing_to_replace(input, markdown_spans(input), 0);
    }
}

proof fn nothing_to_replace(s: Seq<char>, spans: Seq<(EventView, int, int)>, i: int)
    requires
        0 <= i,
        forall|k: int| 0 <= k < spans.len() ==> !((#[trigger] spans[k]).0 is TableStart),
    ensures
        tables_replaced(s, spans, i, 0) == Some(s),
    decreases spans.len() - i,
{
    if i < spans.len() {
        nothing_to_replace(s, spans, i + 1);
    } else {
        assert(s.subrange(0, s.len() as int) =~= s);
    }
}

/// What is read of a text is seen with its words and its place, in its order.
pub proof fn spans_are_their_parts(list: Seq<Span>, i: int)
    requires
        0 <= i < list.len(),
    ensures
        span_views(list).len() == list.len(),
        span_views(list)[i].1 == list[i].start as int,
        span_views(list)[i].2 == list[i].end as int,
        list[i].event matches MdEvent::Words(t) ==> span_views(list)[i].0 == EventView::Words(t@),
        list[i].event matches MdEvent::CodeSpan(t) ==> span_views(list)[i].0
            == EventView::CodeSpan(t@),
        list[i].event is TableStart <==> span_views(list)[i].0 is TableStart,
        list[i].event is TableEnd <==> span_views(list)[i].0 is TableEnd,
        list[i].event is HeadStart <==> span_views(list)[i].0 is HeadStart,
        list[i].event is HeadEnd <==> span_views(list)[i].0 is HeadEnd,
        list[i].event is RowStart <==> span_views(list)[i].0 is RowStart,
        list[i].event is RowEnd <==> span_views(list)[i].0 is RowEnd,
        list[i].event is CellStart <==> span_views(list)[i].0 is CellStart,
        list[i].event is CellEnd <==> span_views(list)[i].0 is CellEnd,
        list[i].event is SoftBreak <==> span_views(list)[i].0 is SoftBreak,
        list[i].event is HardBreak <==> span_views(list)[i].0 is HardBreak,
{
}

} // verus!
