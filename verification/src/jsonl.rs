//! Records in a text file, one on a line.

use vstd::prelude::*;
use crate::text;
use vstd::string::*;

verus! {

/// The text up to the next line break at or after `i`, or to the end.
pub open spec fn line_end(s: Seq<char>, i: int) -> int {
    match text::find_from(s, seq!['\n'], i) {
        Some(j) => j,
        None => s.len() as int,
    }
}

/// The lines from position `i` on that are not blank, each without a carriage return at its end.
pub open spec fn lines_from(s: Seq<char>, i: int) -> Seq<Seq<char>>
    decreases s.len() - i + 1,
{
    if i < 0 || i >= s.len() {
        Seq::empty()
    } else {
        let e = line_end(s, i);
        proof {
            text::find_is_first(s, seq!['\n'], i);
        }
        let raw = s.subrange(i, e);
        let line = if raw.len() > 0 && raw.last() == '\r' {
            raw.drop_last()
        } else {
            raw
        };
        (if text::trim(line).len() == 0 {
            Seq::<Seq<char>>::empty()
        } else {
            seq![line]
        }) + lines_from(s, e + 1)
    }
}

/// The lines of a file that are not blank.
pub fn content_lines(raw: &str) -> (lines: Vec<String>)
    ensures
        text::views(lines@) == lines_from(raw@, 0),
{
    let s = text::to_chars(raw);
    let mut newline: Vec<char> = Vec::new();
    newline.push('\n');
    assert(newline@ =~= seq!['\n']);
    let mut lines: Vec<String> = Vec::new();
    let mut i: usize = 0;
    assert(text::views(lines@) + lines_from(s@, 0) =~= lines_from(s@, 0));
    while i < s.len()
        invariant
            s@ == raw@,
            newline@ == seq!['\n'],
            i <= s.len(),
            text::views(lines@) + lines_from(s@, i as int) == lines_from(s@, 0),
        decreases s.len() - i,
    {
        let e: usize = match text::find(&s, &newline, i) {
            Some(j) => j,
            None => s.len(),
        };
        let end: usize = if e > i && s[e - 1] == '\r' {
            e - 1
        } else {
            e
        };
        let line = text::slice(&s, i, end);
        let ghost part = s@.subrange(i as int, e as int);
        assert(part.len() > 0 && part.last() == '\r' ==> part.drop_last() =~= line@);
        assert(!(part.len() > 0 && part.last() == '\r') ==> part =~= line@);
        let blank = text::trimmed(line.as_str()).as_str().is_empty();
        let ghost before = lines@;
        let ghost view = line@;
        if !blank {
            lines.push(line);
            assert(text::views(lines@) =~= text::views(before).push(view));
        }
        assert(text::views(lines@) + lines_from(s@, e + 1) =~= text::views(before) + lines_from(
            s@,
            i as int,
        ));
        if e < s.len() {
            i = e + 1;
        } else {
            assert(lines_from(s@, e + 1) =~= Seq::<Seq<char>>::empty());
            i = e;
        }
    }
    assert(text::views(lines@) + lines_from(s@, i as int) =~= text::views(lines@));
    lines
}

/// The records, each with a line break behind it.
pub open spec fn lines_text(lines: Seq<Seq<char>>) -> Seq<char>
    decreases lines.len(),
{
    if lines.len() == 0 {
        Seq::empty()
    } else {
        lines[0].push('\n') + lines_text(lines.drop_first())
    }
}

/// Writes the records one on a line.
pub fn join_lines(lines: &Vec<String>) -> (out: String)
    ensures
        out@ == lines_text(text::views(lines@)),
{
    let ghost all = text::views(lines@);
    let mut out: String = String::new();
    let mut i: usize = 0;
    assert(all.skip(0) =~= all);
    assert(out@ + lines_text(all.skip(0)) =~= lines_text(all));
    while i < lines.len()
        invariant
            i <= lines.len(),
            all == text::views(lines@),
            out@ + lines_text(all.skip(i as int)) == lines_text(all),
        decreases lines.len() - i,
    {
        let ghost before = out@;
        assert(all.skip(i as int).drop_first() =~= all.skip(i as int + 1));
        assert(all.skip(i as int)[0] == lines@[i as int]@);
        out.append(lines[i].as_str());
        out.push('\n');
        assert(out@ + lines_text(all.skip(i as int + 1)) =~= before + lines_text(
            all.skip(i as int),
        ));
        i = i + 1;
    }
    assert(out@ + lines_text(all.skip(i as int)) =~= out@);
    out
}

/// A record that fits on a line: not blank, without a line break, and not ending in a carriage
/// return.
pub open spec fn is_record(line: Seq<char>) -> bool {
    &&& text::trim(line).len() > 0
    &&& line.last() != '\r'
    &&& forall|i: int| 0 <= i < line.len() ==> #[trigger] line[i] != '\n'
}

proof fn reading_from(pre: Seq<char>, lines: Seq<Seq<char>>)
    requires
        forall|i: int| 0 <= i < lines.len() ==> is_record(#[trigger] lines[i]),
    ensures
        lines_from(pre + lines_text(lines), pre.len() as int) == lines,
    decreases lines.len(),
{
    let s = pre + lines_text(lines);
    let i = pre.len() as int;
    if lines.len() == 0 {
        assert(s =~= pre);
    } else {
        let line = lines[0];
        let rest = lines_text(lines.drop_first());
        let newline = seq!['\n'];
        assert(is_record(line));
        assert(line.len() > 0) by {
            text::trim_has_no_outer_space(line);
        }
        let e = i + line.len();
        assert(s.subrange(e, e + 1) =~= newline);
        assert forall|k: int| i <= k < e implies !#[trigger] text::has_at(s, newline, k) by {
            assert(s[k] == line[k - i]);
            assert(s.subrange(k, k + 1)[0] == s[k]);
        }
        text::find_unique(s, newline, i, e);
        assert(s.subrange(i, e) =~= line);
        let next = pre + line.push('\n');
        assert(s =~= next + rest);
        assert forall|k: int| 0 <= k < lines.drop_first().len() implies is_record(
            #[trigger] lines.drop_first()[k],
        ) by {
            assert(lines.drop_first()[k] == lines[k + 1]);
        }
        reading_from(next, lines.drop_first());
        assert(seq![line] + lines.drop_first() =~= lines);
    }
}

/// Reading what was written gives the records back.
pub proof fn lines_are_read_back(lines: Seq<Seq<char>>)
    requires
        forall|i: int| 0 <= i < lines.len() ==> is_record(#[trigger] lines[i]),
    ensures
        lines_from(lines_text(lines), 0) == lines,
{
    let none = Seq::<char>::empty();
    reading_from(none, lines);
    assert(none + lines_text(lines) =~= lines_text(lines));
}

/// Appending a record to a file of records reads as that record behind the others.
pub proof fn appended_record_comes_last(lines: Seq<Seq<char>>, record: Seq<char>)
    requires
        forall|i: int| 0 <= i < lines.len() ==> is_record(#[trigger] lines[i]),
        is_record(record),
    ensures
        lines_from(lines_text(lines) + record.push('\n'), 0) == lines.push(record),
{
    let all = lines.push(record);
    assert forall|i: int| 0 <= i < all.len() implies is_record(#[trigger] all[i]) by {
        if i < lines.len() {
            assert(all[i] == lines[i]);
        }
    }
    lines_are_read_back(all);
    text_of_push(lines, record);
}

proof fn text_of_push(lines: Seq<Seq<char>>, record: Seq<char>)
    ensures
        lines_text(lines.push(record)) == lines_text(lines) + record.push('\n'),
    decreases lines.len(),
{
    let all = lines.push(record);
    if lines.len() == 0 {
        assert(all.drop_first() =~= lines);
        assert(lines_text(all.drop_first()) =~= Seq::<char>::empty());
        assert(lines_text(all) =~= lines_text(lines) + record.push('\n'));
    } else {
        assert(all.drop_first() =~= lines.drop_first().push(record));
        text_of_push(lines.drop_first(), record);
        assert(lines_text(all) =~= lines_text(lines) + record.push('\n'));
    }
}

/// A line is read without its end, whatever follows: a blank one is left out, and a carriage return
/// before the end belongs to it.
pub proof fn a_line_is_read_before_the_rest(line: Seq<char>, rest: Seq<char>)
    requires
        forall|i: int| 0 <= i < line.len() ==> #[trigger] line[i] != '\n',
        line.len() > 0 ==> line.last() != '\r',
    ensures
        lines_from(line.push('\n') + rest, 0) == (if text::trim(line).len() > 0 {
            seq![line]
        } else {
            Seq::empty()
        }) + lines_from(rest, 0),
        lines_from(line + seq!['\r', '\n'] + rest, 0) == lines_from(line.push('\n') + rest, 0),
        lines_from(line, 0) == lines_from(line.push('\n'), 0),
{
    let end = seq!['\n'];
    let s = line.push('\n') + rest;
    let n = line.len() as int;
    ends_at(s, n);
    assert(s.subrange(0, n) =~= line);
    behind_a_line(line.push('\n'), rest, 0);
    let t = line + seq!['\r', '\n'] + rest;
    assert forall|k: int| 0 <= k < n + 1 implies #[trigger] t[k] != '\n' by {
        if k < n {
            assert(t[k] == line[k]);
        }
    }
    ends_at(t, n + 1);
    assert(t.subrange(0, n + 1) =~= line.push('\r'));
    assert(line.push('\r').drop_last() =~= line);
    assert(t =~= (line + seq!['\r', '\n']) + rest);
    behind_a_line(line + seq!['\r', '\n'], rest, 0);
    let none = Seq::<char>::empty();
    assert(line.push('\n') + none =~= line.push('\n'));
    ends_at(line.push('\n'), n);
    assert(line.push('\n').subrange(0, n) =~= line);
    assert(lines_from(line.push('\n'), n + 1) =~= Seq::<Seq<char>>::empty());
    if line.len() > 0 {
        text::find_is_first(line, end, 0);
        if let Some(j) = text::find_from(line, end, 0) {
            assert(line.subrange(j, j + 1)[0] == '\n');
        }
        assert(line.subrange(0, n) =~= line);
        assert(lines_from(line, n + 1) =~= Seq::<Seq<char>>::empty());
    } else {
        assert(text::trim(line) =~= line);
    }
}

proof fn ends_at(s: Seq<char>, n: int)
    requires
        0 <= n < s.len(),
        s[n] == '\n',
        forall|k: int| 0 <= k < n ==> #[trigger] s[k] != '\n',
    ensures
        line_end(s, 0) == n,
{
    let end = seq!['\n'];
    assert(s.subrange(n, n + 1) =~= end);
    assert forall|k: int| 0 <= k < n implies !#[trigger] text::has_at(s, end, k) by {
        if text::has_at(s, end, k) {
            assert(s.subrange(k, k + 1)[0] == '\n');
        }
    }
    text::find_unique(s, end, 0, n);
}

proof fn behind_a_line(pre: Seq<char>, t: Seq<char>, i: int)
    requires
        0 <= i,
    ensures
        lines_from(pre + t, pre.len() + i) == lines_from(t, i),
    decreases t.len() - i + 1,
{
    let s = pre + t;
    let end = seq!['\n'];
    if i < t.len() {
        text::find_is_first(t, end, i);
        text::find_is_first(s, end, pre.len() + i);
        assert forall|k: int| 0 <= k implies #[trigger] text::has_at(t, end, k) == text::has_at(
            s,
            end,
            pre.len() + k,
        ) by {
            if k + 1 <= t.len() {
                assert(s.subrange(pre.len() + k, pre.len() + k + 1) =~= t.subrange(k, k + 1));
            }
        }
        let e = line_end(t, i);
        match text::find_from(t, end, i) {
            Some(j) => {
                assert forall|k: int| pre.len() + i <= k < pre.len() + j implies !#[trigger] text::has_at(
                    s,
                    end,
                    k,
                ) by {
                    assert(!text::has_at(t, end, k - pre.len()));
                }
                text::find_unique(s, end, pre.len() + i, pre.len() + j);
            },
            None => {
                if let Some(k) = text::find_from(s, end, pre.len() + i) {
                    assert(text::has_at(t, end, k - pre.len()));
                }
            },
        }
        assert(line_end(s, pre.len() + i) == pre.len() + e);
        assert(s.subrange(pre.len() + i, pre.len() + e) =~= t.subrange(i, e));
        behind_a_line(pre, t, e + 1);
    }
}

} // verus!
