//! The JSON object in a model's answer, whatever stands around it.

use vstd::prelude::*;
use crate::text;
use vstd::string::*;

verus! {

/// The place behind the brace that closes the object, from place `i` on, inside of `depth` open
/// ones. A brace in a string opens and closes nothing; a quote behind a backslash ends no string.
pub open spec fn close_from(s: Seq<char>, i: int, depth: int, in_string: bool, escaped: bool) -> Option<
    int,
>
    decreases s.len() - i,
{
    if i < 0 || i >= s.len() {
        None
    } else if in_string {
        if escaped {
            close_from(s, i + 1, depth, true, false)
        } else if s[i] == '\\' {
            close_from(s, i + 1, depth, true, true)
        } else {
            close_from(s, i + 1, depth, s[i] != '"', false)
        }
    } else if s[i] == '"' {
        close_from(s, i + 1, depth, true, false)
    } else if s[i] == '{' {
        close_from(s, i + 1, depth + 1, false, false)
    } else if s[i] == '}' {
        if depth <= 1 {
            Some(i + 1)
        } else {
            close_from(s, i + 1, depth - 1, false, false)
        }
    } else {
        close_from(s, i + 1, depth, false, false)
    }
}

/// The end of the object that starts at place `i`.
pub open spec fn object_at(s: Seq<char>, i: int) -> Option<int> {
    if 0 <= i < s.len() && s[i] == '{' {
        close_from(s, i + 1, 1, false, false)
    } else {
        None
    }
}

/// The first object from place `i` on whose braces are balanced.
pub open spec fn object_from(s: Seq<char>, i: int) -> Option<Seq<char>>
    decreases s.len() - i,
{
    if i < 0 || i >= s.len() {
        None
    } else {
        match object_at(s, i) {
            Some(j) => Some(s.subrange(i, j)),
            None => object_from(s, i + 1),
        }
    }
}

fn close(v: &Vec<char>, start: usize) -> (r: Option<usize>)
    requires
        0 < start <= v.len(),
    ensures
        match (r, close_from(v@, start as int, 1, false, false)) {
            (Some(j), Some(k)) => j == k && start < j <= v.len(),
            (None, None) => true,
            _ => false,
        },
{
    let mut i: usize = start;
    let mut depth: usize = 1;
    let mut in_string = false;
    let mut escaped = false;
    while i < v.len()
        invariant
            0 < start <= i <= v.len(),
            1 <= depth <= 1 + (i - start),
            close_from(v@, start as int, 1, false, false) == close_from(
                v@,
                i as int,
                depth as int,
                in_string,
                escaped,
            ),
            escaped ==> in_string,
        decreases v.len() - i,
    {
        let c = v[i];
        if in_string {
            if escaped {
                escaped = false;
            } else if c == '\\' {
                escaped = true;
            } else if c == '"' {
                in_string = false;
            }
        } else if c == '"' {
            in_string = true;
        } else if c == '{' {
            depth = depth + 1;
        } else if c == '}' {
            if depth <= 1 {
                return Some(i + 1);
            }
            depth = depth - 1;
        }
        i = i + 1;
    }
    None
}

/// The first object in a text whose braces are balanced.
pub fn extract_json_object(s: &str) -> (r: Option<String>)
    ensures
        text::opt_view(r) == object_from(s@, 0),
{
    let v = text::to_chars(s);
    let mut i: usize = 0;
    while i < v.len()
        invariant
            i <= v.len(),
            v@ == s@,
            object_from(s@, 0) == object_from(s@, i as int),
        decreases v.len() - i,
    {
        if v[i] == '{' {
            if let Some(j) = close(&v, i + 1) {
                return Some(text::slice(&v, i, j));
            }
        }
        i = i + 1;
    }
    None
}

// ---------------------------------------------------------------------------
// Laws
// ---------------------------------------------------------------------------

/// What stands before and behind does not matter for where an object ends.
proof fn close_is_local(
    before: Seq<char>,
    object: Seq<char>,
    behind: Seq<char>,
    i: int,
    depth: int,
    in_string: bool,
    escaped: bool,
)
    requires
        0 <= i <= object.len(),
        close_from(object, i, depth, in_string, escaped) is Some,
    ensures
        close_from(
            before + object + behind,
            before.len() + i,
            depth,
            in_string,
            escaped,
        ) == Some(before.len() + close_from(object, i, depth, in_string, escaped)->0),
    decreases object.len() - i,
{
    let all = before + object + behind;
    if i < object.len() {
        let c = object[i];
        assert(all[before.len() + i] == c);
        if in_string {
            if escaped {
                close_is_local(before, object, behind, i + 1, depth, true, false);
            } else if c == '\\' {
                close_is_local(before, object, behind, i + 1, depth, true, true);
            } else {
                close_is_local(before, object, behind, i + 1, depth, c != '"', false);
            }
        } else if c == '"' {
            close_is_local(before, object, behind, i + 1, depth, true, false);
        } else if c == '{' {
            close_is_local(before, object, behind, i + 1, depth + 1, false, false);
        } else if c == '}' {
            if depth > 1 {
                close_is_local(before, object, behind, i + 1, depth - 1, false, false);
            }
        } else {
            close_is_local(before, object, behind, i + 1, depth, false, false);
        }
    }
}

proof fn nothing_before(s: Seq<char>, i: int, j: int)
    requires
        0 <= i <= j <= s.len(),
        forall|k: int| i <= k < j ==> #[trigger] s[k] != '{',
    ensures
        object_from(s, i) == object_from(s, j),
    decreases j - i,
{
    if i < j {
        nothing_before(s, i + 1, j);
    }
}

/// An object is found whatever stands around it, as long as no brace opens before it.
pub proof fn object_is_found_in_prose(before: Seq<char>, object: Seq<char>, behind: Seq<char>)
    requires
        forall|k: int| 0 <= k < before.len() ==> #[trigger] before[k] != '{',
        object_at(object, 0) == Some(object.len() as int),
    ensures
        object_from(before + object + behind, 0) == Some(object),
{
    let all = before + object + behind;
    let n = before.len() as int;
    assert forall|k: int| 0 <= k < n implies #[trigger] all[k] != '{' by {
        assert(all[k] == before[k]);
    }
    nothing_before(all, 0, n);
    assert(all[n] == object[0]);
    close_is_local(before, object, behind, 1, 1, false, false);
    assert(all.subrange(n, n + object.len()) =~= object);
}

proof fn close_is_a_brace(s: Seq<char>, i: int, depth: int, in_string: bool, escaped: bool)
    requires
        0 <= i,
    ensures
        close_from(s, i, depth, in_string, escaped) matches Some(j) ==> i < j <= s.len() && s[j - 1]
            == '}',
    decreases s.len() - i,
{
    if i < s.len() {
        let c = s[i];
        if in_string {
            if escaped {
                close_is_a_brace(s, i + 1, depth, true, false);
            } else if c == '\\' {
                close_is_a_brace(s, i + 1, depth, true, true);
            } else {
                close_is_a_brace(s, i + 1, depth, c != '"', false);
            }
        } else if c == '"' {
            close_is_a_brace(s, i + 1, depth, true, false);
        } else if c == '{' {
            close_is_a_brace(s, i + 1, depth + 1, false, false);
        } else if c == '}' {
            if depth > 1 {
                close_is_a_brace(s, i + 1, depth - 1, false, false);
            }
        } else {
            close_is_a_brace(s, i + 1, depth, false, false);
        }
    }
}

/// What is found stands in the text, between two braces.
pub proof fn found_object_is_a_part(s: Seq<char>, i: int)
    requires
        0 <= i,
    ensures
        object_from(s, i) matches Some(o) ==> o.len() >= 2 && o[0] == '{' && o.last() == '}'
            && text::contains_text(s, o),
    decreases s.len() - i,
{
    if i < s.len() {
        match object_at(s, i) {
            Some(j) => {
                close_is_a_brace(s, i + 1, 1, false, false);
                assert(text::has_at(s, s.subrange(i, j), i));
            },
            None => {
                found_object_is_a_part(s, i + 1);
            },
        }
    }
}

/// Text that is neither a brace nor a quote changes nothing outside of strings.
pub open spec fn is_flat(t: Seq<char>) -> bool {
    forall|k: int| 0 <= k < t.len() ==> #[trigger] t[k] != '{' && t[k] != '}' && t[k] != '"'
}

proof fn flat_text_is_passed(s: Seq<char>, i: int, n: int, depth: int)
    requires
        0 <= i <= n <= s.len(),
        forall|k: int| i <= k < n ==> #[trigger] s[k] != '{' && s[k] != '}' && s[k] != '"',
    ensures
        close_from(s, i, depth, false, false) == close_from(s, n, depth, false, false),
    decreases n - i,
{
    if i < n {
        assert(s[i] != '{');
        flat_text_is_passed(s, i + 1, n, depth);
    }
}

proof fn string_is_passed(s: Seq<char>, i: int, n: int, depth: int)
    requires
        0 <= i <= n < s.len(),
        s[n] == '"',
        forall|k: int| i <= k < n ==> #[trigger] s[k] != '"' && s[k] != '\\',
    ensures
        close_from(s, i, depth, true, false) == close_from(s, n + 1, depth, false, false),
    decreases n - i,
{
    if i < n {
        assert(s[i] != '"');
        string_is_passed(s, i + 1, n, depth);
    }
}

/// Braces around text without braces and quotes are an object.
pub proof fn braces_make_an_object(t: Seq<char>)
    requires
        is_flat(t),
    ensures
        object_at(seq!['{'] + t + seq!['}'], 0) == Some((t.len() + 2) as int),
{
    let s = seq!['{'] + t + seq!['}'];
    let n = t.len() as int + 1;
    assert forall|k: int| 1 <= k < n implies #[trigger] s[k] != '{' && s[k] != '}' && s[k] != '"' by {
        assert(s[k] == t[k - 1]);
    }
    flat_text_is_passed(s, 1, n, 1);
    assert(s[n] == '}');
}

/// Whatever braces a string holds, they are part of the string: an object with a string in it ends
/// with its own brace.
pub proof fn braces_in_strings_do_not_count(
    before: Seq<char>,
    string: Seq<char>,
    behind: Seq<char>,
)
    requires
        is_flat(before),
        is_flat(behind),
        forall|k: int| 0 <= k < string.len() ==> #[trigger] string[k] != '"' && string[k] != '\\',
    ensures
        ({
            let s = seq!['{'] + before + seq!['"'] + string + seq!['"'] + behind + seq!['}'];
            object_at(s, 0) == Some(s.len() as int)
        }),
{
    let s = seq!['{'] + before + seq!['"'] + string + seq!['"'] + behind + seq!['}'];
    let a = 1 + before.len() as int;
    let b = a + 1 + string.len();
    let c = b + 1 + behind.len();
    assert forall|k: int| 1 <= k < a implies #[trigger] s[k] != '{' && s[k] != '}' && s[k] != '"' by {
        assert(s[k] == before[k - 1]);
    }
    flat_text_is_passed(s, 1, a, 1);
    assert(s[a] == '"');
    assert forall|k: int| a + 1 <= k < b implies #[trigger] s[k] != '"' && s[k] != '\\' by {
        assert(s[k] == string[k - a - 1]);
    }
    assert(s[b] == '"');
    string_is_passed(s, a + 1, b, 1);
    assert forall|k: int| b + 1 <= k < c implies #[trigger] s[k] != '{' && s[k] != '}' && s[k]
        != '"' by {
        assert(s[k] == behind[k - b - 1]);
    }
    flat_text_is_passed(s, b + 1, c, 1);
    assert(s[c] == '}');
    assert(s.len() == c + 1);
}

/// A quote or a backslash behind a backslash belongs to the string.
pub proof fn escaped_quote_does_not_end_a_string(s: Seq<char>, i: int, depth: int)
    requires
        0 <= i,
        i + 1 < s.len(),
        s[i] == '\\',
    ensures
        close_from(s, i, depth, true, false) == close_from(s, i + 2, depth, true, false),
{
    reveal_with_fuel(close_from, 3);
}

proof fn inner_object_is_passed(
    pre: Seq<char>,
    t: Seq<char>,
    rest: Seq<char>,
    i: int,
    depth: int,
    more: int,
    in_string: bool,
    escaped: bool,
)
    requires
        0 <= i <= t.len(),
        depth >= 1,
        more >= 0,
        close_from(t, i, depth, in_string, escaped) == Some(t.len() as int),
        more > 0,
    ensures
        close_from(pre + t + rest, pre.len() + i, depth + more, in_string, escaped) == close_from(
            pre + t + rest,
            (pre.len() + t.len()) as int,
            more,
            false,
            false,
        ),
    decreases t.len() - i,
{
    let s = pre + t + rest;
    if i < t.len() {
        assert(s[pre.len() + i] == t[i]);
        if in_string {
            if escaped {
                inner_object_is_passed(pre, t, rest, i + 1, depth, more, true, false);
            } else if t[i] == '\\' {
                inner_object_is_passed(pre, t, rest, i + 1, depth, more, true, true);
            } else {
                inner_object_is_passed(pre, t, rest, i + 1, depth, more, t[i] != '"', false);
            }
        } else if t[i] == '"' {
            inner_object_is_passed(pre, t, rest, i + 1, depth, more, true, false);
        } else if t[i] == '{' {
            inner_object_is_passed(pre, t, rest, i + 1, depth + 1, more, false, false);
        } else if t[i] == '}' {
            if depth > 1 {
                inner_object_is_passed(pre, t, rest, i + 1, depth - 1, more, false, false);
            }
        } else {
            inner_object_is_passed(pre, t, rest, i + 1, depth, more, false, false);
        }
    }
}

/// An object with another one in it ends with its own brace, not with the inner one's.
pub proof fn objects_nest(before: Seq<char>, inner: Seq<char>, behind: Seq<char>)
    requires
        is_flat(before),
        is_flat(behind),
        object_at(inner, 0) == Some(inner.len() as int),
    ensures
        ({
            let s = seq!['{'] + before + inner + behind + seq!['}'];
            object_at(s, 0) == Some(s.len() as int)
        }),
{
    let s = seq!['{'] + before + inner + behind + seq!['}'];
    let pre = seq!['{'] + before;
    let rest = behind + seq!['}'];
    let a = pre.len() as int;
    let b = a + inner.len();
    let c = b + behind.len();
    assert(s =~= pre + inner + rest);
    assert forall|k: int| 1 <= k < a implies #[trigger] s[k] != '{' && s[k] != '}' && s[k] != '"' by {
        assert(s[k] == before[k - 1]);
    }
    flat_text_is_passed(s, 1, a, 1);
    assert(s[a] == inner[0]);
    inner_object_is_passed(pre, inner, rest, 1, 1, 1, false, false);
    assert forall|k: int| b <= k < c implies #[trigger] s[k] != '{' && s[k] != '}' && s[k] != '"' by {
        assert(s[k] == behind[k - b]);
    }
    flat_text_is_passed(s, b, c, 1);
    assert(s[c] == '}');
    assert(s.len() == c + 1);
}

} // verus!
