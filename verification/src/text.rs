//! Text as sequences of characters: searching, trimming, joining and decimal numbers.

use vstd::prelude::*;
use vstd::string::*;

verus! {

/// `String::push` of std: the character is appended at the end, nothing else changes.
pub assume_specification[ String::push ](s: &mut String, c: char)
    ensures
        final(s)@ == old(s)@.push(c),
;

// ---------------------------------------------------------------------------
// Searching
// ---------------------------------------------------------------------------

/// `p` stands in `s` at position `i`.
pub open spec fn has_at(s: Seq<char>, p: Seq<char>, i: int) -> bool {
    0 <= i && i + p.len() <= s.len() && s.subrange(i, i + p.len()) =~= p
}

/// The first position at or after `i` where `p` stands in `s`.
pub open spec fn find_from(s: Seq<char>, p: Seq<char>, i: int) -> Option<int>
    decreases s.len() - i + 1,
{
    if i < 0 || i + p.len() > s.len() {
        None
    } else if has_at(s, p, i) {
        Some(i)
    } else {
        find_from(s, p, i + 1)
    }
}

/// `p` stands somewhere in `s`.
pub open spec fn contains_text(s: Seq<char>, p: Seq<char>) -> bool {
    exists|i: int| has_at(s, p, i)
}

/// `find_from` gives the least position at or after `i`, or `None` where there is none.
pub proof fn find_is_first(s: Seq<char>, p: Seq<char>, i: int)
    requires
        0 <= i,
    ensures
        match find_from(s, p, i) {
            Some(j) => i <= j && has_at(s, p, j) && (forall|k: int|
                i <= k < j ==> !#[trigger] has_at(s, p, k)),
            None => forall|k: int| i <= k ==> !#[trigger] has_at(s, p, k),
        },
    decreases s.len() - i + 1,
{
    if i + p.len() > s.len() {
    } else if has_at(s, p, i) {
    } else {
        find_is_first(s, p, i + 1);
    }
}

/// A position that holds `p` with no earlier one at or after `i` is what `find_from` gives.
pub proof fn find_unique(s: Seq<char>, p: Seq<char>, i: int, j: int)
    requires
        0 <= i <= j,
        has_at(s, p, j),
        forall|k: int| i <= k < j ==> !#[trigger] has_at(s, p, k),
    ensures
        find_from(s, p, i) == Some(j),
{
    find_is_first(s, p, i);
}

/// `find_from` from the start finds something exactly where the text contains `p`.
pub proof fn find_contains(s: Seq<char>, p: Seq<char>)
    ensures
        find_from(s, p, 0) is Some <==> contains_text(s, p),
{
    find_is_first(s, p, 0);
}

/// The characters of a string.
pub fn to_chars(s: &str) -> (v: Vec<char>)
    ensures
        v@ == s@,
{
    let mut v: Vec<char> = Vec::new();
    for c in it: s.chars()
        invariant
            it.seq() == s@,
            v@ == s@.take(it.index() as int),
    {
        v.push(c);
        assert(s@.take(it.index() as int).push(c) =~= s@.take(it.index() as int + 1));
    }
    assert(s@.take(s@.len() as int) =~= s@);
    v
}

/// The string made of the characters from `from` up to `to`.
pub fn slice(v: &Vec<char>, from: usize, to: usize) -> (s: String)
    requires
        from <= to <= v.len(),
    ensures
        s@ == v@.subrange(from as int, to as int),
{
    let mut s: String = String::new();
    let mut i: usize = from;
    while i < to
        invariant
            from <= i <= to <= v.len(),
            s@ == v@.subrange(from as int, i as int),
        decreases to - i,
    {
        s.push(v[i]);
        assert(v@.subrange(from as int, i as int).push(v@[i as int]) =~= v@.subrange(
            from as int,
            i as int + 1,
        ));
        i = i + 1;
    }
    s
}

/// The string made of all characters of `v`.
pub fn from_chars(v: &Vec<char>) -> (s: String)
    ensures
        s@ == v@,
{
    assert(v@.subrange(0, v@.len() as int) =~= v@);
    slice(v, 0, v.len())
}

/// Whether `p` stands in `v` at position `i`.
pub fn occurs_at(v: &Vec<char>, p: &Vec<char>, i: usize) -> (r: bool)
    ensures
        r == has_at(v@, p@, i as int),
{
    if i > v.len() || p.len() > v.len() - i {
        return false;
    }
    let mut k: usize = 0;
    while k < p.len()
        invariant
            i + p.len() <= v.len(),
            k <= p.len(),
            forall|m: int| 0 <= m < k ==> v@[i + m] == p@[m],
        decreases p.len() - k,
    {
        if v[i + k] != p[k] {
            assert(v@.subrange(i as int, i + p.len())[k as int] != p@[k as int]);
            return false;
        }
        k = k + 1;
    }
    true
}

/// The first position at or after `i` where `p` stands in `v`.
pub fn find(v: &Vec<char>, p: &Vec<char>, i: usize) -> (r: Option<usize>)
    ensures
        match r {
            Some(j) => find_from(v@, p@, i as int) == Some(j as int) && i <= j && j + p.len()
                <= v.len(),
            None => find_from(v@, p@, i as int) is None,
        },
{
    let mut j: usize = i;
    loop
        invariant
            i <= j,
            i > v.len() ==> j == i,
            find_from(v@, p@, i as int) == find_from(v@, p@, j as int),
        decreases v.len() + 1 - j,
    {
        if j > v.len() || p.len() > v.len() - j {
            return None;
        }
        if occurs_at(v, p, j) {
            return Some(j);
        }
        if j == v.len() {
            assert(has_at(v@, p@, j as int));
        }
        j = j + 1;
    }
}

/// Whether the string holds the pattern somewhere.
pub fn contains(s: &str, p: &str) -> (r: bool)
    ensures
        r == contains_text(s@, p@),
{
    proof {
        find_contains(s@, p@);
    }
    find(&to_chars(s), &to_chars(p), 0).is_some()
}

/// Whether two strings hold the same characters.
pub fn same(a: &str, b: &str) -> (r: bool)
    ensures
        r == (a@ == b@),
{
    a.to_string() == b.to_string()
}

/// Whether a string is in a list.
pub fn is_among(s: &str, list: &Vec<String>) -> (r: bool)
    ensures
        r == views(list@).contains(s@),
{
    let mut i: usize = 0;
    while i < list.len()
        invariant
            i <= list@.len(),
            forall|k: int| 0 <= k < i ==> #[trigger] views(list@)[k] != s@,
        decreases list@.len() - i,
    {
        if same(list[i].as_str(), s) {
            assert(views(list@)[i as int] == s@);
            return true;
        }
        i = i + 1;
    }
    false
}

/// Whether the string is one of the list.
pub fn is_one_of(s: &str, list: &[&'static str]) -> (r: bool)
    ensures
        r == exists|i: int| 0 <= i < list@.len() && #[trigger] list@[i]@ == s@,
{
    let mut i: usize = 0;
    while i < list.len()
        invariant
            i <= list@.len(),
            forall|k: int| 0 <= k < i ==> #[trigger] list@[k]@ != s@,
        decreases list@.len() - i,
    {
        if same(list[i], s) {
            return true;
        }
        i = i + 1;
    }
    false
}

// ---------------------------------------------------------------------------
// White space
// ---------------------------------------------------------------------------

/// The characters with Unicode's `White_Space` property.
pub open spec fn is_space(c: char) -> bool {
    let n = c as u32;
    ||| 0x09 <= n <= 0x0d
    ||| n == 0x20
    ||| n == 0x85
    ||| n == 0xa0
    ||| n == 0x1680
    ||| 0x2000 <= n <= 0x200a
    ||| n == 0x2028
    ||| n == 0x2029
    ||| n == 0x202f
    ||| n == 0x205f
    ||| n == 0x3000
}

/// Whether a character is white space.
pub fn space(c: char) -> (r: bool)
    ensures
        r == is_space(c),
{
    let n: u32 = c as u32;
    (n >= 0x09 && n <= 0x0d) || n == 0x20 || n == 0x85 || n == 0xa0 || n == 0x1680 || (n >= 0x2000
        && n <= 0x200a) || n == 0x2028 || n == 0x2029 || n == 0x202f || n == 0x205f || n == 0x3000
}

/// The first position at or after `i` that holds no white space, or the end.
pub open spec fn skip_space(s: Seq<char>, i: int) -> int
    decreases s.len() - i,
{
    if 0 <= i < s.len() && is_space(s[i]) {
        skip_space(s, i + 1)
    } else {
        i
    }
}

/// The least end `e`, `lo <= e <= hi`, with only white space from `e` up to `hi`.
pub open spec fn drop_space(s: Seq<char>, lo: int, hi: int) -> int
    decreases hi - lo,
{
    if lo < hi <= s.len() && 0 <= lo && is_space(s[hi - 1]) {
        drop_space(s, lo, hi - 1)
    } else {
        hi
    }
}

/// The text without the white space at its two ends.
pub open spec fn trim(s: Seq<char>) -> Seq<char> {
    let a = skip_space(s, 0);
    s.subrange(a, drop_space(s, a, s.len() as int))
}

/// `skip_space` stays between its start and the end, and stops at the first other character.
pub proof fn skip_space_bounds(s: Seq<char>, i: int)
    requires
        0 <= i <= s.len(),
    ensures
        i <= skip_space(s, i) <= s.len(),
        forall|k: int| i <= k < skip_space(s, i) ==> is_space(s[k]),
        skip_space(s, i) < s.len() ==> !is_space(s[skip_space(s, i)]),
    decreases s.len() - i,
{
    if i < s.len() && is_space(s[i]) {
        skip_space_bounds(s, i + 1);
    }
}

/// `drop_space` stays between its two bounds, and stops after the last other character.
pub proof fn drop_space_bounds(s: Seq<char>, lo: int, hi: int)
    requires
        0 <= lo <= hi <= s.len(),
    ensures
        lo <= drop_space(s, lo, hi) <= hi,
        forall|k: int| drop_space(s, lo, hi) <= k < hi ==> is_space(s[k]),
        drop_space(s, lo, hi) > lo ==> !is_space(s[drop_space(s, lo, hi) - 1]),
    decreases hi - lo,
{
    if lo < hi && is_space(s[hi - 1]) {
        drop_space_bounds(s, lo, hi - 1);
    }
}

/// A trimmed text neither starts nor ends with white space.
pub proof fn trim_has_no_outer_space(s: Seq<char>)
    ensures
        trim(s).len() <= s.len(),
        trim(s).len() > 0 ==> !is_space(trim(s)[0]) && !is_space(trim(s).last()),
{
    skip_space_bounds(s, 0);
    drop_space_bounds(s, skip_space(s, 0), s.len() as int);
}

/// The string without the white space at its two ends.
pub fn trimmed(s: &str) -> (r: String)
    ensures
        r@ == trim(s@),
{
    let v = to_chars(s);
    let mut a: usize = 0;
    while a < v.len() && space(v[a])
        invariant
            a <= v.len(),
            v@ == s@,
            skip_space(s@, 0) == skip_space(s@, a as int),
        decreases v.len() - a,
    {
        a = a + 1;
    }
    let mut b: usize = v.len();
    while a < b && space(v[b - 1])
        invariant
            a <= b <= v.len(),
            v@ == s@,
            drop_space(s@, a as int, s@.len() as int) == drop_space(s@, a as int, b as int),
        decreases b - a,
    {
        b = b - 1;
    }
    slice(&v, a, b)
}

/// The first `n` characters, all of them where there are fewer.
pub open spec fn first_chars(s: Seq<char>, n: int) -> Seq<char> {
    if s.len() <= n {
        s
    } else {
        s.take(n)
    }
}

/// The first `n` characters of the string, all of them where there are fewer.
pub fn first_n(s: &str, n: usize) -> (r: String)
    ensures
        r@ == first_chars(s@, n as int),
{
    let v = to_chars(s);
    if v.len() <= n {
        from_chars(&v)
    } else {
        slice(&v, 0, n)
    }
}

// ---------------------------------------------------------------------------
// Putting text together
// ---------------------------------------------------------------------------

/// The contents of a list of strings.
pub open spec fn views(v: Seq<String>) -> Seq<Seq<char>> {
    v.map_values(|s: String| s@)
}

/// The contents of an optional string.
pub open spec fn opt_view(o: Option<String>) -> Option<Seq<char>> {
    match o {
        Some(s) => Some(s@),
        None => None,
    }
}

/// The parts one after the other, with `sep` between two of them.
pub open spec fn join(parts: Seq<Seq<char>>, sep: Seq<char>) -> Seq<char>
    decreases parts.len(),
{
    if parts.len() == 0 {
        Seq::empty()
    } else if parts.len() == 1 {
        parts[0]
    } else {
        join(parts.drop_last(), sep) + sep + parts.last()
    }
}

/// The strings one after the other, with `sep` between two of them.
pub fn joined(parts: &Vec<String>, sep: &str) -> (r: String)
    ensures
        r@ == join(views(parts@), sep@),
{
    let mut r: String = String::new();
    let mut i: usize = 0;
    while i < parts.len()
        invariant
            i <= parts.len(),
            r@ == join(views(parts@).take(i as int), sep@),
        decreases parts.len() - i,
    {
        let ghost done = views(parts@).take(i as int + 1);
        assert(done.drop_last() =~= views(parts@).take(i as int));
        if i > 0 {
            r.append(sep);
        }
        r.append(parts[i].as_str());
        assert(r@ =~= join(done, sep@));
        i = i + 1;
    }
    assert(views(parts@).take(i as int) =~= views(parts@));
    r
}

/// The same list of constant strings, joined.
pub fn joined_list(parts: &[&'static str], sep: &str) -> (r: String)
    ensures
        r@ == join(parts@.map_values(|s: &'static str| s@), sep@),
{
    let ghost all = parts@.map_values(|s: &'static str| s@);
    let mut r: String = String::new();
    let mut i: usize = 0;
    while i < parts.len()
        invariant
            i <= parts@.len(),
            all == parts@.map_values(|s: &'static str| s@),
            r@ == join(all.take(i as int), sep@),
        decreases parts@.len() - i,
    {
        assert(all.take(i as int + 1).drop_last() =~= all.take(i as int));
        if i > 0 {
            r.append(sep);
        }
        r.append(parts[i]);
        assert(r@ =~= join(all.take(i as int + 1), sep@));
        i = i + 1;
    }
    assert(all.take(i as int) =~= all);
    r
}

/// Two strings, one after the other.
pub fn concat2(a: &str, b: &str) -> (r: String)
    ensures
        r@ == a@ + b@,
{
    let mut r: String = a.to_string();
    r.append(b);
    r
}

/// Three strings, one after the other.
pub fn concat3(a: &str, b: &str, c: &str) -> (r: String)
    ensures
        r@ == a@ + b@ + c@,
{
    let mut r: String = concat2(a, b);
    r.append(c);
    r
}

/// `s` with every `c` replaced by `with`.
pub open spec fn replace_char(s: Seq<char>, c: char, with: Seq<char>) -> Seq<char>
    decreases s.len(),
{
    if s.len() == 0 {
        Seq::empty()
    } else if s.last() == c {
        replace_char(s.drop_last(), c, with) + with
    } else {
        replace_char(s.drop_last(), c, with).push(s.last())
    }
}

/// The string with every `c` replaced by `with`.
pub fn replaced(s: &str, c: char, with: &str) -> (r: String)
    ensures
        r@ == replace_char(s@, c, with@),
{
    let v = to_chars(s);
    let mut r: String = String::new();
    let mut i: usize = 0;
    while i < v.len()
        invariant
            i <= v.len(),
            v@ == s@,
            r@ == replace_char(s@.take(i as int), c, with@),
        decreases v.len() - i,
    {
        assert(s@.take(i as int + 1).drop_last() =~= s@.take(i as int));
        if v[i] == c {
            r.append(with);
        } else {
            r.push(v[i]);
        }
        i = i + 1;
    }
    assert(s@.take(i as int) =~= s@);
    r
}

/// A path as seen from a directory: below it, unless it starts at the root.
pub open spec fn path_join(dir: Seq<char>, name: Seq<char>) -> Seq<char> {
    if name.len() > 0 && name[0] == '/' {
        name
    } else if dir.len() == 0 || dir.last() == '/' {
        dir + name
    } else {
        dir + "/"@ + name
    }
}

/// A path as seen from a directory.
pub fn joined_path(dir: &str, name: &str) -> (r: String)
    ensures
        r@ == path_join(dir@, name@),
{
    let v = to_chars(dir);
    let n = to_chars(name);
    if n.len() > 0 && n[0] == '/' {
        name.to_string()
    } else if v.len() == 0 || v[v.len() - 1] == '/' {
        concat2(dir, name)
    } else {
        concat3(dir, "/", name)
    }
}

// ---------------------------------------------------------------------------
// Decimal numbers
// ---------------------------------------------------------------------------

/// The decimal digit of a number below ten.
pub open spec fn digit(d: int) -> char {
    if d == 0 {
        '0'
    } else if d == 1 {
        '1'
    } else if d == 2 {
        '2'
    } else if d == 3 {
        '3'
    } else if d == 4 {
        '4'
    } else if d == 5 {
        '5'
    } else if d == 6 {
        '6'
    } else if d == 7 {
        '7'
    } else if d == 8 {
        '8'
    } else {
        '9'
    }
}

/// The number in decimal digits, without leading zeros.
pub open spec fn decimal(n: nat) -> Seq<char>
    decreases n,
{
    if n < 10 {
        seq![digit(n as int)]
    } else {
        decimal(n / 10).push(digit((n % 10) as int))
    }
}

/// The number in decimal digits, with a minus sign where it is negative.
pub open spec fn decimal_int(n: int) -> Seq<char> {
    if n < 0 {
        seq!['-'] + decimal((-n) as nat)
    } else {
        decimal(n as nat)
    }
}

fn digit_char(d: u64) -> (c: char)
    requires
        d < 10,
    ensures
        c == digit(d as int),
{
    if d == 0 {
        '0'
    } else if d == 1 {
        '1'
    } else if d == 2 {
        '2'
    } else if d == 3 {
        '3'
    } else if d == 4 {
        '4'
    } else if d == 5 {
        '5'
    } else if d == 6 {
        '6'
    } else if d == 7 {
        '7'
    } else if d == 8 {
        '8'
    } else {
        '9'
    }
}

/// The number in decimal digits.
pub fn decimal_string(n: u64) -> (r: String)
    ensures
        r@ == decimal(n as nat),
    decreases n,
{
    if n < 10 {
        let mut r: String = String::new();
        r.push(digit_char(n));
        assert(r@ =~= decimal(n as nat));
        r
    } else {
        let mut r: String = decimal_string(n / 10);
        r.push(digit_char(n % 10));
        r
    }
}

/// The signed number in decimal digits.
pub fn decimal_int_string(n: i64) -> (r: String)
    ensures
        r@ == decimal_int(n as int),
{
    if n >= 0 {
        return decimal_string(n as u64);
    }
    let m: u64 = if n == i64::MIN {
        0x8000_0000_0000_0000
    } else {
        (-n) as u64
    };
    let mut r: String = String::new();
    r.push('-');
    let d: String = decimal_string(m);
    r.append(d.as_str());
    assert(r@ =~= seq!['-'] + decimal(m as nat));
    r
}

/// The value of a decimal digit.
pub open spec fn digit_value(c: char) -> Option<int> {
    if '0' <= c && c <= '9' {
        Some((c as int) - ('0' as int))
    } else {
        None
    }
}

/// Every character is a decimal digit.
pub open spec fn all_digits(s: Seq<char>) -> bool {
    forall|i: int| 0 <= i < s.len() ==> digit_value(#[trigger] s[i]) is Some
}

/// The number that a run of decimal digits spells.
pub open spec fn digits_value(s: Seq<char>) -> int
    decreases s.len(),
{
    if s.len() == 0 {
        0
    } else {
        digits_value(s.drop_last()) * 10 + digit_value(s.last()).unwrap_or(0)
    }
}

/// The integer that a text spells: an optional sign and at least one digit, nothing else.
pub open spec fn integer_value(s: Seq<char>) -> Option<int> {
    if s.len() == 0 {
        None
    } else {
        let signed = s[0] == '-' || s[0] == '+';
        let body = if signed {
            s.subrange(1, s.len() as int)
        } else {
            s
        };
        if body.len() == 0 || !all_digits(body) {
            None
        } else if s[0] == '-' {
            Some(-digits_value(body))
        } else {
            Some(digits_value(body))
        }
    }
}

/// The `i32` that a text spells; `None` where it spells no integer or one out of range.
pub open spec fn i32_value(s: Seq<char>) -> Option<int> {
    match integer_value(s) {
        Some(n) => if i32::MIN <= n <= i32::MAX {
            Some(n)
        } else {
            None
        },
        None => None,
    }
}

/// Digits only add to the value that the earlier ones spell.
proof fn digits_value_grows(s: Seq<char>, i: int)
    requires
        0 <= i <= s.len(),
    ensures
        0 <= digits_value(s.take(i)) <= digits_value(s),
    decreases s.len() - i, i,
{
    if i == s.len() {
        assert(s.take(i) =~= s);
        digits_value_nonneg(s);
    } else {
        let next = s.take(i + 1);
        assert(next.drop_last() =~= s.take(i));
        digits_value_nonneg(s.take(i));
        digits_value_grows(s, i + 1);
    }
}

proof fn digits_value_nonneg(s: Seq<char>)
    ensures
        0 <= digits_value(s),
    decreases s.len(),
{
    if s.len() > 0 {
        digits_value_nonneg(s.drop_last());
    }
}

/// Reads the `i32` that a string spells.
pub fn read_i32(s: &str) -> (r: Option<i32>)
    ensures
        match r {
            Some(n) => i32_value(s@) == Some(n as int),
            None => i32_value(s@) is None,
        },
{
    let v = to_chars(s);
    if v.len() == 0 {
        return None;
    }
    let negative = v[0] == '-';
    let start: usize = if v[0] == '-' || v[0] == '+' {
        1
    } else {
        0
    };
    if start == v.len() {
        return None;
    }
    let ghost body = v@.subrange(start as int, v@.len() as int);
    assert(start == 0 ==> body =~= v@);
    let mut n: i64 = 0;
    let mut i: usize = start;
    while i < v.len()
        invariant
            v@ == s@,
            start <= i <= v.len(),
            start <= 1,
            body == v@.subrange(start as int, v@.len() as int),
            all_digits(body.take(i - start)),
            n == digits_value(body.take(i - start)),
            0 <= n <= 0x8000_0000,
            s@.len() > 0,
            body.len() > 0,
            negative == (s@[0] == '-'),
            start == 1 <==> (s@[0] == '-' || s@[0] == '+'),
            start == 0 ==> body == s@,
        decreases v.len() - i,
    {
        let c = v[i];
        assert(body[i - start] == c);
        if c < '0' || c > '9' {
            assert(!all_digits(body));
            return None;
        }
        let d: i64 = (c as u32 - '0' as u32) as i64;
        let ghost next = body.take(i - start + 1);
        assert(next.drop_last() =~= body.take(i - start));
        assert(next.last() == c);
        assert(all_digits(next)) by {
            assert forall|k: int| 0 <= k < next.len() implies digit_value(
                #[trigger] next[k],
            ) is Some by {
                if k < i - start {
                    assert(next[k] == body.take(i - start)[k]);
                }
            }
        }
        n = n * 10 + d;
        assert(n == digits_value(next));
        if n > 0x8000_0000 {
            proof {
                digits_value_grows(body, i - start + 1);
            }
            return None;
        }
        i = i + 1;
    }
    assert(body.take(v.len() - start) =~= body);
    if negative {
        Some((-n) as i32)
    } else if n > 0x7fff_ffff {
        None
    } else {
        Some(n as i32)
    }
}

/// The number that a text without a minus sign spells: an optional plus sign and at least one
/// digit, nothing else.
pub open spec fn unsigned_value(s: Seq<char>) -> Option<int> {
    if s.len() == 0 || s[0] == '-' {
        None
    } else {
        integer_value(s)
    }
}

/// The number that a text spells, where it is at most `max`.
pub open spec fn unsigned_value_upto(s: Seq<char>, max: int) -> Option<int> {
    match unsigned_value(s) {
        Some(n) => if n <= max {
            Some(n)
        } else {
            None
        },
        None => None,
    }
}

/// Reads the number that a string spells, where it is at most `max`.
pub fn read_unsigned(s: &str, max: u64) -> (r: Option<u64>)
    ensures
        match r {
            Some(n) => unsigned_value_upto(s@, max as int) == Some(n as int) && n <= max,
            None => unsigned_value_upto(s@, max as int) is None,
        },
{
    let v = to_chars(s);
    if v.len() == 0 || v[0] == '-' {
        return None;
    }
    let start: usize = if v[0] == '+' {
        1
    } else {
        0
    };
    if start == v.len() {
        return None;
    }
    let ghost body = v@.subrange(start as int, v@.len() as int);
    assert(start == 0 ==> body =~= v@);
    let mut n: u128 = 0;
    let mut i: usize = start;
    while i < v.len()
        invariant
            v@ == s@,
            start <= i <= v.len(),
            start <= 1,
            body == v@.subrange(start as int, v@.len() as int),
            all_digits(body.take(i - start)),
            n == digits_value(body.take(i - start)),
            n <= max,
            s@.len() > 0,
            body.len() > 0,
            s@[0] != '-',
            start == 1 <==> s@[0] == '+',
            start == 0 ==> body == s@,
        decreases v.len() - i,
    {
        let c = v[i];
        assert(body[i - start] == c);
        if c < '0' || c > '9' {
            assert(!all_digits(body));
            return None;
        }
        let d: u128 = (c as u32 - '0' as u32) as u128;
        let ghost next = body.take(i - start + 1);
        assert(next.drop_last() =~= body.take(i - start));
        assert(next.last() == c);
        assert(all_digits(next)) by {
            assert forall|k: int| 0 <= k < next.len() implies digit_value(
                #[trigger] next[k],
            ) is Some by {
                if k < i - start {
                    assert(next[k] == body.take(i - start)[k]);
                }
            }
        }
        n = n * 10 + d;
        assert(n == digits_value(next));
        if n > max as u128 {
            proof {
                digits_value_grows(body, i - start + 1);
            }
            return None;
        }
        i = i + 1;
    }
    assert(body.take(v.len() - start) =~= body);
    Some(n as u64)
}

// ---------------------------------------------------------------------------
// What holds of these
// ---------------------------------------------------------------------------

/// What is white space among the characters of ASCII: the blank, and those from tab to carriage
/// return.
pub proof fn ascii_space(c: char)
    requires
        (c as u32) < 128,
    ensures
        is_space(c) <==> c == ' ' || c == '\t' || c == '\n' || c == '\u{b}' || c == '\u{c}' || c
            == '\r',
{
}

/// A trimmed text is what stands between the white space at both ends, and nothing else is lost.
pub proof fn trim_is_the_middle(s: Seq<char>)
    ensures
        exists|a: int, b: int|
            {
                &&& 0 <= a <= b <= s.len()
                &&& trim(s) == #[trigger] s.subrange(a, b)
                &&& forall|k: int| 0 <= k < a ==> is_space(#[trigger] s[k])
                &&& forall|k: int| b <= k < s.len() ==> is_space(#[trigger] s[k])
            },
        trim(s).len() == 0 <==> forall|k: int| 0 <= k < s.len() ==> is_space(#[trigger] s[k]),
        trim(s).len() > 0 ==> !is_space(trim(s)[0]) && !is_space(trim(s).last()),
{
    let a = skip_space(s, 0);
    skip_space_bounds(s, 0);
    let b = drop_space(s, a, s.len() as int);
    drop_space_bounds(s, a, s.len() as int);
    trim_has_no_outer_space(s);
    assert(trim(s) == s.subrange(a, b));
    if trim(s).len() == 0 {
        assert forall|k: int| 0 <= k < s.len() implies is_space(#[trigger] s[k]) by {
            if k >= a {
                assert(b <= k);
            }
        }
    } else {
        assert(trim(s)[0] == s[a]);
    }
}

/// A text that has no white space at its ends is trimmed already, also with white space around it.
pub proof fn trim_drops_what_was_put_around(before: Seq<char>, s: Seq<char>, behind: Seq<char>)
    requires
        s.len() > 0,
        !is_space(s[0]),
        !is_space(s.last()),
        forall|k: int| 0 <= k < before.len() ==> is_space(#[trigger] before[k]),
        forall|k: int| 0 <= k < behind.len() ==> is_space(#[trigger] behind[k]),
    ensures
        trim(before + s + behind) == s,
{
    let t = before + s + behind;
    trim_is_the_middle(t);
    let (a, b) = choose|a: int, b: int|
        {
            &&& 0 <= a <= b <= t.len()
            &&& trim(t) == #[trigger] t.subrange(a, b)
            &&& forall|k: int| 0 <= k < a ==> is_space(#[trigger] t[k])
            &&& forall|k: int| b <= k < t.len() ==> is_space(#[trigger] t[k])
        };
    let i = before.len() as int;
    let j = i + s.len();
    assert(t[i] == s[0]);
    assert(t[j - 1] == s.last());
    assert(a <= i);
    assert(b >= j);
    if a < i {
        assert(t[a] == before[a]);
        assert(trim(t)[0] == t[a]);
    }
    if b > j {
        assert(t[b - 1] == behind[b - 1 - j]);
        assert(trim(t).last() == t[b - 1]);
    }
    assert(t.subrange(i, j) =~= s);
}

/// Lists are joined part by part: two lists with the separator between them. A single part is
/// itself, and no part is nothing.
pub proof fn joins_add_up(a: Seq<Seq<char>>, b: Seq<Seq<char>>, sep: Seq<char>)
    ensures
        join(Seq::empty(), sep) == Seq::<char>::empty(),
        a.len() == 1 ==> join(a, sep) == a[0],
        a.len() > 0 && b.len() > 0 ==> join(a + b, sep) == join(a, sep) + sep + join(b, sep),
    decreases b.len(),
{
    if a.len() > 0 && b.len() > 0 {
        assert((a + b).drop_last() =~= a + b.drop_last());
        assert((a + b).last() == b.last());
        if b.len() == 1 {
            assert(a + b.drop_last() =~= a);
        } else {
            joins_add_up(a, b.drop_last(), sep);
        }
        assert(join(a + b, sep) =~= join(a, sep) + sep + join(b, sep));
    }
}

/// A character is replaced wherever it stands, and the others are kept in their order.
pub proof fn replacing_adds_up(a: Seq<char>, b: Seq<char>, c: char, with: Seq<char>)
    ensures
        replace_char(a + b, c, with) == replace_char(a, c, with) + replace_char(b, c, with),
        replace_char(seq![c], c, with) == with,
        forall|d: char| d != c ==> #[trigger] replace_char(seq![d], c, with) == seq![d],
        (forall|k: int| 0 <= k < a.len() ==> #[trigger] a[k] != c) ==> replace_char(a, c, with)
            == a,
    decreases a.len() + b.len(),
{
    let one = seq![c];
    assert(one.drop_last() =~= Seq::<char>::empty());
    reveal_with_fuel(replace_char, 2);
    assert(replace_char(one, c, with) =~= with);
    assert forall|d: char| d != c implies #[trigger] replace_char(seq![d], c, with) == seq![
        d,
    ] by {
        assert(seq![d].drop_last() =~= Seq::<char>::empty());
        assert(replace_char(seq![d], c, with) =~= seq![d]);
    }
    if a.len() > 0 && (forall|k: int| 0 <= k < a.len() ==> #[trigger] a[k] != c) {
        let init = a.drop_last();
        assert forall|k: int| 0 <= k < init.len() implies #[trigger] init[k] != c by {
            assert(init[k] == a[k]);
        }
        replacing_adds_up(init, Seq::empty(), c, with);
        assert(a[a.len() - 1] != c);
        assert(replace_char(a, c, with) =~= a);
    }
    if b.len() == 0 {
        assert(a + b =~= a);
        assert(replace_char(a, c, with) + replace_char(b, c, with) =~= replace_char(a, c, with));
    } else {
        assert((a + b).drop_last() =~= a + b.drop_last());
        assert((a + b).last() == b.last());
        replacing_adds_up(a, b.drop_last(), c, with);
        assert(replace_char(a + b, c, with) =~= replace_char(a, c, with) + replace_char(
            b,
            c,
            with,
        ));
    }
}

/// The first characters of a text are its start, as many as there are up to the limit.
pub proof fn first_chars_are_the_start(s: Seq<char>, n: int)
    requires
        0 <= n,
    ensures
        first_chars(s, n).is_prefix_of(s),
        first_chars(s, n).len() == (if s.len() <= n {
            s.len() as int
        } else {
            n
        }),
{
}

/// A path seen from a directory ends in its name. A name that starts at the root stands alone;
/// another stands behind the directory, with one slash between them unless the directory brings
/// it or has no name.
pub proof fn joined_path_holds_both(dir: Seq<char>, name: Seq<char>)
    ensures
        name.is_suffix_of(path_join(dir, name)),
        name.len() > 0 && name[0] == '/' ==> path_join(dir, name) == name,
        !(name.len() > 0 && name[0] == '/') ==> dir.is_prefix_of(path_join(dir, name)) && path_join(
            dir,
            name,
        ).len() == dir.len() + name.len() + (if dir.len() == 0 || dir.last() == '/' {
            0int
        } else {
            1int
        }),
        !(name.len() > 0 && name[0] == '/') && dir.len() > 0 ==> path_join(dir, name)[path_join(
            dir,
            name,
        ).len() - name.len() - 1] == '/',
{
    reveal_strlit("/");
    let p = path_join(dir, name);
    assert(p.subrange(p.len() - name.len(), p.len() as int) =~= name);
}

/// A number is read back from its digits.
pub proof fn digits_are_read_back(n: nat)
    ensures
        all_digits(decimal(n)),
        decimal(n).len() > 0,
        digits_value(decimal(n)) == n,
        decimal(n).len() > 1 ==> decimal(n)[0] != '0',
        n == 0 ==> decimal(n) == seq!['0'],
    decreases n,
{
    let d = decimal(n);
    if n < 10 {
        assert(d.drop_last() =~= Seq::<char>::empty());
        reveal_with_fuel(digits_value, 2);
    } else {
        digits_are_read_back(n / 10);
        let front = decimal(n / 10);
        assert(d.drop_last() =~= front);
        assert forall|i: int| 0 <= i < d.len() implies digit_value(#[trigger] d[i]) is Some by {
            if i < front.len() {
                assert(d[i] == front[i]);
            }
        }
        if n / 10 < 10 {
            assert(front == seq![digit((n / 10) as int)]);
            assert(n / 10 > 0);
        } else {
            digits_are_read_back(n / 10 / 10);
            assert(front.len() > 1);
        }
        assert(d[0] == front[0]);
    }
}

/// A whole number is read back from its text, with its sign.
pub proof fn whole_number_is_read_back(n: int)
    ensures
        integer_value(decimal_int(n)) == Some(n),
        i32::MIN <= n <= i32::MAX ==> i32_value(decimal_int(n)) == Some(n),
        n >= 0 ==> unsigned_value(decimal_int(n)) == Some(n),
        n >= 0 ==> decimal_int(n) == decimal(n as nat),
{
    if n < 0 {
        digits_are_read_back((-n) as nat);
        let s = decimal_int(n);
        assert(s.subrange(1, s.len() as int) =~= decimal((-n) as nat));
    } else {
        digits_are_read_back(n as nat);
        let s = decimal(n as nat);
        assert(digit_value(s[0]) is Some);
    }
}

/// Of a text of digits, each further digit is the next lower place. What is no digit is no number,
/// but for one sign before the digits.
pub proof fn digits_count_by_place(s: Seq<char>, c: char)
    ensures
        '0' <= c && c <= '9' ==> digits_value(s.push(c)) == 10 * digits_value(s) + (c as int
            - '0' as int),
        integer_value(s) is Some && s.len() > 0 ==> forall|k: int|
            0 < k < s.len() ==> '0' <= #[trigger] s[k] && s[k] <= '9',
        integer_value(s) is Some ==> s.len() > 0 && (s[0] == '-' || s[0] == '+' || ('0' <= s[0]
            && s[0] <= '9')),
{
    assert(s.push(c).drop_last() =~= s);
    if integer_value(s) is Some {
        let signed = s[0] == '-' || s[0] == '+';
        let body = if signed {
            s.subrange(1, s.len() as int)
        } else {
            s
        };
        assert forall|k: int| 0 < k < s.len() implies '0' <= #[trigger] s[k] && s[k] <= '9' by {
            if signed {
                assert(body[k - 1] == s[k]);
                assert(digit_value(body[k - 1]) is Some);
            } else {
                assert(digit_value(body[k]) is Some);
            }
        }
        if !signed {
            assert(digit_value(body[0]) is Some);
        }
    }
}

/// The characters that are white space, and no others.
pub proof fn white_space_is_known(c: char)
    ensures
        is_space(c) <==> c == '\t' || c == '\n' || c == '\u{b}' || c == '\u{c}' || c == '\r' || c
            == ' ' || c == '\u{85}' || c == '\u{a0}' || c == '\u{1680}' || ('\u{2000}' <= c && c
            <= '\u{200a}') || c == '\u{2028}' || c == '\u{2029}' || c == '\u{202f}' || c
            == '\u{205f}' || c == '\u{3000}',
{
}

/// A sign in front of digits is read: a plus changes nothing, a minus turns the number round. What
/// cannot be negative is not read behind a minus, and behind anything else like any number.
pub proof fn a_sign_is_read(digits: Seq<char>)
    requires
        digits.len() > 0,
        all_digits(digits),
    ensures
        integer_value(seq!['+'] + digits) == integer_value(digits),
        integer_value(digits) is Some,
        integer_value(seq!['-'] + digits) == Some(-integer_value(digits)->0),
        unsigned_value(seq!['-'] + digits) is None,
        unsigned_value(seq!['+'] + digits) == integer_value(digits),
        unsigned_value(digits) == integer_value(digits),
        integer_value(seq!['+']) is None && integer_value(seq!['-']) is None,
        integer_value(Seq::empty()) is None,
{
    let plus = seq!['+'] + digits;
    let minus = seq!['-'] + digits;
    assert(plus.subrange(1, plus.len() as int) =~= digits);
    assert(minus.subrange(1, minus.len() as int) =~= digits);
    assert(digits[0] != '+' && digits[0] != '-') by {
        assert(all_digits(digits));
    }
}

/// A string that may be missing is seen as it is: one that is there by its characters, none as
/// none.
pub proof fn an_option_is_seen_as_it_is(s: String)
    ensures
        opt_view(Some(s)) == Some(s@),
        opt_view(None) is None,
{
}

} // verus!
