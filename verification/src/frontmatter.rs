//! Text with a YAML header between two lines of three hyphens.

use vstd::prelude::*;
use crate::error::Error;
use crate::text;
use vstd::string::*;

verus! {

/// What a header is set off by.
pub const DELIMITER: &'static str = "---";

/// What stands between the first two delimiters, trimmed.
pub open spec fn header_of(content: Seq<char>) -> Option<Seq<char>> {
    match text::find_from(content, DELIMITER@, 0) {
        Some(a) => match text::find_from(content, DELIMITER@, a + DELIMITER@.len()) {
            Some(b) => Some(text::trim(content.subrange(a + DELIMITER@.len(), b))),
            None => None,
        },
        None => None,
    }
}

/// The YAML of a header.
pub fn parse_yaml_front_matter(content: &str) -> (r: Result<String, Error>)
    ensures
        match header_of(content@) {
            Some(yaml) => r matches Ok(y) && y@ == yaml,
            None => r matches Err(Error::FrontMatter(m)) && m@
                == "Invalid front matter: missing --- delimiters"@,
        },
{
    let v = text::to_chars(content);
    let d = text::to_chars(DELIMITER);
    if let Some(a) = text::find(&v, &d, 0) {
        let start: usize = a + d.len();
        if let Some(b) = text::find(&v, &d, start) {
            let inner = text::slice(&v, start, b);
            return Ok(text::trimmed(inner.as_str()));
        }
    }
    Err(Error::FrontMatter("Invalid front matter: missing --- delimiters".to_string()))
}

/// What is said where a header's YAML cannot be read.
pub fn unreadable(e: &str) -> (r: Error)
    ensures
        r matches Error::FrontMatter(m) && m@ == "Failed to parse YAML front matter: "@ + e@,
{
    Error::FrontMatter(text::concat2("Failed to parse YAML front matter: ", e))
}

/// What is said where a header cannot be written.
pub fn unwritable(e: &str) -> (r: Error)
    ensures
        r matches Error::FrontMatter(m) && m@ == "Failed to serialize YAML: "@ + e@,
{
    Error::FrontMatter(text::concat2("Failed to serialize YAML: ", e))
}

/// A header and what follows it.
pub open spec fn with_header(yaml: Seq<char>, body: Seq<char>) -> Seq<char> {
    "---\n"@ + yaml + "---\n"@ + body
}

/// Puts YAML in front of a body.
pub fn format_yaml_front_matter(yaml: &str, body: &str) -> (r: String)
    ensures
        r@ == with_header(yaml@, body@),
{
    let mut r: String = text::concat3("---\n", yaml, "---\n");
    r.append(body);
    r
}

// ---------------------------------------------------------------------------
// Laws
// ---------------------------------------------------------------------------

proof fn trim_ignores_leading_newline(s: Seq<char>)
    ensures
        text::trim(seq!['\n'] + s) == text::trim(s),
{
    let t = seq!['\n'] + s;
    assert(t[0] == '\n');
    assert(text::is_space('\n'));
    skip_space_shifts(s, 0);
    assert(text::skip_space(t, 0) == text::skip_space(t, 1));
    let a = text::skip_space(s, 0);
    text::skip_space_bounds(s, 0);
    drop_space_shifts(s, a, s.len() as int);
    text::drop_space_bounds(s, a, s.len() as int);
    let b = text::drop_space(s, a, s.len() as int);
    assert(t.subrange(a + 1, b + 1) =~= s.subrange(a, b));
}

proof fn skip_space_shifts(s: Seq<char>, i: int)
    requires
        0 <= i <= s.len(),
    ensures
        text::skip_space(seq!['\n'] + s, i + 1) == text::skip_space(s, i) + 1,
    decreases s.len() - i,
{
    let t = seq!['\n'] + s;
    if i < s.len() {
        assert(t[i + 1] == s[i]);
        if text::is_space(s[i]) {
            skip_space_shifts(s, i + 1);
        }
    }
}

proof fn drop_space_shifts(s: Seq<char>, lo: int, hi: int)
    requires
        0 <= lo <= hi <= s.len(),
    ensures
        text::drop_space(seq!['\n'] + s, lo + 1, hi + 1) == text::drop_space(s, lo, hi) + 1,
    decreases hi - lo,
{
    let t = seq!['\n'] + s;
    if lo < hi {
        assert(t[hi] == s[hi - 1]);
        if text::is_space(s[hi - 1]) {
            drop_space_shifts(s, lo, hi - 1);
        }
    }
}

/// A header that was put in front of a body is read back, without the white space around it,
/// whatever the body holds. YAML in which a delimiter stands is left out, and so is YAML that ends
/// with a hyphen, which would become part of one.
pub proof fn header_is_read_back(yaml: Seq<char>, body: Seq<char>)
    requires
        !text::contains_text(yaml, DELIMITER@),
        yaml.len() > 0 ==> yaml.last() != '-',
    ensures
        header_of(with_header(yaml, body)) == Some(text::trim(yaml)),
{
    reveal_strlit("---");
    reveal_strlit("---\n");
    let d = DELIMITER@;
    let all = with_header(yaml, body);
    assert(text::has_at(all, d, 0));
    assert(text::find_from(all, d, 0) == Some(0int));
    let b: int = 4 + yaml.len() as int;
    assert(all.subrange(b, b + 3) =~= d);
    assert forall|k: int| 3 <= k < b implies !#[trigger] text::has_at(all, d, k) by {
        if text::has_at(all, d, k) {
            let piece = all.subrange(k, k + 3);
            assert(piece[0] == '-' && piece[1] == '-' && piece[2] == '-');
            assert(all[k] == piece[0]);
            assert(all[k + 1] == piece[1]);
            assert(all[k + 2] == piece[2]);
            if k == 3 {
                assert(all[3] == '\n');
            } else if k + 3 <= b {
                assert(yaml.subrange(k - 4, k - 1) =~= piece);
                assert(text::has_at(yaml, d, k - 4));
            } else {
                assert(all[b - 1] == yaml.last());
            }
        }
    }
    text::find_unique(all, d, 3, b);
    assert(all.subrange(3, b) =~= seq!['\n'] + yaml);
    trim_ignores_leading_newline(yaml);
}

/// A text without the delimiter has no header.
pub proof fn no_delimiter_makes_no_header(content: Seq<char>)
    requires
        !text::contains_text(content, DELIMITER@),
    ensures
        header_of(content) is None,
{
    text::find_contains(content, DELIMITER@);
}

} // verus!
