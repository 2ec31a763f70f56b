//! Messages that are data: what is said of them to the agent. Coordinates come as they are
//! written.

use vstd::prelude::*;
use crate::channel::interpreter::{self, InterpretedMessage};
use crate::text;
use vstd::string::*;

verus! {

/// What is said of a location.
pub open spec fn location_text(latitude: Seq<char>, longitude: Seq<char>) -> Seq<char> {
    "<location latitude=\""@ + latitude + "\" longitude=\""@ + longitude + "\" />"@
}

pub fn interpret_location(latitude: &str, longitude: &str) -> (m: InterpretedMessage)
    ensures
        interpreter::is_text_only(m, location_text(latitude@, longitude@)),
{
    let mut t: String = text::concat3("<location latitude=\"", latitude, "\" longitude=\"");
    t.append(longitude);
    t.append("\" />");
    interpreter::text_only(t)
}

/// A name of one or two parts.
pub open spec fn full_name(first: Seq<char>, last: Option<&str>) -> Seq<char> {
    match last {
        Some(l) => first + " "@ + l@,
        None => first,
    }
}

pub fn interpret_contact(first_name: &str, last_name: Option<&str>, phone_number: &str) -> (m:
    InterpretedMessage)
    ensures
        interpreter::is_text_only(
            m,
            "<contact name=\""@ + full_name(first_name@, last_name) + "\" phone=\""@
                + phone_number@ + "\" />"@,
        ),
{
    let name = match last_name {
        Some(last) => text::concat3(first_name, " ", last),
        None => first_name.to_string(),
    };
    let mut t: String = text::concat3("<contact name=\"", name.as_str(), "\" phone=\"");
    t.append(phone_number);
    t.append("\" />");
    interpreter::text_only(t)
}

/// A text that can stand between double quotes.
pub open spec fn unquoted(s: Seq<char>) -> Seq<char> {
    text::replace_char(s, '"', "&quot;"@)
}

pub fn interpret_venue(title: &str, address: &str, latitude: &str, longitude: &str) -> (m:
    InterpretedMessage)
    ensures
        interpreter::is_text_only(
            m,
            "<venue name=\""@ + unquoted(title@) + "\" address=\""@ + unquoted(address@)
                + "\" latitude=\""@ + latitude@ + "\" longitude=\""@ + longitude@ + "\" />"@,
        ),
{
    let title = text::replaced(title, '"', "&quot;");
    let address = text::replaced(address, '"', "&quot;");
    let mut t: String = text::concat3("<venue name=\"", title.as_str(), "\" address=\"");
    t.append(address.as_str());
    t.append("\" latitude=\"");
    t.append(latitude);
    t.append("\" longitude=\"");
    t.append(longitude);
    t.append("\" />");
    interpreter::text_only(t)
}

pub fn interpret_poll(question: &str, options: &Vec<String>) -> (m: InterpretedMessage)
    ensures
        interpreter::is_text_only(
            m,
            "<poll question=\""@ + unquoted(question@) + "\" options=\""@ + text::join(
                text::views(options@),
                ", "@,
            ) + "\" />"@,
        ),
{
    let question = text::replaced(question, '"', "&quot;");
    let list = text::joined(options, ", ");
    let mut t: String = text::concat3("<poll question=\"", question.as_str(), "\" options=\"");
    t.append(list.as_str());
    t.append("\" />");
    interpreter::text_only(t)
}

pub fn interpret_dice(emoji: &str, value: u8) -> (m: InterpretedMessage)
    ensures
        interpreter::is_text_only(
            m,
            "<dice emoji=\""@ + emoji@ + "\" value=\""@ + text::decimal(value as nat) + "\" />"@,
        ),
{
    let number = text::decimal_string(value as u64);
    let mut t: String = text::concat3("<dice emoji=\"", emoji, "\" value=\"");
    t.append(number.as_str());
    t.append("\" />");
    interpreter::text_only(t)
}

pub fn interpret_sticker(emoji: Option<&str>) -> (m: InterpretedMessage)
    ensures
        interpreter::is_text_only(
            m,
            "<sticker emoji=\""@ + (match emoji {
                Some(e) => e@,
                None => "?"@,
            }) + "\" />"@,
        ),
{
    let emoji = match emoji {
        Some(e) => e,
        None => "?",
    };
    interpreter::text_only(text::concat3("<sticker emoji=\"", emoji, "\" />"))
}

/// A text that can stand between double quotes holds none.
pub proof fn unquoted_has_no_quote(s: Seq<char>)
    ensures
        forall|i: int| 0 <= i < unquoted(s).len() ==> #[trigger] unquoted(s)[i] != '"',
    decreases s.len(),
{
    reveal_strlit("&quot;");
    if s.len() > 0 {
        let before = unquoted(s.drop_last());
        let with = "&quot;"@;
        unquoted_has_no_quote(s.drop_last());
        assert forall|i: int| 0 <= i < unquoted(s).len() implies #[trigger] unquoted(s)[i]
            != '"' by {
            if i < before.len() {
                assert(unquoted(s)[i] == before[i]);
            } else if s.last() == '"' {
                assert(unquoted(s)[i] == with[i - before.len()]);
            } else {
                assert(unquoted(s)[i] == s.last());
            }
        }
    }
}

/// A name holds both its parts, the first in front; with no last part it is the first alone.
pub proof fn a_name_holds_both_parts(first: Seq<char>, last: &str)
    ensures
        first.is_prefix_of(full_name(first, Some(last))),
        last@.is_suffix_of(full_name(first, Some(last))),
        full_name(first, Some(last)).len() == first.len() + 1 + last@.len(),
        full_name(first, Some(last))[first.len() as int] == ' ',
        full_name(first, None) == first,
{
    reveal_strlit(" ");
    let s = full_name(first, Some(last));
    assert(s.take(first.len() as int) =~= first);
    assert(s.subrange(s.len() - last@.len(), s.len() as int) =~= last@);
}

/// A location tells the latitude first and the longitude behind it.
pub proof fn a_location_tells_both(latitude: Seq<char>, longitude: Seq<char>)
    ensures
        ("<location latitude=\""@ + latitude + "\""@).is_prefix_of(
            location_text(latitude, longitude),
        ),
        ("longitude=\""@ + longitude + "\" />"@).is_suffix_of(location_text(latitude, longitude)),
        location_text(latitude, longitude).len() == latitude.len() + longitude.len()
            + location_text(Seq::empty(), Seq::empty()).len(),
{
    reveal_strlit("\"");
    reveal_strlit("\" longitude=\"");
    reveal_strlit("longitude=\"");
    let s = location_text(latitude, longitude);
    let head = "<location latitude=\""@ + latitude + "\""@;
    let tail = "longitude=\""@ + longitude + "\" />"@;
    assert(s.take(head.len() as int) =~= head);
    assert(s.subrange(s.len() - tail.len(), s.len() as int) =~= tail);
}

} // verus!
