//! What the model is asked for an app's identity.

use vstd::prelude::*;
use crate::app::identity::{COLOR_PALETTE, SYMBOL_ALLOWLIST};
use crate::conversation::{Message, UserContent};
use crate::text;
use vstd::string::*;

verus! {

const ASK: &'static str = "You are an app-identity assistant. Given a task description, return a JSON object with exactly three fields:\n- \"title\": a short descriptive title for the task (max 40 characters, plain text, no punctuation at the end)\n- \"sf_symbol\": one SF Symbol name chosen from this exact allowlist: [";

const ASK_COLOR: &'static str = "]\n- \"color\": one hex color string chosen from this exact palette: [";

const ASK_END: &'static str = "]\n\nReturn ONLY the JSON object. No explanation, no markdown fences.";

/// A list with commas between its items.
pub open spec fn comma_list(items: Seq<&'static str>) -> Seq<char> {
    text::join(items.map_values(|s: &'static str| s@), ", "@)
}

/// The instructions: what to return, with the symbols and colors to choose from.
pub closed spec fn system_text() -> Seq<char> {
    ASK@ + comma_list(SYMBOL_ALLOWLIST@) + ASK_COLOR@ + comma_list(COLOR_PALETTE@) + ASK_END@
}

/// The instructions as a message.
pub fn system_message() -> (m: Message)
    ensures
        m matches Message::System { content } && content@ == system_text(),
{
    let symbols = text::joined_list(SYMBOL_ALLOWLIST.as_slice(), ", ");
    let colors = text::joined_list(COLOR_PALETTE.as_slice(), ", ");
    let mut content: String = ASK.to_string();
    content.append(symbols.as_str());
    content.append(ASK_COLOR);
    content.append(colors.as_str());
    content.append(ASK_END);
    Message::System { content }
}

/// The task as a message.
pub fn user_message(task: &str) -> (m: Message)
    ensures
        m matches Message::User { content: UserContent::Text(t) } && t@ == "Task: "@ + task@,
{
    Message::User { content: UserContent::Text(text::concat2("Task: ", task)) }
}

proof fn item_is_listed(items: Seq<&'static str>, i: int) -> (r: (Seq<char>, Seq<char>))
    requires
        0 <= i < items.len(),
    ensures
        comma_list(items) == r.0 + items[i]@ + r.1,
{
    let all = items.map_values(|s: &'static str| s@);
    let a = all.take(i);
    let b = all.subrange(i, i + 1);
    let c = all.skip(i + 1);
    let sep = ", "@;
    assert(all =~= a + (b + c));
    assert(b + Seq::<Seq<char>>::empty() =~= b);
    text::joins_add_up(b, c, sep);
    text::joins_add_up(a, b + c, sep);
    let behind = if c.len() > 0 {
        sep + text::join(c, sep)
    } else {
        Seq::empty()
    };
    let before = if a.len() > 0 {
        text::join(a, sep) + sep
    } else {
        Seq::empty()
    };
    if c.len() == 0 {
        assert(b + c =~= b);
    }
    assert(text::join(b + c, sep) =~= items[i]@ + behind);
    if a.len() == 0 {
        assert(all =~= b + c);
    }
    assert(comma_list(items) =~= before + items[i]@ + behind);
    (before, behind)
}

/// The instructions name every symbol and every color that may be chosen.
pub proof fn every_choice_is_named(i: int)
    ensures
        0 <= i < SYMBOL_ALLOWLIST@.len() ==> exists|p: Seq<char>, q: Seq<char>|
            system_text() == #[trigger] (p + SYMBOL_ALLOWLIST@[i]@ + q),
        0 <= i < COLOR_PALETTE@.len() ==> exists|p: Seq<char>, q: Seq<char>|
            system_text() == #[trigger] (p + COLOR_PALETTE@[i]@ + q),
{
    let symbols = comma_list(SYMBOL_ALLOWLIST@);
    let colors = comma_list(COLOR_PALETTE@);
    if 0 <= i < SYMBOL_ALLOWLIST@.len() {
        let (a, b) = item_is_listed(SYMBOL_ALLOWLIST@, i);
        let p = ASK@ + a;
        let q = b + ASK_COLOR@ + colors + ASK_END@;
        assert(system_text() =~= (p + SYMBOL_ALLOWLIST@[i]@) + q);
    }
    if 0 <= i < COLOR_PALETTE@.len() {
        let (a, b) = item_is_listed(COLOR_PALETTE@, i);
        let p = ASK@ + symbols + ASK_COLOR@ + a;
        let q = b + ASK_END@;
        assert(system_text() =~= (p + COLOR_PALETTE@[i]@) + q);
    }
}

} // verus!
