//! An app's identity: the title and icon that a model picks for its task, with a fallback for
//! every part that the model gets wrong.

use vstd::prelude::*;
use crate::app::identity::fallback::{fallback_color, fallback_symbol, fallback_title};
use crate::app::IconSpec;
use crate::text;
use vstd::string::*;

pub mod fallback;
pub mod prompt;

verus! {

/// The symbols that an icon may show.
pub const SYMBOL_ALLOWLIST: [&'static str; 24] = [
    "star",
    "heart",
    "bolt",
    "flame",
    "leaf",
    "globe",
    "house",
    "calendar",
    "clock",
    "briefcase",
    "envelope",
    "doc",
    "folder",
    "magnifyingglass",
    "pencil",
    "wrench",
    "gear",
    "person",
    "person.2",
    "cart",
    "creditcard",
    "camera",
    "music.note",
    "airplane",
];

/// The colors that an icon may have: communication, productivity, creative, urgent, research,
/// information, ideas, social, wellness and everything else.
pub const COLOR_PALETTE: [&'static str; 10] = [
    "#3478F6",
    "#34C759",
    "#FF9500",
    "#FF3B30",
    "#AF52DE",
    "#5AC8FA",
    "#FFCC00",
    "#FF2D55",
    "#4CD964",
    "#8E8E93",
];

/// The title and icon of an app.
#[derive(Debug, Clone, PartialEq, Eq)]
pub struct AppIdentity {
    pub title: String,
    pub icon: IconSpec,
}

/// What a model answered, each part as far as it is there.
#[derive(Debug, Clone, PartialEq, Eq)]
pub struct LlmIdentityResponse {
    pub title: Option<String>,
    pub sf_symbol: Option<String>,
    pub color: Option<String>,
}

/// The text is on the list of symbols.
pub open spec fn is_symbol(s: Seq<char>) -> bool {
    exists|i: int| 0 <= i < SYMBOL_ALLOWLIST@.len() && #[trigger] SYMBOL_ALLOWLIST@[i]@ == s
}

/// The text is on the list of colors.
pub open spec fn is_color(s: Seq<char>) -> bool {
    exists|i: int| 0 <= i < COLOR_PALETTE@.len() && #[trigger] COLOR_PALETTE@[i]@ == s
}

/// The title as it is taken over: trimmed, not empty, and cut after forty characters.
pub open spec fn valid_title(title: Option<String>) -> Option<Seq<char>> {
    match title {
        Some(t) => if text::trim(t@).len() == 0 {
            None
        } else {
            Some(text::first_chars(text::trim(t@), 40))
        },
        None => None,
    }
}

/// The symbol as it is taken over: trimmed and on the list.
pub open spec fn valid_symbol(symbol: Option<String>) -> Option<Seq<char>> {
    match symbol {
        Some(s) => if is_symbol(text::trim(s@)) {
            Some(text::trim(s@))
        } else {
            None
        },
        None => None,
    }
}

/// The color as it is taken over: trimmed and on the palette.
pub open spec fn valid_color(color: Option<String>) -> Option<Seq<char>> {
    match color {
        Some(s) => if is_color(text::trim(s@)) {
            Some(text::trim(s@))
        } else {
            None
        },
        None => None,
    }
}

/// An identity that is the fallback in every part.
pub open spec fn is_full_fallback(id: AppIdentity, task: Seq<char>) -> bool {
    &&& id.title@ == fallback::title_of(task)
    &&& id.icon.symbol@ == fallback::symbol_of(task)
    &&& id.icon.color@ == fallback::color_of(task)
}

fn validate_title(title: &Option<String>) -> (r: Option<String>)
    ensures
        text::opt_view(r) == valid_title(*title),
{
    match title {
        Some(t) => {
            let trimmed = text::trimmed(t.as_str());
            if trimmed.as_str().is_empty() {
                None
            } else {
                Some(text::first_n(trimmed.as_str(), 40))
            }
        },
        None => None,
    }
}

fn validate_symbol(symbol: &Option<String>) -> (r: Option<String>)
    ensures
        text::opt_view(r) == valid_symbol(*symbol),
{
    match symbol {
        Some(s) => {
            let trimmed = text::trimmed(s.as_str());
            if text::is_one_of(trimmed.as_str(), SYMBOL_ALLOWLIST.as_slice()) {
                Some(trimmed)
            } else {
                None
            }
        },
        None => None,
    }
}

fn validate_color(color: &Option<String>) -> (r: Option<String>)
    ensures
        text::opt_view(r) == valid_color(*color),
{
    match color {
        Some(s) => {
            let trimmed = text::trimmed(s.as_str());
            if text::is_one_of(trimmed.as_str(), COLOR_PALETTE.as_slice()) {
                Some(trimmed)
            } else {
                None
            }
        },
        None => None,
    }
}

/// The identity that is the fallback in every part.
pub fn full_fallback(task: &str) -> (id: AppIdentity)
    ensures
        is_full_fallback(id, task@),
{
    AppIdentity {
        title: fallback_title(task),
        icon: IconSpec {
            symbol: fallback_symbol(task).to_string(),
            color: fallback_color(task).to_string(),
        },
    }
}

/// The identity from a model's answer: every valid part as the model gave it, the fallback for
/// every other part, and for all of them where there is no answer that could be read.
pub fn repair_identity(response: &Option<LlmIdentityResponse>, task: &str) -> (id: AppIdentity)
    ensures
        match *response {
            Some(r) => {
                &&& id.title@ == (match valid_title(r.title) {
                    Some(t) => t,
                    None => fallback::title_of(task@),
                })
                &&& id.icon.symbol@ == (match valid_symbol(r.sf_symbol) {
                    Some(s) => s,
                    None => fallback::symbol_of(task@),
                })
                &&& id.icon.color@ == (match valid_color(r.color) {
                    Some(c) => c,
                    None => fallback::color_of(task@),
                })
            },
            None => is_full_fallback(id, task@),
        },
{
    match response {
        None => full_fallback(task),
        Some(r) => {
            let title = match validate_title(&r.title) {
                Some(t) => t,
                None => fallback_title(task),
            };
            let symbol = match validate_symbol(&r.sf_symbol) {
                Some(s) => s,
                None => fallback_symbol(task).to_string(),
            };
            let color = match validate_color(&r.color) {
                Some(c) => c,
                None => fallback_color(task).to_string(),
            };
            AppIdentity { title, icon: IconSpec { symbol, color } }
        },
    }
}

/// The text of a model's reply, trimmed; `None` where nothing is left of it.
pub fn usable_reply(content: &str) -> (r: Option<String>)
    ensures
        match r {
            Some(t) => t@ == text::trim(content@) && t@.len() > 0,
            None => text::trim(content@).len() == 0,
        },
{
    let trimmed = text::trimmed(content);
    if trimmed.as_str().is_empty() {
        None
    } else {
        Some(trimmed)
    }
}

/// Whatever the model answers, an identity's symbol is on the list, its color on the palette,
/// and its title holds between one and forty characters.
pub proof fn identity_is_always_valid(response: Option<LlmIdentityResponse>, task: Seq<char>)
    ensures
        is_symbol(fallback::symbol_of(task)),
        is_color(fallback::color_of(task)),
        0 < fallback::title_of(task).len() <= 40,
        response matches Some(r) ==> {
            &&& (valid_title(r.title) matches Some(t) ==> 0 < t.len() <= 40)
            &&& (valid_symbol(r.sf_symbol) matches Some(s) ==> is_symbol(s))
            &&& (valid_color(r.color) matches Some(c) ==> is_color(c))
        },
{
    fallback::fallbacks_are_valid(task);
}

/// A title is taken from the model where it is more than blank: without the space around it, and
/// cut behind forty characters.
pub proof fn title_is_taken_where_there_is_one(title: String)
    ensures
        valid_title(None) is None,
        valid_title(Some(title)) is None <==> forall|k: int|
            0 <= k < title@.len() ==> text::is_space(#[trigger] title@[k]),
        valid_title(Some(title)) matches Some(t) ==> t.is_prefix_of(text::trim(title@)) && (t.len()
            == 40 || t == text::trim(title@)) && t.len() <= 40,
{
    text::trim_is_the_middle(title@);
}

/// A symbol or a color is taken from the model exactly where it is one of those on offer, with or
/// without space around it.
pub proof fn icon_is_taken_from_the_lists(symbol: String, color: String)
    ensures
        valid_symbol(None) is None,
        valid_color(None) is None,
        valid_symbol(Some(symbol)) is Some <==> exists|i: int|
            0 <= i < SYMBOL_ALLOWLIST@.len() && #[trigger] SYMBOL_ALLOWLIST@[i]@ == text::trim(
                symbol@,
            ),
        valid_symbol(Some(symbol)) matches Some(s) ==> s == text::trim(symbol@),
        valid_color(Some(color)) is Some <==> exists|i: int|
            0 <= i < COLOR_PALETTE@.len() && #[trigger] COLOR_PALETTE@[i]@ == text::trim(color@),
        valid_color(Some(color)) matches Some(c) ==> c == text::trim(color@),
{
}

} // verus!
