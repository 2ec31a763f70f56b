//! Identities made from the task alone: a hash picks the icon, the task's start is the title.

use vstd::prelude::*;
use crate::app::identity::{COLOR_PALETTE, SYMBOL_ALLOWLIST};
use crate::text;
use vstd::string::*;

verus! {

/// The FNV-1a hash of a string of bytes, in 32 bits.
pub open spec fn fnv1a_of(bytes: Seq<u8>) -> u32
    decreases bytes.len(),
{
    if bytes.len() == 0 {
        2_166_136_261u32
    } else {
        (fnv1a_of(bytes.drop_last()) ^ bytes.last() as u32).wrapping_mul(16_777_619u32)
    }
}

/// The symbol that a task's hash picks.
pub open spec fn symbol_of(task: Seq<char>) -> Seq<char> {
    SYMBOL_ALLOWLIST@[(fnv1a_of(vstd::utf8::encode_utf8(task)) as int) % 24]@
}

/// The color that a task's hash picks, after one more multiplication.
pub open spec fn color_of(task: Seq<char>) -> Seq<char> {
    COLOR_PALETTE@[(fnv1a_of(vstd::utf8::encode_utf8(task)).wrapping_mul(
        2_654_435_761u32,
    ) as int) % 10]@
}

/// The task's first forty characters, trimmed; `Untitled` where nothing is left.
pub open spec fn title_of(task: Seq<char>) -> Seq<char> {
    let t = text::trim(text::first_chars(task, 40));
    if t.len() == 0 {
        "Untitled"@
    } else {
        t
    }
}

fn fnv1a(bytes: &[u8]) -> (hash: u32)
    ensures
        hash == fnv1a_of(bytes@),
{
    let mut hash: u32 = 2_166_136_261;
    let mut i: usize = 0;
    while i < bytes.len()
        invariant
            i <= bytes@.len(),
            hash == fnv1a_of(bytes@.take(i as int)),
        decreases bytes@.len() - i,
    {
        assert(bytes@.take(i as int + 1).drop_last() =~= bytes@.take(i as int));
        hash = (hash ^ bytes[i] as u32).wrapping_mul(16_777_619);
        i = i + 1;
    }
    assert(bytes@.take(i as int) =~= bytes@);
    hash
}

/// Picks a symbol for a task.
pub fn fallback_symbol(task: &str) -> (r: &'static str)
    ensures
        r@ == symbol_of(task@),
{
    let hash: u32 = fnv1a(task.as_bytes());
    SYMBOL_ALLOWLIST[hash as usize % 24]
}

/// Picks a color for a task.
pub fn fallback_color(task: &str) -> (r: &'static str)
    ensures
        r@ == color_of(task@),
{
    let hash: u32 = fnv1a(task.as_bytes()).wrapping_mul(2_654_435_761);
    COLOR_PALETTE[hash as usize % 10]
}

/// Makes a title from a task.
pub fn fallback_title(task: &str) -> (r: String)
    ensures
        r@ == title_of(task@),
{
    let trimmed = text::trimmed(text::first_n(task, 40).as_str());
    if trimmed.as_str().is_empty() {
        "Untitled".to_string()
    } else {
        trimmed
    }
}

/// The fallbacks are on the lists, and the title holds between one and forty characters.
pub proof fn fallbacks_are_valid(task: Seq<char>)
    ensures
        crate::app::identity::is_symbol(symbol_of(task)),
        crate::app::identity::is_color(color_of(task)),
        0 < title_of(task).len() <= 40,
{
    let i = (fnv1a_of(vstd::utf8::encode_utf8(task)) as int) % 24;
    assert(SYMBOL_ALLOWLIST@[i]@ == symbol_of(task));
    let k = (fnv1a_of(vstd::utf8::encode_utf8(task)).wrapping_mul(2_654_435_761u32) as int) % 10;
    assert(COLOR_PALETTE@[k]@ == color_of(task));
    reveal_strlit("Untitled");
    text::trim_has_no_outer_space(text::first_chars(task, 40));
}

/// A short task is its own title, without the space around it; of a longer one the title is in its
/// first forty characters, and a blank one has the title for that.
pub proof fn title_is_the_start_of_the_task(task: Seq<char>)
    ensures
        task.len() <= 40 && text::trim(task).len() > 0 ==> title_of(task) == text::trim(task),
        task.len() > 40 && text::trim(task.take(40)).len() > 0 ==> title_of(task) == text::trim(
            task.take(40),
        ),
        (forall|k: int| 0 <= k < task.len() ==> text::is_space(#[trigger] task[k])) ==> title_of(
            task,
        ) == "Untitled"@,
{
    if forall|k: int| 0 <= k < task.len() ==> text::is_space(#[trigger] task[k]) {
        let t = text::first_chars(task, 40);
        assert forall|k: int| 0 <= k < t.len() implies text::is_space(#[trigger] t[k]) by {
            assert(t[k] == task[k]);
        }
        text::trim_is_the_middle(t);
    }
}

/// The number of a text goes on byte by byte: another byte at the end is mixed into the number of
/// what came before.
pub proof fn number_goes_on(bytes: Seq<u8>, b: u8)
    ensures
        fnv1a_of(Seq::empty()) == 0x811c_9dc5u32,
        fnv1a_of(bytes.push(b)) == (fnv1a_of(bytes) ^ b as u32).wrapping_mul(0x0100_0193u32),
{
    assert(bytes.push(b).drop_last() =~= bytes);
}

} // verus!
