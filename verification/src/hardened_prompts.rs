//! The fixed parts of the prompts and how a system prompt is put together from them.

use vstd::prelude::*;
use vstd::string::*;

verus! {

/// Where the prompts are, unless told otherwise.
pub const DEFAULT_PROMPT_DIR: &'static str = "./prompts";

/// The files with the parts of the prompt, in their order.
pub const PROMPT_FILES: [&'static str; 2] = ["IDENTITY.md", "SOUL.md"];

/// Where the prompts are.
pub fn prompt_dir(setting: Option<String>) -> (r: String)
    ensures
        r@ == (match setting {
            Some(s) => s@,
            None => DEFAULT_PROMPT_DIR@,
        }),
{
    match setting {
        Some(s) => s,
        None => DEFAULT_PROMPT_DIR.to_string(),
    }
}

/// The texts that could be read, in their order.
pub open spec fn loaded(files: Seq<Option<String>>) -> Seq<String>
    decreases files.len(),
{
    if files.len() == 0 {
        Seq::empty()
    } else {
        match files.last() {
            Some(t) => loaded(files.drop_last()).push(t),
            None => loaded(files.drop_last()),
        }
    }
}

/// The parts of the prompt: of the files, as far as each could be read, those that could.
pub fn load_prompt_parts(files: &Vec<Option<String>>) -> (parts: Vec<String>)
    ensures
        parts@ == loaded(files@),
{
    let mut parts: Vec<String> = Vec::new();
    let mut i: usize = 0;
    assert(files@.take(0) =~= Seq::empty());
    while i < files.len()
        invariant
            i <= files.len(),
            parts@ == loaded(files@.take(i as int)),
        decreases files.len() - i,
    {
        assert(files@.take(i as int + 1).drop_last() =~= files@.take(i as int));
        if let Some(t) = &files[i] {
            parts.push(t.clone());
        }
        i = i + 1;
    }
    assert(files@.take(i as int) =~= files@);
    parts
}

/// What a subagent is for.
#[derive(Debug, Clone, Copy, PartialEq, Eq, Structural)]
pub enum SubagentType {
    Explore,
    Plan,
    GeneralPurpose,
    ComputerUse,
}

pub const EXPLORE_PREAMBLE: &'static str = "You are an exploration agent. Read, search and report what you find. Do not change anything.";

pub const PLAN_PREAMBLE: &'static str = "You are a planning agent. Study the task and lay out the steps that solve it. Do not carry them out.";

pub const GP_PREAMBLE: &'static str = "You are a general-purpose agent. Carry out the task you are given and report the result.";

pub const COMPUTER_USE_PREAMBLE: &'static str = "You are a computer-use agent. Work through the screen, the keyboard and the pointer to carry out the task.";

pub const OODA: &'static str = "Observe, orient, decide, act. Look at what you know before you decide, and look again after you act.";

pub const TOOL_USE: &'static str = "Use a tool when it gives you a fact or an effect that you need. Read its result before you go on.";

pub const GUARDRAILS: &'static str = "Keep to the user's request. Ask before anything that cannot be undone. Never make up a result.";

/// The preamble for a kind of subagent.
pub open spec fn preamble_text(subagent_type: SubagentType) -> Seq<char> {
    match subagent_type {
        SubagentType::Explore => EXPLORE_PREAMBLE@,
        SubagentType::Plan => PLAN_PREAMBLE@,
        SubagentType::GeneralPurpose => GP_PREAMBLE@,
        SubagentType::ComputerUse => COMPUTER_USE_PREAMBLE@,
    }
}

/// The preamble for a kind of subagent.
pub fn subagent_preamble(subagent_type: SubagentType) -> (r: &'static str)
    ensures
        r@ == preamble_text(subagent_type),
{
    match subagent_type {
        SubagentType::Explore => EXPLORE_PREAMBLE,
        SubagentType::Plan => PLAN_PREAMBLE,
        SubagentType::GeneralPurpose => GP_PREAMBLE,
        SubagentType::ComputerUse => COMPUTER_USE_PREAMBLE,
    }
}

/// No two kinds of subagent share a preamble.
pub proof fn preambles_are_distinct(a: SubagentType, b: SubagentType)
    requires
        a != b,
    ensures
        preamble_text(a) != preamble_text(b),
{
    reveal_strlit("You are an exploration agent. Read, search and report what you find. Do not change anything.");
    reveal_strlit("You are a planning agent. Study the task and lay out the steps that solve it. Do not carry them out.");
    reveal_strlit("You are a general-purpose agent. Carry out the task you are given and report the result.");
    reveal_strlit("You are a computer-use agent. Work through the screen, the keyboard and the pointer to carry out the task.");
    assert(EXPLORE_PREAMBLE@[10] == ' ' && PLAN_PREAMBLE@[10] == 'p');
    assert(GP_PREAMBLE@[10] == 'g' && COMPUTER_USE_PREAMBLE@[10] == 'c');
}

/// The parts, each behind a blank line.
pub open spec fn spaced_parts(parts: Seq<String>) -> Seq<char>
    decreases parts.len(),
{
    if parts.len() == 0 {
        Seq::empty()
    } else {
        spaced_parts(parts.drop_last()) + "\n\n"@ + parts.last()@
    }
}

/// The system prompt: the two opening sections, the given parts, the guardrails and, where there
/// is one, the channel's own part, with a blank line between two of them.
pub open spec fn system_prompt(parts: Seq<String>, channel_partial: Option<&str>) -> Seq<char> {
    OODA@ + "\n\n"@ + TOOL_USE@ + spaced_parts(parts) + "\n\n"@ + GUARDRAILS@ + (
    match channel_partial {
        Some(p) => "\n\n"@ + p@,
        None => Seq::empty(),
    })
}

/// Whatever the given parts say, the opening sections come before them and the guardrails after
/// them; only the channel's own part comes later.
pub proof fn fixed_parts_enclose_the_given_ones(parts: Seq<String>, channel_partial: &str)
    ensures
        ({
            let head = OODA@ + "\n\n"@ + TOOL_USE@;
            let prompt = system_prompt(parts, None);
            &&& head.is_prefix_of(prompt)
            &&& GUARDRAILS@.is_suffix_of(prompt)
            &&& system_prompt(parts, Some(channel_partial)) == prompt + "\n\n"@ + channel_partial@
        }),
{
    let head = OODA@ + "\n\n"@ + TOOL_USE@;
    let prompt = system_prompt(parts, None);
    assert(prompt.subrange(0, head.len() as int) =~= head);
    assert(prompt.subrange(prompt.len() - GUARDRAILS@.len(), prompt.len() as int) =~= GUARDRAILS@);
    assert(system_prompt(parts, Some(channel_partial)) =~= prompt + "\n\n"@ + channel_partial@);
}

/// Puts the system prompt together.
pub fn compose_system_prompt(parts: &[String], channel_partial: Option<&str>) -> (prompt: String)
    ensures
        prompt@ == system_prompt(parts@, channel_partial),
{
    let mut prompt: String = OODA.to_string();
    prompt.append("\n\n");
    prompt.append(TOOL_USE);
    let ghost head = prompt@;
    let mut i: usize = 0;
    assert(head + spaced_parts(parts@.take(0)) =~= head);
    while i < parts.len()
        invariant
            i <= parts@.len(),
            prompt@ == head + spaced_parts(parts@.take(i as int)),
        decreases parts@.len() - i,
    {
        assert(parts@.take(i as int + 1).drop_last() =~= parts@.take(i as int));
        prompt.append("\n\n");
        prompt.append(parts[i].as_str());
        assert(prompt@ =~= head + spaced_parts(parts@.take(i as int + 1)));
        i = i + 1;
    }
    assert(parts@.take(i as int) =~= parts@);
    prompt.append("\n\n");
    prompt.append(GUARDRAILS);
    if let Some(partial) = channel_partial {
        prompt.append("\n\n");
        prompt.append(partial);
    }
    assert(prompt@ =~= system_prompt(parts@, channel_partial));
    prompt
}

/// The parts that are there are loaded in the order of the files; one that is missing is left out.
pub proof fn loaded_parts_add_up(
    a: Seq<Option<String>>,
    b: Seq<Option<String>>,
    x: Option<String>,
)
    ensures
        loaded(a + b) == loaded(a) + loaded(b),
        loaded(seq![x]) == (match x {
            Some(t) => seq![t],
            None => Seq::empty(),
        }),
    decreases b.len(),
{
    let one = seq![x];
    assert(one.drop_last() =~= Seq::<Option<String>>::empty());
    reveal_with_fuel(loaded, 2);
    assert(loaded(one) =~= (match x {
            Some(t) => seq![t],
            None => Seq::empty(),
        }));
    if b.len() == 0 {
        assert(a + b =~= a);
        assert(loaded(a) + loaded(b) =~= loaded(a));
    } else {
        assert((a + b).drop_last() =~= a + b.drop_last());
        assert((a + b).last() == b.last());
        loaded_parts_add_up(a, b.drop_last(), x);
        assert(loaded(a + b) =~= loaded(a) + loaded(b));
    }
}

/// A further part of the prompt stands behind the others, a blank line before it, and before the
/// guardrails, which follow after a blank line whatever the parts are.
pub proof fn another_part_comes_before_the_guardrails(parts: Seq<String>, part: String)
    ensures
        system_prompt(Seq::empty(), None) == OODA@ + "\n\n"@ + TOOL_USE@ + "\n\n"@ + GUARDRAILS@,
        exists|head: Seq<char>|
            {
                &&& system_prompt(parts, None) == head + "\n\n"@ + GUARDRAILS@
                &&& system_prompt(parts.push(part), None) == #[trigger] (head + "\n\n"@ + part@)
                    + "\n\n"@ + GUARDRAILS@
            },
{
    let head = OODA@ + "\n\n"@ + TOOL_USE@ + spaced_parts(parts);
    assert(parts.push(part).drop_last() =~= parts);
    assert(system_prompt(parts, None) =~= head + "\n\n"@ + GUARDRAILS@);
    assert(system_prompt(parts.push(part), None) =~= (head + "\n\n"@ + part@) + "\n\n"@
        + GUARDRAILS@);
    assert(system_prompt(Seq::empty(), None) =~= OODA@ + "\n\n"@ + TOOL_USE@ + "\n\n"@
        + GUARDRAILS@);
}

} // verus!
