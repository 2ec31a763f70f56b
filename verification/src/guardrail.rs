//! Guardrails: checks on what goes into a model and on what comes out of it, and the
//! conventions that bring them along.

use vstd::prelude::*;
use crate::text;
use vstd::string::*;

verus! {

/// What a check on an input says.
pub enum PreGuardrailResult {
    Passed,
    Info(String),
    Warning(String),
    Error(String),
}

/// What a check on an output says.
pub enum PostGuardrailAction {
    Passed,
    Repaired(String),
    NeedsRetry,
}

/// What is checked, as its characters. Only contracts speak of it.
pub type Content = Seq<char>;

/// What a check on an input says, as plain text.
#[verifier::ext_equal]
pub enum PreVerdict {
    Passed,
    Info(Seq<char>),
    Warning(Seq<char>),
    Error(Seq<char>),
}

/// What a check on an output says, as plain text.
#[verifier::ext_equal]
pub enum PostVerdict {
    Passed,
    Repaired(Seq<char>),
    NeedsRetry,
}

impl View for PreGuardrailResult {
    type V = PreVerdict;

    open spec fn view(&self) -> PreVerdict {
        match self {
            PreGuardrailResult::Passed => PreVerdict::Passed,
            PreGuardrailResult::Info(m) => PreVerdict::Info(m@),
            PreGuardrailResult::Warning(m) => PreVerdict::Warning(m@),
            PreGuardrailResult::Error(m) => PreVerdict::Error(m@),
        }
    }
}

impl View for PostGuardrailAction {
    type V = PostVerdict;

    open spec fn view(&self) -> PostVerdict {
        match self {
            PostGuardrailAction::Passed => PostVerdict::Passed,
            PostGuardrailAction::Repaired(s) => PostVerdict::Repaired(s@),
            PostGuardrailAction::NeedsRetry => PostVerdict::NeedsRetry,
        }
    }
}

/// A check on an input. What it says depends on the input alone.
pub trait PreGuardrail: Send + Sync {
    /// What the check says of an input. Contracts speak of it; it is never run.
    spec fn verdict(&self, content: Content) -> PreVerdict;

    /// What the check is called. Contracts speak of it; it is never run.
    spec fn label(&self) -> Content;

    fn name(&self) -> (r: &str)
        ensures
            r@ == self.label(),
    ;

    fn check(&self, content: &str) -> (r: PreGuardrailResult)
        ensures
            r@ == self.verdict(content@),
    ;
}

/// A check on an output. What it says depends on the output alone.
pub trait PostGuardrail: Send + Sync {
    /// What the check says of an output. Contracts speak of it; it is never run.
    spec fn verdict(&self, content: Content) -> PostVerdict;

    /// What the check is called. Contracts speak of it; it is never run.
    spec fn label(&self) -> Content;

    fn name(&self) -> (r: &str)
        ensures
            r@ == self.label(),
    ;

    fn check(&self, content: &str) -> (r: PostGuardrailAction)
        ensures
            r@ == self.verdict(content@),
    ;
}

/// The message of the first check that rejects the input.
pub open spec fn first_error(pre: Seq<Box<dyn PreGuardrail>>, content: Seq<char>) -> Option<
    Seq<char>,
>
    decreases pre.len(),
{
    if pre.len() == 0 {
        None
    } else {
        match pre[0].verdict(content) {
            PreVerdict::Error(message) => Some(message),
            _ => first_error(pre.drop_first(), content),
        }
    }
}

/// The output after each check in turn has seen what the one before it left; `None` as soon as
/// one asks for a retry.
pub open spec fn repaired_by(post: Seq<Box<dyn PostGuardrail>>, content: Seq<char>) -> Option<
    Seq<char>,
>
    decreases post.len(),
{
    if post.len() == 0 {
        Some(content)
    } else {
        match post[0].verdict(content) {
            PostVerdict::Passed => repaired_by(post.drop_first(), content),
            PostVerdict::Repaired(r) => repaired_by(post.drop_first(), r),
            PostVerdict::NeedsRetry => None,
        }
    }
}

/// What a chain of checks says of an output.
pub open spec fn chain_verdict(
    post: Seq<Box<dyn PostGuardrail>>,
    content: Seq<char>,
) -> PostVerdict {
    match repaired_by(post, content) {
        None => PostVerdict::NeedsRetry,
        Some(r) => if r == content {
            PostVerdict::Passed
        } else {
            PostVerdict::Repaired(r)
        },
    }
}

/// The checks that run on a conversation, each kind in the order in which they were added.
pub struct GuardrailChain {
    pre: Vec<Box<dyn PreGuardrail>>,
    post: Vec<Box<dyn PostGuardrail>>,
}

impl GuardrailChain {
    /// The checks on inputs, in order.
    pub closed spec fn pre_checks(&self) -> Seq<Box<dyn PreGuardrail>> {
        self.pre@
    }

    /// The checks on outputs, in order.
    pub closed spec fn post_checks(&self) -> Seq<Box<dyn PostGuardrail>> {
        self.post@
    }

    pub fn new() -> (chain: Self)
        ensures
            chain.pre_checks() == Seq::<Box<dyn PreGuardrail>>::empty(),
            chain.post_checks() == Seq::<Box<dyn PostGuardrail>>::empty(),
    {
        GuardrailChain { pre: Vec::new(), post: Vec::new() }
    }

    pub fn add_pre(&mut self, guardrail: Box<dyn PreGuardrail>)
        ensures
            final(self).pre_checks() == old(self).pre_checks().push(guardrail),
            final(self).post_checks() == old(self).post_checks(),
    {
        self.pre.push(guardrail);
    }

    pub fn add_post(&mut self, guardrail: Box<dyn PostGuardrail>)
        ensures
            final(self).pre_checks() == old(self).pre_checks(),
            final(self).post_checks() == old(self).post_checks().push(guardrail),
    {
        self.post.push(guardrail);
    }

    /// Runs the checks on an input. The first one that rejects it decides; a warning or a note
    /// does not stop the rest.
    pub fn run_pre(&self, content: &str) -> (r: Result<(), String>)
        ensures
            match r {
                Ok(()) => first_error(self.pre_checks(), content@) is None,
                Err(m) => first_error(self.pre_checks(), content@) == Some(m@),
            },
    {
        let ghost all = self.pre@;
        let mut i: usize = 0;
        assert(all.skip(0) =~= all);
        while i < self.pre.len()
            invariant
                i <= self.pre.len(),
                all == self.pre@,
                first_error(all.skip(i as int), content@) == first_error(all, content@),
            decreases self.pre.len() - i,
        {
            assert(all.skip(i as int).drop_first() =~= all.skip(i as int + 1));
            match self.pre[i].check(content) {
                PreGuardrailResult::Error(message) => {
                    return Err(message);
                },
                _ => {},
            }
            i = i + 1;
        }
        Ok(())
    }

    /// Runs the checks on an output, each on what the one before it left. One that asks for a
    /// retry ends the run.
    pub fn run_post(&self, content: &str) -> (r: PostGuardrailAction)
        ensures
            r@ == chain_verdict(self.post_checks(), content@),
    {
        let ghost all = self.post@;
        let mut current: String = content.to_string();
        let mut i: usize = 0;
        assert(all.skip(0) =~= all);
        while i < self.post.len()
            invariant
                i <= self.post.len(),
                all == self.post@,
                repaired_by(all.skip(i as int), current@) == repaired_by(all, content@),
            decreases self.post.len() - i,
        {
            assert(all.skip(i as int).drop_first() =~= all.skip(i as int + 1));
            match self.post[i].check(current.as_str()) {
                PostGuardrailAction::Passed => {},
                PostGuardrailAction::Repaired(repaired) => {
                    current = repaired;
                },
                PostGuardrailAction::NeedsRetry => {
                    return PostGuardrailAction::NeedsRetry;
                },
            }
            i = i + 1;
        }
        if text::same(current.as_str(), content) {
            PostGuardrailAction::Passed
        } else {
            PostGuardrailAction::Repaired(current)
        }
    }
}

/// A named way of writing, with guidance for the model and the checks that go with it.
pub struct Convention {
    pub name: String,
    pub guidance: String,
    pub pre_guardrails: Vec<Box<dyn PreGuardrail>>,
    pub post_guardrails: Vec<Box<dyn PostGuardrail>>,
}

/// A convention's section in the guidance.
pub open spec fn guidance_section(c: Convention) -> Seq<char> {
    "### "@ + c.name@ + "\n\n"@ + c.guidance@
}

/// The input checks of the conventions, in order.
pub open spec fn all_pre(conventions: Seq<Convention>) -> Seq<Box<dyn PreGuardrail>>
    decreases conventions.len(),
{
    if conventions.len() == 0 {
        Seq::empty()
    } else {
        conventions[0].pre_guardrails@ + all_pre(conventions.drop_first())
    }
}

/// The output checks of the conventions, in order.
pub open spec fn all_post(conventions: Seq<Convention>) -> Seq<Box<dyn PostGuardrail>>
    decreases conventions.len(),
{
    if conventions.len() == 0 {
        Seq::empty()
    } else {
        conventions[0].post_guardrails@ + all_post(conventions.drop_first())
    }
}

/// The conventions in force, in the order in which they were registered.
pub struct ConventionRegistry {
    conventions: Vec<Convention>,
}

impl ConventionRegistry {
    /// The conventions, in order.
    pub closed spec fn list(&self) -> Seq<Convention> {
        self.conventions@
    }

    pub fn new() -> (registry: Self)
        ensures
            registry.list() == Seq::<Convention>::empty(),
    {
        ConventionRegistry { conventions: Vec::new() }
    }

    pub fn register(&mut self, convention: Convention)
        ensures
            final(self).list() == old(self).list().push(convention),
    {
        self.conventions.push(convention);
    }

    /// The guidance of all conventions, one section each, with a blank line between two.
    pub fn compose_guidance(&self) -> (r: String)
        ensures
            r@ == text::join(
                self.list().map_values(|c: Convention| guidance_section(c)),
                "\n\n"@,
            ),
    {
        let ghost all = self.conventions@.map_values(|c: Convention| guidance_section(c));
        let mut sections: Vec<String> = Vec::new();
        let mut i: usize = 0;
        while i < self.conventions.len()
            invariant
                i <= self.conventions.len(),
                all == self.conventions@.map_values(|c: Convention| guidance_section(c)),
                text::views(sections@) == all.take(i as int),
            decreases self.conventions.len() - i,
        {
            let c = &self.conventions[i];
            let mut section: String = text::concat3("### ", c.name.as_str(), "\n\n");
            section.append(c.guidance.as_str());
            let ghost before = sections@;
            sections.push(section);
            assert(text::views(sections@) =~= text::views(before).push(section@));
            assert(all.take(i as int + 1) =~= all.take(i as int).push(all[i as int]));
            i = i + 1;
        }
        assert(all.take(i as int) =~= all);
        text::joined(&sections, "\n\n")
    }

    /// The chain of all checks of the conventions.
    pub fn build_guardrail_chain(self) -> (chain: GuardrailChain)
        ensures
            chain.pre_checks() == all_pre(self.list()),
            chain.post_checks() == all_post(self.list()),
    {
        let mut chain = GuardrailChain::new();
        let mut conventions = self.conventions;
        assert(chain.pre@ + all_pre(self.list()) =~= all_pre(self.list()));
        assert(chain.post@ + all_post(self.list()) =~= all_post(self.list()));
        while conventions.len() > 0
            invariant
                chain.pre@ + all_pre(conventions@) == all_pre(self.list()),
                chain.post@ + all_post(conventions@) == all_post(self.list()),
            decreases conventions.len(),
        {
            let ghost before = conventions@;
            let ghost (pre, post) = (chain.pre@, chain.post@);
            let c = conventions.remove(0);
            assert(conventions@ =~= before.drop_first());
            let Convention { name, guidance, mut pre_guardrails, mut post_guardrails } = c;
            chain.pre.append(&mut pre_guardrails);
            chain.post.append(&mut post_guardrails);
            assert(chain.pre@ + all_pre(conventions@) =~= pre + all_pre(before));
            assert(chain.post@ + all_post(conventions@) =~= post + all_post(before));
        }
        assert(chain.pre@ + all_pre(conventions@) =~= chain.pre@);
        assert(chain.post@ + all_post(conventions@) =~= chain.post@);
        chain
    }
}

/// A longer chain is its first part followed by its second: what the first part leaves goes
/// into the second, and a retry that the first part asks for stands whatever follows.
pub proof fn chains_compose(
    first: Seq<Box<dyn PostGuardrail>>,
    second: Seq<Box<dyn PostGuardrail>>,
    content: Seq<char>,
)
    ensures
        repaired_by(first + second, content) == (match repaired_by(first, content) {
            Some(r) => repaired_by(second, r),
            None => None,
        }),
    decreases first.len(),
{
    if first.len() == 0 {
        assert(first + second =~= second);
    } else {
        assert((first + second).drop_first() =~= first.drop_first() + second);
        match first[0].verdict(content) {
            PostVerdict::Passed => {
                chains_compose(first.drop_first(), second, content);
            },
            PostVerdict::Repaired(r) => {
                chains_compose(first.drop_first(), second, r);
            },
            PostVerdict::NeedsRetry => {},
        }
    }
}

/// An empty chain lets every input and every output pass.
pub proof fn empty_chain_passes(content: Seq<char>)
    ensures
        first_error(Seq::empty(), content) is None,
        chain_verdict(Seq::empty(), content) == PostVerdict::Passed,
{
}

/// The checks of an input are made one after the other, the first that rejects it speaks, and one
/// that lets it pass, with or without a warning, is as if it were not there.
pub proof fn first_rejection_speaks(
    first: Seq<Box<dyn PreGuardrail>>,
    second: Seq<Box<dyn PreGuardrail>>,
    content: Seq<char>,
)
    ensures
        first_error(first + second, content) == (match first_error(first, content) {
            Some(message) => Some(message),
            None => first_error(second, content),
        }),
        first.len() == 1 ==> first_error(first, content) == (match first[0].verdict(content) {
            PreVerdict::Error(message) => Some(message),
            _ => None,
        }),
    decreases first.len(),
{
    reveal_with_fuel(first_error, 2);
    if first.len() == 0 {
        assert(first + second =~= second);
    } else {
        assert((first + second).drop_first() =~= first.drop_first() + second);
        first_rejection_speaks(first.drop_first(), second, content);
    }
}

/// A chain of one check says what the check says: its repair is the output, unless it changes
/// nothing, and its demand for a retry stands.
pub proof fn a_single_check_decides(post: Seq<Box<dyn PostGuardrail>>, content: Seq<char>)
    requires
        post.len() == 1,
    ensures
        repaired_by(post, content) == (match post[0].verdict(content) {
            PostVerdict::Passed => Some(content),
            PostVerdict::Repaired(r) => Some(r),
            PostVerdict::NeedsRetry => None,
        }),
        chain_verdict(post, content) is NeedsRetry <==> post[0].verdict(content) is NeedsRetry,
        chain_verdict(post, content) matches PostVerdict::Repaired(r) ==> r != content
            && post[0].verdict(content) == PostVerdict::Repaired(r),
{
    reveal_with_fuel(repaired_by, 2);
}

/// What a chain makes of an output is the output itself where it passes, and another text where it
/// was repaired.
pub proof fn chain_verdict_is_what_is_left(post: Seq<Box<dyn PostGuardrail>>, content: Seq<char>)
    ensures
        match chain_verdict(post, content) {
            PostVerdict::Passed => repaired_by(post, content) == Some(content),
            PostVerdict::Repaired(r) => repaired_by(post, content) == Some(r) && r != content,
            PostVerdict::NeedsRetry => repaired_by(post, content) is None,
        },
{
}

/// The guidance of a convention is its text under its name.
pub proof fn guidance_holds_name_and_text(c: Convention)
    ensures
        guidance_section(c) == "### "@ + c.name@ + "\n\n"@ + c.guidance@,
        c.guidance@.is_suffix_of(guidance_section(c)),
{
    let s = guidance_section(c);
    assert(s.subrange(s.len() - c.guidance@.len(), s.len() as int) =~= c.guidance@);
}

/// The checks of inputs are those of all conventions, in their order.
pub proof fn pre_checks_add_up(
    a: Seq<Convention>,
    b: Seq<Convention>,
    x: Convention,
)
    ensures
        all_pre(a + b) == all_pre(a) + all_pre(b),
        all_pre(seq![x]) == (x.pre_guardrails@),
    decreases a.len(),
{
    let one = seq![x];
    assert(one.drop_first() =~= Seq::<Convention>::empty());
    reveal_with_fuel(all_pre, 2);
    assert(all_pre(one) =~= (x.pre_guardrails@));
    if a.len() == 0 {
        assert(a + b =~= b);
        assert(all_pre(a) + all_pre(b) =~= all_pre(b));
    } else {
        assert((a + b).drop_first() =~= a.drop_first() + b);
        assert((a + b)[0] == a[0]);
        pre_checks_add_up(a.drop_first(), b, x);
        assert(all_pre(a + b) =~= all_pre(a) + all_pre(b));
    }
}

/// The checks of outputs are those of all conventions, in their order.
pub proof fn post_checks_add_up(
    a: Seq<Convention>,
    b: Seq<Convention>,
    x: Convention,
)
    ensures
        all_post(a + b) == all_post(a) + all_post(b),
        all_post(seq![x]) == (x.post_guardrails@),
    decreases a.len(),
{
    let one = seq![x];
    assert(one.drop_first() =~= Seq::<Convention>::empty());
    reveal_with_fuel(all_post, 2);
    assert(all_post(one) =~= (x.post_guardrails@));
    if a.len() == 0 {
        assert(a + b =~= b);
        assert(all_post(a) + all_post(b) =~= all_post(b));
    } else {
        assert((a + b).drop_first() =~= a.drop_first() + b);
        assert((a + b)[0] == a[0]);
        post_checks_add_up(a.drop_first(), b, x);
        assert(all_post(a + b) =~= all_post(a) + all_post(b));
    }
}

} // verus!
