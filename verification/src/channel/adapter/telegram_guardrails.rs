//! The guardrail that closes a Telegram message which the model left open.

use vstd::prelude::*;
use crate::channel::adapter::markup;
use crate::channel::adapter::markup::{Node, NodeView};
use crate::guardrail::{Convention, PostGuardrail, PostGuardrailAction, PostVerdict};
use crate::text;
use vstd::string::*;

verus! {

/// What the model is told about Telegram messages.
pub const CONVENTION_GUIDANCE: &'static str = "To reply to the user, wrap the reply in a <telegram-message> element:\n\n<telegram-message from=\"assistant\" to=\"user\">Your reply.</telegram-message>\n\nEvery opening tag needs its closing tag. Text outside the element is internal and is never sent.";

/// Checks that an output with a message's opening tag has a closing tag, and adds one where
/// that makes it a message of the assistant's.
pub struct TelegramTagPairGuardrail;

/// One of the nodes is a message from the assistant.
pub open spec fn has_assistant_message(doc: Seq<NodeView>) -> bool {
    exists|i: int|
        0 <= i < doc.len() && (#[trigger] doc[i] matches NodeView::Message(m) && m.from
            == "assistant"@)
}

/// What the guardrail says of an output.
pub open spec fn tag_pair_verdict(content: Seq<char>) -> PostVerdict {
    let repaired = content + "</telegram-message>"@;
    if !text::contains_text(content, "<telegram-message"@) || text::contains_text(
        content,
        "</telegram-message>"@,
    ) {
        PostVerdict::Passed
    } else if has_assistant_message(markup::document(repaired)) {
        PostVerdict::Repaired(repaired)
    } else {
        PostVerdict::NeedsRetry
    }
}

fn any_assistant_message(nodes: &Vec<Node>) -> (r: bool)
    ensures
        r == has_assistant_message(markup::node_views(nodes@)),
{
    let mut i: usize = 0;
    while i < nodes.len()
        invariant
            i <= nodes.len(),
            forall|k: int|
                0 <= k < i ==> !(#[trigger] markup::node_views(nodes@)[k] matches NodeView::Message(
                    m,
                ) && m.from == "assistant"@),
        decreases nodes.len() - i,
    {
        if let Node::Message(m) = &nodes[i] {
            if text::same(m.from.as_str(), "assistant") {
                assert(markup::node_views(nodes@)[i as int] == NodeView::Message(m@));
                return true;
            }
        }
        i = i + 1;
    }
    false
}

impl PostGuardrail for TelegramTagPairGuardrail {
    open spec fn verdict(&self, content: Seq<char>) -> PostVerdict {
        tag_pair_verdict(content)
    }

    open spec fn label(&self) -> Seq<char> {
        "telegram_tag_pair"@
    }

    fn name(&self) -> (r: &str) {
        "telegram_tag_pair"
    }

    fn check(&self, content: &str) -> (r: PostGuardrailAction) {
        if !text::contains(content, "<telegram-message") || text::contains(
            content,
            "</telegram-message>",
        ) {
            return PostGuardrailAction::Passed;
        }
        let repaired = text::concat2(content, "</telegram-message>");
        let doc = markup::parse(repaired.as_str());
        if any_assistant_message(&doc.nodes) {
            PostGuardrailAction::Repaired(repaired)
        } else {
            PostGuardrailAction::NeedsRetry
        }
    }
}

fn single<T>(x: T) -> (v: Vec<T>)
    ensures
        v@.len() == 1,
        v@[0] == x,
{
    let mut v: Vec<T> = Vec::new();
    v.push(x);
    v
}

/// The convention for Telegram messages.
pub fn convention() -> (c: Convention)
    ensures
        c.name@ == "Telegram Message Format"@,
        c.guidance@ == CONVENTION_GUIDANCE@,
        c.pre_guardrails@.len() == 0,
        c.post_guardrails@.len() == 1,
        forall|content: Seq<char>| #[trigger]
            c.post_guardrails@[0].verdict(content) == tag_pair_verdict(content),
        c.post_guardrails@[0].label() == "telegram_tag_pair"@,
{
    let g: Box<dyn PostGuardrail> = Box::new(TelegramTagPairGuardrail);
    let post = single(g);
    Convention {
        name: "Telegram Message Format".to_string(),
        guidance: CONVENTION_GUIDANCE.to_string(),
        pre_guardrails: Vec::new(),
        post_guardrails: post,
    }
}

/// A repair ends with the closing tag, keeps everything before it, and is not repaired again.
pub proof fn repair_is_final(content: Seq<char>)
    ensures
        tag_pair_verdict(content) matches PostVerdict::Repaired(r) ==> r == content
            + "</telegram-message>"@ && tag_pair_verdict(r) == PostVerdict::Passed,
{
    let end = "</telegram-message>"@;
    let r = content + end;
    assert(r.subrange(content.len() as int, content.len() as int + end.len()) =~= end);
    assert(text::has_at(r, end, content.len() as int));
}

/// A reply whose end tag is missing gets it. A text that opens no message, or closes one, is left
/// as it is; and one that is no message of the assistant even with an end has to be written anew.
pub proof fn an_open_reply_is_closed(content: Seq<char>)
    ensures
        tag_pair_verdict(content) is Passed <==> !text::contains_text(content, "<telegram-message"@)
            || text::contains_text(content, "</telegram-message>"@),
        tag_pair_verdict(content) matches PostVerdict::Repaired(r) ==> {
            &&& r == content + "</telegram-message>"@
            &&& exists|i: int|
                0 <= i < markup::document(r).len() && (#[trigger] markup::document(
                    r,
                )[i] matches NodeView::Message(m) && m.from == "assistant"@)
        },
        tag_pair_verdict(content) is NeedsRetry ==> forall|i: int|
            0 <= i < markup::document(content + "</telegram-message>"@).len() ==> !(
            #[trigger] markup::document(
                content + "</telegram-message>"@,
            )[i] matches NodeView::Message(m) && m.from == "assistant"@),
{
}

} // verus!
