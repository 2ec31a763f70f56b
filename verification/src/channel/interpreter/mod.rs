//! What a message of a channel's means to the agent.

pub mod media;
pub mod structured;
pub mod voice;

use vstd::prelude::*;
use vstd::string::*;

verus! {

/// A message as the agent takes it in.
#[derive(Debug, Clone, PartialEq, Eq)]
pub struct InterpretedMessage {
    pub text: String,
    pub attachments: Vec<Attachment>,
}

/// Something that comes with a message.
#[derive(Debug, Clone, PartialEq, Eq)]
pub enum Attachment {
    Image { base64: String, mime_type: String },
    Video { base64: String, mime_type: String },
}

/// A message that is nothing but a text.
pub open spec fn is_text_only(m: InterpretedMessage, t: Seq<char>) -> bool {
    m.text@ == t && m.attachments@.len() == 0
}

/// A message that is nothing but a text.
pub fn text_only(text: String) -> (m: InterpretedMessage)
    ensures
        is_text_only(m, text@),
{
    InterpretedMessage { text, attachments: Vec::new() }
}

/// What a message can hold.
#[derive(Debug, Clone, Copy, PartialEq, Eq, Structural)]
pub enum MessageKind {
    Text,
    Photo,
    Video,
    Animation,
    Document,
    Voice,
    Audio,
    VideoNote,
    Location,
    Contact,
    Venue,
    Poll,
    Dice,
    Sticker,
}

/// The order in which a message is looked through: what comes first counts.
pub open spec fn rank_of(k: MessageKind) -> int {
    match k {
        MessageKind::Text => 0,
        MessageKind::Photo => 1,
        MessageKind::Video => 2,
        MessageKind::Animation => 3,
        MessageKind::Document => 4,
        MessageKind::Voice => 5,
        MessageKind::Audio => 6,
        MessageKind::VideoNote => 7,
        MessageKind::Location => 8,
        MessageKind::Contact => 9,
        MessageKind::Venue => 10,
        MessageKind::Poll => 11,
        MessageKind::Dice => 12,
        MessageKind::Sticker => 13,
    }
}

fn rank(k: MessageKind) -> (r: u8)
    ensures
        r == rank_of(k),
{
    match k {
        MessageKind::Text => 0,
        MessageKind::Photo => 1,
        MessageKind::Video => 2,
        MessageKind::Animation => 3,
        MessageKind::Document => 4,
        MessageKind::Voice => 5,
        MessageKind::Audio => 6,
        MessageKind::VideoNote => 7,
        MessageKind::Location => 8,
        MessageKind::Contact => 9,
        MessageKind::Venue => 10,
        MessageKind::Poll => 11,
        MessageKind::Dice => 12,
        MessageKind::Sticker => 13,
    }
}

/// What a message is interpreted as: the first in order of all that it holds.
pub fn interpret(holds: &Vec<MessageKind>) -> (r: Option<MessageKind>)
    ensures
        match r {
            Some(k) => holds@.contains(k) && (forall|i: int|
                0 <= i < holds@.len() ==> rank_of(k) <= rank_of(#[trigger] holds@[i])),
            None => holds@.len() == 0,
        },
{
    if holds.len() == 0 {
        return None;
    }
    let mut best: MessageKind = holds[0];
    assert(holds@[0] == best);
    let mut i: usize = 1;
    while i < holds.len()
        invariant
            1 <= i <= holds.len(),
            holds@.contains(best),
            forall|m: int| 0 <= m < i ==> rank_of(best) <= rank_of(#[trigger] holds@[m]),
        decreases holds.len() - i,
    {
        if rank(holds[i]) < rank(best) {
            best = holds[i];
            assert(holds@[i as int] == best);
        }
        i = i + 1;
    }
    Some(best)
}

/// What a message is interpreted as does not depend on the order in which its parts are named.
pub proof fn interpretation_is_unique(holds: Seq<MessageKind>, a: MessageKind, b: MessageKind)
    requires
        holds.contains(a),
        holds.contains(b),
        forall|i: int| 0 <= i < holds.len() ==> rank_of(a) <= rank_of(#[trigger] holds[i]),
        forall|i: int| 0 <= i < holds.len() ==> rank_of(b) <= rank_of(#[trigger] holds[i]),
    ensures
        a == b,
{
    let i = choose|i: int| 0 <= i < holds.len() && holds[i] == a;
    let j = choose|j: int| 0 <= j < holds.len() && holds[j] == b;
    assert(rank_of(b) <= rank_of(holds[i]));
    assert(rank_of(a) <= rank_of(holds[j]));
}

/// In which order a message's parts are looked for: its text first, then pictures, sound, and what
/// else it may hold, in the order of the kinds.
pub proof fn kinds_are_ranked(holds: Seq<MessageKind>, k: MessageKind)
    ensures
        rank_of(MessageKind::Text) < rank_of(MessageKind::Photo) < rank_of(MessageKind::Video)
            < rank_of(MessageKind::Animation) < rank_of(MessageKind::Document) < rank_of(
            MessageKind::Voice,
        ) < rank_of(MessageKind::Audio) < rank_of(MessageKind::VideoNote) < rank_of(
            MessageKind::Location,
        ) < rank_of(MessageKind::Contact) < rank_of(MessageKind::Venue) < rank_of(
            MessageKind::Poll,
        ) < rank_of(MessageKind::Dice) < rank_of(MessageKind::Sticker),
        rank_of(MessageKind::Text) <= rank_of(k) <= rank_of(MessageKind::Sticker),
{
}

} // verus!
