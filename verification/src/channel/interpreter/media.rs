//! Pictures, films and files.

use vstd::prelude::*;
use base64::Engine;
use crate::channel::interpreter::{self, Attachment, InterpretedMessage};
use crate::text;
use vstd::string::*;

verus! {

/// A character of the standard base64 alphabet.
pub open spec fn base64_char(n: int) -> char {
    if n < 26 {
        (('A' as int) + n) as char
    } else if n < 52 {
        (('a' as int) + (n - 26)) as char
    } else if n < 62 {
        (('0' as int) + (n - 52)) as char
    } else if n == 62 {
        '+'
    } else {
        '/'
    }
}

/// Bytes in standard base64: four characters for three bytes, and padding at the end.
pub open spec fn base64_text(b: Seq<u8>) -> Seq<char>
    decreases b.len(),
{
    if b.len() == 0 {
        Seq::empty()
    } else if b.len() == 1 {
        seq![base64_char(b[0] as int / 4), base64_char((b[0] as int % 4) * 16), '=', '=']
    } else if b.len() == 2 {
        seq![
            base64_char(b[0] as int / 4),
            base64_char((b[0] as int % 4) * 16 + b[1] as int / 16),
            base64_char((b[1] as int % 16) * 4),
            '=',
        ]
    } else {
        seq![
            base64_char(b[0] as int / 4),
            base64_char((b[0] as int % 4) * 16 + b[1] as int / 16),
            base64_char((b[1] as int % 16) * 4 + b[2] as int / 64),
            base64_char(b[2] as int % 64),
        ] + base64_text(b.skip(3))
    }
}

/// `base64::Engine::encode` of `base64::engine::general_purpose::STANDARD`: the bytes in the
/// standard alphabet, with padding.
#[verifier::external_body]
fn encode_base64(data: &Vec<u8>) -> (r: String)
    ensures
        r@ == base64_text(data@),
{
    base64::engine::general_purpose::STANDARD.encode(data)
}

/// A size in which a photo can be had.
#[derive(Debug, Clone, PartialEq, Eq)]
pub struct PhotoSize {
    pub file_id: String,
    pub width: u32,
    pub height: u32,
}

/// How large a photo is.
pub open spec fn area(p: PhotoSize) -> int {
    p.width * p.height
}

/// The largest size of a photo, the last one among equals.
pub fn largest_photo(photos: &Vec<PhotoSize>) -> (r: Option<usize>)
    ensures
        match r {
            Some(k) => k < photos@.len() && (forall|i: int|
                0 <= i < photos@.len() ==> area(#[trigger] photos@[i]) <= area(photos@[k as int]))
                && (forall|i: int|
                k < i < photos@.len() ==> area(#[trigger] photos@[i]) < area(photos@[k as int])),
            None => photos@.len() == 0,
        },
{
    if photos.len() == 0 {
        return None;
    }
    let mut best: usize = 0;
    let mut i: usize = 1;
    while i < photos.len()
        invariant
            1 <= i <= photos.len(),
            best < i,
            forall|m: int| 0 <= m < i ==> area(#[trigger] photos@[m]) <= area(photos@[best as int]),
            forall|m: int| best < m < i ==> area(#[trigger] photos@[m]) < area(photos@[best as int]),
        decreases photos.len() - i,
    {
        if area_of(&photos[i]) >= area_of(&photos[best]) {
            best = i;
        }
        i = i + 1;
    }
    Some(best)
}

fn area_of(p: &PhotoSize) -> (r: u64)
    ensures
        r == area(*p),
{
    assert(p.width * p.height <= 0xffff_ffff * 0xffff_ffff) by (nonlinear_arith)
        requires
            p.width <= 0xffff_ffff,
            p.height <= 0xffff_ffff,
    ;
    assert(p.width * p.height >= 0) by (nonlinear_arith);
    p.width as u64 * p.height as u64
}

/// A caption, empty where there is none.
pub open spec fn caption_text(caption: Option<&str>) -> Seq<char> {
    match caption {
        Some(c) => c@,
        None => Seq::empty(),
    }
}

fn captioned(caption: Option<&str>) -> (r: String)
    ensures
        r@ == caption_text(caption),
{
    match caption {
        Some(c) => c.to_string(),
        None => String::new(),
    }
}

/// The message has one attachment, a picture.
pub open spec fn has_image(m: InterpretedMessage, data: Seq<u8>, mime: Seq<char>) -> bool {
    m.attachments@.len() == 1 && (m.attachments@[0] matches Attachment::Image { base64, mime_type }
        && base64@ == base64_text(data) && mime_type@ == mime)
}

/// The message has one attachment, a film.
pub open spec fn has_video(m: InterpretedMessage, data: Seq<u8>, mime: Seq<char>) -> bool {
    m.attachments@.len() == 1 && (m.attachments@[0] matches Attachment::Video { base64, mime_type }
        && base64@ == base64_text(data) && mime_type@ == mime)
}

fn with_image(text: String, data: &Vec<u8>, mime: String) -> (m: InterpretedMessage)
    ensures
        m.text == text,
        has_image(m, data@, mime@),
{
    let mut attachments: Vec<Attachment> = Vec::new();
    attachments.push(Attachment::Image { base64: encode_base64(data), mime_type: mime });
    InterpretedMessage { text, attachments }
}

fn with_video(text: String, data: &Vec<u8>, mime: String) -> (m: InterpretedMessage)
    ensures
        m.text == text,
        has_video(m, data@, mime@),
{
    let mut attachments: Vec<Attachment> = Vec::new();
    attachments.push(Attachment::Video { base64: encode_base64(data), mime_type: mime });
    InterpretedMessage { text, attachments }
}

/// A photo, given its largest size where that could be loaded: its caption, and the picture.
pub fn interpret_photo(data: &Option<Vec<u8>>, caption: Option<&str>) -> (m: InterpretedMessage)
    ensures
        m.text@ == caption_text(caption),
        match data {
            Some(d) => has_image(m, d@, "image/jpeg"@),
            None => m.attachments@.len() == 0,
        },
{
    match data {
        Some(d) => with_image(captioned(caption), d, "image/jpeg".to_string()),
        None => interpreter::text_only(captioned(caption)),
    }
}

/// A film, given its data where they could be loaded: its caption, and the film.
pub fn interpret_video(
    data: &Option<Vec<u8>>,
    mime: Option<&str>,
    caption: Option<&str>,
) -> (m: InterpretedMessage)
    ensures
        m.text@ == caption_text(caption),
        match data {
            Some(d) => has_video(
                m,
                d@,
                match mime {
                    Some(t) => t@,
                    None => "video/mp4"@,
                },
            ),
            None => m.attachments@.len() == 0,
        },
{
    let mime = match mime {
        Some(t) => t.to_string(),
        None => "video/mp4".to_string(),
    };
    match data {
        Some(d) => with_video(captioned(caption), d, mime),
        None => interpreter::text_only(captioned(caption)),
    }
}

/// An animation, given its data where they could be loaded.
pub fn interpret_animation(data: &Option<Vec<u8>>, caption: Option<&str>) -> (m: InterpretedMessage)
    ensures
        m.text@ == caption_text(caption),
        match data {
            Some(d) => has_video(m, d@, "video/mp4"@),
            None => m.attachments@.len() == 0,
        },
{
    interpret_video(data, None, caption)
}

/// A type that a document can have.
pub open spec fn mime_text(mime: Option<&str>) -> Seq<char> {
    match mime {
        Some(t) => t@,
        None => Seq::empty(),
    }
}

/// What is said of a document that is neither a picture nor a film.
pub open spec fn document_note(caption: Seq<char>, filename: Seq<char>) -> Seq<char> {
    let note = "<document filename=\""@ + filename + "\" />"@;
    if caption.len() == 0 {
        note
    } else {
        caption + "\n"@ + note
    }
}

fn starts_with(s: &str, p: &str) -> (r: bool)
    ensures
        r == text::has_at(s@, p@, 0),
{
    text::occurs_at(&text::to_chars(s), &text::to_chars(p), 0)
}

/// Whether a document is a picture or a film, so that its data are wanted.
pub fn document_is_media(mime: Option<&str>) -> (r: bool)
    ensures
        r == (text::has_at(mime_text(mime), "image/"@, 0) || text::has_at(
            mime_text(mime),
            "video/"@,
            0,
        )),
{
    match mime {
        Some(t) => starts_with(t, "image/") || starts_with(t, "video/"),
        None => {
            proof {
                reveal_strlit("image/");
                reveal_strlit("video/");
            }
            false
        },
    }
}

/// A document, given its data where they were wanted and could be loaded: a picture or a film is
/// taken as such; of anything else the name is said.
pub fn interpret_document(
    data: &Option<Vec<u8>>,
    mime: Option<&str>,
    filename: Option<&str>,
    caption: Option<&str>,
) -> (m: InterpretedMessage)
    ensures
        if text::has_at(mime_text(mime), "image/"@, 0) && data is Some {
            m.text@ == caption_text(caption) && has_image(m, data->0@, mime_text(mime))
        } else if text::has_at(mime_text(mime), "video/"@, 0) && data is Some {
            m.text@ == caption_text(caption) && has_video(m, data->0@, mime_text(mime))
        } else {
            interpreter::is_text_only(
                m,
                document_note(
                    caption_text(caption),
                    match filename {
                        Some(f) => f@,
                        None => "unknown"@,
                    },
                ),
            )
        },
{
    let kind = match mime {
        Some(t) => t.to_string(),
        None => String::new(),
    };
    if let Some(d) = data {
        if starts_with(kind.as_str(), "image/") {
            return with_image(captioned(caption), d, kind);
        }
        if starts_with(kind.as_str(), "video/") {
            return with_video(captioned(caption), d, kind);
        }
    }
    let name = match filename {
        Some(f) => f.to_string(),
        None => "unknown".to_string(),
    };
    let note = text::concat3("<document filename=\"", name.as_str(), "\" />");
    let said = captioned(caption);
    if text::to_chars(said.as_str()).len() == 0 {
        interpreter::text_only(note)
    } else {
        interpreter::text_only(text::concat3(said.as_str(), "\n", note.as_str()))
    }
}

/// The area of a photo counts both sides: turned round it is the same, and a side that is longer
/// makes it no smaller.
pub proof fn area_counts_both_sides(p: PhotoSize, turned: PhotoSize, wider: PhotoSize)
    requires
        turned.width == p.height,
        turned.height == p.width,
        wider.width >= p.width,
        wider.height == p.height,
    ensures
        area(turned) == area(p),
        area(wider) >= area(p),
        p.height == 1 ==> area(p) == p.width,
{
    assert(p.width * p.height == p.height * p.width) by (nonlinear_arith);
    assert(wider.width * p.height >= p.width * p.height) by (nonlinear_arith)
        requires
            wider.width >= p.width,
            p.height >= 0,
    ;
    if p.height == 1 {
        assert(p.width * 1 == p.width);
    }
}

/// What is attached is encoded in groups of three bytes, each by itself.
pub proof fn groups_are_encoded_by_themselves(a: Seq<u8>, b: Seq<u8>)
    requires
        a.len() % 3 == 0,
    ensures
        base64_text(a + b) == base64_text(a) + base64_text(b),
        base64_text(a).len() == a.len() / 3 * 4,
    decreases a.len(),
{
    if a.len() == 0 {
        assert(a + b =~= b);
        assert(base64_text(a) + base64_text(b) =~= base64_text(b));
    } else {
        assert((a + b).skip(3) =~= a.skip(3) + b);
        groups_are_encoded_by_themselves(a.skip(3), b);
        assert(base64_text(a + b) =~= base64_text(a) + base64_text(b));
    }
}

/// A note about a document names its file; a caption stands before it on a line of its own.
pub proof fn document_note_holds_both(caption: Seq<char>, filename: Seq<char>)
    ensures
        document_note(Seq::empty(), filename) == "<document filename=\""@ + filename + "\" />"@,
        caption.len() > 0 ==> document_note(caption, filename) == caption + "\n"@ + document_note(
            Seq::empty(),
            filename,
        ),
{
}

/// A picture or a film is attached whole, with its type: the only attachment, told apart by its
/// kind.
pub proof fn what_was_sent_is_attached(m: InterpretedMessage, data: Seq<u8>, mime: Seq<char>)
    ensures
        has_image(m, data, mime) ==> m.attachments@.len() == 1 && (
        m.attachments@[0] matches Attachment::Image { base64, mime_type } && base64@ == base64_text(
            data,
        ) && mime_type@ == mime),
        has_video(m, data, mime) ==> m.attachments@.len() == 1 && (
        m.attachments@[0] matches Attachment::Video { base64, mime_type } && base64@ == base64_text(
            data,
        ) && mime_type@ == mime),
        !(has_image(m, data, mime) && has_video(m, data, mime)),
{
}

/// Two captions that are told alike are alike, and so are two types; one that is missing is told
/// like one that is empty.
pub proof fn captions_are_told_as_they_are(s: &str, t: &str)
    ensures
        caption_text(Some(s)) == caption_text(Some(t)) <==> s@ == t@,
        caption_text(Some(s)) == s@,
        caption_text(None) == Seq::<char>::empty(),
        mime_text(Some(s)) == mime_text(Some(t)) <==> s@ == t@,
        mime_text(Some(s)) == s@,
        mime_text(None) == Seq::<char>::empty(),
{
}

/// One or two bytes that are left over are written like three of which the missing are zero, with
/// an equals sign for each that is missing.
pub proof fn what_is_left_over_is_filled_up(a: u8, b: u8)
    ensures
        base64_text(seq![a]) == base64_text(seq![a, 0u8, 0u8]).take(2) + seq!['=', '='],
        base64_text(seq![a, b]) == base64_text(seq![a, b, 0u8]).take(3) + seq!['='],
{
    let three = seq![a, 0u8, 0u8];
    let full = seq![a, b, 0u8];
    assert(three.skip(3) =~= Seq::<u8>::empty());
    assert(full.skip(3) =~= Seq::<u8>::empty());
    reveal_with_fuel(base64_text, 2);
    assert(base64_text(seq![a]) =~= base64_text(three).take(2) + seq!['=', '=']);
    assert(base64_text(seq![a, b]) =~= base64_text(full).take(3) + seq!['=']);
}

} // verus!
