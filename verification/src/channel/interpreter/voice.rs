//! Recordings: how they are written down, and what is said where they cannot be.

use vstd::prelude::*;
use crate::channel::interpreter::{self, InterpretedMessage};
use crate::text;
use vstd::string::*;

verus! {

pub const DEFAULT_WHISPER_LANGUAGE: &'static str = "auto";

pub const BREW_MODEL_PATH: &'static str =
    "/opt/homebrew/opt/whisper-cpp/share/whisper-cpp/for-tests-ggml-tiny.bin";

/// A recording.
#[derive(Debug, Clone, Copy, PartialEq, Eq, Structural)]
pub enum Recording {
    Voice,
    Audio,
    VideoNote,
}

/// What became of a recording.
#[derive(Debug, Clone, PartialEq, Eq)]
pub enum Transcription {
    /// It was written down.
    Done(String),
    /// It could not be.
    Failed,
    /// It could not be loaded.
    NotDownloaded,
}

/// The name of what is said of a recording.
pub open spec fn tag_of(r: Recording) -> Seq<char> {
    match r {
        Recording::Voice => "voice-transcript"@,
        Recording::Audio => "audio-transcript"@,
        Recording::VideoNote => "video-note-transcript"@,
    }
}

/// What is said of a recording: what was written down, and otherwise why nothing was.
pub open spec fn recording_text(r: Recording, t: Transcription) -> Seq<char> {
    match t {
        Transcription::Done(s) => if s@.len() > 0 {
            s@
        } else {
            "<"@ + tag_of(r) + " status=\"empty\" />"@
        },
        Transcription::Failed => "<"@ + tag_of(r) + " status=\"failed\" />"@,
        Transcription::NotDownloaded => "<"@ + tag_of(r) + " status=\"download-failed\" />"@,
    }
}

fn interpret_recording(r: Recording, t: Transcription) -> (m: InterpretedMessage)
    ensures
        interpreter::is_text_only(m, recording_text(r, t)),
{
    let tag = match r {
        Recording::Voice => "voice-transcript",
        Recording::Audio => "audio-transcript",
        Recording::VideoNote => "video-note-transcript",
    };
    match t {
        Transcription::Done(s) => {
            if text::to_chars(s.as_str()).len() > 0 {
                interpreter::text_only(s)
            } else {
                interpreter::text_only(text::concat3("<", tag, " status=\"empty\" />"))
            }
        },
        Transcription::Failed => interpreter::text_only(
            text::concat3("<", tag, " status=\"failed\" />"),
        ),
        Transcription::NotDownloaded => interpreter::text_only(
            text::concat3("<", tag, " status=\"download-failed\" />"),
        ),
    }
}

pub fn interpret_voice(t: Transcription) -> (m: InterpretedMessage)
    ensures
        interpreter::is_text_only(m, recording_text(Recording::Voice, t)),
{
    interpret_recording(Recording::Voice, t)
}

pub fn interpret_audio(t: Transcription) -> (m: InterpretedMessage)
    ensures
        interpreter::is_text_only(m, recording_text(Recording::Audio, t)),
{
    interpret_recording(Recording::Audio, t)
}

pub fn interpret_video_note(t: Transcription) -> (m: InterpretedMessage)
    ensures
        interpreter::is_text_only(m, recording_text(Recording::VideoNote, t)),
{
    interpret_recording(Recording::VideoNote, t)
}

/// The name of the file in which a recording is kept while it is written down ends like this.
pub fn suffix(r: Recording) -> (s: &'static str)
    ensures
        s@ == (match r {
            Recording::Voice => ".ogg"@,
            Recording::Audio => ".ogg"@,
            Recording::VideoNote => ".mp4"@,
        }),
{
    match r {
        Recording::Voice => ".ogg",
        Recording::Audio => ".ogg",
        Recording::VideoNote => ".mp4",
    }
}

/// Where the model is looked for first.
pub open spec fn home_model(home: Option<String>) -> Seq<char> {
    (match home {
        Some(h) => h@,
        None => Seq::empty(),
    }) + "/.local/share/whisper-cpp/models/ggml-large-v3-turbo.bin"@
}

/// Where the model is looked for first.
pub fn default_model_path(home: &Option<String>) -> (r: String)
    ensures
        r@ == home_model(*home),
{
    let home = match home {
        Some(h) => h.clone(),
        None => String::new(),
    };
    text::concat2(
        home.as_str(),
        "/.local/share/whisper-cpp/models/ggml-large-v3-turbo.bin",
    )
}

/// Where the model is: where it is set to be, else where it is looked for first, unless it is only
/// in the other place.
pub fn resolve_model_path(
    setting: &Option<String>,
    home: &Option<String>,
    at_home: bool,
    at_brew: bool,
) -> (r: String)
    ensures
        r@ == (match setting {
            Some(s) => s@,
            None => if !at_home && at_brew {
                BREW_MODEL_PATH@
            } else {
                home_model(*home)
            },
        }),
{
    match setting {
        Some(s) => s.clone(),
        None => {
            if !at_home && at_brew {
                BREW_MODEL_PATH.to_string()
            } else {
                default_model_path(home)
            }
        },
    }
}

/// The arguments that make `ffmpeg` turn a recording into what can be written down.
pub fn ffmpeg_arguments(input: &str, output: &str) -> (r: Vec<String>)
    ensures
        text::views(r@) == seq![
            "-y"@,
            "-i"@,
            input@,
            "-ar"@,
            "16000"@,
            "-ac"@,
            "1"@,
            "-f"@,
            "wav"@,
            output@,
        ],
{
    let mut r: Vec<String> = Vec::new();
    r.push("-y".to_string());
    r.push("-i".to_string());
    r.push(input.to_string());
    r.push("-ar".to_string());
    r.push("16000".to_string());
    r.push("-ac".to_string());
    r.push("1".to_string());
    r.push("-f".to_string());
    r.push("wav".to_string());
    r.push(output.to_string());
    assert(text::views(r@) =~= seq![
        "-y"@,
        "-i"@,
        input@,
        "-ar"@,
        "16000"@,
        "-ac"@,
        "1"@,
        "-f"@,
        "wav"@,
        output@,
    ]);
    r
}

/// The arguments that make `whisper-cli` write a recording down.
pub fn whisper_arguments(model: &str, language: &str, out: &str, wav: &str) -> (r: Vec<String>)
    ensures
        text::views(r@) == seq![
            "-m"@,
            model@,
            "-l"@,
            language@,
            "-ojf"@,
            "-of"@,
            out@,
            "-f"@,
            wav@,
        ],
{
    let mut r: Vec<String> = Vec::new();
    r.push("-m".to_string());
    r.push(model.to_string());
    r.push("-l".to_string());
    r.push(language.to_string());
    r.push("-ojf".to_string());
    r.push("-of".to_string());
    r.push(out.to_string());
    r.push("-f".to_string());
    r.push(wav.to_string());
    assert(text::views(r@) =~= seq![
        "-m"@,
        model@,
        "-l"@,
        language@,
        "-ojf"@,
        "-of"@,
        out@,
        "-f"@,
        wav@,
    ]);
    r
}

// ---------------------------------------------------------------------------
// The transcript
// ---------------------------------------------------------------------------

/// A piece of a transcript: what was said, and when, where that is known.
#[derive(Debug, Clone, PartialEq, Eq)]
pub struct WhisperToken {
    pub text: String,
    pub from: Option<String>,
}

/// A piece of a transcript as plain values.
#[verifier::ext_equal]
pub struct TokenView {
    pub text: Seq<char>,
    pub from: Option<Seq<char>>,
}

impl View for WhisperToken {
    type V = TokenView;

    open spec fn view(&self) -> TokenView {
        TokenView { text: self.text@, from: text::opt_view(self.from) }
    }
}

/// The pieces of a list as plain values.
pub open spec fn token_views(list: Seq<WhisperToken>) -> Seq<TokenView> {
    list.map_values(|t: WhisperToken| t@)
}

/// A piece as it was written down.
#[derive(Debug, Clone, PartialEq, Eq)]
pub struct RawToken {
    pub text: Option<String>,
    pub from: Option<String>,
}

/// A piece as it was written down, as plain values.
#[verifier::ext_equal]
pub struct RawTokenView {
    pub text: Option<Seq<char>>,
    pub from: Option<Seq<char>>,
}

impl View for RawToken {
    type V = RawTokenView;

    open spec fn view(&self) -> RawTokenView {
        RawTokenView { text: text::opt_view(self.text), from: text::opt_view(self.from) }
    }
}

/// The pieces of a list as they were written down.
pub open spec fn raw_views(list: Seq<RawToken>) -> Seq<RawTokenView> {
    list.map_values(|t: RawToken| t@)
}

/// The pieces of each segment that has any.
pub open spec fn segment_views(list: Seq<Option<Vec<RawToken>>>) -> Seq<Option<Seq<RawTokenView>>> {
    list.map_values(
        |s: Option<Vec<RawToken>>|
            match s {
                Some(tokens) => Some(raw_views(tokens@)),
                None => None,
            },
    )
}

/// What was read as plain values.
pub open spec fn read_view(r: Result<Option<Vec<Option<Vec<RawToken>>>>, String>) -> Result<
    Option<Seq<Option<Seq<RawTokenView>>>>,
    Seq<char>,
> {
    match r {
        Ok(Some(list)) => Ok(Some(segment_views(list@))),
        Ok(None) => Ok(None),
        Err(e) => Err(e@),
    }
}

/// What `serde_json` reads from a text: of the list under `transcription`, where there is one, the
/// list under `tokens` of each segment, where there is one, and of each token the string under
/// `text` and that under `from` of `timestamps`, where there are any; or its error.
pub uninterp spec fn json_segments(json: Seq<char>) -> Result<
    Option<Seq<Option<Seq<RawTokenView>>>>,
    Seq<char>,
>;

/// `serde_json::from_str` into a `Value`, the parts of which are then read with `as_array` and
/// `as_str`. The result depends on the text alone.
#[verifier::external_body]
fn read_segments(json: &str) -> (r: Result<Option<Vec<Option<Vec<RawToken>>>>, String>)
    ensures
        read_view(r) == json_segments(json@),
{
    let v = serde_json::from_str::<serde_json::Value>(json).map_err(|e| e.to_string())?;
    let token = |t: &serde_json::Value| RawToken {
        text: t["text"].as_str().map(str::to_owned),
        from: t["timestamps"]["from"].as_str().map(str::to_owned),
    };
    Ok(v["transcription"].as_array().map(|segments| {
        segments
            .iter()
            .map(|s| s["tokens"].as_array().map(|tokens| tokens.iter().map(token).collect()))
            .collect()
    }))
}

/// A piece; nothing was said where nothing was written down.
pub open spec fn heard(t: RawTokenView) -> TokenView {
    TokenView {
        text: match t.text {
            Some(s) => s,
            None => Seq::empty(),
        },
        from: t.from,
    }
}

/// All pieces of all segments, one after the other.
pub open spec fn all_tokens(segments: Seq<Option<Seq<RawTokenView>>>) -> Seq<TokenView>
    decreases segments.len(),
{
    if segments.len() == 0 {
        Seq::empty()
    } else {
        all_tokens(segments.drop_last()) + (match segments.last() {
            Some(tokens) => tokens.map_values(|t: RawTokenView| heard(t)),
            None => Seq::empty(),
        })
    }
}

/// The pieces that were read, or why there are none.
pub open spec fn pieces(read: Result<Option<Seq<Option<Seq<RawTokenView>>>>, Seq<char>>) -> Result<
    Seq<TokenView>,
    Seq<char>,
> {
    match read {
        Ok(Some(segments)) => Ok(all_tokens(segments)),
        Ok(None) => Err("No transcription array in whisper output"@),
        Err(e) => Err("Failed to parse whisper JSON: "@ + e),
    }
}

/// The pieces as plain values, or why there are none.
pub open spec fn pieces_view(r: Result<Vec<WhisperToken>, String>) -> Result<
    Seq<TokenView>,
    Seq<char>,
> {
    match r {
        Ok(list) => Ok(token_views(list@)),
        Err(e) => Err(e@),
    }
}

/// The pieces of a segment.
fn heard_tokens(raw: &Vec<RawToken>) -> (list: Vec<WhisperToken>)
    ensures
        token_views(list@) == raw_views(raw@).map_values(|t: RawTokenView| heard(t)),
{
    let ghost want = raw_views(raw@).map_values(|t: RawTokenView| heard(t));
    let mut list: Vec<WhisperToken> = Vec::new();
    let mut i: usize = 0;
    assert(token_views(list@) =~= want.take(0));
    while i < raw.len()
        invariant
            i <= raw.len(),
            want == raw_views(raw@).map_values(|t: RawTokenView| heard(t)),
            token_views(list@) == want.take(i as int),
        decreases raw.len() - i,
    {
        let ghost before = list@;
        let text = match &raw[i].text {
            Some(s) => s.clone(),
            None => String::new(),
        };
        let from = match &raw[i].from {
            Some(s) => Some(s.clone()),
            None => None,
        };
        let token = WhisperToken { text, from };
        list.push(token);
        assert(token@ =~= want[i as int]);
        assert(token_views(list@) =~= token_views(before).push(token@));
        assert(want.take(i as int + 1) =~= want.take(i as int).push(want[i as int]));
        i = i + 1;
    }
    assert(want.take(i as int) =~= want);
    list
}

/// The pieces of what was read.
pub fn pieces_of(read: Result<Option<Vec<Option<Vec<RawToken>>>>, String>) -> (r: Result<
    Vec<WhisperToken>,
    String,
>)
    ensures
        pieces_view(r) == pieces(read_view(read)),
{
    match read {
        Err(e) => Err(text::concat2("Failed to parse whisper JSON: ", e.as_str())),
        Ok(None) => Err("No transcription array in whisper output".to_string()),
        Ok(Some(segments)) => {
            let ghost all = segment_views(segments@);
            let mut list: Vec<WhisperToken> = Vec::new();
            let mut i: usize = 0;
            assert(token_views(list@) =~= all_tokens(all.take(0)));
            while i < segments.len()
                invariant
                    i <= segments.len(),
                    all == segment_views(segments@),
                    token_views(list@) == all_tokens(all.take(i as int)),
                decreases segments.len() - i,
            {
                assert(all.take(i as int + 1).drop_last() =~= all.take(i as int));
                let ghost before = list@;
                match &segments[i] {
                    Some(tokens) => {
                        let mut more = heard_tokens(tokens);
                        let ghost added = more@;
                        list.append(&mut more);
                        assert(token_views(list@) =~= token_views(before) + token_views(added));
                    },
                    None => {
                        assert(token_views(before) + Seq::<TokenView>::empty() =~= token_views(
                            before,
                        ));
                    },
                }
                i = i + 1;
            }
            assert(all.take(i as int) =~= all);
            Ok(list)
        },
    }
}

/// The pieces of what `whisper-cli` has written down.
pub fn parse_whisper_json(json: &str) -> (r: Result<Vec<WhisperToken>, String>)
    ensures
        pieces_view(r) == pieces(json_segments(json@)),
{
    pieces_of(read_segments(json))
}

/// What stands for a piece in a transcript: a word with its time in seconds, a word alone where the
/// time is not known, and nothing where nothing was said.
pub open spec fn line_of(t: TokenView) -> Seq<char> {
    let word = text::trim(t.text);
    if text::has_at(t.text, "[_"@, 0) || word.len() == 0 {
        Seq::empty()
    } else {
        match t.from {
            Some(at) => "<w t=\""@ + at + "\">"@ + word + "</w>\n"@,
            None => word + "\n"@,
        }
    }
}

/// The lines of pieces, one after the other.
pub open spec fn lines_of(tokens: Seq<TokenView>) -> Seq<char>
    decreases tokens.len(),
{
    if tokens.len() == 0 {
        Seq::empty()
    } else {
        lines_of(tokens.drop_last()) + line_of(tokens.last())
    }
}

fn line_text(t: &WhisperToken) -> (r: String)
    ensures
        r@ == line_of(t@),
{
    let chars = text::to_chars(t.text.as_str());
    let word = text::trimmed(t.text.as_str());
    if text::occurs_at(&chars, &text::to_chars("[_"), 0) || text::to_chars(word.as_str()).len()
        == 0 {
        return String::new();
    }
    match &t.from {
        Some(at) => {
            let head = text::concat3("<w t=\"", at.as_str(), "\">");
            text::concat3(head.as_str(), word.as_str(), "</w>\n")
        },
        None => text::concat2(word.as_str(), "\n"),
    }
}

/// The transcript of a recording, given its pieces with their times in seconds.
pub fn transcript(tokens: &Vec<WhisperToken>) -> (r: String)
    ensures
        r@ == "<voice-transcript>\n"@ + lines_of(token_views(tokens@)) + "</voice-transcript>"@,
{
    let ghost all = token_views(tokens@);
    let mut r: String = "<voice-transcript>\n".to_string();
    let mut i: usize = 0;
    assert(r@ =~= "<voice-transcript>\n"@ + lines_of(all.take(0)));
    while i < tokens.len()
        invariant
            i <= tokens.len(),
            all == token_views(tokens@),
            r@ == "<voice-transcript>\n"@ + lines_of(all.take(i as int)),
        decreases tokens.len() - i,
    {
        assert(all.take(i as int + 1).drop_last() =~= all.take(i as int));
        let line = line_text(&tokens[i]);
        r.append(line.as_str());
        assert(r@ =~= "<voice-transcript>\n"@ + lines_of(all.take(i as int + 1)));
        i = i + 1;
    }
    assert(all.take(i as int) =~= all);
    r.append("</voice-transcript>");
    r
}

/// The tokens of all segments are heard in their order; a segment without tokens has none, and a token
/// without text is an empty one.
pub proof fn tokens_add_up(
    a: Seq<Option<Seq<RawTokenView>>>,
    b: Seq<Option<Seq<RawTokenView>>>,
    x: Option<Seq<RawTokenView>>,
)
    ensures
        all_tokens(a + b) == all_tokens(a) + all_tokens(b),
        all_tokens(seq![x]) == (match x {
            Some(tokens) => tokens.map_values(
                |t: RawTokenView|
                    TokenView {
                        text: match t.text {
                            Some(s) => s,
                            None => Seq::empty(),
                        },
                        from: t.from,
                    },
            ),
            None => Seq::empty(),
        }),
    decreases b.len(),
{
    let one = seq![x];
    assert(one.drop_last() =~= Seq::<Option<Seq<RawTokenView>>>::empty());
    reveal_with_fuel(all_tokens, 2);
    assert(all_tokens(one) =~= (match x {
            Some(tokens) => tokens.map_values(
                |t: RawTokenView|
                    TokenView {
                        text: match t.text {
                            Some(s) => s,
                            None => Seq::empty(),
                        },
                        from: t.from,
                    },
            ),
            None => Seq::empty(),
        }));
    if b.len() == 0 {
        assert(a + b =~= a);
        assert(all_tokens(a) + all_tokens(b) =~= all_tokens(a));
    } else {
        assert((a + b).drop_last() =~= a + b.drop_last());
        assert((a + b).last() == b.last());
        tokens_add_up(a, b.drop_last(), x);
        assert(all_tokens(a + b) =~= all_tokens(a) + all_tokens(b));
    }
}

/// The transcript has the tokens in their order, each that is a word on a line of its own, with its time
/// where it has one. A token that is blank, or one of the recogniser's marks, is left out.
pub proof fn transcript_lines_add_up(
    a: Seq<TokenView>,
    b: Seq<TokenView>,
    x: TokenView,
)
    ensures
        lines_of(a + b) == lines_of(a) + lines_of(b),
        lines_of(seq![x]) == (if text::trim(x.text).len() == 0 || (x.text.len() >= 2 && x.text[0] == '[' && x.text[1] == '_') {
            Seq::empty()
        } else {
            match x.from {
                Some(at) => "<w t=\""@ + at + "\">"@ + text::trim(x.text) + "</w>\n"@,
                None => text::trim(x.text) + "\n"@,
            }
        }),
    decreases b.len(),
{
    let one = seq![x];
    assert(one.drop_last() =~= Seq::<TokenView>::empty());
    reveal_with_fuel(lines_of, 2);
    reveal_strlit("[_");
    if x.text.len() >= 2 {
        let start = x.text.subrange(0, 2);
        assert(start[0] == x.text[0] && start[1] == x.text[1]);
        if x.text[0] == '[' && x.text[1] == '_' {
            assert(start =~= "[_"@);
        }
    }
    assert(lines_of(one) =~= (if text::trim(x.text).len() == 0 || (x.text.len() >= 2 && x.text[0] == '[' && x.text[1] == '_') {
            Seq::empty()
        } else {
            match x.from {
                Some(at) => "<w t=\""@ + at + "\">"@ + text::trim(x.text) + "</w>\n"@,
                None => text::trim(x.text) + "\n"@,
            }
        }));
    if b.len() == 0 {
        assert(a + b =~= a);
        assert(lines_of(a) + lines_of(b) =~= lines_of(a));
    } else {
        assert((a + b).drop_last() =~= a + b.drop_last());
        assert((a + b).last() == b.last());
        transcript_lines_add_up(a, b.drop_last(), x);
        assert(lines_of(a + b) =~= lines_of(a) + lines_of(b));
    }
}

/// A recording is told by its transcript, whatever kind it is; where there is none, by its kind and
/// the reason for that.
pub proof fn a_recording_is_its_transcript(r: Recording, s: String)
    ensures
        s@.len() > 0 ==> recording_text(r, Transcription::Done(s)) == s@,
        s@.len() == 0 ==> recording_text(r, Transcription::Done(s)) == "<"@ + tag_of(r)
            + " status=\"empty\" />"@,
        recording_text(r, Transcription::Failed) == "<"@ + tag_of(r) + " status=\"failed\" />"@,
        recording_text(r, Transcription::NotDownloaded) == "<"@ + tag_of(r)
            + " status=\"download-failed\" />"@,
{
}

/// The kinds of recordings are told apart.
pub proof fn recordings_are_told_apart(a: Recording, b: Recording)
    requires
        tag_of(a) == tag_of(b),
    ensures
        a == b,
{
    reveal_strlit("voice-transcript");
    reveal_strlit("audio-transcript");
    reveal_strlit("video-note-transcript");
    assert("voice-transcript"@[0] == 'v' && "audio-transcript"@[0] == 'a');
    assert("voice-transcript"@.len() == 16 && "video-note-transcript"@.len() == 21);
}

/// The model that is found without being named lies below the user's home.
pub proof fn the_model_lies_at_home(home: String, other: String)
    ensures
        home@.is_prefix_of(home_model(Some(home))),
        home_model(Some(home)) == home@ + home_model(None),
        home_model(Some(home)) == home_model(Some(other)) <==> home@ == other@,
{
    let rest = home_model(None);
    let s = home_model(Some(home));
    let t = home_model(Some(other));
    assert(rest =~= "/.local/share/whisper-cpp/models/ggml-large-v3-turbo.bin"@);
    assert(s.take(home@.len() as int) =~= home@);
    assert(t.take(other@.len() as int) =~= other@);
}

/// What was read is used whole. A file without a transcription and one that cannot be read are told
/// apart, and the latter with the reason.
pub proof fn what_was_read_is_used(segments: Seq<Option<Seq<RawTokenView>>>, e: Seq<char>)
    ensures
        pieces(Ok(Some(segments))) == Ok::<Seq<TokenView>, Seq<char>>(all_tokens(segments)),
        pieces(Ok(None)) == Err::<Seq<TokenView>, Seq<char>>(
            "No transcription array in whisper output"@,
        ),
        pieces(Err(e)) == Err::<Seq<TokenView>, Seq<char>>("Failed to parse whisper JSON: "@ + e),
{
}

/// Tokens are seen with all their parts, as read and as heard, and a list of them in its order.
pub proof fn tokens_are_their_parts(t: WhisperToken, raw: RawToken, list: Seq<WhisperToken>, i: int)
    ensures
        t@.text == t.text@,
        t.from matches Some(s) ==> t@.from == Some(s@),
        t.from is None ==> t@.from is None,
        raw.text matches Some(s) ==> raw@.text == Some(s@),
        raw.text is None ==> raw@.text is None,
        raw.from matches Some(s) ==> raw@.from == Some(s@),
        raw.from is None ==> raw@.from is None,
        token_views(list).len() == list.len(),
        0 <= i < list.len() ==> token_views(list)[i] == list[i]@,
{
}

} // verus!
