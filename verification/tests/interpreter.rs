use rubberdux::channel::interpreter::media::{
    document_is_media, interpret_animation, interpret_document, interpret_photo, interpret_video,
    largest_photo, PhotoSize,
};
use rubberdux::channel::interpreter::structured::{
    interpret_contact, interpret_dice, interpret_location, interpret_poll, interpret_sticker,
    interpret_venue,
};
use rubberdux::channel::interpreter::voice::{
    ffmpeg_arguments, interpret_audio, interpret_video_note, interpret_voice, parse_whisper_json,
    pieces_of, resolve_model_path, suffix, transcript, whisper_arguments, RawToken, Recording,
    Transcription, WhisperToken, BREW_MODEL_PATH,
};
use rubberdux::channel::interpreter::{interpret, Attachment, MessageKind};

#[test]
fn test_location_xml() {
    let (latitude, longitude) = (35.68f64, 139.76f64);
    let result = interpret_location(&format!("{}", latitude), &format!("{}", longitude));
    assert!(result.text.contains("<location"));
    assert!(result.text.contains("latitude=\"35.68\""));
    assert!(result.text.contains("longitude=\"139.76\""));
    assert!(result.text.ends_with("/>"));
    assert!(result.attachments.is_empty());
}

#[test]
fn test_contact_xml() {
    let result = interpret_contact("John", Some("Doe"), "+1234567890");
    assert!(result.text.contains("<contact"));
    assert!(result.text.contains("name=\"John Doe\""));
    assert!(result.text.contains("phone=\"+1234567890\""));
    let alone = interpret_contact("John", None, "+1");
    assert_eq!(alone.text, "<contact name=\"John\" phone=\"+1\" />");
}

#[test]
fn test_sticker_xml_format() {
    let xml = interpret_sticker(Some("😀")).text;
    assert!(xml.contains("<sticker"));
    assert!(xml.contains("emoji=\"😀\""));
    assert_eq!(xml, format!("<sticker emoji=\"{}\" />", "😀"));
}

#[test]
fn the_rest_is_spelled_out() {
    assert_eq!(
        interpret_venue("Cafe \"X\"", "Main St", "1.5", "-2").text,
        "<venue name=\"Cafe &quot;X&quot;\" address=\"Main St\" latitude=\"1.5\" longitude=\"-2\" />"
    );
    assert_eq!(
        interpret_poll("Tea?", &vec!["yes".to_string(), "no".to_string()]).text,
        "<poll question=\"Tea?\" options=\"yes, no\" />"
    );
    assert_eq!(interpret_dice("🎲", 6).text, "<dice emoji=\"🎲\" value=\"6\" />");
}

fn size(id: &str, width: u32, height: u32) -> PhotoSize {
    PhotoSize { file_id: id.into(), width, height }
}

#[test]
fn the_largest_photo_is_taken() {
    assert_eq!(largest_photo(&vec![]), None);
    let photos = vec![size("a", 10, 10), size("b", 20, 5), size("c", 9, 11)];
    assert_eq!(largest_photo(&photos), Some(1), "the last one of the largest");
    let huge = vec![size("a", u32::MAX, u32::MAX), size("b", 1, 1)];
    assert_eq!(largest_photo(&huge), Some(0));
}

fn image(base64: &str, mime: &str) -> Vec<Attachment> {
    vec![Attachment::Image { base64: base64.into(), mime_type: mime.into() }]
}

fn video(base64: &str, mime: &str) -> Vec<Attachment> {
    vec![Attachment::Video { base64: base64.into(), mime_type: mime.into() }]
}

#[test]
fn data_are_attached_in_base64() {
    for (bytes, text) in [
        (&b""[..], ""),
        (&b"f"[..], "Zg=="),
        (&b"fo"[..], "Zm8="),
        (&b"foo"[..], "Zm9v"),
        (&b"foobar"[..], "Zm9vYmFy"),
        (&[0xfb, 0xff, 0xfe][..], "+//+"),
    ] {
        let photo = interpret_photo(&Some(bytes.to_vec()), Some("hi"));
        assert_eq!(photo.text, "hi");
        assert_eq!(photo.attachments, image(text, "image/jpeg"));
    }
    assert!(interpret_photo(&None, None).attachments.is_empty());
    let data = Some(b"foo".to_vec());
    assert_eq!(
        interpret_video(&data, Some("video/webm"), None).attachments,
        video("Zm9v", "video/webm")
    );
    assert_eq!(
        interpret_animation(&data, Some("c")).attachments,
        video("Zm9v", "video/mp4")
    );
}

#[test]
fn documents_are_taken_by_their_type() {
    let data = Some(b"foo".to_vec());
    assert!(document_is_media(Some("image/png")));
    assert!(document_is_media(Some("video/mp4")));
    assert!(!document_is_media(Some("text/plain")));
    assert!(!document_is_media(None));
    assert_eq!(
        interpret_document(&data, Some("image/png"), Some("a.png"), None).attachments,
        image("Zm9v", "image/png")
    );
    assert_eq!(
        interpret_document(&data, Some("video/mp4"), None, None).attachments,
        video("Zm9v", "video/mp4")
    );
    assert_eq!(
        interpret_document(&None, Some("text/plain"), Some("a.txt"), Some("look")).text,
        "look\n<document filename=\"a.txt\" />"
    );
    assert_eq!(
        interpret_document(&None, None, None, None).text,
        "<document filename=\"unknown\" />"
    );
}

#[test]
fn the_first_kind_decides() {
    assert_eq!(interpret(&vec![]), None);
    assert_eq!(interpret(&vec![MessageKind::Sticker]), Some(MessageKind::Sticker));
    assert_eq!(
        interpret(&vec![MessageKind::Sticker, MessageKind::Photo]),
        Some(MessageKind::Photo)
    );
}

#[test]
fn recordings_are_written_down_or_excused() {
    assert_eq!(interpret_voice(Transcription::Done("said".into())).text, "said");
    assert_eq!(
        interpret_voice(Transcription::Done(String::new())).text,
        "<voice-transcript status=\"empty\" />"
    );
    assert_eq!(
        interpret_audio(Transcription::Failed).text,
        "<audio-transcript status=\"failed\" />"
    );
    assert_eq!(
        interpret_video_note(Transcription::NotDownloaded).text,
        "<video-note-transcript status=\"download-failed\" />"
    );
    assert_eq!(suffix(Recording::VideoNote), ".mp4");
    assert_eq!(suffix(Recording::Voice), ".ogg");
}

#[test]
fn the_model_is_found() {
    let home = Some("/home/u".to_string());
    let at_home = "/home/u/.local/share/whisper-cpp/models/ggml-large-v3-turbo.bin";
    assert_eq!(resolve_model_path(&Some("/m".into()), &home, true, true), "/m");
    assert_eq!(resolve_model_path(&None, &home, true, true), at_home);
    assert_eq!(resolve_model_path(&None, &home, false, true), BREW_MODEL_PATH);
    assert_eq!(resolve_model_path(&None, &home, false, false), at_home);
    assert_eq!(
        ffmpeg_arguments("in", "out"),
        vec!["-y", "-i", "in", "-ar", "16000", "-ac", "1", "-f", "wav", "out"]
    );
    let args = whisper_arguments("m", "auto", "o", "w");
    assert!(args.contains(&"m".to_string()));
    assert_eq!(args.last(), Some(&"w".to_string()));
}

#[test]
fn a_transcript_is_read_and_spelled_out() {
    let json = r#"{"transcription":[
        {"tokens":[{"text":"[_BEG_]","timestamps":{"from":"00:00:00,000"}},
                   {"text":" Hello","timestamps":{"from":"00:00:01,500"}}]},
        {"text":"no tokens"},
        {"tokens":[{"text":"there"},{"id":4}]}]}"#;
    let tokens = parse_whisper_json(json).unwrap();
    assert_eq!(tokens.len(), 4);
    assert_eq!(
        tokens[1],
        WhisperToken { text: " Hello".into(), from: Some("00:00:01,500".into()) }
    );
    assert_eq!(tokens[3], WhisperToken { text: String::new(), from: None });
    assert_eq!(
        transcript(&tokens),
        "<voice-transcript>\n<w t=\"00:00:01,500\">Hello</w>\nthere\n</voice-transcript>"
    );
    assert_eq!(
        parse_whisper_json("{}"),
        Err("No transcription array in whisper output".to_string())
    );
    match parse_whisper_json("nonsense") {
        Err(e) => assert!(e.starts_with("Failed to parse whisper JSON: "), "{}", e),
        Ok(_) => panic!("expected an error"),
    }
    let raw = RawToken { text: Some("a".into()), from: None };
    assert_eq!(
        pieces_of(Ok(Some(vec![None, Some(vec![raw])]))),
        Ok(vec![WhisperToken { text: "a".into(), from: None }])
    );
}
