use rubberdux::channel::adapter::markup::{
    parse, serialize, serialize_node, Document, MessageElement, Node, ReactionElement,
};
use rubberdux::channel::adapter::parser::{parse_model_output, Segment};

#[test]
fn test_parse_plain_text() {
    let doc = parse("Just thinking here.");
    assert_eq!(doc.nodes.len(), 1);
    assert!(matches!(&doc.nodes[0], Node::Text(t) if t == "Just thinking here."));
}

#[test]
fn test_parse_message_with_all_attrs() {
    let input = "<telegram-message from=\"user\" to=\"assistant\" id=\"5\" date=\"1234567890\">Hello</telegram-message>";
    let doc = parse(input);
    assert_eq!(doc.nodes.len(), 1);
    let Node::Message(el) = &doc.nodes[0] else { panic!("expected Message") };
    assert_eq!(el.from, "user");
    assert_eq!(el.to, "assistant");
    assert_eq!(el.id.as_deref(), Some("5"));
    assert_eq!(el.date.as_deref(), Some("1234567890"));
    assert_eq!(el.content, "Hello");
}

#[test]
fn test_parse_message_without_optional_attrs() {
    let input = "<telegram-message from=\"assistant\" to=\"user\">Hello!</telegram-message>";
    let doc = parse(input);
    assert_eq!(doc.nodes.len(), 1);
    let Node::Message(el) = &doc.nodes[0] else { panic!("expected Message") };
    assert_eq!(el.id, None);
    assert_eq!(el.date, None);
    assert_eq!(el.content, "Hello!");
}

#[test]
fn test_parse_reaction() {
    let input = "<telegram-reaction from=\"assistant\" action=\"add\" emoji=\"👍\" message-id=\"42\" />";
    let doc = parse(input);
    assert_eq!(doc.nodes.len(), 1);
    let Node::Reaction(el) = &doc.nodes[0] else { panic!("expected Reaction") };
    assert_eq!(el.from, "assistant");
    assert_eq!(el.action, "add");
    assert_eq!(el.emoji, "👍");
    assert_eq!(el.message_id, "42");
    assert_eq!(el.date, None);
}

#[test]
fn test_parse_code_block_opaque() {
    let input = "```xml\n<telegram-message from=\"assistant\" to=\"user\">Not real</telegram-message>\n```";
    let doc = parse(input);
    assert!(!doc.nodes.iter().any(|n| matches!(n, Node::Message(_))));
}

#[test]
fn test_parse_inline_code_opaque() {
    let input = "Use `<telegram-message from=\"assistant\" to=\"user\">` to wrap replies.";
    let doc = parse(input);
    assert!(!doc.nodes.iter().any(|n| matches!(n, Node::Message(_))));
}

#[test]
fn test_round_trip_message() {
    let input = "<telegram-message from=\"assistant\" to=\"user\" id=\"73\">Hello!</telegram-message>";
    let doc = parse(input);
    let output = serialize(&doc);
    let doc2 = parse(&output);
    assert_eq!(doc, doc2);
}

#[test]
fn test_round_trip_reaction() {
    let input = "<telegram-reaction from=\"assistant\" action=\"add\" emoji=\"👍\" message-id=\"42\" />";
    let doc = parse(input);
    let output = serialize(&doc);
    let doc2 = parse(&output);
    assert_eq!(doc, doc2);
}

#[test]
fn test_malformed_tag_becomes_text() {
    let input = "<telegram-message from=\"assistant\"";
    let doc = parse(input);
    assert_eq!(doc.nodes.len(), 1);
    assert!(matches!(&doc.nodes[0], Node::Text(_)));
}

#[test]
fn test_mixed_nodes() {
    let input = "Let me think.\n<telegram-message from=\"assistant\" to=\"user\">Answer</telegram-message>\n<telegram-reaction from=\"assistant\" action=\"add\" emoji=\"👍\" message-id=\"1\" />";
    let doc = parse(input);
    assert_eq!(doc.nodes.len(), 4);
    assert!(matches!(&doc.nodes[0], Node::Text(_)));
    assert!(matches!(&doc.nodes[1], Node::Message(_)));
    assert!(matches!(&doc.nodes[2], Node::Text(t) if t == "\n"));
    assert!(matches!(&doc.nodes[3], Node::Reaction(_)));
}

#[test]
fn test_user_tags_parsed() {
    let input = "<telegram-message from=\"user\" to=\"assistant\" id=\"5\">Hello</telegram-message>";
    let doc = parse(input);
    assert_eq!(doc.nodes.len(), 1);
    let Node::Message(el) = &doc.nodes[0] else { panic!("expected Message") };
    assert_eq!(el.from, "user");
}

#[test]
fn test_plain_text_is_internal() {
    let segments = parse_model_output("Just thinking here.");
    assert_eq!(segments, vec![Segment::Internal("Just thinking here.".into())]);
}

#[test]
fn test_telegram_message_extracted() {
    let input = "<telegram-message from=\"assistant\" to=\"user\">Hello!</telegram-message>";
    let segments = parse_model_output(input);
    assert_eq!(segments, vec![Segment::TelegramMessage { content: "Hello!".into() }]);
}

#[test]
fn test_telegram_message_with_id_attribute() {
    let input = "<telegram-message from=\"assistant\" to=\"user\" id=\"73\">Hello!</telegram-message>";
    let segments = parse_model_output(input);
    assert_eq!(segments, vec![Segment::TelegramMessage { content: "Hello!".into() }]);
}

#[test]
fn test_telegram_message_with_surrounding_reasoning() {
    let input = "Let me think.\n<telegram-message from=\"assistant\" to=\"user\">The answer is 42.</telegram-message>\nDone reasoning.";
    let segments = parse_model_output(input);
    assert_eq!(segments.len(), 3);
    assert_eq!(segments[0], Segment::Internal("Let me think.".into()));
    assert_eq!(segments[1], Segment::TelegramMessage { content: "The answer is 42.".into() });
    assert_eq!(segments[2], Segment::Internal("Done reasoning.".into()));
}

#[test]
fn test_telegram_reaction_parsed() {
    let input = "<telegram-reaction from=\"assistant\" action=\"add\" emoji=\"👍\" message-id=\"42\" />";
    let segments = parse_model_output(input);
    assert_eq!(segments, vec![Segment::TelegramReaction { emoji: "👍".into(), message_id: 42 }]);
}

#[test]
fn test_message_and_reaction_together() {
    let input = "<telegram-reaction from=\"assistant\" action=\"add\" emoji=\"❤️\" message-id=\"10\" />\n<telegram-message from=\"assistant\" to=\"user\">Great question!</telegram-message>";
    let segments = parse_model_output(input);
    assert_eq!(segments.len(), 2);
    assert_eq!(segments[0], Segment::TelegramReaction { emoji: "❤️".into(), message_id: 10 });
    assert_eq!(segments[1], Segment::TelegramMessage { content: "Great question!".into() });
}

#[test]
fn test_code_block_not_parsed() {
    let input = "```xml\n<telegram-message from=\"assistant\" to=\"user\">Not a real tag</telegram-message>\n```";
    let segments = parse_model_output(input);
    assert_eq!(segments.len(), 1);
    assert!(matches!(&segments[0], Segment::Internal(_)));
    if let Segment::Internal(text) = &segments[0] {
        assert!(text.contains("<telegram-message"), "Code block content should be preserved as-is");
    }
}

#[test]
fn test_inline_code_not_parsed() {
    let input = "Use `<telegram-message from=\"assistant\" to=\"user\">` to wrap replies.";
    let segments = parse_model_output(input);
    assert_eq!(segments.len(), 1);
    assert!(matches!(&segments[0], Segment::Internal(_)));
}

#[test]
fn test_mixed_code_block_and_real_tag() {
    let input = "Here's an example:\n```\n<telegram-message from=\"assistant\" to=\"user\">fake</telegram-message>\n```\n<telegram-message from=\"assistant\" to=\"user\">Real reply here.</telegram-message>";
    let segments = parse_model_output(input);

    let messages: Vec<&Segment> = segments.iter()
        .filter(|s| matches!(s, Segment::TelegramMessage { .. }))
        .collect();

    assert_eq!(messages.len(), 1, "Only the real tag outside code block should be parsed");
    assert_eq!(messages[0], &Segment::TelegramMessage { content: "Real reply here.".into() });
}

#[test]
fn test_user_tags_ignored() {
    let input = "<telegram-message from=\"user\" to=\"assistant\" id=\"5\">Hello</telegram-message>";
    let segments = parse_model_output(input);
    assert_eq!(segments.len(), 1);
    assert!(matches!(&segments[0], Segment::Internal(_)));
}

#[test]
fn test_multiline_content_preserved() {
    let input = "<telegram-message from=\"assistant\" to=\"user\">Line 1\nLine 2\n**Bold**</telegram-message>";
    let segments = parse_model_output(input);
    assert_eq!(segments, vec![Segment::TelegramMessage {
        content: "Line 1\nLine 2\n**Bold**".into()
    }]);
}

#[test]
fn test_empty_input() {
    let segments = parse_model_output("");
    assert!(segments.is_empty());
}

#[test]
fn test_reaction_without_assistant_ignored() {
    let input = "<telegram-reaction from=\"user\" action=\"add\" emoji=\"👍\" message-id=\"1\" />";
    let segments = parse_model_output(input);
    assert!(segments.iter().all(|s| !matches!(s, Segment::TelegramReaction { .. })));
}

#[test]
fn elements_are_written_with_their_attributes() {
    let message = Node::Message(MessageElement {
        from: "user".into(),
        to: "assistant".into(),
        id: Some("5".into()),
        date: Some("9".into()),
        content: "Hi".into(),
    });
    assert_eq!(
        serialize_node(&message),
        "<telegram-message from=\"user\" to=\"assistant\" id=\"5\" date=\"9\">Hi</telegram-message>"
    );
    let reaction = Node::Reaction(ReactionElement {
        from: "assistant".into(),
        action: "add".into(),
        emoji: "x".into(),
        message_id: "3".into(),
        date: None,
    });
    assert_eq!(
        serialize_node(&reaction),
        "<telegram-reaction from=\"assistant\" action=\"add\" emoji=\"x\" message-id=\"3\" />"
    );
    let doc = Document { nodes: vec![Node::Text("a ".into()), message, reaction] };
    assert_eq!(parse(&serialize(&doc)), doc);
}

#[test]
fn a_reaction_needs_a_number() {
    let bad = "<telegram-reaction from=\"assistant\" action=\"add\" emoji=\"x\" message-id=\"nope\" />";
    assert!(parse_model_output(bad)
        .iter()
        .all(|s| !matches!(s, Segment::TelegramReaction { .. })));
    let large = "<telegram-reaction from=\"assistant\" action=\"add\" emoji=\"x\" message-id=\"2147483648\" />";
    assert!(parse_model_output(large)
        .iter()
        .all(|s| !matches!(s, Segment::TelegramReaction { .. })));
}

#[test]
fn blank_text_is_no_segment() {
    assert!(parse_model_output("  \n\t ").is_empty());
    assert_eq!(parse_model_output("  x "), vec![Segment::Internal("x".into())]);
}
