use rubberdux::channel::adapter::markup::serialize_node;
use rubberdux::channel::adapter::telegram::{
    available_reactions, channel_prompt, format_reaction_section, inject_assistant_message_id,
    plan_outbound, reaction_changes, AllowedReaction, EntryCache, OutboundRun, DEFAULT_REACTIONS,
};
use rubberdux::channel::adapter::telegram_reaction_tool::{
    name, plan_parsed, plan_reaction, reaction_outcome, ReactionRequest,
};
use rubberdux::conversation::{Entry, EntryOrigin, Message, TelegramMetadata, UserContent};

#[test]
fn test_inject_id_into_existing_telegram_tag() {
    let mut text =
        "<telegram-message from=\"assistant\" to=\"user\">Hello!</telegram-message>".to_owned();
    inject_assistant_message_id(&mut text, 73);

    assert_eq!(
        text,
        "<telegram-message from=\"assistant\" to=\"user\" id=\"73\">Hello!</telegram-message>"
    );
    assert_eq!(text.matches("<telegram-message").count(), 1);
    assert_eq!(text.matches("</telegram-message>").count(), 1);
}

#[test]
fn test_inject_id_wraps_plain_text() {
    let mut text = "Hello!".to_owned();
    inject_assistant_message_id(&mut text, 73);

    assert_eq!(
        text,
        "<telegram-message from=\"assistant\" to=\"user\" id=\"73\">Hello!</telegram-message>"
    );
}

#[test]
fn test_inject_id_does_not_double_nest() {
    let mut text =
        "<telegram-message from=\"assistant\" to=\"user\">Some content</telegram-message>"
            .to_owned();
    inject_assistant_message_id(&mut text, 42);

    assert_eq!(text.matches("<telegram-message").count(), 1);
    assert_eq!(text.matches("</telegram-message>").count(), 1);
    assert!(text.contains("id=\"42\""));
}

#[test]
fn test_inject_id_idempotent_when_called_twice() {
    let mut text =
        "<telegram-message from=\"assistant\" to=\"user\">Hello!</telegram-message>".to_owned();
    inject_assistant_message_id(&mut text, 106);
    inject_assistant_message_id(&mut text, 106);

    assert_eq!(
        text.matches("<telegram-message").count(),
        1,
        "Double injection created nested tags: {}",
        text
    );
    assert_eq!(text.matches("</telegram-message>").count(), 1);
    assert!(text.contains("id=\"106\""));
}

#[test]
fn test_inject_id_preserves_content_with_inner_tags() {
    let mut text = "<telegram-message from=\"assistant\" to=\"user\">Here is a <b>bold</b> word</telegram-message>".to_owned();
    inject_assistant_message_id(&mut text, 99);

    assert!(text.contains("id=\"99\""));
    assert!(text.contains("<b>bold</b>"));
    assert_eq!(text.matches("<telegram-message").count(), 1);
}

#[test]
fn test_inject_id_into_history_modifies_in_place() {
    let mut history = vec![
        Message::User {
            content: UserContent::Text("Hello".into()),
        },
        Message::Assistant {
            content: Some(
                "<telegram-message from=\"assistant\" to=\"user\">Hi there!</telegram-message>"
                    .into(),
            ),
            reasoning_content: None,
            tool_calls: None,
            partial: None,
        },
    ];

    if let Some(Message::Assistant { content, .. }) = history.get_mut(1) {
        if let Some(text) = content {
            inject_assistant_message_id(text, 55);
        }
    }

    let asst_content = history[1].content_text();
    assert!(asst_content.contains("id=\"55\""));
    assert_eq!(asst_content.matches("<telegram-message").count(), 1);

    assert_eq!(history.len(), 2);
}

#[test]
fn test_find_telegram_context_simple_chain() {
    let mut cache = EntryCache::new();
    cache.insert(Entry {
        id: 0,
        parent_id: None,
        message: Message::User {
            content: UserContent::Text("hi".into()),
        },
        origin: EntryOrigin::User {
            channel: "telegram".into(),
        },
        channel_metadata: Some(TelegramMetadata { chat_id: Some(12345), message_id: Some(99) }),
    });
    let reply = Entry {
        id: 1,
        parent_id: Some(0),
        message: Message::Assistant {
            content: Some("hello".into()),
            reasoning_content: None,
            tool_calls: None,
            partial: None,
        },
        origin: EntryOrigin::Assistant,
        channel_metadata: None,
    };
    cache.insert(reply.clone());

    let (chat_id, msg_id) = cache.find_telegram_context(&reply);
    assert_eq!(chat_id, Some(12345));
    assert_eq!(msg_id, Some(99));
}

#[test]
fn test_find_telegram_context_no_parent() {
    let cache = EntryCache::new();
    let entry = Entry {
        id: 5,
        parent_id: Some(999),
        message: Message::Assistant {
            content: Some("lost".into()),
            reasoning_content: None,
            tool_calls: None,
            partial: None,
        },
        origin: EntryOrigin::Assistant,
        channel_metadata: None,
    };
    let (chat_id, msg_id) = cache.find_telegram_context(&entry);
    assert_eq!(chat_id, None);
    assert_eq!(msg_id, None);
}

#[test]
fn test_find_telegram_context_non_telegram_origin() {
    let mut cache = EntryCache::new();
    cache.insert(Entry {
        id: 0,
        parent_id: None,
        message: Message::User {
            content: UserContent::Text("hi".into()),
        },
        origin: EntryOrigin::User {
            channel: "gateway".into(),
        },
        channel_metadata: None,
    });
    let reply = Entry {
        id: 1,
        parent_id: Some(0),
        message: Message::Assistant {
            content: Some("hello".into()),
            reasoning_content: None,
            tool_calls: None,
            partial: None,
        },
        origin: EntryOrigin::Assistant,
        channel_metadata: None,
    };
    cache.insert(reply.clone());

    let (chat_id, _) = cache.find_telegram_context(&reply);
    assert_eq!(chat_id, None);
}

#[test]
fn test_reaction_tool_definition_valid() {
    assert_eq!(name(), "telegram_reaction");
}

#[test]
fn test_reaction_tool_rejects_missing_emoji() {
    let outcome = plan_reaction(r#"{"action": "set", "message_id": 42}"#, None);
    match outcome {
        Err(o) => assert!(o.is_error),
        Ok(_) => panic!("expected an error"),
    }
}

#[test]
fn test_reaction_tool_rejects_missing_message_id() {
    let outcome = plan_reaction(r#"{"action": "set", "emoji": "👍"}"#, None);
    match outcome {
        Err(o) => assert!(o.is_error),
        Ok(_) => panic!("expected an error"),
    }
}

#[test]
fn test_reaction_tool_rejects_no_chat_id() {
    let outcome =
        plan_reaction(r#"{"action": "set", "emoji": "👍", "message_id": 42}"#, None);
    match outcome {
        Err(o) => {
            assert!(o.is_error);
            assert!(
                o.content.contains("No active Telegram chat"),
                "Expected 'No active Telegram chat' in: {}",
                o.content
            );
        }
        Ok(_) => panic!("expected an error"),
    }
}

#[test]
fn a_whole_reaction_is_planned() {
    let set = plan_reaction(r#"{"action":"set","emoji":"x","message_id":42}"#, Some(-7)).unwrap();
    assert_eq!(set, ReactionRequest { chat_id: -7, message_id: 42, emoji: Some("x".into()) });
    let unset = plan_reaction(r#"{"action":"unset","emoji":"x","message_id":42}"#, Some(-7)).unwrap();
    assert_eq!(unset.emoji, None);
    match plan_reaction("not json", Some(1)) {
        Err(o) => assert!(o.content.starts_with("Failed to parse arguments: ")),
        Ok(_) => panic!("expected an error"),
    }
    match plan_parsed(Err("boom".to_string()), Some(1)) {
        Err(o) => assert_eq!(o.content, "Failed to parse arguments: boom"),
        Ok(_) => panic!("expected an error"),
    }
}

#[test]
fn a_reactions_outcome_is_told() {
    let request = ReactionRequest { chat_id: 1, message_id: 5, emoji: Some("x".into()) };
    let good = reaction_outcome(&request, &Ok(()));
    assert!(!good.is_error);
    assert_eq!(good.content, "Reaction x on message 5");
    let removed = ReactionRequest { emoji: None, ..request.clone() };
    assert_eq!(reaction_outcome(&removed, &Ok(())).content, "Reaction removed on message 5");
    let bad = reaction_outcome(&request, &Err("no".to_string()));
    assert!(bad.is_error);
    assert_eq!(bad.content, "Failed to set reaction: no");
}

#[test]
fn a_second_id_changes_nothing() {
    let mut text = "Thinking. <telegram-message from=\"assistant\" to=\"user\">Hi</telegram-message>"
        .to_owned();
    inject_assistant_message_id(&mut text, 1);
    let once = text.clone();
    inject_assistant_message_id(&mut text, 2);
    assert_eq!(text, once);
    assert!(once.contains("id=\"1\""));
}

#[test]
fn only_the_assistants_replies_go_out() {
    let said = "Hm. <telegram-message from=\"assistant\" to=\"user\">a.b</telegram-message> end";
    let plan = plan_outbound(&EntryOrigin::Assistant, Some(9), Some(4), said);
    assert_eq!(plan.len(), 1);
    assert_eq!(plan[0].chat_id, 9);
    assert_eq!(plan[0].plain, "a.b");
    assert_eq!(plan[0].formatted, rubberdux::markdown::telegram::format("a.b"));
    assert_eq!(plan[0].reply_to, Some(4));
    assert!(plan_outbound(&EntryOrigin::System, Some(9), None, said).is_empty());
    assert!(plan_outbound(&EntryOrigin::Assistant, None, None, said).is_empty());
    assert!(plan_outbound(&EntryOrigin::Assistant, Some(9), None, "nothing").is_empty());
}

#[test]
fn reactions_have_defaults() {
    assert_eq!(available_reactions(&None).len(), DEFAULT_REACTIONS.len());
    let named = vec![AllowedReaction::Emoji("x".into()), AllowedReaction::Other];
    assert_eq!(available_reactions(&Some(named)), vec!["x".to_string()]);
    let section = format_reaction_section(&vec!["a".to_string(), "b".to_string()]);
    assert!(section.starts_with("## Reactions\n\nAvailable reaction emojis: a b\n\nGuidelines:\n"));
    assert!(section.ends_with("they will be rejected by Telegram."));
    assert!(channel_prompt().contains("<telegram-message"));
}

#[test]
fn a_rejected_message_is_sent_as_plain_text() {
    let said = "<telegram-message from=\"assistant\" to=\"user\">a.b</telegram-message>\
                <telegram-message from=\"assistant\" to=\"user\">c</telegram-message>";
    let plan = plan_outbound(&EntryOrigin::Assistant, Some(9), None, said);
    assert_eq!(plan.len(), 2);
    let mut message = Message::said(said.into());
    let mut run = OutboundRun::new(plan);
    assert_eq!(run.next().map(|(m, plain)| (m.plain.clone(), plain)), Some(("a.b".into(), false)));
    run.advance(None, &mut message);
    assert_eq!(run.next().map(|(m, plain)| (m.plain.clone(), plain)), Some(("a.b".into(), true)));
    run.advance(Some(5), &mut message);
    assert!(message.content_text().contains("id=\"5\""));
    assert_eq!(run.next().map(|(m, plain)| (m.plain.clone(), plain)), Some(("c".into(), false)));
    run.advance(None, &mut message);
    run.advance(None, &mut message);
    assert!(run.next().is_none());
    let before = message.clone();
    run.advance(Some(6), &mut message);
    assert_eq!(message, before);
}

#[test]
fn an_id_is_noted_once_whatever_text_stands_before_the_reply() {
    for before in [
        "",
        "a < b and then <",
        "`<telegram-message from=\"x\"` said it ",
        "<telegram-message> is the tag, <telegram-message/> is none: ",
        "<telegram-reaction emoji=\"x\"/> lacks something: ",
        "<telegram-reaction from=\"user\" action=\"set\" emoji=\"x\" message-id=\"1\"/> and <",
    ] {
        let reply = "<telegram-message from=\"assistant\" to=\"user\">Hello!</telegram-message>";
        let mut text = format!("{}{}", before, reply);
        inject_assistant_message_id(&mut text, 106);
        let once = text.clone();
        assert!(once.contains("to=\"user\" id=\"106\">Hello!</telegram-message>"), "{}", once);
        inject_assistant_message_id(&mut text, 107);
        assert_eq!(text, once);
    }
}

#[test]
fn a_circle_of_parents_is_seen() {
    let entry = |id: usize, parent_id: Option<usize>| Entry {
        id,
        parent_id,
        message: Message::said(String::new()),
        origin: EntryOrigin::Assistant,
        channel_metadata: None,
    };
    let mut cache = EntryCache::new();
    cache.insert(entry(0, None));
    cache.insert(entry(1, Some(0)));
    cache.insert(entry(2, Some(3)));
    cache.insert(entry(3, Some(2)));
    assert_eq!(cache.len(), 4);
    assert!(cache.climbs_within(&entry(1, Some(0)), cache.len()));
    assert!(!cache.climbs_within(&entry(1, Some(0)), 0));
    assert!(!cache.climbs_within(&entry(3, Some(2)), cache.len()));
}

#[test]
fn changed_reactions_are_told() {
    let before = vec!["a".to_string(), "b".to_string()];
    let after = vec!["b".to_string(), "c".to_string()];
    let told: Vec<String> =
        reaction_changes(&before, &after, 7, "then").iter().map(serialize_node).collect();
    let element = |action: &str, emoji: &str| {
        format!(
            "<telegram-reaction from=\"user\" action=\"{}\" emoji=\"{}\" message-id=\"7\" date=\"then\" />",
            action, emoji
        )
    };
    assert_eq!(told, vec![element("unset", "a"), element("set", "c")]);
    assert!(reaction_changes(&before, &before, 7, "then").is_empty());
}
