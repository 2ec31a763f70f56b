use rubberdux::channel::adapter::telegram_guardrails::{convention, TelegramTagPairGuardrail};
use rubberdux::guardrail::{
    Content, Convention, ConventionRegistry, GuardrailChain, PostGuardrail, PostGuardrailAction,
    PostVerdict, PreGuardrail, PreGuardrailResult, PreVerdict,
};

#[test]
fn test_passed_complete_tags() {
    let g = TelegramTagPairGuardrail;
    let content =
        r#"<telegram-message from="assistant" to="user">Hello</telegram-message>"#;
    assert!(matches!(g.check(content), PostGuardrailAction::Passed));
}

#[test]
fn test_passed_no_tags() {
    let g = TelegramTagPairGuardrail;
    let content = "Just some internal reasoning text.";
    assert!(matches!(g.check(content), PostGuardrailAction::Passed));
}

#[test]
fn test_repaired_missing_close() {
    let g = TelegramTagPairGuardrail;
    let content = r#"<telegram-message from="assistant" to="user">Hello world"#;
    match g.check(content) {
        PostGuardrailAction::Repaired(repaired) => {
            assert!(repaired.ends_with("</telegram-message>"));
            assert!(repaired.contains("Hello world"));
        }
        other => panic!(
            "Expected Repaired, got {:?}",
            std::mem::discriminant(&other)
        ),
    }
}

#[test]
fn test_repaired_chinese_content() {
    let g = TelegramTagPairGuardrail;
    let content = r#"<telegram-message from="assistant" to="user">你好世界，这是一个很长的中文回复。半导体板块今日暴涨，华为发布韬定律。"#;
    match g.check(content) {
        PostGuardrailAction::Repaired(repaired) => {
            assert!(repaired.ends_with("</telegram-message>"));
            assert!(repaired.contains("半导体"));
        }
        other => panic!(
            "Expected Repaired, got {:?}",
            std::mem::discriminant(&other)
        ),
    }
}

#[test]
fn test_retry_malformed() {
    let g = TelegramTagPairGuardrail;
    let content = r#"<telegram-message>broken content without proper attributes"#;
    assert!(matches!(
        g.check(content),
        PostGuardrailAction::NeedsRetry
    ));
}

#[test]
fn test_convention_factory() {
    let conv = convention();
    assert_eq!(conv.name, "Telegram Message Format");
    assert!(!conv.guidance.is_empty());
    assert!(conv.guidance.contains("<telegram-message>"));
    assert!(conv.pre_guardrails.is_empty());
    assert_eq!(conv.post_guardrails.len(), 1);
    assert_eq!(conv.post_guardrails[0].name(), "telegram_tag_pair");
}

struct PassGuardrail;

impl PostGuardrail for PassGuardrail {
    fn verdict(&self, _content: Content) -> PostVerdict {
        unreachable!()
    }
    fn label(&self) -> Content {
        unreachable!()
    }
    fn name(&self) -> &str {
        "pass"
    }
    fn check(&self, _content: &str) -> PostGuardrailAction {
        PostGuardrailAction::Passed
    }
}

struct RepairGuardrail(String);

impl PostGuardrail for RepairGuardrail {
    fn verdict(&self, _content: Content) -> PostVerdict {
        unreachable!()
    }
    fn label(&self) -> Content {
        unreachable!()
    }
    fn name(&self) -> &str {
        "repair"
    }
    fn check(&self, content: &str) -> PostGuardrailAction {
        PostGuardrailAction::Repaired(format!("{}{}", content, self.0))
    }
}

struct RetryGuardrail;

impl PostGuardrail for RetryGuardrail {
    fn verdict(&self, _content: Content) -> PostVerdict {
        unreachable!()
    }
    fn label(&self) -> Content {
        unreachable!()
    }
    fn name(&self) -> &str {
        "retry"
    }
    fn check(&self, _content: &str) -> PostGuardrailAction {
        PostGuardrailAction::NeedsRetry
    }
}


struct PrePassGuardrail;

impl PreGuardrail for PrePassGuardrail {
    fn verdict(&self, _content: Content) -> PreVerdict {
        unreachable!()
    }
    fn label(&self) -> Content {
        unreachable!()
    }
    fn name(&self) -> &str {
        "pre_pass"
    }
    fn check(&self, _content: &str) -> PreGuardrailResult {
        PreGuardrailResult::Passed
    }
}

struct PreWarnGuardrail(String);

impl PreGuardrail for PreWarnGuardrail {
    fn verdict(&self, _content: Content) -> PreVerdict {
        unreachable!()
    }
    fn label(&self) -> Content {
        unreachable!()
    }
    fn name(&self) -> &str {
        "pre_warn"
    }
    fn check(&self, _content: &str) -> PreGuardrailResult {
        PreGuardrailResult::Warning(self.0.clone())
    }
}

struct PreErrorGuardrail(String);

impl PreGuardrail for PreErrorGuardrail {
    fn verdict(&self, _content: Content) -> PreVerdict {
        unreachable!()
    }
    fn label(&self) -> Content {
        unreachable!()
    }
    fn name(&self) -> &str {
        "pre_error"
    }
    fn check(&self, _content: &str) -> PreGuardrailResult {
        PreGuardrailResult::Error(self.0.clone())
    }
}


#[test]
fn test_post_chain_all_pass() {
    let mut chain = GuardrailChain::new();
    chain.add_post(Box::new(PassGuardrail));
    chain.add_post(Box::new(PassGuardrail));
    match chain.run_post("hello") {
        PostGuardrailAction::Passed => {}
        other => panic!("expected Passed, got {:?}", action_name(&other)),
    }
}

#[test]
fn test_post_chain_repair_cascades() {
    let mut chain = GuardrailChain::new();
    chain.add_post(Box::new(RepairGuardrail("X".to_string())));
    chain.add_post(Box::new(PassGuardrail));
    match chain.run_post("hello") {
        PostGuardrailAction::Repaired(s) => {
            assert!(s.contains("X"), "repaired content should contain X");
            assert_eq!(s, "helloX");
        }
        other => panic!("expected Repaired, got {:?}", action_name(&other)),
    }
}

#[test]
fn test_post_chain_retry_stops() {
    let mut chain = GuardrailChain::new();
    chain.add_post(Box::new(RetryGuardrail));
    chain.add_post(Box::new(PassGuardrail));
    match chain.run_post("hello") {
        PostGuardrailAction::NeedsRetry => {}
        other => panic!("expected NeedsRetry, got {:?}", action_name(&other)),
    }

    let mut chain2 = GuardrailChain::new();
    chain2.add_post(Box::new(RetryGuardrail));
    chain2.add_post(Box::new(RetryGuardrail));
    match chain2.run_post("hello") {
        PostGuardrailAction::NeedsRetry => {}
        other => panic!("expected NeedsRetry, got {:?}", action_name(&other)),
    }
}

#[test]
fn test_post_chain_repair_then_retry() {
    let mut chain = GuardrailChain::new();
    chain.add_post(Box::new(RepairGuardrail("X".to_string())));
    chain.add_post(Box::new(RetryGuardrail));
    match chain.run_post("hello") {
        PostGuardrailAction::NeedsRetry => {}
        other => panic!("expected NeedsRetry, got {:?}", action_name(&other)),
    }
}


#[test]
fn test_pre_chain_all_pass() {
    let mut chain = GuardrailChain::new();
    chain.add_pre(Box::new(PrePassGuardrail));
    chain.add_pre(Box::new(PrePassGuardrail));
    assert!(chain.run_pre("hello").is_ok());
}

#[test]
fn test_pre_chain_error_blocks() {
    let mut chain = GuardrailChain::new();
    chain.add_pre(Box::new(PrePassGuardrail));
    chain.add_pre(Box::new(PreErrorGuardrail("blocked".to_string())));
    let result = chain.run_pre("hello");
    assert!(result.is_err());
    assert_eq!(result.unwrap_err(), "blocked");
}

#[test]
fn test_pre_chain_warning_continues() {
    let mut chain = GuardrailChain::new();
    chain.add_pre(Box::new(PreWarnGuardrail("caution".to_string())));
    chain.add_pre(Box::new(PrePassGuardrail));
    assert!(chain.run_pre("hello").is_ok());
}

fn action_name(action: &PostGuardrailAction) -> &'static str {
    match action {
        PostGuardrailAction::Passed => "Passed",
        PostGuardrailAction::Repaired(_) => "Repaired",
        PostGuardrailAction::NeedsRetry => "NeedsRetry",
    }
}


#[test]
fn test_registry_compose_guidance() {
    let mut registry = ConventionRegistry::new();
    registry.register(Convention {
        name: "Alpha".into(),
        guidance: "Do alpha things.".into(),
        pre_guardrails: vec![],
        post_guardrails: vec![],
    });
    registry.register(Convention {
        name: "Beta".into(),
        guidance: "Do beta things.".into(),
        pre_guardrails: vec![],
        post_guardrails: vec![],
    });
    let guidance = registry.compose_guidance();
    assert!(guidance.contains("### Alpha"));
    assert!(guidance.contains("Do alpha things."));
    assert!(guidance.contains("### Beta"));
    assert!(guidance.contains("Do beta things."));
}

#[test]
fn test_registry_compose_guidance_empty() {
    let registry = ConventionRegistry::new();
    assert_eq!(registry.compose_guidance(), "");
}

#[test]
fn test_registry_build_chain_collects_post() {
    let mut registry = ConventionRegistry::new();
    registry.register(Convention {
        name: "Test".into(),
        guidance: "".into(),
        pre_guardrails: vec![],
        post_guardrails: vec![Box::new(RepairGuardrail("_fixed".into()))],
    });
    let chain = registry.build_guardrail_chain();
    match chain.run_post("input") {
        PostGuardrailAction::Repaired(s) => assert_eq!(s, "input_fixed"),
        other => panic!(
            "Expected Repaired, got {:?}",
            std::mem::discriminant(&other)
        ),
    }
}

#[test]
fn test_registry_build_chain_collects_pre() {
    let mut registry = ConventionRegistry::new();
    registry.register(Convention {
        name: "Test".into(),
        guidance: "".into(),
        pre_guardrails: vec![Box::new(PreErrorGuardrail("blocked".into()))],
        post_guardrails: vec![],
    });
    let chain = registry.build_guardrail_chain();
    assert!(chain.run_pre("input").is_err());
}

#[test]
fn test_registry_build_chain_empty() {
    let registry = ConventionRegistry::new();
    let chain = registry.build_guardrail_chain();
    assert!(matches!(
        chain.run_post("input"),
        PostGuardrailAction::Passed
    ));
    assert!(chain.run_pre("input").is_ok());
}

#[test]
fn a_repaired_output_passes() {
    let g = TelegramTagPairGuardrail;
    let content = r#"<telegram-message from="assistant" to="user">Hello world"#;
    match g.check(content) {
        PostGuardrailAction::Repaired(repaired) => {
            assert!(matches!(g.check(&repaired), PostGuardrailAction::Passed))
        }
        _ => panic!("expected a repair"),
    }
}

struct Note;

impl PreGuardrail for Note {
    fn verdict(&self, _content: Content) -> PreVerdict {
        unreachable!()
    }
    fn label(&self) -> Content {
        unreachable!()
    }
    fn name(&self) -> &str {
        "note"
    }
    fn check(&self, _content: &str) -> PreGuardrailResult {
        PreGuardrailResult::Info("fyi".to_string())
    }
}

#[test]
fn notes_do_not_block() {
    let mut chain = GuardrailChain::new();
    chain.add_pre(Box::new(Note));
    assert!(chain.run_pre("x").is_ok());
}

#[test]
fn guidance_sections_are_apart() {
    let mut registry = ConventionRegistry::new();
    for name in ["A", "B"] {
        registry.register(Convention {
            name: name.into(),
            guidance: "g".into(),
            pre_guardrails: vec![],
            post_guardrails: vec![],
        });
    }
    assert_eq!(registry.compose_guidance(), "### A\n\ng\n\n### B\n\ng");
}
