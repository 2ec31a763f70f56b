use rubberdux::app::runtime::supervision::worker_arguments;
use rubberdux::app::AppId;
use rubberdux::child::{
    check_subagent_type, external_agent, find_share_dir, on_event, on_host_frame, shown_name,
    spawn_failure, EventStep, ExternalAgent, ExternalAgentEvent, HostStep,
};
use rubberdux::cli::{bot_token, flag_value, parse_mode, RunMode};
use rubberdux::error::Error;
use rubberdux::host::{main_system_prompt, session_model};
use rubberdux::name_map::NameMap;
use rubberdux::name_set::NameSet;
use rubberdux::protocol::{AgentInteraction, AgentToHost, HostToAgent, InteractionResponse};
use rubberdux::text;

#[test]
fn test_parse_mode_default_is_host() {
    let args = &["rubberduxd".to_string()];
    assert!(matches!(parse_mode(args), RunMode::Host));
}

#[test]
fn test_parse_mode_agent_flag() {
    let args: Vec<String> = vec![
        "rubberduxd".into(),
        "--agent".into(),
        "--rpc-host".into(),
        "1.2.3.4:19384".into(),
        "--task-id".into(),
        "t1".into(),
    ];
    match parse_mode(&args) {
        RunMode::Agent { rpc_host, task_id } => {
            assert_eq!(rpc_host, "1.2.3.4:19384");
            assert_eq!(task_id, "t1");
        }
        _ => panic!("expected RunMode::Agent"),
    }
}

#[test]
fn test_parse_mode_app_worker() {
    let args: Vec<String> = vec![
        "rubberduxd".into(),
        "--agent".into(),
        "--rpc-host".into(),
        "1.2.3.4:19384".into(),
        "--task-id".into(),
        "2026-06-10-00-00-00-UTC".into(),
        "--app-session-dir".into(),
        "/tmp/apps/app-1".into(),
    ];
    match parse_mode(&args) {
        RunMode::AppWorker { rpc_host, app_id, app_session_dir } => {
            assert_eq!(rpc_host, "1.2.3.4:19384");
            assert_eq!(app_id, "2026-06-10-00-00-00-UTC");
            assert_eq!(app_session_dir, "/tmp/apps/app-1");
        }
        _ => panic!("expected RunMode::AppWorker"),
    }
}

#[test]
fn test_parse_mode_agent_defaults() {
    let args: Vec<String> = vec!["rubberduxd".into(), "--agent".into()];
    match parse_mode(&args) {
        RunMode::Agent { rpc_host, task_id } => {
            assert_eq!(rpc_host, "127.0.0.1:19384");
            assert_eq!(task_id, "unknown");
        }
        _ => panic!("expected RunMode::Agent"),
    }
}

#[test]
fn a_workers_arguments_are_read_back() {
    let mut args = vec!["rubberduxd".to_string()];
    args.extend(worker_arguments("1.2.3.4:5", &AppId("app-1".into()), "/tmp/a"));
    match parse_mode(&args) {
        RunMode::AppWorker { rpc_host, app_id, app_session_dir } => {
            assert_eq!(rpc_host, "1.2.3.4:5");
            assert_eq!(app_id, "app-1");
            assert_eq!(app_session_dir, "/tmp/a");
        }
        _ => panic!("expected RunMode::AppWorker"),
    }
}

#[test]
fn a_flag_at_the_end_has_no_value() {
    let args: Vec<String> = vec!["x".into(), "--agent".into(), "--task-id".into()];
    assert_eq!(flag_value(&args, "--task-id"), None);
    assert_eq!(flag_value(&args, "x"), Some("--agent"));
    assert_eq!(bot_token(Some("t".into())), Some("t".to_string()));
    assert_eq!(bot_token(Some(String::new())), None);
    assert_eq!(bot_token(Some("  ".into())), None);
    assert_eq!(bot_token(None), None);
}

fn last_word(text: &str) -> AgentToHost {
    AgentToHost::Response {
        text: text.into(),
        entry_id: 0,
        is_final: true,
        reply_to_message_id: None,
    }
}

#[test]
fn a_child_knows_what_it_runs() {
    assert_eq!(find_share_dir(true), "/Volumes/My Shared Files");
    assert_eq!(find_share_dir(false), "/mnt/shared");
    assert_eq!(check_subagent_type(" external\n"), Ok(()));
    assert_eq!(
        check_subagent_type("explore"),
        Err(last_word("Child agent mode for 'explore' not yet implemented"))
    );
    assert_eq!(external_agent(&None), Ok(ExternalAgent::ClaudeCode));
    assert_eq!(external_agent(&Some("codex\n".into())), Ok(ExternalAgent::Codex));
    assert_eq!(
        external_agent(&Some("x".into())),
        Err(last_word("Unknown external agent name: x"))
    );
    assert_eq!(
        spawn_failure(ExternalAgent::Codex, "no"),
        last_word("Failed to spawn Codex session: no")
    );
    assert_eq!(shown_name(ExternalAgent::Codex), "Codex");
    let shown = shown_name(ExternalAgent::ClaudeCode);
    assert_eq!(shown.to_lowercase().replace(' ', "_"), "claude_code");
    let capitals: Vec<usize> = shown
        .char_indices()
        .filter(|(_, c)| c.is_uppercase())
        .map(|(i, _)| i)
        .collect();
    assert_eq!(capitals, vec![0, 7]);
}

#[test]
fn an_agents_events_are_told() {
    let question = AgentInteraction {
        app_id: "a".into(),
        request_id: "r".into(),
        body: "?".into(),
    };
    assert_eq!(
        on_event(Some(ExternalAgentEvent::UIInteraction(question.clone())), "t"),
        EventStep::Tell {
            frame: AgentToHost::ExternalInteraction { task_id: "t".into(), request: question }
        }
    );
    assert_eq!(
        on_event(Some(ExternalAgentEvent::Completed { result: "done".into() }), "t"),
        EventStep::TellAndStop { frame: last_word("done") }
    );
    assert_eq!(
        on_event(Some(ExternalAgentEvent::Failed { error: "no".into() }), "t"),
        EventStep::TellAndStop { frame: last_word("External agent failed: no") }
    );
    assert_eq!(
        on_event(Some(ExternalAgentEvent::Progress { message: "m".into() }), "t"),
        EventStep::Continue
    );
    assert_eq!(on_event(None, "t"), EventStep::Stop);
    let response = InteractionResponse { request_id: "r".into(), body: "y".into() };
    assert_eq!(
        on_host_frame(Some(HostToAgent::InteractionResponse {
            request_id: "r".into(),
            response: response.clone()
        })),
        HostStep::Forward { response }
    );
    assert_eq!(on_host_frame(Some(HostToAgent::Shutdown)), HostStep::Stop);
    assert_eq!(on_host_frame(None), HostStep::Stop);
}

#[test]
fn a_session_has_a_model_and_a_prompt() {
    assert_eq!(session_model(None), "kimi-for-coding");
    assert_eq!(session_model(Some("m".into())), "m");
    let prompt = main_system_prompt(vec!["one".into()], "guide".into());
    assert!(prompt.contains("one"));
    assert!(prompt.contains("guide"));
    assert!(prompt.contains("telegram"));
}

#[test]
fn errors_are_shown() {
    for (e, shown) in [
        (Error::Io("x".into()), "I/O error: x"),
        (Error::Json("x".into()), "JSON error: x"),
        (Error::Telegram("x".into()), "telegram error: x"),
        (Error::ProviderHttp("x".into()), "provider HTTP error: x"),
        (
            Error::ProviderApi { status: 429, body: "slow".into() },
            "provider API error (status 429): slow",
        ),
        (Error::Provider("x".into()), "provider error: x"),
        (Error::Subagent("x".into()), "subagent error: x"),
        (Error::ChannelClosed, "agent channel closed"),
        (Error::Rpc("x".into()), "RPC error: x"),
        (Error::Vm("x".into()), "VM error: x"),
        (Error::App("x".into()), "app error: x"),
        (Error::FrontMatter("x".into()), "front matter error: x"),
    ] {
        assert_eq!(e.message(), shown);
    }
}

#[test]
fn names_stand_for_values_once() {
    let mut m: NameMap<u32> = NameMap::new();
    m.insert("a", 1);
    m.insert("b", 2);
    m.insert("a", 3);
    assert_eq!(m.len(), 2);
    assert_eq!(m.get("a"), Some(&3));
    assert_eq!(m.remove("a"), Some(3));
    assert_eq!(m.remove("a"), None);
    assert!(!m.contains("a"));
    assert!(m.contains("b"));
    let mut s = NameSet::new();
    assert!(s.insert("a"));
    assert!(!s.insert("a"));
    assert!(s.contains("a"));
    assert!(s.remove("a"));
    assert!(!s.remove("a"));
}

#[test]
fn texts_are_taken_apart() {
    assert_eq!(text::trimmed(" \t\u{a0}a b\u{3000}\n"), "a b");
    assert_eq!(text::first_n("añb", 2), "añ");
    assert!(text::contains("hello", "ell"));
    assert!(text::contains("x", ""));
    assert!(!text::contains("", "x"));
    assert_eq!(text::replaced("a\"b", '"', "&quot;"), "a&quot;b");
    assert_eq!(text::joined_path("/a", "b"), "/a/b");
    assert_eq!(text::joined_path("/a/", "b"), "/a/b");
    assert_eq!(text::joined_path("/a", "/b"), "/b");
    assert_eq!(text::decimal_string(0), "0");
    assert_eq!(text::decimal_string(u64::MAX), "18446744073709551615");
    assert_eq!(text::decimal_int_string(i64::MIN), "-9223372036854775808");
    assert_eq!(text::read_i32("-2147483648"), Some(i32::MIN));
    assert_eq!(text::read_i32("2147483648"), None);
    assert_eq!(text::read_i32("+5"), Some(5));
    assert_eq!(text::read_i32(""), None);
    assert_eq!(text::read_unsigned("65535", 65535), Some(65535));
    assert_eq!(text::read_unsigned("65536", 65535), None);
    assert_eq!(text::read_unsigned("-1", 65535), None);
}
