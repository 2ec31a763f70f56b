use rubberdux::app::merge::clustering::{LlmClusterer, ModelAnswer, ModelApi};
use rubberdux::app::merge::{ClusterDecision, Clusterer};
use rubberdux::app::registry::store::{FilesystemAppStore, MergeDecisionKind};
use rubberdux::app::supervisor::{BoardEvent, CreateAppRequest, MemorySupervisor};
use rubberdux::app::{App, AppId, AppStatus, BoardPosition, IconSpec};
use rubberdux::conversation::{
    Entry, EntryOrigin, FunctionCall, Message, ToolCall, UserContent,
};
use rubberdux::error::Error;
use rubberdux::gateway::apps::{
    answers, consult_clusterer, create_request, found, get_app, list_apps, merge_candidates,
    merge_plan, requested_move, success_status, AppDto, BoardPositionDto, BoardRequest,
    CreateAppBody, MergePlan, PatchAppBody,
};
use rubberdux::gateway::apps_stream::{
    after_response, badge, interaction_message, on_board_event, on_board_interaction,
    on_interaction_event, on_interaction_socket, open_interactions, project_board_event, replay,
    BoardWsMessage, InboundStep, InteractionEvent, InteractionInbound, InteractionWsMessage,
};
use rubberdux::gateway::error::{
    GatewayError, STATUS_ACCEPTED, STATUS_BAD_GATEWAY, STATUS_INTERNAL_SERVER_ERROR,
    STATUS_NOT_FOUND,
};
use rubberdux::gateway::route::{get_entry, list_entries, list_tool_calls, ListEntriesParams};
use rubberdux::gateway::server::gateway_port;
use rubberdux::gateway::state::GatewayState;
use rubberdux::gateway::stream::{
    chat_step, stream_step, ChatInboundMessage, ChatStep, SocketEvent, StreamEvent, StreamStep,
};
use rubberdux::protocol::{AgentInteraction, InteractionResponse};

fn entry(id: usize, parent_id: Option<usize>, message: Message) -> Entry {
    Entry { id, parent_id, message, origin: EntryOrigin::System, channel_metadata: None }
}

fn user(text: &str) -> Message {
    Message::User { content: UserContent::Text(text.into()) }
}

#[test]
fn test_new_creates_empty_state() {
    let state = GatewayState::new("system".into(), "identity".into(), "soul".into());
    assert!(state.entries.is_empty());
    assert_eq!(state.system_prompt, "system");
    assert_eq!(state.identity_prompt, "identity");
    assert_eq!(state.soul_prompt, "soul");
}

#[test]
fn test_push_entry_updates_state() {
    let mut state = GatewayState::new("sys".into(), "id".into(), "soul".into());
    state.mirror(Entry {
        id: 0,
        parent_id: None,
        message: user("hello"),
        origin: EntryOrigin::User { channel: "test".into() },
        channel_metadata: None,
    });
    assert_eq!(state.entries.len(), 1);
    assert_eq!(state.entries[0].id, 0);
    assert_eq!(state.entries[0].message.content_text(), "hello");
}

fn test_state() -> GatewayState {
    let mut state = GatewayState::new(
        "You are helpful.".into(),
        "You are an AI assistant.".into(),
        "Be kind and thoughtful.".into(),
    );
    state.entries = vec![
        entry(0, None, Message::System { content: "You are helpful.".into() }),
        entry(1, None, user("Hello")),
        entry(
            2,
            Some(1),
            Message::Assistant {
                content: Some("Let me look that up.".into()),
                reasoning_content: None,
                tool_calls: Some(vec![ToolCall {
                    index: Some(0),
                    id: "call_abc".into(),
                    kind: "function".into(),
                    function: FunctionCall {
                        name: "web_fetch".into(),
                        arguments: r#"{"url":"https://example.com"}"#.into(),
                    },
                    depends_on: None,
                }]),
                partial: None,
            },
        ),
        entry(
            3,
            Some(2),
            Message::Tool {
                tool_call_id: "call_abc".into(),
                name: None,
                content: "Example Domain page content".into(),
            },
        ),
    ];
    state
}

fn ids(entries: &Vec<Entry>, role: Option<&str>, since_id: Option<usize>) -> Vec<usize> {
    let params = ListEntriesParams { role: role.map(|r| r.to_string()), since_id };
    list_entries(entries, &params).iter().map(|e| e.id).collect()
}

#[test]
fn test_list_entries_empty() {
    let state = GatewayState::new("sys".into(), "id".into(), "soul".into());
    assert!(ids(&state.entries, None, None).is_empty());
}

#[test]
fn test_list_entries_with_data() {
    let state = test_state();
    let listed = ids(&state.entries, None, None);
    assert_eq!(listed.len(), 4);
    assert_eq!(listed[0], 0);
    assert_eq!(listed[3], 3);
}

#[test]
fn test_list_entries_filter_role() {
    let state = test_state();
    assert_eq!(ids(&state.entries, Some("user"), None), vec![1]);
    assert_eq!(ids(&state.entries, Some("assistant"), None), vec![2]);
    assert_eq!(ids(&state.entries, Some("tool"), None), vec![3]);
    assert_eq!(ids(&state.entries, Some("nobody"), None), Vec::<usize>::new());
    assert_eq!(ids(&state.entries, None, Some(1)), vec![2, 3]);
}

#[test]
fn test_get_entry_found() {
    let state = test_state();
    let got = get_entry(&state.entries, 1).unwrap();
    assert_eq!(got.id, 1);
    assert_eq!(got.message, user("Hello"));
}

#[test]
fn test_get_entry_not_found() {
    let state = test_state();
    let e = get_entry(&state.entries, 999).unwrap_err();
    assert_eq!(e.status(), STATUS_NOT_FOUND);
}

#[test]
fn test_get_system_prompt() {
    assert_eq!(test_state().system_prompt, "You are helpful.");
}

#[test]
fn test_get_identity_prompt() {
    assert_eq!(test_state().identity_prompt, "You are an AI assistant.");
}

#[test]
fn test_get_soul_prompt() {
    assert_eq!(test_state().soul_prompt, "Be kind and thoughtful.");
}

#[test]
fn test_list_tool_calls() {
    let state = test_state();
    let tool_calls = list_tool_calls(&state.entries);
    assert_eq!(tool_calls.len(), 1);
    let pair = &tool_calls[0];
    assert_eq!(pair.entry_id, 2);
    assert_eq!(pair.call.id, "call_abc");
    assert_eq!(pair.call.function.name, "web_fetch");
    let result = pair.result.as_ref().unwrap();
    assert_eq!(result.entry_id, 3);
    assert_eq!(result.tool_call_id, "call_abc");
    assert_eq!(result.content, "Example Domain page content");
}

#[test]
fn a_call_is_listed_with_all_its_parts() {
    let mut state = test_state();
    let call = ToolCall {
        index: Some(3),
        id: "call_x".into(),
        kind: "function".into(),
        function: FunctionCall { name: "f".into(), arguments: "{}".into() },
        depends_on: Some(vec!["call_abc".into()]),
    };
    state.entries.push(entry(
        4,
        Some(3),
        Message::Assistant {
            content: None,
            reasoning_content: Some("why".into()),
            tool_calls: Some(vec![call.clone()]),
            partial: Some(true),
        },
    ));
    let pairs = list_tool_calls(&state.entries);
    assert_eq!(pairs.len(), 2);
    assert_eq!(pairs[1].call, &call);
    let params = ListEntriesParams { role: None, since_id: Some(3) };
    assert_eq!(list_entries(&state.entries, &params), vec![&state.entries[4]]);
}

#[test]
fn a_call_without_an_answer_is_listed() {
    let mut state = test_state();
    state.entries.pop();
    let tool_calls = list_tool_calls(&state.entries);
    assert_eq!(tool_calls.len(), 1);
    assert!(tool_calls[0].result.is_none());
}

fn board() -> MemorySupervisor {
    MemorySupervisor::new(FilesystemAppStore::with_apps_dir("/home/apps".into()))
}

fn body(task: &str, row: i32, column: i32) -> CreateAppBody {
    CreateAppBody { task: task.into(), position: BoardPositionDto { row, column } }
}

fn create(board: &mut MemorySupervisor, body: &CreateAppBody, id: &str) -> AppDto {
    let app = board
        .begin_create(
            create_request(body),
            &body.task,
            AppId(id.into()),
            "2026-06-10T00:00:00+00:00".into(),
        )
        .unwrap();
    AppDto::from(board.finish_create(&app).0)
}

#[test]
fn create_then_list_get_patch_archive_lifecycle() {
    let mut board = board();
    let created = create(&mut board, &body("Plan the offsite", 1, 2), "app-1");
    let id = AppId(created.id.clone());
    assert_eq!(success_status(BoardRequest::Create), 201);
    assert_eq!(created.status, "active");
    assert_eq!(success_status(BoardRequest::List), 200);
    assert_eq!(list_apps(Ok(board.list())).unwrap().len(), 1);
    let got = get_app(Ok(board.get(&id)), id.as_str()).unwrap();
    assert_eq!(success_status(BoardRequest::Get), 200);
    assert_eq!(got.id, id.0);
    let patch = PatchAppBody {
        position: Some(BoardPositionDto { row: 4, column: 9 }),
        ..PatchAppBody::default()
    };
    assert_eq!(requested_move(&patch), Some(BoardPosition { row: 4, column: 9 }));
    assert_eq!(requested_move(&PatchAppBody::default()), None);
    assert_eq!(success_status(BoardRequest::Patch), 200);
    board.archive(&id);
    assert_eq!(success_status(BoardRequest::Archive), 204);
    assert!(list_apps(Ok(board.list())).unwrap().is_empty());
}

#[test]
fn send_task_returns_202() {
    let mut board = board();
    let created = create(&mut board, &body("Do the thing", 0, 0), "app-1");
    assert!(found(Ok(board.get(&AppId(created.id.clone()))), &created.id).is_ok());
    assert!(board.require_worker(&AppId(created.id)).is_ok());
    assert_eq!(success_status(BoardRequest::SendTask), STATUS_ACCEPTED);
    assert_eq!(STATUS_ACCEPTED, 202);
}

#[test]
fn unknown_app_id_is_404() {
    let board = board();
    let id = AppId("2000-01-01-00-00-00-UTC".into());
    let e = get_app(Ok(board.get(&id)), id.as_str()).unwrap_err();
    assert_eq!(e.status(), STATUS_NOT_FOUND);
    let e = found(Ok(board.get(&id)), id.as_str()).unwrap_err();
    assert_eq!(e.status(), STATUS_NOT_FOUND);
    let broken = get_app(Err(Error::ChannelClosed), id.as_str()).unwrap_err();
    assert_eq!(broken, GatewayError::Supervisor("agent channel closed".into()));
    assert_eq!(broken.status(), STATUS_INTERNAL_SERVER_ERROR);
}

/// A model that cannot be reached.
struct Unreachable;

impl ModelApi for Unreachable {
    fn ask(&self, _system: &Message, _user: &Message) -> ModelAnswer {
        ModelAnswer::Failed
    }
}

fn app(id: &str, title: &str, summary: &str) -> App {
    let mut app = App::new(
        AppId(id.into()),
        title.into(),
        IconSpec { symbol: "airplane".into(), color: "#3478F6".into() },
        BoardPosition { row: 1, column: 1 },
    );
    app.summary = summary.into();
    app
}

#[test]
fn join_merge_bumps_and_persists_last_active() {
    let mut target =
        app("2026-06-10-00-00-00-UTC", "Plan the trip", "plan the tokyo trip itinerary");
    target.last_active = "2000-01-01T00:00:00+00:00".into();
    let new_id = AppId("2026-06-10-00-01-00-UTC".into());
    let mut new_app = target.clone();
    new_app.id = new_id.clone();
    let now = "2026-06-10T00:01:00+00:00";
    let clusterer = LlmClusterer::new(Unreachable);
    let apps = vec![target.clone(), new_app];
    let plan =
        consult_clusterer(&clusterer, &apps, &new_id, "plan the tokyo trip itinerary", now);
    match plan {
        MergePlan::Join { target: joined, task, merge, member } => {
            assert_eq!(joined, target.id);
            assert_eq!(task, "plan the tokyo trip itinerary");
            assert_eq!(merge.kind, MergeDecisionKind::Join);
            assert_eq!(merge.source_app_id, new_id.0);
            assert_eq!(member.session_id, new_id.0);
            assert!(member.joined);
        }
        other => panic!("expected a join, got {:?}", other),
    }
    let mut store = FilesystemAppStore::with_apps_dir("/home/apps".into());
    store.create(&target).unwrap();
    let written = store.touch_last_active(&target.id, now).unwrap();
    let after = store.get(&target.id).unwrap();
    assert_eq!(written.last_active, now);
    assert_eq!(after.last_active, now);
    assert!(matches!(
        store.touch_last_active(&AppId("nobody".into()), now),
        Err(Error::App(_))
    ));
    assert_ne!(after.last_active, target.last_active, "Join must bump the target's last_active");
    assert_eq!(after.summary, target.summary);
}

#[test]
fn new_decision_is_recorded_in_merge_log() {
    let new_id = AppId("2026-06-10-00-02-00-UTC".into());
    let alone = app(new_id.as_str(), "Standalone task", "an entirely unrelated standalone task");
    let clusterer = LlmClusterer::new(Unreachable);
    let plan = consult_clusterer(
        &clusterer,
        &vec![alone],
        &new_id,
        "an entirely unrelated standalone task",
        "now",
    );
    match plan {
        MergePlan::New { merge } => {
            assert_eq!(merge.kind, MergeDecisionKind::New);
            assert_eq!(merge.source_app_id, new_id.0);
            assert_eq!(merge.recorded_at, "now");
        }
        other => panic!("expected a new one, got {:?}", other),
    }
}

#[test]
fn a_locked_app_is_never_joined() {
    let mut locked = app("a", "Plan", "plan the tokyo trip itinerary");
    locked.user_locked = true;
    let new_id = AppId("b".into());
    assert!(merge_candidates(&vec![locked.clone()], &new_id).is_empty());
    let clusterer = LlmClusterer::new(Unreachable);
    let plan =
        consult_clusterer(&clusterer, &vec![locked], &new_id, "plan the tokyo trip itinerary", "t");
    assert!(matches!(plan, MergePlan::New { .. }));
    let kept = clusterer.reevaluate("plan the trip", "a", &vec![]);
    assert_eq!(kept, ClusterDecision::New);
    let made = merge_plan(ClusterDecision::Join { app_id: "x".into() }, &new_id, "t", "n");
    assert!(matches!(made, MergePlan::Join { .. }));
}

fn question(app_id: &str, request_id: &str) -> AgentInteraction {
    AgentInteraction { app_id: app_id.into(), request_id: request_id.into(), body: "{}".into() }
}

#[test]
fn board_stream_emits_app_created_and_interaction_badge() {
    let mut board = board();
    let request = CreateAppRequest {
        title: "Plan the trip".into(),
        icon: IconSpec { symbol: "airplane".into(), color: "#3478F6".into() },
        position: BoardPosition { row: 1, column: 1 },
    };
    let app = board
        .begin_create(request, "start planning", AppId("app-1".into()), "now".into())
        .unwrap();
    let (app, event) = board.finish_create(&app);
    match project_board_event(event) {
        BoardWsMessage::AppCreated { app: sent } => assert_eq!(sent.id, app.id.0),
        other => panic!("expected app_created, got {:?}", other),
    }
    let raised = InteractionEvent::Raised(question(app.id.as_str(), "r1"));
    assert_eq!(badge(raised), BoardWsMessage::Badge { app_id: app.id.0, count: 1 });
}

#[test]
fn interaction_stream_round_trips_raise_respond_resolved() {
    let raised = question("app-1", "req-42");
    assert_eq!(
        interaction_message(InteractionEvent::Raised(raised.clone()), "app-1"),
        Some(InteractionWsMessage::InteractionRaised { interaction: raised.clone() })
    );
    assert_eq!(interaction_message(InteractionEvent::Raised(raised.clone()), "app-2"), None);
    assert_eq!(
        replay(&vec![raised.clone()]),
        vec![InteractionWsMessage::InteractionRaised { interaction: raised }]
    );
    let response = InteractionResponse { request_id: "req-42".into(), body: "{}".into() };
    assert!(answers(&response, "req-42").is_ok());
    assert_eq!(
        answers(&response, "other").unwrap_err(),
        GatewayError::InteractionNotFound("other".into())
    );
    let inbound = SocketEvent::Text(Some(InteractionInbound::Respond { response: response.clone() }));
    assert_eq!(
        on_interaction_socket(inbound),
        InboundStep::Respond { response: response.clone() }
    );
    assert_eq!(after_response("app-1", "req-42".into(), false), None);
    let event = after_response("app-1", response.request_id, true).unwrap();
    assert_eq!(badge(event.clone()), BoardWsMessage::Badge { app_id: "app-1".into(), count: 0 });
    assert_eq!(
        interaction_message(event, "app-1"),
        Some(InteractionWsMessage::Resolved { request_id: "req-42".into() })
    );
}

#[test]
fn listeners_are_sent_what_concerns_them() {
    let raised = question("a", "r");
    let message = InteractionWsMessage::InteractionRaised { interaction: raised.clone() };
    let event = InteractionEvent::Raised(raised.clone());
    assert_eq!(
        on_interaction_event(StreamEvent::Item(event.clone()), "a"),
        StreamStep::Send(message.clone())
    );
    assert_eq!(
        on_interaction_event(StreamEvent::Item(event.clone()), "b"),
        StreamStep::Continue
    );
    assert_eq!(on_interaction_event(StreamEvent::Lagged, "a"), StreamStep::Continue);
    assert_eq!(on_interaction_event(StreamEvent::Closed, "a"), StreamStep::Stop);
    assert_eq!(
        on_board_interaction(StreamEvent::Item(event)),
        StreamStep::Send(BoardWsMessage::Badge { app_id: "a".into(), count: 1 })
    );
    let gone = BoardEvent::Archived(AppId("a".into()));
    assert_eq!(
        on_board_event(StreamEvent::Item(gone)),
        StreamStep::Send(BoardWsMessage::Archived { id: "a".into() })
    );
    assert_eq!(open_interactions(Ok(vec![raised])), Some(vec![message]));
    assert_eq!(open_interactions(Err(Error::ChannelClosed)), None);
    assert_eq!(on_interaction_socket(SocketEvent::Text(None)), InboundStep::Continue);
    assert_eq!(on_interaction_socket(SocketEvent::Closed), InboundStep::Stop);
}

#[test]
fn changes_are_told_by_id() {
    let moved = BoardEvent::Moved {
        id: AppId("a".into()),
        position: BoardPosition { row: 0, column: 0 },
    };
    assert_eq!(project_board_event(moved), BoardWsMessage::Updated { id: "a".into() });
    let status =
        BoardEvent::StatusChanged { id: AppId("a".into()), status: AppStatus::Tombstoned };
    assert_eq!(project_board_event(status), BoardWsMessage::Updated { id: "a".into() });
    let renamed = BoardEvent::IdentityChanged(app("a", "t", "s"));
    assert_eq!(project_board_event(renamed), BoardWsMessage::Updated { id: "a".into() });
    let gone = BoardEvent::Archived(AppId("a".into()));
    assert_eq!(project_board_event(gone), BoardWsMessage::Archived { id: "a".into() });
}

#[test]
fn a_listener_speaks_for_the_user() {
    let said = ChatInboundMessage { kind: "user_message".into(), text: "hi".into() };
    assert_eq!(
        chat_step(SocketEvent::Text(Some(said.clone()))),
        ChatStep::Say {
            message: user("hi"),
            origin: EntryOrigin::User { channel: "gateway".into() }
        }
    );
    let other = ChatInboundMessage { kind: "x".into(), ..said.clone() };
    assert_eq!(chat_step(SocketEvent::Text(Some(other))), ChatStep::Continue);
    let empty = ChatInboundMessage { text: String::new(), ..said };
    assert_eq!(chat_step(SocketEvent::Text(Some(empty))), ChatStep::Continue);
    assert_eq!(chat_step(SocketEvent::Text(None)), ChatStep::Continue);
    assert_eq!(chat_step(SocketEvent::Closed), ChatStep::Stop);
    assert_eq!(chat_step(SocketEvent::Failed), ChatStep::Stop);
    assert_eq!(stream_step(StreamEvent::Item(3)), StreamStep::Send(3));
    assert_eq!(stream_step(StreamEvent::<u8>::Lagged), StreamStep::Continue);
    assert_eq!(stream_step(StreamEvent::<u8>::Closed), StreamStep::Stop);
}

#[test]
fn every_error_has_a_status() {
    for (e, status, shown) in [
        (GatewayError::EntryNotFound(7), STATUS_NOT_FOUND, "entry not found: 7"),
        (GatewayError::AppNotFound("a".into()), STATUS_NOT_FOUND, "app not found: a"),
        (
            GatewayError::InteractionNotFound("r".into()),
            STATUS_NOT_FOUND,
            "interaction not found: r",
        ),
        (GatewayError::ProviderError("p".into()), STATUS_BAD_GATEWAY, "provider error: p"),
    ] {
        assert_eq!(e.status(), status);
        assert_eq!(e.message(), shown);
    }
    for e in [
        GatewayError::Io("x".into()),
        GatewayError::Supervisor("x".into()),
        GatewayError::Serialization("x".into()),
    ] {
        assert_eq!(e.status(), STATUS_INTERNAL_SERVER_ERROR);
        assert!(e.message().ends_with(": x"));
    }
    let bare = GatewayState::new("s".into(), "i".into(), "o".into());
    let closed = bare.require_supervisor().unwrap_err();
    assert_eq!(closed, GatewayError::BoardDisabled);
    assert_eq!(closed.status(), 503);
    assert_eq!(closed.message(), "supervisor error: app board is not enabled");
    let mut traced = GatewayState::with_trajectory_tx(
        "s".into(),
        "i".into(),
        "o".into(),
        Some("/tmp/events.jsonl".into()),
    );
    assert_eq!(traced.events_path.as_deref(), Some("/tmp/events.jsonl"));
    assert!(traced.require_supervisor().is_err());
    traced.attach_apps();
    assert!(traced.require_supervisor().is_ok());
    let whole = GatewayState::with_apps("s".into(), "i".into(), "o".into());
    assert!(whole.require_supervisor().is_ok());
    assert_eq!(gateway_port(&None), 19385);
    assert_eq!(gateway_port(&Some("80".into())), 80);
    assert_eq!(gateway_port(&Some("x".into())), 19385);
}
