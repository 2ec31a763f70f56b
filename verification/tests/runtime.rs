use rubberdux::app::peer::drain::{Delivery, InboxDrain};
use rubberdux::app::peer::mailbox::{Mailbox, PeerEnvelope};
use rubberdux::app::peer::PeerId;
use rubberdux::app::registry::store::FilesystemAppStore;
use rubberdux::app::runtime::lifecycle::{
    idle_window, AppLifecycle, LifecyclePhase, ResumeState, DEFAULT_IDLE_SECS,
};
use rubberdux::app::runtime::local_supervisor::{answer_frame, message_frame, LocalSupervisor};
use rubberdux::app::runtime::supervision::{
    on_pump_event, on_surface_frame, on_worker_frame, peer_list_frame, to_wake, worker_arguments,
    Backoff, ConnectEvent, ConnectStep, ConnectionInboxes, PumpAction, PumpEvent, PumpStep,
    Readiness,
};
use rubberdux::app::runtime::worker_handle::WorkerHandle;
use rubberdux::app::supervisor::{BoardEvent, CreateAppRequest};
use rubberdux::app::{App, AppId, AppStatus, BoardPosition, IconSpec};
use rubberdux::conversation::{Entry, EntryOrigin, Message, UserContent};
use rubberdux::error::Error;
use rubberdux::host::accept::{accept_worker, AcceptedWorker};
use rubberdux::host::broker::PeerRouteOutcome;
use rubberdux::protocol::{
    AgentInteraction, AgentToHost, Authorization, Cause, DurableEnvelope, EntryNotification,
    HostToAgent, IdempotencyKey, InteractionResponse, PeerEnvelopeId, PeerPayload, PeerWire, Route,
    SurfaceOp, WorldPeerId,
};

const SECOND: u128 = 1_000_000_000;
const START: u128 = 5 * SECOND;

fn secs(n: u64) -> u128 {
    n as u128 * SECOND
}

fn sample_interaction(request_id: &str) -> AgentInteraction {
    AgentInteraction {
        app_id: "app".into(),
        request_id: request_id.into(),
        body: "proceed?".into(),
    }
}

#[test]
fn idle_window_defaults_without_env() {
    assert_eq!(DEFAULT_IDLE_SECS, 300);
    assert_eq!(idle_window(&None), secs(300));
}

#[test]
fn idle_window_follows_its_setting() {
    assert_eq!(idle_window(&Some("12".into())), secs(12));
    assert_eq!(idle_window(&Some("soon".into())), secs(300));
    assert_eq!(idle_window(&Some("18446744073709551615".into())), secs(u64::MAX));
    assert_eq!(idle_window(&Some("18446744073709551616".into())), secs(300));
}

#[test]
fn new_active_app_is_not_immediately_evictable() {
    let app = AppLifecycle::active(START);
    assert_eq!(app.phase(), LifecyclePhase::Active);
    assert!(!app.is_idle_evictable(START, secs(300)));
}

#[test]
fn quiet_active_app_becomes_evictable_after_window() {
    let app = AppLifecycle::active(START);
    let later = START + secs(301);
    assert!(app.is_idle_evictable(later, secs(300)));
}

#[test]
fn activity_resets_the_idle_clock() {
    let app = AppLifecycle::active(START);
    let mid = START + secs(200);
    let app = app.touched(mid);
    let later = START + secs(301);
    assert!(!app.is_idle_evictable(later, secs(300)));
}

#[test]
fn in_flight_turn_blocks_eviction() {
    let app = AppLifecycle::active(START).turn_started(START);
    let later = START + secs(10_000);
    assert!(!app.is_idle_evictable(later, secs(300)));
    let app = app.turn_finished(later);
    assert!(!app.is_idle_evictable(later, secs(300)));
    let after = later + secs(301);
    assert!(app.is_idle_evictable(after, secs(300)));
}

#[test]
fn pending_interaction_blocks_eviction() {
    let app = AppLifecycle::active(START).with_pending_interaction(true);
    let later = START + secs(10_000);
    assert!(!app.is_idle_evictable(later, secs(300)));
    let app = app.with_pending_interaction(false);
    assert!(app.is_idle_evictable(later, secs(300)));
}

#[test]
fn tombstoned_app_is_never_evictable() {
    let app = AppLifecycle::active(START).tombstoned();
    assert_eq!(app.phase(), LifecyclePhase::Tombstoned);
    let later = START + secs(10_000);
    assert!(!app.is_idle_evictable(later, secs(300)));
}

#[test]
fn tombstone_then_restore_round_trips_phase() {
    let app = AppLifecycle::active(START).turn_started(START).tombstoned();
    assert_eq!(app.phase(), LifecyclePhase::Tombstoned);
    let resumed = START + secs(10_000);
    let app = app.restored(resumed);
    assert_eq!(app.phase(), LifecyclePhase::Active);
    assert!(!app.is_idle_evictable(resumed, secs(300)));
}

#[test]
fn load_missing_resume_state_is_empty_default() {
    let loaded = ResumeState::from_read(None);
    assert_eq!(loaded, ResumeState::default());
    assert!(loaded.pending_interactions.is_empty());
    assert!(loaded.undelivered_peer_messages.is_empty());
}

#[test]
fn resume_record_lies_in_the_apps_directory() {
    assert_eq!(ResumeState::path_in("/apps/a"), "/apps/a/resume.json");
    let state = ResumeState::of_pending(vec![sample_interaction("r1")]);
    assert_eq!(ResumeState::from_read(Some(state.clone())), state);
}

#[test]
fn add_interaction_records_and_replaces_by_request_id() {
    let mut handle = WorkerHandle::new();
    assert!(!handle.has_pending_interaction());
    let raise = |id: &str, prompt: &str| AgentInteraction {
        request_id: id.into(),
        app_id: "a".into(),
        body: prompt.into(),
    };
    handle.add_interaction(raise("r1", "first"));
    assert!(handle.has_pending_interaction());
    assert_eq!(handle.pending_interactions().len(), 1);
    handle.add_interaction(raise("r1", "second"));
    let pending = handle.pending_interactions();
    assert_eq!(pending.len(), 1);
    assert_eq!(pending[0].request_id(), "r1");
    assert_eq!(pending[0].body, "second");
}

#[test]
fn set_pending_interactions_replaces_wholesale() {
    let mut handle = WorkerHandle::new();
    handle.add_interaction(sample_interaction("old"));
    handle.set_pending_interactions(vec![sample_interaction("restored")]);
    let pending = handle.pending_interactions();
    assert_eq!(pending.len(), 1);
    assert_eq!(pending[0].request_id(), "restored");
}

#[test]
fn clear_interaction_drops_only_the_matching_request() {
    let mut handle = WorkerHandle::new();
    handle.set_pending_interactions(vec![sample_interaction("keep"), sample_interaction("drop")]);
    handle.clear_interaction("drop");
    let remaining = handle.pending_interactions();
    assert_eq!(remaining.len(), 1);
    assert_eq!(remaining[0].request_id(), "keep");
}

fn supervisor() -> LocalSupervisor {
    LocalSupervisor::new(FilesystemAppStore::with_apps_dir("/apps".to_string()))
}

fn running(s: &mut LocalSupervisor, id: &str, now: u128) -> App {
    let request = CreateAppRequest {
        title: "T".into(),
        icon: IconSpec { symbol: "doc".into(), color: "#8E8E93".into() },
        position: BoardPosition { row: 0, column: 0 },
    };
    let app = s.begin_create(request, "go", AppId(id.into()), "then".into()).unwrap();
    let (active, event) = s.finish_create(&app, now);
    assert_eq!(event, BoardEvent::Created(active.clone()));
    active
}

fn ids(list: Vec<AppId>) -> Vec<String> {
    let mut names: Vec<String> = list.into_iter().map(|id| id.0).collect();
    names.sort();
    names
}

#[test]
fn local_supervisor_subscribe_entries_errors_without_worker() {
    let s = supervisor();
    match s.begin_restore(&AppId("missing".into())) {
        Err(Error::App(m)) => assert_eq!(m, "App `missing` does not exist"),
        other => panic!("unexpected {:?}", other),
    }
    assert!(s.require_worker(&AppId("missing".into())).is_err());
}

#[test]
fn local_supervisor_move_app_emits_board_moved_event() {
    let mut s = supervisor();
    let app = running(&mut s, "a", START);
    let position = BoardPosition { row: 1, column: 9 };
    assert_eq!(
        s.move_app(&app.id, position).unwrap(),
        BoardEvent::Moved { id: app.id.clone(), position }
    );
}

#[test]
fn start_worker_installs_a_connection_inbox() {
    let mut inboxes = ConnectionInboxes::new();
    let id = AppId::now();
    inboxes.install(&id, 7);
    let hello = AcceptedWorker::App { app_id: id.0.clone() };
    assert_eq!(inboxes.connection_of(hello), Some((id, 7)));
}

#[test]
fn suspend_removes_runtime_and_inbox() {
    let mut s = supervisor();
    let mut inboxes = ConnectionInboxes::new();
    let app = running(&mut s, "a", START);
    inboxes.install(&app.id, 1);
    assert!(s.begin_tombstone(&app.id).is_some());
    s.finish_tombstone(&app.id);
    assert!(s.require_worker(&app.id).is_err());
    inboxes.release(&app.id, 1);
    let hello = AcceptedWorker::App { app_id: "a".into() };
    assert_eq!(inboxes.connection_of(hello), None);
}

#[test]
fn suspend_persists_resume_record() {
    let mut s = supervisor();
    let app = running(&mut s, "a", START);
    let resume = s.begin_tombstone(&app.id).expect("a record to keep");
    assert!(resume.pending_interactions.is_empty());
    assert!(resume.undelivered_peer_messages.is_empty());
    assert!(s.require_worker(&app.id).is_err());
}

#[test]
fn ensure_active_restores_and_consumes_resume_record() {
    let mut s = supervisor();
    let app = running(&mut s, "a", START);
    let resume = s.begin_tombstone(&app.id).unwrap();
    s.finish_tombstone(&app.id);
    assert!(s.require_worker(&app.id).is_err());
    assert!(s.begin_restore(&app.id).unwrap().is_some());
    s.finish_restore(&app.id, resume, START);
    assert!(s.require_worker(&app.id).is_ok());
    assert!(s.begin_restore(&app.id).unwrap().is_none(), "a second call is a no-op");
}

#[test]
fn pending_interaction_survives_suspend_then_restore() {
    let mut s = supervisor();
    let app = running(&mut s, "a", START);
    assert!(s.capture_interaction(&app.id, sample_interaction("r1")));
    assert!(s.capture_interaction(&app.id, sample_interaction("r2")));
    let resume = s.begin_tombstone(&app.id).expect("it ran");
    assert_eq!(resume.pending_interactions.len(), 2);
    assert_eq!(
        s.finish_tombstone(&app.id),
        BoardEvent::StatusChanged { id: app.id.clone(), status: AppStatus::Tombstoned }
    );
    assert_eq!(s.get(&app.id).unwrap().status, AppStatus::Tombstoned);
    assert!(s.begin_tombstone(&app.id).is_none());
    assert!(s.begin_restore(&app.id).unwrap().is_some());
    s.finish_restore(&app.id, resume, START + secs(1));
    assert_eq!(s.get(&app.id).unwrap().status, AppStatus::Active);
    let pending = s.pending_interactions(&app.id).unwrap();
    assert_eq!(pending.len(), 2);
    assert_eq!(pending[0].request_id(), "r1");
    assert_eq!(pending[1].request_id(), "r2");
}

#[test]
fn a_restored_app_with_an_open_question_is_not_evicted() {
    let mut s = supervisor();
    let app = running(&mut s, "a", START);
    s.finish_turn(&app.id, START);
    assert!(s.capture_interaction(&app.id, sample_interaction("r1")));
    let resume = s.begin_tombstone(&app.id).expect("it ran");
    s.finish_tombstone(&app.id);
    s.finish_restore(&app.id, resume, START);
    let late = START + secs(10_000);
    assert!(s.evictable(late, secs(300)).is_empty());
    let answer = InteractionResponse { request_id: "r1".into(), body: "yes".into() };
    s.respond_to_interaction(&app.id, &answer, START).unwrap();
    s.finish_turn(&app.id, START);
    assert_eq!(ids(s.evictable(late, secs(300))), vec!["a".to_string()]);
}

#[test]
fn only_the_final_entry_ends_a_turn() {
    let mut s = supervisor();
    let app = running(&mut s, "a", START);
    s.mark_turn_started(&app.id, START);
    let entry = Entry {
        id: 0,
        parent_id: None,
        message: Message::said("hi".into()),
        origin: EntryOrigin::Assistant,
        channel_metadata: None,
    };
    let late = START + secs(300);
    let on_the_way = EntryNotification { entry: entry.clone(), is_final: false };
    s.take_entry(&app.id, &on_the_way, START);
    assert!(s.evictable(late, secs(300)).is_empty());
    s.take_entry(&app.id, &EntryNotification { entry, is_final: true }, START);
    assert_eq!(ids(s.evictable(late, secs(300))), vec!["a".to_string()]);
}

#[test]
fn an_app_that_was_started_again_is_archived_and_runs_on() {
    let mut s = supervisor();
    let app = running(&mut s, "a", START);
    assert_eq!(s.archive(&app.id).unwrap(), BoardEvent::Archived(app.id.clone()));
    assert!(s.require_worker(&app.id).is_ok());
    assert!(s.list().is_empty());
    assert_eq!(s.get(&app.id).unwrap().status, AppStatus::Active);
}

#[test]
fn only_quiet_apps_are_evicted() {
    let mut s = supervisor();
    let busy = running(&mut s, "busy", START);
    let asking = running(&mut s, "asking", START);
    let quiet = running(&mut s, "quiet", START);
    s.finish_turn(&asking.id, START);
    s.finish_turn(&quiet.id, START);
    s.capture_interaction(&asking.id, sample_interaction("r"));
    let late = START + secs(300);
    assert_eq!(ids(s.evictable(late, secs(300))), vec!["quiet".to_string()]);
    assert!(ids(s.evictable(late - 1, secs(300))).is_empty());
    s.finish_turn(&busy.id, START);
    assert_eq!(ids(s.evictable(late, secs(300))), vec!["busy".to_string(), "quiet".to_string()]);
    let _ = s.begin_tombstone(&quiet.id);
    s.finish_tombstone(&quiet.id);
    assert_eq!(ids(s.evictable(late, secs(300))), vec!["busy".to_string()]);
}

#[test]
fn an_answer_starts_a_turn_and_unblocks() {
    let mut s = supervisor();
    let app = running(&mut s, "a", START);
    s.finish_turn(&app.id, START);
    s.capture_interaction(&app.id, sample_interaction("r1"));
    let answer = InteractionResponse { request_id: "r1".into(), body: "yes".into() };
    s.respond_to_interaction(&app.id, &answer, START + secs(5)).unwrap();
    assert!(s.pending_interactions(&app.id).unwrap().is_empty());
    let late = START + secs(1_000);
    assert!(s.evictable(late, secs(300)).is_empty());
    s.finish_turn(&app.id, START + secs(6));
    assert_eq!(s.evictable(late, secs(300)).len(), 1);
    s.mark_turn_started(&app.id, late);
    assert!(s.evictable(late + secs(1_000), secs(300)).is_empty());
    match s.respond_to_interaction(&AppId("none".into()), &answer, START) {
        Err(Error::App(m)) => assert_eq!(m, "App `none` has no active worker"),
        other => panic!("unexpected {:?}", other),
    }
}

fn mail(text: &str) -> PeerEnvelope {
    PeerEnvelope {
        from: PeerId::local(AppId("sender".into())),
        payload: PeerWire { json: text.into(), durable: None },
    }
}

fn durable_mail(text: &str, id: &str) -> PeerEnvelope {
    let mut envelope = mail(text);
    envelope.payload.durable = Some(DurableEnvelope {
        id: PeerEnvelopeId(id.into()),
        payload: PeerPayload::Message(text.into()),
        auth: Authorization {
            from: WorldPeerId { app_id: "sender".into(), node_id: "local".into() },
            token: "sender".into(),
        },
    });
    envelope
}

fn next_text(s: &LocalSupervisor, app: &App, d: &InboxDrain, inbox: &Mailbox) -> Option<String> {
    s.drain_peer_inbox(&app.id, d, inbox).map(|e| e.payload.json.clone())
}

#[test]
fn restored_app_gets_its_mail_in_order() {
    let mut s = supervisor();
    let app = running(&mut s, "a", START);
    let mut inbox = Mailbox::with_queue("/apps/a", vec![mail("1"), mail("2")]);
    let mut drain = InboxDrain::new();
    assert_eq!(next_text(&s, &app, &drain, &inbox), Some("1".to_string()));
    assert_eq!(inbox.depth(), 2);
    drain.record(&mut inbox, Delivery::Sent);
    assert_eq!(inbox.depth(), 1);
    assert_eq!(next_text(&s, &app, &drain, &inbox), Some("2".to_string()));
    drain.record(&mut inbox, Delivery::Sent);
    assert_eq!(next_text(&s, &app, &drain, &inbox), None);
    assert!(inbox.is_empty());
}

#[test]
fn durable_mail_stays_until_it_is_taken_in() {
    let mut s = supervisor();
    let app = running(&mut s, "a", START);
    let queue = vec![durable_mail("1", "e1"), mail("2"), durable_mail("3", "e3")];
    let mut inbox = Mailbox::with_queue("/apps/a", queue);
    let mut drain = InboxDrain::new();
    assert_eq!(next_text(&s, &app, &drain, &inbox), Some("1".to_string()));
    drain.record(&mut inbox, Delivery::Sent);
    assert_eq!(inbox.depth(), 3);
    assert_eq!(next_text(&s, &app, &drain, &inbox), Some("2".to_string()));
    drain.record(&mut inbox, Delivery::Sent);
    assert_eq!(inbox.depth(), 2);
    assert_eq!(next_text(&s, &app, &drain, &inbox), Some("3".to_string()));
    drain.record(&mut inbox, Delivery::Folded);
    assert_eq!(next_text(&s, &app, &drain, &inbox), None);
    assert_eq!(inbox.depth(), 1);
    assert!(inbox.holds(&PeerEnvelopeId("e1".into())));
    assert!(!inbox.holds(&PeerEnvelopeId("e3".into())));
}

#[test]
fn failed_delivery_keeps_the_rest_of_the_mail() {
    let mut s = supervisor();
    let app = running(&mut s, "a", START);
    let mut inbox = Mailbox::with_queue("/apps/a", vec![mail("1"), mail("2"), mail("3")]);
    let mut drain = InboxDrain::new();
    drain.record(&mut inbox, Delivery::Sent);
    drain.record(&mut inbox, Delivery::NotSent);
    assert_eq!(next_text(&s, &app, &drain, &inbox), None);
    drain.record(&mut inbox, Delivery::Folded);
    assert_eq!(inbox.depth(), 2);
    assert_eq!(inbox.peek()[0].payload.json, "2");
}

#[test]
fn mail_of_a_stopped_app_stays() {
    let s = supervisor();
    let inbox = Mailbox::with_queue("/apps/a", vec![mail("1")]);
    assert!(s.drain_peer_inbox(&AppId("a".into()), &InboxDrain::new(), &inbox).is_none());
    assert_eq!(inbox.depth(), 1);
}

#[test]
fn a_stopped_app_can_be_archived() {
    let mut s = supervisor();
    let app = running(&mut s, "a", START);
    let _ = s.begin_tombstone(&app.id);
    s.finish_tombstone(&app.id);
    assert_eq!(s.archive(&app.id).unwrap(), BoardEvent::Archived(app.id.clone()));
    assert!(s.list().is_empty());
    assert!(s.archive(&app.id).is_err());
}

#[test]
fn frames_to_a_worker_carry_the_users_words() {
    assert_eq!(
        message_frame("hi".into()),
        HostToAgent::UserMessage { text: "hi".into(), telegram_message_id: None }
    );
    let response = InteractionResponse { request_id: "r".into(), body: "b".into() };
    assert_eq!(
        answer_frame(response.clone()),
        HostToAgent::InteractionAnswer { response }
    );
}

#[test]
fn pauses_double_up_to_the_longest_and_start_anew() {
    let mut b = Backoff::new();
    let waits: Vec<u64> = (0..9).map(|_| b.stopped_after(0)).collect();
    assert_eq!(waits, vec![250, 500, 1000, 2000, 4000, 8000, 16000, 30000, 30000]);
    assert_eq!(b.stopped_after(9_999), 30_000);
    assert_eq!(b.stopped_after(10_000), 250);
    assert_eq!(b.stopped_after(0), 500);
}

fn entry(id: usize) -> Entry {
    Entry {
        id,
        parent_id: None,
        message: Message::User { content: UserContent::Text("x".into()) },
        origin: EntryOrigin::User { channel: "board".into() },
        channel_metadata: None,
    }
}

#[test]
fn worker_frames_ask_for_their_actions() {
    let note = AgentToHost::EntryNotification { entry: entry(1), is_final: true };
    assert_eq!(
        on_worker_frame(note),
        PumpAction::Announce {
            notification: EntryNotification { entry: entry(1), is_final: true }
        }
    );
    let ask = AgentToHost::Interaction { interaction: sample_interaction("r") };
    assert_eq!(
        on_worker_frame(ask),
        PumpAction::Capture { interaction: sample_interaction("r") }
    );
    let wire = PeerWire { json: "{}".into(), durable: None };
    assert_eq!(
        on_worker_frame(AgentToHost::PeerSend { to: "b".into(), payload: wire.clone() }),
        PumpAction::Relay { to: PeerId::local(AppId("b".into())), payload: wire }
    );
    assert_eq!(on_worker_frame(AgentToHost::PeerList), PumpAction::ListPeers);
    assert_eq!(
        on_worker_frame(AgentToHost::PeerDeliverAck { envelope: "e".into() }),
        PumpAction::ConfirmFold { envelope: PeerEnvelopeId("e".into()) }
    );
    let key = IdempotencyKey("cmd-1".into());
    assert_eq!(
        on_worker_frame(AgentToHost::SurfaceDrive { ops: vec![], cmd: 1, key: key.clone() }),
        PumpAction::Drive { frame: HostToAgent::SurfaceDrive { ops: vec![], cmd: 1, key } }
    );
    assert_eq!(
        on_worker_frame(AgentToHost::Hello { app_id: "a".into() }),
        PumpAction::Ignore
    );
    assert_eq!(
        on_worker_frame(AgentToHost::SpawnVM { request: "{}".into() }),
        PumpAction::Ignore
    );
}

#[test]
fn a_worker_is_run_until_it_stops() {
    let id = AppId("a".into());
    let ended = |r: Result<(), Error>| PumpStep::End { result: r };
    assert_eq!(on_pump_event(PumpEvent::Cancelled, &id), ended(Ok(())));
    assert_eq!(on_pump_event(PumpEvent::Frame(None), &id), ended(Ok(())));
    assert_eq!(on_pump_event(PumpEvent::Outbound(None), &id), ended(Ok(())));
    assert_eq!(
        on_pump_event(PumpEvent::ReadFailed(Error::ChannelClosed), &id),
        ended(Err(Error::ChannelClosed))
    );
    assert_eq!(
        on_pump_event(PumpEvent::Exited { status: "Ok(1)".into() }, &id),
        ended(Err(Error::App("worker for App `a` exited: Ok(1)".into())))
    );
    assert_eq!(
        on_pump_event(PumpEvent::Outbound(Some(HostToAgent::Shutdown)), &id),
        PumpStep::Write { frame: HostToAgent::Shutdown }
    );
    assert_eq!(
        on_pump_event(PumpEvent::Frame(Some(AgentToHost::PeerList)), &id),
        PumpStep::Act { action: PumpAction::ListPeers }
    );
    assert_eq!(
        on_pump_event(PumpEvent::Surface(Some(AgentToHost::PeerList)), &id),
        PumpStep::Continue
    );
    assert_eq!(on_pump_event(PumpEvent::Surface(None), &id), PumpStep::Continue);
}

#[test]
fn readiness_is_told_once() {
    let id = AppId("a".into());
    let mut ready = Readiness::new();
    assert_eq!(ready.on_connect_event(ConnectEvent::Cancelled, &id), ConnectStep::Kill);
    assert_eq!(
        ready.on_connect_event(ConnectEvent::Exited { status: "x".into() }, &id),
        ConnectStep::Fail {
            error: Error::App("worker for App `a` exited before connecting: x".into())
        }
    );
    assert_eq!(
        ready.on_connect_event(ConnectEvent::Connected, &id),
        ConnectStep::Pump { tell: true }
    );
    assert_eq!(
        ready.on_connect_event(ConnectEvent::Connected, &id),
        ConnectStep::Pump { tell: false }
    );
    assert_eq!(ready.on_connect_event(ConnectEvent::Closed, &id), ConnectStep::Kill);
}

#[test]
fn surface_frames_reach_the_worker() {
    let op = SurfaceOp::Navigate { surface: 1, route: Route("/a".into()), base_version: None };
    assert_eq!(
        on_surface_frame(AgentToHost::SurfaceMutated { op: op.clone(), cause: Cause::Human }),
        Some(HostToAgent::SurfaceMutated { op, cause: Cause::Human })
    );
    assert_eq!(on_surface_frame(AgentToHost::PeerList), None);
}

#[test]
fn peers_are_listed_by_their_apps() {
    let peers = vec![PeerId::local(AppId("b".into())), PeerId::local(AppId("c".into()))];
    assert_eq!(
        peer_list_frame(&peers),
        HostToAgent::PeerListResult { peers: vec!["b".to_string(), "c".to_string()] }
    );
}

#[test]
fn a_queued_message_wakes_its_receiver() {
    let wake = PeerId::local(AppId("b".into()));
    assert_eq!(to_wake(&PeerRouteOutcome::Queued { wake }), Some(AppId("b".into())));
    assert_eq!(to_wake(&PeerRouteOutcome::Delivered), None);
    assert_eq!(to_wake(&PeerRouteOutcome::Rejected), None);
}

#[test]
fn connections_find_who_waits_for_them() {
    let mut waiting = ConnectionInboxes::new();
    let id = AppId("a".into());
    waiting.install(&id, 1);
    let hello = |id: &str| AcceptedWorker::App { app_id: id.into() };
    assert_eq!(waiting.connection_of(hello("a")), Some((id.clone(), 1)));
    assert_eq!(waiting.connection_of(hello("b")), None);
    let child = AcceptedWorker::VmChild { first_frame: AgentToHost::PeerList };
    assert_eq!(waiting.connection_of(child), None);
    waiting.install(&id, 2);
    waiting.release(&id, 1);
    assert_eq!(
        waiting.connection_of(hello("a")),
        Some((id.clone(), 2)),
        "who ends late takes away no place but its own"
    );
    waiting.release(&id, 2);
    assert_eq!(waiting.connection_of(hello("a")), None);
    match accept_worker(None, "1.2.3.4:5") {
        Err(Error::Rpc(m)) => {
            assert_eq!(m, "worker at 1.2.3.4:5 disconnected before sending any frame")
        }
        other => panic!("unexpected {:?}", other),
    }
    assert_eq!(
        accept_worker(Some(AgentToHost::Hello { app_id: "a".into() }), "x").unwrap(),
        hello("a")
    );
}

#[test]
fn a_worker_is_called_with_its_place() {
    let args = worker_arguments("127.0.0.1:9", &AppId("a".into()), "/apps/a");
    assert_eq!(
        args,
        vec!["--agent", "--rpc-host", "127.0.0.1:9", "--task-id", "a", "--app-session-dir", "/apps/a"]
    );
}
