use rubberdux::app::runtime::worker::{
    bridge_inbound_surface_frame, bridge_peer_deliver, folded_frames, goes_on_after_world,
    peer_envelope_of, relay_drive, seed_from_session, session_manager_at, session_to_resume,
    snapshots_path, surface_drive_frame, world_events_path, world_model_config, BridgeAction,
    Command, Effort, HostBridge, PeerRequest, WorkerPeerSender,
};
use rubberdux::conversation::{Entry, EntryOrigin, Message};
use rubberdux::host::surface::PutResult;
use rubberdux::protocol::{
    AgentToHost, Authorization, Cause, DeliveryOutcome, DriveCommand, DurableEnvelope,
    EntryNotification, HostToAgent, IdempotencyKey, InteractionResponse, LogicalInput,
    PeerEnvelopeId, PeerPayload, PeerWire, Route, Selection, SurfaceObserved, SurfaceOp, Viewport,
    WindowState, WorldPeerId,
};

fn auth(from: &str) -> Authorization {
    Authorization {
        from: WorldPeerId { app_id: from.into(), node_id: "local".into() },
        token: from.into(),
    }
}

fn wire(durable: DurableEnvelope) -> PeerWire {
    PeerWire { json: "{}".into(), durable: Some(durable) }
}

#[test]
fn session_manager_at_roots_layout_under_home() {
    let home = String::from("/tmp/app-123");
    let mgr = session_manager_at(home.clone());
    assert_eq!(mgr.home_dir, home);
    assert_eq!(mgr.sessions_dir, format!("{}/sessions", home));
    assert_eq!(mgr.latest_link, format!("{}/latest", home));
}

#[test]
fn surface_mutated_human_cause_produces_surface_mutated_input() {
    let op = SurfaceOp::SetValue {
        surface: 1,
        element: 2,
        value: "\"typed by hand\"".into(),
        base_version: None,
    };
    let frame = AgentToHost::SurfaceMutated { op: op.clone(), cause: Cause::Human };
    match bridge_inbound_surface_frame(frame) {
        Some(LogicalInput::SurfaceMutated { op: got }) => {
            assert_eq!(got, op, "the op must pass through unchanged");
        }
        other => panic!("expected SurfaceMutated Input, got {:?}", other),
    }
}

#[test]
fn surface_mutated_command_cause_is_dropped() {
    let frame = AgentToHost::SurfaceMutated {
        op: SurfaceOp::Click { surface: 3, element: 9, point: None, base_version: None },
        cause: Cause::Command { cmd: 7, key: IdempotencyKey("tick-7-effect-0".into()) },
    };
    assert!(
        bridge_inbound_surface_frame(frame).is_none(),
        "a Command-caused echo must be dropped"
    );
}

#[test]
fn surface_mutated_peer_cause_is_dropped() {
    let frame = AgentToHost::SurfaceMutated {
        op: SurfaceOp::Navigate {
            surface: 2,
            route: Route("home".into()),
            base_version: None,
        },
        cause: Cause::Peer { envelope: PeerEnvelopeId("env-xyz".into()) },
    };
    assert!(
        bridge_inbound_surface_frame(frame).is_none(),
        "a Peer-caused echo must be dropped"
    );
}

fn observed() -> SurfaceObserved {
    SurfaceObserved {
        surface: 5,
        version: 42,
        ax_digest: rubberdux::protocol::Hash("digest-abc".into()),
        focus: Some(7),
        selection: Some(Selection("0-4".into())),
        viewport: Viewport("rect".into()),
        window: WindowState("key".into()),
        cursor: Some((100, 200)),
    }
}

#[test]
fn surface_observation_frame_produces_surface_observed_input() {
    let frame = AgentToHost::SurfaceObservation { observed: observed() };
    match bridge_inbound_surface_frame(frame) {
        Some(LogicalInput::SurfaceObserved {
            surface, version, ax_digest, focus, cursor, ..
        }) => {
            assert_eq!(surface, 5);
            assert_eq!(version, 42);
            assert_eq!(ax_digest, rubberdux::protocol::Hash("digest-abc".into()));
            assert_eq!(focus, Some(7));
            assert_eq!(cursor, Some((100, 200)));
        }
        other => panic!("expected SurfaceObserved Input, got {:?}", other),
    }
}

#[test]
fn run_tool_set_value_produces_surface_drive_frame() {
    let op = SurfaceOp::SetValue {
        surface: 2,
        element: 5,
        value: "\"hello\"".into(),
        base_version: Some(3),
    };
    let command = Command::RunTool { cmd: 9, tool: "set_value".into(), ops: Some(vec![op]) };
    match surface_drive_frame(command) {
        Some(HostToAgent::SurfaceDrive { ops, cmd, key }) => {
            assert_eq!(cmd, 9, "cmd must be forwarded");
            assert_eq!(ops.len(), 1, "ops must be forwarded");
            assert_eq!(key.0, "cmd-9");
        }
        other => panic!("expected SurfaceDrive frame, got {:?}", other),
    }
}

#[test]
fn unreadable_ops_are_no_ops() {
    let command = Command::RunTool { cmd: 10, tool: "set_value".into(), ops: None };
    match surface_drive_frame(command) {
        Some(HostToAgent::SurfaceDrive { ops, .. }) => assert!(ops.is_empty()),
        other => panic!("expected SurfaceDrive frame, got {:?}", other),
    }
    assert!(surface_drive_frame(Command::Other).is_none());
}

#[test]
fn peer_deliver_drive_envelope_maps_to_drive_requested() {
    let from = "lead-app";
    let durable = DurableEnvelope {
        id: PeerEnvelopeId("env-drive-1".into()),
        payload: PeerPayload::Drive(DriveCommand {
            surface_ops: vec![SurfaceOp::SetValue {
                surface: 1,
                element: 2,
                value: "\"typed by peer\"".into(),
                base_version: None,
            }],
            prompt: Some("please continue".into()),
        }),
        auth: auth(from),
    };
    match bridge_peer_deliver(from, wire(durable)) {
        LogicalInput::DriveRequested { from: f, envelope, drive, auth } => {
            assert_eq!(
                f,
                WorldPeerId { app_id: from.into(), node_id: "local".into() },
                "from is rebuilt as the local-node sender PeerId"
            );
            assert_eq!(envelope, PeerEnvelopeId("env-drive-1".into()));
            assert_eq!(drive.surface_ops.len(), 1, "the drive ops are preserved");
            assert_eq!(drive.prompt.as_deref(), Some("please continue"));
            assert_eq!(auth.token, from, "the auth is preserved");
            assert_eq!(auth.from, f, "auth.from matches the sender (authorization passes)");
        }
        other => panic!("expected DriveRequested, got {other:?}"),
    }
}

#[test]
fn peer_deliver_message_envelope_maps_to_peer_delivered() {
    let from = "peer-x";
    let durable = DurableEnvelope {
        id: PeerEnvelopeId("env-msg-1".into()),
        payload: PeerPayload::Message("{\"text\":\"hi\"}".into()),
        auth: auth(from),
    };
    match bridge_peer_deliver(from, wire(durable)) {
        LogicalInput::PeerDelivered { from: f, envelope, payload } => {
            assert_eq!(f.app_id, "peer-x");
            assert_eq!(envelope, PeerEnvelopeId("env-msg-1".into()));
            let value: serde_json::Value = serde_json::from_str(&payload).unwrap();
            assert_eq!(value["text"], "hi");
        }
        other => panic!("expected PeerDelivered, got {other:?}"),
    }
}

#[test]
fn peer_deliver_legacy_payload_maps_to_peer_delivered_raw() {
    let payload = PeerWire { json: "{\"text\":\"legacy\"}".into(), durable: None };
    match bridge_peer_deliver("old-app", payload) {
        LogicalInput::PeerDelivered { from, payload, envelope } => {
            assert_eq!(from.app_id, "old-app");
            let value: serde_json::Value = serde_json::from_str(&payload).unwrap();
            assert_eq!(value["text"], "legacy");
            assert_eq!(envelope.0, "old-app/local/legacy");
        }
        other => panic!("expected PeerDelivered, got {other:?}"),
    }
}

#[test]
fn run_tool_non_surface_drive_returns_none() {
    let command = Command::RunTool { cmd: 11, tool: "get_weather".into(), ops: None };
    assert!(
        surface_drive_frame(command).is_none(),
        "a non-set_value RunTool must not produce a SurfaceDrive"
    );
}

#[test]
fn a_folded_envelope_is_confirmed_first() {
    let durable = DurableEnvelope {
        id: PeerEnvelopeId("env-1".into()),
        payload: PeerPayload::Message("{}".into()),
        auth: auth("a"),
    };
    let input = bridge_peer_deliver("a", wire(durable));
    let note = EntryNotification {
        entry: Entry {
            id: 3,
            parent_id: None,
            message: Message::System { content: "s".into() },
            origin: EntryOrigin::System,
            channel_metadata: None,
        },
        is_final: true,
    };
    let frames = folded_frames(peer_envelope_of(&input), vec![note.clone()]);
    assert_eq!(
        frames,
        vec![
            AgentToHost::PeerDeliverAck { envelope: "env-1".into() },
            AgentToHost::EntryNotification { entry: note.entry.clone(), is_final: true },
        ]
    );
    let plain = LogicalInput::UserMessage { to: 0, text: "x".into() };
    assert_eq!(peer_envelope_of(&plain), None);
    assert_eq!(folded_frames(None, vec![note]).len(), 1);
}

#[test]
fn host_frames_are_taken_apart() {
    let mut bridge = HostBridge::new();
    let say = HostToAgent::UserMessage { text: "hi".into(), telegram_message_id: Some(3) };
    assert_eq!(
        bridge.on_host_frame(Some(say)),
        BridgeAction::World { input: LogicalInput::UserMessage { to: 0, text: "hi".into() } }
    );
    let response = InteractionResponse { request_id: "r".into(), body: "b".into() };
    assert_eq!(
        bridge.on_host_frame(Some(HostToAgent::InteractionAnswer { response: response.clone() })),
        BridgeAction::Answer { request_id: "r".into(), response }
    );
    assert_eq!(
        bridge.on_host_frame(Some(HostToAgent::SurfaceObservation { observed: observed() })),
        BridgeAction::Surface { frame: AgentToHost::SurfaceObservation { observed: observed() } }
    );
    assert_eq!(bridge.on_host_frame(Some(HostToAgent::Shutdown)), BridgeAction::Stop);
    assert_eq!(bridge.on_host_frame(None), BridgeAction::Stop);
    let stray = HostToAgent::SurfaceDrive {
        ops: vec![],
        cmd: 1,
        key: IdempotencyKey("k".into()),
    };
    assert_eq!(bridge.on_host_frame(Some(stray)), BridgeAction::Ignore);
}

#[test]
fn lists_answer_whoever_waited_longest() {
    let mut bridge = HostBridge::new();
    assert_eq!(bridge.forward(PeerRequest::List { ticket: 7 }), AgentToHost::PeerList);
    assert_eq!(bridge.forward(PeerRequest::List { ticket: 8 }), AgentToHost::PeerList);
    let reply = |name: &str| Some(HostToAgent::PeerListResult { peers: vec![name.to_string()] });
    assert_eq!(
        bridge.on_host_frame(reply("x")),
        BridgeAction::Reply { ticket: 7, peers: vec!["x".to_string()] }
    );
    assert_eq!(
        bridge.on_host_frame(reply("y")),
        BridgeAction::Reply { ticket: 8, peers: vec!["y".to_string()] }
    );
    assert_eq!(bridge.on_host_frame(reply("z")), BridgeAction::Ignore);
}

#[test]
fn sending_is_queued_as_far_as_the_worker_knows() {
    let sender = WorkerPeerSender { from: "me".into() };
    let d = sender.envelope(PeerPayload::Message("{}".into()), &PeerEnvelopeId("e".into()));
    assert_eq!(d.auth, auth("me"));
    let to = WorldPeerId { app_id: "you".into(), node_id: "far".into() };
    let (request, outcome) = sender.send(&to, wire(d.clone()));
    assert_eq!(request, PeerRequest::Send { to: "you".into(), payload: wire(d.clone()) });
    assert_eq!(outcome, DeliveryOutcome::Queued);
    let mut bridge = HostBridge::new();
    assert_eq!(
        bridge.forward(request),
        AgentToHost::PeerSend { to: "you".into(), payload: wire(d) }
    );
}

#[test]
fn only_a_gone_world_stops_the_bridge() {
    assert!(goes_on_after_world(PutResult::Put));
    assert!(goes_on_after_world(PutResult::Full));
    assert!(!goes_on_after_world(PutResult::Closed));
}

#[test]
fn drives_alone_are_relayed() {
    let key = IdempotencyKey("k".into());
    let frame = HostToAgent::SurfaceDrive { ops: vec![], cmd: 2, key: key.clone() };
    assert_eq!(relay_drive(frame), Some(AgentToHost::SurfaceDrive { ops: vec![], cmd: 2, key }));
    assert_eq!(relay_drive(HostToAgent::Shutdown), None);
}

#[test]
fn seed_is_the_hash_of_app_and_session() {
    let mut hash: u64 = 0xcbf2_9ce4_8422_2325;
    for byte in "a:s".bytes() {
        hash ^= byte as u64;
        hash = hash.wrapping_mul(0x0000_0100_0000_01b3);
    }
    assert_eq!(seed_from_session("a", "s"), hash);
    assert_ne!(seed_from_session("a", "s"), seed_from_session("a", "t"));
}

#[test]
fn model_settings_have_defaults() {
    let c = world_model_config("m", &None);
    assert_eq!((c.model.as_str(), c.max_tokens, c.effort), ("m", 4096, Effort::Medium));
    assert_eq!(world_model_config("m", &Some("12".into())).max_tokens, 12);
    assert_eq!(world_model_config("m", &Some("-1".into())).max_tokens, 4096);
    assert_eq!(world_model_config("m", &Some("4294967296".into())).max_tokens, 4096);
}

#[test]
fn only_a_whole_session_is_resumed() {
    assert_eq!(session_to_resume(Some("s".into()), true, true), Some("s".to_string()));
    assert_eq!(session_to_resume(Some("s".into()), false, true), None);
    assert_eq!(session_to_resume(Some("s".into()), true, false), None);
    assert_eq!(session_to_resume(None, true, true), None);
    assert_eq!(world_events_path("/s"), "/s/world-events.jsonl");
    assert_eq!(snapshots_path("/s"), "/s/snapshots");
}
