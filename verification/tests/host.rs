use rubberdux::app::peer::mailbox::{Mailbox, PeerEnvelope};
use rubberdux::app::peer::PeerId;
use rubberdux::app::AppId;
use rubberdux::error::Error;
use rubberdux::host::accept::{
    expect_child, greet_surface_client, AcceptedWorker, SurfaceGreeting,
};
use rubberdux::host::broker::{
    deliver_frame, BrokerPeerSender, PeerBroker, PeerRouteOutcome, RelayStep,
};
use rubberdux::host::child_run::{ChildRun, VmAction, VmEvent};
use rubberdux::host::child_vm::{
    answer_frame, files_to_place, host_log_path, started, ChildConversation, ChildStep,
};
use rubberdux::host::config::{
    build_agent_command, shell_quote, HostConfig, HostEnv, DEFAULT_RPC_PORT, DEFAULT_SURFACE_PORT,
    SHARE_SETUP,
};
use rubberdux::host::outbox::{reconstruct_outbox, OutboxKey};
use rubberdux::host::startup::{HostPlan, StartAction, StartStep, Startup};
use rubberdux::host::surface::{goes_to_worker, PutResult, SurfaceRouter};
use rubberdux::protocol::{
    AgentInteraction, AgentToHost, Authorization, DeliveryOutcome, DurableEnvelope, Fingerprint,
    HostToAgent, InteractionResponse, LogicalInput, PeerEnvelopeId, PeerPayload, PeerWire,
    WorldPeerId,
};

#[test]
fn test_shell_quote_simple() {
    assert_eq!(shell_quote("hello"), "'hello'");
}

#[test]
fn test_shell_quote_with_single_quote() {
    assert_eq!(shell_quote("it's"), "'it'\"'\"'s'");
}

fn no_env() -> HostEnv {
    HostEnv {
        vm_image: None,
        base_vm_name: None,
        vm_shares: None,
        rpc_port: None,
        surface_port: None,
        host_ip: None,
        agent_data_dir: None,
        llm_base_url: None,
        llm_api_key: None,
        llm_model: None,
        llm_user_agent: None,
    }
}

#[test]
fn test_host_config_from_env_defaults() {
    let config = HostConfig::from_env(&no_env());
    assert_eq!(config.rpc_port, DEFAULT_RPC_PORT);
    assert_eq!(config.surface_port, 19386);
    assert_eq!(config.vm_image, "rubberdux-base-ubuntu24-release");
    assert_eq!(config.share_root, "./vm-shares");
    assert_eq!(config.host_ip, "192.168.64.1");
    assert!(config.agent_env.is_empty());
    assert!(config.agent_data_dir.is_none());
}

#[test]
fn test_host_config_custom_rpc_port() {
    let env = HostEnv { rpc_port: Some("12345".into()), ..no_env() };
    let config = HostConfig::from_env(&env);
    assert_eq!(config.rpc_port, 12345);
}

#[test]
fn settings_that_cannot_be_read_are_defaults() {
    let env = HostEnv {
        rpc_port: Some("70000".into()),
        surface_port: Some("x".into()),
        vm_image: Some("ubuntu".into()),
        base_vm_name: Some("rubberdux-base-ubuntu".into()),
        llm_model: Some("m".into()),
        llm_base_url: Some("u".into()),
        ..no_env()
    };
    let config = HostConfig::from_env(&env);
    assert_eq!(config.rpc_port, 19384);
    assert_eq!(config.surface_port, 19386);
    assert_eq!(config.vm_image, "rubberdux-base-ubuntu");
    assert_eq!(
        config.agent_env,
        vec![
            ("RUBBERDUX_LLM_BASE_URL".to_string(), "u".to_string()),
            ("RUBBERDUX_LLM_MODEL".to_string(), "m".to_string()),
        ]
    );
    let unknown = HostEnv { vm_image: Some("mine".into()), ..no_env() };
    assert_eq!(HostConfig::from_env(&unknown).vm_image, "mine");
}

fn peer_id(app: &str) -> WorldPeerId {
    WorldPeerId { app_id: app.into(), node_id: "local".into() }
}

fn peer_send_outcome(cmd: u64, to: &str, fp: &str, outcome: DeliveryOutcome) -> LogicalInput {
    LogicalInput::PeerSendOutcome {
        cmd,
        entity: 0,
        fingerprint: Fingerprint(fp.into()),
        to: peer_id(to),
        outcome,
    }
}

#[test]
fn reconstruct_outbox_is_queued_minus_later_delivered() {
    let log = vec![
        LogicalInput::UserMessage { to: 0, text: "ignored".into() },
        peer_send_outcome(1, "B", "fp-b", DeliveryOutcome::Queued),
        peer_send_outcome(2, "C", "fp-c", DeliveryOutcome::Queued),
        peer_send_outcome(3, "C", "fp-c", DeliveryOutcome::Delivered),
        peer_send_outcome(4, "D", "fp-d", DeliveryOutcome::Rejected),
    ];
    let outbox = reconstruct_outbox(&log);
    assert_eq!(outbox.len(), 1, "only the still-Queued send is outstanding");
    let key = OutboxKey { to: peer_id("B"), fingerprint: "fp-b".into() };
    let entry = outbox.get(&key).expect("B's queued send is in the outbox");
    assert_eq!(entry.to, peer_id("B"));
    assert_eq!(entry.cmd, 1);
    assert!(
        !outbox.contains_key(&OutboxKey { to: peer_id("C"), fingerprint: "fp-c".into() }),
        "a Queued-then-Delivered envelope is excluded from the reconstructed outbox"
    );
    assert!(!outbox.contains_key(&OutboxKey { to: peer_id("D"), fingerprint: "fp-d".into() }));
}

#[test]
fn reconstruct_outbox_latest_outcome_per_send_wins() {
    let log = vec![
        peer_send_outcome(1, "B", "fp-b", DeliveryOutcome::Delivered),
        peer_send_outcome(2, "B", "fp-b", DeliveryOutcome::Queued),
    ];
    assert_eq!(
        reconstruct_outbox(&log).len(),
        1,
        "the latest Queued outcome makes the send outstanding (latest-wins fold)"
    );
}

fn durable(id: &str, from: &str) -> DurableEnvelope {
    DurableEnvelope {
        id: PeerEnvelopeId(id.into()),
        payload: PeerPayload::Message("{\"text\":\"hi\"}".into()),
        auth: Authorization { from: peer_id(from), token: from.into() },
    }
}

#[test]
fn retry_on_restore_redelivers_outstanding_and_dedups_already_acked() {
    let env_id = PeerEnvelopeId("fp-b".into());
    let sender_log = vec![peer_send_outcome(1, "B", "fp-b", DeliveryOutcome::Queued)];
    let outbox = reconstruct_outbox(&sender_log);
    assert_eq!(
        outbox.len(),
        1,
        "B's queued send is outstanding (reconstructed from the durable log)"
    );
    let mut mailbox = Mailbox::in_dir("/apps/B");
    let envelope = PeerEnvelope {
        from: PeerId::local(AppId("A".into())),
        payload: PeerWire { json: "{}".into(), durable: Some(durable("fp-b", "A")) },
    };
    mailbox.enqueue_unique(envelope, &env_id);
    assert_eq!(
        mailbox.peek().len(),
        1,
        "the outstanding queued envelope is redeliverable on restore"
    );
    assert_eq!(mailbox.peek()[0].durable().map(|d| d.id.clone()), Some(env_id.clone()));
    assert!(
        mailbox.advance(&env_id),
        "the folded envelope is advanced out of the durable inbox"
    );
    assert!(
        mailbox.peek().is_empty(),
        "an already-acked envelope is not re-applied on a subsequent restore"
    );
    let mut acked_log = sender_log.clone();
    acked_log.push(peer_send_outcome(2, "B", "fp-b", DeliveryOutcome::Delivered));
    assert!(
        reconstruct_outbox(&acked_log).is_empty(),
        "once Delivered, the send leaves the reconstructed outbox (no re-retry)"
    );
}

fn config(env: Vec<(String, String)>) -> HostConfig {
    HostConfig {
        vm_image: "test".into(),
        share_root: "./test-shares".into(),
        rpc_port: 19384,
        surface_port: DEFAULT_SURFACE_PORT,
        host_ip: "192.168.64.1".into(),
        agent_binary_path: None,
        agent_env: env,
        agent_data_dir: None,
        memory_mb: None,
        cpu_count: None,
    }
}

#[test]
fn test_build_agent_command_basic() {
    let cmd = build_agent_command(&config(vec![]), None);
    assert!(cmd.contains("rubberduxd"));
    assert!(cmd.contains("--agent"));
    assert!(cmd.contains("192.168.64.1:19384"));
    assert_eq!(
        cmd,
        "nohup 'rubberduxd' --agent --rpc-host 192.168.64.1:19384 > /tmp/rubberdux-agent.log 2>&1 &"
    );
}

#[test]
fn test_build_agent_command_with_task_id() {
    let cmd = build_agent_command(&config(vec![]), Some("task-123"));
    assert!(cmd.contains("--task-id"));
    assert!(cmd.contains("task-123"));
}

#[test]
fn test_build_agent_command_with_env() {
    let cmd = build_agent_command(
        &config(vec![("TEST_KEY".to_string(), "test_value".to_string())]),
        None,
    );
    assert!(cmd.contains("TEST_KEY"));
    assert!(cmd.contains("test_value"));
    assert!(cmd.contains("export"));
    let script =
        "export 'TEST_KEY'='test_value' && 'rubberduxd' --agent --rpc-host 192.168.64.1:19384";
    assert_eq!(
        cmd,
        format!(
            "nohup bash -c {} > /tmp/rubberdux-agent.log 2>&1 &",
            shell_quote(script)
        )
    );
}

#[test]
fn a_binary_and_a_data_directory_are_set_up_first() {
    let c = HostConfig {
        agent_binary_path: Some("/opt/my agent".into()),
        agent_data_dir: Some("/data".into()),
        ..config(vec![])
    };
    let cmd = build_agent_command(&c, None);
    let setup = format!(
        "nohup chmod +x '/opt/my agent' && xattr -d com.apple.quarantine '/opt/my agent' 2>/dev/null || true && {}'/opt/my agent' --agent",
        SHARE_SETUP
    );
    assert!(cmd.starts_with(&setup), "{}", cmd);
    assert!(SHARE_SETUP.contains("sudo mkdir -p /mnt/shared; sudo mount"));
    assert!(SHARE_SETUP.ends_with("fi && "));
}

fn peer(app: &str) -> PeerId {
    PeerId::local(AppId(app.into()))
}

fn plain(text: &str) -> PeerWire {
    PeerWire { json: format!("{{\"text\":\"{}\"}}", text), durable: None }
}

fn durable_wire(id: &str) -> PeerWire {
    PeerWire { json: "{}".into(), durable: Some(durable(id, "a")) }
}

fn inbox() -> Mailbox {
    Mailbox::in_dir("/apps/b")
}

/// A whole relay: the send works or not, and the receiver answers in time or not.
fn relay(
    broker: &mut PeerBroker,
    from: &str,
    to: &str,
    wire: PeerWire,
    inbox: &mut Mailbox,
    sent: bool,
    folded: bool,
) -> PeerRouteOutcome {
    let mut step = broker.relay(&peer(from), &peer(to), wire.clone(), inbox);
    if step == RelayStep::Deliver {
        step = broker.after_send(&peer(from), &peer(to), wire.clone(), inbox, sent);
    }
    match step {
        RelayStep::Done(outcome) => outcome,
        RelayStep::AwaitFold => {
            let id = wire.durable.unwrap().id;
            if folded {
                assert!(broker.confirm_fold(&id, true));
            }
            broker.after_wait(&peer(to), &id, inbox, folded)
        }
        RelayStep::Deliver => unreachable!(),
    }
}

fn queued() -> PeerRouteOutcome {
    PeerRouteOutcome::Queued { wake: peer("b") }
}

#[test]
fn relay_delivers_to_a_live_sink() {
    let mut broker = PeerBroker::new();
    broker.register(peer("b"));
    let outcome = relay(&mut broker, "a", "b", plain("ping"), &mut inbox(), true, false);
    assert_eq!(outcome, PeerRouteOutcome::Delivered);
    match deliver_frame(&peer("a"), plain("ping")) {
        HostToAgent::PeerDeliver { from, payload } => {
            assert_eq!(from, "a");
            assert_eq!(payload, plain("ping"));
        }
        other => panic!("expected PeerDeliver, got {other:?}"),
    }
}

#[test]
fn relay_queues_to_inbox_when_target_offline() {
    let mut broker = PeerBroker::new();
    let mut mailbox = inbox();
    let outcome = relay(&mut broker, "a", "b", plain("later"), &mut mailbox, true, false);
    assert_eq!(outcome, queued());
    let drained = mailbox.drain();
    assert_eq!(drained.len(), 1);
    assert_eq!(drained[0].from, peer("a"));
    assert_eq!(drained[0].payload, plain("later"));
}

#[test]
fn relay_rejects_self_addressing() {
    let mut broker = PeerBroker::new();
    let mut mailbox = inbox();
    let outcome = relay(&mut broker, "a", "a", plain("x"), &mut mailbox, true, false);
    assert_eq!(outcome, PeerRouteOutcome::Rejected);
    assert!(mailbox.is_empty());
    assert!(broker.list_for(&peer("b")).is_empty());
}

#[test]
fn list_for_excludes_self_and_is_mru_ordered() {
    let mut broker = PeerBroker::new();
    broker.register(peer("a"));
    broker.register(peer("b"));
    broker.register(peer("c"));
    let listed = broker.list_for(&peer("a"));
    assert!(!listed.contains(&peer("a")), "must not list self");
    assert_eq!(listed, vec![peer("c"), peer("b")]);
}

#[test]
fn broker_peer_sender_maps_route_outcomes() {
    let sender = BrokerPeerSender::new(peer("a"));
    let id = PeerEnvelopeId("env-1".into());
    let made = sender.envelope(PeerPayload::Message("{\"text\":\"hi\"}".into()), &id);
    assert_eq!(made, durable("env-1", "a"));
    assert_eq!(BrokerPeerSender::receiver(&peer_id("b")), peer("b"));
    let mut broker = PeerBroker::new();
    broker.register(peer("b"));
    broker.confirm_fold(&id, true);
    let wire = PeerWire { json: "{}".into(), durable: Some(made) };
    let delivered = relay(&mut broker, "a", "b", wire, &mut inbox(), true, false);
    assert_eq!(BrokerPeerSender::told(&delivered), DeliveryOutcome::Delivered);
    assert_eq!(BrokerPeerSender::told(&queued()), DeliveryOutcome::Queued);
    assert_eq!(
        BrokerPeerSender::told(&PeerRouteOutcome::Rejected),
        DeliveryOutcome::Rejected
    );
}

#[test]
fn a_sender_is_told_of_an_offline_and_of_its_own_address() {
    let sender = BrokerPeerSender::new(peer("a"));
    let send = |broker: &mut PeerBroker, to: &str, id: &str, mailbox: &mut Mailbox| {
        let id = PeerEnvelopeId(id.into());
        let made = sender.envelope(PeerPayload::Message("{\"text\":\"hi\"}".into()), &id);
        let wire = PeerWire { json: "{}".into(), durable: Some(made) };
        let outcome = relay(broker, "a", to, wire, mailbox, true, false);
        BrokerPeerSender::told(&outcome)
    };
    let mut broker = PeerBroker::new();
    let mut mailbox = inbox();
    assert_eq!(send(&mut broker, "b", "env-1", &mut mailbox), DeliveryOutcome::Queued);
    assert_eq!(mailbox.depth(), 1);
    let mut own = inbox();
    assert_eq!(send(&mut broker, "a", "env-2", &mut own), DeliveryOutcome::Rejected);
    assert!(own.is_empty());
}

#[test]
fn relay_reports_delivered_only_after_durable_fold_then_advances() {
    let mut broker = PeerBroker::new();
    broker.register(peer("b"));
    broker.confirm_fold(&PeerEnvelopeId("env-1".into()), true);
    let mut mailbox = inbox();
    let outcome = relay(&mut broker, "a", "b", durable_wire("env-1"), &mut mailbox, true, false);
    assert_eq!(outcome, PeerRouteOutcome::Delivered);
    assert!(
        mailbox.is_empty(),
        "the durable inbox is advanced past a confirmed-folded envelope"
    );
}

#[test]
fn relay_queues_durably_to_offline_peer() {
    let mut broker = PeerBroker::new();
    let mut mailbox = inbox();
    let outcome = relay(&mut broker, "a", "b", durable_wire("env-2"), &mut mailbox, true, false);
    assert_eq!(outcome, queued());
    assert_eq!(mailbox.peek().len(), 1);
    assert_eq!(
        mailbox.peek()[0].durable().map(|d| d.id.clone()),
        Some(PeerEnvelopeId("env-2".into())),
        "the un-acked envelope persists in the durable inbox"
    );
}

#[test]
fn crash_window_before_fold_keeps_envelope_redeliverable_exactly_once() {
    let mut broker = PeerBroker::new().with_fold_ack_timeout(50);
    assert_eq!(broker.fold_ack_timeout_ms(), 50);
    broker.register(peer("b"));
    let mut mailbox = inbox();
    let first = relay(&mut broker, "a", "b", durable_wire("env-9"), &mut mailbox, true, false);
    assert_eq!(first, queued());
    assert_eq!(
        mailbox.peek().len(),
        1,
        "the un-folded envelope PERSISTS in the durable inbox (not dropped)"
    );
    broker.confirm_fold(&PeerEnvelopeId("env-9".into()), true);
    let second = relay(&mut broker, "a", "b", durable_wire("env-9"), &mut mailbox, true, false);
    assert_eq!(second, PeerRouteOutcome::Delivered, "the redelivery is delivered once");
    assert!(
        mailbox.is_empty(),
        "the durable inbox is advanced exactly once after the confirmed fold"
    );
}

#[test]
fn broker_redelivers_at_least_once_dedup_is_the_receivers_job() {
    let mut broker = PeerBroker::new();
    broker.register(peer("b"));
    let mut mailbox = inbox();
    for _ in 0..2 {
        broker.confirm_fold(&PeerEnvelopeId("env-3".into()), true);
        let step = broker.relay(&peer("a"), &peer("b"), durable_wire("env-3"), &mut mailbox);
        assert_eq!(step, RelayStep::Deliver, "each try reaches the receiver");
        let done =
            broker.after_send(&peer("a"), &peer("b"), durable_wire("env-3"), &mut mailbox, true);
        assert_eq!(done, RelayStep::Done(PeerRouteOutcome::Delivered));
    }
}

#[test]
fn unregister_keeps_app_addressable_via_inbox() {
    let mut broker = PeerBroker::new();
    broker.register(peer("b"));
    broker.unregister(&peer("b"));
    assert!(!broker.list_for(&peer("a")).contains(&peer("b")));
    let outcome = relay(&mut broker, "a", "b", plain("x"), &mut inbox(), true, false);
    assert_eq!(outcome, queued());
}

#[test]
fn relay_durable_rejects_when_inbox_at_cap() {
    let mut broker = PeerBroker::new().with_peer_inbox_cap(1);
    let mut mailbox = inbox();
    let first = relay(&mut broker, "a", "b", durable_wire("env-cap-1"), &mut mailbox, true, false);
    assert_eq!(first, queued());
    assert_eq!(mailbox.depth(), 1, "first send lands in the inbox");
    let second =
        relay(&mut broker, "a", "b", durable_wire("env-cap-2"), &mut mailbox, true, false);
    assert_eq!(second, PeerRouteOutcome::Rejected, "full inbox rejects the new send");
    assert_eq!(mailbox.depth(), 1, "inbox unchanged — nothing enqueued on Rejected");
}

#[test]
fn relay_plain_rejects_when_inbox_at_cap() {
    let mut broker = PeerBroker::new().with_peer_inbox_cap(1);
    let mut mailbox = inbox();
    let first = relay(&mut broker, "a", "b", plain("first"), &mut mailbox, true, false);
    assert_eq!(first, queued());
    assert_eq!(mailbox.depth(), 1);
    let second = relay(&mut broker, "a", "b", plain("second"), &mut mailbox, true, false);
    assert_eq!(second, PeerRouteOutcome::Rejected, "full inbox rejects the plain send");
    assert_eq!(mailbox.depth(), 1, "existing entries stay intact");
}

#[test]
fn relay_with_zero_cap_is_unbounded() {
    let mut broker = PeerBroker::new();
    assert_eq!(broker.peer_inbox_cap(), 0, "default cap is 0 (unbounded)");
    let mut mailbox = inbox();
    for i in 0..5u32 {
        let outcome =
            relay(&mut broker, "a", "b", plain(&format!("{}", i)), &mut mailbox, true, false);
        assert_eq!(outcome, queued(), "send {i} must be Queued (unbounded)");
    }
    assert_eq!(mailbox.depth(), 5, "all 5 envelopes queued — 0 cap never rejects");
}

#[test]
fn relay_durable_retry_passes_through_full_inbox() {
    let mut broker = PeerBroker::new().with_peer_inbox_cap(1).with_fold_ack_timeout(1);
    let mut mailbox = inbox();
    let first = relay(&mut broker, "a", "b", durable_wire("env-retry"), &mut mailbox, true, false);
    assert_eq!(first, queued());
    assert_eq!(mailbox.depth(), 1);
    let retry = relay(&mut broker, "a", "b", durable_wire("env-retry"), &mut mailbox, true, false);
    assert_eq!(
        retry,
        queued(),
        "a retry of the same envelope passes through a full inbox (no new entry)"
    );
    assert_eq!(mailbox.depth(), 1, "depth unchanged — the retry was idempotent");
}

#[test]
fn a_receiver_that_cannot_be_sent_to_is_absent() {
    let mut broker = PeerBroker::new();
    broker.register(peer("b"));
    let mut mailbox = inbox();
    assert_eq!(
        relay(&mut broker, "a", "b", plain("x"), &mut mailbox, false, false),
        queued()
    );
    assert_eq!(mailbox.depth(), 1);
    assert!(!broker.list_for(&peer("a")).contains(&peer("b")));
    assert_eq!(
        relay(&mut broker, "a", "b", durable_wire("e"), &mut mailbox, true, true),
        queued()
    );
    assert_eq!(mailbox.depth(), 2);
}

#[test]
fn a_fold_during_the_wait_counts() {
    let mut broker = PeerBroker::new();
    broker.register(peer("b"));
    let mut mailbox = inbox();
    assert_eq!(
        relay(&mut broker, "a", "b", durable_wire("e"), &mut mailbox, true, true),
        PeerRouteOutcome::Delivered
    );
    assert!(mailbox.is_empty());
    let id = PeerEnvelopeId("late".into());
    assert!(!broker.await_fold(&id));
    assert!(!broker.confirm_fold(&id, false), "who gave up is not told");
    assert!(broker.await_fold(&id), "but the confirmation is remembered");
    assert!(!broker.await_fold(&id), "and counts once");
    broker.stop_waiting(&id);
    assert!(!broker.confirm_fold(&id, true), "nobody waits any longer");
}

#[test]
fn surface_router_routes_by_app_identity_not_accept_order() {
    let mut router = SurfaceRouter::new();
    router.register_client("app-b");
    router.register_worker("app-b");
    router.register_client("app-a");
    router.register_worker("app-a");
    assert!(router.route_drive("app-a", PutResult::Put));
    assert!(router.route_inbound("app-a", PutResult::Put));
    assert!(!router.route_drive("app-a", PutResult::Full));
    assert!(router.has_client("app-a"), "a full queue is still there");
    assert!(!router.route_drive("app-a", PutResult::Closed));
    assert!(!router.has_client("app-a"));
    assert!(!router.route_drive("app-a", PutResult::Put));
    assert!(router.has_client("app-b"));
    assert!(router.has_worker("app-a"));
    assert!(!router.route_inbound("app-a", PutResult::Closed));
    assert!(!router.has_worker("app-a"));
    router.unregister_client("app-b");
    router.unregister_worker("app-b");
    assert!(!router.has_client("app-b"));
    assert!(!router.has_worker("app-b"));
    assert!(!goes_to_worker(&AgentToHost::PeerList));
}

#[test]
fn greetings_tell_clients_from_strangers() {
    assert_eq!(
        greet_surface_client(Some(AgentToHost::Hello { app_id: "a".into() })),
        SurfaceGreeting::Client { app_id: "a".into() }
    );
    assert_eq!(
        greet_surface_client(Some(AgentToHost::PeerList)),
        SurfaceGreeting::Stranger { frame: AgentToHost::PeerList }
    );
    assert_eq!(greet_surface_client(None), SurfaceGreeting::Gone);
    assert_eq!(expect_child(AcceptedWorker::App { app_id: "a".into() }), None);
    let child = AcceptedWorker::VmChild { first_frame: AgentToHost::PeerList };
    assert_eq!(expect_child(child), Some(AgentToHost::PeerList));
}

fn response(text: &str, is_final: bool) -> Option<AgentToHost> {
    Some(AgentToHost::Response {
        text: text.into(),
        entry_id: 0,
        is_final,
        reply_to_message_id: None,
    })
}

#[test]
fn a_childs_last_response_is_its_answer() {
    let mut talk = ChildConversation::new();
    assert_eq!(talk.take(response("one", false)), ChildStep::Continue);
    let request =
        AgentInteraction { app_id: "a".into(), request_id: "r".into(), body: "?".into() };
    let ask = AgentToHost::ExternalInteraction { task_id: "t".into(), request: request.clone() };
    assert_eq!(
        talk.take(Some(ask)),
        ChildStep::Ask { request_id: "r".into(), request }
    );
    assert_eq!(
        talk.take(Some(AgentToHost::SpawnVM { request: "{}".into() })),
        ChildStep::Continue
    );
    assert_eq!(talk.take(response("two", true)), ChildStep::Finish);
    assert_eq!(talk.into_text(), "two");
    let mut cut = ChildConversation::new();
    assert_eq!(cut.take(None), ChildStep::Finish);
    assert_eq!(cut.into_text(), "");
    let reply = InteractionResponse { request_id: "r".into(), body: "yes".into() };
    assert_eq!(
        answer_frame("r".into(), reply.clone()),
        HostToAgent::InteractionResponse { request_id: "r".into(), response: reply }
    );
}

#[test]
fn a_failed_start_is_reported() {
    assert!(started(0, "", "").is_ok());
    match started(-1, "out", "err") {
        Err(Error::Vm(m)) => assert_eq!(
            m,
            "Child VM agent failed to start (exit -1): stdout=out stderr=err"
        ),
        other => panic!("unexpected {:?}", other),
    }
    assert_eq!(host_log_path("t1"), "/tmp/rubberdux-child-t1.log");
}

/// The machine is created, reached, filled and started, and waited for.
fn accepting() -> ChildRun {
    let (mut run, action) = ChildRun::new();
    assert_eq!(action, VmAction::Create);
    assert_eq!(run.status(), Some("run_child_vm: creating VM"));
    assert_eq!(run.advance(VmEvent::Done), VmAction::WaitForSsh);
    assert_eq!(run.advance(VmEvent::Done), VmAction::PlaceFiles);
    assert_eq!(run.advance(VmEvent::Done), VmAction::Start);
    assert_eq!(run.advance(ran(0)), VmAction::KeepEarlyLog);
    assert_eq!(run.status(), None);
    assert_eq!(run.advance(VmEvent::Done), VmAction::Accept);
    assert_eq!(run.status(), Some("run_child_vm: waiting for RPC connection"));
    run
}

fn ran(exit_code: i32) -> VmEvent {
    VmEvent::Ran { exit_code, stdout: "out".into(), stderr: "err".into() }
}

#[test]
fn a_machine_lives_and_is_destroyed() {
    let mut run = accepting();
    let stranger = AcceptedWorker::App { app_id: "a".into() };
    assert_eq!(run.advance(VmEvent::Accepted(stranger)), VmAction::Accept);
    let request =
        AgentInteraction { app_id: "a".into(), request_id: "r".into(), body: "?".into() };
    let first_frame =
        AgentToHost::ExternalInteraction { task_id: "t".into(), request: request.clone() };
    assert_eq!(
        run.advance(VmEvent::Accepted(AcceptedWorker::VmChild { first_frame })),
        VmAction::Ask { request_id: "r".into(), request }
    );
    assert_eq!(run.advance(VmEvent::Frame(response("half", false))), VmAction::Read);
    assert_eq!(run.advance(VmEvent::Frame(response("whole", true))), VmAction::KeepLog);
    assert_eq!(run.advance(VmEvent::Done), VmAction::Destroy);
    assert_eq!(
        run.advance(VmEvent::Failed(Error::ChannelClosed)),
        VmAction::Return { result: Ok("whole".into()) },
        "how the machine is destroyed does not matter"
    );
}

#[test]
fn a_machine_that_fails_is_destroyed() {
    let mut run = accepting();
    assert_eq!(run.advance(VmEvent::Failed(Error::ChannelClosed)), VmAction::Destroy);
    assert_eq!(
        run.advance(VmEvent::Done),
        VmAction::Return { result: Err(Error::ChannelClosed) }
    );
    let (mut run, _) = ChildRun::new();
    run.advance(VmEvent::Done);
    run.advance(VmEvent::Done);
    run.advance(VmEvent::Done);
    assert_eq!(run.advance(ran(3)), VmAction::Destroy);
    let said = "Child VM agent failed to start (exit 3): stdout=out stderr=err";
    assert_eq!(
        run.advance(VmEvent::Done),
        VmAction::Return { result: Err(Error::Vm(said.into())) }
    );
    let (mut run, _) = ChildRun::new();
    assert_eq!(
        run.advance(VmEvent::Failed(Error::ChannelClosed)),
        VmAction::Return { result: Err(Error::ChannelClosed) },
        "what was never created is not destroyed"
    );
}

#[test]
fn a_machine_finds_what_it_is_to_do() {
    let files = files_to_place("do it", "external", Some("codex"));
    let named: Vec<(&str, &str)> =
        files.iter().map(|f| (f.name, f.content.as_str())).collect();
    assert_eq!(
        named,
        vec![
            ("prompt.txt", "do it"),
            ("subagent_type.txt", "external"),
            ("agent_name.txt", "codex")
        ]
    );
    assert_eq!(files_to_place("p", "s", None).len(), 2);
}

/// Brings a host up, with the given steps failing.
fn bring_up(telegram: bool, failing: &[StartStep]) -> StartAction {
    let mut startup = Startup::new(telegram);
    loop {
        let failure = if failing.contains(&startup.step()) { Some("no") } else { None };
        match startup.advance(failure) {
            StartAction::Do { .. } => {}
            end => return end,
        }
    }
}

#[test]
fn a_host_does_without_the_rest() {
    let all = HostPlan { vm_isolation: true, surface_relay: true, board: true, telegram: true };
    assert_eq!(bring_up(true, &[]), StartAction::Serve { plan: all });
    assert_eq!(
        bring_up(false, &[StartStep::BindRpc, StartStep::BindSurface, StartStep::BindBoard]),
        StartAction::Serve {
            plan: HostPlan {
                vm_isolation: false,
                surface_relay: false,
                board: false,
                telegram: false
            }
        }
    );
    assert_eq!(
        bring_up(true, &[StartStep::BindFallback]),
        StartAction::Serve { plan: all },
        "the fallback is not needed where the port is free"
    );
    for (step, said) in [
        (StartStep::CreateSession, "Failed to create session: no; aborting host startup"),
        (StartStep::PrepareMindset, "Failed to initialize mindset: no; aborting host startup"),
        (StartStep::PrepareWorkspace, "Failed to initialize workspace: no; aborting host startup"),
        (StartStep::SelectProvider, "Failed to select model provider: no; aborting host startup"),
    ] {
        assert_eq!(bring_up(true, &[step]), StartAction::Abort { message: said.into() });
    }
    assert_eq!(
        bring_up(true, &[StartStep::BindRpc, StartStep::BindFallback]),
        StartAction::Abort {
            message: "Failed to bind fallback RPC listener: no; aborting host startup".into()
        }
    );
}
