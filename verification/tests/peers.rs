use rubberdux::app::peer::directory::PeerDirectory;
use rubberdux::app::peer::mailbox::{Mailbox, PeerEnvelope};
use rubberdux::app::peer::{NodeId, PeerId};
use rubberdux::app::AppId;
use rubberdux::jsonl;
use rubberdux::protocol::{
    Authorization, DriveCommand, DurableEnvelope, PeerEnvelopeId, PeerPayload, PeerWire,
    WorldPeerId,
};

fn peer(app: &str) -> PeerId {
    PeerId::local(AppId(app.into()))
}

#[test]
fn register_admits_a_peer() {
    let mut dir = PeerDirectory::new();
    assert!(dir.is_empty());
    dir.register(peer("a"));
    assert_eq!(dir.len(), 1);
    assert!(dir.contains(&peer("a")));
}

#[test]
fn register_is_idempotent_on_identity() {
    let mut dir = PeerDirectory::new();
    dir.register(peer("a"));
    dir.register(peer("a"));
    assert_eq!(dir.len(), 1, "re-registering the same peer must not duplicate");
}

#[test]
fn list_is_most_recently_used_first() {
    let mut dir = PeerDirectory::new();
    dir.register(peer("a"));
    dir.register(peer("b"));
    dir.register(peer("c"));
    assert_eq!(dir.list(), vec![peer("c"), peer("b"), peer("a")]);
}

#[test]
fn touch_moves_a_peer_to_the_front() {
    let mut dir = PeerDirectory::new();
    dir.register(peer("a"));
    dir.register(peer("b"));
    dir.register(peer("c"));
    dir.touch(&peer("a"));
    assert_eq!(dir.list(), vec![peer("a"), peer("c"), peer("b")]);
}

#[test]
fn unregister_removes_a_peer() {
    let mut dir = PeerDirectory::new();
    dir.register(peer("a"));
    dir.register(peer("b"));
    assert!(dir.unregister(&peer("a")));
    assert!(!dir.contains(&peer("a")));
    assert_eq!(dir.list(), vec![peer("b")]);
    assert!(!dir.unregister(&peer("a")));
}

#[test]
fn addressable_excludes_self() {
    let mut dir = PeerDirectory::new();
    dir.register(peer("a"));
    dir.register(peer("b"));
    dir.register(peer("c"));
    let addressable = dir.addressable_by(&peer("b"));
    assert!(!addressable.contains(&peer("b")), "must not be able to address self");
    assert_eq!(addressable.len(), 2);
    assert_eq!(addressable, vec![peer("c"), peer("a")]);
}

#[test]
fn may_send_forbids_only_self() {
    let dir = PeerDirectory::new();
    assert!(!dir.may_send(&peer("a"), &peer("a")));
    assert!(dir.may_send(&peer("a"), &peer("b")));
}

#[test]
fn may_send_allows_an_offline_target() {
    let dir = PeerDirectory::new();
    let online = peer("a");
    let offline = peer("b");
    assert!(dir.may_send(&online, &offline));
    assert!(!dir.contains(&offline));
}

#[test]
fn distinct_nodes_are_distinct_peers() {
    let mut dir = PeerDirectory::new();
    let local = PeerId::new(AppId("a".into()), NodeId::local());
    let remote = PeerId::new(AppId("a".into()), NodeId("other".into()));
    dir.register(local.clone());
    dir.register(remote.clone());
    assert_eq!(dir.len(), 2);
    assert!(dir.may_send(&local, &remote));
}

#[test]
fn local_peer_is_on_the_local_node() {
    let id = PeerId::local(AppId("2026-06-10-00-00-00-UTC".into()));
    assert!(id.is_local());
    assert_eq!(id.node_id, NodeId::local());
}

#[test]
fn a_remote_node_is_not_local() {
    let id = PeerId::new(
        AppId("2026-06-10-00-00-00-UTC".into()),
        NodeId("other-machine".into()),
    );
    assert!(!id.is_local());
}

#[test]
fn peer_id_displays_node_then_app() {
    let id = PeerId::new(AppId("app-1".into()), NodeId("node-2".into()));
    assert_eq!(id.display(), "node-2/app-1");
}

fn envelope(from: &str, text: &str) -> PeerEnvelope {
    PeerEnvelope {
        from: PeerId::local(AppId(from.into())),
        payload: PeerWire { json: text_payload(text), durable: None },
    }
}

fn text_payload(text: &str) -> String {
    format!("{{\"text\":\"{}\"}}", text)
}

fn text_of(e: &PeerEnvelope) -> String {
    let value: serde_json::Value = serde_json::from_str(&e.payload.json).unwrap();
    value["text"].as_str().unwrap().to_owned()
}

fn durable(id: &str) -> DurableEnvelope {
    DurableEnvelope {
        id: PeerEnvelopeId(id.into()),
        payload: PeerPayload::Message(text_payload("x")),
        auth: Authorization {
            from: WorldPeerId { app_id: "a".into(), node_id: "local".into() },
            token: "a".into(),
        },
    }
}

fn queued(id: &str) -> PeerEnvelope {
    PeerEnvelope {
        from: PeerId::local(AppId("a".into())),
        payload: PeerWire { json: format!("{{\"id\":\"{}\"}}", id), durable: Some(durable(id)) },
    }
}

fn id_of(e: &PeerEnvelope) -> Option<PeerEnvelopeId> {
    e.durable().map(|d| d.id.clone())
}

#[test]
fn enqueue_then_drain_returns_in_arrival_order() {
    let mut mailbox = Mailbox::in_dir("/apps/x");
    mailbox.enqueue(envelope("a", "first"));
    mailbox.enqueue(envelope("b", "second"));
    let drained = mailbox.drain();
    assert_eq!(drained.len(), 2);
    assert_eq!(text_of(&drained[0]), "first");
    assert_eq!(text_of(&drained[1]), "second");
    assert_eq!(drained[0].from, PeerId::local(AppId("a".into())));
}

#[test]
fn drain_clears_the_inbox() {
    let mut mailbox = Mailbox::in_dir("/apps/x");
    mailbox.enqueue(envelope("a", "hi"));
    assert!(!mailbox.is_empty());
    let first = mailbox.drain();
    assert_eq!(first.len(), 1);
    let second = mailbox.drain();
    assert!(second.is_empty());
    assert!(mailbox.is_empty());
}

#[test]
fn peek_does_not_consume() {
    let mut mailbox = Mailbox::in_dir("/apps/x");
    mailbox.enqueue(envelope("a", "stay"));
    assert_eq!(mailbox.peek().len(), 1);
    assert_eq!(mailbox.peek().len(), 1);
    assert_eq!(mailbox.drain().len(), 1);
}

#[test]
fn missing_inbox_is_empty_not_an_error() {
    let mut mailbox = Mailbox::in_dir("/apps/x");
    assert!(mailbox.is_empty());
    assert!(mailbox.peek().is_empty());
    assert!(mailbox.drain().is_empty());
}

#[test]
fn enqueue_after_drain_starts_a_fresh_log() {
    let mut mailbox = Mailbox::in_dir("/apps/x");
    mailbox.enqueue(envelope("a", "one"));
    mailbox.drain();
    mailbox.enqueue(envelope("b", "two"));
    let drained = mailbox.drain();
    assert_eq!(drained.len(), 1);
    assert_eq!(text_of(&drained[0]), "two");
}

#[test]
fn advance_removes_one_envelope_by_id_and_keeps_the_remainder() {
    let mut mailbox = Mailbox::in_dir("/apps/x");
    mailbox.enqueue(queued("env-1"));
    mailbox.enqueue(queued("env-2"));
    assert!(mailbox.advance(&PeerEnvelopeId("env-1".into())));
    assert_eq!(mailbox.peek().len(), 1);
    assert_eq!(id_of(&mailbox.peek()[0]), Some(PeerEnvelopeId("env-2".into())));
    assert!(!mailbox.advance(&PeerEnvelopeId("missing".into())));
    assert_eq!(mailbox.peek().len(), 1);
    assert!(mailbox.advance(&PeerEnvelopeId("env-2".into())));
    assert!(mailbox.is_empty());
}

#[test]
fn enqueued_envelope_survives_until_advanced() {
    let mut mailbox = Mailbox::in_dir("/apps/x");
    mailbox.enqueue(queued("env-9"));
    let on_disk = mailbox.drain();
    let mut reopened = Mailbox::with_queue("/apps/x", on_disk);
    assert_eq!(reopened.peek().len(), 1, "the un-advanced envelope persists across a crash");
    assert_eq!(id_of(&reopened.peek()[0]), Some(PeerEnvelopeId("env-9".into())));
    assert!(reopened.advance(&PeerEnvelopeId("env-9".into())));
    assert!(reopened.is_empty());
}

#[test]
fn remove_first_pops_the_head() {
    let mut mailbox = Mailbox::in_dir("/apps/x");
    mailbox.enqueue(envelope("a", "first"));
    mailbox.enqueue(envelope("b", "second"));
    let head = mailbox.remove_first().expect("a head");
    assert_eq!(text_of(&head), "first");
    assert_eq!(mailbox.peek().len(), 1);
    assert_eq!(text_of(&mailbox.peek()[0]), "second");
    assert!(mailbox.remove_first().is_some());
    assert!(mailbox.remove_first().is_none(), "an empty inbox pops None");
}

#[test]
fn durable_extracts_the_full_envelope() {
    let full = PeerEnvelope {
        from: PeerId::local(AppId("a".into())),
        payload: PeerWire { json: "{}".into(), durable: Some(durable("env-1")) },
    };
    assert_eq!(id_of(&full), Some(PeerEnvelopeId("env-1".into())));
    let plain = PeerEnvelope {
        from: PeerId::local(AppId("a".into())),
        payload: PeerWire { json: "{\"x\":1}".into(), durable: None },
    };
    assert!(plain.durable().is_none());
}

#[test]
fn inbox_lies_in_the_apps_directory() {
    assert_eq!(Mailbox::in_dir("/apps/x").path(), "/apps/x/inbox.jsonl");
    assert_eq!(Mailbox::in_dir("/apps/x/").path(), "/apps/x/inbox.jsonl");
}

#[test]
fn an_envelope_is_queued_once() {
    let mut mailbox = Mailbox::in_dir("/apps/x");
    let id = PeerEnvelopeId("env-1".into());
    assert!(mailbox.enqueue_unique(queued("env-1"), &id));
    assert!(!mailbox.enqueue_unique(queued("env-1"), &id));
    assert_eq!(mailbox.depth(), 1);
    assert!(mailbox.holds(&id));
    assert!(!mailbox.holds(&PeerEnvelopeId("env-2".into())));
}

#[test]
fn a_drive_is_durable_too() {
    let drive = DriveCommand { surface_ops: vec![], prompt: Some("go".into()) };
    let e = PeerEnvelope {
        from: peer("a"),
        payload: PeerWire {
            json: "{}".into(),
            durable: Some(DurableEnvelope { payload: PeerPayload::Drive(drive), ..durable("d") }),
        },
    };
    assert_eq!(id_of(&e), Some(PeerEnvelopeId("d".into())));
}

#[test]
fn lines_are_read_back_as_they_were_written() {
    let records = vec!["{\"a\":1}".to_string(), "{\"b\":2}".to_string()];
    let text = jsonl::join_lines(&records);
    assert_eq!(text, "{\"a\":1}\n{\"b\":2}\n");
    assert_eq!(jsonl::content_lines(&text), records);
    let more = format!("{}{}\n", text, "{\"c\":3}");
    assert_eq!(jsonl::content_lines(&more).len(), 3);
    assert_eq!(jsonl::content_lines("\n  \n{\"x\":0}\r\n"), vec!["{\"x\":0}".to_string()]);
    assert_eq!(jsonl::content_lines(""), Vec::<String>::new());
}

#[test]
fn the_directory_is_in_the_order_of_the_last_use() {
    let id = |name: &str| PeerId::local(AppId(name.into()));
    let mut d = PeerDirectory::new();
    d.register(id("a"));
    d.register(id("b"));
    d.register(id("c"));
    d.touch(&id("a"));
    d.unregister(&id("b"));
    d.register(id("d"));
    d.touch(&id("b"));
    d.unregister(&id("d"));
    assert_eq!(d.list(), vec![id("b"), id("a"), id("c")]);
    assert_eq!(d.len(), 3);
    assert!(!d.contains(&id("d")));
}
