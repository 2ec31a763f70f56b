use rubberdux::app::registry::disk::NodeKind;
use rubberdux::app::registry::store::{DirEntry, FilesystemAppStore, InitialFiles};
use rubberdux::app::supervisor::{BoardEvent, CreateAppRequest, MemorySupervisor};
use rubberdux::app::{App, AppId, AppStatus, BoardPosition, IconSpec};
use rubberdux::error::Error;
use rubberdux::protocol::InteractionResponse;

fn sample_app_at(id: &str, row: i32, column: i32) -> App {
    App::new(
        AppId(id.into()),
        "Plan the trip".into(),
        IconSpec { symbol: "airplane".into(), color: "#3478F6".into() },
        BoardPosition { row, column },
    )
}

fn sample_app(id: &str) -> App {
    sample_app_at(id, 1, 1)
}

fn request() -> CreateAppRequest {
    CreateAppRequest {
        title: "Trip".into(),
        icon: IconSpec { symbol: "airplane".into(), color: "#3478F6".into() },
        position: BoardPosition { row: 0, column: 3 },
    }
}

#[test]
fn new_app_is_tombstoned() {
    assert_eq!(
        sample_app_at("2026-06-10-00-00-00-UTC", 2, 5).status,
        AppStatus::Tombstoned
    );
}

#[test]
fn app_id_now_is_sortable_format() {
    let id = AppId::now();
    assert!(id.as_str().ends_with("-UTC"));
    assert_eq!(id.as_str().len(), 23);
}

#[test]
fn new_app_is_last_active_now() {
    let app = sample_app("a");
    assert!(app.last_active.contains('T'));
    assert!(app.last_active.starts_with("20"));
    assert!(app.last_active.ends_with("+00:00"));
    assert_eq!(app.summary, "");
    assert!(app.member_session_ids.is_empty());
    assert!(!app.user_locked);
}

#[test]
fn create_list_get_roundtrip() {
    let mut store = FilesystemAppStore::with_apps_dir("/home/u/apps".to_string());
    let app = sample_app("2026-06-10-00-00-00-UTC");
    store.create(&app).unwrap();
    assert_eq!(store.members_path(&app.id), "/home/u/apps/2026-06-10-00-00-00-UTC/members.jsonl");
    assert_eq!(
        store.merge_log_path(&app.id),
        "/home/u/apps/2026-06-10-00-00-00-UTC/merge_log.jsonl"
    );
    assert_eq!(
        store.initial_files(&app.id),
        InitialFiles {
            manifest: "/home/u/apps/2026-06-10-00-00-00-UTC/metadata.json".into(),
            empty_logs: vec![
                "/home/u/apps/2026-06-10-00-00-00-UTC/members.jsonl".into(),
                "/home/u/apps/2026-06-10-00-00-00-UTC/merge_log.jsonl".into(),
            ],
        }
    );
    let listed = store.list(false);
    assert_eq!(listed.len(), 1);
    assert_eq!(listed[0].id, app.id);
    assert_eq!(listed[0].title, "Plan the trip");
    let fetched = store.get(&app.id).unwrap();
    assert_eq!(fetched, app);
}

#[test]
fn create_list_get_roundtrip_through_rubberdux_home() {
    let mut store = FilesystemAppStore::new(&Some("/tmp/home".to_string()), &None);
    let app = sample_app("2026-06-10-00-00-07-UTC");
    store.create(&app).unwrap();
    assert_eq!(store.app_dir(&app.id), "/tmp/home/apps/2026-06-10-00-00-07-UTC");
    assert_eq!(store.list(false).len(), 1);
    assert_eq!(store.get(&app.id).unwrap(), app);
}

#[test]
fn home_falls_back_to_the_users_and_then_here() {
    let id = AppId("a".into());
    let users = FilesystemAppStore::new(&None, &Some("/home/u".to_string()));
    assert_eq!(users.app_dir(&id), "/home/u/.rubberdux/apps/a");
    let here = FilesystemAppStore::new(&None, &None);
    assert_eq!(here.app_dir(&id), "./.rubberdux/apps/a");
}

#[test]
fn create_rejects_duplicate() {
    let mut store = FilesystemAppStore::with_apps_dir("/apps".to_string());
    let app = sample_app("2026-06-10-00-00-01-UTC");
    store.create(&app).unwrap();
    match store.create(&app) {
        Err(Error::App(m)) => assert_eq!(m, "App `2026-06-10-00-00-01-UTC` already exists"),
        other => panic!("unexpected {:?}", other),
    }
    assert_eq!(store.list(false).len(), 1);
}

#[test]
fn archive_removes_from_default_list_but_stays_addressable() {
    let mut store = FilesystemAppStore::with_apps_dir("/apps".to_string());
    let app = sample_app("2026-06-10-00-00-02-UTC");
    store.create(&app).unwrap();
    assert_eq!(store.addressable_home(&app.id), "/apps/2026-06-10-00-00-02-UTC");
    store.archive(&app.id).unwrap();
    assert!(store.list(false).is_empty());
    let with_archived = store.list(true);
    assert_eq!(with_archived.len(), 1);
    assert_eq!(with_archived[0].id, app.id);
    assert_eq!(store.get(&app.id).unwrap().id, app.id);
    assert_eq!(store.addressable_home(&app.id), "/apps/archives/2026-06-10-00-00-02-UTC");
    match store.archive(&app.id) {
        Err(Error::App(m)) => assert_eq!(m, "App `2026-06-10-00-00-02-UTC` does not exist"),
        other => panic!("unexpected {:?}", other),
    }
}

#[test]
fn an_archived_name_is_not_archived_twice() {
    let mut store = FilesystemAppStore::with_apps_dir("/apps".to_string());
    let app = sample_app("x");
    store.create(&app).unwrap();
    store.archive(&app.id).unwrap();
    store.create(&app).unwrap();
    assert!(matches!(store.archive(&app.id), Err(Error::Io(_))));
    assert_eq!(store.list(false).len(), 1);
}

fn dir(name: &str, kind: NodeKind, is_empty: bool) -> DirEntry {
    DirEntry { name: name.into(), kind, is_empty, manifest: None }
}

#[test]
fn an_empty_directory_in_the_archive_gives_way() {
    let app = sample_app("2026-06-10-00-00-09-UTC");
    let archived = vec![dir("other", NodeKind::Directory, false), dir("2026-06-10-00-00-09-UTC", NodeKind::Directory, true)];
    let mut store = FilesystemAppStore::with_entries("/apps".to_string(), vec![], archived);
    store.create(&app).unwrap();
    store.archive(&app.id).unwrap();
    assert!(store.list(false).is_empty());
    assert_eq!(store.get(&app.id).unwrap().id, app.id);
}

#[test]
fn a_file_in_the_archive_does_not_give_way() {
    let app = sample_app("2026-06-10-00-00-09-UTC");
    let archived = vec![dir("2026-06-10-00-00-09-UTC", NodeKind::File, false)];
    let mut store = FilesystemAppStore::with_entries("/apps".to_string(), vec![], archived);
    store.create(&app).unwrap();
    assert!(matches!(store.archive(&app.id), Err(Error::Io(_))));
    assert_eq!(store.list(false).len(), 1);
}

#[test]
fn the_archive_is_not_moved_into_itself() {
    let live = vec![dir("archives", NodeKind::Directory, false)];
    let mut store = FilesystemAppStore::with_entries("/apps".to_string(), live, vec![]);
    assert!(matches!(store.archive(&AppId("archives".into())), Err(Error::Io(_))));
}

#[test]
fn an_id_may_be_a_path() {
    let app = sample_app("x");
    let mut store = FilesystemAppStore::with_apps_dir("/apps".to_string());
    store.create(&app).unwrap();
    assert_eq!(store.get(&AppId("./x/".into())).unwrap().id, app.id);
    store.archive(&app.id).unwrap();
    assert_eq!(store.get(&AppId("archives/x".into())).unwrap().id, app.id);
    assert_eq!(store.get(&AppId("archives//x".into())).unwrap().id, app.id);
    assert_eq!(store.get(&AppId("/apps/archives/x".into())).unwrap().id, app.id);
    assert!(store.get(&AppId("archives".into())).is_none());
    for id in ["", ".", "archives", "archives/x", "/apps"] {
        match store.create(&sample_app(id)) {
            Err(Error::App(m)) => assert_eq!(m, format!("App `{}` already exists", id)),
            other => panic!("unexpected {:?}", other),
        }
    }
    assert!(matches!(store.archive(&AppId("".into())), Err(Error::Io(_))));
    store.create(&sample_app("archives/y")).unwrap();
    assert!(store.list(false).is_empty());
    assert_eq!(store.list(true).len(), 2);
    store.create(&sample_app("deep/down")).unwrap();
    assert!(store.list(false).is_empty());
    assert!(store.get(&AppId("deep/down".into())).is_some());
    store.archive(&AppId("deep".into())).unwrap();
    assert!(store.get(&AppId("archives/deep/down".into())).is_some());
    assert!(store.get(&AppId("deep/down".into())).is_some(), "it is found in the archive");
}

#[test]
fn an_id_may_lead_out_of_the_directory() {
    let mut store = FilesystemAppStore::with_entries("/home/apps".to_string(), vec![], vec![]);
    let id = AppId("../else".into());
    assert!(store.get(&id).is_none());
    let found = DirEntry {
        name: "else".into(),
        kind: NodeKind::Directory,
        is_empty: false,
        manifest: Some(sample_app("else")),
    };
    store.learn(&id, found);
    assert_eq!(store.get(&id).unwrap().id.as_str(), "else");
    assert_eq!(store.get(&AppId("/home/else".into())).unwrap().id.as_str(), "else");
    for id in ["../else", "/home/else", "..", "/", "/home"] {
        assert!(matches!(store.create(&sample_app(id)), Err(Error::App(_))), "{}", id);
    }
    assert!(matches!(store.archive(&AppId("/".into())), Err(Error::Io(_))));
    assert!(store.list(true).is_empty());
}

#[test]
fn an_id_may_go_up() {
    let mut store = FilesystemAppStore::with_apps_dir("/apps".to_string());
    store.create(&sample_app("x")).unwrap();
    assert!(store.get(&AppId("x/../x".into())).is_some());
    assert!(store.get(&AppId("nobody/../x".into())).is_none());
    store.create(&sample_app("y/../z")).unwrap();
    assert_eq!(store.get(&AppId("z".into())).unwrap().id.as_str(), "y/../z");
    assert_eq!(store.list(false).len(), 2);
    assert!(matches!(store.create(&sample_app("y")), Err(Error::App(_))));
    assert!(matches!(store.archive(&AppId("x/..".into())), Err(Error::Io(_))));
    store.archive(&AppId("y/../x".into())).unwrap();
    assert!(store.get(&AppId("x".into())).is_some());
    assert!(store.get(&AppId("archives/../x".into())).is_none());
    assert!(store.get(&AppId("archives/../z".into())).is_some());
    assert_eq!(store.list(false).len(), 1);
    assert_eq!(store.list(true).len(), 2);
}

#[test]
fn a_directory_needs_a_name() {
    let mut store = FilesystemAppStore::with_apps_dir("/apps".to_string());
    assert!(matches!(store.create(&sample_app("deep/x/.")), Err(Error::Io(_))));
    assert!(store.get(&AppId("deep/x".into())).is_none());
    assert!(matches!(store.create(&sample_app("deep")), Err(Error::App(_))));
    store.create(&sample_app("x/")).unwrap();
    assert!(matches!(store.create(&sample_app("x/.")), Err(Error::App(_))));
    assert!(matches!(store.archive(&AppId("x/.".into())), Err(Error::Io(_))));
    store.archive(&AppId("x/".into())).unwrap();
    assert!(store.list(false).is_empty());
    assert_eq!(store.list(true).len(), 1);
}

#[test]
fn a_link_is_followed_but_not_listed() {
    let app = sample_app("linked");
    let link = DirEntry {
        name: "linked".into(),
        kind: NodeKind::LinkToDirectory,
        is_empty: false,
        manifest: Some(app.clone()),
    };
    let live = vec![
        link,
        dir("dead", NodeKind::DeadLink, false),
        dir("notes.txt", NodeKind::LinkToFile, false),
    ];
    let mut store = FilesystemAppStore::with_entries("/apps".to_string(), live, vec![]);
    assert!(store.list(false).is_empty());
    assert_eq!(store.get(&app.id).unwrap().id, app.id);
    assert!(matches!(store.create(&app), Err(Error::App(_))));
    assert!(matches!(store.create(&sample_app("dead")), Err(Error::Io(_))));
    assert!(matches!(store.create(&sample_app("notes.txt")), Err(Error::App(_))));
    assert!(matches!(store.create(&sample_app("notes.txt/")), Err(Error::Io(_))));
    assert!(matches!(store.create(&sample_app("notes.txt/x")), Err(Error::Io(_))));
    assert!(matches!(store.archive(&AppId("linked/".into())), Err(Error::Io(_))));
    store.archive(&app.id).unwrap();
    assert_eq!(store.get(&app.id).unwrap().id, app.id);
    assert!(store.list(true).is_empty());
}

#[test]
fn startup_load_is_all_tombstoned() {
    let mut app = sample_app("2026-06-10-00-00-03-UTC");
    app.status = AppStatus::Active;
    let found = DirEntry {
        name: "2026-06-10-00-00-03-UTC".into(),
        kind: NodeKind::Directory,
        is_empty: false,
        manifest: Some(app.clone()),
    };
    let store = FilesystemAppStore::with_entries("/apps".to_string(), vec![found], vec![]);
    let listed = store.list(false);
    assert_eq!(listed.len(), 1);
    assert_eq!(listed[0].status, AppStatus::Tombstoned);
    assert_eq!(store.get(&app.id).unwrap().status, AppStatus::Tombstoned);
}

#[test]
fn malformed_manifest_is_skipped_not_panicked() {
    let good = sample_app("2026-06-10-00-00-04-UTC");
    let entries = vec![
        DirEntry {
            name: "2026-06-10-00-00-04-UTC".into(),
            kind: NodeKind::Directory,
            is_empty: false,
            manifest: Some(good.clone()),
        },
        DirEntry { name: "2026-06-10-00-00-05-UTC".into(), kind: NodeKind::Directory, is_empty: false, manifest: None },
        DirEntry { name: "notes.txt".into(), kind: NodeKind::File, is_empty: false, manifest: None },
        DirEntry { name: "archives".into(), kind: NodeKind::Directory, is_empty: false, manifest: None },
    ];
    let store = FilesystemAppStore::with_entries("/apps".to_string(), entries, vec![]);
    let listed = store.list(false);
    assert_eq!(listed.len(), 1);
    assert_eq!(listed[0].id, good.id);
    assert!(store.get(&AppId("2026-06-10-00-00-05-UTC".into())).is_none());
}

#[test]
fn list_on_missing_dir_is_empty() {
    let store = FilesystemAppStore::with_apps_dir("/nowhere".to_string());
    assert!(store.list(false).is_empty());
    assert!(store.list(true).is_empty());
}

fn board() -> MemorySupervisor {
    MemorySupervisor::new(FilesystemAppStore::with_apps_dir("/apps".to_string()))
}

fn created(board: &mut MemorySupervisor, id: &str) -> (App, BoardEvent) {
    let app = board
        .begin_create(request(), "plan it", AppId(id.into()), "2026-01-01T00:00:00Z".into())
        .unwrap();
    board.finish_create(&app)
}

#[test]
fn create_app_then_get_and_list() {
    let mut board = board();
    let (app, _) = created(&mut board, "a");
    assert_eq!(app.status, AppStatus::Active);
    assert_eq!(app.summary, "plan it");
    let fetched = board.get(&app.id).unwrap();
    assert_eq!(fetched.status, AppStatus::Active);
    assert_eq!(fetched.title, "Trip");
    let listed = board.list();
    assert_eq!(listed.len(), 1);
    assert_eq!(listed[0].status, AppStatus::Active);
    assert!(board.get(&AppId("other".into())).is_none());
}

#[test]
fn create_app_emits_board_created_event() {
    let mut board = board();
    let (app, event) = created(&mut board, "a");
    assert_eq!(event, BoardEvent::Created(app));
}

#[test]
fn supervisor_subscribe_entries_errors_without_worker() {
    let board = board();
    match board.require_worker(&AppId("missing".into())) {
        Err(Error::App(m)) => assert_eq!(m, "App `missing` has no active worker"),
        other => panic!("unexpected {:?}", other),
    }
    assert!(board.pending_interactions(&AppId("missing".into())).is_err());
}

#[test]
fn suspend_then_restore_round_trips_status() {
    let mut board = board();
    let (app, _) = created(&mut board, "a");
    assert_eq!(
        board.suspend(&app.id),
        Some(BoardEvent::StatusChanged { id: app.id.clone(), status: AppStatus::Tombstoned })
    );
    assert_eq!(board.suspend(&app.id), None);
    assert_eq!(board.get(&app.id).unwrap().status, AppStatus::Tombstoned);
    assert!(board.begin_restore(&app.id).unwrap().is_some());
    assert_eq!(
        board.finish_restore(&app.id),
        BoardEvent::StatusChanged { id: app.id.clone(), status: AppStatus::Active }
    );
    assert!(board.begin_restore(&app.id).unwrap().is_none());
    assert_eq!(board.get(&app.id).unwrap().status, AppStatus::Active);
    match board.begin_restore(&AppId("missing".into())) {
        Err(Error::App(m)) => assert_eq!(m, "App `missing` does not exist"),
        other => panic!("unexpected {:?}", other),
    }
}

#[test]
fn archive_suspends_and_removes_from_list() {
    let mut board = board();
    let (app, _) = created(&mut board, "a");
    let (stopped, archived) = board.archive(&app.id);
    assert!(stopped.is_some());
    assert_eq!(archived.unwrap(), BoardEvent::Archived(app.id.clone()));
    assert!(board.list().is_empty());
    assert_eq!(board.get(&app.id).unwrap().status, AppStatus::Tombstoned);
}

#[test]
fn supervisor_move_app_emits_board_moved_event() {
    let mut board = board();
    let (app, _) = created(&mut board, "a");
    let position = BoardPosition { row: 4, column: 2 };
    assert_eq!(
        board.move_app(&app.id, position).unwrap(),
        BoardEvent::Moved { id: app.id.clone(), position }
    );
    assert!(board.move_app(&AppId("missing".into()), position).is_err());
}

#[test]
fn an_answer_needs_a_worker() {
    let mut board = board();
    let answer = InteractionResponse { request_id: "r".into(), body: "{}".into() };
    assert!(board.respond_to_interaction(&AppId("a".into()), &answer).is_err());
    let (app, _) = created(&mut board, "a");
    assert!(board.respond_to_interaction(&app.id, &answer).is_ok());
    assert!(board.pending_interactions(&app.id).unwrap().is_empty());
}

#[test]
fn a_taken_name_is_no_new_app() {
    let mut board = board();
    created(&mut board, "a");
    assert!(board
        .begin_create(request(), "again", AppId("a".into()), "now".into())
        .is_err());
}
