//! The apps on disk: one directory for each, and one more level for those that were archived.

use vstd::prelude::*;
use crate::app::registry::disk;
use crate::app::registry::disk::{Disk, Node, NodeKind, NodeView, PathKey, PathView};
use crate::app::registry::way;
use crate::app::{self, App, AppId, AppStatus, AppView};
use crate::error;
use crate::error::Error;
use crate::text;
use vstd::string::*;

verus! {

/// A session that belongs to an app.
#[derive(Debug, Clone, PartialEq, Eq)]
pub struct MemberRecord {
    pub session_id: String,
    pub recorded_at: String,
    pub joined: bool,
}

/// Where a new conversation went.
#[derive(Debug, Clone, Copy, PartialEq, Eq, Structural)]
pub enum MergeDecisionKind {
    /// To an app that was there before.
    Join,
    /// To an app of its own.
    New,
}

/// What was decided about the conversation of an app.
#[derive(Debug, Clone, PartialEq, Eq)]
pub struct MergeRecord {
    pub kind: MergeDecisionKind,
    pub source_app_id: String,
    pub recorded_at: String,
}

pub const METADATA_FILE: &'static str = "metadata.json";

pub const MEMBERS_FILE: &'static str = "members.jsonl";

pub const MERGE_LOG_FILE: &'static str = "merge_log.jsonl";

pub const ARCHIVES_DIR: &'static str = "archives";

/// A directory entry as it was found: its name, what it is, whether it is a directory with nothing
/// in it beyond what else is told, and the app that its manifest describes, where there is one that
/// can be read.
#[derive(Debug)]
pub struct DirEntry {
    pub name: String,
    pub kind: NodeKind,
    pub is_empty: bool,
    pub manifest: Option<App>,
}

/// An app as it is loaded: no worker runs yet.
pub open spec fn loaded(app: AppView) -> AppView {
    AppView { status: AppStatus::Tombstoned, ..app }
}

/// What an optional app is.
pub open spec fn app_view(app: Option<App>) -> Option<AppView> {
    match app {
        Some(a) => Some(a@),
        None => None,
    }
}

/// What stands in a directory under an entry's name.
pub open spec fn entry_node(dir: Seq<char>, e: DirEntry) -> NodeView {
    NodeView {
        at: disk::path_of(text::path_join(dir, e.name@)),
        kind: e.kind,
        empty: e.is_empty,
        manifest: app_view(e.manifest),
    }
}

/// What stands in a directory.
pub open spec fn entry_nodes(dir: Seq<char>, entries: Seq<DirEntry>) -> Seq<NodeView> {
    entries.map_values(|e: DirEntry| entry_node(dir, e))
}

/// A directory's own entry that is listed as an app: a directory, no link to one, which is not the
/// archive and has a manifest that can be read.
pub open spec fn is_listed(n: NodeView, dir: PathView) -> bool {
    &&& n.kind == NodeKind::Directory
    &&& n.at.pieces.len() > 0
    &&& n.at == disk::child(dir, n.at.pieces.last())
    &&& n.at.pieces.last() != ARCHIVES_DIR@
    &&& n.manifest is Some
}

/// The apps of a directory, in order.
pub open spec fn apps_in(nodes: Seq<NodeView>, dir: PathView) -> Seq<AppView>
    decreases nodes.len(),
{
    if nodes.len() == 0 {
        Seq::empty()
    } else {
        let before = apps_in(nodes.drop_last(), dir);
        if is_listed(nodes.last(), dir) {
            before.push(loaded(nodes.last().manifest->0))
        } else {
            before
        }
    }
}

/// What is known of the apps on disk: where they are kept, and what stands at paths.
#[verifier::ext_equal]
pub struct StoreView {
    pub root: Seq<char>,
    pub nodes: Seq<NodeView>,
}

/// The directory of the archive.
pub open spec fn archives_of(root: Seq<char>) -> Seq<char> {
    text::path_join(root, ARCHIVES_DIR@)
}

/// From where an id is followed: the directory that it is in, or the root where it starts there.
pub open spec fn start_of(dir: Seq<char>, id: Seq<char>) -> PathView {
    if disk::path_of(id).absolute {
        PathView { absolute: true, pieces: Seq::empty() }
    } else {
        disk::path_of(dir)
    }
}

/// Where an app is kept.
pub open spec fn live_path(v: StoreView, id: Seq<char>) -> PathView {
    way::reach(v.nodes, start_of(v.root, id), disk::path_of(id).pieces)
}

/// Where an app is kept that was archived.
pub open spec fn archive_path(v: StoreView, id: Seq<char>) -> PathView {
    way::reach(v.nodes, start_of(archives_of(v.root), id), disk::path_of(id).pieces)
}

/// The directory that an id leads to: among the apps, or in the archive where there is none.
pub open spec fn home_of(v: StoreView, id: Seq<char>) -> Option<NodeView> {
    match disk::dir_at(v.nodes, live_path(v, id)) {
        Some(n) => Some(n),
        None => disk::dir_at(v.nodes, archive_path(v, id)),
    }
}

/// The manifest that an id leads to.
pub open spec fn manifest_of(v: StoreView, id: Seq<char>) -> Option<AppView> {
    match home_of(v, id) {
        Some(n) => n.manifest,
        None => None,
    }
}

/// Something stands already where an app of this id would be kept.
pub open spec fn taken(v: StoreView, id: Seq<char>) -> bool {
    disk::is_found(v.nodes, live_path(v, id), text::path_join(v.root, id))
}

/// The disk after the directories on the way to an app's own were made, as far as they could be.
pub open spec fn with_live(v: StoreView, id: Seq<char>) -> StoreView {
    StoreView {
        nodes: way::led_to(v.nodes, start_of(v.root, id), disk::path_of(id).pieces).0,
        ..v
    }
}

/// Nothing stands there, and yet no directory can be made: something on the way leads to none, a
/// dead link is in its place, a file where the path asks for a directory, or the path ends in no
/// name for it.
pub open spec fn obstructed(v: StoreView, id: Seq<char>) -> bool {
    let w = with_live(v, id);
    ||| !way::led_to(v.nodes, start_of(v.root, id), disk::path_of(id).pieces).1
    ||| match disk::node_at(w.nodes, live_path(w, id)) {
        Some(n) => !disk::leads_to_dir(n.kind),
        None => disk::ends_where_it_is(text::path_join(v.root, id)),
    }
}

/// The disk after an app was refused. Where its directory could not be made, those on the way to it
/// were.
pub open spec fn refused(v: StoreView, id: Seq<char>) -> StoreView {
    if taken(v, id) {
        v
    } else {
        with_live(v, id)
    }
}

/// The disk after an app was noted down.
pub open spec fn created(v: StoreView, app: AppView) -> StoreView {
    let w = with_live(v, app.id);
    let p = live_path(w, app.id);
    StoreView { nodes: disk::with_manifest(way::entered(w.nodes, p).0, p, app), ..v }
}

/// The disk after the way into the archive was made, as far as it could be.
pub open spec fn with_archive(v: StoreView, id: Seq<char>) -> StoreView {
    StoreView {
        nodes: way::led_to(
            v.nodes,
            start_of(archives_of(v.root), id),
            disk::path_of(id).pieces,
        ).0,
        ..v
    }
}

/// What an id leads to is taken into the archive. A link moves only under its bare name.
pub open spec fn archivable(v: StoreView, id: Seq<char>) -> bool {
    let path = text::path_join(v.root, id);
    let w = with_archive(v, id);
    &&& disk::dir_at(v.nodes, live_path(v, id)) is Some
    &&& way::led_to(v.nodes, start_of(archives_of(v.root), id), disk::path_of(id).pieces).1
    &&& !disk::ends_in_no_name(path)
    &&& disk::dir_at(w.nodes, live_path(w, id)) matches Some(n) && (n.kind == NodeKind::Directory
        || !disk::asks_for_dir(path)) && disk::may_move(w.nodes, n, archive_path(w, id))
}

/// The disk after an app was asked to be archived, whether it was or not.
pub open spec fn archived(v: StoreView, id: Seq<char>) -> StoreView {
    let w = with_archive(v, id);
    if disk::dir_at(v.nodes, live_path(v, id)) is None {
        v
    } else if archivable(v, id) {
        StoreView { nodes: disk::moved(w.nodes, live_path(w, id), archive_path(w, id)), ..v }
    } else {
        w
    }
}

/// The disk after something was found where an id leads.
pub open spec fn learned(v: StoreView, id: Seq<char>, e: DirEntry) -> StoreView {
    StoreView {
        nodes: v.nodes.push(
            NodeView {
                at: live_path(v, id),
                kind: e.kind,
                empty: e.is_empty,
                manifest: app_view(e.manifest),
            },
        ),
        ..v
    }
}

/// What a directory of an app holds from the start.
#[derive(Debug, Clone, PartialEq, Eq)]
pub struct InitialFiles {
    /// Where the manifest is written.
    pub manifest: String,
    /// The logs that are there, with nothing in them.
    pub empty_logs: Vec<String>,
}

/// What is on disk: the directory of the apps, and what stands in it and elsewhere.
#[derive(Debug)]
pub struct FilesystemAppStore {
    apps_dir: String,
    disk: Disk,
}

impl View for FilesystemAppStore {
    type V = StoreView;

    closed spec fn view(&self) -> StoreView {
        StoreView { root: self.apps_dir@, nodes: self.disk@ }
    }
}

/// The directory of the apps: `apps` below the home that is set, or below `.rubberdux` in the
/// user's home, which is the working directory where the user has none.
pub open spec fn apps_dir_of(
    set_home: Option<Seq<char>>,
    user_home: Option<Seq<char>>,
) -> Seq<char> {
    let home = match set_home {
        Some(h) => h,
        None => text::path_join(
            match user_home {
                Some(h) => h,
                None => "."@,
            },
            ".rubberdux"@,
        ),
    };
    text::path_join(home, "apps"@)
}

impl FilesystemAppStore {
    /// The store below the home that is set, or below the user's.
    pub fn new(set_home: &Option<String>, user_home: &Option<String>) -> (s: Self)
        ensures
            s@ == (StoreView {
                root: apps_dir_of(text::opt_view(*set_home), text::opt_view(*user_home)),
                nodes: disk::always_there(),
            }),
    {
        let home: String = match set_home {
            Some(h) => h.clone(),
            None => match user_home {
                Some(h) => text::joined_path(h.as_str(), ".rubberdux"),
                None => text::joined_path(".", ".rubberdux"),
            },
        };
        FilesystemAppStore::with_apps_dir(text::joined_path(home.as_str(), "apps"))
    }

    /// The store in a directory that is not there yet.
    pub fn with_apps_dir(apps_dir: String) -> (s: Self)
        ensures
            s@ == (StoreView { root: apps_dir@, nodes: disk::always_there() }),
    {
        FilesystemAppStore { apps_dir, disk: Disk::new() }
    }

    /// The store in a directory with what was found there, and in its archive.
    pub fn with_entries(apps_dir: String, live: Vec<DirEntry>, archived: Vec<DirEntry>) -> (s: Self)
        ensures
            s@.root == apps_dir@,
            s@.nodes == disk::with_way(
                disk::always_there(),
                disk::path_of(apps_dir@),
                0,
            ).push(disk::bare(disk::path_of(apps_dir@))) + entry_nodes(apps_dir@, live@)
                + entry_nodes(archives_of(apps_dir@), archived@),
    {
        let archives = text::joined_path(apps_dir.as_str(), ARCHIVES_DIR);
        let mut disk = Disk::new();
        let root = PathKey::of(apps_dir.as_str());
        disk.make_way(&root, 0);
        disk.push(Node::new(root, NodeKind::Directory, true, None));
        add_entries(&mut disk, apps_dir.as_str(), live);
        add_entries(&mut disk, archives.as_str(), archived);
        FilesystemAppStore { apps_dir, disk }
    }

    /// Something was found where an id leads.
    pub fn learn(&mut self, id: &AppId, entry: DirEntry)
        ensures
            final(self)@ == learned(old(self)@, id.0@, entry),
    {
        let at = self.live_key(id);
        self.disk.push(Node::new(at, entry.kind, entry.is_empty, entry.manifest));
    }

    /// The directory of all apps.
    pub fn apps_dir(&self) -> (r: &str)
        ensures
            r@ == self@.root,
    {
        self.apps_dir.as_str()
    }

    /// The directory of an app.
    pub fn app_dir(&self, id: &AppId) -> (r: String)
        ensures
            r@ == text::path_join(self@.root, id.0@),
    {
        text::joined_path(self.apps_dir.as_str(), id.as_str())
    }

    /// The directory of an archived app.
    pub fn archive_dir(&self, id: &AppId) -> (r: String)
        ensures
            r@ == text::path_join(archives_of(self@.root), id.0@),
    {
        let archives = text::joined_path(self.apps_dir.as_str(), ARCHIVES_DIR);
        text::joined_path(archives.as_str(), id.as_str())
    }

    fn live_start(&self, p: &PathKey) -> (k: PathKey)
        ensures
            k@ == (if p@.absolute {
                PathView { absolute: true, pieces: Seq::empty() }
            } else {
                disk::path_of(self@.root)
            }),
    {
        if p.is_absolute() {
            PathKey::root()
        } else {
            PathKey::of(self.apps_dir.as_str())
        }
    }

    fn archive_start(&self, p: &PathKey) -> (k: PathKey)
        ensures
            k@ == (if p@.absolute {
                PathView { absolute: true, pieces: Seq::empty() }
            } else {
                disk::path_of(archives_of(self@.root))
            }),
    {
        if p.is_absolute() {
            PathKey::root()
        } else {
            let dir = text::joined_path(self.apps_dir.as_str(), ARCHIVES_DIR);
            PathKey::of(dir.as_str())
        }
    }

    fn live_key(&self, id: &AppId) -> (k: PathKey)
        ensures
            k@ == live_path(self@, id.0@),
    {
        let p = PathKey::of(id.as_str());
        assert(p@.pieces.take(p@.pieces.len() as int) =~= p@.pieces);
        way::reached(&self.disk, &self.live_start(&p), &p, p.len())
    }

    fn archive_key(&self, id: &AppId) -> (k: PathKey)
        ensures
            k@ == archive_path(self@, id.0@),
    {
        let p = PathKey::of(id.as_str());
        assert(p@.pieces.take(p@.pieces.len() as int) =~= p@.pieces);
        way::reached(&self.disk, &self.archive_start(&p), &p, p.len())
    }

    /// Where an app is found by those who write to it: in its directory, or in the archive where it
    /// has none.
    pub fn addressable_home(&self, id: &AppId) -> (r: String)
        ensures
            r@ == (if disk::dir_at(self@.nodes, live_path(self@, id.0@)) is None
                && disk::dir_at(self@.nodes, archive_path(self@, id.0@)) is Some {
                text::path_join(archives_of(self@.root), id.0@)
            } else {
                text::path_join(self@.root, id.0@)
            }),
    {
        let live = self.live_key(id);
        let archive = self.archive_key(id);
        if self.disk.find_dir(&live).is_none() && self.disk.find_dir(&archive).is_some() {
            self.archive_dir(id)
        } else {
            self.app_dir(id)
        }
    }

    /// Where an app's members are recorded.
    pub fn members_path(&self, id: &AppId) -> (r: String)
        ensures
            r@ == text::path_join(text::path_join(self@.root, id.0@), MEMBERS_FILE@),
    {
        let dir = self.app_dir(id);
        text::joined_path(dir.as_str(), MEMBERS_FILE)
    }

    /// Where it is recorded which apps an app took over.
    pub fn merge_log_path(&self, id: &AppId) -> (r: String)
        ensures
            r@ == text::path_join(text::path_join(self@.root, id.0@), MERGE_LOG_FILE@),
    {
        let dir = self.app_dir(id);
        text::joined_path(dir.as_str(), MERGE_LOG_FILE)
    }

    /// What the directory of a new app holds: its manifest, and both logs with nothing in them.
    pub fn initial_files(&self, id: &AppId) -> (r: InitialFiles)
        ensures
            r.manifest@ == text::path_join(text::path_join(self@.root, id.0@), METADATA_FILE@),
            text::views(r.empty_logs@) == seq![
                text::path_join(text::path_join(self@.root, id.0@), MEMBERS_FILE@),
                text::path_join(text::path_join(self@.root, id.0@), MERGE_LOG_FILE@),
            ],
    {
        let dir = self.app_dir(id);
        let mut empty_logs: Vec<String> = Vec::new();
        empty_logs.push(self.members_path(id));
        empty_logs.push(self.merge_log_path(id));
        assert(text::views(empty_logs@) =~= seq![
            text::path_join(text::path_join(self@.root, id.0@), MEMBERS_FILE@),
            text::path_join(text::path_join(self@.root, id.0@), MERGE_LOG_FILE@),
        ]);
        InitialFiles { manifest: text::joined_path(dir.as_str(), METADATA_FILE), empty_logs }
    }

    /// Notes a new app down. Nothing may stand yet where it is to be kept, and nothing may keep its
    /// directory from being made.
    pub fn create(&mut self, app: &App) -> (r: Result<(), Error>)
        ensures
            match r {
                Ok(()) => {
                    &&& !taken(old(self)@, app@.id)
                    &&& !obstructed(old(self)@, app@.id)
                    &&& final(self)@ == created(old(self)@, app@)
                },
                Err(e) => {
                    &&& final(self)@ == refused(old(self)@, app@.id)
                    &&& if taken(old(self)@, app@.id) {
                        e matches Error::App(m) && m@ == error::app_message(
                            "App "@,
                            app@.id,
                            " already exists"@,
                        )
                    } else {
                        obstructed(old(self)@, app@.id) && e is Io
                    }
                },
            },
    {
        let dir = self.app_dir(&app.id);
        let at = self.live_key(&app.id);
        if let Some(n) = self.disk.find(&at) {
            let there = match n.kind() {
                NodeKind::DeadLink => false,
                _ => n.is_dir() || !disk::wants_dir(dir.as_str()),
            };
            if there {
                return Err(Error::about_app("App ", app.id.as_str(), " already exists"));
            }
        }
        let p = PathKey::of(app.id.as_str());
        let start = self.live_start(&p);
        assert(p@.pieces.take(p@.pieces.len() as int) =~= p@.pieces);
        if !way::lead(&mut self.disk, &start, &p, p.len()) {
            return Err(Error::Io("the directory cannot be made".to_string()));
        }
        let at = self.live_key(&app.id);
        let (known, is_dir) = match self.disk.find(&at) {
            Some(n) => (true, n.is_dir()),
            None => (false, !disk::stays(dir.as_str())),
        };
        if !is_dir {
            return Err(Error::Io("the directory cannot be made".to_string()));
        }
        if !known {
            self.disk.push(Node::new(at.copy(), NodeKind::Directory, true, None));
        }
        self.disk.write_manifest(&at, app.copy());
        Ok(())
    }

    fn list_dir(&self, dir: &PathKey) -> (apps: Vec<App>)
        ensures
            app::app_views(apps@) == apps_in(self@.nodes, dir@),
    {
        let mut apps: Vec<App> = Vec::new();
        let mut i: usize = 0;
        let ghost nodes = self@.nodes;
        assert(nodes.take(0) =~= Seq::empty());
        assert(app::app_views(apps@) =~= Seq::empty());
        while i < self.disk.len()
            invariant
                i <= nodes.len(),
                nodes == self@.nodes,
                app::app_views(apps@) == apps_in(nodes.take(i as int), dir@),
            decreases nodes.len() - i,
        {
            assert(nodes.take(i as int + 1).drop_last() =~= nodes.take(i as int));
            let n = self.disk.get(i);
            if self.is_in(n, dir) {
                if let Some(app) = n.manifest() {
                    let ghost before = apps@;
                    let one = app.with_status(AppStatus::Tombstoned);
                    apps.push(one);
                    assert(app::app_views(apps@) =~= app::app_views(before).push(one@));
                }
            }
            i = i + 1;
        }
        assert(nodes.take(i as int) =~= nodes);
        apps
    }

    fn is_in(&self, n: &Node, dir: &PathKey) -> (r: bool)
        ensures
            n@.manifest is Some ==> r == is_listed(n@, dir@),
            n@.manifest is None ==> !is_listed(n@, dir@),
    {
        let at = n.at();
        let len = at.len();
        if len == 0 || n.kind() != NodeKind::Directory || text::same(at.last(), ARCHIVES_DIR) {
            return false;
        }
        let parent = at.first(len - 1);
        assert(at@.pieces.take(len - 1).push(at@.pieces.last()) =~= at@.pieces);
        assert(parent@ == dir@ ==> at@ =~= disk::child(dir@, at@.pieces.last()));
        assert(at@ == disk::child(dir@, at@.pieces.last()) ==> parent@ =~= dir@) by {
            if at@ == disk::child(dir@, at@.pieces.last()) {
                assert(at@.pieces.take(len - 1) =~= dir@.pieces);
            }
        }
        parent.same(dir)
    }

    /// The apps, without a worker each; with the archived ones behind the others where they are
    /// asked for.
    pub fn list(&self, include_archived: bool) -> (apps: Vec<App>)
        ensures
            app::app_views(apps@) == apps_in(self@.nodes, disk::path_of(self@.root)) + (
            if include_archived {
                apps_in(self@.nodes, disk::path_of(archives_of(self@.root)))
            } else {
                Seq::empty()
            }),
    {
        let root = PathKey::of(self.apps_dir.as_str());
        let mut apps = self.list_dir(&root);
        let ghost live = apps@;
        if include_archived {
            let dir = text::joined_path(self.apps_dir.as_str(), ARCHIVES_DIR);
            let mut more = self.list_dir(&PathKey::of(dir.as_str()));
            let ghost rest = more@;
            apps.append(&mut more);
            assert(app::app_views(apps@) =~= app::app_views(live) + app::app_views(rest));
        } else {
            assert(app::app_views(live) + Seq::<AppView>::empty() =~= app::app_views(live));
        }
        apps
    }

    /// The app that an id leads to, without a worker: among the apps, or in the archive where there
    /// is no such directory.
    pub fn get(&self, id: &AppId) -> (r: Option<App>)
        ensures
            match (r, manifest_of(self@, id.0@)) {
                (Some(a), Some(m)) => a@ == loaded(m),
                (None, None) => true,
                _ => false,
            },
    {
        let live = self.live_key(id);
        let archive = self.archive_key(id);
        let home = match self.disk.find_dir(&live) {
            Some(n) => Some(n),
            None => self.disk.find_dir(&archive),
        };
        match home {
            Some(n) => match n.manifest() {
                Some(app) => Some(app.with_status(AppStatus::Tombstoned)),
                None => None,
            },
            None => None,
        }
    }

    /// The app that an id leads to was active: its manifest says so. The app as it is written.
    pub fn touch_last_active(&mut self, id: &AppId, now: &str) -> (r: Result<App, Error>)
        ensures
            match (r, manifest_of(old(self)@, id.0@)) {
                (Ok(a), Some(m)) => {
                    &&& a@ == (AppView { last_active: now@, ..m })
                    &&& final(self)@ == (StoreView {
                        nodes: disk::with_manifest(
                            old(self)@.nodes,
                            home_of(old(self)@, id.0@)->0.at,
                            a@,
                        ),
                        ..old(self)@
                    })
                },
                (Err(e), None) => final(self)@ == old(self)@ && error::says_missing(e, id.0@),
                _ => false,
            },
    {
        let live = self.live_key(id);
        let archive = self.archive_key(id);
        let home = match self.disk.find_dir(&live) {
            Some(n) => Some(n),
            None => self.disk.find_dir(&archive),
        };
        let found = match home {
            Some(n) => match n.manifest() {
                Some(app) => Some((n.at().copy(), app.copy())),
                None => None,
            },
            None => None,
        };
        match found {
            Some((at, app)) => {
                let mut app = app;
                app.last_active = now.to_string();
                let written = app.copy();
                self.disk.write_manifest(&at, app);
                Ok(written)
            },
            None => Err(Error::about_app("App ", id.as_str(), " does not exist")),
        }
    }

    /// Moves an app into the archive. It must be there, and what stands in its place in the archive
    /// must give way.
    pub fn archive(&mut self, id: &AppId) -> (r: Result<(), Error>)
        ensures
            final(self)@ == archived(old(self)@, id.0@),
            match r {
                Ok(()) => archivable(old(self)@, id.0@),
                Err(e) => if disk::dir_at(
                    old(self)@.nodes,
                    live_path(old(self)@, id.0@),
                ) is None {
                    error::says_missing(e, id.0@)
                } else {
                    !archivable(old(self)@, id.0@) && e is Io
                },
            },
    {
        let from = self.live_key(id);
        if self.disk.find_dir(&from).is_none() {
            return Err(Error::about_app("App ", id.as_str(), " does not exist"));
        }
        let p = PathKey::of(id.as_str());
        let start = self.archive_start(&p);
        assert(p@.pieces.take(p@.pieces.len() as int) =~= p@.pieces);
        if !way::lead(&mut self.disk, &start, &p, p.len()) {
            return Err(Error::Io("the archive cannot be made".to_string()));
        }
        let path = self.app_dir(id);
        let from = self.live_key(id);
        let to = self.archive_key(id);
        let allowed = match self.disk.find_dir(&from) {
            Some(n) => (n.kind() == NodeKind::Directory || !disk::wants_dir(path.as_str()))
                && self.disk.can_move(n, &to),
            None => false,
        };
        if !allowed || disk::is_unnamed(path.as_str()) {
            return Err(Error::Io("the archive holds something of this name".to_string()));
        }
        self.disk.move_node(&from, &to);
        Ok(())
    }
}

fn add_entries(disk: &mut Disk, dir: &str, entries: Vec<DirEntry>)
    ensures
        final(disk)@ == old(disk)@ + entry_nodes(dir@, entries@),
{
    let ghost all = entry_nodes(dir@, entries@);
    let ghost given = entries@;
    let ghost start = disk@;
    let mut rest: Vec<DirEntry> = entries;
    assert(start + all.take(0) =~= start);
    while rest.len() > 0
        invariant
            all == entry_nodes(dir@, given),
            rest@.len() <= given.len(),
            rest@ == given.skip(given.len() - rest@.len()),
            disk@ == start + all.take(given.len() - rest@.len()),
        decreases rest.len(),
    {
        let ghost k = given.len() - rest@.len();
        let e = rest.remove(0);
        assert(rest@ =~= given.skip(k + 1));
        assert(e == given[k]);
        let path = text::joined_path(dir, e.name.as_str());
        let n = Node::new(PathKey::of(path.as_str()), e.kind, e.is_empty, e.manifest);
        assert(n@ == all[k]);
        disk.push(n);
        assert(all.take(k + 1) =~= all.take(k).push(all[k]));
        assert(disk@ =~= start + all.take(k + 1));
    }
    assert(all.take(given.len() as int) =~= all);
}

/// Every app that is loaded is without a worker.
pub proof fn loaded_apps_are_tombstoned(nodes: Seq<NodeView>, dir: PathView)
    ensures
        forall|i: int|
            0 <= i < apps_in(nodes, dir).len() ==> (#[trigger] apps_in(nodes, dir)[i]).status
                == AppStatus::Tombstoned,
    decreases nodes.len(),
{
    if nodes.len() > 0 {
        loaded_apps_are_tombstoned(nodes.drop_last(), dir);
        let before = apps_in(nodes.drop_last(), dir);
        assert forall|i: int| 0 <= i < apps_in(nodes, dir).len() implies (#[trigger] apps_in(
            nodes,
            dir,
        )[i]).status == AppStatus::Tombstoned by {
            if i < before.len() {
                assert(apps_in(nodes, dir)[i] == before[i]);
            }
        }
    }
}

/// An app that was just noted down is found under its id.
pub proof fn created_app_is_found(v: StoreView, app: AppView)
    requires
        !taken(v, app.id),
        !obstructed(v, app.id),
    ensures
        manifest_of(created(v, app), app.id) == Some(app),
{
    let start = start_of(v.root, app.id);
    let pieces = disk::path_of(app.id).pieces;
    let w = with_live(v, app.id);
    let p = live_path(w, app.id);
    let e = way::entered(w.nodes, p).0;
    way::led_way_is_walked(v.nodes, start, pieces);
    if disk::node_at(w.nodes, p) is None {
        way::last_place_stays(w.nodes, disk::bare(p), start, pieces);
        disk::node_at_pushed(w.nodes, disk::bare(p), p);
    }
    way::manifest_changes_no_way(e, p, app, start, pieces);
    disk::new_manifest_is_found(e, p, app, p);
}

/// A name that is no path: it has no slash, and leads somewhere.
pub open spec fn is_plain(id: Seq<char>) -> bool {
    &&& disk::leads_on(id)
    &&& forall|i: int| 0 <= i < id.len() ==> #[trigger] id[i] != '/'
}

/// A plain id leads to a directory's own entry of that name.
pub proof fn plain_id_is_a_child(v: StoreView, id: Seq<char>)
    requires
        is_plain(id),
        id != ".."@,
    ensures
        live_path(v, id) == disk::child(disk::path_of(v.root), id),
{
    disk::plain_name_is_one_piece(id);
    way::level_pieces_add_up(v.nodes, disk::path_of(v.root), seq![id]);
    assert(disk::path_of(v.root).pieces + seq![id] =~= disk::path_of(v.root).pieces.push(id));
}

proof fn way_lists_the_same(nodes: Seq<NodeView>, p: PathView, n: int, dir: PathView)
    requires
        0 <= n,
    ensures
        apps_in(disk::with_way(nodes, p, n), dir) == apps_in(nodes, dir),
    decreases p.pieces.len() - n,
{
    if n < p.pieces.len() {
        let here = disk::first_pieces(p, n);
        let next = if disk::node_at(nodes, here) is None {
            nodes.push(disk::bare(here))
        } else {
            nodes
        };
        assert(nodes.push(disk::bare(here)).drop_last() =~= nodes);
        way_lists_the_same(next, p, n + 1, dir);
    }
}

/// A new app is listed behind the others, under a plain id that is not the archive's.
pub proof fn created_app_is_listed(v: StoreView, app: AppView)
    requires
        !taken(v, app.id),
        !obstructed(v, app.id),
        is_plain(app.id),
        app.id != ".."@,
        app.id != ARCHIVES_DIR@,
    ensures
        apps_in(created(v, app).nodes, disk::path_of(v.root)) == apps_in(
            v.nodes,
            disk::path_of(v.root),
        ).push(loaded(app)),
{
    let root = disk::path_of(v.root);
    let w = with_live(v, app.id);
    let p = live_path(w, app.id);
    disk::plain_name_is_one_piece(app.id);
    plain_id_is_a_child(v, app.id);
    plain_id_is_a_child(w, app.id);
    let pieces = seq![app.id];
    assert(pieces.drop_last() =~= Seq::<Seq<char>>::empty());
    reveal_with_fuel(way::led_to, 2);
    let before = disk::with_way(v.nodes, root, 0);
    way_lists_the_same(v.nodes, root, 0, root);
    assert(before.push(disk::bare(root)).drop_last() =~= before);
    assert(apps_in(w.nodes, root) == apps_in(v.nodes, root));
    disk::way_keeps_the_rest(v.nodes, root, 0, p);
    disk::node_at_pushed(before, disk::bare(root), p);
    assert(p.pieces.len() == root.pieces.len() + 1);
    assert(p.pieces.last() == app.id);
    not_asking(v.root, app.id);
    assert(disk::node_at(w.nodes, p) is None);
    let e = w.nodes.push(disk::bare(p));
    assert(e.drop_last() =~= w.nodes);
    assert(created(v, app).nodes.drop_last() =~= w.nodes);
}

/// A path that ends in a plain name leads to whatever stands there.
proof fn not_asking(dir: Seq<char>, id: Seq<char>)
    requires
        is_plain(id),
    ensures
        !disk::asks_for_dir(text::path_join(dir, id)),
{
    disk::last_of_joined(dir, id);
}

/// An app that was archived has left its directory but is still found under its id, as it was.
/// Left out are ids that go up on their way, and a place in the archive that the app's directory
/// lies in, which a plain id never has.
pub proof fn archived_app_is_still_found(v: StoreView, id: Seq<char>)
    requires
        archivable(v, id),
        way::is_level(disk::path_of(id).pieces),
        live_path(v, id) != archive_path(v, id),
        !disk::below(archive_path(v, id), live_path(v, id)),
    ensures
        manifest_of(archived(v, id), id) == manifest_of(v, id),
        disk::dir_at(archived(v, id).nodes, live_path(archived(v, id), id)) is None,
{
    let pieces = disk::path_of(id).pieces;
    let here = start_of(v.root, id);
    let there = start_of(archives_of(v.root), id);
    let w = with_archive(v, id);
    let from = live_path(v, id);
    let to = archive_path(v, id);
    way::level_pieces_add_up(v.nodes, here, pieces);
    way::level_pieces_add_up(v.nodes, there, pieces);
    way::level_pieces_add_up(w.nodes, here, pieces);
    way::level_pieces_add_up(w.nodes, there, pieces);
    way::level_pieces_add_up(archived(v, id).nodes, here, pieces);
    way::level_pieces_add_up(archived(v, id).nodes, there, pieces);
    way::led_way_keeps_the_rest(v.nodes, there, pieces, from);
    disk::moved_is_found(w.nodes, from, to);
}

/// A manifest that is written changes what it is found by, and no other place.
proof fn led_as_before(v: StoreView, p: PathView, app: AppView, id: Seq<char>)
    ensures
        ({
            let after = StoreView { nodes: disk::with_manifest(v.nodes, p, app), ..v };
            &&& live_path(after, id) == live_path(v, id)
            &&& archive_path(after, id) == archive_path(v, id)
            &&& forall|q: PathView|
                q == live_path(v, id) || q == archive_path(v, id) ==> #[trigger] disk::node_at(
                    after.nodes,
                    q,
                ) == (if q == p {
                    match disk::node_at(v.nodes, p) {
                        Some(n) => Some(NodeView { manifest: Some(app), empty: false, ..n }),
                        None => None,
                    }
                } else {
                    disk::node_at(v.nodes, q)
                })
            &&& disk::node_at(v.nodes, live_path(v, id)) matches Some(n) ==> n.at == live_path(
                v,
                id,
            )
            &&& disk::node_at(v.nodes, archive_path(v, id)) matches Some(n) ==> n.at
                == archive_path(v, id)
        }),
{
    let pieces = disk::path_of(id).pieces;
    way::manifest_changes_no_way(v.nodes, p, app, start_of(v.root, id), pieces);
    way::manifest_changes_no_way(v.nodes, p, app, start_of(archives_of(v.root), id), pieces);
    disk::node_at_is_there(v.nodes, live_path(v, id));
    disk::node_at_is_there(v.nodes, archive_path(v, id));
    disk::new_manifest_is_found(v.nodes, p, app, live_path(v, id));
    disk::new_manifest_is_found(v.nodes, p, app, archive_path(v, id));
}

/// An app that was active is found with the time of it, and other ids lead where they led.
pub proof fn touched_app_is_found(v: StoreView, id: Seq<char>, now: Seq<char>, other: Seq<char>)
    requires
        manifest_of(v, id) is Some,
    ensures
        ({
            let n = home_of(v, id)->0;
            let app = AppView { last_active: now, ..manifest_of(v, id)->0 };
            let after = StoreView { nodes: disk::with_manifest(v.nodes, n.at, app), ..v };
            &&& manifest_of(after, id) == Some(app)
            &&& home_of(v, other) is None || home_of(v, other)->0.at != n.at ==> home_of(
                after,
                other,
            ) == home_of(v, other)
        }),
{
    let n = home_of(v, id)->0;
    let app = AppView { last_active: now, ..manifest_of(v, id)->0 };
    led_as_before(v, n.at, app, id);
    led_as_before(v, n.at, app, other);
}

/// An archived app is found by its path among the apps too.
pub proof fn path_into_the_archive_finds_the_app(v: StoreView, id: Seq<char>)
    requires
        v.root.len() > 0,
        !disk::path_of(id).absolute,
    ensures
        live_path(v, ARCHIVES_DIR@ + "/"@ + id) == archive_path(v, id),
{
    reveal_strlit("archives");
    reveal_strlit("/");
    reveal_strlit(".");
    reveal_strlit("..");
    let a = ARCHIVES_DIR@;
    let inner = a + "/"@ + id;
    let one = seq![a];
    let root = disk::path_of(v.root);
    assert(inner[0] == 'a');
    assert(a[0] == 'a');
    assert(a.last() == 's');
    assert(text::path_join(a, id) =~= inner);
    assert(is_plain(a));
    disk::plain_name_is_one_piece(a);
    disk::joined_pieces(a, id);
    disk::joined_pieces(v.root, a);
    let pieces = disk::path_of(id).pieces;
    assert(disk::path_of(inner).pieces == one + pieces);
    way::reach_in_two_parts(v.nodes, root, one, pieces);
    assert(one[0] == a);
    way::level_pieces_add_up(v.nodes, root, one);
    assert(way::reach(v.nodes, root, one) =~= disk::path_of(archives_of(v.root)));
}

/// The apps of a directory are listed in the order in which its entries are known: a directory of its
/// own, no link, that is not the archive, with the app of its manifest, which has no worker.
pub proof fn listed_apps_add_up(
    a: Seq<NodeView>,
    b: Seq<NodeView>,
    x: NodeView,
    dir: PathView,
)
    ensures
        apps_in(a + b, dir) == apps_in(a, dir) + apps_in(b, dir),
        apps_in(seq![x], dir) == (if x.kind == NodeKind::Directory && x.at.absolute == dir.absolute && x.at.pieces.len()
            == dir.pieces.len() + 1 && x.at.pieces.drop_last() == dir.pieces && x.at.pieces.last()
            != "archives"@ && x.manifest is Some {
            seq![AppView { status: AppStatus::Tombstoned, ..x.manifest->0 }]
        } else {
            Seq::empty()
        }),
    decreases b.len(),
{
    let one = seq![x];
    assert(one.drop_last() =~= Seq::<NodeView>::empty());
    reveal_with_fuel(apps_in, 2);
    if x.at.pieces.len() > 0 {
        assert(x.at.pieces.drop_last().push(x.at.pieces.last()) =~= x.at.pieces);
        assert(dir.pieces.push(x.at.pieces.last()).drop_last() =~= dir.pieces);
    }
    assert(apps_in(one, dir) =~= (if x.kind == NodeKind::Directory && x.at.absolute == dir.absolute && x.at.pieces.len()
            == dir.pieces.len() + 1 && x.at.pieces.drop_last() == dir.pieces && x.at.pieces.last()
            != "archives"@ && x.manifest is Some {
            seq![AppView { status: AppStatus::Tombstoned, ..x.manifest->0 }]
        } else {
            Seq::empty()
        }));
    if b.len() == 0 {
        assert(a + b =~= a);
        assert(apps_in(a, dir) + apps_in(b, dir) =~= apps_in(a, dir));
    } else {
        assert((a + b).drop_last() =~= a + b.drop_last());
        assert((a + b).last() == b.last());
        listed_apps_add_up(a, b.drop_last(), x, dir);
        assert(apps_in(a + b, dir) =~= apps_in(a, dir) + apps_in(b, dir));
    }
}

proof fn listed_entry_is_among_the_apps(nodes: Seq<NodeView>, k: int, dir: PathView)
    requires
        0 <= k < nodes.len(),
        is_listed(nodes[k], dir),
    ensures
        apps_in(nodes, dir).contains(loaded(nodes[k].manifest->0)),
{
    let a = nodes.take(k);
    let one = seq![nodes[k]];
    let b = nodes.skip(k + 1);
    assert(nodes =~= a + (one + b));
    listed_apps_add_up(a, one + b, nodes[k], dir);
    listed_apps_add_up(one, b, nodes[k], dir);
    let n = apps_in(a, dir).len() as int;
    assert(one.drop_last() =~= Seq::<NodeView>::empty());
    reveal_with_fuel(apps_in, 2);
    assert(apps_in(one, dir) =~= seq![loaded(nodes[k].manifest->0)]);
    assert(apps_in(nodes, dir)[n] == loaded(nodes[k].manifest->0));
}

/// An app that was archived under a plain id is among the apps of the archive, and what else is
/// listed among the live apps stays: the list is that of the entries other than the app's own.
pub proof fn archived_app_moves_between_the_lists(v: StoreView, id: Seq<char>)
    requires
        v.root.len() > 0,
        archivable(v, id),
        is_plain(id),
        id != ".."@,
        id != ARCHIVES_DIR@,
        disk::dir_at(v.nodes, live_path(v, id)) matches Some(n) && n.kind == NodeKind::Directory
            && n.manifest is Some,
    ensures
        apps_in(archived(v, id).nodes, disk::path_of(archives_of(v.root))).contains(
            loaded(manifest_of(v, id)->0),
        ),
        apps_in(archived(v, id).nodes, disk::path_of(v.root)) == apps_in(
            with_archive(v, id).nodes.filter(|n: NodeView| n.at != live_path(v, id)),
            disk::path_of(v.root),
        ),
{
    reveal_strlit("archives");
    reveal_strlit(".");
    reveal_strlit("..");
    let a = ARCHIVES_DIR@;
    let root = disk::path_of(v.root);
    let there = disk::path_of(archives_of(v.root));
    let w = with_archive(v, id);
    disk::plain_name_is_one_piece(id);
    disk::plain_name_is_one_piece(a);
    disk::joined_pieces(v.root, a);
    assert(there.pieces =~= root.pieces.push(a));
    plain_id_is_a_child(v, id);
    plain_id_is_a_child(w, id);
    let one = seq![id];
    assert(one[0] == id);
    way::level_pieces_add_up(w.nodes, there, one);
    way::level_pieces_add_up(v.nodes, there, one);
    let from = live_path(w, id);
    let to = archive_path(w, id);
    assert(to.pieces =~= there.pieces.push(id));
    assert(to =~= disk::child(there, id));
    assert(from.pieces.len() + 1 == to.pieces.len());
    assert(!disk::below(to, from));
    way::led_way_keeps_the_rest(v.nodes, there, one, from);
    disk::moved_is_found(w.nodes, from, to);
    let after = disk::moved(w.nodes, from, to);
    assert(archived(v, id).nodes == after);
    disk::node_at_is_there(after, to);
    let n = disk::node_at(after, to)->0;
    let k = choose|k: int| 0 <= k < after.len() && after[k] == n;
    assert(to.pieces.last() == id);
    assert(is_listed(after[k], there));
    listed_entry_is_among_the_apps(after, k, there);
    moving_keeps_the_list(w.nodes, from, to, root);
}

proof fn moving_keeps_the_list(nodes: Seq<NodeView>, from: PathView, to: PathView, dir: PathView)
    requires
        from.pieces.len() == dir.pieces.len() + 1,
        to.pieces.len() > from.pieces.len(),
    ensures
        apps_in(disk::moved(nodes, from, to), dir) == apps_in(
            nodes.filter(|n: NodeView| n.at != from),
            dir,
        ),
    decreases nodes.len(),
{
    reveal(Seq::filter);
    let f = |n: NodeView| n.at != from;
    if nodes.len() > 0 {
        let init = nodes.drop_last();
        let n = nodes.last();
        moving_keeps_the_list(init, from, to, dir);
        let before = disk::moved(init, from, to);
        let kept = init.filter(f);
        assert(kept.push(n).drop_last() =~= kept);
        assert(before.push(n).drop_last() =~= before);
        let r = NodeView { at: disk::rebased(n.at, from, to), ..n };
        assert(before.push(r).drop_last() =~= before);
        if n.at == from || disk::below(from, n.at) {
            assert(r.at.pieces.len() >= to.pieces.len());
            assert(!is_listed(r, dir));
            if n.at != from {
                assert(!is_listed(n, dir));
            }
        } else if n.at == to || disk::below(to, n.at) {
            assert(!is_listed(n, dir));
        }
    }
}

/// Under a plain id an app can be made where nothing stands; something that is there, and be it a
/// file, is an app's that exists already, and a dead link is in the way.
pub proof fn a_plain_id_is_free_or_taken(v: StoreView, id: Seq<char>)
    requires
        v.root.len() > 0,
        is_plain(id),
        id != ".."@,
    ensures
        ({
            let at = disk::child(disk::path_of(v.root), id);
            &&& taken(v, id) <==> (disk::node_at(v.nodes, at) matches Some(n) && n.kind
                != NodeKind::DeadLink)
            &&& (disk::node_at(v.nodes, at) matches Some(n) && n.kind == NodeKind::DeadLink)
                ==> obstructed(v, id)
            &&& disk::node_at(v.nodes, at) is None && !disk::way_is_blocked(
                v.nodes,
                disk::path_of(v.root),
                0,
            ) && (disk::node_at(v.nodes, disk::path_of(v.root)) is None || disk::dir_at(
                v.nodes,
                disk::path_of(v.root),
            ) is Some) ==> !obstructed(v, id)
        }),
{
    let root = disk::path_of(v.root);
    let at = disk::child(root, id);
    let w = with_live(v, id);
    disk::plain_name_is_one_piece(id);
    plain_id_is_a_child(v, id);
    plain_id_is_a_child(w, id);
    not_asking(v.root, id);
    let one = seq![id];
    assert(one.drop_last() =~= Seq::<Seq<char>>::empty());
    reveal_with_fuel(way::led_to, 2);
    let before = disk::with_way(v.nodes, root, 0);
    disk::way_keeps_the_rest(v.nodes, root, 0, at);
    disk::way_keeps_the_rest(v.nodes, root, 0, root);
    disk::node_at_pushed(before, disk::bare(root), at);
    assert(at.pieces.len() == root.pieces.len() + 1);
    disk::last_of_joined(v.root, id);
    let path = text::path_join(v.root, id);
    assert(disk::last_named(disk::cut(path)) == id);
}

/// A path that ends in no name is refused where no directory is reached by it.
pub proof fn a_nameless_path_is_refused(v: StoreView, id: Seq<char>)
    requires
        disk::ends_where_it_is(text::path_join(v.root, id)),
        disk::dir_at(with_live(v, id).nodes, live_path(with_live(v, id), id)) is None,
    ensures
        obstructed(v, id),
{
}

/// What is learned of the disk is found there afterwards, whole, where nothing was known of the
/// place before; what was known of any other place is as it was.
pub proof fn what_is_learned_is_known(v: StoreView, id: Seq<char>, e: DirEntry, other: PathView)
    ensures
        ({
            let at = live_path(v, id);
            let after = learned(v, id, e);
            &&& after.root == v.root
            &&& disk::node_at(v.nodes, at) is None ==> disk::node_at(after.nodes, at) == Some(
                NodeView {
                    at,
                    kind: e.kind,
                    empty: e.is_empty,
                    manifest: match e.manifest {
                        Some(a) => Some(a@),
                        None => None,
                    },
                },
            )
            &&& other != at ==> disk::node_at(after.nodes, other) == disk::node_at(v.nodes, other)
        }),
{
    let at = live_path(v, id);
    let n = NodeView {
        at,
        kind: e.kind,
        empty: e.is_empty,
        manifest: app_view(e.manifest),
    };
    disk::node_at_pushed(v.nodes, n, at);
    disk::node_at_pushed(v.nodes, n, other);
}

/// A home that is set is used, whoever the user is; without one the apps are where they would be
/// had the user's own been set, with a directory of the program's name in it.
pub proof fn a_home_that_is_set_is_used(home: Seq<char>, a: Option<Seq<char>>, b: Option<Seq<char>>)
    ensures
        apps_dir_of(Some(home), a) == apps_dir_of(Some(home), b),
        apps_dir_of(Some(home), a) == text::path_join(home, "apps"@),
        apps_dir_of(None, Some(home)) == apps_dir_of(
            Some(text::path_join(home, ".rubberdux"@)),
            a,
        ),
        apps_dir_of(None, None) == apps_dir_of(None, Some("."@)),
{
}

proof fn way_to_a_plain_id(nodes: Seq<NodeView>, start: PathView, id: Seq<char>)
    requires
        disk::node_at(nodes, start) is None,
        !disk::way_is_blocked(nodes, start, 0),
    ensures
        disk::dir_at(way::led_to(nodes, start, seq![id]).0, start) is Some,
{
    reveal_with_fuel(way::led_to, 2);
    let one = seq![id];
    let none = Seq::<Seq<char>>::empty();
    assert(one.drop_last() =~= none);
    assert(way::reach(nodes, start, none) == start);
    let before = disk::with_way(nodes, start, 0);
    disk::way_keeps_the_rest(nodes, start, 0, start);
    disk::node_at_pushed(before, disk::bare(start), start);
}

/// Where an app cannot be made nothing is lost: all that was known of the disk is as it was. A
/// request for an app that exists changes nothing at all; another has made its way before it
/// failed.
pub proof fn a_refused_request_loses_nothing(v: StoreView, id: Seq<char>, q: PathView)
    ensures
        taken(v, id) ==> refused(v, id) == v,
        disk::node_at(v.nodes, q) is Some ==> disk::node_at(refused(v, id).nodes, q)
            == disk::node_at(v.nodes, q),
        refused(v, id).root == v.root,
        is_plain(id) && id != ".."@ && !taken(v, id) && disk::node_at(
            v.nodes,
            disk::path_of(v.root),
        ) is None && !disk::way_is_blocked(v.nodes, disk::path_of(v.root), 0) ==> disk::dir_at(
            refused(v, id).nodes,
            disk::path_of(v.root),
        ) is Some,
{
    way::led_way_keeps_the_rest(v.nodes, start_of(v.root, id), disk::path_of(id).pieces, q);
    let root = disk::path_of(v.root);
    if is_plain(id) && id != ".."@ && disk::node_at(v.nodes, root) is None
        && !disk::way_is_blocked(v.nodes, root, 0) {
        disk::plain_name_is_one_piece(id);
        way_to_a_plain_id(v.nodes, root, id);
    }
}

/// Where an app cannot be archived nothing is lost: all that was known of the disk is as it was.
/// There is nothing to archive where there is no directory, and then nothing changes at all; else
/// the archive has been made before the app was to be moved.
pub proof fn a_failed_archiving_loses_nothing(v: StoreView, id: Seq<char>, q: PathView)
    requires
        !archivable(v, id),
    ensures
        disk::node_at(v.nodes, q) is Some ==> disk::node_at(archived(v, id).nodes, q)
            == disk::node_at(v.nodes, q),
        disk::dir_at(v.nodes, live_path(v, id)) is None ==> archived(v, id) == v,
        disk::dir_at(v.nodes, live_path(v, id)) is Some && is_plain(id) && disk::node_at(
            v.nodes,
            disk::path_of(archives_of(v.root)),
        ) is None && !disk::way_is_blocked(v.nodes, disk::path_of(archives_of(v.root)), 0)
            ==> disk::dir_at(archived(v, id).nodes, disk::path_of(archives_of(v.root))) is Some,
{
    let there = disk::path_of(archives_of(v.root));
    way::led_way_keeps_the_rest(
        v.nodes,
        start_of(archives_of(v.root), id),
        disk::path_of(id).pieces,
        q,
    );
    if is_plain(id) && disk::node_at(v.nodes, there) is None && !disk::way_is_blocked(
        v.nodes,
        there,
        0,
    ) {
        disk::plain_name_is_one_piece(id);
        way_to_a_plain_id(v.nodes, there, id);
    }
}

/// What is not there is not archived, nor what is named by no name; and a link is not archived by a
/// path that asks for a directory.
pub proof fn only_a_named_directory_is_archived(v: StoreView, id: Seq<char>)
    requires
        archivable(v, id),
    ensures
        disk::dir_at(v.nodes, live_path(v, id)) is Some,
        !disk::ends_in_no_name(text::path_join(v.root, id)),
        disk::asks_for_dir(text::path_join(v.root, id)) ==> (disk::node_at(
            with_archive(v, id).nodes,
            live_path(with_archive(v, id), id),
        ) matches Some(n) && n.kind == NodeKind::Directory),
{
}

} // verus!
