//! The board: which apps there are, which of them run, and what is announced of them.

use vstd::prelude::*;
use crate::app::{self, App, AppId, AppStatus, AppView, BoardPosition, IconSpec};
use crate::app::registry::disk;
use crate::app::registry::store;
use crate::app::registry::store::{DirEntry, FilesystemAppStore, StoreView};
use crate::app::runtime::worker_handle;
use crate::app::runtime::worker_handle::WorkerHandle;
use crate::error;
use crate::error::Error;
use crate::name_map::NameMap;
use crate::protocol::{AgentInteraction, InteractionResponse};
use vstd::string::*;

verus! {

/// What a new app is to be.
#[derive(Debug, Clone)]
pub struct CreateAppRequest {
    pub title: String,
    pub icon: IconSpec,
    pub position: BoardPosition,
}

/// What is announced of the board.
#[derive(Debug, Clone, PartialEq, Eq)]
pub enum BoardEvent {
    Created(App),
    StatusChanged { id: AppId, status: AppStatus },
    Moved { id: AppId, position: BoardPosition },
    IdentityChanged(App),
    Archived(AppId),
}

/// What an announcement says.
#[verifier::ext_equal]
pub enum BoardEventView {
    Created(AppView),
    StatusChanged { id: Seq<char>, status: AppStatus },
    Moved { id: Seq<char>, position: BoardPosition },
    IdentityChanged(AppView),
    Archived(Seq<char>),
}

impl View for BoardEvent {
    type V = BoardEventView;

    open spec fn view(&self) -> BoardEventView {
        match self {
            BoardEvent::Created(app) => BoardEventView::Created(app@),
            BoardEvent::StatusChanged { id, status } => BoardEventView::StatusChanged {
                id: id.0@,
                status: *status,
            },
            BoardEvent::Moved { id, position } => BoardEventView::Moved {
                id: id.0@,
                position: *position,
            },
            BoardEvent::IdentityChanged(app) => BoardEventView::IdentityChanged(app@),
            BoardEvent::Archived(id) => BoardEventView::Archived(id.0@),
        }
    }
}

/// An app as the board shows it: active where it runs.
pub open spec fn shown(app: AppView, running: Set<Seq<char>>) -> AppView {
    if running.contains(app.id) {
        AppView { status: AppStatus::Active, ..app }
    } else {
        app
    }
}

/// A new app as a request describes it: without a worker, its summary the first prompt.
pub open spec fn requested(
    request: CreateAppRequest,
    prompt: Seq<char>,
    id: Seq<char>,
    now: Seq<char>,
) -> AppView {
    AppView {
        id,
        title: request.title@,
        symbol: request.icon.symbol@,
        color: request.icon.color@,
        position: request.position,
        status: AppStatus::Tombstoned,
        members: Seq::empty(),
        summary: prompt,
        user_locked: false,
        last_active: now,
    }
}

/// Makes the app that a request describes.
pub fn request_app(request: CreateAppRequest, prompt: &str, id: AppId, now: String) -> (app: App)
    ensures
        app@ == requested(request, prompt@, id.0@, now@),
{
    let mut app = App::at(id, request.title, request.icon, request.position, now);
    app.summary = prompt.to_string();
    assert(app@.members =~= Seq::empty());
    app
}

/// Shows the apps: active those that run.
pub fn overlay<T>(apps: Vec<App>, running: &NameMap<T>) -> (r: Vec<App>)
    requires
        running.valid(),
    ensures
        app::app_views(r@) == app::app_views(apps@).map_values(
            |a: AppView| shown(a, running@.dom()),
        ),
{
    let ghost want = app::app_views(apps@).map_values(|a: AppView| shown(a, running@.dom()));
    let mut r: Vec<App> = Vec::new();
    let mut i: usize = 0;
    assert(app::app_views(r@) =~= want.take(0));
    while i < apps.len()
        invariant
            i <= apps.len(),
            running.valid(),
            want == app::app_views(apps@).map_values(|a: AppView| shown(a, running@.dom())),
            app::app_views(r@) == want.take(i as int),
        decreases apps.len() - i,
    {
        let one = show(&apps[i], running);
        let ghost before = r@;
        r.push(one);
        assert(app::app_views(r@) =~= app::app_views(before).push(one@));
        assert(want.take(i as int + 1) =~= want.take(i as int).push(one@));
        i = i + 1;
    }
    assert(want.take(i as int) =~= want);
    r
}

/// Shows one app.
pub fn show<T>(app: &App, running: &NameMap<T>) -> (r: App)
    requires
        running.valid(),
    ensures
        r@ == shown(app@, running@.dom()),
{
    if running.contains(app.id.as_str()) {
        app.with_status(AppStatus::Active)
    } else {
        app.copy()
    }
}

/// A board whose workers live in this process.
#[derive(Debug)]
pub struct MemorySupervisor {
    store: FilesystemAppStore,
    runtimes: NameMap<WorkerHandle>,
}

/// What a store gives back for an id.
pub open spec fn stored(s: StoreView, id: Seq<char>) -> Option<AppView> {
    match store::manifest_of(s, id) {
        Some(m) => Some(store::loaded(m)),
        None => None,
    }
}

impl MemorySupervisor {
    /// What is on disk.
    pub closed spec fn apps(&self) -> StoreView {
        self.store@
    }

    /// The running apps, with their workers.
    pub closed spec fn running(&self) -> Map<Seq<char>, WorkerHandle> {
        self.runtimes@
    }

    pub closed spec fn valid(&self) -> bool {
        self.runtimes.valid()
    }

    /// A board on a store, with nothing running.
    pub fn new(store: FilesystemAppStore) -> (s: Self)
        ensures
            s.valid(),
            s.apps() == store@,
            s.running() == Map::<Seq<char>, WorkerHandle>::empty(),
    {
        MemorySupervisor { store, runtimes: NameMap::new() }
    }

    /// Something was found on disk where an id leads.
    pub fn learn(&mut self, id: &AppId, entry: DirEntry)
        requires
            old(self).valid(),
        ensures
            final(self).valid(),
            final(self).running() == old(self).running(),
            final(self).apps() == store::learned(old(self).apps(), id.0@, entry),
    {
        self.store.learn(id, entry);
    }

    /// An app was active at the given time, whoever made it so: the app as it is written.
    pub fn touch_last_active(&mut self, id: &AppId, now: &str) -> (r: Result<App, Error>)
        requires
            old(self).valid(),
        ensures
            final(self).valid(),
            final(self).running() == old(self).running(),
            match (r, store::manifest_of(old(self).apps(), id.0@)) {
                (Ok(a), Some(m)) => {
                    &&& a@ == (AppView { last_active: now@, ..m })
                    &&& final(self).apps() == (StoreView {
                        nodes: disk::with_manifest(
                            old(self).apps().nodes,
                            store::home_of(old(self).apps(), id.0@)->0.at,
                            a@,
                        ),
                        ..old(self).apps()
                    })
                },
                (Err(e), None) => final(self).apps() == old(self).apps() && error::says_missing(
                    e,
                    id.0@,
                ),
                _ => false,
            },
    {
        self.store.touch_last_active(id, now)
    }

    /// Notes a new app down. Its worker is still to be started.
    pub fn begin_create(
        &mut self,
        request: CreateAppRequest,
        initial_prompt: &str,
        id: AppId,
        now: String,
    ) -> (r: Result<App, Error>)
        requires
            old(self).valid(),
        ensures
            final(self).valid(),
            final(self).running() == old(self).running(),
            match r {
                Ok(a) => {
                    &&& a@ == requested(request, initial_prompt@, id.0@, now@)
                    &&& !store::taken(old(self).apps(), id.0@)
                    &&& !store::obstructed(old(self).apps(), id.0@)
                    &&& final(self).apps() == store::created(old(self).apps(), a@)
                    &&& stored(final(self).apps(), id.0@) == Some(a@)
                },
                Err(e) => {
                    &&& final(self).apps() == store::refused(old(self).apps(), id.0@)
                    &&& if store::taken(old(self).apps(), id.0@) {
                        e matches Error::App(m) && m@ == error::app_message(
                            "App "@,
                            id.0@,
                            " already exists"@,
                        )
                    } else {
                        store::obstructed(old(self).apps(), id.0@) && e is Io
                    }
                },
            },
    {
        let app = request_app(request, initial_prompt, id, now);
        match self.store.create(&app) {
            Err(e) => Err(e),
            Ok(()) => {
                proof {
                    store::created_app_is_found(old(self).apps(), app@);
                }
                Ok(app)
            },
        }
    }

    /// The worker of a new app was started: the app as it is now, and what is announced.
    pub fn finish_create(&mut self, app: &App) -> (r: (App, BoardEvent))
        requires
            old(self).valid(),
        ensures
            final(self).valid(),
            final(self).apps() == old(self).apps(),
            final(self).running() == old(self).running().insert(
                app@.id,
                final(self).running()[app@.id],
            ),
            final(self).running()[app@.id]@ == Seq::<AgentInteraction>::empty(),
            r.0@ == (AppView { status: AppStatus::Active, ..app@ }),
            r.1@ == BoardEventView::Created(r.0@),
    {
        self.runtimes.insert(app.id.as_str(), WorkerHandle::new());
        let active = app.with_status(AppStatus::Active);
        let announced = active.copy();
        (active, BoardEvent::Created(announced))
    }

    /// The live apps, active those that run.
    pub fn list(&self) -> (r: Vec<App>)
        requires
            self.valid(),
        ensures
            app::app_views(r@) == store::apps_in(
                self.apps().nodes,
                disk::path_of(self.apps().root),
            ).map_values(
                |a: AppView| shown(a, self.running().dom()),
            ),
    {
        overlay(self.store.list(false), &self.runtimes)
    }

    /// The app of an id, active where it runs.
    pub fn get(&self, id: &AppId) -> (r: Option<App>)
        requires
            self.valid(),
        ensures
            match (r, stored(self.apps(), id.0@)) {
                (Some(a), Some(s)) => a@ == (if self.running().contains_key(id.0@) {
                    AppView { status: AppStatus::Active, ..s }
                } else {
                    s
                }),
                (None, None) => true,
                _ => false,
            },
    {
        match self.store.get(id) {
            Some(app) => {
                if self.runtimes.contains(id.as_str()) {
                    Some(app.with_status(AppStatus::Active))
                } else {
                    Some(app)
                }
            },
            None => None,
        }
    }

    /// Whether an app has a worker to send to or to listen to.
    pub fn require_worker(&self, id: &AppId) -> (r: Result<(), Error>)
        requires
            self.valid(),
        ensures
            match r {
                Ok(()) => self.running().contains_key(id.0@),
                Err(e) => !self.running().contains_key(id.0@) && error::says_idle(e, id.0@),
            },
    {
        if self.runtimes.contains(id.as_str()) {
            Ok(())
        } else {
            Err(Error::about_app("App ", id.as_str(), " has no active worker"))
        }
    }

    /// An app's open questions.
    pub fn pending_interactions(&self, id: &AppId) -> (r: Result<Vec<AgentInteraction>, Error>)
        requires
            self.valid(),
        ensures
            match r {
                Ok(list) => self.running().contains_key(id.0@) && list@
                    == self.running()[id.0@]@,
                Err(e) => !self.running().contains_key(id.0@) && error::says_idle(e, id.0@),
            },
    {
        match self.runtimes.get(id.as_str()) {
            Some(handle) => Ok(handle.pending_interactions()),
            None => Err(Error::about_app("App ", id.as_str(), " has no active worker")),
        }
    }

    /// The user answered a question: it is open no more.
    pub fn respond_to_interaction(&mut self, id: &AppId, response: &InteractionResponse) -> (r:
        Result<(), Error>)
        requires
            old(self).valid(),
        ensures
            final(self).valid(),
            final(self).apps() == old(self).apps(),
            match r {
                Ok(()) => {
                    &&& old(self).running().contains_key(id.0@)
                    &&& final(self).running().dom() == old(self).running().dom()
                    &&& final(self).running()[id.0@]@ == worker_handle::except(
                        old(self).running()[id.0@]@,
                        response.request_id@,
                    )
                    &&& forall|k: Seq<char>| k != id.0@ ==> #[trigger] final(self).running()[k]
                        == old(self).running()[k]
                },
                Err(e) => {
                    &&& !old(self).running().contains_key(id.0@)
                    &&& error::says_idle(e, id.0@)
                    &&& final(self).running() == old(self).running()
                },
            },
    {
        match self.runtimes.remove(id.as_str()) {
            Some(mut handle) => {
                handle.clear_interaction(response.request_id.as_str());
                self.runtimes.insert(id.as_str(), handle);
                assert(self.running().dom() =~= old(self).running().dom());
                Ok(())
            },
            None => {
                assert(self.running() =~= old(self).running());
                Err(Error::about_app("App ", id.as_str(), " has no active worker"))
            },
        }
    }

    /// Stops an app. There is something to announce only where it ran.
    pub fn suspend(&mut self, id: &AppId) -> (r: Option<BoardEvent>)
        requires
            old(self).valid(),
        ensures
            final(self).valid(),
            final(self).apps() == old(self).apps(),
            final(self).running() == old(self).running().remove(id.0@),
            match r {
                Some(e) => old(self).running().contains_key(id.0@) && e@
                    == (BoardEventView::StatusChanged {
                    id: id.0@,
                    status: AppStatus::Tombstoned,
                }),
                None => !old(self).running().contains_key(id.0@),
            },
    {
        match self.runtimes.remove(id.as_str()) {
            Some(_handle) => Some(
                BoardEvent::StatusChanged { id: id.copy(), status: AppStatus::Tombstoned },
            ),
            None => None,
        }
    }

    /// The app whose worker is to be started; none where it runs already.
    pub fn begin_restore(&self, id: &AppId) -> (r: Result<Option<App>, Error>)
        requires
            self.valid(),
        ensures
            match r {
                Ok(None) => self.running().contains_key(id.0@),
                Ok(Some(a)) => !self.running().contains_key(id.0@) && stored(self.apps(), id.0@)
                    == Some(a@),
                Err(e) => !self.running().contains_key(id.0@) && stored(
                    self.apps(),
                    id.0@,
                ) is None && error::says_missing(e, id.0@),
            },
    {
        if self.runtimes.contains(id.as_str()) {
            return Ok(None);
        }
        match self.store.get(id) {
            Some(app) => Ok(Some(app)),
            None => Err(Error::about_app("App ", id.as_str(), " does not exist")),
        }
    }

    /// The worker of an app was started again.
    pub fn finish_restore(&mut self, id: &AppId) -> (r: BoardEvent)
        requires
            old(self).valid(),
        ensures
            final(self).valid(),
            final(self).apps() == old(self).apps(),
            final(self).running() == old(self).running().insert(
                id.0@,
                final(self).running()[id.0@],
            ),
            final(self).running()[id.0@]@ == Seq::<AgentInteraction>::empty(),
            r@ == (BoardEventView::StatusChanged { id: id.0@, status: AppStatus::Active }),
    {
        self.runtimes.insert(id.as_str(), WorkerHandle::new());
        BoardEvent::StatusChanged { id: id.copy(), status: AppStatus::Active }
    }

    /// Puts a worker in an app's place.
    pub(crate) fn put_worker(&mut self, id: &AppId, handle: WorkerHandle)
        requires
            old(self).valid(),
        ensures
            final(self).valid(),
            final(self).apps() == old(self).apps(),
            final(self).running() == old(self).running().insert(id.0@, handle),
    {
        self.runtimes.insert(id.as_str(), handle);
    }

    /// Takes an app's worker away.
    pub(crate) fn take_worker(&mut self, id: &AppId) -> (r: Option<WorkerHandle>)
        requires
            old(self).valid(),
        ensures
            final(self).valid(),
            final(self).apps() == old(self).apps(),
            final(self).running() == old(self).running().remove(id.0@),
            match r {
                Some(h) => old(self).running().contains_key(id.0@) && old(self).running()[id.0@]
                    == h,
                None => !old(self).running().contains_key(id.0@),
            },
    {
        self.runtimes.remove(id.as_str())
    }

    /// Moves an app into the archive, whether it runs or not; what is announced.
    pub fn move_to_archive(&mut self, id: &AppId) -> (r: Result<BoardEvent, Error>)
        requires
            old(self).valid(),
        ensures
            final(self).valid(),
            final(self).running() == old(self).running(),
            final(self).apps() == store::archived(old(self).apps(), id.0@),
            match r {
                Ok(e) => e@ == BoardEventView::Archived(id.0@) && store::archivable(
                    old(self).apps(),
                    id.0@,
                ),
                Err(e) => if disk::dir_at(
                    old(self).apps().nodes,
                    store::live_path(old(self).apps(), id.0@),
                ) is None {
                    error::says_missing(e, id.0@)
                } else {
                    !store::archivable(old(self).apps(), id.0@) && e is Io
                },
            },
    {
        match self.store.archive(id) {
            Ok(()) => Ok(BoardEvent::Archived(id.copy())),
            Err(e) => Err(e),
        }
    }

    /// Stops an app and moves it into the archive; what is announced, in order. Where it cannot
    /// be moved it stays stopped.
    pub fn archive(&mut self, id: &AppId) -> (r: (Option<BoardEvent>, Result<BoardEvent, Error>))
        requires
            old(self).valid(),
        ensures
            final(self).valid(),
            final(self).running() == old(self).running().remove(id.0@),
            final(self).apps() == store::archived(old(self).apps(), id.0@),
            r.0 is Some <==> old(self).running().contains_key(id.0@),
            r.0 matches Some(e) ==> e@ == (BoardEventView::StatusChanged {
                id: id.0@,
                status: AppStatus::Tombstoned,
            }),
            match r.1 {
                Ok(e) => e@ == BoardEventView::Archived(id.0@) && store::archivable(
                    old(self).apps(),
                    id.0@,
                ),
                Err(e) => if disk::dir_at(
                    old(self).apps().nodes,
                    store::live_path(old(self).apps(), id.0@),
                ) is None {
                    error::says_missing(e, id.0@)
                } else {
                    !store::archivable(old(self).apps(), id.0@) && e is Io
                },
            },
    {
        let stopped = self.suspend(id);
        (stopped, self.move_to_archive(id))
    }

    /// An app moves on the board.
    pub fn move_app(&self, id: &AppId, position: BoardPosition) -> (r: Result<BoardEvent, Error>)
        requires
            self.valid(),
        ensures
            match r {
                Ok(e) => stored(self.apps(), id.0@) is Some && e@ == (BoardEventView::Moved {
                    id: id.0@,
                    position,
                }),
                Err(e) => stored(self.apps(), id.0@) is None && error::says_missing(e, id.0@),
            },
    {
        match self.store.get(id) {
            Some(_app) => Ok(BoardEvent::Moved { id: id.copy(), position }),
            None => Err(Error::about_app("App ", id.as_str(), " does not exist")),
        }
    }
}

/// A stopped app shows as stopped, a restored one as active, and nothing else changes in how it
/// shows.
pub proof fn suspend_and_restore_change_the_status_alone(
    app: AppView,
    running: Set<Seq<char>>,
)
    requires
        app.status == AppStatus::Tombstoned,
    ensures
        shown(app, running.remove(app.id)) == app,
        shown(app, running.remove(app.id).insert(app.id)) == (AppView {
            status: AppStatus::Active,
            ..app
        }),
{
}

/// A new app has the title, the icon and the place that were asked for, the prompt as its summary,
/// and no worker yet.
pub proof fn new_app_is_as_requested(
    request: CreateAppRequest,
    prompt: Seq<char>,
    id: Seq<char>,
    now: Seq<char>,
)
    ensures
        ({
            let a = requested(request, prompt, id, now);
            &&& a.id == id
            &&& a.title == request.title@
            &&& a.symbol == request.icon.symbol@
            &&& a.color == request.icon.color@
            &&& a.position == request.position
            &&& a.summary == prompt
            &&& a.last_active == now
            &&& a.status == AppStatus::Tombstoned
            &&& !a.user_locked
            &&& a.members.len() == 0
        }),
{
}

/// An app is shown as it is stored, but active exactly where it runs; whether others run does not
/// matter.
pub proof fn running_apps_show_as_active(
    app: AppView,
    running: Set<Seq<char>>,
    other: Seq<char>,
)
    ensures
        running.contains(app.id) ==> shown(app, running) == (AppView {
            status: AppStatus::Active,
            ..app
        }),
        !running.contains(app.id) ==> shown(app, running) == app,
        other != app.id ==> shown(app, running.insert(other)) == shown(app, running),
{
}

/// What is on disk of an app is its manifest, at rest: every part of it but the status is as it was
/// written.
pub proof fn what_is_stored_is_at_rest(s: StoreView, id: Seq<char>)
    ensures
        stored(s, id) is Some <==> store::manifest_of(s, id) is Some,
        stored(s, id) matches Some(a) ==> {
            let m = store::manifest_of(s, id)->0;
            &&& a.status is Tombstoned
            &&& a.id == m.id && a.title == m.title && a.symbol == m.symbol && a.color == m.color
            &&& a.position == m.position && a.summary == m.summary && a.user_locked == m.user_locked
            &&& a.last_active == m.last_active
        },
{
}

/// What happened on the board is seen with all that it says.
pub proof fn events_are_their_parts(e: BoardEvent)
    ensures
        match e {
            BoardEvent::Created(a) => e@ == BoardEventView::Created(a@),
            BoardEvent::StatusChanged { id, status } => e@ matches BoardEventView::StatusChanged {
                id: i,
                status: s,
            } && i == id.0@ && s == status,
            BoardEvent::Moved { id, position } => e@ matches BoardEventView::Moved {
                id: i,
                position: p,
            } && i == id.0@ && p == position,
            BoardEvent::IdentityChanged(a) => e@ == BoardEventView::IdentityChanged(a@),
            BoardEvent::Archived(id) => e@ == BoardEventView::Archived(id.0@),
        },
{
}

} // verus!
