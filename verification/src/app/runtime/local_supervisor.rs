//! The board whose workers are processes of their own: an app's worker is stopped when the app is
//! idle and started again when it is needed.

use vstd::prelude::*;
use crate::app::peer::drain;
use crate::app::peer::drain::InboxDrain;
use crate::app::peer::mailbox::{Mailbox, PeerEnvelope};
use crate::app::registry::disk;
use crate::app::registry::store;
use crate::app::registry::store::{DirEntry, FilesystemAppStore, StoreView};
use crate::app::runtime::lifecycle;
use crate::app::runtime::lifecycle::{AppLifecycle, LifecyclePhase, LifecycleView, ResumeState};
use crate::app::runtime::worker_handle;
use crate::app::runtime::worker_handle::WorkerHandle;
use crate::app::supervisor;
use crate::app::supervisor::{BoardEvent, BoardEventView, CreateAppRequest, MemorySupervisor};
use crate::app::{self, App, AppId, AppStatus, AppView, BoardPosition};
use crate::error;
use crate::error::Error;
use crate::name_map::NameMap;
use crate::protocol::{AgentInteraction, EntryNotification, HostToAgent, InteractionResponse};
use vstd::string::*;

verus! {

/// The record of an app, changed where there is one.
pub open spec fn changed(
    lives: Map<Seq<char>, LifecycleView>,
    id: Seq<char>,
    to: LifecycleView,
) -> Map<Seq<char>, LifecycleView> {
    if lives.contains_key(id) {
        lives.insert(id, to)
    } else {
        lives
    }
}

/// The board. What runs it knows as in `MemorySupervisor`; beyond that it keeps a record of every
/// app that has ever run.
#[derive(Debug)]
pub struct LocalSupervisor {
    board: MemorySupervisor,
    lifecycles: NameMap<AppLifecycle>,
}

/// The open questions of the running apps.
pub open spec fn questions(running: Map<Seq<char>, WorkerHandle>, id: Seq<char>) -> Seq<
    AgentInteraction,
> {
    if running.contains_key(id) {
        running[id]@
    } else {
        Seq::empty()
    }
}

/// What is kept of a worker: its open questions.
pub open spec fn keeps(resume: ResumeState, handle: WorkerHandle) -> bool {
    &&& resume.pending_interactions@ == handle@
    &&& resume.undelivered_peer_messages@.len() == 0
}

/// A worker goes on with what was kept.
pub open spec fn goes_on_with(handle: WorkerHandle, resume: ResumeState) -> bool {
    handle@ == resume.pending_interactions@
}

impl LocalSupervisor {
    pub closed spec fn valid(&self) -> bool {
        self.board.valid() && self.lifecycles.valid()
    }

    /// What is on disk.
    pub closed spec fn apps(&self) -> StoreView {
        self.board.apps()
    }

    /// The running apps, with their workers.
    pub closed spec fn running(&self) -> Map<Seq<char>, WorkerHandle> {
        self.board.running()
    }

    /// The records of the apps that have ever run.
    pub closed spec fn lives(&self) -> Map<Seq<char>, LifecycleView> {
        self.lifecycles@.map_values(|l: AppLifecycle| l@)
    }

    /// A board on a store, with nothing running.
    pub fn new(store: FilesystemAppStore) -> (s: Self)
        ensures
            s.valid(),
            s.apps() == store@,
            s.running() == Map::<Seq<char>, WorkerHandle>::empty(),
            s.lives() == Map::<Seq<char>, LifecycleView>::empty(),
    {
        let s = LocalSupervisor { board: MemorySupervisor::new(store), lifecycles: NameMap::new() };
        assert(s.lives() =~= Map::empty());
        s
    }

    fn set_life(&mut self, id: &AppId, life: AppLifecycle)
        requires
            old(self).valid(),
        ensures
            final(self).valid(),
            final(self).apps() == old(self).apps(),
            final(self).running() == old(self).running(),
            final(self).lives() == old(self).lives().insert(id.0@, life@),
    {
        self.lifecycles.insert(id.as_str(), life);
        assert(self.lives() =~= old(self).lives().insert(id.0@, life@));
    }

    fn life(&self, id: &AppId) -> (r: Option<AppLifecycle>)
        requires
            self.valid(),
        ensures
            match r {
                Some(l) => self.lives().contains_key(id.0@) && self.lives()[id.0@] == l@,
                None => !self.lives().contains_key(id.0@),
            },
    {
        match self.lifecycles.get(id.as_str()) {
            Some(l) => Some(*l),
            None => None,
        }
    }

    // -----------------------------------------------------------------------
    // Creating
    // -----------------------------------------------------------------------

    /// Something was found on disk where an id leads.
    pub fn learn(&mut self, id: &AppId, entry: DirEntry)
        requires
            old(self).valid(),
        ensures
            final(self).valid(),
            final(self).running() == old(self).running(),
            final(self).lives() == old(self).lives(),
            final(self).apps() == store::learned(old(self).apps(), id.0@, entry),
    {
        self.board.learn(id, entry);
    }

    /// An app was active at the given time, whoever made it so: the app as it is written.
    pub fn touch_last_active(&mut self, id: &AppId, now: &str) -> (r: Result<App, Error>)
        requires
            old(self).valid(),
        ensures
            final(self).valid(),
            final(self).running() == old(self).running(),
            final(self).lives() == old(self).lives(),
            match (r, store::manifest_of(old(self).apps(), id.0@)) {
                (Ok(a), Some(m)) => {
                    &&& a@ == (AppView { last_active: now@, ..m })
                    &&& final(self).apps() == (StoreView {
                        nodes: disk::with_manifest(
                            old(self).apps().nodes,
                            store::home_of(old(self).apps(), id.0@)->0.at,
                            a@,
                        ),
                        ..old(self).apps()
                    })
                },
                (Err(e), None) => final(self).apps() == old(self).apps() && error::says_missing(
                    e,
                    id.0@,
                ),
                _ => false,
            },
    {
        self.board.touch_last_active(id, now)
    }

    /// Notes a new app down. Its worker is still to be started, and its prompt to be sent.
    pub fn begin_create(
        &mut self,
        request: CreateAppRequest,
        initial_prompt: &str,
        id: AppId,
        now: String,
    ) -> (r: Result<App, Error>)
        requires
            old(self).valid(),
        ensures
            final(self).valid(),
            final(self).running() == old(self).running(),
            final(self).lives() == old(self).lives(),
            match r {
                Ok(a) => {
                    &&& a@ == supervisor::requested(request, initial_prompt@, id.0@, now@)
                    &&& !store::taken(old(self).apps(), id.0@)
                    &&& !store::obstructed(old(self).apps(), id.0@)
                    &&& final(self).apps() == store::created(old(self).apps(), a@)
                    &&& supervisor::stored(final(self).apps(), id.0@) == Some(a@)
                },
                Err(e) => {
                    &&& final(self).apps() == store::refused(old(self).apps(), id.0@)
                    &&& if store::taken(old(self).apps(), id.0@) {
                        e matches Error::App(m) && m@ == error::app_message(
                            "App "@,
                            id.0@,
                            " already exists"@,
                        )
                    } else {
                        store::obstructed(old(self).apps(), id.0@) && e is Io
                    }
                },
            },
    {
        self.board.begin_create(request, initial_prompt, id, now)
    }

    /// The worker of a new app was started and given its prompt: the app as it is now, and what is
    /// announced. Its first turn is under way.
    pub fn finish_create(&mut self, app: &App, now: u128) -> (r: (App, BoardEvent))
        requires
            old(self).valid(),
        ensures
            final(self).valid(),
            final(self).apps() == old(self).apps(),
            final(self).running() == old(self).running().insert(
                app@.id,
                final(self).running()[app@.id],
            ),
            final(self).running()[app@.id]@ == Seq::<AgentInteraction>::empty(),
            final(self).lives() == old(self).lives().insert(
                app@.id,
                (LifecycleView {
                    phase: LifecyclePhase::Active,
                    last_activity: now as int,
                    turn_in_flight: true,
                    has_pending_interaction: false,
                }),
            ),
            r.0@ == (AppView { status: AppStatus::Active, ..app@ }),
            r.1@ == BoardEventView::Created(r.0@),
    {
        let r = self.board.finish_create(app);
        self.set_life(&app.id, AppLifecycle::active(now).turn_started(now));
        r
    }

    // -----------------------------------------------------------------------
    // Looking
    // -----------------------------------------------------------------------

    /// The live apps, active those that run.
    pub fn list(&self) -> (r: Vec<App>)
        requires
            self.valid(),
        ensures
            app::app_views(r@) == store::apps_in(
                self.apps().nodes,
                disk::path_of(self.apps().root),
            ).map_values(
                |a: AppView| supervisor::shown(a, self.running().dom()),
            ),
    {
        self.board.list()
    }

    /// The app of an id, active where it runs.
    pub fn get(&self, id: &AppId) -> (r: Option<App>)
        requires
            self.valid(),
        ensures
            match (r, supervisor::stored(self.apps(), id.0@)) {
                (Some(a), Some(s)) => a@ == (if self.running().contains_key(id.0@) {
                    AppView { status: AppStatus::Active, ..s }
                } else {
                    s
                }),
                (None, None) => true,
                _ => false,
            },
    {
        self.board.get(id)
    }

    /// Whether an app has a worker to send to or to listen to.
    pub fn require_worker(&self, id: &AppId) -> (r: Result<(), Error>)
        requires
            self.valid(),
        ensures
            match r {
                Ok(()) => self.running().contains_key(id.0@),
                Err(e) => !self.running().contains_key(id.0@) && error::says_idle(e, id.0@),
            },
    {
        self.board.require_worker(id)
    }

    /// An app's open questions.
    pub fn pending_interactions(&self, id: &AppId) -> (r: Result<Vec<AgentInteraction>, Error>)
        requires
            self.valid(),
        ensures
            match r {
                Ok(list) => self.running().contains_key(id.0@) && list@
                    == self.running()[id.0@]@,
                Err(e) => !self.running().contains_key(id.0@) && error::says_idle(e, id.0@),
            },
    {
        self.board.pending_interactions(id)
    }

    /// An app moves on the board.
    pub fn move_app(&self, id: &AppId, position: BoardPosition) -> (r: Result<BoardEvent, Error>)
        requires
            self.valid(),
        ensures
            match r {
                Ok(e) => supervisor::stored(self.apps(), id.0@) is Some && e@
                    == (BoardEventView::Moved { id: id.0@, position }),
                Err(e) => supervisor::stored(self.apps(), id.0@) is None && error::says_missing(
                    e,
                    id.0@,
                ),
            },
    {
        self.board.move_app(id, position)
    }

    // -----------------------------------------------------------------------
    // Turns and questions
    // -----------------------------------------------------------------------

    /// A turn of an app's began.
    pub fn mark_turn_started(&mut self, id: &AppId, now: u128)
        requires
            old(self).valid(),
        ensures
            final(self).valid(),
            final(self).apps() == old(self).apps(),
            final(self).running() == old(self).running(),
            final(self).lives() == changed(
                old(self).lives(),
                id.0@,
                (LifecycleView {
                    last_activity: now as int,
                    turn_in_flight: true,
                    ..old(self).lives()[id.0@]
                }),
            ),
    {
        if let Some(l) = self.life(id) {
            self.set_life(id, l.turn_started(now));
        }
    }

    /// A turn of an app's ended.
    pub fn finish_turn(&mut self, id: &AppId, now: u128)
        requires
            old(self).valid(),
        ensures
            final(self).valid(),
            final(self).apps() == old(self).apps(),
            final(self).running() == old(self).running(),
            final(self).lives() == changed(
                old(self).lives(),
                id.0@,
                (LifecycleView {
                    last_activity: now as int,
                    turn_in_flight: false,
                    ..old(self).lives()[id.0@]
                }),
            ),
    {
        if let Some(l) = self.life(id) {
            self.set_life(id, l.turn_finished(now));
        }
    }

    /// An app reports an entry. The final one of a turn ends it.
    pub fn take_entry(&mut self, id: &AppId, notification: &EntryNotification, now: u128)
        requires
            old(self).valid(),
        ensures
            final(self).valid(),
            final(self).apps() == old(self).apps(),
            final(self).running() == old(self).running(),
            final(self).lives() == (if notification.is_final {
                changed(
                    old(self).lives(),
                    id.0@,
                    (LifecycleView {
                        last_activity: now as int,
                        turn_in_flight: false,
                        ..old(self).lives()[id.0@]
                    }),
                )
            } else {
                old(self).lives()
            }),
    {
        if notification.is_final {
            self.finish_turn(id, now);
        }
    }

    /// Brings an app's record in line with its open questions.
    pub fn sync_pending_interaction(&mut self, id: &AppId)
        requires
            old(self).valid(),
        ensures
            final(self).valid(),
            final(self).apps() == old(self).apps(),
            final(self).running() == old(self).running(),
            final(self).lives() == changed(
                old(self).lives(),
                id.0@,
                (LifecycleView {
                    has_pending_interaction: questions(old(self).running(), id.0@).len() > 0,
                    ..old(self).lives()[id.0@]
                }),
            ),
    {
        let has_pending = match self.board.pending_interactions(id) {
            Ok(list) => list.len() > 0,
            Err(_) => false,
        };
        if let Some(l) = self.life(id) {
            self.set_life(id, l.with_pending_interaction(has_pending));
        }
    }

    /// A worker asks the user something. Says whether its app runs; otherwise nothing is noted
    /// down.
    pub fn capture_interaction(&mut self, id: &AppId, interaction: AgentInteraction) -> (r: bool)
        requires
            old(self).valid(),
        ensures
            final(self).valid(),
            final(self).apps() == old(self).apps(),
            r == old(self).running().contains_key(id.0@),
            r ==> {
                &&& final(self).running() == old(self).running().insert(
                    id.0@,
                    final(self).running()[id.0@],
                )
                &&& final(self).running()[id.0@]@ == worker_handle::except(
                    old(self).running()[id.0@]@,
                    interaction.request_id@,
                ).push(interaction)
                &&& final(self).lives() == changed(
                    old(self).lives(),
                    id.0@,
                    (LifecycleView {
                        has_pending_interaction: true,
                        ..old(self).lives()[id.0@]
                    }),
                )
            },
            !r ==> final(self).running() == old(self).running() && final(self).lives() == old(
                self,
            ).lives(),
    {
        match self.board.take_worker(id) {
            Some(mut handle) => {
                handle.add_interaction(interaction);
                self.board.put_worker(id, handle);
                assert(self.running() =~= old(self).running().insert(id.0@, handle));
                if let Some(l) = self.life(id) {
                    self.set_life(id, l.with_pending_interaction(true));
                }
                true
            },
            None => {
                assert(self.running() =~= old(self).running());
                false
            },
        }
    }

    /// The user's answer was sent to an app's worker: its question is open no more, and a turn is
    /// under way.
    pub fn respond_to_interaction(
        &mut self,
        id: &AppId,
        response: &InteractionResponse,
        now: u128,
    ) -> (r: Result<(), Error>)
        requires
            old(self).valid(),
        ensures
            final(self).valid(),
            final(self).apps() == old(self).apps(),
            match r {
                Ok(()) => {
                    &&& old(self).running().contains_key(id.0@)
                    &&& final(self).running() == old(self).running().insert(
                        id.0@,
                        final(self).running()[id.0@],
                    )
                    &&& final(self).running()[id.0@]@ == worker_handle::except(
                        old(self).running()[id.0@]@,
                        response.request_id@,
                    )
                    &&& final(self).lives() == changed(
                        old(self).lives(),
                        id.0@,
                        (LifecycleView {
                            last_activity: now as int,
                            turn_in_flight: true,
                            has_pending_interaction: final(self).running()[id.0@]@.len() > 0,
                            ..old(self).lives()[id.0@]
                        }),
                    )
                },
                Err(e) => {
                    &&& !old(self).running().contains_key(id.0@)
                    &&& error::says_idle(e, id.0@)
                    &&& final(self).running() == old(self).running()
                    &&& final(self).lives() == old(self).lives()
                },
            },
    {
        match self.board.take_worker(id) {
            Some(mut handle) => {
                handle.clear_interaction(response.request_id.as_str());
                self.board.put_worker(id, handle);
                assert(self.running() =~= old(self).running().insert(id.0@, handle));
                self.mark_turn_started(id, now);
                self.sync_pending_interaction(id);
                proof {
                    let l = old(self).lives();
                    if l.contains_key(id.0@) {
                        let one = self.lives()[id.0@];
                        assert(self.lives() =~= l.insert(id.0@, one));
                    }
                }
                Ok(())
            },
            None => {
                assert(self.running() =~= old(self).running());
                Err(Error::about_app("App ", id.as_str(), " has no active worker"))
            },
        }
    }

    // -----------------------------------------------------------------------
    // Stopping and starting
    // -----------------------------------------------------------------------

    /// The app whose worker is to be started; none where it runs already.
    pub fn begin_restore(&self, id: &AppId) -> (r: Result<Option<App>, Error>)
        requires
            self.valid(),
        ensures
            match r {
                Ok(None) => self.running().contains_key(id.0@),
                Ok(Some(a)) => !self.running().contains_key(id.0@) && supervisor::stored(
                    self.apps(),
                    id.0@,
                ) == Some(a@),
                Err(e) => !self.running().contains_key(id.0@) && supervisor::stored(
                    self.apps(),
                    id.0@,
                ) is None && error::says_missing(e, id.0@),
            },
    {
        self.board.begin_restore(id)
    }

    /// The worker of an app was started again, with what was kept of it: its questions are open as
    /// they were, and its idle time starts anew.
    pub fn finish_restore(&mut self, id: &AppId, resume: ResumeState, now: u128) -> (r: BoardEvent)
        requires
            old(self).valid(),
        ensures
            final(self).valid(),
            final(self).apps() == old(self).apps(),
            final(self).running() == old(self).running().insert(
                id.0@,
                final(self).running()[id.0@],
            ),
            goes_on_with(final(self).running()[id.0@], resume),
            final(self).lives() == old(self).lives().insert(
                id.0@,
                (LifecycleView {
                    phase: LifecyclePhase::Active,
                    last_activity: now as int,
                    turn_in_flight: false,
                    has_pending_interaction: resume.pending_interactions@.len() > 0,
                }),
            ),
            r@ == (BoardEventView::StatusChanged { id: id.0@, status: AppStatus::Active }),
    {
        let has_pending = resume.pending_interactions.len() > 0;
        let mut handle = WorkerHandle::new();
        handle.set_pending_interactions(resume.pending_interactions);
        self.board.put_worker(id, handle);
        self.set_life(id, AppLifecycle::active(now).with_pending_interaction(has_pending));
        BoardEvent::StatusChanged { id: id.copy(), status: AppStatus::Active }
    }

    /// The message that is to be brought next to a running app, of those that were queued for it:
    /// they come in the order of their arrival, and each stays in the inbox until it has arrived.
    /// What is queued for an app that does not run is not brought.
    pub fn drain_peer_inbox<'a>(
        &self,
        id: &AppId,
        drain: &InboxDrain,
        inbox: &'a Mailbox,
    ) -> (r: Option<&'a PeerEnvelope>)
        requires
            self.valid(),
        ensures
            match r {
                Some(e) => self.running().contains_key(id.0@) && drain::has_next(drain@, inbox@)
                    && *e == inbox@[drain@.kept],
                None => !self.running().contains_key(id.0@) || !drain::has_next(drain@, inbox@),
            },
    {
        if self.board.require_worker(id).is_err() {
            None
        } else {
            drain.next(inbox)
        }
    }

    /// The apps that may be stopped for being idle.
    pub fn evictable(&self, now: u128, window: u128) -> (r: Vec<AppId>)
        requires
            self.valid(),
        ensures
            forall|k: Seq<char>|
                #![trigger self.lives().contains_key(k)]
                (exists|i: int| 0 <= i < r@.len() && (#[trigger] r@[i]).0@ == k) <==> (
                self.lives().contains_key(k) && lifecycle::evictable(
                    self.lives()[k],
                    now as int,
                    window as int,
                )),
            forall|i: int, j: int|
                0 <= i < j < r@.len() ==> (#[trigger] r@[i]).0@ != (#[trigger] r@[j]).0@,
    {
        let mut r: Vec<AppId> = Vec::new();
        let ghost order = self.lifecycles.order();
        proof {
            self.lifecycles.order_is_the_domain();
        }
        let mut i: usize = 0;
        while i < self.lifecycles.len()
            invariant
                self.valid(),
                order == self.lifecycles.order(),
                order.no_duplicates(),
                i <= order.len(),
                forall|m: int, n: int|
                    0 <= m < n < r@.len() ==> (#[trigger] r@[m]).0@ != (#[trigger] r@[n]).0@,
                forall|m: int|
                    0 <= m < r@.len() ==> order.take(i as int).contains((#[trigger] r@[m]).0@)
                        && self.lives().contains_key(r@[m].0@) && lifecycle::evictable(
                        self.lives()[r@[m].0@],
                        now as int,
                        window as int,
                    ),
                forall|m: int|
                    0 <= m < i && lifecycle::evictable(
                        self.lives()[#[trigger] order[m]],
                        now as int,
                        window as int,
                    ) ==> exists|n: int| 0 <= n < r@.len() && (#[trigger] r@[n]).0@ == order[m],
            decreases order.len() - i,
        {
            let (name, life) = self.lifecycles.entry(i);
            let ghost before = r@;
            if life.is_idle_evictable(now, window) {
                r.push(AppId(name.clone()));
            }
            assert forall|m: int, n: int| 0 <= m < n < r@.len() implies (#[trigger] r@[m]).0@ != (
            #[trigger] r@[n]).0@ by {
                assert(r@[m] == before[m]);
                if n < before.len() {
                    assert(r@[n] == before[n]);
                } else {
                    let x = choose|x: int|
                        0 <= x < order.take(i as int).len() && order.take(i as int)[x]
                            == before[m].0@;
                    assert(order[x] == before[m].0@);
                }
            }
            assert(order.take(i as int + 1) =~= order.take(i as int).push(order[i as int]));
            assert forall|m: int| 0 <= m < r@.len() implies order.take(i as int + 1).contains(
                (#[trigger] r@[m]).0@,
            ) by {
                if m < before.len() {
                    assert(r@[m] == before[m]);
                    let x = choose|x: int|
                        0 <= x < order.take(i as int).len() && order.take(i as int)[x]
                            == r@[m].0@;
                    assert(order.take(i as int + 1)[x] == r@[m].0@);
                } else {
                    assert(order.take(i as int + 1)[i as int] == r@[m].0@);
                }
            }
            assert forall|m: int|
                0 <= m < i + 1 && lifecycle::evictable(
                    self.lives()[#[trigger] order[m]],
                    now as int,
                    window as int,
                ) implies exists|n: int|
                0 <= n < r@.len() && (#[trigger] r@[n]).0@ == order[m] by {
                if m < i {
                    let n = choose|n: int| 0 <= n < before.len() && (#[trigger] before[n]).0@
                        == order[m];
                    assert(r@[n].0@ == order[m]);
                } else {
                    assert(r@[before.len() as int].0@ == order[m]);
                }
            }
            i = i + 1;
        }
        assert forall|k: Seq<char>|
            #![trigger self.lives().contains_key(k)]
            self.lives().contains_key(k) && lifecycle::evictable(
                self.lives()[k],
                now as int,
                window as int,
            ) implies exists|n: int| 0 <= n < r@.len() && (#[trigger] r@[n]).0@ == k by {
            assert(order.contains(k));
            let m = choose|m: int| 0 <= m < order.len() && order[m] == k;
            assert(lifecycle::evictable(self.lives()[order[m]], now as int, window as int));
        }
        r
    }

    /// Starts to stop an app: its worker is taken away, and what is to be kept of it is returned.
    /// None where it does not run.
    pub fn begin_tombstone(&mut self, id: &AppId) -> (r: Option<ResumeState>)
        requires
            old(self).valid(),
        ensures
            final(self).valid(),
            final(self).apps() == old(self).apps(),
            final(self).running() == old(self).running().remove(id.0@),
            final(self).lives() == old(self).lives(),
            match r {
                Some(resume) => {
                    &&& old(self).running().contains_key(id.0@)
                    &&& keeps(resume, old(self).running()[id.0@])
                },
                None => !old(self).running().contains_key(id.0@),
            },
    {
        match self.board.take_worker(id) {
            Some(handle) => Some(ResumeState::of_pending(handle.pending_interactions())),
            None => None,
        }
    }

    /// An app's worker has stopped: what is announced.
    pub fn finish_tombstone(&mut self, id: &AppId) -> (r: BoardEvent)
        requires
            old(self).valid(),
        ensures
            final(self).valid(),
            final(self).apps() == old(self).apps(),
            final(self).running() == old(self).running(),
            final(self).lives() == changed(
                old(self).lives(),
                id.0@,
                (LifecycleView {
                    phase: LifecyclePhase::Tombstoned,
                    turn_in_flight: false,
                    ..old(self).lives()[id.0@]
                }),
            ),
            r@ == (BoardEventView::StatusChanged { id: id.0@, status: AppStatus::Tombstoned }),
    {
        if let Some(l) = self.life(id) {
            self.set_life(id, l.tombstoned());
        }
        BoardEvent::StatusChanged { id: id.copy(), status: AppStatus::Tombstoned }
    }

    /// Moves an app into the archive once it was stopped; what is announced. One that was started
    /// again meanwhile runs on.
    pub fn archive(&mut self, id: &AppId) -> (r: Result<BoardEvent, Error>)
        requires
            old(self).valid(),
        ensures
            final(self).valid(),
            final(self).running() == old(self).running(),
            final(self).lives() == old(self).lives(),
            final(self).apps() == store::archived(old(self).apps(), id.0@),
            match r {
                Ok(e) => e@ == BoardEventView::Archived(id.0@) && store::archivable(
                    old(self).apps(),
                    id.0@,
                ),
                Err(e) => if disk::dir_at(
                    old(self).apps().nodes,
                    store::live_path(old(self).apps(), id.0@),
                ) is None {
                    error::says_missing(e, id.0@)
                } else {
                    !store::archivable(old(self).apps(), id.0@) && e is Io
                },
            },
    {
        self.board.move_to_archive(id)
    }
}

/// The frame that brings an app a message of the user's.
pub fn message_frame(text: String) -> (frame: HostToAgent)
    ensures
        frame == (HostToAgent::UserMessage { text, telegram_message_id: None }),
{
    HostToAgent::UserMessage { text, telegram_message_id: None }
}

/// The frame that brings an app an answer of the user's.
pub fn answer_frame(response: InteractionResponse) -> (frame: HostToAgent)
    ensures
        frame == (HostToAgent::InteractionAnswer { response }),
{
    HostToAgent::InteractionAnswer { response }
}

/// An app that was stopped for being idle is not stopped again while it does not run.
pub proof fn stopped_app_is_not_evicted_again(
    lives: Map<Seq<char>, LifecycleView>,
    id: Seq<char>,
    now: int,
    window: int,
)
    requires
        lives.contains_key(id),
    ensures
        !lifecycle::evictable(
            changed(
                lives,
                id,
                (LifecycleView {
                    phase: LifecyclePhase::Tombstoned,
                    turn_in_flight: false,
                    ..lives[id]
                }),
            )[id],
            now,
            window,
        ),
{
}

/// An app that was stopped and started again has the same open questions, in the same order.
pub proof fn questions_survive_a_restart(
    before: WorkerHandle,
    resume: ResumeState,
    after: WorkerHandle,
)
    requires
        keeps(resume, before),
        goes_on_with(after, resume),
    ensures
        after@ == before@,
{
}

/// What happens to one app leaves the records of all others as they are.
pub proof fn other_records_are_kept(
    lives: Map<Seq<char>, LifecycleView>,
    id: Seq<char>,
    to: LifecycleView,
    other: Seq<char>,
)
    requires
        other != id,
    ensures
        changed(lives, id, to).contains_key(other) == lives.contains_key(other),
        lives.contains_key(other) ==> changed(lives, id, to)[other] == lives[other],
{
}

/// An app's open questions are its worker's, all of them; an app that does not run has none.
pub proof fn questions_are_the_workers(
    running: Map<Seq<char>, WorkerHandle>,
    id: Seq<char>,
    handle: WorkerHandle,
)
    ensures
        questions(running.insert(id, handle), id) == handle@,
        questions(running.remove(id), id) == Seq::<AgentInteraction>::empty(),
        forall|other: Seq<char>|
            other != id ==> #[trigger] questions(running.insert(id, handle), other) == questions(
                running,
                other,
            ),
{
}

} // verus!
