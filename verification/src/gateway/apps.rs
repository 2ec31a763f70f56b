//! What is shown of the board, and what may be asked of it.

use vstd::prelude::*;
use crate::app::merge::{ClusterCandidate, ClusterDecision, Clusterer};
use crate::app::registry::store::{MemberRecord, MergeDecisionKind, MergeRecord};
use crate::app::supervisor::CreateAppRequest;
use crate::app::{App, AppId, AppStatus, AppView, BoardPosition, IconSpec};
use crate::error;
use crate::error::Error;
use crate::gateway::error::{
    supervisor_error, GatewayError, STATUS_ACCEPTED, STATUS_CREATED, STATUS_NO_CONTENT, STATUS_OK,
};
use crate::protocol::InteractionResponse;
use crate::text;
use vstd::std_specs::convert::FromSpecImpl;
use vstd::string::*;

verus! {

/// A position as it is sent.
#[derive(Debug, Clone, Copy, PartialEq, Eq)]
pub struct BoardPositionDto {
    pub row: i32,
    pub column: i32,
}

impl From<BoardPosition> for BoardPositionDto {
    fn from(value: BoardPosition) -> (r: Self) {
        BoardPositionDto { row: value.row, column: value.column }
    }
}

impl FromSpecImpl<BoardPosition> for BoardPositionDto {
    open spec fn obeys_from_spec() -> bool {
        true
    }

    open spec fn from_spec(value: BoardPosition) -> Self {
        BoardPositionDto { row: value.row, column: value.column }
    }
}

impl From<BoardPositionDto> for BoardPosition {
    fn from(value: BoardPositionDto) -> (r: Self) {
        BoardPosition { row: value.row, column: value.column }
    }
}

impl FromSpecImpl<BoardPositionDto> for BoardPosition {
    open spec fn obeys_from_spec() -> bool {
        true
    }

    open spec fn from_spec(value: BoardPositionDto) -> Self {
        BoardPosition { row: value.row, column: value.column }
    }
}

/// An icon as it is sent.
#[derive(Debug, Clone, PartialEq, Eq)]
pub struct IconDto {
    pub symbol: String,
    pub color: String,
}

impl From<IconSpec> for IconDto {
    fn from(value: IconSpec) -> (r: Self) {
        IconDto { symbol: value.symbol, color: value.color }
    }
}

impl FromSpecImpl<IconSpec> for IconDto {
    open spec fn obeys_from_spec() -> bool {
        true
    }

    open spec fn from_spec(value: IconSpec) -> Self {
        IconDto { symbol: value.symbol, color: value.color }
    }
}

/// An app as it is sent. Which sessions belong to it is not.
#[derive(Debug, Clone, PartialEq, Eq)]
pub struct AppDto {
    pub id: String,
    pub title: String,
    pub icon: IconDto,
    pub position: BoardPositionDto,
    pub status: String,
    pub summary: String,
    pub user_locked: bool,
    pub last_active: String,
}

/// A status as it is sent.
pub open spec fn status_text(s: AppStatus) -> Seq<char> {
    match s {
        AppStatus::Active => "active"@,
        AppStatus::Tombstoned => "tombstoned"@,
    }
}

/// What is sent says what the app is.
pub open spec fn is_dto_of(d: AppDto, a: AppView) -> bool {
    &&& d.id@ == a.id
    &&& d.title@ == a.title
    &&& d.icon.symbol@ == a.symbol
    &&& d.icon.color@ == a.color
    &&& d.position.row == a.position.row
    &&& d.position.column == a.position.column
    &&& d.status@ == status_text(a.status)
    &&& d.summary@ == a.summary
    &&& d.user_locked == a.user_locked
    &&& d.last_active@ == a.last_active
}

impl From<App> for AppDto {
    fn from(app: App) -> (r: Self)
        ensures
            is_dto_of(r, app@),
    {
        let status = match app.status {
            AppStatus::Active => "active",
            AppStatus::Tombstoned => "tombstoned",
        };
        AppDto {
            id: app.id.0,
            title: app.title,
            icon: IconDto::from(app.icon),
            position: BoardPositionDto::from(app.position),
            status: status.to_string(),
            summary: app.summary,
            user_locked: app.user_locked,
            last_active: app.last_active,
        }
    }
}

impl FromSpecImpl<App> for AppDto {
    open spec fn obeys_from_spec() -> bool {
        false
    }

    open spec fn from_spec(app: App) -> Self {
        arbitrary()
    }
}

/// A new app is asked for.
#[derive(Debug, Clone)]
pub struct CreateAppBody {
    pub task: String,
    pub position: BoardPositionDto,
}

/// A change of an app is asked for. Only its position can be changed; the rest is accepted and
/// ignored.
#[derive(Debug, Clone)]
pub struct PatchAppBody {
    pub position: Option<BoardPositionDto>,
    pub title: Option<String>,
    pub user_locked: Option<bool>,
}

impl Default for PatchAppBody {
    fn default() -> (r: Self)
        ensures
            r.position is None,
            r.title is None,
            r.user_locked is None,
    {
        PatchAppBody { position: None, title: None, user_locked: None }
    }
}

/// Something is said to an app.
#[derive(Debug, Clone)]
pub struct SendTaskBody {
    pub text: String,
}

pub const NEW_APP_SYMBOL: &'static str = "doc";

pub const NEW_APP_COLOR: &'static str = "#8E8E93";

/// The app that is asked for, until it has an identity of its own: its task is its title.
pub fn create_request(body: &CreateAppBody) -> (r: CreateAppRequest)
    ensures
        r.title@ == body.task@,
        r.icon.symbol@ == NEW_APP_SYMBOL@,
        r.icon.color@ == NEW_APP_COLOR@,
        r.position == (BoardPosition { row: body.position.row, column: body.position.column }),
{
    CreateAppRequest {
        title: body.task.clone(),
        icon: IconSpec { symbol: NEW_APP_SYMBOL.to_string(), color: NEW_APP_COLOR.to_string() },
        position: BoardPosition::from(body.position),
    }
}

/// Where an app is to be moved.
pub fn requested_move(body: &PatchAppBody) -> (r: Option<BoardPosition>)
    ensures
        match (body.position, r) {
            (Some(p), Some(q)) => q == (BoardPosition { row: p.row, column: p.column }),
            (None, None) => true,
            _ => false,
        },
{
    match body.position {
        Some(p) => Some(BoardPosition::from(p)),
        None => None,
    }
}

/// The app that was looked up: an unknown one is not found, which is told from a board that fails.
pub fn found(lookup: Result<Option<App>, Error>, id: &str) -> (r: Result<App, GatewayError>)
    ensures
        match lookup {
            Ok(Some(a)) => r matches Ok(b) && b == a,
            Ok(None) => r matches Err(GatewayError::AppNotFound(i)) && i@ == id@,
            Err(e) => r matches Err(GatewayError::Supervisor(m)) && m@ == error::error_text(e),
        },
{
    match lookup {
        Ok(Some(a)) => Ok(a),
        Ok(None) => Err(GatewayError::AppNotFound(id.to_string())),
        Err(e) => Err(supervisor_error(&e)),
    }
}

/// What is answered to a question for an app.
pub fn get_app(lookup: Result<Option<App>, Error>, id: &str) -> (r: Result<AppDto, GatewayError>)
    ensures
        match lookup {
            Ok(Some(a)) => r matches Ok(d) && is_dto_of(d, a@),
            Ok(None) => r matches Err(GatewayError::AppNotFound(i)) && i@ == id@,
            Err(e) => r matches Err(GatewayError::Supervisor(m)) && m@ == error::error_text(e),
        },
{
    match found(lookup, id) {
        Ok(a) => Ok(AppDto::from(a)),
        Err(e) => Err(e),
    }
}

/// The apps as they are sent, in their order.
pub open spec fn are_dtos_of(list: Seq<AppDto>, apps: Seq<App>) -> bool {
    &&& list.len() == apps.len()
    &&& forall|i: int| 0 <= i < list.len() ==> is_dto_of(#[trigger] list[i], apps[i]@)
}

/// What is answered to a question for all apps.
pub fn list_apps(lookup: Result<Vec<App>, Error>) -> (r: Result<Vec<AppDto>, GatewayError>)
    ensures
        match lookup {
            Ok(apps) => r matches Ok(list) && are_dtos_of(list@, apps@),
            Err(e) => r matches Err(GatewayError::Supervisor(m)) && m@ == error::error_text(e),
        },
{
    match lookup {
        Ok(apps) => {
            let ghost all = apps@;
            let mut list: Vec<AppDto> = Vec::new();
            let mut rest: Vec<App> = apps;
            while rest.len() > 0
                invariant
                    rest@.len() <= all.len(),
                    rest@ == all.skip(all.len() - rest@.len()),
                    are_dtos_of(list@, all.take(all.len() - rest@.len())),
                decreases rest.len(),
            {
                let ghost k = all.len() - rest@.len();
                let ghost done = list@;
                let a = rest.remove(0);
                assert(a == all[k]);
                list.push(AppDto::from(a));
                assert(rest@ =~= all.skip(k + 1));
                assert forall|i: int| 0 <= i < list@.len() implies is_dto_of(
                    #[trigger] list@[i],
                    all.take(k + 1)[i]@,
                ) by {
                    if i < k {
                        assert(list@[i] == done[i]);
                        assert(all.take(k)[i] == all.take(k + 1)[i]);
                    }
                }
            }
            assert(all.take(all.len() as int) =~= all);
            Ok(list)
        },
        Err(e) => Err(supervisor_error(&e)),
    }
}

/// Whether an answer is to the question that it is sent for.
pub fn answers(response: &InteractionResponse, request_id: &str) -> (r: Result<(), GatewayError>)
    ensures
        match r {
            Ok(()) => response.request_id@ == request_id@,
            Err(e) => response.request_id@ != request_id@ && (e
                matches GatewayError::InteractionNotFound(i) && i@ == request_id@),
        },
{
    if text::same(response.request_id.as_str(), request_id) {
        Ok(())
    } else {
        Err(GatewayError::InteractionNotFound(request_id.to_string()))
    }
}

/// What the board is asked for.
#[derive(Debug, Clone, Copy, PartialEq, Eq, Structural)]
pub enum BoardRequest {
    List,
    Create,
    Get,
    Patch,
    Archive,
    Restore,
    SendTask,
    ListEntries,
    ListTrajectory,
    ListInteractions,
    Respond,
}

/// The status of the answer to a request that succeeds: a new app was created, a task was only
/// taken over, and where nothing is left to say the answer has no content.
pub fn success_status(request: BoardRequest) -> (status: u16)
    ensures
        status == (match request {
            BoardRequest::Create => STATUS_CREATED,
            BoardRequest::SendTask => STATUS_ACCEPTED,
            BoardRequest::Archive => STATUS_NO_CONTENT,
            BoardRequest::Respond => STATUS_NO_CONTENT,
            _ => STATUS_OK,
        }),
{
    match request {
        BoardRequest::Create => STATUS_CREATED,
        BoardRequest::SendTask => STATUS_ACCEPTED,
        BoardRequest::Archive => STATUS_NO_CONTENT,
        BoardRequest::Respond => STATUS_NO_CONTENT,
        _ => STATUS_OK,
    }
}

// ---------------------------------------------------------------------------
// Merging
// ---------------------------------------------------------------------------

/// An app that a new conversation could join: another one, which the user has not locked.
pub open spec fn is_joinable(a: App, new_id: Seq<char>) -> bool {
    a.id.0@ != new_id && !a.user_locked
}

/// The apps that a new conversation could join, in their order.
pub open spec fn joinable(apps: Seq<App>, new_id: Seq<char>) -> Seq<ClusterCandidate>
    decreases apps.len(),
{
    if apps.len() == 0 {
        Seq::empty()
    } else if is_joinable(apps.last(), new_id) {
        joinable(apps.drop_last(), new_id).push(
            ClusterCandidate { app_id: apps.last().id.0, summary: apps.last().summary },
        )
    } else {
        joinable(apps.drop_last(), new_id)
    }
}

/// The apps that a new conversation could join.
pub fn merge_candidates(apps: &Vec<App>, new_app_id: &AppId) -> (r: Vec<ClusterCandidate>)
    ensures
        r@ == joinable(apps@, new_app_id.0@),
{
    let mut r: Vec<ClusterCandidate> = Vec::new();
    let mut i: usize = 0;
    assert(apps@.take(0) =~= Seq::empty());
    while i < apps.len()
        invariant
            i <= apps.len(),
            r@ == joinable(apps@.take(i as int), new_app_id.0@),
        decreases apps.len() - i,
    {
        assert(apps@.take(i as int + 1).drop_last() =~= apps@.take(i as int));
        let a = &apps[i];
        if !a.id.same(new_app_id) && !a.user_locked {
            r.push(ClusterCandidate { app_id: a.id.0.clone(), summary: a.summary.clone() });
        }
        i = i + 1;
    }
    assert(apps@.take(i as int) =~= apps@);
    r
}

/// What is done about a decision.
#[derive(Debug, Clone, PartialEq, Eq)]
pub enum MergePlan {
    /// The task goes to another app, which is the last active one from now on; both records go to
    /// it.
    Join { target: AppId, task: String, merge: MergeRecord, member: MemberRecord },
    /// The record goes to the new app itself.
    New { merge: MergeRecord },
}

/// What is done about a decision for a new app.
pub open spec fn is_plan(
    plan: MergePlan,
    decision: ClusterDecision,
    new_id: Seq<char>,
    task: Seq<char>,
    now: Seq<char>,
) -> bool {
    match decision {
        ClusterDecision::Join { app_id } => plan matches MergePlan::Join {
            target,
            task: t,
            merge,
            member,
        } && target.0@ == app_id@ && t@ == task && merge.kind == MergeDecisionKind::Join
            && merge.source_app_id@ == new_id && merge.recorded_at@ == now && member.session_id@ == new_id && member.recorded_at@
            == now && member.joined,
        ClusterDecision::New => plan matches MergePlan::New { merge } && merge.kind
            == MergeDecisionKind::New && merge.source_app_id@ == new_id && merge.recorded_at@ == now,
    }
}

/// What is done about a decision for a new app. Every decision is recorded.
pub fn merge_plan(decision: ClusterDecision, new_app_id: &AppId, task: &str, now: &str) -> (plan:
    MergePlan)
    ensures
        is_plan(plan, decision, new_app_id.0@, task@, now@),
{
    let source_app_id = new_app_id.0.clone();
    let recorded_at = now.to_string();
    match decision {
        ClusterDecision::Join { app_id } => MergePlan::Join {
            target: AppId(app_id),
            task: task.to_string(),
            merge: MergeRecord { kind: MergeDecisionKind::Join, source_app_id, recorded_at },
            member: MemberRecord {
                session_id: new_app_id.0.clone(),
                recorded_at: now.to_string(),
                joined: true,
            },
        },
        ClusterDecision::New => MergePlan::New {
            merge: MergeRecord { kind: MergeDecisionKind::New, source_app_id, recorded_at },
        },
    }
}

/// A candidate stands for one of the apps, one that can be joined.
pub open spec fn stands_for_joinable(c: ClusterCandidate, apps: Seq<App>, new_id: Seq<char>) -> bool {
    exists|i: int|
        0 <= i < apps.len() && is_joinable(#[trigger] apps[i], new_id) && apps[i].id.0 == c.app_id
}

/// Every candidate stands for an app that can be joined.
proof fn candidate_is_joinable(apps: Seq<App>, new_id: Seq<char>, k: int)
    requires
        0 <= k < joinable(apps, new_id).len(),
    ensures
        stands_for_joinable(joinable(apps, new_id)[k], apps, new_id),
    decreases apps.len(),
{
    if apps.len() > 0 {
        let init = apps.drop_last();
        let before = joinable(init, new_id);
        if k < before.len() {
            candidate_is_joinable(init, new_id, k);
            let i = choose|i: int|
                0 <= i < init.len() && is_joinable(#[trigger] init[i], new_id) && init[i].id.0
                    == before[k].app_id;
            assert(apps[i] == init[i]);
        } else {
            assert(is_joinable(apps[apps.len() - 1], new_id));
        }
    }
}

/// Asks where a new app's conversation goes, and says what is done about it. What the clusterer
/// answers is its own affair; whatever it is, an app that the user has locked is never joined, nor
/// the new app itself, and the decision is recorded.
pub fn consult_clusterer<C: Clusterer>(
    clusterer: &C,
    apps: &Vec<App>,
    new_app_id: &AppId,
    task: &str,
    now: &str,
) -> (plan: MergePlan)
    ensures
        exists|candidates: Vec<ClusterCandidate>, decision: ClusterDecision|
            candidates@ == joinable(apps@, new_app_id.0@) && #[trigger] call_ensures(
                C::classify,
                (clusterer, task, &candidates),
                decision,
            ) && is_plan(plan, decision, new_app_id.0@, task@, now@),
        plan matches MergePlan::Join { target, .. } ==> exists|i: int|
            0 <= i < apps@.len() && is_joinable(#[trigger] apps@[i], new_app_id.0@)
                && apps@[i].id.0@ == target.0@,
{
    let candidates = merge_candidates(apps, new_app_id);
    let decision = clusterer.classify(task, &candidates);
    proof {
        if let ClusterDecision::Join { app_id } = &decision {
            let k = choose|k: int|
                0 <= k < candidates@.len() && (#[trigger] candidates@[k]).app_id@ == app_id@;
            candidate_is_joinable(apps@, new_app_id.0@, k);
        }
    }
    assert(call_ensures(C::classify, (clusterer, task, &candidates), decision));
    merge_plan(decision, new_app_id, task, now)
}

// ---------------------------------------------------------------------------
// Laws
// ---------------------------------------------------------------------------

/// A position that is sent and taken back is the same.
pub proof fn position_survives_the_wire(p: BoardPosition)
    ensures
        <BoardPosition as vstd::std_specs::convert::FromSpec<BoardPositionDto>>::from_spec(
            <BoardPositionDto as vstd::std_specs::convert::FromSpec<BoardPosition>>::from_spec(p),
        ) == p,
{
}

/// What is sent of two apps tells them apart in everything but their sessions.
pub proof fn dto_says_everything_but_the_sessions(d: AppDto, a: AppView, b: AppView)
    requires
        is_dto_of(d, a),
        is_dto_of(d, b),
    ensures
        a == (AppView { members: a.members, ..b }),
{
    reveal_strlit("active");
    reveal_strlit("tombstoned");
    assert("active"@.len() != "tombstoned"@.len());
}

/// A locked app is no candidate, nor is the new app itself; every other app is.
pub proof fn candidates_are_the_joinable_apps(apps: Seq<App>, new_id: Seq<char>)
    ensures
        forall|k: int|
            0 <= k < joinable(apps, new_id).len() ==> stands_for_joinable(
                #[trigger] joinable(apps, new_id)[k],
                apps,
                new_id,
            ),
        forall|i: int|
            0 <= i < apps.len() && is_joinable(#[trigger] apps[i], new_id) ==> joinable(
                apps,
                new_id,
            ).contains(ClusterCandidate { app_id: apps[i].id.0, summary: apps[i].summary }),
    decreases apps.len(),
{
    let all = joinable(apps, new_id);
    assert forall|k: int| 0 <= k < all.len() implies stands_for_joinable(
        #[trigger] all[k],
        apps,
        new_id,
    ) by {
        candidate_is_joinable(apps, new_id, k);
    }
    if apps.len() > 0 {
        let init = apps.drop_last();
        candidates_are_the_joinable_apps(init, new_id);
        assert forall|i: int| 0 <= i < apps.len() && is_joinable(#[trigger] apps[i], new_id)
            implies all.contains(
            ClusterCandidate { app_id: apps[i].id.0, summary: apps[i].summary },
        ) by {
            let c = ClusterCandidate { app_id: apps[i].id.0, summary: apps[i].summary };
            let before = joinable(init, new_id);
            if i < init.len() {
                assert(init[i] == apps[i]);
                assert(before.contains(c));
                let j = choose|j: int| 0 <= j < before.len() && before[j] == c;
                assert(all[j] == c);
            } else {
                assert(all[before.len() as int] == c);
            }
        }
    }
}

/// The candidates are taken from the apps part by part, in their order: every app but the new one and
/// those that the user holds fast, with its id and its summary.
pub proof fn candidates_add_up(
    a: Seq<App>,
    b: Seq<App>,
    x: App,
    new_id: Seq<char>,
)
    ensures
        joinable(a + b, new_id) == joinable(a, new_id) + joinable(b, new_id),
        joinable(seq![x], new_id) == (if x.id.0@ != new_id && !x.user_locked {
            seq![ClusterCandidate { app_id: x.id.0, summary: x.summary }]
        } else {
            Seq::empty()
        }),
    decreases b.len(),
{
    let one = seq![x];
    assert(one.drop_last() =~= Seq::<App>::empty());
    reveal_with_fuel(joinable, 2);
    assert(joinable(one, new_id) =~= (if x.id.0@ != new_id && !x.user_locked {
            seq![ClusterCandidate { app_id: x.id.0, summary: x.summary }]
        } else {
            Seq::empty()
        }));
    if b.len() == 0 {
        assert(a + b =~= a);
        assert(joinable(a, new_id) + joinable(b, new_id) =~= joinable(a, new_id));
    } else {
        assert((a + b).drop_last() =~= a + b.drop_last());
        assert((a + b).last() == b.last());
        candidates_add_up(a, b.drop_last(), x, new_id);
        assert(joinable(a + b, new_id) =~= joinable(a, new_id) + joinable(b, new_id));
    }
}

/// A conversation that joins an app is sent to that app and recorded there under the new app's id,
/// as a merge and as a member; one that starts an app is recorded as such. A plan tells the decision
/// it came from.
pub proof fn plan_follows_the_decision(
    plan: MergePlan,
    decision: ClusterDecision,
    new_id: Seq<char>,
    task: Seq<char>,
    now: Seq<char>,
)
    requires
        is_plan(plan, decision, new_id, task, now),
    ensures
        plan is Join <==> decision is Join,
        match plan {
            MergePlan::Join { target, task: t, merge, member } => {
                &&& decision matches ClusterDecision::Join { app_id } && app_id@ == target.0@
                &&& t@ == task
                &&& merge.kind == MergeDecisionKind::Join
                &&& merge.source_app_id@ == new_id
                &&& merge.recorded_at@ == now
                &&& member.session_id@ == new_id
                &&& member.recorded_at@ == now
                &&& member.joined
            },
            MergePlan::New { merge } => {
                &&& merge.kind == MergeDecisionKind::New
                &&& merge.source_app_id@ == new_id
                &&& merge.recorded_at@ == now
            },
        },
{
}

/// A list of apps is told in its order, each app by itself.
pub proof fn apps_are_told_one_by_one(list: Seq<AppDto>, apps: Seq<App>, i: int)
    requires
        are_dtos_of(list, apps),
        0 <= i < apps.len(),
    ensures
        list.len() == apps.len(),
        is_dto_of(list[i], apps[i]@),
{
}

} // verus!
