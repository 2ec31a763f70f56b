//! The streams of the board: what happens to the apps, and their questions to the user.

use vstd::prelude::*;
use crate::app::supervisor::{BoardEvent, BoardEventView};
use crate::error::Error;
use crate::gateway::apps;
use crate::gateway::apps::AppDto;
use crate::gateway::stream::{stream_step, SocketEvent, StreamEvent, StreamStep};
use crate::protocol::{AgentInteraction, InteractionResponse};
use crate::text;
use vstd::string::*;

verus! {

/// What happens to an app's questions.
#[derive(Debug, Clone, PartialEq, Eq)]
pub enum InteractionEvent {
    Raised(AgentInteraction),
    Resolved { app_id: String, request_id: String },
}

/// What a board's listener is told.
#[derive(Debug, Clone, PartialEq)]
pub enum BoardWsMessage {
    AppCreated { app: AppDto },
    Updated { id: String },
    Archived { id: String },
    Badge { app_id: String, count: usize },
}

/// What the listener of an app's questions is told.
#[derive(Debug, Clone, PartialEq)]
pub enum InteractionWsMessage {
    InteractionRaised { interaction: AgentInteraction },
    Resolved { request_id: String },
}

/// The message says what is announced: a new app as it is, and of any change only which app it was.
pub open spec fn projects(m: BoardWsMessage, event: BoardEventView) -> bool {
    match event {
        BoardEventView::Created(a) => m matches BoardWsMessage::AppCreated { app }
            && apps::is_dto_of(app, a),
        BoardEventView::StatusChanged { id, .. } => m matches BoardWsMessage::Updated { id: i }
            && i@ == id,
        BoardEventView::Moved { id, .. } => m matches BoardWsMessage::Updated { id: i } && i@ == id,
        BoardEventView::IdentityChanged(a) => m matches BoardWsMessage::Updated { id: i } && i@
            == a.id,
        BoardEventView::Archived(id) => m matches BoardWsMessage::Archived { id: i } && i@ == id,
    }
}

/// An announcement as a board's listener is told.
pub fn project_board_event(event: BoardEvent) -> (m: BoardWsMessage)
    ensures
        projects(m, event@),
{
    match event {
        BoardEvent::Created(app) => BoardWsMessage::AppCreated { app: AppDto::from(app) },
        BoardEvent::StatusChanged { id, .. } => BoardWsMessage::Updated { id: id.0 },
        BoardEvent::Moved { id, .. } => BoardWsMessage::Updated { id: id.0 },
        BoardEvent::IdentityChanged(app) => BoardWsMessage::Updated { id: app.id.0 },
        BoardEvent::Archived(id) => BoardWsMessage::Archived { id: id.0 },
    }
}

/// How many questions an app's badge shows after something happened.
pub open spec fn badge_count(event: InteractionEvent) -> usize {
    match event {
        InteractionEvent::Raised(_) => 1,
        InteractionEvent::Resolved { .. } => 0,
    }
}

/// The message sets an app's badge.
pub open spec fn sets_badge(m: BoardWsMessage, app_id: Seq<char>, count: usize) -> bool {
    m matches BoardWsMessage::Badge { app_id: a, count: c } && a@ == app_id && c == count
}

/// A question lights an app's badge, an answer puts it out.
pub fn badge(event: InteractionEvent) -> (m: BoardWsMessage)
    ensures
        sets_badge(m, about(event), badge_count(event)),
{
    match event {
        InteractionEvent::Raised(q) => BoardWsMessage::Badge { app_id: q.app_id, count: 1 },
        InteractionEvent::Resolved { app_id, .. } => BoardWsMessage::Badge { app_id, count: 0 },
    }
}

/// The app that something happened to.
pub open spec fn about(event: InteractionEvent) -> Seq<char> {
    match event {
        InteractionEvent::Raised(q) => q.app_id@,
        InteractionEvent::Resolved { app_id, .. } => app_id@,
    }
}

/// What the listener of an app's questions is told; nothing of other apps.
pub open spec fn told(event: InteractionEvent, app_id: Seq<char>) -> Option<InteractionWsMessage> {
    if about(event) == app_id {
        match event {
            InteractionEvent::Raised(q) => Some(
                InteractionWsMessage::InteractionRaised { interaction: q },
            ),
            InteractionEvent::Resolved { request_id, .. } => Some(
                InteractionWsMessage::Resolved { request_id },
            ),
        }
    } else {
        None
    }
}

/// What the listener of an app's questions is told.
pub fn interaction_message(event: InteractionEvent, app_id: &str) -> (r: Option<
    InteractionWsMessage,
>)
    ensures
        r == told(event, app_id@),
{
    match event {
        InteractionEvent::Raised(q) => {
            if text::same(q.app_id.as_str(), app_id) {
                Some(InteractionWsMessage::InteractionRaised { interaction: q })
            } else {
                None
            }
        },
        InteractionEvent::Resolved { app_id: a, request_id } => {
            if text::same(a.as_str(), app_id) {
                Some(InteractionWsMessage::Resolved { request_id })
            } else {
                None
            }
        },
    }
}

/// What a new listener of an app's questions is told first: those that are open.
pub fn replay(pending: &Vec<AgentInteraction>) -> (r: Vec<InteractionWsMessage>)
    ensures
        r@ == pending@.map_values(
            |q: AgentInteraction| InteractionWsMessage::InteractionRaised { interaction: q },
        ),
{
    let ghost want = pending@.map_values(
        |q: AgentInteraction| InteractionWsMessage::InteractionRaised { interaction: q },
    );
    let mut r: Vec<InteractionWsMessage> = Vec::new();
    let mut i: usize = 0;
    while i < pending.len()
        invariant
            i <= pending.len(),
            want == pending@.map_values(
                |q: AgentInteraction| InteractionWsMessage::InteractionRaised { interaction: q },
            ),
            r@ == want.take(i as int),
        decreases pending.len() - i,
    {
        r.push(InteractionWsMessage::InteractionRaised { interaction: pending[i].copy() });
        assert(want.take(i as int + 1) =~= want.take(i as int).push(want[i as int]));
        i = i + 1;
    }
    assert(want.take(i as int) =~= want);
    r
}

/// What a new listener of an app's questions is told first; `None` where the app does not run, so
/// that the listener is sent away.
pub fn open_interactions(pending: Result<Vec<AgentInteraction>, Error>) -> (r: Option<
    Vec<InteractionWsMessage>,
>)
    ensures
        match pending {
            Ok(list) => r matches Some(messages) && messages@ == list@.map_values(
                |q: AgentInteraction| InteractionWsMessage::InteractionRaised { interaction: q },
            ),
            Err(_) => r is None,
        },
{
    match pending {
        Ok(list) => Some(replay(&list)),
        Err(_) => None,
    }
}

/// What the listener of an app's questions may send.
#[derive(Debug, Clone, PartialEq, Eq)]
pub enum InteractionInbound {
    Respond { response: InteractionResponse },
}

/// What to do after something came from the listener of an app's questions.
#[derive(Debug, Clone, PartialEq, Eq)]
pub enum InboundStep {
    /// The app is to have the answer.
    Respond { response: InteractionResponse },
    Continue,
    Stop,
}

/// What to do after something came from the listener of an app's questions.
pub fn on_interaction_socket(event: SocketEvent<InteractionInbound>) -> (step: InboundStep)
    ensures
        step == (match event {
            SocketEvent::Text(Some(InteractionInbound::Respond { response })) =>
            InboundStep::Respond { response },
            SocketEvent::Text(None) => InboundStep::Continue,
            SocketEvent::Other => InboundStep::Continue,
            SocketEvent::Closed => InboundStep::Stop,
            SocketEvent::Failed => InboundStep::Stop,
        }),
{
    match event {
        SocketEvent::Text(Some(InteractionInbound::Respond { response })) => InboundStep::Respond {
            response,
        },
        SocketEvent::Text(None) => InboundStep::Continue,
        SocketEvent::Other => InboundStep::Continue,
        SocketEvent::Closed => InboundStep::Stop,
        SocketEvent::Failed => InboundStep::Stop,
    }
}

/// What is announced once an answer was given to an app: nothing where it did not take it.
pub fn after_response(app_id: &str, request_id: String, taken: bool) -> (r: Option<
    InteractionEvent,
>)
    ensures
        match r {
            Some(e) => taken && is_resolution(e, app_id@, request_id@),
            None => !taken,
        },
{
    if taken {
        Some(InteractionEvent::Resolved { app_id: app_id.to_string(), request_id })
    } else {
        None
    }
}

/// The event says that an app's question was answered.
pub open spec fn is_resolution(
    e: InteractionEvent,
    app: Seq<char>,
    request: Seq<char>,
) -> bool {
    e matches InteractionEvent::Resolved { app_id, request_id } && app_id@ == app && request_id@
        == request
}

/// What to do after something happened to the questions of some app.
pub fn on_interaction_event(event: StreamEvent<InteractionEvent>, app_id: &str) -> (step:
    StreamStep<InteractionWsMessage>)
    ensures
        match event {
            StreamEvent::Item(e) => step == (match told(e, app_id@) {
                Some(m) => StreamStep::Send(m),
                None => StreamStep::Continue,
            }),
            StreamEvent::Lagged => step is Continue,
            StreamEvent::Closed => step is Stop,
        },
{
    match stream_step(event) {
        StreamStep::Send(e) => match interaction_message(e, app_id) {
            Some(m) => StreamStep::Send(m),
            None => StreamStep::Continue,
        },
        StreamStep::Continue => StreamStep::Continue,
        StreamStep::Stop => StreamStep::Stop,
    }
}

/// What to do after something happened on the board.
pub fn on_board_event(event: StreamEvent<BoardEvent>) -> (step: StreamStep<BoardWsMessage>)
    ensures
        match event {
            StreamEvent::Item(e) => step matches StreamStep::Send(m) && projects(m, e@),
            StreamEvent::Lagged => step is Continue,
            StreamEvent::Closed => step is Stop,
        },
{
    match stream_step(event) {
        StreamStep::Send(e) => StreamStep::Send(project_board_event(e)),
        StreamStep::Continue => StreamStep::Continue,
        StreamStep::Stop => StreamStep::Stop,
    }
}

/// What the board's listener is sent after something happened to the questions of some app.
pub fn on_board_interaction(event: StreamEvent<InteractionEvent>) -> (step: StreamStep<
    BoardWsMessage,
>)
    ensures
        match event {
            StreamEvent::Item(e) => step matches StreamStep::Send(m) && sets_badge(
                m,
                about(e),
                badge_count(e),
            ),
            StreamEvent::Lagged => step is Continue,
            StreamEvent::Closed => step is Stop,
        },
{
    match stream_step(event) {
        StreamStep::Send(e) => StreamStep::Send(badge(e)),
        StreamStep::Continue => StreamStep::Continue,
        StreamStep::Stop => StreamStep::Stop,
    }
}

/// An answer that an app has taken is told to the listeners of that app's questions and to no
/// others, and puts the app's badge out.
pub proof fn answer_reaches_the_listeners_of_its_app(
    e: InteractionEvent,
    app: Seq<char>,
    request: Seq<char>,
    listener: Seq<char>,
)
    requires
        is_resolution(e, app, request),
    ensures
        listener == app ==> (told(e, listener) matches Some(InteractionWsMessage::Resolved {
            request_id,
        }) && request_id@ == request),
        listener != app ==> told(e, listener) is None,
        about(e) == app,
        badge_count(e) == 0,
{
}

/// A question is told to the listeners of its app and to no others, and lights the app's badge.
pub proof fn question_reaches_the_listeners_of_its_app(q: AgentInteraction, listener: Seq<char>)
    ensures
        told(InteractionEvent::Raised(q), listener) == (if listener == q.app_id@ {
            Some(InteractionWsMessage::InteractionRaised { interaction: q })
        } else {
            None
        }),
        badge_count(InteractionEvent::Raised(q)) == 1,
{
}

/// Every change on the board is told, under the id of the app that it is about; a new app is told
/// whole, and what is told tells a new app, a change and an archived app apart.
pub proof fn change_is_told_of_its_app(m: BoardWsMessage, event: BoardEventView)
    requires
        projects(m, event),
    ensures
        m is AppCreated <==> event is Created,
        m is Archived <==> event is Archived,
        !(m is Badge),
        event matches BoardEventView::Created(a) ==> (m matches BoardWsMessage::AppCreated { app }
            && app.id@ == a.id && app.title@ == a.title && app.summary@ == a.summary),
        event matches BoardEventView::Archived(id) ==> (m matches BoardWsMessage::Archived { id: i }
            && i@ == id),
        event matches BoardEventView::StatusChanged { id, .. } ==> (m
            matches BoardWsMessage::Updated { id: i } && i@ == id),
        event matches BoardEventView::Moved { id, .. } ==> (m matches BoardWsMessage::Updated {
            id: i,
        } && i@ == id),
        event matches BoardEventView::IdentityChanged(a) ==> (m matches BoardWsMessage::Updated {
            id: i,
        } && i@ == a.id),
{
}

/// A badge is of one app and shows one number: a message sets no other.
pub proof fn a_badge_shows_one_number(
    m: BoardWsMessage,
    app: Seq<char>,
    count: usize,
    other: Seq<char>,
    number: usize,
)
    requires
        sets_badge(m, app, count),
        sets_badge(m, other, number),
    ensures
        m is Badge,
        app == other,
        count == number,
{
}

} // verus!
