//! The whiteboard of apps.

use vstd::prelude::*;
use crate::text;
use vstd::string::*;

pub mod identity;
pub mod merge;
pub mod peer;
pub mod registry;
pub mod runtime;
pub mod supervisor;

verus! {

/// The name of an app.
#[derive(Debug, Clone, PartialEq, Eq, Hash)]
pub struct AppId(pub String);

/// An app's icon: a symbol and its color.
#[derive(Debug, Clone, PartialEq, Eq)]
pub struct IconSpec {
    pub symbol: String,
    pub color: String,
}

/// Where an app stands on the board.
#[derive(Debug, Clone, Copy, PartialEq, Eq, Structural)]
pub struct BoardPosition {
    pub row: i32,
    pub column: i32,
}

/// Whether an app has a running worker.
#[derive(Debug, Clone, Copy, PartialEq, Eq, Structural)]
pub enum AppStatus {
    Active,
    Tombstoned,
}

/// An app on the board.
#[derive(Debug, Clone, PartialEq, Eq)]
pub struct App {
    pub id: AppId,
    pub title: String,
    pub icon: IconSpec,
    pub position: BoardPosition,
    pub status: AppStatus,
    pub member_session_ids: Vec<String>,
    pub summary: String,
    pub user_locked: bool,
    pub last_active: String,
}

/// What an app is.
#[verifier::ext_equal]
pub struct AppView {
    pub id: Seq<char>,
    pub title: Seq<char>,
    pub symbol: Seq<char>,
    pub color: Seq<char>,
    pub position: BoardPosition,
    pub status: AppStatus,
    pub members: Seq<Seq<char>>,
    pub summary: Seq<char>,
    pub user_locked: bool,
    pub last_active: Seq<char>,
}

impl View for App {
    type V = AppView;

    open spec fn view(&self) -> AppView {
        AppView {
            id: self.id.0@,
            title: self.title@,
            symbol: self.icon.symbol@,
            color: self.icon.color@,
            position: self.position,
            status: self.status,
            members: text::views(self.member_session_ids@),
            summary: self.summary@,
            user_locked: self.user_locked,
            last_active: self.last_active@,
        }
    }
}

/// What a list of apps is.
pub open spec fn app_views(apps: Seq<App>) -> Seq<AppView> {
    apps.map_values(|a: App| a@)
}

/// A decimal digit.
pub open spec fn is_digit(c: char) -> bool {
    '0' <= c && c <= '9'
}

/// A time stamp from the seconds back to the month, each two digits behind a hyphen, and the
/// time zone. The year stands before it.
pub open spec fn stamp_shape(s: Seq<char>) -> bool {
    let t = s.subrange(s.len() - 19, s.len() as int);
    &&& s.len() >= 23
    &&& t.subrange(15, 19) == "-UTC"@
    &&& forall|g: int|
        0 <= g < 5 ==> #[trigger] t[3 * g] == '-' && is_digit(t[3 * g + 1]) && is_digit(
            t[3 * g + 2],
        )
}

/// `chrono::Utc::now()` with the format `%Y-%m-%d-%H-%M-%S-UTC`. Month, day, hour, minute and
/// second come in two digits each behind a year of at least four characters. Which time it is,
/// nothing says; the clock must not stand before 1970.
#[verifier::external_body]
fn utc_stamp() -> (r: String)
    ensures
        stamp_shape(r@),
{
    chrono::Utc::now().format("%Y-%m-%d-%H-%M-%S-UTC").to_string()
}

/// A date and a time of day, with the offset of universal time behind them.
pub open spec fn rfc3339_shape(s: Seq<char>) -> bool {
    &&& s.len() >= 25
    &&& s.subrange(s.len() - 6, s.len() as int) == "+00:00"@
}

/// `chrono::Utc::now().to_rfc3339()`: the date, the time of day, with a fraction of a second where
/// there is one, and the offset. Which time it is, nothing says; the clock must not stand before
/// 1970.
#[verifier::external_body]
fn utc_rfc3339() -> (r: String)
    ensures
        rfc3339_shape(r@),
{
    chrono::Utc::now().to_rfc3339()
}

impl AppId {
    /// An id made from the current time.
    pub fn now() -> (id: Self)
        ensures
            stamp_shape(id.0@),
    {
        AppId(utc_stamp())
    }

    pub fn as_str(&self) -> (r: &str)
        ensures
            r@ == self.0@,
    {
        self.0.as_str()
    }

    /// A copy of the id.
    pub fn copy(&self) -> (r: Self)
        ensures
            r == *self,
    {
        AppId(self.0.clone())
    }

    /// Whether two ids name the same app.
    pub fn same(&self, other: &AppId) -> (r: bool)
        ensures
            r == (self.0@ == other.0@),
    {
        self.0 == other.0
    }
}

impl IconSpec {
    /// A copy of the icon.
    pub fn copy(&self) -> (r: Self)
        ensures
            r == *self,
    {
        IconSpec { symbol: self.symbol.clone(), color: self.color.clone() }
    }
}

impl App {
    /// A new app: without a worker, members or a summary, not locked, last active at the given
    /// time.
    pub fn at(
        id: AppId,
        title: String,
        icon: IconSpec,
        position: BoardPosition,
        last_active: String,
    ) -> (app: Self)
        ensures
            app.id == id,
            app.title == title,
            app.icon == icon,
            app.position == position,
            app.status == AppStatus::Tombstoned,
            app.member_session_ids@.len() == 0,
            app.summary@ == Seq::<char>::empty(),
            !app.user_locked,
            app.last_active == last_active,
    {
        App {
            id,
            title,
            icon,
            position,
            status: AppStatus::Tombstoned,
            member_session_ids: Vec::new(),
            summary: String::new(),
            user_locked: false,
            last_active,
        }
    }

    /// A new app, last active now.
    pub fn new(id: AppId, title: String, icon: IconSpec, position: BoardPosition) -> (app: Self)
        ensures
            app.id == id,
            app.title == title,
            app.icon == icon,
            app.position == position,
            app.status == AppStatus::Tombstoned,
            app.member_session_ids@.len() == 0,
            app.summary@ == Seq::<char>::empty(),
            !app.user_locked,
            rfc3339_shape(app.last_active@),
    {
        App::at(id, title, icon, position, utc_rfc3339())
    }

    /// A copy of the app.
    pub fn copy(&self) -> (r: Self)
        ensures
            r@ == self@,
    {
        App {
            id: self.id.copy(),
            title: self.title.clone(),
            icon: self.icon.copy(),
            position: self.position,
            status: self.status,
            member_session_ids: self.member_session_ids.clone(),
            summary: self.summary.clone(),
            user_locked: self.user_locked,
            last_active: self.last_active.clone(),
        }
    }

    /// A copy of the app with another status.
    pub fn with_status(&self, status: AppStatus) -> (r: Self)
        ensures
            r@ == (AppView { status, ..self@ }),
    {
        let mut app = self.copy();
        app.status = status;
        app
    }
}

/// What an app is tells everything about it: two apps that are the same agree in every part.
pub proof fn app_is_its_parts(a: App, b: App)
    requires
        a@ == b@,
    ensures
        a.id.0@ == b.id.0@,
        a.title@ == b.title@,
        a.icon.symbol@ == b.icon.symbol@,
        a.icon.color@ == b.icon.color@,
        a.position == b.position,
        a.status == b.status,
        text::views(a.member_session_ids@) == text::views(b.member_session_ids@),
        a.summary@ == b.summary@,
        a.user_locked == b.user_locked,
        a.last_active@ == b.last_active@,
{
}

} // verus!
