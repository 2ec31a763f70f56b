//! What can go wrong.

use vstd::prelude::*;
use crate::text;
use vstd::string::*;

verus! {

/// An error, with the text of what caused it where something outside did.
#[derive(Debug, Clone, PartialEq, Eq)]
pub enum Error {
    Io(String),
    Json(String),
    Telegram(String),
    ProviderHttp(String),
    ProviderApi { status: u16, body: String },
    Provider(String),
    Subagent(String),
    ChannelClosed,
    Rpc(String),
    Vm(String),
    App(String),
    FrontMatter(String),
}

/// An error as it is shown.
pub open spec fn error_text(e: Error) -> Seq<char> {
    match e {
        Error::Io(m) => "I/O error: "@ + m@,
        Error::Json(m) => "JSON error: "@ + m@,
        Error::Telegram(m) => "telegram error: "@ + m@,
        Error::ProviderHttp(m) => "provider HTTP error: "@ + m@,
        Error::ProviderApi { status, body } => "provider API error (status "@ + text::decimal(
            status as nat,
        ) + "): "@ + body@,
        Error::Provider(m) => "provider error: "@ + m@,
        Error::Subagent(m) => "subagent error: "@ + m@,
        Error::ChannelClosed => "agent channel closed"@,
        Error::Rpc(m) => "RPC error: "@ + m@,
        Error::Vm(m) => "VM error: "@ + m@,
        Error::App(m) => "app error: "@ + m@,
        Error::FrontMatter(m) => "front matter error: "@ + m@,
    }
}

impl Error {
    /// The error as it is shown.
    pub fn message(&self) -> (r: String)
        ensures
            r@ == error_text(*self),
    {
        match self {
            Error::Io(m) => text::concat2("I/O error: ", m.as_str()),
            Error::Json(m) => text::concat2("JSON error: ", m.as_str()),
            Error::Telegram(m) => text::concat2("telegram error: ", m.as_str()),
            Error::ProviderHttp(m) => text::concat2("provider HTTP error: ", m.as_str()),
            Error::ProviderApi { status, body } => {
                let number = text::decimal_string(*status as u64);
                let head = text::concat3("provider API error (status ", number.as_str(), "): ");
                text::concat2(head.as_str(), body.as_str())
            },
            Error::Provider(m) => text::concat2("provider error: ", m.as_str()),
            Error::Subagent(m) => text::concat2("subagent error: ", m.as_str()),
            Error::ChannelClosed => "agent channel closed".to_string(),
            Error::Rpc(m) => text::concat2("RPC error: ", m.as_str()),
            Error::Vm(m) => text::concat2("VM error: ", m.as_str()),
            Error::App(m) => text::concat2("app error: ", m.as_str()),
            Error::FrontMatter(m) => text::concat2("front matter error: ", m.as_str()),
        }
    }

    /// A copy of the error.
    pub fn copy(&self) -> (r: Self)
        ensures
            r == *self,
    {
        match self {
            Error::Io(m) => Error::Io(m.clone()),
            Error::Json(m) => Error::Json(m.clone()),
            Error::Telegram(m) => Error::Telegram(m.clone()),
            Error::ProviderHttp(m) => Error::ProviderHttp(m.clone()),
            Error::ProviderApi { status, body } => Error::ProviderApi {
                status: *status,
                body: body.clone(),
            },
            Error::Provider(m) => Error::Provider(m.clone()),
            Error::Subagent(m) => Error::Subagent(m.clone()),
            Error::ChannelClosed => Error::ChannelClosed,
            Error::Rpc(m) => Error::Rpc(m.clone()),
            Error::Vm(m) => Error::Vm(m.clone()),
            Error::App(m) => Error::App(m.clone()),
            Error::FrontMatter(m) => Error::FrontMatter(m.clone()),
        }
    }

    /// An app's name between backquotes, with the words before and behind it.
    pub fn about_app(before: &str, id: &str, behind: &str) -> (e: Self)
        ensures
            e matches Error::App(m) && m@ == app_message(before@, id@, behind@),
    {
        let head = text::concat3(before, "`", id);
        Error::App(text::concat3(head.as_str(), "`", behind))
    }
}

/// An app's name between backquotes, with the words before and behind it.
pub open spec fn app_message(before: Seq<char>, id: Seq<char>, behind: Seq<char>) -> Seq<char> {
    before + "`"@ + id + "`"@ + behind
}

/// The error says that an app does not exist.
pub open spec fn says_missing(e: Error, id: Seq<char>) -> bool {
    e matches Error::App(m) && m@ == app_message("App "@, id, " does not exist"@)
}

/// The error says that an app has no worker.
pub open spec fn says_idle(e: Error, id: Seq<char>) -> bool {
    e matches Error::App(m) && m@ == app_message("App "@, id, " has no active worker"@)
}

/// What is told of an error ends with its own words.
pub proof fn error_ends_with_its_words(e: Error)
    ensures
        match e {
            Error::Io(m) => m@.is_suffix_of(error_text(e)),
            Error::Json(m) => m@.is_suffix_of(error_text(e)),
            Error::Telegram(m) => m@.is_suffix_of(error_text(e)),
            Error::ProviderHttp(m) => m@.is_suffix_of(error_text(e)),
            Error::ProviderApi { status, body } => body@.is_suffix_of(error_text(e)),
            Error::Provider(m) => m@.is_suffix_of(error_text(e)),
            Error::Subagent(m) => m@.is_suffix_of(error_text(e)),
            Error::ChannelClosed => true,
            Error::Rpc(m) => m@.is_suffix_of(error_text(e)),
            Error::Vm(m) => m@.is_suffix_of(error_text(e)),
            Error::App(m) => m@.is_suffix_of(error_text(e)),
            Error::FrontMatter(m) => m@.is_suffix_of(error_text(e)),
        },
{
    let t = error_text(e);
    match e {
        Error::ProviderApi { status, body } => {
            assert(t.subrange(t.len() - body@.len(), t.len() as int) =~= body@);
        },
        Error::ChannelClosed => {},
        Error::Io(m) => {
            assert(t.subrange(t.len() - m@.len(), t.len() as int) =~= m@);
        },
        Error::Json(m) => {
            assert(t.subrange(t.len() - m@.len(), t.len() as int) =~= m@);
        },
        Error::Telegram(m) => {
            assert(t.subrange(t.len() - m@.len(), t.len() as int) =~= m@);
        },
        Error::ProviderHttp(m) => {
            assert(t.subrange(t.len() - m@.len(), t.len() as int) =~= m@);
        },
        Error::Provider(m) => {
            assert(t.subrange(t.len() - m@.len(), t.len() as int) =~= m@);
        },
        Error::Subagent(m) => {
            assert(t.subrange(t.len() - m@.len(), t.len() as int) =~= m@);
        },
        Error::Rpc(m) => {
            assert(t.subrange(t.len() - m@.len(), t.len() as int) =~= m@);
        },
        Error::Vm(m) => {
            assert(t.subrange(t.len() - m@.len(), t.len() as int) =~= m@);
        },
        Error::App(m) => {
            assert(t.subrange(t.len() - m@.len(), t.len() as int) =~= m@);
        },
        Error::FrontMatter(m) => {
            assert(t.subrange(t.len() - m@.len(), t.len() as int) =~= m@);
        },
    }
}

/// An app that does not exist and one that does not run are told apart, and the error names the
/// app.
pub proof fn errors_name_the_app(e: Error, id: Seq<char>)
    ensures
        says_missing(e, id) ==> (e matches Error::App(m) && m@ == "App `"@ + id
            + "` does not exist"@),
        says_idle(e, id) ==> (e matches Error::App(m) && m@ == "App `"@ + id
            + "` has no active worker"@),
{
    reveal_strlit("App ");
    reveal_strlit("`");
    reveal_strlit("App `");
    reveal_strlit(" does not exist");
    reveal_strlit("` does not exist");
    reveal_strlit(" has no active worker");
    reveal_strlit("` has no active worker");
    assert("App "@ + "`"@ =~= "App `"@);
    assert("`"@ + " does not exist"@ =~= "` does not exist"@);
    assert("`"@ + " has no active worker"@ =~= "` has no active worker"@);
    assert(app_message("App "@, id, " does not exist"@) =~= "App `"@ + id + "` does not exist"@);
    assert(app_message("App "@, id, " has no active worker"@) =~= "App `"@ + id
        + "` has no active worker"@);
}

} // verus!
