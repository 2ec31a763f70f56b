//! How the program is called.

use vstd::prelude::*;
use crate::app::runtime::supervision;
use crate::app::runtime::supervision::{
    FLAG_AGENT, FLAG_APP_SESSION_DIR, FLAG_RPC_HOST, FLAG_TASK_ID,
};
use crate::text;
use vstd::string::*;

verus! {

pub const DEFAULT_RPC_HOST: &'static str = "127.0.0.1:19384";

pub const UNKNOWN_TASK: &'static str = "unknown";

/// What the program is to be.
#[derive(Debug, Clone, PartialEq, Eq)]
pub enum RunMode {
    /// The host.
    Host,
    /// The agent on a child machine.
    Agent { rpc_host: String, task_id: String },
    /// The worker of an app.
    AppWorker { rpc_host: String, app_id: String, app_session_dir: String },
}

/// What the program is to be, as plain values.
#[verifier::ext_equal]
pub enum ModeView {
    Host,
    Agent { rpc_host: Seq<char>, task_id: Seq<char> },
    AppWorker { rpc_host: Seq<char>, app_id: Seq<char>, app_session_dir: Seq<char> },
}

impl View for RunMode {
    type V = ModeView;

    open spec fn view(&self) -> ModeView {
        match self {
            RunMode::Host => ModeView::Host,
            RunMode::Agent { rpc_host, task_id } => ModeView::Agent {
                rpc_host: rpc_host@,
                task_id: task_id@,
            },
            RunMode::AppWorker { rpc_host, app_id, app_session_dir } => ModeView::AppWorker {
                rpc_host: rpc_host@,
                app_id: app_id@,
                app_session_dir: app_session_dir@,
            },
        }
    }
}

/// What stands behind the first `flag` that something stands behind, from place `i` on.
pub open spec fn value_from(args: Seq<Seq<char>>, flag: Seq<char>, i: int) -> Option<Seq<char>>
    decreases args.len() - i,
{
    if i < 0 || i + 1 >= args.len() {
        None
    } else if args[i] == flag {
        Some(args[i + 1])
    } else {
        value_from(args, flag, i + 1)
    }
}

/// What stands behind a flag.
pub fn flag_value<'a>(args: &'a [String], flag: &str) -> (r: Option<&'a str>)
    ensures
        match (r, value_from(text::views(args@), flag@, 0)) {
            (Some(v), Some(w)) => v@ == w,
            (None, None) => true,
            _ => false,
        },
{
    let mut i: usize = 0;
    while i < args.len() && args.len() - i > 1
        invariant
            i <= args@.len(),
            value_from(text::views(args@), flag@, 0) == value_from(
                text::views(args@),
                flag@,
                i as int,
            ),
        decreases args@.len() - i,
    {
        if text::same(args[i].as_str(), flag) {
            return Some(args[i + 1].as_str());
        }
        i = i + 1;
    }
    None
}

/// What stands behind a flag, or what is meant where nothing does.
pub open spec fn value_or(args: Seq<Seq<char>>, flag: Seq<char>, default: Seq<char>) -> Seq<char> {
    match value_from(args, flag, 0) {
        Some(v) => v,
        None => default,
    }
}

/// What the program is to be.
pub open spec fn mode_of(args: Seq<Seq<char>>) -> ModeView {
    let rpc_host = value_or(args, FLAG_RPC_HOST@, DEFAULT_RPC_HOST@);
    let task = value_or(args, FLAG_TASK_ID@, UNKNOWN_TASK@);
    if !args.contains(FLAG_AGENT@) {
        ModeView::Host
    } else {
        match value_from(args, FLAG_APP_SESSION_DIR@, 0) {
            Some(dir) => ModeView::AppWorker { rpc_host, app_id: task, app_session_dir: dir },
            None => ModeView::Agent { rpc_host, task_id: task },
        }
    }
}

fn has_argument(args: &[String], name: &str) -> (r: bool)
    ensures
        r == text::views(args@).contains(name@),
{
    let mut i: usize = 0;
    while i < args.len()
        invariant
            i <= args@.len(),
            forall|k: int| 0 <= k < i ==> #[trigger] text::views(args@)[k] != name@,
        decreases args@.len() - i,
    {
        if text::same(args[i].as_str(), name) {
            assert(text::views(args@)[i as int] == name@);
            return true;
        }
        i = i + 1;
    }
    false
}

fn value_text(args: &[String], flag: &str, default: &str) -> (r: String)
    ensures
        r@ == value_or(text::views(args@), flag@, default@),
{
    match flag_value(args, flag) {
        Some(v) => v.to_string(),
        None => default.to_string(),
    }
}

/// What the program is to be.
pub fn parse_mode(args: &[String]) -> (mode: RunMode)
    ensures
        mode@ == mode_of(text::views(args@)),
{
    if !has_argument(args, FLAG_AGENT) {
        return RunMode::Host;
    }
    let rpc_host = value_text(args, FLAG_RPC_HOST, DEFAULT_RPC_HOST);
    let task_id = value_text(args, FLAG_TASK_ID, UNKNOWN_TASK);
    match flag_value(args, FLAG_APP_SESSION_DIR) {
        Some(dir) => RunMode::AppWorker {
            rpc_host,
            app_id: task_id,
            app_session_dir: dir.to_string(),
        },
        None => RunMode::Agent { rpc_host, task_id },
    }
}

/// The token of the Telegram bot, where one is set that is not blank.
pub fn bot_token(setting: Option<String>) -> (r: Option<String>)
    ensures
        r == (match setting {
            Some(t) => if text::trim(t@).len() > 0 {
                Some(t)
            } else {
                None
            },
            None => None,
        }),
{
    match setting {
        Some(t) => {
            let core = text::trimmed(t.as_str());
            if text::to_chars(core.as_str()).len() > 0 {
                Some(t)
            } else {
                None
            }
        },
        None => None,
    }
}

// ---------------------------------------------------------------------------
// Laws
// ---------------------------------------------------------------------------

/// None of the values that an app's worker is called with is taken for a flag that stands behind
/// it, or it changes nothing that it is.
pub open spec fn not_taken_for_flags(
    program: Seq<char>,
    rpc_addr: Seq<char>,
    app_id: Seq<char>,
    session_dir: Seq<char>,
) -> bool {
    &&& program == FLAG_RPC_HOST@ ==> rpc_addr == FLAG_AGENT@
    &&& if program == FLAG_TASK_ID@ {
        app_id == FLAG_AGENT@
    } else {
        rpc_addr == FLAG_TASK_ID@ ==> app_id == FLAG_TASK_ID@
    }
    &&& if program == FLAG_APP_SESSION_DIR@ {
        session_dir == FLAG_AGENT@
    } else if rpc_addr == FLAG_APP_SESSION_DIR@ {
        session_dir == FLAG_TASK_ID@
    } else {
        app_id == FLAG_APP_SESSION_DIR@ ==> session_dir == FLAG_APP_SESSION_DIR@
    }
}

/// A worker reads its arguments as its supervisor meant them.
pub proof fn worker_arguments_are_read_back(
    program: Seq<char>,
    rpc_addr: Seq<char>,
    app_id: Seq<char>,
    session_dir: Seq<char>,
)
    requires
        not_taken_for_flags(program, rpc_addr, app_id, session_dir),
    ensures
        mode_of(seq![program] + supervision::arguments_of(rpc_addr, app_id, session_dir)) == (
        ModeView::AppWorker { rpc_host: rpc_addr, app_id, app_session_dir: session_dir }),
{
    let args = seq![program] + supervision::arguments_of(rpc_addr, app_id, session_dir);
    reveal_strlit("--agent");
    reveal_strlit("--rpc-host");
    reveal_strlit("--task-id");
    reveal_strlit("--app-session-dir");
    assert(FLAG_AGENT@.len() == 7);
    assert(FLAG_RPC_HOST@.len() == 10);
    assert(FLAG_TASK_ID@.len() == 9);
    assert(FLAG_APP_SESSION_DIR@.len() == 17);
    assert(args[0] == program);
    assert(args[1] == FLAG_AGENT@);
    assert(args[2] == FLAG_RPC_HOST@);
    assert(args[3] == rpc_addr);
    assert(args[4] == FLAG_TASK_ID@);
    assert(args[5] == app_id);
    assert(args[6] == FLAG_APP_SESSION_DIR@);
    assert(args[7] == session_dir);
    assert(args.len() == 8);
    assert(args.contains(FLAG_AGENT@));
    reveal_with_fuel(value_from, 9);
}

/// The value of a flag is the argument behind the first place where the flag stands with one behind
/// it; without such a place there is none.
pub proof fn flag_is_followed_by_its_value(args: Seq<Seq<char>>, flag: Seq<char>, i: int)
    requires
        0 <= i,
    ensures
        match value_from(args, flag, i) {
            Some(v) => exists|k: int|
                i <= k && k + 1 < args.len() && #[trigger] args[k] == flag && v == args[k + 1] && (
                forall|j: int| i <= j < k ==> #[trigger] args[j] != flag),
            None => forall|k: int| i <= k && k + 1 < args.len() ==> #[trigger] args[k] != flag,
        },
    decreases args.len() - i,
{
    if i + 1 < args.len() && args[i] != flag {
        flag_is_followed_by_its_value(args, flag, i + 1);
    }
}

/// Without `--agent` the program is the host. With it, a session directory makes it the worker of
/// an app, and it is the agent of a task otherwise; the host to call and the task are what their
/// flags say, or the defaults.
pub proof fn mode_follows_the_flags(args: Seq<Seq<char>>)
    ensures
        mode_of(args) is Host <==> !args.contains("--agent"@),
        mode_of(args) is AppWorker <==> args.contains("--agent"@) && value_from(
            args,
            "--app-session-dir"@,
            0,
        ) is Some,
        match mode_of(args) {
            ModeView::Host => true,
            ModeView::Agent { rpc_host, task_id } => {
                &&& rpc_host == (match value_from(args, "--rpc-host"@, 0) {
                    Some(v) => v,
                    None => DEFAULT_RPC_HOST@,
                })
                &&& task_id == (match value_from(args, "--task-id"@, 0) {
                    Some(v) => v,
                    None => UNKNOWN_TASK@,
                })
            },
            ModeView::AppWorker { rpc_host, app_id, app_session_dir } => {
                &&& rpc_host == (match value_from(args, "--rpc-host"@, 0) {
                    Some(v) => v,
                    None => DEFAULT_RPC_HOST@,
                })
                &&& app_id == (match value_from(args, "--task-id"@, 0) {
                    Some(v) => v,
                    None => UNKNOWN_TASK@,
                })
                &&& Some(app_session_dir) == value_from(args, "--app-session-dir"@, 0)
            },
        },
{
}

} // verus!
