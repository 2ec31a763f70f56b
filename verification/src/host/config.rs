//! The host's settings, and the command that starts an agent on a machine.

use vstd::prelude::*;
use crate::text;
use vstd::string::*;

verus! {

pub const DEFAULT_RPC_PORT: u16 = 19384;

pub const DEFAULT_SURFACE_PORT: u16 = 19386;

pub const DEFAULT_VM_IMAGE: &'static str = "rubberdux-base-ubuntu24-release";

pub const DEFAULT_SHARE_ROOT: &'static str = "./vm-shares";

pub const DEFAULT_HOST_IP: &'static str = "192.168.64.1";

pub const KEY_LLM_BASE_URL: &'static str = "RUBBERDUX_LLM_BASE_URL";

pub const KEY_LLM_API_KEY: &'static str = "RUBBERDUX_LLM_API_KEY";

pub const KEY_LLM_MODEL: &'static str = "RUBBERDUX_LLM_MODEL";

pub const KEY_LLM_USER_AGENT: &'static str = "RUBBERDUX_LLM_USER_AGENT";

/// What makes the shared data directory known on a machine.
pub const SHARE_SETUP: &'static str = "OS=\"$(uname -s)\"; if [[ \"$OS\" == \"Darwin\" ]]; then mkdir -p \"/Volumes/My Shared Files/data/\"{documents,downloads,config,sessions,tool-results,subagents}; ln -sf \"/Volumes/My Shared Files/data/documents\" ~/Documents; ln -sf \"/Volumes/My Shared Files/data/downloads\" ~/Downloads; ln -sf \"/Volumes/My Shared Files/data/config\" ~/.rubberdux; export RUBBERDUX_DATA_DIR=\"/Volumes/My Shared Files/data\"; elif [[ \"$OS\" == \"Linux\" ]]; then sudo mkdir -p /mnt/shared; sudo mount -t virtiofs com.apple.virtio-fs.automount /mnt/shared 2>/dev/null || true; mkdir -p /mnt/shared/data/{documents,downloads,config,sessions,tool-results,subagents}; ln -sf /mnt/shared/data/documents ~/Documents; ln -sf /mnt/shared/data/downloads ~/Downloads; ln -sf /mnt/shared/data/config ~/.rubberdux; export RUBBERDUX_DATA_DIR=\"/mnt/shared/data\"; fi && ";

/// What the environment says, each variable where it is set.
#[derive(Debug, Clone, PartialEq, Eq)]
pub struct HostEnv {
    pub vm_image: Option<String>,
    /// The machine that the image's name stands for, where it is a known name.
    pub base_vm_name: Option<String>,
    pub vm_shares: Option<String>,
    pub rpc_port: Option<String>,
    pub surface_port: Option<String>,
    pub host_ip: Option<String>,
    pub agent_data_dir: Option<String>,
    pub llm_base_url: Option<String>,
    pub llm_api_key: Option<String>,
    pub llm_model: Option<String>,
    pub llm_user_agent: Option<String>,
}

/// The host's settings.
#[derive(Debug, Clone)]
pub struct HostConfig {
    pub vm_image: String,
    pub share_root: String,
    pub rpc_port: u16,
    pub surface_port: u16,
    pub host_ip: String,
    pub agent_binary_path: Option<String>,
    /// The variables that an agent gets, in the order in which they are set.
    pub agent_env: Vec<(String, String)>,
    pub agent_data_dir: Option<String>,
    pub memory_mb: Option<usize>,
    pub cpu_count: Option<usize>,
}

/// A setting, or its default.
pub open spec fn or_default(value: Option<String>, default: Seq<char>) -> Seq<char> {
    match value {
        Some(v) => v@,
        None => default,
    }
}

/// A port, or its default where none is set or what is set is no port.
pub open spec fn port_or(value: Option<String>, default: int) -> int {
    match value {
        Some(v) => match text::unsigned_value_upto(v@, 65535) {
            Some(n) => n,
            None => default,
        },
        None => default,
    }
}

/// The variables that an agent gets.
pub open spec fn env_view(env: Seq<(String, String)>) -> Seq<(Seq<char>, Seq<char>)> {
    env.map_values(|e: (String, String)| (e.0@, e.1@))
}

/// One more variable, where it is set.
pub open spec fn with_variable(
    env: Seq<(Seq<char>, Seq<char>)>,
    key: Seq<char>,
    value: Option<String>,
) -> Seq<(Seq<char>, Seq<char>)> {
    match value {
        Some(v) => env.push((key, v@)),
        None => env,
    }
}

/// The variables that an agent gets from the host's environment.
pub open spec fn agent_variables(env: HostEnv) -> Seq<(Seq<char>, Seq<char>)> {
    with_variable(
        with_variable(
            with_variable(
                with_variable(Seq::empty(), KEY_LLM_BASE_URL@, env.llm_base_url),
                KEY_LLM_API_KEY@,
                env.llm_api_key,
            ),
            KEY_LLM_MODEL@,
            env.llm_model,
        ),
        KEY_LLM_USER_AGENT@,
        env.llm_user_agent,
    )
}

fn text_or(value: &Option<String>, default: &str) -> (r: String)
    ensures
        r@ == or_default(*value, default@),
{
    match value {
        Some(v) => v.clone(),
        None => default.to_string(),
    }
}

fn read_port(value: &Option<String>, default: u16) -> (r: u16)
    ensures
        r == port_or(*value, default as int),
{
    match value {
        Some(v) => match text::read_unsigned(v.as_str(), 65535) {
            Some(n) => n as u16,
            None => default,
        },
        None => default,
    }
}

fn add_variable(env: &mut Vec<(String, String)>, key: &str, value: &Option<String>)
    ensures
        env_view(final(env)@) == with_variable(env_view(old(env)@), key@, *value),
{
    if let Some(v) = value {
        let entry: (String, String) = (key.to_string(), v.clone());
        env.push(entry);
        assert(env_view(env@) =~= env_view(old(env)@).push((key@, v@)));
    }
}

impl HostConfig {
    /// The settings that an environment asks for.
    pub fn from_env(env: &HostEnv) -> (c: Self)
        ensures
            c.vm_image@ == (match (env.vm_image, env.base_vm_name) {
                (None, _) => DEFAULT_VM_IMAGE@,
                (Some(_), Some(base)) => base@,
                (Some(raw), None) => raw@,
            }),
            c.share_root@ == or_default(env.vm_shares, DEFAULT_SHARE_ROOT@),
            c.rpc_port == port_or(env.rpc_port, DEFAULT_RPC_PORT as int),
            c.surface_port == port_or(env.surface_port, DEFAULT_SURFACE_PORT as int),
            c.host_ip@ == or_default(env.host_ip, DEFAULT_HOST_IP@),
            c.agent_binary_path is None,
            env_view(c.agent_env@) == agent_variables(*env),
            text::opt_view(c.agent_data_dir) == text::opt_view(env.agent_data_dir),
            c.memory_mb is None,
            c.cpu_count is None,
    {
        let vm_image = match &env.vm_image {
            None => DEFAULT_VM_IMAGE.to_string(),
            Some(raw) => match &env.base_vm_name {
                Some(base) => base.clone(),
                None => raw.clone(),
            },
        };
        let mut agent_env: Vec<(String, String)> = Vec::new();
        assert(env_view(agent_env@) =~= Seq::empty());
        add_variable(&mut agent_env, KEY_LLM_BASE_URL, &env.llm_base_url);
        add_variable(&mut agent_env, KEY_LLM_API_KEY, &env.llm_api_key);
        add_variable(&mut agent_env, KEY_LLM_MODEL, &env.llm_model);
        add_variable(&mut agent_env, KEY_LLM_USER_AGENT, &env.llm_user_agent);
        let agent_data_dir = match &env.agent_data_dir {
            Some(d) => Some(d.clone()),
            None => None,
        };
        HostConfig {
            vm_image,
            share_root: text_or(&env.vm_shares, DEFAULT_SHARE_ROOT),
            rpc_port: read_port(&env.rpc_port, DEFAULT_RPC_PORT),
            surface_port: read_port(&env.surface_port, DEFAULT_SURFACE_PORT),
            host_ip: text_or(&env.host_ip, DEFAULT_HOST_IP),
            agent_binary_path: None,
            agent_env,
            agent_data_dir,
            memory_mb: None,
            cpu_count: None,
        }
    }
}

/// A text in single quotes for a shell. A single quote in it closes them, stands in double quotes
/// and opens them again.
pub open spec fn quoted(s: Seq<char>) -> Seq<char> {
    "'"@ + text::replace_char(s, '\'', "'\"'\"'"@) + "'"@
}

/// Puts a text in single quotes for a shell.
pub fn shell_quote(s: &str) -> (r: String)
    ensures
        r@ == quoted(s@),
{
    let inner = text::replaced(s, '\'', "'\"'\"'");
    text::concat3("'", inner.as_str(), "'")
}

/// The variables as a shell sets them.
pub open spec fn exports(env: Seq<(Seq<char>, Seq<char>)>) -> Seq<Seq<char>> {
    env.map_values(
        |e: (Seq<char>, Seq<char>)| "export "@ + quoted(e.0) + "="@ + quoted(e.1),
    )
}

/// The agent's binary.
pub open spec fn binary_of(config: HostConfig) -> Seq<char> {
    or_default(config.agent_binary_path, "rubberduxd"@)
}

/// The command line of an agent.
pub open spec fn agent_call(config: HostConfig, task_id: Option<&str>) -> Seq<char> {
    let base = quoted(binary_of(config)) + " --agent --rpc-host "@ + config.host_ip@ + ":"@
        + text::decimal(config.rpc_port as nat);
    match task_id {
        Some(t) => base + " --task-id "@ + quoted(t@),
        None => base,
    }
}

/// What is done before an agent is called.
pub open spec fn agent_setup(config: HostConfig) -> Seq<char> {
    let binary = quoted(binary_of(config));
    let own = if config.agent_binary_path is Some {
        "chmod +x "@ + binary + " && xattr -d com.apple.quarantine "@ + binary
            + " 2>/dev/null || true && "@
    } else {
        Seq::empty()
    };
    if config.agent_data_dir is Some {
        own + SHARE_SETUP@
    } else {
        own
    }
}

/// The command that starts an agent in the background: with variables to set it is a script of its
/// own.
pub open spec fn agent_command(config: HostConfig, task_id: Option<&str>) -> Seq<char> {
    let cmd = agent_setup(config) + agent_call(config, task_id);
    if config.agent_env@.len() == 0 {
        "nohup "@ + cmd + " > /tmp/rubberdux-agent.log 2>&1 &"@
    } else {
        "nohup bash -c "@ + quoted(
            text::join(exports(env_view(config.agent_env@)), " && "@) + " && "@ + cmd,
        ) + " > /tmp/rubberdux-agent.log 2>&1 &"@
    }
}

fn export_lines(env: &Vec<(String, String)>) -> (lines: Vec<String>)
    ensures
        text::views(lines@) == exports(env_view(env@)),
{
    let mut lines: Vec<String> = Vec::new();
    let mut i: usize = 0;
    while i < env.len()
        invariant
            i <= env.len(),
            lines@.len() == i,
            forall|k: int|
                0 <= k < i ==> #[trigger] text::views(lines@)[k] == exports(env_view(env@))[k],
        decreases env.len() - i,
    {
        let key = shell_quote(env[i].0.as_str());
        let value = shell_quote(env[i].1.as_str());
        let mut line: String = text::concat3("export ", key.as_str(), "=");
        line.append(value.as_str());
        let ghost before = text::views(lines@);
        lines.push(line);
        assert forall|k: int| 0 <= k < i + 1 implies #[trigger] text::views(lines@)[k] == exports(
            env_view(env@),
        )[k] by {
            if k < i {
                assert(text::views(lines@)[k] == before[k]);
            }
        }
        i = i + 1;
    }
    assert(text::views(lines@) =~= exports(env_view(env@)));
    lines
}

fn call_text(config: &HostConfig, task_id: Option<&str>) -> (r: String)
    ensures
        r@ == agent_call(*config, task_id),
{
    let binary = text_or(&config.agent_binary_path, "rubberduxd");
    let mut call: String = shell_quote(binary.as_str());
    call.append(" --agent --rpc-host ");
    call.append(config.host_ip.as_str());
    call.append(":");
    let port = text::decimal_string(config.rpc_port as u64);
    call.append(port.as_str());
    if let Some(t) = task_id {
        call.append(" --task-id ");
        let id = shell_quote(t);
        call.append(id.as_str());
    }
    call
}

fn setup_text(config: &HostConfig) -> (r: String)
    ensures
        r@ == agent_setup(*config),
{
    let mut setup: String = String::new();
    if let Some(path) = &config.agent_binary_path {
        let binary = shell_quote(path.as_str());
        let chmod = text::concat3("chmod +x ", binary.as_str(), " && xattr -d com.apple.quarantine ");
        setup = text::concat3(chmod.as_str(), binary.as_str(), " 2>/dev/null || true && ");
    }
    if config.agent_data_dir.is_some() {
        setup.append(SHARE_SETUP);
    }
    assert(setup@ =~= agent_setup(*config));
    setup
}

/// The command that starts an agent on a machine.
pub fn build_agent_command(config: &HostConfig, task_id: Option<&str>) -> (r: String)
    ensures
        r@ == agent_command(*config, task_id),
{
    let call = call_text(config, task_id);
    let setup = setup_text(config);
    let cmd = text::concat2(setup.as_str(), call.as_str());
    if config.agent_env.len() == 0 {
        text::concat3("nohup ", cmd.as_str(), " > /tmp/rubberdux-agent.log 2>&1 &")
    } else {
        let lines = export_lines(&config.agent_env);
        let head = text::joined(&lines, " && ");
        let script = text::concat3(head.as_str(), " && ", cmd.as_str());
        let quoted_script = shell_quote(script.as_str());
        text::concat3(
            "nohup bash -c ",
            quoted_script.as_str(),
            " > /tmp/rubberdux-agent.log 2>&1 &",
        )
    }
}

// ---------------------------------------------------------------------------
// Laws
// ---------------------------------------------------------------------------

/// The first place at or after `i` that holds `c`, or the end.
pub open spec fn next_char(s: Seq<char>, c: char, i: int) -> int
    decreases s.len() - i,
{
    if 0 <= i < s.len() && s[i] != c {
        next_char(s, c, i + 1)
    } else {
        i
    }
}

/// What a shell makes of a word of quoted pieces, from place `i` on: a piece in single quotes and
/// one in double quotes stand for what is between them. Nothing where a piece is not closed, or
/// where something stands outside of quotes.
pub open spec fn shell_word(s: Seq<char>, i: int) -> Option<Seq<char>>
    decreases s.len() - i,
    via shell_word_ends
{
    if i < 0 {
        None
    } else if i >= s.len() {
        Some(Seq::empty())
    } else if s[i] == '\'' || s[i] == '"' {
        let j = next_char(s, s[i], i + 1);
        if j >= s.len() {
            None
        } else {
            match shell_word(s, j + 1) {
                Some(rest) => Some(s.subrange(i + 1, j) + rest),
                None => None,
            }
        }
    } else {
        None
    }
}

#[via_fn]
proof fn shell_word_ends(s: Seq<char>, i: int) {
    if 0 <= i < s.len() {
        next_char_is_later(s, s[i], i + 1);
    }
}

proof fn next_char_is_later(s: Seq<char>, c: char, i: int)
    ensures
        next_char(s, c, i) >= i,
    decreases s.len() - i,
{
    if 0 <= i < s.len() && s[i] != c {
        next_char_is_later(s, c, i + 1);
    }
}

proof fn next_char_at(s: Seq<char>, c: char, i: int, j: int)
    requires
        0 <= i <= j < s.len(),
        s[j] == c,
        forall|k: int| i <= k < j ==> #[trigger] s[k] != c,
    ensures
        next_char(s, c, i) == j,
    decreases j - i,
{
    if i < j {
        next_char_at(s, c, i + 1, j);
    }
}

proof fn replaced_in_parts(a: Seq<char>, b: Seq<char>, c: char, with: Seq<char>)
    ensures
        text::replace_char(a + b, c, with) == text::replace_char(a, c, with) + text::replace_char(
            b,
            c,
            with,
        ),
    decreases b.len(),
{
    if b.len() == 0 {
        assert(a + b =~= a);
        assert(text::replace_char(a, c, with) + Seq::<char>::empty() =~= text::replace_char(
            a,
            c,
            with,
        ));
    } else {
        replaced_in_parts(a, b.drop_last(), c, with);
        assert((a + b).drop_last() =~= a + b.drop_last());
        assert(text::replace_char(a + b, c, with) =~= text::replace_char(a, c, with)
            + text::replace_char(b, c, with));
    }
}

proof fn nothing_replaced(a: Seq<char>, c: char, with: Seq<char>)
    requires
        forall|k: int| 0 <= k < a.len() ==> #[trigger] a[k] != c,
    ensures
        text::replace_char(a, c, with) == a,
    decreases a.len(),
{
    if a.len() > 0 {
        nothing_replaced(a.drop_last(), c, with);
        assert(a =~= a.drop_last().push(a.last()));
    }
}

/// What is replaced at the first `c`, and behind it.
proof fn replaced_at_first(s: Seq<char>, c: char, with: Seq<char>, k: int)
    requires
        0 <= k < s.len(),
        s[k] == c,
        forall|m: int| 0 <= m < k ==> #[trigger] s[m] != c,
    ensures
        text::replace_char(s, c, with) == s.take(k) + with + text::replace_char(
            s.skip(k + 1),
            c,
            with,
        ),
{
    let a = s.take(k);
    let b = s.skip(k + 1);
    assert(s =~= a.push(c) + b);
    replaced_in_parts(a.push(c), b, c, with);
    assert(a.push(c).drop_last() =~= a);
    assert(a.push(c).last() == c);
    nothing_replaced(a, c, with);
}

/// A piece in quotes, and what follows it.
proof fn piece_is_read(s: Seq<char>, i: int, j: int, piece: Seq<char>, rest: Seq<char>)
    requires
        0 <= i < j < s.len(),
        s[i] == '\'' || s[i] == '"',
        s[j] == s[i],
        forall|m: int| i < m < j ==> #[trigger] s[m] != s[i],
        s.subrange(i + 1, j) == piece,
        shell_word(s, j + 1) == Some(rest),
    ensures
        shell_word(s, i) == Some(piece + rest),
{
    next_char_at(s, s[i], i + 1, j);
}

/// What stands in quotes at the end of a text is read back, whatever stands before it.
proof fn quoted_end_is_read_back(before: Seq<char>, s: Seq<char>, with: Seq<char>)
    requires
        with =~= seq!['\'', '"', '\'', '"', '\''],
    ensures
        shell_word(
            before.push('\'') + text::replace_char(s, '\'', with).push('\''),
            before.len() as int,
        ) == Some(s),
    decreases s.len(),
{
    let inner = text::replace_char(s, '\'', with);
    let all = before.push('\'') + inner.push('\'');
    let n = before.len() as int;
    let k = next_char(s, '\'', 0);
    next_char_is_later(s, '\'', 0);
    next_char_before(s, '\'', 0);
    assert(all[n] == '\'');
    if k >= s.len() {
        nothing_replaced(s, '\'', with);
        let j = n + 1 + s.len();
        assert forall|m: int| n < m < j implies #[trigger] all[m] != '\'' by {
            assert(all[m] == s[m - n - 1]);
        }
        assert(all.subrange(n + 1, j) =~= s);
        piece_is_read(all, n, j, s, Seq::empty());
        assert(s + Seq::<char>::empty() =~= s);
    } else {
        replaced_at_first(s, '\'', with, k);
        let a = s.take(k);
        let b = s.skip(k + 1);
        let rest = text::replace_char(b, '\'', with);
        let j = n + 1 + k;
        let head = before.push('\'') + a + with.take(4);
        quoted_end_is_read_back(head, b, with);
        assert(head.push('\'') + rest.push('\'') =~= all);
        assert(all[j + 1] == with[1]);
        assert(all[j + 2] == with[2]);
        assert(all[j + 3] == with[3]);
        let one = seq!['\''];
        assert(all.subrange(j + 2, j + 3) =~= one);
        piece_is_read(all, j + 1, j + 3, one, b);
        assert(all[j] == with[0]);
        assert forall|m: int| n < m < j implies #[trigger] all[m] != '\'' by {
            assert(all[m] == s[m - n - 1]);
        }
        assert(all.subrange(n + 1, j) =~= a);
        piece_is_read(all, n, j, a, one + b);
        assert(a + (one + b) =~= s);
    }
}

proof fn next_char_before(s: Seq<char>, c: char, i: int)
    requires
        0 <= i,
    ensures
        forall|k: int| i <= k < next_char(s, c, i) && k < s.len() ==> #[trigger] s[k] != c,
        next_char(s, c, i) < s.len() ==> s[next_char(s, c, i)] == c,
    decreases s.len() - i,
{
    if i < s.len() && s[i] != c {
        next_char_before(s, c, i + 1);
    }
}

/// A shell reads a quoted text back as it was, whatever it holds.
pub proof fn shell_reads_quoted_text_back(s: Seq<char>)
    ensures
        shell_word(quoted(s), 0) == Some(s),
{
    reveal_strlit("'");
    reveal_strlit("'\"'\"'");
    let with = "'\"'\"'"@;
    assert(with =~= seq!['\'', '"', '\'', '"', '\'']);
    quoted_end_is_read_back(Seq::empty(), s, with);
    assert(quoted(s) =~= Seq::<char>::empty().push('\'') + text::replace_char(
        s,
        '\'',
        with,
    ).push('\''));
}

/// A variable that is set reaches the agent with its value, one that is not set does not, and they
/// come in their order.
pub proof fn variables_reach_the_agent(env: HostEnv)
    ensures
        agent_variables(env) == (match env.llm_base_url {
            Some(v) => seq![(KEY_LLM_BASE_URL@, v@)],
            None => Seq::empty(),
        }) + (match env.llm_api_key {
            Some(v) => seq![(KEY_LLM_API_KEY@, v@)],
            None => Seq::empty(),
        }) + (match env.llm_model {
            Some(v) => seq![(KEY_LLM_MODEL@, v@)],
            None => Seq::empty(),
        }) + (match env.llm_user_agent {
            Some(v) => seq![(KEY_LLM_USER_AGENT@, v@)],
            None => Seq::empty(),
        }),
{
    assert(agent_variables(env) =~= (match env.llm_base_url {
        Some(v) => seq![(KEY_LLM_BASE_URL@, v@)],
        None => Seq::empty(),
    }) + (match env.llm_api_key {
        Some(v) => seq![(KEY_LLM_API_KEY@, v@)],
        None => Seq::empty(),
    }) + (match env.llm_model {
        Some(v) => seq![(KEY_LLM_MODEL@, v@)],
        None => Seq::empty(),
    }) + (match env.llm_user_agent {
        Some(v) => seq![(KEY_LLM_USER_AGENT@, v@)],
        None => Seq::empty(),
    }));
}

/// The task is handed over behind everything else that the agent is called with, as one word of the
/// shell.
pub proof fn task_is_handed_over(config: HostConfig, task: &str)
    ensures
        agent_call(config, Some(task)) == agent_call(config, None) + " --task-id "@ + quoted(task@),
        shell_word(quoted(task@), 0) == Some(task@),
        (quoted(binary_of(config)) + " --agent --rpc-host "@ + config.host_ip@ + ":"@
            + text::decimal(config.rpc_port as nat)).is_prefix_of(agent_call(config, Some(task))),
{
    shell_reads_quoted_text_back(task@);
    let base = agent_call(config, None);
    let whole = agent_call(config, Some(task));
    assert(whole.take(base.len() as int) =~= base);
}

/// The agent is started in the background with its output kept. Without variables it is called as
/// it is; with some, a shell runs a script that sets them, in their order, before the same call.
pub proof fn variables_are_set_before_the_call(config: HostConfig, task_id: Option<&str>)
    ensures
        ({
            let call = agent_setup(config) + agent_call(config, task_id);
            let env = env_view(config.agent_env@);
            let script = text::join(
                Seq::new(
                    env.len(),
                    |i: int| "export "@ + quoted(env[i].0) + "="@ + quoted(env[i].1),
                ),
                " && "@,
            ) + " && "@ + call;
            &&& config.agent_env@.len() == 0 ==> agent_command(config, task_id) == "nohup "@ + call
                + " > /tmp/rubberdux-agent.log 2>&1 &"@
            &&& config.agent_env@.len() > 0 ==> agent_command(config, task_id)
                == "nohup bash -c "@ + quoted(script) + " > /tmp/rubberdux-agent.log 2>&1 &"@
            &&& shell_word(quoted(script), 0) == Some(script)
        }),
{
    let call = agent_setup(config) + agent_call(config, task_id);
    let env = env_view(config.agent_env@);
    let lines = Seq::new(
        env.len(),
        |i: int| "export "@ + quoted(env[i].0) + "="@ + quoted(env[i].1),
    );
    assert(exports(env) =~= lines);
    shell_reads_quoted_text_back(text::join(lines, " && "@) + " && "@ + call);
}

/// What is set is taken, and a port only where it is a port number; otherwise the default is.
pub proof fn settings_are_taken(value: String, default: Seq<char>, port: u16, other: int)
    ensures
        or_default(Some(value), default) == value@,
        or_default(None, default) == default,
        port_or(None, other) == other,
        value@ == text::decimal(port as nat) ==> port_or(Some(value), other) == port,
        text::integer_value(value@) is None ==> port_or(Some(value), other) == other,
{
    text::whole_number_is_read_back(port as int);
}

/// A shared directory is set up before the agent is called, exactly where there is one; an agent's
/// program of its own is made ready to run before that.
pub proof fn what_is_shared_is_set_up(config: HostConfig)
    ensures
        config.agent_data_dir is Some ==> SHARE_SETUP@.is_suffix_of(agent_setup(config)),
        config.agent_data_dir is None && config.agent_binary_path is None ==> agent_setup(config)
            == Seq::<char>::empty(),
        config.agent_data_dir is Some && config.agent_binary_path is None ==> agent_setup(config)
            == SHARE_SETUP@,
        config.agent_binary_path is Some ==> ("chmod +x "@ + quoted(
            binary_of(config),
        )).is_prefix_of(agent_setup(config)),
        config.agent_binary_path matches Some(p) ==> binary_of(config) == p@,
        config.agent_binary_path is None ==> binary_of(config) == "rubberduxd"@,
{
    let s = agent_setup(config);
    let n = SHARE_SETUP@.len();
    if config.agent_data_dir is Some {
        assert(s.subrange(s.len() - n, s.len() as int) =~= SHARE_SETUP@);
        if config.agent_binary_path is None {
            assert(s =~= SHARE_SETUP@);
        }
    }
    if config.agent_binary_path is Some {
        let head = "chmod +x "@ + quoted(binary_of(config));
        assert(s.take(head.len() as int) =~= head);
    }
}

} // verus!
