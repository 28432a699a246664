//! What the daemon decides from the terminal multiplexer's answers.
//!
//! The multiplexer is reached over a socket by the caller; its replies come
//! here as plain values: agent lists, process lists, readiness.

use vstd::prelude::*;

use crate::text::{concat, str_eq};

verus! {

/// The server's identity.
pub struct Pong {
    pub version: String,
    pub protocol: u32,
}

/// One agent as the server lists it.
pub struct AgentInfo {
    pub name: Option<String>,
    pub interactive_ready: Option<bool>,
    pub agent: Option<String>,
    pub agent_status: Option<String>,
    pub pane_id: String,
    pub workspace_id: String,
    pub cwd: Option<String>,
}

/// An agent's status, `unknown` when the server gave none.
pub open spec fn status_of(a: AgentInfo) -> Seq<char> {
    match a.agent_status {
        Some(s) => s@,
        None => "unknown"@,
    }
}

impl AgentInfo {
    /// The agent's status, `unknown` when the server gave none.
    pub fn status(&self) -> (r: &str)
        ensures
            r@ == status_of(*self),
    {
        match &self.agent_status {
            Some(s) => s.as_str(),
            None => "unknown",
        }
    }
}

/// Whether the agent is the one called `name`.
pub open spec fn named(a: AgentInfo, name: Seq<char>) -> bool {
    a.name matches Some(n) && n@ == name
}

/// Where the first agent called `name` is in the list, or `-1`.
pub open spec fn agent_index(agents: Seq<AgentInfo>, name: Seq<char>) -> int
    decreases agents.len(),
{
    if agents.len() == 0 {
        -1
    } else if named(agents[0], name) {
        0
    } else {
        let r = agent_index(agents.drop_first(), name);
        if r < 0 {
            -1
        } else {
            r + 1
        }
    }
}

proof fn lemma_agent_index(agents: Seq<AgentInfo>, name: Seq<char>)
    ensures
        -1 <= agent_index(agents, name) < agents.len(),
        agent_index(agents, name) >= 0 ==> named(agents[agent_index(agents, name)], name),
        forall|i: int|
            0 <= i < agents.len() && (agent_index(agents, name) < 0 || i < agent_index(agents, name))
                ==> !named(#[trigger] agents[i], name),
    decreases agents.len(),
{
    if agents.len() > 0 && !named(agents[0], name) {
        lemma_agent_index(agents.drop_first(), name);
        assert forall|i: int|
            0 <= i < agents.len() && (agent_index(agents, name) < 0 || i < agent_index(agents, name))
                implies !named(#[trigger] agents[i], name) by {
            if i > 0 {
                assert(agents[i] == agents.drop_first()[i - 1]);
            }
        }
    }
}

fn find_agent(agents: &Vec<AgentInfo>, name: &str) -> (r: Option<usize>)
    ensures
        match r {
            Some(i) => i as int == agent_index(agents@, name@) && i < agents@.len(),
            None => agent_index(agents@, name@) < 0,
        },
{
    proof {
        lemma_agent_index(agents@, name@);
    }
    let mut i: usize = 0;
    while i < agents.len()
        invariant
            i <= agents@.len(),
            forall|j: int| 0 <= j < i ==> !named(#[trigger] agents@[j], name@),
            -1 <= agent_index(agents@, name@) < agents@.len(),
            agent_index(agents@, name@) >= 0 ==> named(agents@[agent_index(agents@, name@)], name@),
            forall|j: int|
                0 <= j < agents@.len() && (agent_index(agents@, name@) < 0 || j < agent_index(
                    agents@,
                    name@,
                )) ==> !named(#[trigger] agents@[j], name@),
        decreases agents.len() - i,
    {
        let hit = match &agents[i].name {
            Some(n) => str_eq(n.as_str(), name),
            None => false,
        };
        if hit {
            proof {
                let k = agent_index(agents@, name@);
                if k < 0 || i < k {
                    assert(!named(agents@[i as int], name@));
                }
                if k >= 0 && k < i {
                    assert(!named(agents@[k], name@));
                }
            }
            return Some(i);
        }
        i += 1;
    }
    proof {
        let k = agent_index(agents@, name@);
        if k >= 0 {
            assert(!named(agents@[k], name@));
        }
    }
    None
}

/// The status of the agent called `name` in a fleet listing; nothing when no
/// agent has that name.
pub fn agent_status(agents: &Vec<AgentInfo>, name: &str) -> (r: Option<String>)
    ensures
        match r {
            Some(s) => agent_index(agents@, name@) >= 0 && s@ == status_of(
                agents@[agent_index(agents@, name@)],
            ),
            None => agent_index(agents@, name@) < 0,
        },
{
    match find_agent(agents, name) {
        Some(i) => Some(agents[i].status().to_owned()),
        None => None,
    }
}

/// The status of the agent called `name` and whether it is ready for input
/// (not ready when the server did not say).
pub fn agent_state(agents: &Vec<AgentInfo>, name: &str) -> (r: Option<(String, bool)>)
    ensures
        match r {
            Some((s, ready)) => agent_index(agents@, name@) >= 0 && s@ == status_of(
                agents@[agent_index(agents@, name@)],
            ) && ready == (agents@[agent_index(agents@, name@)].interactive_ready == Some(true)),
            None => agent_index(agents@, name@) < 0,
        },
{
    match find_agent(agents, name) {
        Some(i) => {
            let ready = match agents[i].interactive_ready {
                Some(b) => b,
                None => false,
            };
            Some((agents[i].status().to_owned(), ready))
        },
        None => None,
    }
}

/// Whether a pane's shell is at its prompt: the shell owns the foreground
/// process group, or there is a shell and no foreground group at all.
pub fn pane_ready(shell_pid: Option<u32>, foreground_group: Option<u32>) -> (r: bool)
    ensures
        r == match (shell_pid, foreground_group) {
            (Some(s), Some(f)) => s == f,
            (Some(_), None) => true,
            _ => false,
        },
{
    match (shell_pid, foreground_group) {
        (Some(s), Some(f)) => s == f,
        (Some(_), None) => true,
        _ => false,
    }
}

/// A pane's processes: the foreground ones, then the shell if it is not
/// already among them.
pub open spec fn procs_of(fg: Seq<(u32, Seq<char>)>, shell: Option<u32>) -> Seq<(u32, Seq<char>)> {
    match shell {
        Some(s) => if exists|i: int| 0 <= i < fg.len() && #[trigger] fg[i].0 == s {
            fg
        } else {
            fg.push((s, "shell"@))
        },
        None => fg,
    }
}

pub open spec fn procs_view(p: Seq<(u32, String)>) -> Seq<(u32, Seq<char>)> {
    Seq::new(p.len(), |i: int| (p[i].0, p[i].1@))
}

/// A pane's processes, from the foreground list and the shell's pid.
pub fn pane_procs(foreground: Vec<(u32, String)>, shell_pid: Option<u32>) -> (r: Vec<(u32, String)>)
    ensures
        procs_view(r@) == procs_of(procs_view(foreground@), shell_pid),
{
    let mut out = foreground;
    let ghost fg = procs_view(out@);
    if let Some(s) = shell_pid {
        let mut i: usize = 0;
        while i < out.len()
            invariant
                i <= out@.len(),
                fg == procs_view(out@),
                fg == procs_view(foreground@),
                shell_pid == Some(s),
                forall|j: int| 0 <= j < i ==> #[trigger] out@[j].0 != s,
            decreases out.len() - i,
        {
            if out[i].0 == s {
                assert(fg[i as int].0 == s);
                return out;
            }
            i += 1;
        }
        assert(!(exists|j: int| 0 <= j < fg.len() && #[trigger] fg[j].0 == s));
        out.push((s, "shell".to_owned()));
        assert(procs_view(out@) =~= fg.push((s, "shell"@)));
    }
    out
}

/// The pids of a pane's processes, in order.
pub fn pane_pids(procs: &Vec<(u32, String)>) -> (r: Vec<u32>)
    ensures
        r@ == Seq::new(procs@.len(), |i: int| procs@[i].0),
{
    let mut out: Vec<u32> = Vec::new();
    let mut i: usize = 0;
    while i < procs.len()
        invariant
            i <= procs@.len(),
            out@ == Seq::new(i as nat, |j: int| procs@[j].0),
        decreases procs.len() - i,
    {
        out.push(procs[i].0);
        assert(out@ =~= Seq::new((i + 1) as nat, |j: int| procs@[j].0));
        i += 1;
    }
    out
}

/// The workspace a pane belongs to: its id up to the first `:`.
pub open spec fn workspace_of(pane: Seq<char>) -> Seq<char> {
    match crate::cron::split_once(pane, ':') {
        Some((w, _)) => w,
        None => pane,
    }
}

/// The workspace a pane belongs to: its id up to the first `:`.
pub fn workspace_id_of(pane_id: &str) -> (r: String)
    ensures
        r@ == workspace_of(pane_id@),
{
    let cs = crate::text::chars_of(pane_id);
    match crate::cron::split_at_first(&cs, ':') {
        Some((w, _)) => crate::text::string_of(w.as_slice()),
        None => pane_id.to_owned(),
    }
}

/// Where the socket is when the environment does not say.
pub fn default_socket(home: &str) -> (r: String)
    ensures
        r@ == home@ + "/.config/herdr/herdr.sock"@,
{
    concat(home, "/.config/herdr/herdr.sock")
}

/// Whether to try starting an agent again: only while the pane's shell is
/// not yet up, and only until the deadline.
pub fn retry_start(error: &str, past_deadline: bool) -> (r: bool)
    ensures
        r == (crate::text::occurs(error@, "not an available shell"@) && !past_deadline),
{
    !past_deadline && crate::text::contains(error, "not an available shell")
}

/// Where an agent stands while waiting for it to take input.
pub enum Readiness {
    Ready,
    /// It asked a question a person must answer.
    Blocked,
    Waiting,
}

/// Where an agent stands while the caller waits for it to take input.
pub fn readiness(agent: Option<&AgentInfo>) -> (r: Readiness)
    ensures
        match agent {
            Some(a) => if a.interactive_ready == Some(true) {
                r is Ready
            } else if status_of(*a) == "blocked"@ {
                r is Blocked
            } else {
                r is Waiting
            },
            None => r is Waiting,
        },
{
    match agent {
        Some(a) => if a.interactive_ready == Some(true) {
            Readiness::Ready
        } else if str_eq(a.status(), "blocked") {
            Readiness::Blocked
        } else {
            Readiness::Waiting
        },
        None => Readiness::Waiting,
    }
}

} // verus!
