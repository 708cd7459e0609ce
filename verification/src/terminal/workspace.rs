//! Activating workspaces and opening agents in them.

use crate::terminal::panel;
use crate::terminal::panel::{Agent, MissingSecretsPrompt, TerminalPanel};
use crate::terminal::session;
use crate::terminal::session::{
    AgentStatus, SetupStep, StepStatus, TabKind, TerminalTab, WorkspaceSession,
};
use crate::text;
use crate::theme::Color;
use vstd::prelude::*;

verus! {

broadcast use vstd::std_specs::hash::group_hash_axioms;

/// A workspace as it is kept.
#[derive(Debug)]
pub struct Workspace {
    pub id: i64,
    pub name: String,
    pub mount_path: Option<String>,
    pub sandbox_checkpoint_name: Option<String>,
    pub initial_prompt: Option<String>,
}

/// A tab that was put aside.
#[derive(Debug)]
pub struct SavedTab {
    pub id: i64,
    pub label: String,
    pub agent_id: Option<i64>,
    pub checkpoint_name: Option<String>,
}

/// An agent to be opened in a new tab.
#[derive(Debug)]
pub struct OpenAgent {
    pub agent_id: i64,
    pub agent_name: String,
    pub agent_command: String,
    pub agent_color: Option<Color>,
    pub icon_path: Option<String>,
    pub checkpoint_from: Option<String>,
    pub initial_prompt: Option<String>,
}

/// An agent to be started in its tab.
#[derive(Debug)]
pub struct BootRequest {
    pub ws_id: i64,
    pub tab_id: u64,
    pub agent_id: i64,
    pub agent_command: String,
    pub checkpoint_from: Option<String>,
}

/// What opening an agent came to.
#[derive(Debug)]
pub enum OpenOutcome {
    NoWorkspace,
    MissingSecrets { tab_id: u64 },
    Boot { request: BootRequest },
}

/// What activating a workspace came to.
#[derive(Debug)]
pub enum Activation {
    /// It had a session: this terminal gets the focus.
    Focus { terminal: Option<u64> },
    /// It has a new session with the tabs that were put aside.
    Restored,
    /// It has a new session, and this agent is to be opened in it.
    Launch { agent: OpenAgent },
}

/// The labels and statuses of steps.
pub open spec fn step_views(steps: Seq<SetupStep>) -> Seq<(Seq<char>, StepStatus)> {
    steps.map_values(|s: SetupStep| (s.label@, s.status))
}

/// The steps of an agent's preparation: installing it needs a sandbox first and is saved after.
pub open spec fn setup_plan(needs_install: bool, labels: Seq<Seq<char>>) -> Seq<
    (Seq<char>, StepStatus),
> {
    if needs_install {
        seq![("Preparing sandbox"@, StepStatus::Active)] + labels.map_values(
            |label: Seq<char>| (label, StepStatus::Pending),
        ) + seq![
            ("Saving for next time"@, StepStatus::Pending),
            ("Starting workspace"@, StepStatus::Pending),
        ]
    } else {
        seq![("Starting workspace"@, StepStatus::Active)]
    }
}

/// Whether an agent has to be installed: it has steps for that, was not installed before, and is
/// not started from a saved state.
pub open spec fn install_needed(
    from_checkpoint: bool,
    step_count: nat,
    installed: bool,
) -> bool {
    !from_checkpoint && step_count > 0 && !installed
}

/// The steps of an agent's preparation.
pub fn setup_steps(needs_install: bool, labels: &Vec<String>) -> (steps: Vec<SetupStep>)
    ensures
        step_views(steps@) == setup_plan(needs_install, text::views(labels@)),
{
    let ghost all = text::views(labels@);
    let mut steps: Vec<SetupStep> = Vec::new();
    if !needs_install {
        steps.push(SetupStep::active("Starting workspace"));
        assert(step_views(steps@) =~= setup_plan(needs_install, all));
        return steps;
    }
    steps.push(SetupStep::active("Preparing sandbox"));
    let ghost first = seq![("Preparing sandbox"@, StepStatus::Active)];
    let ghost pending = all.map_values(|label: Seq<char>| (label, StepStatus::Pending));
    let mut i: usize = 0;
    assert(step_views(steps@) =~= first + pending.take(0));
    while i < labels.len()
        invariant
            i <= labels@.len(),
            all == text::views(labels@),
            pending == all.map_values(|label: Seq<char>| (label, StepStatus::Pending)),
            step_views(steps@) == first + pending.take(i as int),
        decreases labels@.len() - i,
    {
        let ghost done = step_views(steps@);
        let step = SetupStep::new(labels[i].as_str());
        proof {
            assert(pending[i as int] == (labels@[i as int]@, StepStatus::Pending));
            assert(first + pending.take(i + 1) =~= (first + pending.take(i as int)).push(
                (step.label@, step.status),
            ));
        }
        steps.push(step);
        assert(step_views(steps@) =~= done.push((step.label@, step.status)));
        i += 1;
    }
    assert(pending.take(i as int) =~= pending);
    steps.push(SetupStep::new("Saving for next time"));
    steps.push(SetupStep::new("Starting workspace"));
    assert(step_views(steps@) =~= setup_plan(needs_install, all));
    steps
}

/// How many tabs are of agents of a name.
pub open spec fn same_name_count(tabs: Seq<TerminalTab>, name: Seq<char>) -> nat
    decreases tabs.len(),
{
    if tabs.len() == 0 {
        0
    } else {
        let before = same_name_count(tabs.drop_last(), name);
        match tabs.last().kind {
            TabKind::Agent { agent_name, .. } if agent_name@ == name => before + 1,
            _ => before,
        }
    }
}

/// A prompt cut down to a label: its first 27 bytes and dots where it has more than 30.
pub open spec fn short_prompt(prompt: Seq<char>) -> Seq<char> {
    if text::byte_len(prompt) > 30 {
        prompt.take(text::chars_before(prompt, 27)) + "..."@
    } else {
        prompt
    }
}

/// A prompt that is cut down is not cut inside a character.
pub open spec fn prompt_cuts_clean(prompt: Option<String>) -> bool {
    prompt matches Some(p) ==> text::byte_len(p@) > 30 ==> text::is_boundary(p@, 27)
}

/// The label of a new agent tab: its prompt, else its name with a number where it is not the
/// first of that name.
pub open spec fn tab_label(
    prompt: Option<Seq<char>>,
    name: Seq<char>,
    tabs: Seq<TerminalTab>,
) -> Seq<char> {
    match prompt {
        Some(p) => short_prompt(p),
        None => {
            let n = same_name_count(tabs, name);
            if n > 0 {
                name + " ("@ + text::decimal(n + 1) + ")"@
            } else {
                name
            }
        },
    }
}

/// The view of an optional text.
pub open spec fn opt(s: Option<String>) -> Option<Seq<char>> {
    match s {
        Some(t) => Some(t@),
        None => None,
    }
}

fn count_same_name(tabs: &Vec<TerminalTab>, name: &str) -> (n: usize)
    ensures
        n == same_name_count(tabs@, name@),
        n <= tabs@.len(),
{
    let mut n: usize = 0;
    let mut i: usize = 0;
    while i < tabs.len()
        invariant
            n <= i <= tabs@.len(),
            n == same_name_count(tabs@.take(i as int), name@),
        decreases tabs@.len() - i,
    {
        assert(tabs@.take(i + 1).drop_last() =~= tabs@.take(i as int));
        if let TabKind::Agent { agent_name, .. } = &tabs[i].kind {
            if text::same_text(agent_name.as_str(), name) {
                n += 1;
            }
        }
        i += 1;
    }
    assert(tabs@.take(i as int) =~= tabs@);
    n
}

/// The label of a new agent tab.
pub fn display_label(prompt: &Option<String>, name: &str, tabs: &Vec<TerminalTab>) -> (s: String)
    requires
        prompt_cuts_clean(*prompt),
        tabs@.len() < usize::MAX,
    ensures
        s@ == tab_label(opt(*prompt), name@, tabs@),
{
    match prompt {
        Some(p) => if text::byte_length(p.as_str()) > 30 {
            let (head, _) = text::split_text(p.as_str(), 27);
            let mut s = head.to_owned();
            s.append("...");
            s
        } else {
            p.clone()
        },
        None => {
            let n: usize = count_same_name(tabs, name);
            if n > 0 {
                let mut s = name.to_owned();
                s.append(" (");
                text::push_decimal(&mut s, n as u64 + 1);
                s.append(")");
                s
            } else {
                name.to_owned()
            }
        },
    }
}

/// What the tab says that secrets are missing for.
pub open spec fn missing_text(missing: Seq<Seq<char>>) -> Seq<char> {
    "Missing: "@ + text::joined(missing, ", "@)
}

/// A tab as it is when an agent is opened in it.
pub open spec fn is_opened_tab(
    tab: TerminalTab,
    tab_id: u64,
    label: Seq<char>,
    request: OpenAgent,
) -> bool {
    &&& tab.tab_id == tab_id
    &&& tab.label@ == label
    &&& tab.terminal is None
    &&& tab.agent_color == request.agent_color
    &&& tab.icon_path == request.icon_path
    &&& tab.kind == (TabKind::Agent {
        agent_id: request.agent_id,
        agent_name: request.agent_name,
        sandbox: None,
        auth_gateway: false,
    })
    &&& tab.agent_status is Unknown
    &&& !tab.event_service
    &&& !tab.checkpointing
    &&& tab.checkpoint_name is None
    &&& tab.tab_db_id is None
}

/// A tab as it comes back when it was put aside.
pub open spec fn is_restored_tab(
    tab: TerminalTab,
    tab_id: u64,
    saved: SavedTab,
    agents: Seq<Agent>,
) -> bool {
    let agent = match saved.agent_id {
        Some(id) => panel::agent_of(agents, id),
        None => None,
    };
    &&& tab.tab_id == tab_id
    &&& tab.label@ == saved.label@
    &&& tab.terminal is None
    &&& tab.setup_steps is None
    &&& tab.setup_error is None
    &&& tab.agent_color == (match agent {
        Some(a) => panel::agent_color(a),
        None => None,
    })
    &&& opt(tab.icon_path) == (match agent {
        Some(a) => opt(a.icon),
        None => None,
    })
    &&& tab.kind matches TabKind::Agent { agent_id, agent_name, sandbox, auth_gateway } && {
        &&& agent_id == (match saved.agent_id {
            Some(id) => id,
            None => 0,
        })
        &&& agent_name@ == (match agent {
            Some(a) => a.display_name@,
            None => seq![],
        })
        &&& sandbox is None
        &&& !auth_gateway
    }
    &&& tab.agent_status is Unknown
    &&& !tab.event_service
    &&& !tab.checkpointing
    &&& opt(tab.checkpoint_name) == opt(saved.checkpoint_name)
    &&& tab.tab_db_id == Some(saved.id)
}

/// The request that opens an agent.
pub open spec fn opens_agent(
    request: OpenAgent,
    agent: Agent,
    checkpoint: Option<Seq<char>>,
    prompt: Option<Seq<char>>,
) -> bool {
    &&& request.agent_id == agent.id
    &&& request.agent_name@ == agent.display_name@
    &&& request.agent_command@ == agent.command@
    &&& request.agent_color == panel::agent_color(agent)
    &&& opt(request.icon_path) == opt(agent.icon)
    &&& opt(request.checkpoint_from) == checkpoint
    &&& opt(request.initial_prompt) == prompt
}

/// The request that opens an agent.
pub fn open_request(
    agent: &Agent,
    checkpoint_from: &Option<String>,
    initial_prompt: &Option<String>,
) -> (r: OpenAgent)
    requires
        agent.color matches Some(s) ==> crate::theme::pairs_are_whole(s@),
    ensures
        opens_agent(r, *agent, opt(*checkpoint_from), opt(*initial_prompt)),
{
    OpenAgent {
        agent_id: agent.id,
        agent_name: agent.display_name.clone(),
        agent_command: agent.command.clone(),
        agent_color: panel::color_of(agent),
        icon_path: text::copy_optional(&agent.icon),
        checkpoint_from: text::copy_optional(checkpoint_from),
        initial_prompt: text::copy_optional(initial_prompt),
    }
}

/// The agent that is launched in a new workspace: the default one, else the first.
pub open spec fn launched_agent(agents: Seq<Agent>, default_id: Option<i64>) -> Option<Agent> {
    let wanted = match default_id {
        Some(id) => panel::agent_of(agents, id),
        None => None,
    };
    match wanted {
        Some(agent) => Some(agent),
        None => if agents.len() > 0 {
            Some(agents[0])
        } else {
            None
        },
    }
}

impl TerminalPanel {
    /// Lets the session of a workspace go. Tells whether the review panel is to turn off, which
    /// it is where that workspace was the active one.
    pub fn remove_session(&mut self, workspace_id: i64) -> (deactivate: bool)
        ensures
            deactivate == (old(self).active_workspace_id == Some(workspace_id)),
            final(self).sessions@ == old(self).sessions@.remove(workspace_id),
            *final(self) == (TerminalPanel {
                sessions: final(self).sessions,
                active_workspace_id: if deactivate {
                    None
                } else {
                    old(self).active_workspace_id
                },
                ..*old(self)
            }),
    {
        self.sessions.remove(&workspace_id);
        assert(self.sessions@ =~= old(self).sessions@.remove(workspace_id));
        let active = match self.active_workspace_id {
            Some(id) => id == workspace_id,
            None => false,
        };
        if active {
            self.active_workspace_id = None;
        }
        active
    }

    fn default_agent(&self, default_id: Option<i64>) -> (r: Option<&Agent>)
        ensures
            match r {
                Some(agent) => launched_agent(self.agents@, default_id) == Some(*agent)
                    && self.agents@.contains(*agent),
                None => launched_agent(self.agents@, default_id) is None,
            },
    {
        if let Some(id) = default_id {
            if let Some(agent) = self.find_agent(id) {
                return Some(agent);
            }
        }
        if self.agents.len() > 0 {
            assert(self.agents@.contains(self.agents@[0]));
            Some(&self.agents[0])
        } else {
            None
        }
    }

    fn restore_tabs(&mut self, saved: &Vec<SavedTab>) -> (tabs: Vec<TerminalTab>)
        requires
            panel::colors_readable(old(self).agents@),
            old(self).next_tab_id + saved@.len() <= u64::MAX,
        ensures
            *final(self) == (TerminalPanel {
                next_tab_id: (old(self).next_tab_id + saved@.len()) as u64,
                ..*old(self)
            }),
            tabs@.len() == saved@.len(),
            forall|i: int|
                0 <= i < tabs@.len() ==> is_restored_tab(
                    #[trigger] tabs@[i],
                    (old(self).next_tab_id + i) as u64,
                    saved@[i],
                    old(self).agents@,
                ),
    {
        let mut tabs: Vec<TerminalTab> = Vec::new();
        let mut i: usize = 0;
        while i < saved.len()
            invariant
                i <= saved@.len(),
                panel::colors_readable(old(self).agents@),
                old(self).next_tab_id + saved@.len() <= u64::MAX,
                *self == (TerminalPanel {
                    next_tab_id: (old(self).next_tab_id + i) as u64,
                    ..*old(self)
                }),
                tabs@.len() == i,
                forall|j: int|
                    0 <= j < i ==> is_restored_tab(
                        #[trigger] tabs@[j],
                        (old(self).next_tab_id + j) as u64,
                        saved@[j],
                        old(self).agents@,
                    ),
            decreases saved@.len() - i,
        {
            let s = &saved[i];
            let tab_id: u64 = self.next_tab_id;
            let mut agent_color: Option<Color> = None;
            let mut icon_path: Option<String> = None;
            let mut agent_name = String::new();
            assert(agent_name@ =~= seq![]);
            if let Some(id) = s.agent_id {
                if let Some(agent) = self.find_agent(id) {
                    agent_color = panel::color_of(agent);
                    icon_path = text::copy_optional(&agent.icon);
                    agent_name = agent.display_name.clone();
                }
            }
            let tab = TerminalTab {
                tab_id,
                label: s.label.clone(),
                terminal: None,
                setup_steps: None,
                setup_error: None,
                agent_color,
                icon_path,
                kind: TabKind::Agent {
                    agent_id: match s.agent_id {
                        Some(id) => id,
                        None => 0,
                    },
                    agent_name,
                    sandbox: None,
                    auth_gateway: false,
                },
                agent_status: AgentStatus::Unknown,
                event_service: false,
                checkpointing: false,
                checkpoint_name: text::copy_optional(&s.checkpoint_name),
                tab_db_id: Some(s.id),
            };
            assert(is_restored_tab(tab, tab_id, *s, old(self).agents@));
            tabs.push(tab);
            self.next_tab_id = tab_id + 1;
            i += 1;
        }
        tabs
    }

    /// Makes a workspace the active one. Without a session it gets one with its saved tabs; where
    /// it has none of those and agents are launched by themselves, an agent is to be opened.
    pub fn activate_workspace(
        &mut self,
        workspace: &Workspace,
        saved: &Vec<SavedTab>,
        default_agent_id: Option<i64>,
        auto_launch: bool,
    ) -> (r: Activation)
        requires
            old(self).wf(),
            panel::colors_readable(old(self).agents@),
            old(self).next_tab_id + saved@.len() <= u64::MAX,
        ensures
            final(self).wf(),
            final(self).active_workspace_id == Some(workspace.id),
            final(self).missing_secrets_prompt == (if old(self).active_workspace_id == Some(
                workspace.id,
            ) {
                old(self).missing_secrets_prompt
            } else {
                None
            }),
            old(self).sessions@.contains_key(workspace.id) ==> {
                let s = old(self).sessions@[workspace.id];
                &&& *final(self) == (TerminalPanel {
                    active_workspace_id: Some(workspace.id),
                    missing_secrets_prompt: final(self).missing_secrets_prompt,
                    ..*old(self)
                })
                &&& r == (Activation::Focus {
                    terminal: if s.active_tab < s.tabs@.len() {
                        s.tabs@[s.active_tab as int].terminal
                    } else {
                        None
                    },
                })
            },
            !old(self).sessions@.contains_key(workspace.id) ==> {
                let s = final(self).sessions@[workspace.id];
                &&& final(self).sessions@ == old(self).sessions@.insert(workspace.id, s)
                &&& *final(self) == (TerminalPanel {
                    active_workspace_id: Some(workspace.id),
                    missing_secrets_prompt: final(self).missing_secrets_prompt,
                    sessions: final(self).sessions,
                    next_tab_id: (old(self).next_tab_id + saved@.len()) as u64,
                    ..*old(self)
                })
                &&& s.workspace_id == workspace.id
                &&& s.workspace_name@ == workspace.name@
                &&& opt(s.mount_path) == opt(workspace.mount_path)
                &&& s.active_tab == 0
                &&& s.tabs@.len() == saved@.len()
                &&& forall|i: int|
                    0 <= i < s.tabs@.len() ==> is_restored_tab(
                        #[trigger] s.tabs@[i],
                        (old(self).next_tab_id + i) as u64,
                        saved@[i],
                        old(self).agents@,
                    )
                &&& match r {
                    Activation::Focus { .. } => false,
                    Activation::Launch { agent } => saved@.len() == 0 && auto_launch && (
                    launched_agent(old(self).agents@, default_agent_id) matches Some(a)
                        && opens_agent(
                        agent,
                        a,
                        opt(workspace.sandbox_checkpoint_name),
                        opt(workspace.initial_prompt),
                    )),
                    Activation::Restored => saved@.len() > 0 || !auto_launch || launched_agent(
                        old(self).agents@,
                        default_agent_id,
                    ) is None,
                }
            },
    {
        let already = match self.active_workspace_id {
            Some(id) => id == workspace.id,
            None => false,
        };
        if !already {
            self.missing_secrets_prompt = None;
        }
        if let Some(s) = self.sessions.get(&workspace.id) {
            let terminal = match s.active_tab_ref() {
                Some(tab) => tab.terminal,
                None => None,
            };
            self.active_workspace_id = Some(workspace.id);
            return Activation::Focus { terminal };
        }
        let tabs = self.restore_tabs(saved);
        let mut session = WorkspaceSession::new(
            workspace.id,
            workspace.name.clone(),
            text::copy_optional(&workspace.mount_path),
        );
        session.tabs = tabs;
        self.sessions.insert(workspace.id, session);
        self.active_workspace_id = Some(workspace.id);
        if saved.len() == 0 && auto_launch {
            if let Some(agent) = self.default_agent(default_agent_id) {
                return Activation::Launch {
                    agent: open_request(
                        agent,
                        &workspace.sandbox_checkpoint_name,
                        &workspace.initial_prompt,
                    ),
                };
            }
        }
        Activation::Restored
    }

    /// Opens an agent in a new tab of the active workspace. The tab shows at once; the agent is to
    /// be started in it unless secrets are missing. `labels` are the agent's install steps,
    /// `installed` tells whether it was installed before, `missing` which of its secrets are not
    /// there.
    pub fn open_agent_tab(
        &mut self,
        request: OpenAgent,
        labels: &Vec<String>,
        installed: bool,
        missing: Vec<String>,
    ) -> (r: OpenOutcome)
        requires
            old(self).wf(),
            old(self).next_tab_id < u64::MAX,
            old(self).active_session() matches Some(s) ==> s.tabs@.len() < usize::MAX,
            prompt_cuts_clean(request.initial_prompt),
        ensures
            final(self).wf(),
            match old(self).active_workspace_id {
                None => r is NoWorkspace && *final(self) == *old(self),
                Some(ws_id) => {
                    let tab_id = old(self).next_tab_id;
                    let asks = !old(self).skip_secret_check && missing@.len() > 0;
                    let before = if old(self).sessions@.contains_key(ws_id) {
                        old(self).sessions@[ws_id].tabs@
                    } else {
                        seq![]
                    };
                    &&& final(self).next_tab_id == tab_id + 1
                    &&& !final(self).skip_secret_check
                    &&& final(self).sessions@.dom() == old(self).sessions@.dom()
                    &&& forall|id: i64|
                        #![trigger final(self).sessions@[id]]
                        id != ws_id && old(self).sessions@.contains_key(id) ==> final(
                            self).sessions@[id] == old(self).sessions@[id]
                    &&& old(self).sessions@.contains_key(ws_id) ==> {
                        let s = final(self).sessions@[ws_id];
                        &&& s.same_workspace(old(self).sessions@[ws_id])
                        &&& s.active_tab == before.len()
                        &&& s.tabs@.len() == before.len() + 1
                        &&& s.tabs@.take(before.len() as int) == before
                        &&& is_opened_tab(
                            s.tabs@.last(),
                            tab_id,
                            tab_label(opt(request.initial_prompt), request.agent_name@, before),
                            request,
                        )
                        &&& if asks {
                            s.tabs@.last().setup_steps is None && opt(s.tabs@.last().setup_error)
                                == Some(missing_text(text::views(missing@)))
                        } else {
                            s.tabs@.last().setup_error is None && (s.tabs@.last().steps() matches Some(steps) && step_views(steps)
                                == setup_plan(
                                install_needed(
                                    request.checkpoint_from is Some,
                                    labels@.len(),
                                    installed,
                                ),
                                text::views(labels@),
                            ))
                        }
                    }
                    &&& *final(self) == (TerminalPanel {
                        next_tab_id: final(self).next_tab_id,
                        skip_secret_check: false,
                        sessions: final(self).sessions,
                        missing_secrets_prompt: final(self).missing_secrets_prompt,
                        ..*old(self)
                    })
                    &&& if asks {
                        &&& r == (OpenOutcome::MissingSecrets { tab_id })
                        &&& final(self).missing_secrets_prompt == Some(
                            MissingSecretsPrompt {
                                ws_id,
                                tab_id,
                                agent_id: request.agent_id,
                                agent_name: request.agent_name,
                                agent_command: request.agent_command,
                                checkpoint_from: request.checkpoint_from,
                                missing,
                            },
                        )
                    } else {
                        &&& r == (OpenOutcome::Boot {
                            request: BootRequest {
                                ws_id,
                                tab_id,
                                agent_id: request.agent_id,
                                agent_command: request.agent_command,
                                checkpoint_from: request.checkpoint_from,
                            },
                        })
                        &&& final(self).missing_secrets_prompt == old(self).missing_secrets_prompt
                    }
                },
            },
    {
        let ws_id: i64 = match self.active_workspace_id {
            Some(id) => id,
            None => return OpenOutcome::NoWorkspace,
        };
        let tab_id: u64 = self.next_tab_id;
        self.next_tab_id = tab_id + 1;
        let needs_install = request.checkpoint_from.is_none() && labels.len() > 0 && !installed;
        let asks = !self.skip_secret_check && missing.len() > 0;
        self.skip_secret_check = false;
        if let Some(mut s) = self.sessions.remove(&ws_id) {
            let ghost before = s.tabs@;
            let label = display_label(&request.initial_prompt, request.agent_name.as_str(), &s.tabs);
            let tab = TerminalTab {
                tab_id,
                label,
                terminal: None,
                setup_steps: Some(setup_steps(needs_install, labels)),
                setup_error: None,
                agent_color: request.agent_color,
                icon_path: text::copy_optional(&request.icon_path),
                kind: TabKind::Agent {
                    agent_id: request.agent_id,
                    agent_name: request.agent_name.clone(),
                    sandbox: None,
                    auth_gateway: false,
                },
                agent_status: AgentStatus::Unknown,
                event_service: false,
                checkpointing: false,
                checkpoint_name: None,
                tab_db_id: None,
            };
            let _event = s.add_tab(tab);
            assert(s.tabs@.take(before.len() as int) =~= before);
            if asks {
                let mut error = "Missing: ".to_owned();
                error.append(text::join(&missing, ", ").as_str());
                proof {
                    session::lemma_tab_place_is(s.tabs@, tab_id, before.len() as int);
                }
                if let Some(i) = s.position(tab_id) {
                    s.tabs[i].setup_steps = None;
                    s.tabs[i].setup_error = Some(error);
                }
            }
            self.sessions.insert(ws_id, s);
            assert(self.sessions@.dom() =~= old(self).sessions@.dom());
        } else {
            assert(self.sessions@ =~= old(self).sessions@);
        }
        if asks {
            self.missing_secrets_prompt = Some(
                MissingSecretsPrompt {
                    ws_id,
                    tab_id,
                    agent_id: request.agent_id,
                    agent_name: request.agent_name,
                    agent_command: request.agent_command,
                    checkpoint_from: request.checkpoint_from,
                    missing,
                },
            );
            return OpenOutcome::MissingSecrets { tab_id };
        }
        OpenOutcome::Boot {
            request: BootRequest {
                ws_id,
                tab_id,
                agent_id: request.agent_id,
                agent_command: request.agent_command,
                checkpoint_from: request.checkpoint_from,
            },
        }
    }
}

/// An agent is installed only where that was not done, and never where it is started from a saved
/// state. Then exactly the first step of the preparation is under way; all its steps are those of
/// the installation between three of its own. Else the only step is the start, and it is under way.
pub proof fn law_preparation(
    from_checkpoint: bool,
    installed: bool,
    labels: Seq<Seq<char>>,
    i: int,
)
    ensures
        ({
            let plan = setup_plan(
                install_needed(from_checkpoint, labels.len(), installed),
                labels,
            );
            &&& from_checkpoint || installed || labels.len() == 0 ==> plan.len() == 1
            &&& !from_checkpoint && !installed && labels.len() > 0 ==> plan.len() == labels.len()
                + 3
            &&& 0 <= i < plan.len() ==> (plan[i].1 is Active <==> i == 0) && (plan[i].1 is Pending
                <==> i > 0)
            &&& plan.last().0 == "Starting workspace"@
        }),
{
}

/// The number behind a name is one more than the tabs that have an agent of that name.
pub proof fn law_names_are_counted(tabs: Seq<TerminalTab>, name: Seq<char>)
    ensures
        same_name_count(tabs, name) == tabs.filter(
            |tab: TerminalTab| tab.kind is Agent && tab.kind->agent_name@ == name,
        ).len(),
    decreases tabs.len(),
{
    reveal(Seq::filter);
    if tabs.len() > 0 {
        law_names_are_counted(tabs.drop_last(), name);
    }
}

/// A prompt gives the label whatever tabs there are; without one the first tab of a name has the
/// name as its label, and any other one a longer label that begins with the name.
pub proof fn law_tab_labels(
    prompt: Option<Seq<char>>,
    name: Seq<char>,
    tabs: Seq<TerminalTab>,
    others: Seq<TerminalTab>,
)
    ensures
        prompt is Some ==> tab_label(prompt, name, tabs) == tab_label(prompt, name, others),
        prompt matches Some(p) ==> text::byte_len(p) <= 30 ==> tab_label(prompt, name, tabs) == p,
        prompt is None && (forall|i: int|
            0 <= i < tabs.len() ==> !((#[trigger] tabs[i]).kind is Agent
                && tabs[i].kind->agent_name@ == name)) ==> tab_label(prompt, name, tabs) == name,
        prompt is None && (exists|i: int|
            0 <= i < tabs.len() && (#[trigger] tabs[i]).kind is Agent && tabs[i].kind->agent_name@
                == name) ==> name.is_prefix_of(tab_label(prompt, name, tabs)) && tab_label(
            prompt,
            name,
            tabs,
        ).len() > name.len(),
{
    lemma_count_is_zero(tabs, name);
    reveal_strlit(" (");
}

proof fn lemma_count_is_zero(tabs: Seq<TerminalTab>, name: Seq<char>)
    ensures
        same_name_count(tabs, name) == 0 <==> forall|i: int|
            0 <= i < tabs.len() ==> !((#[trigger] tabs[i]).kind is Agent
                && tabs[i].kind->agent_name@ == name),
    decreases tabs.len(),
{
    if tabs.len() > 0 {
        let rest = tabs.drop_last();
        lemma_count_is_zero(rest, name);
        assert(tabs.last() == tabs[tabs.len() - 1]);
        if same_name_count(rest, name) != 0 {
            let i = choose|i: int|
                0 <= i < rest.len() && (#[trigger] rest[i]).kind is Agent
                    && rest[i].kind->agent_name@ == name;
            assert(tabs[i] == rest[i]);
        } else {
            assert forall|i: int| 0 <= i < rest.len() implies !((#[trigger] tabs[i]).kind is Agent
                && tabs[i].kind->agent_name@ == name) by {
                assert(rest[i] == tabs[i]);
            }
        }
    }
}

/// A prompt that is cut down takes at most 30 bytes and begins as the prompt does.
pub proof fn law_short_prompt_is_short(prompt: Seq<char>)
    requires
        text::byte_len(prompt) > 30 ==> text::is_boundary(prompt, 27),
    ensures
        text::byte_len(short_prompt(prompt)) <= 30,
        text::byte_len(prompt) <= 30 ==> short_prompt(prompt) == prompt,
        text::byte_len(prompt) > 30 ==> text::byte_len(short_prompt(prompt)) == 30 && exists|k: int|
            0 <= k <= prompt.len() && short_prompt(prompt) == #[trigger] prompt.take(k) + seq![
                '.',
                '.',
                '.',
            ],
{
    if text::byte_len(prompt) > 30 {
        text::lemma_boundary(prompt, 27);
        let k = text::chars_before(prompt, 27);
        reveal_strlit("...");
        assert("..."@ =~= seq!['.', '.', '.']);
        text::lemma_byte_len_concat(prompt.take(k), "..."@);
        let e = Seq::<char>::empty();
        text::lemma_byte_len_push(e, '.');
        text::lemma_byte_len_push(e.push('.'), '.');
        text::lemma_byte_len_push(e.push('.').push('.'), '.');
        assert(e.push('.').push('.').push('.') =~= "..."@);
        assert(short_prompt(prompt) == prompt.take(k) + seq!['.', '.', '.']);
    }
}

/// The agent that is launched is the default one where it is among the agents, else the first of
/// them; there is none only where there are no agents.
pub proof fn law_default_agent_is_launched(agents: Seq<Agent>, default_id: Option<i64>, i: int)
    requires
        0 <= i < agents.len(),
    ensures
        launched_agent(agents, default_id) is Some,
        default_id is None ==> launched_agent(agents, default_id) == Some(agents[0]),
        default_id matches Some(id) ==> (agents[i].id == id && (forall|j: int|
            0 <= j < i ==> (#[trigger] agents[j]).id != id) ==> launched_agent(agents, default_id)
            == Some(agents[i])),
        default_id matches Some(id) ==> ((forall|j: int|
            0 <= j < agents.len() ==> (#[trigger] agents[j]).id != id) ==> launched_agent(
            agents,
            default_id,
        ) == Some(agents[0])),
{
    if let Some(id) = default_id {
        if agents[i].id == id && (forall|j: int| 0 <= j < i ==> (#[trigger] agents[j]).id != id) {
            panel::law_first_agent_of_an_id(agents, id, i);
        }
        if forall|j: int| 0 <= j < agents.len() ==> (#[trigger] agents[j]).id != id {
            panel::law_first_agent_of_an_id(agents, id, agents.len() - 1);
        }
    }
}

/// A tab that was put aside comes back as it was saved: stopped, under its label and with what was
/// saved of its sandbox, and with its agent as far as that is known.
pub proof fn law_saved_tab_comes_back(
    tab: TerminalTab,
    tab_id: u64,
    saved: SavedTab,
    agents: Seq<Agent>,
    i: int,
)
    requires
        is_restored_tab(tab, tab_id, saved, agents),
        0 <= i < agents.len(),
    ensures
        tab.tab_id == tab_id,
        tab.label@ == saved.label@,
        tab.tab_db_id == Some(saved.id),
        text::optional_text(tab.checkpoint_name) == text::optional_text(saved.checkpoint_name),
        tab.terminal is None && tab.setup_steps is None && !tab.checkpointing,
        tab.kind is Agent && tab.kind->Agent_sandbox is None,
        saved.agent_id matches Some(id) ==> tab.kind->agent_id == id,
        saved.agent_id matches Some(id) ==> (agents[i].id == id && (forall|j: int|
            0 <= j < i ==> (#[trigger] agents[j]).id != id) ==> tab.kind->agent_name@
            == agents[i].display_name@ && text::optional_text(tab.icon_path)
            == text::optional_text(agents[i].icon)),
{
    if let Some(id) = saved.agent_id {
        if agents[i].id == id && (forall|j: int| 0 <= j < i ==> (#[trigger] agents[j]).id != id) {
            panel::law_first_agent_of_an_id(agents, id, i);
        }
    }
}

/// A tab in which an agent is opened has neither terminal nor sandbox yet, and is of the agent that
/// was asked for.
pub proof fn law_opened_tab_is_of_its_agent(
    tab: TerminalTab,
    tab_id: u64,
    label: Seq<char>,
    request: OpenAgent,
)
    requires
        is_opened_tab(tab, tab_id, label, request),
    ensures
        tab.tab_id == tab_id,
        tab.label@ == label,
        tab.kind is Agent && tab.kind->agent_id == request.agent_id && tab.kind->agent_name
            == request.agent_name && tab.kind->Agent_sandbox is None,
        tab.terminal is None,
        tab.checkpoint_name is None && tab.tab_db_id is None && !tab.checkpointing,
        tab.agent_color == request.agent_color,
        tab.icon_path == request.icon_path,
{
}

/// Agents of one kind are asked for in the same way whatever saved state or prompt goes with it.
pub proof fn law_agent_is_asked_for(
    a: OpenAgent,
    b: OpenAgent,
    agent: Agent,
    checkpoint: Option<Seq<char>>,
    prompt: Option<Seq<char>>,
)
    requires
        opens_agent(a, agent, checkpoint, prompt),
        opens_agent(b, agent, None, None),
    ensures
        a.agent_id == agent.id && b.agent_id == agent.id,
        a.agent_name@ == agent.display_name@,
        a.agent_command@ == agent.command@,
        a.agent_color == b.agent_color,
        text::optional_text(a.icon_path) == text::optional_text(agent.icon),
        text::optional_text(a.checkpoint_from) == checkpoint,
        text::optional_text(a.initial_prompt) == prompt,
        b.checkpoint_from is None && b.initial_prompt is None,
{
}

/// The tab after some of a name has the number that comes next.
pub proof fn law_next_number(tabs: Seq<TerminalTab>, name: Seq<char>)
    ensures
        ({
            let n = tabs.filter(
                |tab: TerminalTab| tab.kind is Agent && tab.kind->agent_name@ == name,
            ).len();
            n > 0 ==> tab_label(None, name, tabs) == name + seq![' ', '('] + text::decimal(n + 1)
                + seq![')']
        }),
{
    law_names_are_counted(tabs, name);
    reveal_strlit(" (");
    reveal_strlit(")");
    assert(" ("@ =~= seq![' ', '(']);
    assert(")"@ =~= seq![')']);
}

} // verus!
