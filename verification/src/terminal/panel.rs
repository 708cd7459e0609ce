//! The terminal panel: the sessions of all workspaces.

use crate::terminal::session::{AgentStatus, TabKind, TerminalTab, WorkspaceSession};
use crate::text;
use crate::theme;
use std::collections::HashMap;
use vstd::prelude::*;

verus! {

broadcast use vstd::std_specs::hash::group_hash_axioms;

/// An agent that can be opened in a tab.
#[derive(Debug)]
pub struct Agent {
    pub id: i64,
    /// The agent's short name.
    pub name: String,
    pub display_name: String,
    pub command: String,
    pub color: Option<String>,
    pub icon: Option<String>,
    /// The environment variables of the secrets that the agent needs.
    pub required_secrets: Vec<String>,
}

/// An agent that waits for secrets: what is needed to start it once they are there.
#[derive(Debug)]
pub struct MissingSecretsPrompt {
    pub ws_id: i64,
    pub tab_id: u64,
    pub agent_id: i64,
    pub agent_name: String,
    pub agent_command: String,
    pub checkpoint_from: Option<String>,
    pub missing: Vec<String>,
}

/// The terminal panel.
#[derive(Debug)]
pub struct TerminalPanel {
    pub agents: Vec<Agent>,
    pub active_workspace_id: Option<i64>,
    pub sessions: HashMap<i64, WorkspaceSession>,
    pub show_agent_menu: bool,
    pub agent_menu_index: usize,
    pub next_tab_id: u64,
    /// The workspace and tab whose closing waits for a confirmation.
    pub pending_close: Option<(i64, u64)>,
    pub missing_secrets_prompt: Option<MissingSecretsPrompt>,
    pub skip_secret_check: bool,
    pub show_tab_badges: bool,
}

/// What the review panel is told.
#[derive(Clone, Copy, Debug, PartialEq, Eq, Structural)]
pub enum SideAction {
    Nothing,
    SandboxReady { key: usize },
    Deactivate,
}

/// The greatest weight of the statuses of the tabs.
pub open spec fn max_weight(tabs: Seq<TerminalTab>) -> int
    decreases tabs.len(),
{
    if tabs.len() == 0 {
        0
    } else {
        let before = max_weight(tabs.drop_last());
        let w = tabs.last().agent_status.weight();
        if w > before {
            w
        } else {
            before
        }
    }
}

/// The names of the agents whose status has this weight, in order. Empty names do not count.
pub open spec fn names_at(tabs: Seq<TerminalTab>, weight: int) -> Seq<Seq<char>>
    decreases tabs.len(),
{
    if tabs.len() == 0 {
        seq![]
    } else {
        let before = names_at(tabs.drop_last(), weight);
        let tab = tabs.last();
        match tab.kind {
            TabKind::Agent { agent_name, .. } if tab.agent_status.weight() == weight
                && agent_name@.len() > 0 => before.push(agent_name@),
            _ => before,
        }
    }
}

/// The status of the first tab whose status has this weight.
pub open spec fn first_status_at(tabs: Seq<TerminalTab>, weight: int) -> AgentStatus
    decreases tabs.len(),
{
    if tabs.len() == 0 {
        AgentStatus::Unknown
    } else if tabs[0].agent_status.weight() == weight {
        tabs[0].agent_status
    } else {
        first_status_at(tabs.drop_first(), weight)
    }
}

/// The ids of the tabs are distinct and below `next`.
pub open spec fn ids_wf(tabs: Seq<TerminalTab>, next: u64) -> bool {
    &&& forall|i: int| 0 <= i < tabs.len() ==> (#[trigger] tabs[i]).tab_id < next
    &&& forall|i: int, j: int|
        0 <= i < j < tabs.len() ==> (#[trigger] tabs[i]).tab_id != (#[trigger] tabs[j]).tab_id
}

/// The place of the first agent of an id, or the number of agents where there is none.
pub open spec fn agent_place(agents: Seq<Agent>, id: i64) -> int
    decreases agents.len(),
{
    if agents.len() == 0 {
        0
    } else if agents[0].id == id {
        0
    } else {
        1 + agent_place(agents.drop_first(), id)
    }
}

/// The first agent of an id.
pub open spec fn agent_of(agents: Seq<Agent>, id: i64) -> Option<Agent> {
    if agent_place(agents, id) < agents.len() {
        Some(agents[agent_place(agents, id)])
    } else {
        None
    }
}

/// The colours of the agents can be read.
pub open spec fn colors_readable(agents: Seq<Agent>) -> bool {
    forall|i: int|
        0 <= i < agents.len() ==> match (#[trigger] agents[i]).color {
            Some(c) => theme::pairs_are_whole(c@),
            None => true,
        }
}

/// The colour of an agent, where it has one that can be read.
pub open spec fn agent_color(agent: Agent) -> Option<theme::Color> {
    match agent.color {
        Some(c) => theme::hex_color(c@),
        None => None,
    }
}

pub(crate) fn color_of(agent: &Agent) -> (c: Option<theme::Color>)
    requires
        agent.color matches Some(s) ==> theme::pairs_are_whole(s@),
    ensures
        c == agent_color(*agent),
{
    match &agent.color {
        Some(s) => theme::parse_hex_color(s.as_str()),
        None => None,
    }
}

proof fn lemma_agent_place(agents: Seq<Agent>, id: i64, i: int)
    requires
        0 <= i <= agents.len(),
        i < agents.len() ==> agents[i].id == id,
        forall|j: int| 0 <= j < i ==> (#[trigger] agents[j]).id != id,
    ensures
        agent_place(agents, id) == i,
    decreases i,
{
    if i > 0 {
        assert(agents[0].id != id);
        let rest = agents.drop_first();
        assert forall|j: int| 0 <= j < i - 1 implies (#[trigger] rest[j]).id != id by {
            assert(rest[j] == agents[j + 1]);
        }
        lemma_agent_place(rest, id, i - 1);
    }
}

impl TerminalPanel {
    /// A panel without sessions.
    pub fn new(agents: Vec<Agent>) -> (p: Self)
        ensures
            p.agents == agents,
            p.active_workspace_id is None,
            p.sessions@ == Map::<i64, WorkspaceSession>::empty(),
            !p.show_agent_menu,
            p.agent_menu_index == 0,
            p.next_tab_id == 1,
            p.pending_close is None,
            p.missing_secrets_prompt is None,
            !p.skip_secret_check,
            !p.show_tab_badges,
    {
        TerminalPanel {
            agents,
            active_workspace_id: None,
            sessions: HashMap::new(),
            show_agent_menu: false,
            agent_menu_index: 0,
            next_tab_id: 1,
            pending_close: None,
            missing_secrets_prompt: None,
            skip_secret_check: false,
            show_tab_badges: false,
        }
    }

    /// Every tab has an id of its own in its session, and ids that were given out lie below the
    /// next one.
    pub open spec fn wf(self) -> bool {
        forall|ws: i64| #[trigger]
            self.sessions@.contains_key(ws) ==> ids_wf(self.sessions@[ws].tabs@, self.next_tab_id)
    }

    /// The session of the active workspace.
    pub open spec fn active_session(self) -> Option<WorkspaceSession> {
        match self.active_workspace_id {
            Some(id) => if self.sessions@.contains_key(id) {
                Some(self.sessions@[id])
            } else {
                None
            },
            None => None,
        }
    }

    pub fn active_workspace_name(&self) -> (r: Option<String>)
        ensures
            match r {
                Some(name) => self.active_session() matches Some(s) && s.workspace_name == name,
                None => self.active_session() is None,
            },
    {
        match self.active_workspace_id {
            Some(id) => match self.sessions.get(&id) {
                Some(session) => Some(session.workspace_name.clone()),
                None => None,
            },
            None => None,
        }
    }

    pub fn find_agent(&self, id: i64) -> (r: Option<&Agent>)
        ensures
            match r {
                Some(agent) => agent_of(self.agents@, id) == Some(*agent) && self.agents@.contains(
                    *agent,
                ),
                None => agent_of(self.agents@, id) is None,
            },
    {
        let mut i: usize = 0;
        while i < self.agents.len()
            invariant
                i <= self.agents@.len(),
                forall|j: int| 0 <= j < i ==> (#[trigger] self.agents@[j]).id != id,
            decreases self.agents@.len() - i,
        {
            if self.agents[i].id == id {
                proof {
                    lemma_agent_place(self.agents@, id, i as int);
                }
                assert(self.agents@.contains(self.agents@[i as int]));
                return Some(&self.agents[i]);
            }
            i += 1;
        }
        proof {
            lemma_agent_place(self.agents@, id, i as int);
        }
        None
    }

    /// The most pressing status among the tabs of a workspace, with the names of its agents.
    pub fn workspace_agent_status(&self, ws_id: i64) -> (r: (Vec<String>, AgentStatus))
        ensures
            ({
                let tabs = if self.sessions@.contains_key(ws_id) {
                    self.sessions@[ws_id].tabs@
                } else {
                    seq![]
                };
                let weight = max_weight(tabs);
                if weight == 0 {
                    r.0@.len() == 0 && r.1 is Unknown
                } else {
                    text::views(r.0@) == names_at(tabs, weight) && r.1 == first_status_at(
                        tabs,
                        weight,
                    )
                }
            }),
    {
        match self.sessions.get(&ws_id) {
            Some(session) => tabs_status(&session.tabs),
            None => (Vec::new(), AgentStatus::Unknown),
        }
    }

    /// What the review panel is told of a workspace: nothing unless it is the active one, else
    /// its best sandbox, or to turn off where it has none.
    pub fn notify_side_panel(&self, ws_id: i64) -> (action: SideAction)
        ensures
            action == (if self.active_workspace_id != Some(ws_id) {
                SideAction::Nothing
            } else {
                match self.active_session() {
                    Some(session) => match session.sandbox_in_front() {
                        Some(key) => SideAction::SandboxReady { key },
                        None => SideAction::Deactivate,
                    },
                    None => SideAction::Deactivate,
                }
            }),
    {
        let active = match self.active_workspace_id {
            Some(id) => id == ws_id,
            None => false,
        };
        if !active {
            return SideAction::Nothing;
        }
        match self.get_active_sandbox(ws_id) {
            Some(key) => SideAction::SandboxReady { key },
            None => SideAction::Deactivate,
        }
    }

    /// The best sandbox of a workspace.
    pub fn get_active_sandbox(&self, ws_id: i64) -> (r: Option<usize>)
        ensures
            r == (if self.sessions@.contains_key(ws_id) {
                self.sessions@[ws_id].sandbox_in_front()
            } else {
                None
            }),
    {
        match self.sessions.get(&ws_id) {
            Some(session) => session.active_sandbox(),
            None => None,
        }
    }

    /// The panel is the same but for the session of one workspace.
    pub open spec fn only_session_changed(self, before: Self, ws_id: i64) -> bool {
        &&& self.sessions@.dom() == before.sessions@.dom()
        &&& forall|id: i64|
            #![trigger self.sessions@[id]]
            id != ws_id && before.sessions@.contains_key(id) ==> self.sessions@[id]
                == before.sessions@[id]
        &&& self == (TerminalPanel { sessions: self.sessions, ..before })
    }
}

fn tabs_status(tabs: &Vec<TerminalTab>) -> (r: (Vec<String>, AgentStatus))
    ensures
        ({
            let weight = max_weight(tabs@);
            if weight == 0 {
                r.0@.len() == 0 && r.1 is Unknown
            } else {
                text::views(r.0@) == names_at(tabs@, weight) && r.1 == first_status_at(
                    tabs@,
                    weight,
                )
            }
        }),
{
    let mut weight: u8 = 0;
    let mut i: usize = 0;
    while i < tabs.len()
        invariant
            i <= tabs@.len(),
            weight == max_weight(tabs@.take(i as int)),
        decreases tabs@.len() - i,
    {
        assert(tabs@.take(i + 1).drop_last() =~= tabs@.take(i as int));
        let w: u8 = tabs[i].agent_status.priority();
        if w > weight {
            weight = w;
        }
        i += 1;
    }
    assert(tabs@.take(i as int) =~= tabs@);
    if weight == 0 {
        return (Vec::new(), AgentStatus::Unknown);
    }
    let mut names: Vec<String> = Vec::new();
    let mut i: usize = 0;
    assert(text::views(names@) =~= seq![]);
    while i < tabs.len()
        invariant
            i <= tabs@.len(),
            text::views(names@) == names_at(tabs@.take(i as int), weight as int),
        decreases tabs@.len() - i,
    {
        assert(tabs@.take(i + 1).drop_last() =~= tabs@.take(i as int));
        let tab = &tabs[i];
        if tab.agent_status.priority() == weight {
            if let TabKind::Agent { agent_name, .. } = &tab.kind {
                if text::to_chars(agent_name.as_str()).len() > 0 {
                    let ghost done = text::views(names@);
                    names.push(agent_name.clone());
                    assert(text::views(names@) =~= done.push(agent_name@));
                }
            }
        }
        i += 1;
    }
    assert(tabs@.take(i as int) =~= tabs@);
    let mut i: usize = 0;
    assert(tabs@.skip(0) =~= tabs@);
    while i < tabs.len()
        invariant
            i <= tabs@.len(),
            weight == max_weight(tabs@),
            weight != 0,
            text::views(names@) == names_at(tabs@, weight as int),
            first_status_at(tabs@, weight as int) == first_status_at(
                tabs@.skip(i as int),
                weight as int,
            ),
        decreases tabs@.len() - i,
    {
        assert(tabs@.skip(i as int).drop_first() =~= tabs@.skip(i + 1));
        if tabs[i].agent_status.priority() == weight {
            return (names, tabs[i].agent_status.clone());
        }
        i += 1;
    }
    (names, AgentStatus::Unknown)
}

/// Where a status counts at all, the status that is shown has the greatest weight of all.
pub proof fn law_shown_status_is_heaviest(tabs: Seq<TerminalTab>)
    requires
        max_weight(tabs) > 0,
    ensures
        first_status_at(tabs, max_weight(tabs)).weight() == max_weight(tabs),
        forall|i: int|
            0 <= i < tabs.len() ==> (#[trigger] tabs[i]).agent_status.weight() <= max_weight(tabs),
{
    lemma_max_weight(tabs);
    let i = choose|i: int|
        0 <= i < tabs.len() && (#[trigger] tabs[i]).agent_status.weight() == max_weight(tabs);
    lemma_first_status(tabs, max_weight(tabs), i);
}

proof fn lemma_max_weight(tabs: Seq<TerminalTab>)
    ensures
        max_weight(tabs) >= 0,
        forall|i: int|
            0 <= i < tabs.len() ==> (#[trigger] tabs[i]).agent_status.weight() <= max_weight(tabs),
        max_weight(tabs) > 0 ==> exists|i: int|
            0 <= i < tabs.len() && (#[trigger] tabs[i]).agent_status.weight() == max_weight(tabs),
    decreases tabs.len(),
{
    if tabs.len() > 0 {
        let rest = tabs.drop_last();
        lemma_max_weight(rest);
        assert forall|i: int| 0 <= i < tabs.len() implies (#[trigger] tabs[i]).agent_status.weight()
            <= max_weight(tabs) by {
            if i < rest.len() {
                assert(rest[i] == tabs[i]);
            }
        }
        if max_weight(tabs) > max_weight(rest) {
            assert(tabs[tabs.len() - 1].agent_status.weight() == max_weight(tabs));
        } else if max_weight(tabs) > 0 {
            let i = choose|i: int|
                0 <= i < rest.len() && (#[trigger] rest[i]).agent_status.weight() == max_weight(
                    rest,
                );
            assert(tabs[i] == rest[i]);
        }
    }
}

proof fn lemma_first_status(tabs: Seq<TerminalTab>, weight: int, i: int)
    requires
        0 <= i < tabs.len(),
        tabs[i].agent_status.weight() == weight,
    ensures
        first_status_at(tabs, weight).weight() == weight,
    decreases tabs.len(),
{
    if tabs[0].agent_status.weight() != weight {
        lemma_first_status(tabs.drop_first(), weight, i - 1);
    }
}

/// The agents that are named are those whose status weighs as much and that have a name, in the
/// order of their tabs.
pub proof fn law_names_of_the_heaviest(tabs: Seq<TerminalTab>, weight: int)
    ensures
        names_at(tabs, weight) == tabs.filter_map(
            |tab: TerminalTab|
                match tab.kind {
                    TabKind::Agent { agent_name, .. } => if tab.agent_status.weight() == weight
                        && agent_name@ != Seq::<char>::empty() {
                        Some(agent_name@)
                    } else {
                        None
                    },
                    _ => None,
                },
        ),
    decreases tabs.len(),
{
    if tabs.len() > 0 {
        law_names_of_the_heaviest(tabs.drop_last(), weight);
        let before = names_at(tabs.drop_last(), weight);
        if let TabKind::Agent { agent_name, .. } = tabs.last().kind {
            assert(before.push(agent_name@) =~= before + seq![agent_name@]);
            if agent_name@.len() == 0 {
                assert(agent_name@ =~= Seq::empty());
            }
        }
    }
}

/// Of several tabs whose status weighs the same, that of the first is shown.
pub proof fn law_first_of_a_weight_is_shown(tabs: Seq<TerminalTab>, weight: int, i: int)
    requires
        0 <= i < tabs.len(),
        tabs[i].agent_status.weight() == weight,
        forall|j: int| 0 <= j < i ==> (#[trigger] tabs[j]).agent_status.weight() != weight,
    ensures
        first_status_at(tabs, weight) == tabs[i].agent_status,
    decreases tabs.len(),
{
    if i > 0 {
        assert(tabs[0].agent_status.weight() != weight);
        let rest = tabs.drop_first();
        assert(rest[i - 1] == tabs[i]);
        assert forall|j: int| 0 <= j < i - 1 implies (#[trigger] rest[j]).agent_status.weight()
            != weight by {
            assert(rest[j] == tabs[j + 1]);
        }
        law_first_of_a_weight_is_shown(rest, weight, i - 1);
    }
}

/// An agent is found by its id wherever it stands, and of several the first.
pub proof fn law_first_agent_of_an_id(agents: Seq<Agent>, id: i64, i: int)
    requires
        0 <= i < agents.len(),
        forall|j: int| 0 <= j < i ==> (#[trigger] agents[j]).id != id,
    ensures
        agents[i].id == id ==> agent_of(agents, id) == Some(agents[i]),
        agents[i].id != id && i + 1 == agents.len() ==> agent_of(agents, id) is None,
    decreases agents.len(),
{
    reveal_with_fuel(agent_place, 2);
    if i > 0 {
        assert(agents[0].id != id);
        let rest = agents.drop_first();
        assert(rest[i - 1] == agents[i]);
        assert forall|j: int| 0 <= j < i - 1 implies (#[trigger] rest[j]).id != id by {
            assert(rest[j] == agents[j + 1]);
        }
        law_first_agent_of_an_id(rest, id, i - 1);
        lemma_agent_place_range(rest, id);
        if agents[i].id == id {
            assert(agent_place(rest, id) < rest.len());
            assert(agents[agent_place(agents, id)] == rest[agent_place(rest, id)]);
        }
    }
}

proof fn lemma_agent_place_range(agents: Seq<Agent>, id: i64)
    ensures
        0 <= agent_place(agents, id) <= agents.len(),
    decreases agents.len(),
{
    if agents.len() > 0 {
        lemma_agent_place_range(agents.drop_first(), id);
    }
}

/// There is an active session exactly where a workspace is active and has one, and then it is that.
pub proof fn law_active_session(panel: TerminalPanel, id: i64)
    ensures
        panel.active_workspace_id is None ==> panel.active_session() is None,
        panel.active_workspace_id == Some(id) && panel.sessions@.contains_key(id)
            ==> panel.active_session() == Some(panel.sessions@[id]),
        panel.active_workspace_id == Some(id) && !panel.sessions@.contains_key(id)
            ==> panel.active_session() is None,
{
}

} // verus!
