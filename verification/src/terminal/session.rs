//! The tabs of a workspace.

use crate::text;
use crate::theme::Color;
use vstd::prelude::*;

verus! {

#[derive(Clone, Copy, Debug, PartialEq, Eq, Structural)]
pub enum StepStatus {
    Pending,
    Active,
    Done,
    Failed,
}

/// A step of the preparation of a tab.
#[derive(Debug)]
pub struct SetupStep {
    pub label: String,
    pub status: StepStatus,
}

/// The steps after one of them gets another status; one that is not there is passed over.
pub open spec fn with_status(steps: Seq<SetupStep>, idx: int, status: StepStatus) -> Seq<
    SetupStep,
> {
    if 0 <= idx < steps.len() {
        steps.update(idx, SetupStep { label: steps[idx].label, status })
    } else {
        steps
    }
}

impl SetupStep {
    pub fn new(label: &str) -> (s: Self)
        ensures
            s.label@ == label@,
            s.status == StepStatus::Pending,
    {
        SetupStep { label: label.to_owned(), status: StepStatus::Pending }
    }

    pub fn active(label: &str) -> (s: Self)
        ensures
            s.label@ == label@,
            s.status == StepStatus::Active,
    {
        SetupStep { label: label.to_owned(), status: StepStatus::Active }
    }
}

/// What an agent is doing.
#[derive(Debug)]
pub enum AgentStatus {
    Unknown,
    Running { tool: Option<String> },
    NeedsInput { message: Option<String> },
    Idle,
}

impl Clone for AgentStatus {
    fn clone(&self) -> (r: Self)
        ensures
            r == *self,
    {
        match self {
            AgentStatus::Unknown => AgentStatus::Unknown,
            AgentStatus::Running { tool } => AgentStatus::Running { tool: text::copy_optional(tool) },
            AgentStatus::NeedsInput { message } => AgentStatus::NeedsInput {
                message: text::copy_optional(message),
            },
            AgentStatus::Idle => AgentStatus::Idle,
        }
    }
}

/// The names of agents in a sentence: `Agent` where there is none.
pub open spec fn names_label(names: Seq<Seq<char>>) -> Seq<char> {
    if names.len() == 0 {
        "Agent"@
    } else {
        text::joined(names, ", "@)
    }
}

/// What a status says of agents in the sidebar.
pub open spec fn status_text(status: AgentStatus, names: Seq<Seq<char>>) -> Option<Seq<char>> {
    let many = names.len() > 1;
    match status {
        AgentStatus::Unknown => None,
        AgentStatus::Running { .. } => Some(
            names_label(names) + if many {
                " are running"@
            } else {
                " is running"@
            },
        ),
        AgentStatus::NeedsInput { message } => match message {
            Some(m) if m@.len() > 0 => Some(m@),
            _ => Some(
                names_label(names) + if many {
                    " need input"@
                } else {
                    " is waiting for input"@
                },
            ),
        },
        AgentStatus::Idle => Some(
            names_label(names) + if many {
                " are ready"@
            } else {
                " is ready"@
            },
        ),
    }
}

impl AgentStatus {
    /// How much a status counts among those of several tabs.
    pub open spec fn weight(self) -> int {
        match self {
            AgentStatus::Unknown => 0,
            AgentStatus::Idle => 1,
            AgentStatus::Running { .. } => 2,
            AgentStatus::NeedsInput { .. } => 3,
        }
    }

    /// What the status says of the agents of these names.
    pub fn display_text(&self, names: &Vec<String>) -> (r: Option<String>)
        ensures
            match r {
                Some(s) => status_text(*self, text::views(names@)) == Some(s@),
                None => status_text(*self, text::views(names@)) is None,
            },
    {
        let mut label = if names.len() == 0 {
            "Agent".to_owned()
        } else {
            text::join(names, ", ")
        };
        let many = names.len() > 1;
        match self {
            AgentStatus::Unknown => None,
            AgentStatus::Running { .. } => {
                label.append(
                    if many {
                        " are running"
                    } else {
                        " is running"
                    },
                );
                Some(label)
            },
            AgentStatus::NeedsInput { message } => {
                if let Some(m) = message {
                    if text::to_chars(m.as_str()).len() > 0 {
                        return Some(m.clone());
                    }
                }
                label.append(
                    if many {
                        " need input"
                    } else {
                        " is waiting for input"
                    },
                );
                Some(label)
            },
            AgentStatus::Idle => {
                label.append(
                    if many {
                        " are ready"
                    } else {
                        " is ready"
                    },
                );
                Some(label)
            },
        }
    }

    /// How much the status counts among those of several tabs.
    pub fn priority(&self) -> (n: u8)
        ensures
            n == self.weight(),
    {
        match self {
            AgentStatus::Unknown => 0,
            AgentStatus::Idle => 1,
            AgentStatus::Running { .. } => 2,
            AgentStatus::NeedsInput { .. } => 3,
        }
    }
}

/// What a tab runs. A sandbox is known by its number.
#[derive(Debug)]
pub enum TabKind {
    Agent { agent_id: i64, agent_name: String, sandbox: Option<usize>, auth_gateway: bool },
    Shell { parent_agent_tab_id: u64, sandbox: usize },
    HostShell,
}

impl TabKind {
    /// An agent whose sandbox is up.
    pub open spec fn is_ready_agent(self) -> bool {
        self matches TabKind::Agent { sandbox, .. } && sandbox is Some
    }

    /// A shell in the sandbox of an agent's tab.
    pub open spec fn is_child_of(self, tab_id: u64) -> bool {
        self matches TabKind::Shell { parent_agent_tab_id, .. } && parent_agent_tab_id == tab_id
    }

    fn ready_agent(&self) -> (r: bool)
        ensures
            r == self.is_ready_agent(),
    {
        match self {
            TabKind::Agent { sandbox: Some(_), .. } => true,
            _ => false,
        }
    }

    fn child_of(&self, tab_id: u64) -> (r: bool)
        ensures
            r == self.is_child_of(tab_id),
    {
        match self {
            TabKind::Shell { parent_agent_tab_id, .. } => *parent_agent_tab_id == tab_id,
            _ => false,
        }
    }
}

/// A tab. A terminal is known by its number.
#[derive(Debug)]
pub struct TerminalTab {
    pub tab_id: u64,
    pub label: String,
    pub terminal: Option<u64>,
    pub setup_steps: Option<Vec<SetupStep>>,
    pub setup_error: Option<String>,
    pub agent_color: Option<Color>,
    pub icon_path: Option<String>,
    pub kind: TabKind,
    pub agent_status: AgentStatus,
    pub event_service: bool,
    pub checkpointing: bool,
    pub checkpoint_name: Option<String>,
    pub tab_db_id: Option<i64>,
}

impl TerminalTab {
    pub fn is_setting_up(&self) -> (r: bool)
        ensures
            r == (self.setup_steps is Some),
    {
        self.setup_steps.is_some()
    }

    /// A tab that was put aside and has no terminal.
    pub fn is_stopped(&self) -> (r: bool)
        ensures
            r == (self.checkpoint_name is Some && self.terminal is None),
    {
        self.checkpoint_name.is_some() && self.terminal.is_none()
    }

    /// The steps of the preparation, while it lasts.
    pub open spec fn steps(self) -> Option<Seq<SetupStep>> {
        match self.setup_steps {
            Some(v) => Some(v@),
            None => None,
        }
    }
}

#[derive(Clone, Copy, Debug, PartialEq, Eq, Structural)]
pub enum SessionEvent {
    TabAdded { tab_id: u64 },
    TabRemoved { tab_id: u64 },
    TabActivated { tab_id: u64 },
    SandboxReady { tab_id: u64 },
    NoSandboxRemaining,
}

/// The tabs of a workspace, with the one in front.
#[derive(Debug)]
pub struct WorkspaceSession {
    pub workspace_id: i64,
    pub workspace_name: String,
    pub mount_path: Option<String>,
    pub tabs: Vec<TerminalTab>,
    pub active_tab: usize,
}

/// The place of the first tab of an id, or the number of tabs where there is none.
pub open spec fn tab_place(tabs: Seq<TerminalTab>, tab_id: u64) -> int
    decreases tabs.len(),
{
    if tabs.len() == 0 {
        0
    } else if tabs[0].tab_id == tab_id {
        0
    } else {
        1 + tab_place(tabs.drop_first(), tab_id)
    }
}

/// The first tab of an id.
pub open spec fn tab_of(tabs: Seq<TerminalTab>, tab_id: u64) -> Option<TerminalTab> {
    if tab_place(tabs, tab_id) < tabs.len() {
        Some(tabs[tab_place(tabs, tab_id)])
    } else {
        None
    }
}

/// What the place of a tab is.
pub proof fn lemma_tab_place(tabs: Seq<TerminalTab>, tab_id: u64)
    ensures
        0 <= tab_place(tabs, tab_id) <= tabs.len(),
        tab_place(tabs, tab_id) < tabs.len() ==> tabs[tab_place(tabs, tab_id)].tab_id == tab_id,
        forall|i: int| 0 <= i < tab_place(tabs, tab_id) ==> (#[trigger] tabs[i]).tab_id != tab_id,
    decreases tabs.len(),
{
    if tabs.len() > 0 && tabs[0].tab_id != tab_id {
        let rest = tabs.drop_first();
        lemma_tab_place(rest, tab_id);
        assert forall|i: int| 0 <= i < tab_place(tabs, tab_id) implies (#[trigger] tabs[i]).tab_id
            != tab_id by {
            if i > 0 {
                assert(rest[i - 1] == tabs[i]);
            }
        }
    }
}

/// The first tab of an id is its place.
pub proof fn lemma_tab_place_is(tabs: Seq<TerminalTab>, tab_id: u64, i: int)
    requires
        0 <= i <= tabs.len(),
        i < tabs.len() ==> tabs[i].tab_id == tab_id,
        forall|j: int| 0 <= j < i ==> (#[trigger] tabs[j]).tab_id != tab_id,
    ensures
        tab_place(tabs, tab_id) == i,
{
    lemma_tab_place(tabs, tab_id);
    let p = tab_place(tabs, tab_id);
    if p < i {
        assert(tabs[p].tab_id != tab_id);
    }
    if p > i {
        assert(tabs[i].tab_id != tab_id);
    }
}

/// Whether a tab goes when the tab of an id is closed: that tab does, and with an agent's tab
/// the shells in its sandbox.
pub open spec fn goes_with(tab: TerminalTab, tab_id: u64, with_children: bool) -> bool {
    tab.tab_id == tab_id || (with_children && tab.kind.is_child_of(tab_id))
}

/// The tabs that stay when the tab of an id is closed, in order.
pub open spec fn staying(
    tabs: Seq<TerminalTab>,
    tab_id: u64,
    with_children: bool,
) -> Seq<TerminalTab>
{
    remaining(tabs, |tab: TerminalTab| goes_with(tab, tab_id, with_children))
}

/// The tabs without the shells in the sandbox of an agent's tab, in order.
pub open spec fn without_children(tabs: Seq<TerminalTab>, tab_id: u64) -> Seq<TerminalTab> {
    remaining(tabs, |tab: TerminalTab| tab.kind.is_child_of(tab_id))
}

/// The tabs that do not go, in order.
pub open spec fn remaining(
    tabs: Seq<TerminalTab>,
    goes: spec_fn(TerminalTab) -> bool,
) -> Seq<TerminalTab>
    decreases tabs.len(),
{
    if tabs.len() == 0 {
        seq![]
    } else {
        let before = remaining(tabs.drop_last(), goes);
        if goes(tabs.last()) {
            before
        } else {
            before.push(tabs.last())
        }
    }
}

/// Whether an agent's sandbox is up in one of the tabs.
pub open spec fn any_sandbox(tabs: Seq<TerminalTab>) -> bool {
    exists|i: int| 0 <= i < tabs.len() && (#[trigger] tabs[i]).kind.is_ready_agent()
}

/// The sandbox of the first agent that has one.
pub open spec fn first_sandbox(tabs: Seq<TerminalTab>) -> Option<usize>
    decreases tabs.len(),
{
    if tabs.len() == 0 {
        None
    } else {
        match tabs[0].kind {
            TabKind::Agent { sandbox: Some(sb), .. } => Some(sb),
            _ => first_sandbox(tabs.drop_first()),
        }
    }
}

/// The events in the order in which they happen.
pub open spec fn removal_events(tab_id: u64, rest: Seq<TerminalTab>) -> Seq<SessionEvent> {
    if any_sandbox(rest) {
        seq![SessionEvent::TabRemoved { tab_id }]
    } else {
        seq![SessionEvent::TabRemoved { tab_id }, SessionEvent::NoSandboxRemaining]
    }
}

impl WorkspaceSession {
    pub fn new(workspace_id: i64, workspace_name: String, mount_path: Option<String>) -> (s: Self)
        ensures
            s.workspace_id == workspace_id,
            s.workspace_name == workspace_name,
            s.mount_path == mount_path,
            s.tabs@.len() == 0,
            s.active_tab == 0,
    {
        WorkspaceSession { workspace_id, workspace_name, mount_path, tabs: Vec::new(), active_tab: 0 }
    }

    /// The session is the same but for its tabs and the one in front.
    pub open spec fn same_workspace(self, other: Self) -> bool {
        self.workspace_id == other.workspace_id && self.workspace_name == other.workspace_name
            && self.mount_path == other.mount_path
    }

    /// Puts a tab at the end and in front.
    pub fn add_tab(&mut self, tab: TerminalTab) -> (event: SessionEvent)
        ensures
            final(self).tabs@ == old(self).tabs@.push(tab),
            final(self).active_tab == old(self).tabs@.len(),
            final(self).same_workspace(*old(self)),
            event == (SessionEvent::TabAdded { tab_id: tab.tab_id }),
    {
        let tab_id: u64 = tab.tab_id;
        self.tabs.push(tab);
        self.active_tab = self.tabs.len() - 1;
        SessionEvent::TabAdded { tab_id }
    }

    /// Brings a tab to the front.
    pub fn activate_tab(&mut self, index: usize) -> (event: Option<SessionEvent>)
        ensures
            final(self).tabs@ == old(self).tabs@,
            final(self).same_workspace(*old(self)),
            final(self).active_tab == (if index < old(self).tabs@.len() {
                index
            } else {
                old(self).active_tab
            }),
            event == (if index < old(self).tabs@.len() {
                Some(SessionEvent::TabActivated { tab_id: old(self).tabs@[index as int].tab_id })
            } else {
                None
            }),
    {
        if index >= self.tabs.len() {
            return None;
        }
        self.active_tab = index;
        Some(SessionEvent::TabActivated { tab_id: self.tabs[index].tab_id })
    }

    /// Brings the next tab to the front, the first after the last.
    pub fn next_tab(&mut self) -> (event: Option<SessionEvent>)
        requires
            old(self).tabs@.len() > 0 ==> old(self).active_tab < usize::MAX,
        ensures
            final(self).tabs@ == old(self).tabs@,
            final(self).same_workspace(*old(self)),
            old(self).tabs@.len() == 0 ==> event is None && final(self).active_tab == old(
                self).active_tab,
            old(self).tabs@.len() > 0 ==> {
                &&& final(self).active_tab == (old(self).active_tab + 1) % old(self).tabs@.len()
                    as int
                &&& event == Some(
                    SessionEvent::TabActivated {
                        tab_id: old(self).tabs@[final(self).active_tab as int].tab_id,
                    },
                )
            },
    {
        let n: usize = self.tabs.len();
        if n == 0 {
            return None;
        }
        self.active_tab = (self.active_tab + 1) % n;
        Some(SessionEvent::TabActivated { tab_id: self.tabs[self.active_tab].tab_id })
    }

    /// Brings the tab before to the front, the last before the first.
    pub fn prev_tab(&mut self) -> (event: Option<SessionEvent>)
        ensures
            final(self).tabs@ == old(self).tabs@,
            final(self).same_workspace(*old(self)),
            old(self).tabs@.len() == 0 ==> event is None && final(self).active_tab == old(
                self).active_tab,
            old(self).tabs@.len() > 0 ==> {
                &&& final(self).active_tab == (if old(self).active_tab == 0 {
                    old(self).tabs@.len() - 1
                } else {
                    old(self).active_tab - 1
                })
                &&& event == (if final(self).active_tab < old(self).tabs@.len() {
                    Some(
                        SessionEvent::TabActivated {
                            tab_id: old(self).tabs@[final(self).active_tab as int].tab_id,
                        },
                    )
                } else {
                    None
                })
            },
    {
        let n: usize = self.tabs.len();
        if n == 0 {
            return None;
        }
        self.active_tab = if self.active_tab == 0 {
            n - 1
        } else {
            self.active_tab - 1
        };
        if self.active_tab < n {
            Some(SessionEvent::TabActivated { tab_id: self.tabs[self.active_tab].tab_id })
        } else {
            None
        }
    }

    /// The place of the first tab of an id.
    pub fn position(&self, tab_id: u64) -> (r: Option<usize>)
        ensures
            match r {
                Some(i) => i == tab_place(self.tabs@, tab_id) && i < self.tabs@.len()
                    && self.tabs@[i as int].tab_id == tab_id,
                None => tab_place(self.tabs@, tab_id) == self.tabs@.len(),
            },
    {
        let mut i: usize = 0;
        while i < self.tabs.len()
            invariant
                i <= self.tabs@.len(),
                forall|j: int| 0 <= j < i ==> (#[trigger] self.tabs@[j]).tab_id != tab_id,
            decreases self.tabs@.len() - i,
        {
            if self.tabs[i].tab_id == tab_id {
                proof {
                    lemma_tab_place_is(self.tabs@, tab_id, i as int);
                }
                return Some(i);
            }
            i += 1;
        }
        proof {
            lemma_tab_place_is(self.tabs@, tab_id, i as int);
        }
        None
    }

    pub fn find_tab(&self, tab_id: u64) -> (r: Option<&TerminalTab>)
        ensures
            match r {
                Some(tab) => tab_of(self.tabs@, tab_id) == Some(*tab),
                None => tab_of(self.tabs@, tab_id) is None,
            },
    {
        match self.position(tab_id) {
            Some(i) => Some(&self.tabs[i]),
            None => None,
        }
    }

    /// The tab of an id, to be changed in its place.
    pub fn find_tab_mut(&mut self, tab_id: u64) -> (r: Option<&mut TerminalTab>)
        ensures
            match r {
                Some(tab) => {
                    let i = tab_place(old(self).tabs@, tab_id);
                    &&& i < old(self).tabs@.len()
                    &&& *tab == old(self).tabs@[i]
                    &&& final(self).tabs@ == old(self).tabs@.update(i, *final(tab))
                    &&& final(self).same_workspace(*old(self))
                    &&& final(self).active_tab == old(self).active_tab
                },
                None => tab_of(old(self).tabs@, tab_id) is None && *final(self) == *old(self),
            },
    {
        match self.position(tab_id) {
            Some(i) => Some(&mut self.tabs[i]),
            None => None,
        }
    }

    pub fn active_tab_ref(&self) -> (r: Option<&TerminalTab>)
        ensures
            match r {
                Some(tab) => self.active_tab < self.tabs@.len() && *tab
                    == self.tabs@[self.active_tab as int],
                None => self.active_tab >= self.tabs@.len(),
            },
    {
        if self.active_tab < self.tabs.len() {
            Some(&self.tabs[self.active_tab])
        } else {
            None
        }
    }

    /// Whether an agent's sandbox is up in one of the tabs.
    pub fn has_sandbox(&self) -> (r: bool)
        ensures
            r == any_sandbox(self.tabs@),
    {
        let mut i: usize = 0;
        while i < self.tabs.len()
            invariant
                i <= self.tabs@.len(),
                forall|j: int| 0 <= j < i ==> !(#[trigger] self.tabs@[j]).kind.is_ready_agent(),
            decreases self.tabs@.len() - i,
        {
            if self.tabs[i].kind.ready_agent() {
                return true;
            }
            i += 1;
        }
        false
    }

    /// Closes a tab, with an agent's tab also the shells in its sandbox. The last tab that stays
    /// comes to the front.
    pub fn remove_tab(&mut self, tab_id: u64) -> (events: Vec<SessionEvent>)
        ensures
            ({
                let is_agent = tab_of(old(self).tabs@, tab_id) matches Some(tab)
                    && tab.kind is Agent;
                final(self).tabs@ == staying(old(self).tabs@, tab_id, is_agent)
            }),
            final(self).active_tab == (if final(self).tabs@.len() == 0 {
                0
            } else {
                final(self).tabs@.len() - 1
            }),
            final(self).same_workspace(*old(self)),
            events@ == removal_events(tab_id, final(self).tabs@),
    {
        let is_agent = match self.find_tab(tab_id) {
            Some(tab) => match &tab.kind {
                TabKind::Agent { .. } => true,
                _ => false,
            },
            None => false,
        };
        let ghost all = self.tabs@;
        let n: usize = self.tabs.len();
        let mut done: usize = 0;
        let mut i: usize = 0;
        assert(all.take(0) =~= seq![]);
        assert(self.tabs@ =~= staying(all.take(0), tab_id, is_agent) + all.skip(0));
        while done < n
            invariant
                i <= done <= n == all.len(),
                i == staying(all.take(done as int), tab_id, is_agent).len(),
                self.tabs@ == staying(all.take(done as int), tab_id, is_agent) + all.skip(
                    done as int,
                ),
                self.same_workspace(*old(self)),
            decreases n - done,
        {
            let ghost kept = staying(all.take(done as int), tab_id, is_agent);
            assert(self.tabs@[i as int] == all[done as int]);
            assert(all.take(done + 1).drop_last() =~= all.take(done as int));
            let goes = self.tabs[i].tab_id == tab_id || (is_agent && self.tabs[i].kind.child_of(
                tab_id,
            ));
            if goes {
                let _gone = self.tabs.remove(i);
                assert(self.tabs@ =~= kept + all.skip(done + 1));
            } else {
                i += 1;
                assert(self.tabs@ =~= kept.push(all[done as int]) + all.skip(done + 1));
            }
            done += 1;
        }
        assert(all.take(done as int) =~= all);
        assert(self.tabs@ =~= staying(all, tab_id, is_agent));
        self.active_tab = if self.tabs.len() == 0 {
            0
        } else {
            self.tabs.len() - 1
        };
        let mut events: Vec<SessionEvent> = Vec::new();
        events.push(SessionEvent::TabRemoved { tab_id });
        if !self.has_sandbox() {
            events.push(SessionEvent::NoSandboxRemaining);
        }
        assert(events@ =~= removal_events(tab_id, self.tabs@));
        events
    }

    /// Closes the shells in the sandbox of an agent's tab. The place in front stays.
    pub fn remove_children(&mut self, tab_id: u64)
        ensures
            final(self).tabs@ == without_children(old(self).tabs@, tab_id),
            final(self).active_tab == old(self).active_tab,
            final(self).same_workspace(*old(self)),
    {
        let ghost all = self.tabs@;
        let n: usize = self.tabs.len();
        let mut done: usize = 0;
        let mut i: usize = 0;
        assert(all.take(0) =~= seq![]);
        assert(self.tabs@ =~= without_children(all.take(0), tab_id) + all.skip(0));
        while done < n
            invariant
                i <= done <= n == all.len(),
                i == without_children(all.take(done as int), tab_id).len(),
                self.tabs@ == without_children(all.take(done as int), tab_id) + all.skip(
                    done as int,
                ),
                self.active_tab == old(self).active_tab,
                self.same_workspace(*old(self)),
            decreases n - done,
        {
            let ghost kept = without_children(all.take(done as int), tab_id);
            assert(self.tabs@[i as int] == all[done as int]);
            assert(all.take(done + 1).drop_last() =~= all.take(done as int));
            if self.tabs[i].kind.child_of(tab_id) {
                let _gone = self.tabs.remove(i);
                assert(self.tabs@ =~= kept + all.skip(done + 1));
            } else {
                i += 1;
                assert(self.tabs@ =~= kept.push(all[done as int]) + all.skip(done + 1));
            }
            done += 1;
        }
        assert(all.take(done as int) =~= all);
        assert(self.tabs@ =~= without_children(all, tab_id));
    }

    /// The sandbox that belongs to what is in front.
    pub open spec fn sandbox_in_front(self) -> Option<usize> {
        if self.active_tab < self.tabs@.len() {
            match self.tabs@[self.active_tab as int].kind {
                TabKind::Agent { sandbox: Some(sb), .. } => Some(sb),
                TabKind::Shell { sandbox, .. } => Some(sandbox),
                TabKind::HostShell => None,
                _ => first_sandbox(self.tabs@),
            }
        } else {
            first_sandbox(self.tabs@)
        }
    }

    /// The sandbox of the tab in front, else that of any agent. A host shell has none.
    pub fn active_sandbox(&self) -> (r: Option<usize>)
        ensures
            r == self.sandbox_in_front(),
    {
        if self.active_tab < self.tabs.len() {
            match &self.tabs[self.active_tab].kind {
                TabKind::Agent { sandbox: Some(sb), .. } => return Some(*sb),
                TabKind::Shell { sandbox, .. } => return Some(*sandbox),
                TabKind::HostShell => return None,
                _ => {},
            }
        }
        let mut i: usize = 0;
        assert(self.tabs@.skip(0) =~= self.tabs@);
        while i < self.tabs.len()
            invariant
                i <= self.tabs@.len(),
                self.sandbox_in_front() == first_sandbox(self.tabs@),
                first_sandbox(self.tabs@) == first_sandbox(self.tabs@.skip(i as int)),
            decreases self.tabs@.len() - i,
        {
            assert(self.tabs@.skip(i as int).drop_first() =~= self.tabs@.skip(i + 1));
            if let TabKind::Agent { sandbox: Some(sb), .. } = &self.tabs[i].kind {
                return Some(*sb);
            }
            i += 1;
        }
        None
    }

    /// Tells that the sandbox of a tab is up.
    pub fn sandbox_ready(&self, tab_id: u64) -> (event: SessionEvent)
        ensures
            event == (SessionEvent::SandboxReady { tab_id }),
    {
        SessionEvent::SandboxReady { tab_id }
    }

    /// Everything but one tab is as before.
    pub open spec fn only_tab_changed(self, before: Self, i: int) -> bool {
        &&& self.same_workspace(before)
        &&& self.active_tab == before.active_tab
        &&& self.tabs@.len() == before.tabs@.len()
        &&& forall|j: int|
            0 <= j < self.tabs@.len() && j != i ==> #[trigger] self.tabs@[j] == before.tabs@[j]
    }

    /// A step of a tab's preparation after its status was set.
    pub open spec fn step_set(
        self,
        before: Self,
        tab_id: u64,
        idx: usize,
        status: StepStatus,
    ) -> bool {
        let i = tab_place(before.tabs@, tab_id);
        &&& self.only_tab_changed(before, i)
        &&& i < before.tabs@.len() ==> {
            let tab = before.tabs@[i];
            &&& self.tabs@[i] == (TerminalTab { setup_steps: self.tabs@[i].setup_steps, ..tab })
            &&& self.tabs@[i].steps() == (match tab.steps() {
                Some(steps) => Some(with_status(steps, idx as int, status)),
                None => None,
            })
        }
    }

    /// Sets the status of a step of a tab's preparation. A tab or step that is not there is
    /// passed over.
    pub fn set_step(&mut self, tab_id: u64, idx: usize, status: StepStatus)
        ensures
            final(self).step_set(*old(self), tab_id, idx, status),
    {
        if let Some(i) = self.position(tab_id) {
            if let Some(steps) = &mut self.tabs[i].setup_steps {
                if idx < steps.len() {
                    steps[idx].status = status;
                }
            }
        }
    }

    /// A step of a tab has another label, and nothing else changed.
    pub open spec fn label_set(
        self,
        before: WorkspaceSession,
        tab_id: u64,
        idx: usize,
        label: String,
    ) -> bool {
        let i = tab_place(before.tabs@, tab_id);
        &&& self.only_tab_changed(before, i)
        &&& i < before.tabs@.len() ==> {
            let tab = before.tabs@[i];
            &&& self.tabs@[i] == (TerminalTab { setup_steps: self.tabs@[i].setup_steps, ..tab })
            &&& self.tabs@[i].steps() == (match tab.steps() {
                Some(steps) => Some(
                    if idx < steps.len() {
                        steps.update(
                            idx as int,
                            SetupStep { label, status: steps[idx as int].status },
                        )
                    } else {
                        steps
                    },
                ),
                None => None,
            })
        }
    }

    /// Sets the label of a step of a tab's preparation. A tab or step that is not there is
    /// passed over.
    pub fn update_step_label(&mut self, tab_id: u64, step_idx: usize, label: String)
        ensures
            final(self).label_set(*old(self), tab_id, step_idx, label),
    {
        if let Some(i) = self.position(tab_id) {
            if let Some(steps) = &mut self.tabs[i].setup_steps {
                if step_idx < steps.len() {
                    steps[step_idx].label = label;
                }
            }
        }
    }

    /// A step is done and another one begins.
    pub fn advance_step(&mut self, tab_id: u64, done_idx: usize, next_idx: usize)
        ensures
            exists|mid: WorkspaceSession| #[trigger]
                mid.step_set(*old(self), tab_id, done_idx, StepStatus::Done) && final(
                    self).step_set(mid, tab_id, next_idx, StepStatus::Active),
    {
        self.set_step(tab_id, done_idx, StepStatus::Done);
        let ghost mid = *self;
        self.set_step(tab_id, next_idx, StepStatus::Active);
        assert(mid.step_set(*old(self), tab_id, done_idx, StepStatus::Done));
    }

    /// A step failed, and the tab says why.
    pub fn fail_setup(&mut self, tab_id: u64, step_idx: usize, error: String)
        ensures
            ({
                let i = tab_place(old(self).tabs@, tab_id);
                exists|mid: WorkspaceSession| #[trigger]
                    mid.step_set(*old(self), tab_id, step_idx, StepStatus::Failed) && final(
                        self).only_tab_changed(mid, i) && (i < mid.tabs@.len() ==> final(
                        self).tabs@[i] == (TerminalTab {
                        setup_error: Some(error),
                        ..mid.tabs@[i]
                    }))
            }),
    {
        self.set_step(tab_id, step_idx, StepStatus::Failed);
        let ghost mid = *self;
        proof {
            lemma_tab_place(old(self).tabs@, tab_id);
            let i = tab_place(old(self).tabs@, tab_id);
            assert forall|j: int| 0 <= j < i implies (#[trigger] mid.tabs@[j]).tab_id != tab_id by {
                assert(mid.tabs@[j] == old(self).tabs@[j]);
            }
            lemma_tab_place_is(mid.tabs@, tab_id, i);
        }
        if let Some(i) = self.position(tab_id) {
            self.tabs[i].setup_error = Some(error);
        }
        assert(mid.step_set(*old(self), tab_id, step_idx, StepStatus::Failed));
    }

    /// Moves a tab to another place and brings it to the front. Places that are not there, and a
    /// tab dropped on itself, change nothing.
    pub fn move_tab(&mut self, from: usize, to: usize)
        ensures
            final(self).same_workspace(*old(self)),
            ({
                let moves = from != to && from < old(self).tabs@.len() && to < old(
                    self).tabs@.len();
                &&& !moves ==> *final(self) == *old(self)
                &&& moves ==> final(self).tabs@ == old(self).tabs@.remove(from as int).insert(
                    to as int,
                    old(self).tabs@[from as int],
                ) && final(self).active_tab == to
            }),
    {
        if from != to && from < self.tabs.len() && to < self.tabs.len() {
            let tab = self.tabs.remove(from);
            self.tabs.insert(to, tab);
            self.active_tab = to;
        }
    }
}

proof fn lemma_staying(tabs: Seq<TerminalTab>, tab_id: u64, with_children: bool)
    ensures
        forall|i: int|
            0 <= i < staying(tabs, tab_id, with_children).len() ==> !goes_with(
                #[trigger] staying(tabs, tab_id, with_children)[i],
                tab_id,
                with_children,
            ) && tabs.contains(staying(tabs, tab_id, with_children)[i]),
        forall|tab: TerminalTab| #[trigger]
            tabs.contains(tab) && !goes_with(tab, tab_id, with_children) ==> staying(
                tabs,
                tab_id,
                with_children,
            ).contains(tab),
    decreases tabs.len(),
{
    if tabs.len() > 0 {
        let rest = tabs.drop_last();
        lemma_staying(rest, tab_id, with_children);
        let before = staying(rest, tab_id, with_children);
        let now = staying(tabs, tab_id, with_children);
        assert forall|i: int| 0 <= i < now.len() implies !goes_with(
            #[trigger] now[i],
            tab_id,
            with_children,
        ) && tabs.contains(now[i]) by {
            if i < before.len() {
                assert(now[i] == before[i]);
                let j = choose|j: int| 0 <= j < rest.len() && rest[j] == before[i];
                assert(tabs[j] == before[i]);
            } else {
                assert(tabs[tabs.len() - 1] == now[i]);
            }
        }
        assert forall|tab: TerminalTab| #[trigger]
            tabs.contains(tab) && !goes_with(tab, tab_id, with_children) implies now.contains(
            tab,
        ) by {
            let j = choose|j: int| 0 <= j < tabs.len() && tabs[j] == tab;
            if j < rest.len() {
                assert(rest[j] == tab);
                assert(rest.contains(tab));
                let k = choose|k: int| 0 <= k < before.len() && before[k] == tab;
                assert(now[k] == tab);
            } else {
                assert(now[now.len() - 1] == tab);
            }
        }
    }
}

/// After the tab of an id is closed no tab has that id, with an agent's tab no shell is left in
/// its sandbox, and every other tab is still there.
pub proof fn law_closed_tab_is_gone(tabs: Seq<TerminalTab>, tab_id: u64, with_children: bool)
    ensures
        forall|i: int|
            0 <= i < staying(tabs, tab_id, with_children).len() ==> (#[trigger] staying(
                tabs,
                tab_id,
                with_children,
            )[i]).tab_id != tab_id && (with_children ==> !staying(
                tabs,
                tab_id,
                with_children,
            )[i].kind.is_child_of(tab_id)),
        forall|tab: TerminalTab| #[trigger]
            tabs.contains(tab) && !goes_with(tab, tab_id, with_children) ==> staying(
                tabs,
                tab_id,
                with_children,
            ).contains(tab),
        tab_of(staying(tabs, tab_id, with_children), tab_id) is None,
{
    lemma_staying(tabs, tab_id, with_children);
    lemma_tab_place(staying(tabs, tab_id, with_children), tab_id);
}

proof fn lemma_remaining_is_filter(
    tabs: Seq<TerminalTab>,
    goes: spec_fn(TerminalTab) -> bool,
    stays: spec_fn(TerminalTab) -> bool,
)
    requires
        forall|tab: TerminalTab| stays(tab) == !#[trigger] goes(tab),
    ensures
        remaining(tabs, goes) == tabs.filter(stays),
    decreases tabs.len(),
{
    reveal(Seq::filter);
    if tabs.len() > 0 {
        lemma_remaining_is_filter(tabs.drop_last(), goes, stays);
        assert(goes(tabs.last()) == !stays(tabs.last()));
    }
}

/// When a tab is closed, exactly the tabs of other ids stay, in their order; with an agent's tab
/// the shells whose parent it is go too, and no other.
pub proof fn law_what_a_closed_tab_takes_along(tabs: Seq<TerminalTab>, tab_id: u64)
    ensures
        staying(tabs, tab_id, false) == tabs.filter(|tab: TerminalTab| tab.tab_id != tab_id),
        staying(tabs, tab_id, true) == tabs.filter(
            |tab: TerminalTab|
                tab.tab_id != tab_id && (tab.kind matches TabKind::Shell { parent_agent_tab_id, .. }
                    ==> parent_agent_tab_id != tab_id),
        ),
        without_children(tabs, tab_id) == tabs.filter(
            |tab: TerminalTab|
                tab.kind matches TabKind::Shell { parent_agent_tab_id, .. } ==> parent_agent_tab_id
                    != tab_id,
        ),
{
    lemma_remaining_is_filter(
        tabs,
        |tab: TerminalTab| goes_with(tab, tab_id, false),
        |tab: TerminalTab| tab.tab_id != tab_id,
    );
    lemma_remaining_is_filter(
        tabs,
        |tab: TerminalTab| goes_with(tab, tab_id, true),
        |tab: TerminalTab|
            tab.tab_id != tab_id && (tab.kind matches TabKind::Shell { parent_agent_tab_id, .. }
                ==> parent_agent_tab_id != tab_id),
    );
    lemma_remaining_is_filter(
        tabs,
        |tab: TerminalTab| tab.kind.is_child_of(tab_id),
        |tab: TerminalTab|
            tab.kind matches TabKind::Shell { parent_agent_tab_id, .. } ==> parent_agent_tab_id
                != tab_id,
    );
}

/// A tab is found by its id wherever it stands, and of several the first.
pub proof fn law_first_of_an_id_is_found(tabs: Seq<TerminalTab>, tab_id: u64, i: int)
    requires
        0 <= i < tabs.len(),
    ensures
        tabs[i].tab_id == tab_id ==> tab_of(tabs, tab_id) is Some,
        tab_of(tabs, tab_id) matches Some(tab) ==> tab.tab_id == tab_id && tabs.contains(tab),
        tabs[i].tab_id == tab_id && (forall|j: int|
            0 <= j < i ==> (#[trigger] tabs[j]).tab_id != tab_id) ==> tab_of(tabs, tab_id) == Some(
            tabs[i],
        ),
{
    lemma_tab_place(tabs, tab_id);
    let k = tab_place(tabs, tab_id);
    if k < tabs.len() {
        assert(tabs.contains(tabs[k]));
    }
}

/// The sandbox that is fallen back on is that of the first agent whose sandbox is up; there is none
/// only where no agent has one.
pub proof fn law_first_sandbox(tabs: Seq<TerminalTab>, i: int)
    requires
        0 <= i < tabs.len(),
        forall|j: int|
            0 <= j < i ==> !((#[trigger] tabs[j]).kind is Agent && tabs[j].kind->Agent_sandbox is Some),
    ensures
        tabs[i].kind is Agent && tabs[i].kind->Agent_sandbox is Some ==> first_sandbox(tabs)
            == tabs[i].kind->Agent_sandbox,
        i + 1 == tabs.len() && !(tabs[i].kind is Agent && tabs[i].kind->Agent_sandbox is Some)
            ==> first_sandbox(tabs) is None,
    decreases tabs.len(),
{
    if i > 0 {
        assert(!(tabs[0].kind is Agent && tabs[0].kind->Agent_sandbox is Some));
        let rest = tabs.drop_first();
        assert(rest[i - 1] == tabs[i]);
        assert forall|j: int| 0 <= j < i - 1 implies !((#[trigger] rest[j]).kind is Agent
            && rest[j].kind->Agent_sandbox is Some) by {
            assert(rest[j] == tabs[j + 1]);
        }
        law_first_sandbox(rest, i - 1);
    } else if tabs.len() == 1 {
        assert(tabs.drop_first().len() == 0);
        assert(first_sandbox(tabs.drop_first()) is None);
    }
}

/// What is in front decides: an agent's own sandbox, a shell's, and none for a shell on the host,
/// whatever else is open. Only an agent without a sandbox, or nothing in front, is stood in for by
/// the first agent that has one.
pub proof fn law_sandbox_goes_with_the_front(s: WorkspaceSession)
    ensures
        s.active_tab < s.tabs@.len() ==> {
            let kind = s.tabs@[s.active_tab as int].kind;
            &&& kind is HostShell ==> s.sandbox_in_front() is None
            &&& kind matches TabKind::Shell { sandbox, .. } ==> s.sandbox_in_front() == Some(
                sandbox,
            )
            &&& kind matches TabKind::Agent { sandbox, .. } ==> (sandbox is Some
                ==> s.sandbox_in_front() == sandbox) && (sandbox is None ==> s.sandbox_in_front()
                == first_sandbox(s.tabs@))
        },
        s.active_tab >= s.tabs@.len() ==> s.sandbox_in_front() == first_sandbox(s.tabs@),
{
}

/// The end of the last sandbox is told exactly when a tab goes and no agent with a sandbox stays,
/// and it is told after the tab.
pub proof fn law_last_sandbox_is_told(tab_id: u64, rest: Seq<TerminalTab>)
    ensures
        removal_events(tab_id, rest)[0] == (SessionEvent::TabRemoved { tab_id }),
        removal_events(tab_id, rest).contains(SessionEvent::NoSandboxRemaining) <==> forall|i: int|
            0 <= i < rest.len() ==> !((#[trigger] rest[i]).kind is Agent
                && rest[i].kind->Agent_sandbox is Some),
{
    let events = removal_events(tab_id, rest);
    if any_sandbox(rest) {
        let i = choose|i: int| 0 <= i < rest.len() && (#[trigger] rest[i]).kind.is_ready_agent();
        assert(rest[i].kind is Agent && rest[i].kind->Agent_sandbox is Some);
        if events.contains(SessionEvent::NoSandboxRemaining) {
            let k = choose|k: int|
                0 <= k < events.len() && events[k] == SessionEvent::NoSandboxRemaining;
            assert(k == 0);
        }
    } else {
        assert(events[1] == SessionEvent::NoSandboxRemaining);
        assert forall|i: int| 0 <= i < rest.len() implies !((#[trigger] rest[i]).kind is Agent
            && rest[i].kind->Agent_sandbox is Some) by {
            assert(!rest[i].kind.is_ready_agent());
        }
    }
}

/// A status that needs an answer counts more than one that runs, that more than one that is ready,
/// and one that is not known least.
pub proof fn law_what_presses_more(
    unknown: AgentStatus,
    idle: AgentStatus,
    running: AgentStatus,
    asking: AgentStatus,
)
    requires
        unknown is Unknown,
        idle is Idle,
        running is Running,
        asking is NeedsInput,
    ensures
        unknown.weight() < idle.weight() < running.weight() < asking.weight(),
        unknown.weight() == 0,
{
}

/// What an agent asks is shown as it asks it, whoever else asks. Every other status that is known
/// is told of the agents by name, and one that is not known is not told.
pub proof fn law_status_is_told(status: AgentStatus, names: Seq<Seq<char>>)
    ensures
        status_text(status, names) is None <==> status is Unknown,
        status matches AgentStatus::NeedsInput { message: Some(m) } ==> (m@.len() > 0
            ==> status_text(status, names) == Some(m@)),
        status matches AgentStatus::NeedsInput { message: Some(m) } ==> (m@.len() == 0
            ==> names_label(names).is_prefix_of(status_text(status, names)->0)),
        status is Running || status is Idle ==> names_label(names).is_prefix_of(
            status_text(status, names)->0,
        ),
        names.len() == 1 ==> names_label(names) == names[0],
        names.len() <= 1 && status is Running ==> status_text(status, names) == Some(
            names_label(names) + " is running"@,
        ),
        names.len() <= 1 && status is Idle ==> status_text(status, names) == Some(
            names_label(names) + " is ready"@,
        ),
        names.len() > 1 && status is Running ==> status_text(status, names) == Some(
            names_label(names) + " are running"@,
        ),
        names.len() > 1 && status is Idle ==> status_text(status, names) == Some(
            names_label(names) + " are ready"@,
        ),
{
    if names.len() == 1 {
        reveal_with_fuel(text::joined, 2);
        assert(text::joined(names, ", "@) =~= names[0]);
    }
}

/// Setting the status of a step changes that status and nothing else: no label, no other step, no
/// other tab, and not what is in front.
pub proof fn law_step_changes_alone(
    after: WorkspaceSession,
    before: WorkspaceSession,
    tab_id: u64,
    idx: usize,
    status: StepStatus,
    i: int,
    k: int,
)
    requires
        after.step_set(before, tab_id, idx, status),
        0 <= i < before.tabs@.len(),
    ensures
        after.tabs@.len() == before.tabs@.len(),
        after.active_tab == before.active_tab,
        before.tabs@[i].tab_id != tab_id ==> after.tabs@[i] == before.tabs@[i],
        after.tabs@[i].tab_id == before.tabs@[i].tab_id,
        after.tabs@[i].label == before.tabs@[i].label,
        after.tabs@[i].terminal == before.tabs@[i].terminal,
        tab_of(before.tabs@, tab_id) == Some(before.tabs@[i]) && i == tab_place(
            before.tabs@,
            tab_id,
        ) && before.tabs@[i].setup_steps is Some ==> {
            let a = after.tabs@[i].setup_steps;
            let b = before.tabs@[i].setup_steps->0@;
            &&& a is Some
            &&& a->0@.len() == b.len()
            &&& 0 <= k < b.len() ==> a->0@[k].label == b[k].label && a->0@[k].status == (if k
                == idx {
                status
            } else {
                b[k].status
            })
        },
{
    lemma_tab_place(before.tabs@, tab_id);
}

/// A step that gets another label keeps its status, and nothing else changes.
pub proof fn law_label_changes_alone(
    after: WorkspaceSession,
    before: WorkspaceSession,
    tab_id: u64,
    idx: usize,
    label: String,
    i: int,
    k: int,
)
    requires
        after.label_set(before, tab_id, idx, label),
        0 <= i < before.tabs@.len(),
    ensures
        after.tabs@.len() == before.tabs@.len(),
        after.active_tab == before.active_tab,
        before.tabs@[i].tab_id != tab_id ==> after.tabs@[i] == before.tabs@[i],
        after.tabs@[i].label == before.tabs@[i].label,
        i == tab_place(before.tabs@, tab_id) && before.tabs@[i].setup_steps is Some ==> {
            let a = after.tabs@[i].setup_steps;
            let b = before.tabs@[i].setup_steps->0@;
            &&& a is Some
            &&& a->0@.len() == b.len()
            &&& 0 <= k < b.len() ==> a->0@[k].status == b[k].status && a->0@[k].label == (if k
                == idx {
                label
            } else {
                b[k].label
            })
        },
{
    lemma_tab_place(before.tabs@, tab_id);
}

} // verus!
