//! What the terminal panel shows.

use crate::terminal::lifecycle::RunningAgent;
use crate::terminal::panel;
use crate::terminal::panel::{Agent, TerminalPanel};
use crate::terminal::session;
use crate::terminal::session::{AgentStatus, TerminalTab, WorkspaceSession};
use crate::terminal::workspace;
use crate::text;
use crate::theme::{Color, ColorRole};
use vstd::prelude::*;

verus! {

broadcast use vstd::std_specs::hash::group_hash_axioms;

/// A tab in the tab bar.
#[derive(Debug)]
pub struct TabView {
    pub is_active: bool,
    pub is_stopped: bool,
    pub icon_path: Option<String>,
    pub color: Option<Color>,
    pub tab_id: u64,
    pub display_label: String,
    /// The colour of the dot for an agent that runs or waits.
    pub dot: Option<ColorRole>,
    /// The key that brings the tab to the front.
    pub badge: Option<String>,
    pub text_color: Option<ColorRole>,
    pub background: Option<ColorRole>,
}

/// The label of a tab, with a note while it is being prepared.
pub open spec fn label_in_bar(tab: TerminalTab) -> Seq<char> {
    if tab.setup_steps is Some {
        tab.label@ + " (initializing...)"@
    } else {
        tab.label@
    }
}

/// Whether a tab is stopped.
pub open spec fn tab_stopped(tab: TerminalTab) -> bool {
    tab.checkpoint_name is Some && tab.terminal is None
}

/// `view` shows `tab` at place `i` where `active` is the place in front.
pub open spec fn shows_tab(
    view: TabView,
    tab: TerminalTab,
    i: int,
    active: usize,
    badges: bool,
) -> bool {
    let stopped = tab_stopped(tab);
    let front = i == active;
    &&& view.is_active == front
    &&& view.is_stopped == stopped
    &&& view.icon_path == tab.icon_path
    &&& view.color == (if stopped {
        None
    } else {
        tab.agent_color
    })
    &&& view.tab_id == tab.tab_id
    &&& view.display_label@ == label_in_bar(tab)
    &&& view.dot == (match tab.agent_status {
        AgentStatus::Running { .. } => Some(ColorRole::AgentRunning),
        AgentStatus::NeedsInput { .. } => Some(ColorRole::AgentNeedsInput),
        _ => None,
    })
    &&& workspace::opt(view.badge) == (if badges && i < 9 {
        Some("\u{2303}"@ + text::decimal((i + 1) as nat))
    } else {
        None
    })
    &&& view.text_color == (if stopped {
        None
    } else if front {
        Some(ColorRole::TextSecondary)
    } else {
        Some(ColorRole::TextDim)
    })
    &&& view.background == (if front && !stopped {
        Some(ColorRole::BgSelected)
    } else {
        None
    })
}

fn tab_view(tab: &TerminalTab, i: usize, active: usize, badges: bool) -> (view: TabView)
    ensures
        shows_tab(view, *tab, i as int, active, badges),
{
    let stopped = tab.is_stopped();
    let front = i == active;
    let mut display_label = tab.label.clone();
    if tab.is_setting_up() {
        display_label.append(" (initializing...)");
    }
    let badge = if badges && i < 9 {
        let mut s = "\u{2303}".to_owned();
        text::push_decimal(&mut s, i as u64 + 1);
        Some(s)
    } else {
        None
    };
    TabView {
        is_active: front,
        is_stopped: stopped,
        icon_path: text::copy_optional(&tab.icon_path),
        color: if stopped {
            None
        } else {
            tab.agent_color
        },
        tab_id: tab.tab_id,
        display_label,
        dot: match &tab.agent_status {
            AgentStatus::Running { .. } => Some(ColorRole::AgentRunning),
            AgentStatus::NeedsInput { .. } => Some(ColorRole::AgentNeedsInput),
            _ => None,
        },
        badge,
        text_color: if stopped {
            None
        } else if front {
            Some(ColorRole::TextSecondary)
        } else {
            Some(ColorRole::TextDim)
        },
        background: if front && !stopped {
            Some(ColorRole::BgSelected)
        } else {
            None
        },
    }
}

/// The tab bar of a session.
pub fn tab_views(s: &WorkspaceSession, badges: bool) -> (views: Vec<TabView>)
    ensures
        views@.len() == s.tabs@.len(),
        forall|i: int|
            0 <= i < views@.len() ==> shows_tab(
                #[trigger] views@[i],
                s.tabs@[i],
                i,
                s.active_tab,
                badges,
            ),
{
    let mut views: Vec<TabView> = Vec::new();
    let mut i: usize = 0;
    while i < s.tabs.len()
        invariant
            i <= s.tabs@.len(),
            views@.len() == i,
            forall|j: int|
                0 <= j < i ==> shows_tab(
                    #[trigger] views@[j],
                    s.tabs@[j],
                    j,
                    s.active_tab,
                    badges,
                ),
        decreases s.tabs@.len() - i,
    {
        views.push(tab_view(&s.tabs[i], i, s.active_tab, badges));
        i += 1;
    }
    views
}

/// An item of the menu.
#[derive(Debug)]
pub struct MenuItem {
    pub id: String,
    pub label: String,
    pub icon: Option<String>,
    pub color: Option<Color>,
    pub enabled: bool,
    pub focused: bool,
}

/// How many items of the menu can be chosen by key.
pub open spec fn menu_total(running: int, agents: int) -> int {
    running + agents
}

/// The marked item: the one that was moved to, or the last.
pub open spec fn menu_focus(index: int, total: int) -> int {
    let last = if total > 0 {
        total - 1
    } else {
        0
    };
    if index < last {
        index
    } else {
        last
    }
}

/// An item for a shell in the sandbox of a running agent.
pub open spec fn shows_shell(
    item: MenuItem,
    running: Seq<RunningAgent>,
    i: int,
    focus: int,
) -> bool {
    &&& item.id@ == (if running.len() == 1 {
        "menu-shell"@
    } else {
        "menu-shell-"@ + text::decimal(i as nat)
    })
    &&& item.label@ == "Shell ("@ + running[i].name@ + ")"@
    &&& workspace::opt(item.icon) == Some("icons/agents/shell.svg"@)
    &&& item.color is None
    &&& item.enabled
    &&& item.focused == (i == focus)
}

/// An item for an agent, at place `at` among the items that can be chosen.
pub open spec fn shows_agent(item: MenuItem, agent: Agent, at: int, focus: int) -> bool {
    &&& item.id@ == "menu-agent-"@ + text::lowercase(agent.display_name@)
    &&& item.label@ == agent.display_name@
    &&& item.icon == agent.icon
    &&& item.color == panel::agent_color(agent)
    &&& item.enabled
    &&& item.focused == (at == focus)
}

/// The item that stands for shells while no agent runs.
pub open spec fn is_disabled_shell(item: MenuItem) -> bool {
    &&& item.id@ == "menu-shell-disabled"@
    &&& item.label@ == "Shell"@
    &&& workspace::opt(item.icon) == Some("icons/agents/shell.svg"@)
    &&& item.color is None
    &&& !item.enabled
    &&& !item.focused
}

/// The menu: first the shells, of which the note that there are none is one item, then the agents.
#[derive(Debug)]
pub struct MenuView {
    pub shells: Vec<MenuItem>,
    pub agents: Vec<MenuItem>,
    /// How many items can be chosen by key.
    pub total: usize,
}

impl TerminalPanel {
    /// `menu` shows the shells of the running agents and the agents.
    pub open spec fn shows_menu(self, menu: MenuView, running: Seq<RunningAgent>) -> bool {
        let n = running.len() as int;
        let focus = menu_focus(
            self.agent_menu_index as int,
            menu_total(n, self.agents@.len() as int),
        );
        &&& menu.total == menu_total(n, self.agents@.len() as int)
        &&& n == 0 ==> menu.shells@.len() == 1 && is_disabled_shell(menu.shells@[0])
        &&& n > 0 ==> menu.shells@.len() == n && forall|i: int|
            0 <= i < n ==> shows_shell(#[trigger] menu.shells@[i], running, i, focus)
        &&& menu.agents@.len() == self.agents@.len()
        &&& forall|i: int|
            0 <= i < menu.agents@.len() ==> shows_agent(
                #[trigger] menu.agents@[i],
                self.agents@[i],
                n + i,
                focus,
            )
    }

    /// The menu, while it is open.
    pub fn menu_view(&self, running: &Vec<RunningAgent>) -> (r: Option<MenuView>)
        requires
            panel::colors_readable(self.agents@),
            running@.len() + self.agents@.len() <= usize::MAX,
        ensures
            r is Some == self.show_agent_menu,
            r matches Some(menu) ==> self.shows_menu(menu, running@),
    {
        if !self.show_agent_menu {
            return None;
        }
        let n: usize = running.len();
        let total: usize = n + self.agents.len();
        let last: usize = if total > 0 {
            total - 1
        } else {
            0
        };
        let focus: usize = if self.agent_menu_index < last {
            self.agent_menu_index
        } else {
            last
        };
        let mut shells: Vec<MenuItem> = Vec::new();
        if n == 0 {
            shells.push(
                MenuItem {
                    id: "menu-shell-disabled".to_owned(),
                    label: "Shell".to_owned(),
                    icon: Some("icons/agents/shell.svg".to_owned()),
                    color: None,
                    enabled: false,
                    focused: false,
                },
            );
        }
        let mut i: usize = 0;
        while i < n
            invariant
                i <= n == running@.len(),
                n > 0 ==> shells@.len() == i,
                n == 0 ==> shells@.len() == 1 && is_disabled_shell(shells@[0]),
                forall|j: int|
                    0 <= j < i ==> shows_shell(
                        #[trigger] shells@[j],
                        running@,
                        j,
                        focus as int,
                    ),
            decreases n - i,
        {
            let mut id = "menu-shell".to_owned();
            if n != 1 {
                id = "menu-shell-".to_owned();
                text::push_decimal(&mut id, i as u64);
            }
            let label = text::concat3("Shell (", running[i].name.as_str(), ")");
            shells.push(
                MenuItem {
                    id,
                    label,
                    icon: Some("icons/agents/shell.svg".to_owned()),
                    color: None,
                    enabled: true,
                    focused: i == focus,
                },
            );
            i += 1;
        }
        let mut agents: Vec<MenuItem> = Vec::new();
        let mut i: usize = 0;
        while i < self.agents.len()
            invariant
                i <= self.agents@.len(),
                n + self.agents@.len() <= usize::MAX,
                panel::colors_readable(self.agents@),
                agents@.len() == i,
                forall|j: int|
                    0 <= j < i ==> shows_agent(
                        #[trigger] agents@[j],
                        self.agents@[j],
                        n + j,
                        focus as int,
                    ),
            decreases self.agents@.len() - i,
        {
            let agent = &self.agents[i];
            let mut id = "menu-agent-".to_owned();
            id.append(text::to_lowercase(agent.display_name.as_str()).as_str());
            agents.push(
                MenuItem {
                    id,
                    label: agent.display_name.clone(),
                    icon: text::copy_optional(&agent.icon),
                    color: panel::color_of(agent),
                    enabled: true,
                    focused: n + i == focus,
                },
            );
            i += 1;
        }
        Some(MenuView { shells, agents, total })
    }

    /// The question before a tab is closed, while it is asked.
    pub open spec fn close_text(self) -> Option<Seq<char>> {
        match self.pending_close {
            Some((ws, tab_id)) => Some(
                "Close \u{201C}"@ + (match crate::terminal::lifecycle::tab_in(self, ws, tab_id) {
                    Some(tab) => tab.label@,
                    None => "this tab"@,
                }) + "\u{201D}? Sandbox will be stopped."@,
            ),
            None => None,
        }
    }

    /// The note about missing secrets, which shows where the tab that waits for them is in front
    /// of the active workspace.
    pub open spec fn secrets_text(self) -> Option<Seq<char>> {
        match (self.missing_secrets_prompt, self.active_session()) {
            (Some(prompt), Some(s)) => if s.active_tab < s.tabs@.len()
                && s.tabs@[s.active_tab as int].tab_id == prompt.tab_id {
                Some(
                    "Missing API key for "@ + prompt.agent_name@ + ": "@ + text::joined(
                        text::views(prompt.missing@),
                        ", "@,
                    ),
                )
            } else {
                None
            },
            _ => None,
        }
    }

    /// The question before a tab is closed, while it is asked.
    pub fn close_question(&self) -> (r: Option<String>)
        ensures
            workspace::opt(r) == self.close_text(),
    {
        match self.pending_close {
            Some((ws, tab_id)) => {
                let mut label = "this tab".to_owned();
                if let Some(s) = self.sessions.get(&ws) {
                    if let Some(tab) = s.find_tab(tab_id) {
                        label = tab.label.clone();
                    }
                }
                let mut q = "Close \u{201C}".to_owned();
                q.append(label.as_str());
                q.append("\u{201D}? Sandbox will be stopped.");
                Some(q)
            },
            None => None,
        }
    }

    /// The note about missing secrets. It shows on the tab that waits for them, where that tab is
    /// in front of the active workspace.
    pub fn secrets_note(&self) -> (r: Option<String>)
        ensures
            workspace::opt(r) == self.secrets_text(),
    {
        let prompt = match &self.missing_secrets_prompt {
            Some(p) => p,
            None => return None,
        };
        let ws: i64 = match self.active_workspace_id {
            Some(ws) => ws,
            None => return None,
        };
        let s = match self.sessions.get(&ws) {
            Some(s) => s,
            None => return None,
        };
        match s.active_tab_ref() {
            Some(tab) => {
                if tab.tab_id != prompt.tab_id {
                    return None;
                }
                let mut note = "Missing API key for ".to_owned();
                note.append(prompt.agent_name.as_str());
                note.append(": ");
                note.append(text::join(&prompt.missing, ", ").as_str());
                Some(note)
            },
            None => None,
        }
    }
}

/// The mark of a menu with items stays inside them.
pub proof fn law_menu_mark_inside(index: int, total: int)
    requires
        0 <= index,
        0 < total,
    ensures
        0 <= menu_focus(index, total) < total,
{
}

/// What fills the space under the tab bar.
#[derive(Clone, Copy, Debug, PartialEq, Eq, Structural)]
pub enum ContentPane {
    /// The preparation of the tab in front.
    Setup { tab: usize },
    /// A note that the tab in front is being saved.
    Saving,
    /// The tab in front is stopped and can be continued or removed.
    Stopped { tab_id: u64 },
    /// The terminal of the tab in front.
    Terminal { terminal: u64 },
    /// A note on how to open an agent.
    Empty,
}

/// What fills the space under the tab bar of a session.
pub open spec fn pane_of(s: WorkspaceSession) -> ContentPane {
    if s.active_tab >= s.tabs@.len() {
        ContentPane::Empty
    } else {
        let tab = s.tabs@[s.active_tab as int];
        if tab.setup_steps is Some {
            ContentPane::Setup { tab: s.active_tab }
        } else if tab.checkpointing {
            ContentPane::Saving
        } else if tab_stopped(tab) {
            ContentPane::Stopped { tab_id: tab.tab_id }
        } else {
            match tab.terminal {
                Some(terminal) => ContentPane::Terminal { terminal },
                None => ContentPane::Empty,
            }
        }
    }
}

/// What fills the space under the tab bar of a session.
pub fn content_pane(s: &WorkspaceSession) -> (pane: ContentPane)
    ensures
        pane == pane_of(*s),
{
    match s.active_tab_ref() {
        Some(tab) => if tab.is_setting_up() {
            ContentPane::Setup { tab: s.active_tab }
        } else if tab.checkpointing {
            ContentPane::Saving
        } else if tab.is_stopped() {
            ContentPane::Stopped { tab_id: tab.tab_id }
        } else {
            match tab.terminal {
                Some(terminal) => ContentPane::Terminal { terminal },
                None => ContentPane::Empty,
            }
        },
        None => ContentPane::Empty,
    }
}

/// The text of a pane that only holds a note.
pub fn pane_note(pane: ContentPane) -> (s: Option<&'static str>)
    ensures
        match pane {
            ContentPane::Saving => s matches Some(t) && t@ == "Saving checkpoint\u{2026}"@,
            ContentPane::Stopped { .. } => s matches Some(t) && t@ == "Sandbox stopped"@,
            ContentPane::Empty => s matches Some(t) && t@ == "Click + to open an agent"@,
            _ => s is None,
        },
{
    match pane {
        ContentPane::Saving => Some("Saving checkpoint\u{2026}"),
        ContentPane::Stopped { .. } => Some("Sandbox stopped"),
        ContentPane::Empty => Some("Click + to open an agent"),
        _ => None,
    }
}

/// The bar above a pane: a note, and the labels of its buttons.
#[derive(Debug)]
pub struct PaneBar {
    pub note: &'static str,
    pub go_on: &'static str,
    pub remove: &'static str,
}

/// The bar above a pane, which a stopped tab has.
pub fn pane_bar(pane: ContentPane) -> (bar: Option<PaneBar>)
    ensures
        bar is Some == pane is Stopped,
        bar matches Some(b) ==> b.note@ == "Checkpointed. Sandbox stopped."@ && b.go_on@
            == "Fork & Continue"@ && b.remove@ == "Remove"@,
{
    match pane {
        ContentPane::Stopped { .. } => Some(
            PaneBar {
                note: "Checkpointed. Sandbox stopped.",
                go_on: "Fork & Continue",
                remove: "Remove",
            },
        ),
        _ => None,
    }
}

/// The two lines of the note where no workspace is active.
pub fn no_workspace_note() -> (r: (&'static str, &'static str))
    ensures
        r.0@ == "No workspace selected"@,
        r.1@ == "Create one from the sidebar to get started"@,
{
    ("No workspace selected", "Create one from the sidebar to get started")
}

/// The label of the ports in the status bar, which shows where there are tabs.
pub open spec fn ports_text(has_tabs: bool, count: int) -> Option<Seq<char>> {
    if !has_tabs {
        None
    } else if count > 0 {
        Some("Ports: "@ + text::decimal(count as nat))
    } else {
        Some("Ports"@)
    }
}

/// The label of the ports in the status bar.
pub fn ports_label(has_tabs: bool, mapped: usize, exposed: usize) -> (r: Option<String>)
    requires
        mapped + exposed <= usize::MAX,
    ensures
        workspace::opt(r) == ports_text(has_tabs, mapped + exposed),
{
    if !has_tabs {
        return None;
    }
    let count: usize = mapped + exposed;
    if count > 0 {
        let mut s = "Ports: ".to_owned();
        text::push_decimal(&mut s, count as u64);
        Some(s)
    } else {
        Some("Ports".to_owned())
    }
}

/// What the panel shows as a whole.
#[derive(Debug)]
pub struct PanelView {
    pub tabs: Vec<TabView>,
    pub menu: Option<MenuView>,
    pub close_question: Option<String>,
    pub secrets_note: Option<String>,
    pub pane: ContentPane,
    pub ports: Option<String>,
}

impl TerminalPanel {
    /// What the panel shows: nothing but a note where no workspace is active.
    pub fn view(
        &self,
        running: &Vec<RunningAgent>,
        mapped_ports: usize,
        exposed_ports: usize,
    ) -> (r: Option<PanelView>)
        requires
            panel::colors_readable(self.agents@),
            running@.len() + self.agents@.len() <= usize::MAX,
            mapped_ports + exposed_ports <= usize::MAX,
        ensures
            r is Some == self.active_session() is Some,
            r matches Some(v) ==> (self.active_session() matches Some(s) && {
                &&& v.tabs@.len() == s.tabs@.len()
                &&& forall|i: int|
                    0 <= i < v.tabs@.len() ==> shows_tab(
                        #[trigger] v.tabs@[i],
                        s.tabs@[i],
                        i,
                        s.active_tab,
                        self.show_tab_badges,
                    )
                &&& v.menu is Some == self.show_agent_menu
                &&& v.menu matches Some(menu) ==> self.shows_menu(menu, running@)
                &&& workspace::opt(v.close_question) == self.close_text()
                &&& workspace::opt(v.secrets_note) == self.secrets_text()
                &&& v.pane == pane_of(s)
                &&& workspace::opt(v.ports) == ports_text(
                    s.tabs@.len() > 0,
                    mapped_ports + exposed_ports,
                )
            }),
    {
        let ws: i64 = match self.active_workspace_id {
            Some(ws) => ws,
            None => return None,
        };
        let s = match self.sessions.get(&ws) {
            Some(s) => s,
            None => return None,
        };
        Some(
            PanelView {
                tabs: tab_views(s, self.show_tab_badges),
                menu: self.menu_view(running),
                close_question: self.close_question(),
                secrets_note: self.secrets_note(),
                pane: content_pane(s),
                ports: ports_label(s.tabs.len() > 0, mapped_ports, exposed_ports),
            },
        )
    }
}

/// A tab is marked as in front exactly at the place in front, and only there has it a background;
/// a stopped tab has neither colour nor background. The first nine tabs have a number while the
/// badges show, counted from one.
pub proof fn law_tab_bar(
    view: TabView,
    tab: TerminalTab,
    i: int,
    active: usize,
    badges: bool,
)
    requires
        0 <= i,
        shows_tab(view, tab, i, active, badges),
    ensures
        view.tab_id == tab.tab_id,
        view.is_active <==> i == active,
        view.background is Some ==> i == active,
        tab.checkpoint_name is Some && tab.terminal is None ==> view.is_stopped && view.color
            is None && view.background is None && view.text_color is None,
        tab.terminal is Some ==> !view.is_stopped && view.color == tab.agent_color
            && view.text_color is Some,
        tab.checkpoint_name is None ==> !view.is_stopped,
        view.badge is Some <==> badges && i < 9,
        view.badge is Some ==> view.badge->0@ == "\u{2303}"@ + text::decimal((i + 1) as nat),
        tab.setup_steps is None ==> view.display_label@ == tab.label@,
        tab.setup_steps is Some ==> view.display_label@ == tab.label@ + " (initializing...)"@,
        view.dot == Some(ColorRole::AgentRunning) <==> tab.agent_status is Running,
        view.dot == Some(ColorRole::AgentNeedsInput) <==> tab.agent_status is NeedsInput,
        view.dot is None <==> tab.agent_status is Unknown || tab.agent_status is Idle,
{
}

/// Of the items of a menu that can be chosen one is marked and no other: that of the place that was
/// moved to, counted over the shells and then the agents, or the last where that is too far.
pub proof fn law_one_item_is_marked(
    panel: TerminalPanel,
    menu: MenuView,
    running: Seq<RunningAgent>,
    k: int,
)
    requires
        panel.shows_menu(menu, running),
        0 <= k < running.len() + panel.agents@.len(),
    ensures
        ({
            let n = running.len() as int;
            let last = n + panel.agents@.len() - 1;
            let index = panel.agent_menu_index as int;
            let item = if k < n {
                menu.shells@[k]
            } else {
                menu.agents@[k - n]
            };
            &&& item.enabled
            &&& item.focused <==> (k == index || (k == last && index > last))
            &&& k < n ==> item.label@ == "Shell ("@ + running[k].name@ + ")"@
            &&& k >= n ==> item.label@ == panel.agents@[k - n].display_name@
        }),
{
    let n = running.len() as int;
    if k < n {
        assert(shows_shell(
            menu.shells@[k],
            running,
            k,
            menu_focus(
                panel.agent_menu_index as int,
                menu_total(n, panel.agents@.len() as int),
            ),
        ));
    } else {
        assert(shows_agent(
            menu.agents@[k - n],
            panel.agents@[k - n],
            n + (k - n),
            menu_focus(
                panel.agent_menu_index as int,
                menu_total(n, panel.agents@.len() as int),
            ),
        ));
    }
}

/// A terminal shows only where the tab in front has one and is neither being prepared nor saved;
/// then it is that one. A preparation shows before all else, a saving before the note of a stop.
pub proof fn law_what_fills_the_pane(s: WorkspaceSession)
    ensures
        s.active_tab >= s.tabs@.len() ==> pane_of(s) is Empty,
        s.active_tab < s.tabs@.len() ==> {
            let tab = s.tabs@[s.active_tab as int];
            &&& pane_of(s) is Setup <==> tab.setup_steps is Some
            &&& pane_of(s) is Saving <==> tab.setup_steps is None && tab.checkpointing
            &&& pane_of(s) matches ContentPane::Setup { tab: at } ==> at == s.active_tab
            &&& pane_of(s) matches ContentPane::Stopped { tab_id } ==> tab_id == tab.tab_id
            &&& pane_of(s) matches ContentPane::Terminal { terminal } ==> tab.terminal == Some(
                terminal,
            )
            &&& tab.setup_steps is None && !tab.checkpointing ==> {
                &&& pane_of(s) is Terminal <==> tab.terminal is Some
                &&& pane_of(s) is Stopped <==> tab.terminal is None && tab.checkpoint_name is Some
                &&& pane_of(s) is Empty <==> tab.terminal is None && tab.checkpoint_name is None
            }
        },
{
}

/// A note about missing secrets shows only on the tab that waits for them, and only while that tab
/// is in front of the active workspace.
pub proof fn law_secrets_note_is_on_its_tab(panel: TerminalPanel)
    ensures
        panel.secrets_text() is Some <==> {
            &&& panel.missing_secrets_prompt is Some
            &&& panel.active_workspace_id is Some
            &&& panel.sessions@.contains_key(panel.active_workspace_id->0)
            &&& ({
                let s = panel.sessions@[panel.active_workspace_id->0];
                s.active_tab < s.tabs@.len() && s.tabs@[s.active_tab as int].tab_id
                    == panel.missing_secrets_prompt->0.tab_id
            })
        },
        panel.close_text() is Some <==> panel.pending_close is Some,
{
}

/// The ports are counted together, and the label shows only where there are tabs.
pub proof fn law_ports_label(has_tabs: bool, count: int)
    requires
        0 <= count,
    ensures
        ports_text(has_tabs, count) is Some <==> has_tabs,
        has_tabs && count == 0 ==> ports_text(has_tabs, count) == Some("Ports"@),
        has_tabs && count > 0 ==> ports_text(has_tabs, count) == Some(
            "Ports: "@ + text::decimal(count as nat),
        ),
{
}

/// No two shells of a menu have the same id.
pub proof fn law_shells_have_their_own_ids(
    a: MenuItem,
    b: MenuItem,
    running: Seq<RunningAgent>,
    i: int,
    j: int,
    focus: int,
)
    requires
        0 <= i < j < running.len(),
        shows_shell(a, running, i, focus),
        shows_shell(b, running, j, focus),
    ensures
        a.id@ != b.id@,
{
    if a.id@ == b.id@ {
        let head = "menu-shell-"@;
        assert(a.id@.skip(head.len() as int) =~= text::decimal(i as nat));
        assert(b.id@.skip(head.len() as int) =~= text::decimal(j as nat));
        text::law_decimal_makes_up_the_number(i as nat);
        text::law_decimal_makes_up_the_number(j as nat);
    }
}

} // verus!
