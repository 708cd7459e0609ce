//! Closing, putting aside and bringing back tabs.

use crate::terminal::panel;
use crate::terminal::panel::{MissingSecretsPrompt, SideAction, TerminalPanel};
use crate::terminal::session;
use crate::terminal::session::{SetupStep, StepStatus, TabKind, TerminalTab, WorkspaceSession};
use crate::terminal::workspace;
use crate::terminal::workspace::{BootRequest, OpenAgent};
use crate::text;
use crate::theme;
use crate::theme::{Color, ThemeColors};
use vstd::prelude::*;

verus! {

broadcast use vstd::std_specs::hash::group_hash_axioms;

/// What a request to close a tab came to.
#[derive(Clone, Copy, Debug, PartialEq, Eq, Structural)]
pub enum CloseOutcome {
    /// The user is asked first, because a sandbox would stop.
    Asked,
    /// The tab was closed; where no sandbox is left the review panel turns off.
    Closed { deactivate: bool },
}

/// A tab whose sandbox is to be saved.
#[derive(Debug)]
pub struct CheckpointJob {
    pub sandbox: usize,
    pub name: String,
    pub agent_id: i64,
    pub label: String,
}

/// An agent whose sandbox is up, for the menu.
#[derive(Debug)]
pub struct RunningAgent {
    pub tab_id: u64,
    pub name: String,
}

/// What a choice in the menu does.
#[derive(Debug)]
pub enum MenuAction {
    OpenShell { tab_id: u64 },
    OpenHostShell,
    OpenAgent { agent: OpenAgent },
    Nothing,
}

/// What a key does to the menu.
#[derive(Clone, Copy, Debug, PartialEq, Eq, Structural)]
pub enum MenuKey {
    Moved,
    Activate,
    Closed,
    Ignored,
}

/// The name under which an agent's sandbox is saved.
pub open spec fn checkpoint_name(agent_name: Seq<char>, tab_id: u64) -> Seq<char> {
    "tab-"@ + text::lowercase(agent_name) + "-"@ + text::decimal(tab_id as nat)
}

/// The first tab of an id in the session of a workspace.
pub open spec fn tab_in(panel: TerminalPanel, ws_id: i64, tab_id: u64) -> Option<TerminalTab> {
    if panel.sessions@.contains_key(ws_id) {
        session::tab_of(panel.sessions@[ws_id].tabs@, tab_id)
    } else {
        None
    }
}

/// `after` is the panel `before` with the first tab of an id, where there is one, as `tab`.
pub open spec fn tab_replaced(
    after: TerminalPanel,
    before: TerminalPanel,
    ws_id: i64,
    tab_id: u64,
    tab: TerminalTab,
) -> bool {
    &&& after.only_session_changed(before, ws_id)
    &&& before.sessions@.contains_key(ws_id) ==> {
        let i = session::tab_place(before.sessions@[ws_id].tabs@, tab_id);
        let s = after.sessions@[ws_id];
        &&& s.only_tab_changed(before.sessions@[ws_id], i)
        &&& i < s.tabs@.len() ==> s.tabs@[i] == tab
    }
}

proof fn lemma_remaining_ids(
    tabs: Seq<TerminalTab>,
    goes: spec_fn(TerminalTab) -> bool,
    next: u64,
)
    requires
        panel::ids_wf(tabs, next),
    ensures
        panel::ids_wf(session::remaining(tabs, goes), next),
        forall|i: int|
            0 <= i < session::remaining(tabs, goes).len() ==> exists|j: int|
                0 <= j < tabs.len() && #[trigger] tabs[j] == #[trigger] session::remaining(
                    tabs,
                    goes,
                )[i],
    decreases tabs.len(),
{
    if tabs.len() > 0 {
        let rest = tabs.drop_last();
        assert forall|i: int| 0 <= i < rest.len() implies (#[trigger] rest[i]).tab_id < next by {
            assert(rest[i] == tabs[i]);
        }
        assert forall|i: int, j: int| 0 <= i < j < rest.len() implies (#[trigger] rest[i]).tab_id
            != (#[trigger] rest[j]).tab_id by {
            assert(rest[i] == tabs[i]);
            assert(rest[j] == tabs[j]);
        }
        lemma_remaining_ids(rest, goes, next);
        let before = session::remaining(rest, goes);
        let now = session::remaining(tabs, goes);
        let last = tabs.len() - 1;
        assert forall|i: int| 0 <= i < now.len() implies exists|j: int|
            0 <= j < tabs.len() && #[trigger] tabs[j] == #[trigger] now[i] by {
            if i < before.len() {
                let j = choose|j: int| 0 <= j < rest.len() && #[trigger] rest[j] == before[i];
                assert(tabs[j] == now[i]);
            } else {
                assert(tabs[last] == now[i]);
            }
        }
        assert forall|i: int, j: int| 0 <= i < j < now.len() implies (#[trigger] now[i]).tab_id
            != (#[trigger] now[j]).tab_id by {
            if j == before.len() {
                let k = choose|k: int| 0 <= k < rest.len() && #[trigger] rest[k] == before[i];
                assert(tabs[k] == now[i]);
                assert(tabs[k].tab_id != tabs[last].tab_id);
            }
        }
        assert forall|i: int| 0 <= i < now.len() implies (#[trigger] now[i]).tab_id < next by {
            if i == before.len() {
                assert(now[i] == tabs[last]);
            } else {
                assert(now[i] == before[i]);
            }
        }
    }
}

pub(crate) proof fn lemma_same_ids(a: Seq<TerminalTab>, b: Seq<TerminalTab>, next: u64)
    requires
        panel::ids_wf(a, next),
        a.len() == b.len(),
        forall|i: int| 0 <= i < a.len() ==> (#[trigger] a[i]).tab_id == (#[trigger] b[i]).tab_id,
    ensures
        panel::ids_wf(b, next),
{
    assert forall|i: int| 0 <= i < b.len() implies (#[trigger] b[i]).tab_id < next by {
        assert(a[i].tab_id == b[i].tab_id);
    }
    assert forall|i: int, j: int| 0 <= i < j < b.len() implies (#[trigger] b[i]).tab_id != (
    #[trigger] b[j]).tab_id by {
        assert(a[i].tab_id == b[i].tab_id);
        assert(a[j].tab_id == b[j].tab_id);
    }
}

/// The tab as it is when its sandbox was saved: without terminal and sandbox.
pub open spec fn put_aside(tab: TerminalTab, name: String, db_id: Option<i64>) -> TerminalTab {
    TerminalTab {
        checkpointing: false,
        terminal: None,
        checkpoint_name: Some(name),
        tab_db_id: db_id,
        kind: match tab.kind {
            TabKind::Agent { agent_id, agent_name, auth_gateway, .. } => TabKind::Agent {
                agent_id,
                agent_name,
                sandbox: None,
                auth_gateway,
            },
            other => other,
        },
        ..tab
    }
}

/// The request that starts the agent of a prompt.
pub open spec fn boot_of(prompt: MissingSecretsPrompt) -> BootRequest {
    BootRequest {
        ws_id: prompt.ws_id,
        tab_id: prompt.tab_id,
        agent_id: prompt.agent_id,
        agent_command: prompt.agent_command,
        checkpoint_from: prompt.checkpoint_from,
    }
}

/// The tab of a prompt after its preparation begins with these steps.
pub open spec fn setup_begun(
    after: TerminalPanel,
    before: TerminalPanel,
    ws_id: i64,
    tab_id: u64,
    plan: Seq<(Seq<char>, StepStatus)>,
) -> bool {
    &&& after.only_session_changed(before, ws_id)
    &&& before.sessions@.contains_key(ws_id) ==> {
        let i = session::tab_place(before.sessions@[ws_id].tabs@, tab_id);
        let s = after.sessions@[ws_id];
        &&& s.only_tab_changed(before.sessions@[ws_id], i)
        &&& i < s.tabs@.len() ==> {
            &&& s.tabs@[i] == (TerminalTab {
                setup_error: None,
                setup_steps: s.tabs@[i].setup_steps,
                ..before.sessions@[ws_id].tabs@[i]
            })
            &&& s.tabs@[i].steps() matches Some(steps) && workspace::step_views(steps) == plan
        }
    }
}

impl TerminalPanel {
    /// Asks to close a tab. An agent whose sandbox is up is not closed without a confirmation.
    pub fn request_close_tab(&mut self, ws_id: i64, tab_id: u64) -> (r: CloseOutcome)
        requires
            old(self).wf(),
        ensures
            final(self).wf(),
            ({
                let asks = tab_in(*old(self), ws_id, tab_id) matches Some(tab)
                    && tab.kind.is_ready_agent();
                &&& asks ==> r == CloseOutcome::Asked && *final(self) == (TerminalPanel {
                    pending_close: Some((ws_id, tab_id)),
                    ..*old(self)
                })
                &&& !asks ==> r is Closed && closed(
                    *final(self),
                    *old(self),
                    ws_id,
                    tab_id,
                    r->deactivate,
                )
            }),
    {
        if let Some(s) = self.sessions.get(&ws_id) {
            if let Some(tab) = s.find_tab(tab_id) {
                if let TabKind::Agent { sandbox: Some(_), .. } = &tab.kind {
                    self.pending_close = Some((ws_id, tab_id));
                    return CloseOutcome::Asked;
                }
            }
        }
        let deactivate = self.force_close_tab(ws_id, tab_id);
        CloseOutcome::Closed { deactivate }
    }

    /// Takes the question before a tab is closed back.
    pub fn cancel_close(&mut self)
        ensures
            *final(self) == (TerminalPanel { pending_close: None, ..*old(self) }),
    {
        self.pending_close = None;
    }

    /// Closes a tab. Tells whether the review panel is to turn off: it is where the session has
    /// no sandbox left.
    pub fn force_close_tab(&mut self, ws_id: i64, tab_id: u64) -> (deactivate: bool)
        requires
            old(self).wf(),
        ensures
            final(self).wf(),
            closed(*final(self), *old(self), ws_id, tab_id, deactivate),
    {
        self.pending_close = None;
        if let Some(mut s) = self.sessions.remove(&ws_id) {
            proof {
                assert(old(self).sessions@.contains_key(ws_id));
                let is_agent = session::tab_of(s.tabs@, tab_id) matches Some(tab)
                    && tab.kind is Agent;
                lemma_remaining_ids(
                    s.tabs@,
                    |tab: TerminalTab| session::goes_with(tab, tab_id, is_agent),
                    self.next_tab_id,
                );
            }
            let _events = s.remove_tab(tab_id);
            let left = s.has_sandbox();
            self.sessions.insert(ws_id, s);
            assert(self.sessions@.dom() =~= old(self).sessions@.dom());
            !left
        } else {
            assert(self.sessions@ =~= old(self).sessions@);
            false
        }
    }

    /// Begins to save the sandbox of an agent's tab. Nothing is saved of any other tab.
    pub fn checkpoint_tab(&mut self, ws_id: i64, tab_id: u64) -> (job: Option<CheckpointJob>)
        requires
            old(self).wf(),
        ensures
            final(self).wf(),
            final(self).pending_close is None,
            match (job, tab_in(*old(self), ws_id, tab_id)) {
                (Some(j), Some(tab)) => {
                    &&& tab.kind matches TabKind::Agent {
                        agent_id,
                        agent_name,
                        sandbox: Some(sb),
                        ..
                    } && j.sandbox == sb && j.agent_id == agent_id && j.name@ == checkpoint_name(
                        agent_name@,
                        tab_id,
                    )
                    &&& j.label@ == tab.label@
                    &&& tab_replaced(
                        *final(self),
                        (TerminalPanel { pending_close: None, ..*old(self) }),
                        ws_id,
                        tab_id,
                        (TerminalTab { checkpointing: true, ..tab }),
                    )
                },
                (Some(_), None) => false,
                (None, found) => (found matches Some(tab) ==> !tab.kind.is_ready_agent())
                    && *final(self) == (TerminalPanel { pending_close: None, ..*old(self) }),
            },
    {
        self.pending_close = None;
        let mut job: Option<CheckpointJob> = None;
        if let Some(s) = self.sessions.get(&ws_id) {
            if let Some(tab) = s.find_tab(tab_id) {
                if let TabKind::Agent { sandbox: Some(sb), agent_name, agent_id, .. } = &tab.kind {
                    let mut name = "tab-".to_owned();
                    name.append(text::to_lowercase(agent_name.as_str()).as_str());
                    name.append("-");
                    text::push_decimal(&mut name, tab_id);
                    job = Some(
                        CheckpointJob {
                            sandbox: *sb,
                            name,
                            agent_id: *agent_id,
                            label: tab.label.clone(),
                        },
                    );
                }
            }
        }
        if job.is_some() {
            self.set_checkpointing(ws_id, tab_id, true);
        }
        job
    }

    fn set_checkpointing(&mut self, ws_id: i64, tab_id: u64, on: bool)
        requires
            old(self).wf(),
        ensures
            final(self).wf(),
            tab_in(*old(self), ws_id, tab_id) matches Some(tab) ==> tab_replaced(
                *final(self),
                *old(self),
                ws_id,
                tab_id,
                (TerminalTab { checkpointing: on, ..tab }),
            ),
            tab_in(*old(self), ws_id, tab_id) is None ==> final(self).only_session_changed(
                *old(self),
                ws_id,
            ) && final(self).sessions@ == old(self).sessions@,
    {
        if let Some(mut s) = self.sessions.remove(&ws_id) {
            let ghost before = s;
            proof {
                assert(old(self).sessions@.contains_key(ws_id));
            }
            if let Some(i) = s.position(tab_id) {
                s.tabs[i].checkpointing = on;
            }
            proof {
                lemma_same_ids(before.tabs@, s.tabs@, self.next_tab_id);
            }
            self.sessions.insert(ws_id, s);
            assert(self.sessions@.dom() =~= old(self).sessions@.dom());
            assert(tab_in(*old(self), ws_id, tab_id) is None ==> self.sessions@
                =~= old(self).sessions@);
        } else {
            assert(self.sessions@ =~= old(self).sessions@);
        }
    }

    /// The sandbox of a tab could not be saved: the tab goes on as before.
    pub fn checkpoint_failed(&mut self, ws_id: i64, tab_id: u64)
        requires
            old(self).wf(),
        ensures
            final(self).wf(),
            tab_in(*old(self), ws_id, tab_id) matches Some(tab) ==> tab_replaced(
                *final(self),
                *old(self),
                ws_id,
                tab_id,
                (TerminalTab { checkpointing: false, ..tab }),
            ),
            tab_in(*old(self), ws_id, tab_id) is None ==> final(self).only_session_changed(
                *old(self),
                ws_id,
            ) && final(self).sessions@ == old(self).sessions@,
    {
        self.set_checkpointing(ws_id, tab_id, false);
    }

    /// The sandbox of a tab was saved: the tab stops, and the shells in that sandbox close.
    pub fn checkpoint_saved(
        &mut self,
        ws_id: i64,
        tab_id: u64,
        name: String,
        db_id: Option<i64>,
    )
        requires
            old(self).wf(),
        ensures
            final(self).wf(),
            final(self).only_session_changed(*old(self), ws_id),
            old(self).sessions@.contains_key(ws_id) ==> {
                let before = old(self).sessions@[ws_id];
                let after = final(self).sessions@[ws_id];
                let i = session::tab_place(before.tabs@, tab_id);
                let set = if i < before.tabs@.len() {
                    before.tabs@.update(i, put_aside(before.tabs@[i], name, db_id))
                } else {
                    before.tabs@
                };
                &&& after.same_workspace(before)
                &&& after.active_tab == before.active_tab
                &&& after.tabs@ == session::without_children(set, tab_id)
            },
    {
        if let Some(mut s) = self.sessions.remove(&ws_id) {
            let ghost before = s;
            proof {
                assert(old(self).sessions@.contains_key(ws_id));
            }
            if let Some(i) = s.position(tab_id) {
                s.tabs[i].checkpointing = false;
                s.tabs[i].terminal = None;
                s.tabs[i].checkpoint_name = Some(name);
                s.tabs[i].tab_db_id = db_id;
                if let TabKind::Agent { sandbox, .. } = &mut s.tabs[i].kind {
                    *sandbox = None;
                }
                assert(s.tabs@ =~= before.tabs@.update(
                    i as int,
                    put_aside(before.tabs@[i as int], name, db_id),
                ));
            }
            proof {
                lemma_same_ids(before.tabs@, s.tabs@, self.next_tab_id);
                lemma_remaining_ids(
                    s.tabs@,
                    |tab: TerminalTab| tab.kind.is_child_of(tab_id),
                    self.next_tab_id,
                );
            }
            s.remove_children(tab_id);
            self.sessions.insert(ws_id, s);
            assert(self.sessions@.dom() =~= old(self).sessions@.dom());
        } else {
            assert(self.sessions@ =~= old(self).sessions@);
        }
    }

    fn begin_setup(&mut self, ws_id: i64, tab_id: u64, steps: Vec<SetupStep>)
        requires
            old(self).wf(),
        ensures
            final(self).wf(),
            setup_begun(
                *final(self),
                *old(self),
                ws_id,
                tab_id,
                workspace::step_views(steps@),
            ),
    {
        if let Some(mut s) = self.sessions.remove(&ws_id) {
            let ghost before = s;
            proof {
                assert(old(self).sessions@.contains_key(ws_id));
            }
            if let Some(i) = s.position(tab_id) {
                s.tabs[i].setup_error = None;
                s.tabs[i].setup_steps = Some(steps);
            }
            proof {
                lemma_same_ids(before.tabs@, s.tabs@, self.next_tab_id);
            }
            self.sessions.insert(ws_id, s);
            assert(self.sessions@.dom() =~= old(self).sessions@.dom());
        } else {
            assert(self.sessions@ =~= old(self).sessions@);
        }
    }

    /// The settings were closed: where no secret of the waiting agent is missing any more, its
    /// preparation begins and it is to be started; else it waits for those that still are.
    pub fn on_settings_closed(
        &mut self,
        still_missing: Vec<String>,
        labels: &Vec<String>,
        installed: bool,
    ) -> (r: Option<BootRequest>)
        requires
            old(self).wf(),
        ensures
            final(self).wf(),
            match old(self).missing_secrets_prompt {
                None => r is None && *final(self) == *old(self),
                Some(prompt) => if still_missing@.len() == 0 {
                    &&& r == Some(boot_of(prompt))
                    &&& setup_begun(
                        *final(self),
                        (TerminalPanel { missing_secrets_prompt: None, ..*old(self) }),
                        prompt.ws_id,
                        prompt.tab_id,
                        workspace::setup_plan(
                            workspace::install_needed(
                                prompt.checkpoint_from is Some,
                                labels@.len(),
                                installed,
                            ),
                            text::views(labels@),
                        ),
                    )
                } else {
                    &&& r is None
                    &&& *final(self) == (TerminalPanel {
                        missing_secrets_prompt: Some(
                            MissingSecretsPrompt { missing: still_missing, ..prompt },
                        ),
                        ..*old(self)
                    })
                },
            },
    {
        match self.missing_secrets_prompt.take() {
            None => None,
            Some(prompt) => {
                if still_missing.len() == 0 {
                    let needs_install = prompt.checkpoint_from.is_none() && labels.len() > 0
                        && !installed;
                    let steps = workspace::setup_steps(needs_install, labels);
                    self.begin_setup(prompt.ws_id, prompt.tab_id, steps);
                    Some(
                        BootRequest {
                            ws_id: prompt.ws_id,
                            tab_id: prompt.tab_id,
                            agent_id: prompt.agent_id,
                            agent_command: prompt.agent_command,
                            checkpoint_from: prompt.checkpoint_from,
                        },
                    )
                } else {
                    self.missing_secrets_prompt = Some(
                        MissingSecretsPrompt { missing: still_missing, ..prompt },
                    );
                    None
                }
            },
        }
    }

    /// The waiting agent is to be started without its secrets.
    pub fn dismiss_missing_secrets(&mut self) -> (r: Option<BootRequest>)
        requires
            old(self).wf(),
        ensures
            final(self).wf(),
            match old(self).missing_secrets_prompt {
                None => r is None && *final(self) == *old(self),
                Some(prompt) => r == Some(boot_of(prompt)) && setup_begun(
                    *final(self),
                    (TerminalPanel { missing_secrets_prompt: None, ..*old(self) }),
                    prompt.ws_id,
                    prompt.tab_id,
                    seq![("Starting workspace"@, StepStatus::Active)],
                ),
            },
    {
        match self.missing_secrets_prompt.take() {
            None => None,
            Some(prompt) => {
                let none: Vec<String> = Vec::new();
                let steps = workspace::setup_steps(false, &none);
                self.begin_setup(prompt.ws_id, prompt.tab_id, steps);
                Some(
                    BootRequest {
                        ws_id: prompt.ws_id,
                        tab_id: prompt.tab_id,
                        agent_id: prompt.agent_id,
                        agent_command: prompt.agent_command,
                        checkpoint_from: prompt.checkpoint_from,
                    },
                )
            },
        }
    }

    /// The request that opens a stopped tab's agent anew from what was saved of it.
    pub fn fork_tab(&self, ws_id: i64, tab_id: u64) -> (r: Option<OpenAgent>)
        ensures
            match (r, tab_in(*self, ws_id, tab_id)) {
                (Some(open), Some(tab)) => {
                    &&& tab.kind matches TabKind::Agent { agent_id, agent_name, .. }
                        && open.agent_id == agent_id && open.agent_name@ == agent_name@
                        && open.agent_command@ == (match panel::agent_of(self.agents@, agent_id) {
                        Some(agent) => agent.command@,
                        None => seq![],
                    })
                    &&& open.agent_color == tab.agent_color
                    &&& workspace::opt(open.icon_path) == workspace::opt(tab.icon_path)
                    &&& tab.checkpoint_name is Some
                    &&& workspace::opt(open.checkpoint_from) == workspace::opt(tab.checkpoint_name)
                    &&& open.initial_prompt is None
                },
                (Some(_), None) => false,
                (None, Some(tab)) => tab.checkpoint_name is None || !(tab.kind is Agent),
                (None, None) => true,
            },
    {
        let s = match self.sessions.get(&ws_id) {
            Some(s) => s,
            None => return None,
        };
        let tab = match s.find_tab(tab_id) {
            Some(tab) => tab,
            None => return None,
        };
        let checkpoint = match &tab.checkpoint_name {
            Some(name) => name.clone(),
            None => return None,
        };
        match &tab.kind {
            TabKind::Agent { agent_id, agent_name, .. } => {
                let command = match self.find_agent(*agent_id) {
                    Some(agent) => agent.command.clone(),
                    None => {
                        let none = String::new();
                        assert(none@ =~= seq![]);
                        none
                    },
                };
                Some(
                    OpenAgent {
                        agent_id: *agent_id,
                        agent_name: agent_name.clone(),
                        agent_command: command,
                        agent_color: tab.agent_color,
                        icon_path: text::copy_optional(&tab.icon_path),
                        checkpoint_from: Some(checkpoint),
                        initial_prompt: None,
                    },
                )
            },
            _ => None,
        }
    }

    /// Closes a stopped tab. The first value is the saved entry to delete.
    pub fn remove_stopped_tab(&mut self, ws_id: i64, tab_id: u64) -> (r: (Option<i64>, bool))
        requires
            old(self).wf(),
        ensures
            final(self).wf(),
            r.0 == (match tab_in(*old(self), ws_id, tab_id) {
                Some(tab) => tab.tab_db_id,
                None => None,
            }),
            closed(*final(self), *old(self), ws_id, tab_id, r.1),
    {
        let mut db_id: Option<i64> = None;
        if let Some(s) = self.sessions.get(&ws_id) {
            if let Some(tab) = s.find_tab(tab_id) {
                db_id = tab.tab_db_id;
            }
        }
        let deactivate = self.force_close_tab(ws_id, tab_id);
        (db_id, deactivate)
    }

    /// Closes the tab in front of the active workspace.
    pub fn close_active_tab(&mut self) -> (r: Option<CloseOutcome>)
        requires
            old(self).wf(),
        ensures
            final(self).wf(),
            match old(self).active_session() {
                Some(s) if s.active_tab < s.tabs@.len() => {
                    let tab = s.tabs@[s.active_tab as int];
                    r is Some && (tab.kind.is_ready_agent() ==> r == Some(CloseOutcome::Asked)
                        && *final(self) == (TerminalPanel {
                        pending_close: Some((old(self).active_workspace_id->0, tab.tab_id)),
                        ..*old(self)
                    })) && (!tab.kind.is_ready_agent() ==> r->0 is Closed && closed(
                        *final(self),
                        *old(self),
                        old(self).active_workspace_id->0,
                        tab.tab_id,
                        r->0->deactivate,
                    ))
                },
                _ => r is None && *final(self) == *old(self),
            },
    {
        let ws_id: i64 = match self.active_workspace_id {
            Some(id) => id,
            None => return None,
        };
        let mut tab_id: Option<u64> = None;
        if let Some(s) = self.sessions.get(&ws_id) {
            if let Some(tab) = s.active_tab_ref() {
                tab_id = Some(tab.tab_id);
                proof {
                    assert(self.sessions@.contains_key(ws_id));
                    session::lemma_tab_place(s.tabs@, tab.tab_id);
                    let p = session::tab_place(s.tabs@, tab.tab_id);
                    assert(p == s.active_tab) by {
                        if p < s.active_tab {
                            assert(s.tabs@[p].tab_id != s.tabs@[s.active_tab as int].tab_id);
                        }
                        if p > s.active_tab {
                            assert(s.tabs@[s.active_tab as int].tab_id != tab.tab_id);
                        }
                    }
                }
            }
        }
        match tab_id {
            Some(id) => Some(self.request_close_tab(ws_id, id)),
            None => None,
        }
    }

    /// Brings a tab of the active workspace to the front. Returns the terminal that gets the focus
    /// and what the review panel is told.
    pub fn activate_tab_by_index(&mut self, index: usize) -> (r: (Option<u64>, SideAction))
        requires
            old(self).wf(),
        ensures
            final(self).wf(),
            match old(self).active_workspace_id {
                None => r == (None::<u64>, SideAction::Nothing) && *final(self) == *old(self),
                Some(ws_id) => {
                    &&& final(self).only_session_changed(*old(self), ws_id)
                    &&& old(self).sessions@.contains_key(ws_id) ==> {
                        let before = old(self).sessions@[ws_id];
                        let after = final(self).sessions@[ws_id];
                        &&& after.same_workspace(before)
                        &&& after.tabs@ == before.tabs@
                        &&& after.active_tab == (if index < before.tabs@.len() {
                            index
                        } else {
                            before.active_tab
                        })
                        &&& r.0 == front_terminal(after)
                        &&& r.1 == (match after.sandbox_in_front() {
                            Some(key) => SideAction::SandboxReady { key },
                            None => SideAction::Deactivate,
                        })
                    }
                    &&& !old(self).sessions@.contains_key(ws_id) ==> r == (
                        None::<u64>,
                        SideAction::Deactivate,
                    )
                },
            },
    {
        let ws_id: i64 = match self.active_workspace_id {
            Some(id) => id,
            None => return (None, SideAction::Nothing),
        };
        let mut focus: Option<u64> = None;
        if let Some(mut s) = self.sessions.remove(&ws_id) {
            proof {
                assert(old(self).sessions@.contains_key(ws_id));
            }
            let _event = s.activate_tab(index);
            focus = terminal_in_front(&s);
            self.sessions.insert(ws_id, s);
            assert(self.sessions@.dom() =~= old(self).sessions@.dom());
        } else {
            assert(self.sessions@ =~= old(self).sessions@);
        }
        let side = self.notify_side_panel(ws_id);
        (focus, side)
    }

    /// Brings the next tab, or the one before, of the active workspace to the front. Returns the
    /// terminal that gets the focus.
    pub fn cycle_tab(&mut self, forward: bool) -> (focus: Option<u64>)
        requires
            old(self).wf(),
            forward ==> can_go_forward(*old(self)),
        ensures
            final(self).wf(),
            cycles(*final(self), *old(self), focus, forward),
    {
        let ws_id: i64 = match self.active_workspace_id {
            Some(id) => id,
            None => return None,
        };
        let mut focus: Option<u64> = None;
        if let Some(mut s) = self.sessions.remove(&ws_id) {
            proof {
                assert(old(self).sessions@.contains_key(ws_id));
            }
            if forward {
                let _event = s.next_tab();
            } else {
                let _event = s.prev_tab();
            }
            focus = terminal_in_front(&s);
            self.sessions.insert(ws_id, s);
            assert(self.sessions@.dom() =~= old(self).sessions@.dom());
        } else {
            assert(self.sessions@ =~= old(self).sessions@);
        }
        focus
    }

    pub fn next_tab(&mut self) -> (focus: Option<u64>)
        requires
            old(self).wf(),
            can_go_forward(*old(self)),
        ensures
            final(self).wf(),
            cycles(*final(self), *old(self), focus, true),
    {
        self.cycle_tab(true)
    }

    pub fn prev_tab(&mut self) -> (focus: Option<u64>)
        requires
            old(self).wf(),
        ensures
            final(self).wf(),
            cycles(*final(self), *old(self), focus, false),
    {
        self.cycle_tab(false)
    }

    /// Opens or closes the menu; its first item is marked.
    pub fn toggle_menu(&mut self)
        ensures
            *final(self) == (TerminalPanel {
                show_agent_menu: !old(self).show_agent_menu,
                agent_menu_index: 0,
                ..*old(self)
            }),
    {
        self.show_agent_menu = !self.show_agent_menu;
        self.agent_menu_index = 0;
    }

    /// Closes the menu.
    pub fn close_menu(&mut self)
        ensures
            *final(self) == (TerminalPanel { show_agent_menu: false, ..*old(self) }),
    {
        self.show_agent_menu = false;
    }

    /// A key in the menu of `item_count` items: up and down move the mark around, enter chooses,
    /// escape closes.
    pub fn menu_key(&mut self, key: &str, item_count: usize) -> (r: MenuKey)
        requires
            item_count > 0 && key@ == "down"@ ==> old(self).agent_menu_index < usize::MAX,
        ensures
            r == (if key@ == "up"@ || key@ == "down"@ {
                if item_count > 0 {
                    MenuKey::Moved
                } else {
                    MenuKey::Ignored
                }
            } else if key@ == "enter"@ {
                MenuKey::Activate
            } else if key@ == "escape"@ {
                MenuKey::Closed
            } else {
                MenuKey::Ignored
            }),
            *final(self) == (TerminalPanel {
                agent_menu_index: if item_count > 0 && key@ == "up"@ {
                    (if old(self).agent_menu_index == 0 {
                        item_count - 1
                    } else {
                        old(self).agent_menu_index - 1
                    }) as usize
                } else if item_count > 0 && key@ == "down"@ {
                    ((old(self).agent_menu_index + 1) % item_count as int) as usize
                } else {
                    old(self).agent_menu_index
                },
                show_agent_menu: old(self).show_agent_menu && r != MenuKey::Closed,
                ..*old(self)
            }),
    {
        proof {
            reveal_strlit("up");
            reveal_strlit("down");
            assert("up"@.len() == 2);
            assert("down"@.len() == 4);
        }
        if text::same_text(key, "up") {
            if item_count == 0 {
                return MenuKey::Ignored;
            }
            self.agent_menu_index = if self.agent_menu_index == 0 {
                item_count - 1
            } else {
                self.agent_menu_index - 1
            };
            MenuKey::Moved
        } else if text::same_text(key, "down") {
            if item_count == 0 {
                return MenuKey::Ignored;
            }
            self.agent_menu_index = (self.agent_menu_index + 1) % item_count;
            MenuKey::Moved
        } else if text::same_text(key, "enter") {
            MenuKey::Activate
        } else if text::same_text(key, "escape") {
            self.show_agent_menu = false;
            MenuKey::Closed
        } else {
            MenuKey::Ignored
        }
    }

    /// Chooses the marked item and closes the menu: the shells of the running agents come first,
    /// then the host shell, then the agents.
    pub fn activate_agent_menu_item(&mut self, running: &Vec<RunningAgent>) -> (action: MenuAction)
        requires
            panel::colors_readable(old(self).agents@),
        ensures
            *final(self) == (TerminalPanel { show_agent_menu: false, ..*old(self) }),
            ({
                let i = old(self).agent_menu_index as int;
                let shells = running@.len() as int;
                match action {
                    MenuAction::OpenShell { tab_id } => i < shells && tab_id == running@[i].tab_id,
                    MenuAction::OpenHostShell => i == shells,
                    MenuAction::OpenAgent { agent } => i > shells && i - shells - 1 < old(
                        self).agents@.len() && workspace::opens_agent(
                        agent,
                        old(self).agents@[i - shells - 1],
                        None,
                        None,
                    ),
                    MenuAction::Nothing => i - shells - 1 >= old(self).agents@.len(),
                }
            }),
    {
        let i: usize = self.agent_menu_index;
        let shells: usize = running.len();
        let action = if i < shells {
            MenuAction::OpenShell { tab_id: running[i].tab_id }
        } else if i == shells {
            MenuAction::OpenHostShell
        } else {
            let at: usize = i - shells - 1;
            if at < self.agents.len() {
                MenuAction::OpenAgent { agent: workspace::open_request(&self.agents[at], &None, &None) }
            } else {
                MenuAction::Nothing
            }
        };
        self.show_agent_menu = false;
        action
    }
}

/// The terminal of the tab in front.
pub open spec fn front_terminal(s: WorkspaceSession) -> Option<u64> {
    if s.active_tab < s.tabs@.len() {
        s.tabs@[s.active_tab as int].terminal
    } else {
        None
    }
}

fn terminal_in_front(s: &WorkspaceSession) -> (r: Option<u64>)
    ensures
        r == front_terminal(*s),
{
    match s.active_tab_ref() {
        Some(tab) => tab.terminal,
        None => None,
    }
}

/// How a terminal is set up. Sizes on the screen are the window's own.
#[derive(Debug)]
pub struct TerminalConfig {
    pub font_family: &'static str,
    pub cols: usize,
    pub rows: usize,
    pub scrollback: usize,
    pub background: (u8, u8, u8),
    pub foreground: (u8, u8, u8),
    pub cursor: (u8, u8, u8),
    pub scrollbar_thumb: Color,
}

impl TerminalPanel {
    /// How terminals are set up under a theme.
    pub fn make_terminal_config(colors: &ThemeColors) -> (c: TerminalConfig)
        ensures
            c.font_family@ == "Menlo"@,
            (c.cols, c.rows, c.scrollback) == (80usize, 24usize, 10000usize),
            ({
                let bg = colors.bg_terminal;
                let fg = colors.terminal_foreground;
                let cursor = colors.terminal_cursor;
                &&& c.background == (bg.r, bg.g, bg.b)
                &&& c.foreground == (fg.r, fg.g, fg.b)
                &&& c.cursor == (cursor.r, cursor.g, cursor.b)
            }),
            c.scrollbar_thumb == colors.scrollbar_thumb,
    {
        TerminalConfig {
            font_family: "Menlo",
            cols: 80,
            rows: 24,
            scrollback: 10000,
            background: theme::rgb_bytes(theme::bg_terminal(colors)),
            foreground: theme::rgb_bytes(theme::terminal_foreground(colors)),
            cursor: theme::rgb_bytes(theme::terminal_cursor(colors)),
            scrollbar_thumb: theme::scrollbar_thumb(colors),
        }
    }
}

/// The place after one step forward or back around `n` places.
pub open spec fn cycled(i: int, n: int, forward: bool) -> int {
    if n == 0 {
        i
    } else if forward {
        (i + 1) % n
    } else if i == 0 {
        n - 1
    } else {
        i - 1
    }
}

/// The tab after the one in front has a place.
pub open spec fn can_go_forward(panel: TerminalPanel) -> bool {
    panel.active_session() matches Some(s) ==> s.tabs@.len() > 0 ==> s.active_tab < usize::MAX
}

/// `after` is the panel `before` with the next tab, or the one before, in front.
pub open spec fn cycles(
    after: TerminalPanel,
    before: TerminalPanel,
    focus: Option<u64>,
    forward: bool,
) -> bool {
    match before.active_workspace_id {
        None => focus is None && after == before,
        Some(ws_id) => {
            &&& after.only_session_changed(before, ws_id)
            &&& before.sessions@.contains_key(ws_id) ==> {
                let b = before.sessions@[ws_id];
                let a = after.sessions@[ws_id];
                &&& a.same_workspace(b)
                &&& a.tabs@ == b.tabs@
                &&& a.active_tab == cycled(b.active_tab as int, b.tabs@.len() as int, forward)
                &&& focus == front_terminal(a)
            }
            &&& !before.sessions@.contains_key(ws_id) ==> focus is None
        },
    }
}

/// `after` is the panel `before` with a tab closed and nothing left to confirm.
pub open spec fn closed(
    after: TerminalPanel,
    before: TerminalPanel,
    ws_id: i64,
    tab_id: u64,
    deactivate: bool,
) -> bool {
    &&& after.only_session_changed((TerminalPanel { pending_close: None, ..before }), ws_id)
    &&& before.sessions@.contains_key(ws_id) ==> {
        let b = before.sessions@[ws_id];
        let a = after.sessions@[ws_id];
        let is_agent = session::tab_of(b.tabs@, tab_id) matches Some(tab) && tab.kind is Agent;
        &&& a.same_workspace(b)
        &&& a.tabs@ == session::staying(b.tabs@, tab_id, is_agent)
        &&& a.active_tab == (if a.tabs@.len() == 0 {
            0
        } else {
            a.tabs@.len() - 1
        })
        &&& deactivate == !session::any_sandbox(a.tabs@)
    }
    &&& !before.sessions@.contains_key(ws_id) ==> !deactivate
}

/// Going forward and then back around the tabs ends where it began.
pub proof fn law_forward_and_back(i: int, n: int)
    requires
        0 <= i < n,
    ensures
        cycled(cycled(i, n, true), n, false) == i,
        cycled(cycled(i, n, false), n, true) == i,
        0 <= cycled(i, n, true) < n,
        0 <= cycled(i, n, false) < n,
{
    if i + 1 < n {
        assert((i + 1) % n == i + 1) by (nonlinear_arith)
            requires
                0 <= i + 1 < n,
        ;
        assert(i > 0 ==> (i - 1 + 1) % n == i) by (nonlinear_arith)
            requires
                0 <= i < n,
        ;
    }
    assert(n % n == 0) by (nonlinear_arith)
        requires
            n > 0,
    ;
    assert(i % n == i) by (nonlinear_arith)
        requires
            0 <= i < n,
    ;
}

/// A tab that is replaced under its own id is found as it was put there; the other tabs, the tabs
/// of other workspaces, their order and what is in front stay.
pub proof fn law_replaced_tab_is_found(
    after: TerminalPanel,
    before: TerminalPanel,
    ws_id: i64,
    tab_id: u64,
    tab: TerminalTab,
    other_ws: i64,
    other_id: u64,
)
    requires
        tab_replaced(after, before, ws_id, tab_id, tab),
        tab_in(before, ws_id, tab_id) is Some,
        tab.tab_id == tab_id,
    ensures
        tab_in(after, ws_id, tab_id) == Some(tab),
        other_ws != ws_id || other_id != tab_id ==> tab_in(after, other_ws, other_id) == tab_in(
            before,
            other_ws,
            other_id,
        ),
        after.sessions@[ws_id].active_tab == before.sessions@[ws_id].active_tab,
        after.active_workspace_id == before.active_workspace_id,
        after.next_tab_id == before.next_tab_id,
        after.pending_close == before.pending_close,
{
    let b = before.sessions@[ws_id].tabs@;
    let a = after.sessions@[ws_id].tabs@;
    let i = session::tab_place(b, tab_id);
    session::lemma_tab_place(b, tab_id);
    session::lemma_tab_place(a, tab_id);
    assert forall|j: int| 0 <= j < i implies (#[trigger] a[j]).tab_id != tab_id by {
        assert(a[j] == b[j]);
    }
    session::lemma_tab_place_is(a, tab_id, i);
    if other_ws != ws_id {
        if before.sessions@.contains_key(other_ws) {
            assert(after.sessions@[other_ws] == before.sessions@[other_ws]);
        }
    } else if other_id != tab_id {
        session::lemma_tab_place(a, other_id);
        session::lemma_tab_place(b, other_id);
        let k = session::tab_place(a, other_id);
        if k < a.len() {
            assert forall|j: int| 0 <= j < k implies (#[trigger] b[j]).tab_id != other_id by {
                assert(a[j].tab_id != other_id);
            }
            assert(b[k].tab_id == other_id);
            session::lemma_tab_place_is(b, other_id, k);
        } else {
            let m = session::tab_place(b, other_id);
            if m < b.len() {
                assert(a[m].tab_id == other_id);
            }
        }
    }
}

/// A tab that was closed is not found any more and nothing is left to confirm. The last tab that
/// stays is in front. The review panel turns off exactly when no agent with a sandbox stays. Other
/// workspaces keep their tabs.
pub proof fn law_after_a_close(
    after: TerminalPanel,
    before: TerminalPanel,
    ws_id: i64,
    tab_id: u64,
    deactivate: bool,
    other_ws: i64,
    other_id: u64,
)
    requires
        closed(after, before, ws_id, tab_id, deactivate),
    ensures
        tab_in(after, ws_id, tab_id) is None,
        after.pending_close is None,
        after.active_workspace_id == before.active_workspace_id,
        other_ws != ws_id ==> tab_in(after, other_ws, other_id) == tab_in(
            before,
            other_ws,
            other_id,
        ),
        before.sessions@.contains_key(ws_id) ==> {
            let tabs = after.sessions@[ws_id].tabs@;
            &&& tabs.len() > 0 ==> after.sessions@[ws_id].active_tab == tabs.len() - 1
            &&& deactivate <==> forall|i: int|
                0 <= i < tabs.len() ==> !((#[trigger] tabs[i]).kind is Agent
                    && tabs[i].kind->Agent_sandbox is Some)
        },
{
    if before.sessions@.contains_key(ws_id) {
        let b = before.sessions@[ws_id].tabs@;
        let tabs = after.sessions@[ws_id].tabs@;
        let is_agent = session::tab_of(b, tab_id) matches Some(tab) && tab.kind is Agent;
        session::law_closed_tab_is_gone(b, tab_id, is_agent);
        if session::any_sandbox(tabs) {
            let i = choose|i: int|
                0 <= i < tabs.len() && (#[trigger] tabs[i]).kind.is_ready_agent();
            assert(tabs[i].kind is Agent && tabs[i].kind->Agent_sandbox is Some);
        } else {
            assert forall|i: int| 0 <= i < tabs.len() implies !((#[trigger] tabs[i]).kind is Agent
                && tabs[i].kind->Agent_sandbox is Some) by {
                assert(!tabs[i].kind.is_ready_agent());
            }
        }
    }
    if other_ws != ws_id && before.sessions@.contains_key(other_ws) {
        assert(after.sessions@[other_ws] == before.sessions@[other_ws]);
    }
}

/// Where a step leads: forward to the next place, back to the one before, and around at the ends.
pub proof fn law_steps_around(i: int, n: int)
    requires
        0 <= i < n,
    ensures
        i + 1 < n ==> cycled(i, n, true) == i + 1,
        cycled(n - 1, n, true) == 0,
        i > 0 ==> cycled(i, n, false) == i - 1,
        cycled(0, n, false) == n - 1,
{
    if i + 1 < n {
        assert((i + 1) % n == i + 1) by (nonlinear_arith)
            requires
                0 <= i,
                i + 1 < n,
        ;
    }
    assert(n % n == 0) by (nonlinear_arith)
        requires
            n > 0,
    ;
}

/// The focus follows the tab that came to the front, of the active workspace alone; no tab is
/// opened, closed or moved by it.
pub proof fn law_focus_follows_the_front(
    after: TerminalPanel,
    before: TerminalPanel,
    focus: Option<u64>,
    forward: bool,
    ws_id: i64,
)
    requires
        cycles(after, before, focus, forward),
        before.active_workspace_id == Some(ws_id),
        before.sessions@.contains_key(ws_id),
        before.sessions@[ws_id].active_tab < before.sessions@[ws_id].tabs@.len(),
    ensures
        ({
            let b = before.sessions@[ws_id];
            let a = after.sessions@[ws_id];
            let n = b.tabs@.len() as int;
            &&& a.tabs@ == b.tabs@
            &&& a.active_tab < n
            &&& focus == b.tabs@[a.active_tab as int].terminal
            &&& n > 1 ==> a.active_tab != b.active_tab
            &&& forward && b.active_tab + 1 < n ==> a.active_tab == b.active_tab + 1
            &&& forward && b.active_tab + 1 == n ==> a.active_tab == 0
            &&& !forward && b.active_tab > 0 ==> a.active_tab == b.active_tab - 1
            &&& !forward && b.active_tab == 0 ==> a.active_tab == n - 1
        }),
{
    let b = before.sessions@[ws_id];
    law_forward_and_back(b.active_tab as int, b.tabs@.len() as int);
    law_steps_around(b.active_tab as int, b.tabs@.len() as int);
}

/// A tab that was put aside has neither terminal nor sandbox and is not being saved, knows what was
/// saved of it, and keeps who it is: its id, its label, its agent and its colour.
pub proof fn law_tab_put_aside(tab: TerminalTab, name: String, db_id: Option<i64>)
    ensures
        ({
            let aside = put_aside(tab, name, db_id);
            &&& aside.terminal is None
            &&& !aside.checkpointing
            &&& aside.checkpoint_name == Some(name)
            &&& aside.tab_db_id == db_id
            &&& aside.tab_id == tab.tab_id
            &&& aside.label == tab.label
            &&& aside.agent_color == tab.agent_color
            &&& aside.icon_path == tab.icon_path
            &&& !aside.kind.is_ready_agent()
            &&& tab.kind matches TabKind::Agent { agent_id, agent_name, .. } ==> aside.kind is Agent
                && aside.kind->agent_id == agent_id && aside.kind->agent_name == agent_name
                && aside.kind->Agent_sandbox is None
            &&& !(tab.kind is Agent) ==> aside.kind == tab.kind
        }),
{
}

/// What an agent that waits is started with is what it was asked for with: the same tab of the same
/// workspace, the same agent and command, and the same saved state.
pub proof fn law_waiting_agent_is_started(prompt: MissingSecretsPrompt, missing: Vec<String>)
    ensures
        boot_of(prompt).ws_id == prompt.ws_id,
        boot_of(prompt).tab_id == prompt.tab_id,
        boot_of(prompt).agent_id == prompt.agent_id,
        boot_of(prompt).agent_command == prompt.agent_command,
        boot_of(prompt).checkpoint_from == prompt.checkpoint_from,
        boot_of(prompt) == boot_of(MissingSecretsPrompt { missing, ..prompt }),
{
}

/// A preparation that begins takes back what was said of the tab, shows these steps on it, and
/// changes no other tab.
pub proof fn law_preparation_begins(
    after: TerminalPanel,
    before: TerminalPanel,
    ws_id: i64,
    tab_id: u64,
    plan: Seq<(Seq<char>, StepStatus)>,
    i: int,
)
    requires
        setup_begun(after, before, ws_id, tab_id, plan),
        before.sessions@.contains_key(ws_id),
        0 <= i < before.sessions@[ws_id].tabs@.len(),
    ensures
        ({
            let b = before.sessions@[ws_id].tabs@;
            let a = after.sessions@[ws_id].tabs@;
            &&& b[i].tab_id != tab_id ==> a[i] == b[i]
            &&& b[i].tab_id == tab_id && (forall|j: int|
                0 <= j < i ==> (#[trigger] b[j]).tab_id != tab_id) ==> {
                &&& a[i].setup_error is None
                &&& a[i].setup_steps is Some
                &&& workspace::step_views(a[i].setup_steps->0@) == plan
                &&& a[i].tab_id == tab_id
                &&& a[i].label == b[i].label
                &&& a[i].kind == b[i].kind
            }
        }),
{
    let b = before.sessions@[ws_id].tabs@;
    session::lemma_tab_place(b, tab_id);
    if b[i].tab_id == tab_id && (forall|j: int| 0 <= j < i ==> (#[trigger] b[j]).tab_id != tab_id) {
        session::lemma_tab_place_is(b, tab_id, i);
    }
}

/// The terminal in front is that of the tab in front, and there is none without such a tab.
pub proof fn law_terminal_of_the_front(s: WorkspaceSession)
    ensures
        s.active_tab < s.tabs@.len() ==> front_terminal(s) == s.tabs@[s.active_tab as int].terminal,
        s.active_tab >= s.tabs@.len() ==> front_terminal(s) is None,
{
}

/// Two tabs of an agent are never saved under the same name, and capitals in the agent's name, as
/// far as they have small letters, make no difference.
pub proof fn law_saved_names_differ(
    agent_name: Seq<char>,
    other_name: Seq<char>,
    a: u64,
    b: u64,
)
    ensures
        checkpoint_name(agent_name, a) == checkpoint_name(agent_name, b) ==> a == b,
        text::lowercase(agent_name) == text::lowercase(other_name) ==> checkpoint_name(
            agent_name,
            a,
        ) == checkpoint_name(other_name, a),
{
    if checkpoint_name(agent_name, a) == checkpoint_name(agent_name, b) {
        let head = "tab-"@ + text::lowercase(agent_name) + "-"@;
        assert(checkpoint_name(agent_name, a).skip(head.len() as int) =~= text::decimal(a as nat));
        assert(checkpoint_name(agent_name, b).skip(head.len() as int) =~= text::decimal(b as nat));
        text::law_decimal_makes_up_the_number(a as nat);
        text::law_decimal_makes_up_the_number(b as nat);
    }
}

} // verus!
