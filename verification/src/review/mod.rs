//! Reviewing what changed in a workspace.

use crate::review::changes_tab::{ChangesSnapshot, ChangesTab, TabEffect};
use crate::review::diff_service::DiffService;
use crate::review::watcher::DiffResult;
use crate::text;
use std::collections::{HashMap, HashSet};
use vstd::prelude::*;

pub mod changes_tab;
pub mod diff_engine;
pub mod diff_service;
pub mod diff_view;
pub mod file_row;
pub mod highlighter;
pub mod watcher;

verus! {

broadcast use vstd::std_specs::hash::group_hash_axioms;

/// The review panel: the changes of the active sandbox in front, those of the workspace's other
/// sandboxes behind it, and lists put aside for other workspaces.
pub struct SidePanel {
    pub visible: bool,
    pub workspace_id: Option<i64>,
    pub active_sandbox_key: Option<usize>,
    pub workspace_path: String,
    pub host_mount_path: Option<String>,
    pub changes_tab: ChangesTab,
    pub cache: HashMap<i64, ChangesSnapshot>,
    pub sandbox_changes: HashMap<usize, ChangesTab>,
    pub sandbox_watchers: HashSet<usize>,
}

/// What a batch of events asks for: in the list behind, in the list in front, and whether to go
/// on watching.
pub struct ResultEffects {
    pub background: Vec<TabEffect>,
    pub shown: Vec<TabEffect>,
    pub go_on: bool,
}

/// The list in front and those behind it after the one of `key` changed places with the front.
/// Where there is none of that key, nothing changes.
pub open spec fn swapped(
    front: ChangesTab,
    behind: Map<usize, ChangesTab>,
    key: usize,
) -> (ChangesTab, Map<usize, ChangesTab>) {
    if behind.contains_key(key) {
        (behind[key], behind.insert(key, front))
    } else {
        (front, behind)
    }
}

/// The list in front and those behind it once the sandbox of `key` is active: the one that was
/// active goes behind first.
pub open spec fn brought_to_front(
    front: ChangesTab,
    behind: Map<usize, ChangesTab>,
    active: Option<usize>,
    key: usize,
) -> (ChangesTab, Map<usize, ChangesTab>) {
    match active {
        None => swapped(front, behind, key),
        Some(previous) => if previous == key {
            (front, behind)
        } else {
            let put_back = swapped(front, behind, previous);
            swapped(put_back.0, put_back.1, key)
        },
    }
}

/// A list without anything in it, with its service.
pub open spec fn is_fresh(tab: ChangesTab, service: DiffService) -> bool {
    &&& tab.is_clear()
    &&& tab.service == Some(service)
    &&& !tab.on_ask_agent
}

impl SidePanel {
    pub fn new() -> (panel: Self)
        ensures
            !panel.visible,
            panel.workspace_id is None,
            panel.active_sandbox_key is None,
            panel.workspace_path@ == "/workspace"@,
            panel.host_mount_path is None,
            panel.changes_tab.is_clear(),
            panel.changes_tab.service is None,
            !panel.changes_tab.on_ask_agent,
            panel.cache@ == Map::<i64, ChangesSnapshot>::empty(),
            panel.sandbox_changes@ == Map::<usize, ChangesTab>::empty(),
            panel.sandbox_watchers@ == Set::<usize>::empty(),
    {
        SidePanel {
            visible: false,
            workspace_id: None,
            active_sandbox_key: None,
            workspace_path: "/workspace".to_owned(),
            host_mount_path: None,
            changes_tab: ChangesTab::new(),
            cache: HashMap::new(),
            sandbox_changes: HashMap::new(),
            sandbox_watchers: HashSet::new(),
        }
    }

    /// Whether a sandbox has no watcher yet.
    pub fn needs_watcher(&self, key: usize) -> (r: bool)
        ensures
            r == !self.sandbox_watchers@.contains(key),
    {
        !self.sandbox_watchers.contains(&key)
    }

    fn swap_front(&mut self, key: usize)
        ensures
            (final(self).changes_tab, final(self).sandbox_changes@) == swapped(
                old(self).changes_tab,
                old(self).sandbox_changes@,
                key,
            ),
            *final(self) == (SidePanel {
                changes_tab: final(self).changes_tab,
                sandbox_changes: final(self).sandbox_changes,
                ..*old(self)
            }),
    {
        if let Some(mut stored) = self.sandbox_changes.remove(&key) {
            std::mem::swap(&mut self.changes_tab, &mut stored);
            self.sandbox_changes.insert(key, stored);
            assert(self.sandbox_changes@ =~= old(self).sandbox_changes@.insert(
                key,
                old(self).changes_tab,
            ));
        } else {
            assert(self.sandbox_changes@ =~= old(self).sandbox_changes@);
        }
    }

    /// A sandbox became active. One without a watcher gets a fresh list, and `watching` tells
    /// whether its watcher could be started. Then its list comes to the front.
    pub fn on_sandbox_ready(&mut self, key: usize, watching: bool)
        ensures
            final(self).visible,
            final(self).active_sandbox_key == Some(key),
            final(self).workspace_id == old(self).workspace_id,
            final(self).workspace_path == old(self).workspace_path,
            final(self).host_mount_path == old(self).host_mount_path,
            final(self).cache@ == old(self).cache@,
            final(self).sandbox_watchers@ == (if watching {
                old(self).sandbox_watchers@.insert(key)
            } else {
                old(self).sandbox_watchers@
            }),
            old(self).sandbox_watchers@.contains(key) ==> (
                final(self).changes_tab,
                final(self).sandbox_changes@,
            ) == brought_to_front(
                old(self).changes_tab,
                old(self).sandbox_changes@,
                old(self).active_sandbox_key,
                key,
            ),
            !old(self).sandbox_watchers@.contains(key) ==> exists|tab: ChangesTab|
                #[trigger] is_fresh(
                    tab,
                    (DiffService { sandbox: key, host_mount_path: old(self).host_mount_path }),
                ) && (final(self).changes_tab, final(self).sandbox_changes@) == brought_to_front(
                    old(self).changes_tab,
                    old(self).sandbox_changes@.insert(key, tab),
                    old(self).active_sandbox_key,
                    key,
                ),
            old(self).active_sandbox_key == Some(key) ==> final(self).changes_tab
                == old(self).changes_tab,
            old(self).active_sandbox_key != Some(key) && !old(self).sandbox_watchers@.contains(key)
                ==> {
                &&& final(self).changes_tab.is_clear()
                &&& final(self).changes_tab.service matches Some(service) && service.sandbox == key
                    && service.host_mount_path == old(self).host_mount_path
            },
            old(self).active_sandbox_key != Some(key) && old(self).sandbox_watchers@.contains(key)
                && old(self).sandbox_changes@.contains_key(key) ==> final(self).changes_tab
                == old(self).sandbox_changes@[key],
            old(self).active_sandbox_key matches Some(previous) ==> previous != key && old(
                self).sandbox_changes@.contains_key(previous) ==> final(
                self).sandbox_changes@.contains_key(previous) && final(
                self).sandbox_changes@[previous] == old(self).changes_tab,
            forall|other: usize|
                #![trigger final(self).sandbox_changes@.contains_key(other)]
                other != key && old(self).active_sandbox_key != Some(other) ==> {
                    &&& final(self).sandbox_changes@.contains_key(other) == old(
                        self).sandbox_changes@.contains_key(other)
                    &&& old(self).sandbox_changes@.contains_key(other) ==> final(
                        self).sandbox_changes@[other] == old(self).sandbox_changes@[other]
                },
    {
        let ghost mut behind = self.sandbox_changes@;
        if self.needs_watcher(key) {
            let mut tab = ChangesTab::new();
            tab.service = Some(DiffService::new(key, text::copy_optional(&self.host_mount_path)));
            proof {
                assert(is_fresh(
                    tab,
                    (DiffService { sandbox: key, host_mount_path: old(self).host_mount_path }),
                ));
                behind = behind.insert(key, tab);
            }
            self.sandbox_changes.insert(key, tab);
            assert(self.sandbox_changes@ == behind);
        }
        if watching {
            self.sandbox_watchers.insert(key);
        } else {
            assert(self.sandbox_watchers@ == old(self).sandbox_watchers@);
        }
        match self.active_sandbox_key {
            Some(previous) => {
                if previous != key {
                    self.swap_front(previous);
                    self.swap_front(key);
                }
            },
            None => {
                self.swap_front(key);
            },
        }
        assert((self.changes_tab, self.sandbox_changes@) == brought_to_front(
            old(self).changes_tab,
            behind,
            old(self).active_sandbox_key,
            key,
        ));
        self.active_sandbox_key = Some(key);
        self.visible = true;
    }

    /// Turns to a workspace. The list of the one before is put aside, its sandboxes are let go,
    /// and the list that was put aside for the new one comes back, else the list is emptied.
    pub fn show_waiting(
        &mut self,
        workspace_id: i64,
        workspace_path: String,
        host_mount_path: Option<String>,
    )
        ensures
            old(self).workspace_id == Some(workspace_id) ==> *final(self) == *old(self),
            old(self).workspace_id != Some(workspace_id) ==> {
                &&& final(self).visible == old(self).visible
                &&& final(self).workspace_id == Some(workspace_id)
                &&& final(self).active_sandbox_key is None
                &&& final(self).workspace_path == workspace_path
                &&& final(self).host_mount_path == host_mount_path
                &&& final(self).sandbox_changes@ == Map::<usize, ChangesTab>::empty()
                &&& final(self).sandbox_watchers@ == Set::<usize>::empty()
                &&& final(self).changes_tab.service == old(self).changes_tab.service
                &&& final(self).changes_tab.on_ask_agent == old(self).changes_tab.on_ask_agent
                &&& if old(self).cache@.contains_key(workspace_id) {
                    final(self).changes_tab == (ChangesTab {
                        changed_files: old(self).cache@[workspace_id].changed_files,
                        ..old(self).changes_tab
                    })
                } else {
                    final(self).changes_tab.is_clear()
                }
                &&& forall|id: i64| #[trigger]
                    final(self).cache@.contains_key(id) == (id != workspace_id && (
                    old(self).cache@.contains_key(id) || old(self).workspace_id == Some(id)))
                &&& old(self).workspace_id matches Some(left) ==> {
                    final(self).cache@[left].changed_files.entries()
                        == old(self).changes_tab.files()
                }
                &&& forall|id: i64|
                    #![trigger final(self).cache@[id]]
                    id != workspace_id && old(self).workspace_id != Some(id)
                        && old(self).cache@.contains_key(id) ==> final(self).cache@[id]
                        == old(self).cache@[id]
            },
    {
        let switching = match self.workspace_id {
            Some(id) => id != workspace_id,
            None => true,
        };
        if switching {
            if let Some(left) = self.workspace_id {
                self.cache.insert(left, self.changes_tab.snapshot());
            }
            self.active_sandbox_key = None;
            self.sandbox_watchers.clear();
            self.sandbox_changes.clear();
            self.workspace_path = workspace_path;
            self.host_mount_path = host_mount_path;
            self.workspace_id = Some(workspace_id);
            if let Some(cached) = self.cache.remove(&workspace_id) {
                self.changes_tab.restore(cached);
            } else {
                self.changes_tab.clear();
                assert(self.changes_tab.files() =~= Seq::empty());
            }
        }
    }

    /// Hides the panel and lets the workspace go. Lists put aside stay.
    pub fn deactivate(&mut self)
        ensures
            !final(self).visible,
            final(self).workspace_id is None,
            final(self).active_sandbox_key is None,
            final(self).host_mount_path is None,
            final(self).workspace_path == old(self).workspace_path,
            final(self).cache@ == old(self).cache@,
            final(self).sandbox_changes@ == Map::<usize, ChangesTab>::empty(),
            final(self).sandbox_watchers@ == Set::<usize>::empty(),
            final(self).changes_tab.is_clear(),
            final(self).changes_tab.service is None,
            final(self).changes_tab.on_ask_agent == old(self).changes_tab.on_ask_agent,
    {
        self.visible = false;
        self.workspace_id = None;
        self.active_sandbox_key = None;
        self.host_mount_path = None;
        self.sandbox_watchers.clear();
        self.sandbox_changes.clear();
        self.changes_tab.service = None;
        self.changes_tab.clear();
    }

    /// Takes in what a sandbox's events came to: in its list behind, and in the list in front too
    /// where the sandbox is the active one. Watching goes on while the panel is visible.
    pub fn on_result(&mut self, key: usize, result: &DiffResult) -> (r: ResultEffects)
        ensures
            r.go_on == old(self).visible,
            *final(self) == (SidePanel {
                changes_tab: final(self).changes_tab,
                sandbox_changes: final(self).sandbox_changes,
                ..*old(self)
            }),
            if old(self).sandbox_changes@.contains_key(key) {
                let tab = final(self).sandbox_changes@[key];
                &&& final(self).sandbox_changes@ == old(self).sandbox_changes@.insert(key, tab)
                &&& ChangesTab::applied(
                    old(self).sandbox_changes@[key],
                    tab,
                    *result,
                    r.background@,
                )
            } else {
                final(self).sandbox_changes@ == old(self).sandbox_changes@ && r.background@.len()
                    == 0
            },
            if old(self).active_sandbox_key == Some(key) {
                ChangesTab::applied(
                    old(self).changes_tab,
                    final(self).changes_tab,
                    *result,
                    r.shown@,
                )
            } else {
                final(self).changes_tab == old(self).changes_tab && r.shown@.len() == 0
            },
    {
        let mut background: Vec<TabEffect> = Vec::new();
        if let Some(mut tab) = self.sandbox_changes.remove(&key) {
            background = tab.apply_results(result);
            self.sandbox_changes.insert(key, tab);
            assert(self.sandbox_changes@ =~= old(self).sandbox_changes@.insert(key, tab));
        } else {
            assert(self.sandbox_changes@ =~= old(self).sandbox_changes@);
        }
        let mut shown: Vec<TabEffect> = Vec::new();
        let active = match self.active_sandbox_key {
            Some(k) => k == key,
            None => false,
        };
        if active {
            shown = self.changes_tab.apply_results(result);
        }
        ResultEffects { background, shown, go_on: self.visible }
    }
}

/// The list of a sandbox that becomes active is the one in front. What was in front stands behind
/// under the sandbox that was active, where one was, and every other list stays where it is.
pub proof fn law_active_list_is_in_front(
    front: ChangesTab,
    behind: Map<usize, ChangesTab>,
    active: Option<usize>,
    key: usize,
    other: usize,
)
    requires
        behind.contains_key(key),
    ensures
        ({
            let (now, stored) = brought_to_front(front, behind, active, key);
            &&& now == (if active == Some(key) {
                front
            } else {
                behind[key]
            })
            &&& stored.dom() == behind.dom()
            &&& active is None ==> stored[key] == front
            &&& active matches Some(previous) ==> previous != key && behind.contains_key(previous)
                ==> stored[previous] == front
            &&& other != key && active != Some(other) ==> stored[other] == behind[other]
        }),
{
    let (now, stored) = brought_to_front(front, behind, active, key);
    assert(stored.dom() =~= behind.dom());
}

/// Where two sandboxes are known, bringing one to the front and then the other back restores
/// what was in front and behind.
pub proof fn law_switching_back(
    front: ChangesTab,
    behind: Map<usize, ChangesTab>,
    a: usize,
    b: usize,
)
    requires
        a != b,
        behind.contains_key(a),
        behind.contains_key(b),
    ensures
        ({
            let there = brought_to_front(front, behind, Some(a), b);
            brought_to_front(there.0, there.1, Some(b), a) == (front, behind)
        }),
{
    let there = brought_to_front(front, behind, Some(a), b);
    let back = brought_to_front(there.0, there.1, Some(b), a);
    assert(back.1 =~= behind);
}

} // verus!
