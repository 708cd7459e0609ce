//! A workspace in the sidebar.

use crate::dialogs::new_workspace::{last_part_of, CreateWorkspaceParams};
use crate::dialogs::new_workspace;
use crate::text;
use crate::theme::ColorRole;
use vstd::prelude::*;

verus! {

/// Lines that were added and removed.
#[derive(Clone, Copy, Debug, PartialEq, Eq, Structural)]
pub struct LineCounts {
    pub additions: u64,
    pub deletions: u64,
}

/// A workspace as the sidebar knows it.
#[derive(Debug)]
pub struct WorkspaceInfo {
    pub id: i64,
    pub name: String,
    pub mount_path: Option<String>,
    pub is_git_repo: bool,
    pub branch_name: Option<String>,
    pub base_branch: Option<String>,
    pub pr_number: Option<i64>,
    pub diff_stats: Option<LineCounts>,
    pub sandbox_cpus: u64,
    pub sandbox_memory_mb: u64,
    pub sandbox_disk_mb: u64,
    pub allowed_hosts: Option<String>,
    pub secrets_config: Option<String>,
}

/// A workspace in the sidebar. `P` is a place on the screen.
#[derive(Debug)]
pub struct WorkspaceItemView<P: Copy> {
    pub workspace: WorkspaceInfo,
    pub cloned_from_name: Option<String>,
    pub is_active: bool,
    /// The number of the shortcut, counted from 1.
    pub badge_index: Option<usize>,
    pub show_menu: bool,
    pub menu_position: P,
}

/// What an item shows.
#[derive(Debug)]
pub struct ItemView<P> {
    pub name: String,
    pub name_color: ColorRole,
    pub background: Option<ColorRole>,
    pub subtitle: String,
    pub diff_label: Option<String>,
    pub badge: Option<String>,
    /// Where the menu is open.
    pub menu: Option<P>,
}

/// What a click on a workspace sets off: it is opened, the side panel waits for its sandbox and is
/// told of one that runs.
#[derive(Debug)]
pub struct Activation {
    pub workspace_id: i64,
    pub sandbox_path: &'static str,
    pub mount_path: Option<String>,
}

/// What happens to an item.
#[derive(Debug)]
pub enum ItemEvent<P> {
    Click,
    RightClick(P),
    /// A click beside the open menu.
    ClickOutside,
    Key(String),
    Duplicate,
    /// The button that deletes was held long enough.
    DeleteHeld,
}

/// What an item asks for.
#[derive(Debug)]
pub enum ItemAction {
    Nothing,
    Activate(Activation),
    /// The copy is to be made.
    Create(CreateWorkspaceParams),
    /// The workspace with this id is to go, with its session.
    Delete(i64),
}

/// The middle dot between the parts of a subtitle.
pub const DOT: &'static str = " \u{00B7} ";

/// The most bytes of a path that are shown whole.
pub const LONGEST_PATH: usize = 30;

/// How many bytes of a longer path are shown.
pub const PATH_TAIL: usize = 27;

/// A path, shortened at its start where it is long.
pub open spec fn shortened(path: Seq<char>) -> Seq<char> {
    let n = text::byte_len(path) as int;
    if n > LONGEST_PATH {
        "..."@ + path.skip(text::chars_before(path, n - PATH_TAIL))
    } else {
        path
    }
}

/// A copy of a workspace, under another name.
pub open spec fn is_duplicate(p: CreateWorkspaceParams, w: WorkspaceInfo) -> bool {
    &&& p.name@ == w.name@ + " (copy)"@
    &&& p.mount_path == w.mount_path
    &&& p.mount_read_only
    &&& p.is_git_repo == w.is_git_repo
    &&& p.branch_name == w.branch_name
    &&& p.base_branch == w.base_branch
    &&& p.initial_prompt is None
    &&& p.sandbox_cpus == w.sandbox_cpus
    &&& p.sandbox_memory_mb == w.sandbox_memory_mb
    &&& p.sandbox_disk_mb == w.sandbox_disk_mb
    &&& p.allowed_hosts == w.allowed_hosts
    &&& p.secrets_config == w.secrets_config
    &&& p.cloned_from_id is None
}

/// What a click on a workspace that is not active sets off.
pub open spec fn activates(a: Activation, w: WorkspaceInfo) -> bool {
    &&& a.workspace_id == w.id
    &&& a.sandbox_path@ == "/workspace"@
    &&& a.mount_path == w.mount_path
}

/// A path can be shortened without cutting a character in two.
pub open spec fn can_be_shortened(path: Seq<char>) -> bool {
    let n = text::byte_len(path) as int;
    n > LONGEST_PATH ==> text::is_boundary(path, n - PATH_TAIL)
}

/// What is said of a repository: its folder, the branch and the pull request.
pub open spec fn repo_parts(w: WorkspaceInfo) -> Seq<Seq<char>> {
    let name = seq![new_workspace::last_part(w.mount_path->0@)];
    let branch = match w.branch_name {
        Some(b) => seq![b@],
        None => seq![],
    };
    let request = match w.pr_number {
        Some(n) => seq!["#"@ + text::signed_decimal(n as int)],
        None => seq![],
    };
    name + branch + request
}

/// The line below the name of a workspace.
pub open spec fn subtitle_of(w: WorkspaceInfo, cloned_from: Option<Seq<char>>) -> Seq<char> {
    match cloned_from {
        Some(name) => "cloned from "@ + name,
        None => match w.mount_path {
            Some(path) => if w.is_git_repo {
                text::joined(repo_parts(w), DOT@)
            } else {
                shortened(path@) + DOT@ + "no git"@
            },
            None => "scratch sandbox"@,
        },
    }
}

/// The lines added and removed, where there are any.
pub open spec fn diff_text(stats: Option<LineCounts>) -> Option<Seq<char>> {
    match stats {
        Some(d) => if d.additions == 0 && d.deletions == 0 {
            None
        } else {
            Some(
                "+"@ + text::decimal(d.additions as nat) + " -"@ + text::decimal(
                    d.deletions as nat,
                ),
            )
        },
        None => None,
    }
}

/// The shortcut of an item.
pub open spec fn badge_text(index: Option<usize>) -> Option<Seq<char>> {
    match index {
        Some(n) => Some("\u{2318}"@ + text::decimal(n as nat)),
        None => None,
    }
}

fn shorten(path: &str) -> (s: String)
    requires
        can_be_shortened(path@),
    ensures
        s@ == shortened(path@),
{
    let n: usize = text::byte_length(path);
    if n > LONGEST_PATH {
        let (_, tail) = text::split_text(path, n - PATH_TAIL);
        let mut s = "...".to_owned();
        s.append(tail);
        s
    } else {
        path.to_owned()
    }
}

impl<P: Copy> WorkspaceItemView<P> {
    pub fn new(
        workspace: WorkspaceInfo,
        cloned_from_name: Option<String>,
        is_active: bool,
        origin: P,
    ) -> (v: Self)
        ensures
            v == (WorkspaceItemView {
                workspace,
                cloned_from_name,
                is_active,
                badge_index: None,
                show_menu: false,
                menu_position: origin,
            }),
    {
        WorkspaceItemView {
            workspace,
            cloned_from_name,
            is_active,
            badge_index: None,
            show_menu: false,
            menu_position: origin,
        }
    }

    /// The line below the name: where it was cloned from, or its repository, or its folder.
    pub fn subtitle(&self) -> (s: String)
        requires
            self.cloned_from_name is None && !self.workspace.is_git_repo ==> (
            self.workspace.mount_path matches Some(p) ==> can_be_shortened(p@)),
        ensures
            s@ == subtitle_of(self.workspace, text::optional_text(self.cloned_from_name)),
    {
        if let Some(name) = &self.cloned_from_name {
            let mut s = "cloned from ".to_owned();
            s.append(name.as_str());
            return s;
        }
        match &self.workspace.mount_path {
            Some(path) => {
                if self.workspace.is_git_repo {
                    let mut parts: Vec<String> = Vec::new();
                    parts.push(last_part_of(path.as_str()));
                    if let Some(branch) = &self.workspace.branch_name {
                        parts.push(branch.clone());
                    }
                    if let Some(n) = self.workspace.pr_number {
                        let mut request = "#".to_owned();
                        let digits = text::signed_decimal_text(n);
                        request.append(digits.as_str());
                        parts.push(request);
                    }
                    assert(text::views(parts@) =~= repo_parts(self.workspace));
                    text::join(&parts, DOT)
                } else {
                    let mut s = shorten(path.as_str());
                    s.append(DOT);
                    s.append("no git");
                    s
                }
            },
            None => "scratch sandbox".to_owned(),
        }
    }

    /// The lines added and removed, where there are any.
    pub fn diff_label(&self) -> (r: Option<String>)
        ensures
            text::optional_text(r) == diff_text(self.workspace.diff_stats),
    {
        match self.workspace.diff_stats {
            None => None,
            Some(d) => {
                if d.additions == 0 && d.deletions == 0 {
                    return None;
                }
                let mut s = "+".to_owned();
                text::push_decimal(&mut s, d.additions);
                s.append(" -");
                text::push_decimal(&mut s, d.deletions);
                Some(s)
            },
        }
    }

    /// The copy of the workspace that is to be made.
    pub fn do_duplicate(&self) -> (p: CreateWorkspaceParams)
        ensures
            is_duplicate(p, self.workspace),
    {
        let mut name = self.workspace.name.clone();
        name.append(" (copy)");
        CreateWorkspaceParams {
            name,
            mount_path: text::copy_optional(&self.workspace.mount_path),
            mount_read_only: true,
            is_git_repo: self.workspace.is_git_repo,
            branch_name: text::copy_optional(&self.workspace.branch_name),
            base_branch: text::copy_optional(&self.workspace.base_branch),
            initial_prompt: None,
            sandbox_cpus: self.workspace.sandbox_cpus,
            sandbox_memory_mb: self.workspace.sandbox_memory_mb,
            sandbox_disk_mb: self.workspace.sandbox_disk_mb,
            allowed_hosts: text::copy_optional(&self.workspace.allowed_hosts),
            secrets_config: text::copy_optional(&self.workspace.secrets_config),
            cloned_from_id: None,
        }
    }

    /// Opens the menu at a place.
    pub fn open_menu(&mut self, position: P)
        ensures
            *final(self) == (WorkspaceItemView {
                show_menu: true,
                menu_position: position,
                ..*old(self)
            }),
    {
        self.menu_position = position;
        self.show_menu = true;
    }

    pub fn close_menu(&mut self)
        ensures
            *final(self) == (WorkspaceItemView { show_menu: false, ..*old(self) }),
    {
        self.show_menu = false;
    }

    /// What a click sets off: nothing on the active workspace.
    pub fn click(&self) -> (r: Option<Activation>)
        ensures
            match r {
                Some(a) => !self.is_active && activates(a, self.workspace),
                None => self.is_active,
            },
    {
        if self.is_active {
            return None;
        }
        Some(
            Activation {
                workspace_id: self.workspace.id,
                sandbox_path: "/workspace",
                mount_path: text::copy_optional(&self.workspace.mount_path),
            },
        )
    }

    /// Something happens to the item. Its menu opens on a right click and closes on a click
    /// beside it, on escape and on its first entry.
    pub fn on_event(&mut self, event: ItemEvent<P>) -> (action: ItemAction)
        ensures
            match event {
                ItemEvent::Click => match action {
                    ItemAction::Nothing => old(self).is_active,
                    ItemAction::Activate(a) => !old(self).is_active && activates(
                        a,
                        old(self).workspace,
                    ),
                    _ => false,
                },
                ItemEvent::Duplicate => action matches ItemAction::Create(p) && is_duplicate(
                    p,
                    old(self).workspace,
                ),
                ItemEvent::DeleteHeld => action matches ItemAction::Delete(id)
                    && id == old(self).workspace.id,
                _ => action is Nothing,
            },
            *final(self) == (match event {
                ItemEvent::RightClick(p) => WorkspaceItemView {
                    show_menu: true,
                    menu_position: p,
                    ..*old(self)
                },
                ItemEvent::ClickOutside | ItemEvent::Duplicate => WorkspaceItemView {
                    show_menu: false,
                    ..*old(self)
                },
                ItemEvent::Key(key) => if key@ == "escape"@ {
                    WorkspaceItemView { show_menu: false, ..*old(self) }
                } else {
                    *old(self)
                },
                _ => *old(self),
            }),
    {
        match event {
            ItemEvent::Click => match self.click() {
                Some(a) => ItemAction::Activate(a),
                None => ItemAction::Nothing,
            },
            ItemEvent::RightClick(p) => {
                self.open_menu(p);
                ItemAction::Nothing
            },
            ItemEvent::ClickOutside => {
                self.close_menu();
                ItemAction::Nothing
            },
            ItemEvent::Key(key) => {
                if text::same_text(key.as_str(), "escape") {
                    self.close_menu();
                }
                ItemAction::Nothing
            },
            ItemEvent::Duplicate => {
                self.close_menu();
                ItemAction::Create(self.do_duplicate())
            },
            ItemEvent::DeleteHeld => ItemAction::Delete(self.workspace.id),
        }
    }

    /// What the item shows. The active workspace stands out.
    pub fn view(&self) -> (v: ItemView<P>)
        requires
            self.cloned_from_name is None && !self.workspace.is_git_repo ==> (
            self.workspace.mount_path matches Some(p) ==> can_be_shortened(p@)),
        ensures
            v.name@ == self.workspace.name@,
            (v.name_color, v.background) == (if self.is_active {
                (ColorRole::TextPrimary, Some(ColorRole::BgActive))
            } else {
                (ColorRole::TextSecondary, None)
            }),
            v.subtitle@ == subtitle_of(
                self.workspace,
                text::optional_text(self.cloned_from_name),
            ),
            text::optional_text(v.diff_label) == diff_text(self.workspace.diff_stats),
            text::optional_text(v.badge) == badge_text(self.badge_index),
            v.menu == (if self.show_menu {
                Some(self.menu_position)
            } else {
                None
            }),
    {
        ItemView {
            name: self.workspace.name.clone(),
            name_color: if self.is_active {
                ColorRole::TextPrimary
            } else {
                ColorRole::TextSecondary
            },
            background: if self.is_active {
                Some(ColorRole::BgActive)
            } else {
                None
            },
            subtitle: self.subtitle(),
            diff_label: self.diff_label(),
            badge: self.badge(),
            menu: if self.show_menu {
                Some(self.menu_position)
            } else {
                None
            },
        }
    }

    /// The shortcut on the item, where it has one.
    pub fn badge(&self) -> (r: Option<String>)
        ensures
            text::optional_text(r) == badge_text(self.badge_index),
    {
        match self.badge_index {
            Some(n) => {
                let mut s = "\u{2318}".to_owned();
                text::push_decimal(&mut s, n as u64);
                Some(s)
            },
            None => None,
        }
    }
}

/// A path that is shortened takes at most 30 bytes and ends as the path does; a short one stays.
pub proof fn law_shortened_path_ends_the_same(path: Seq<char>)
    requires
        can_be_shortened(path),
    ensures
        text::byte_len(shortened(path)) <= 30,
        text::byte_len(path) <= 30 ==> shortened(path) == path,
        text::byte_len(path) > 30 ==> exists|k: int|
            0 <= k <= path.len() && shortened(path) == seq!['.', '.', '.'] + #[trigger] path.skip(k)
                && text::byte_len(path.skip(k)) == 27,
{
    let n = text::byte_len(path) as int;
    if n > LONGEST_PATH {
        text::lemma_boundary(path, n - PATH_TAIL);
        let k = text::chars_before(path, n - PATH_TAIL);
        reveal_strlit("...");
        assert("..."@ =~= seq!['.', '.', '.']);
        assert(path =~= path.take(k) + path.skip(k));
        text::lemma_byte_len_concat(path.take(k), path.skip(k));
        text::lemma_byte_len_concat("..."@, path.skip(k));
        let e = Seq::<char>::empty();
        text::lemma_byte_len_push(e, '.');
        text::lemma_byte_len_push(e.push('.'), '.');
        text::lemma_byte_len_push(e.push('.').push('.'), '.');
        assert(e.push('.').push('.').push('.') =~= "..."@);
        assert(shortened(path) == seq!['.', '.', '.'] + path.skip(k));
    }
}

/// What is said below a name: of a clone where it comes from, whatever else is known; of a folder
/// without a repository that it has none; of a repository its folder, then its branch, then its
/// request, as far as it has them.
pub proof fn law_subtitle(w: WorkspaceInfo, name: Seq<char>)
    ensures
        subtitle_of(w, Some(name)) == "cloned from "@ + name,
        w.mount_path is None ==> subtitle_of(w, None) == "scratch sandbox"@,
        w.mount_path is Some && w.is_git_repo && w.branch_name is None && w.pr_number is None
            ==> subtitle_of(w, None) == new_workspace::last_part(w.mount_path->0@),
        w.mount_path is Some && w.is_git_repo && w.branch_name is Some && w.pr_number is None
            ==> subtitle_of(w, None) == new_workspace::last_part(w.mount_path->0@) + DOT@
            + w.branch_name->0@,
        w.mount_path is Some && w.is_git_repo && w.pr_number is Some ==> ("#"@
            + text::signed_decimal(w.pr_number->0 as int)).is_suffix_of(subtitle_of(w, None)),
        w.mount_path is Some && !w.is_git_repo ==> "no git"@.is_suffix_of(subtitle_of(w, None)),
{
    if w.mount_path is Some && w.is_git_repo {
        reveal_with_fuel(text::joined, 4);
        let parts = repo_parts(w);
        let s = text::joined(parts, DOT@);
        if w.pr_number is Some {
            let tail = "#"@ + text::signed_decimal(w.pr_number->0 as int);
            assert(parts.last() =~= tail);
            assert(parts.len() > 1);
            let head = text::joined(parts.drop_last(), DOT@) + DOT@;
            assert(s =~= head + tail);
            assert((head + tail).subrange(head.len() as int, s.len() as int) =~= tail);
        } else if w.branch_name is Some {
            assert(parts.drop_last() =~= seq![new_workspace::last_part(w.mount_path->0@)]);
        } else {
            assert(parts =~= seq![new_workspace::last_part(w.mount_path->0@)]);
        }
    } else if w.mount_path is Some {
        let s = subtitle_of(w, None);
        let head = shortened(w.mount_path->0@) + DOT@;
        assert((head + "no git"@).subrange(head.len() as int, s.len() as int) =~= "no git"@);
    }
}

/// The lines added and removed are told exactly where there are any of either.
pub proof fn law_counts_are_told(stats: Option<LineCounts>)
    ensures
        diff_text(stats) is Some <==> (stats is Some && (stats->0.additions > 0
            || stats->0.deletions > 0)),
{
}

/// A copy of a workspace takes over its folder, its repository, its machine and what it may reach,
/// under a name of its own, and starts without a prompt.
pub proof fn law_copy_of_a_workspace(p: CreateWorkspaceParams, w: WorkspaceInfo)
    requires
        is_duplicate(p, w),
    ensures
        p.name@ != w.name@,
        w.name@.is_prefix_of(p.name@),
        p.mount_path == w.mount_path,
        p.is_git_repo == w.is_git_repo && p.branch_name == w.branch_name && p.base_branch
            == w.base_branch,
        p.sandbox_cpus == w.sandbox_cpus && p.sandbox_memory_mb == w.sandbox_memory_mb
            && p.sandbox_disk_mb == w.sandbox_disk_mb,
        p.allowed_hosts == w.allowed_hosts && p.secrets_config == w.secrets_config,
        p.mount_read_only,
        p.initial_prompt is None && p.cloned_from_id is None,
{
    reveal_strlit(" (copy)");
    assert(p.name@.len() == w.name@.len() + 7);
}

} // verus!
