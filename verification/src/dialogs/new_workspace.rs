//! The dialog that makes a workspace.

use crate::settings::StoredSettings;
use crate::text;
use crate::theme::ColorRole;
use vstd::prelude::*;

verus! {

/// What a new workspace is made from.
#[derive(Debug)]
pub struct CreateWorkspaceParams {
    pub name: String,
    pub mount_path: Option<String>,
    pub mount_read_only: bool,
    pub is_git_repo: bool,
    pub branch_name: Option<String>,
    pub base_branch: Option<String>,
    pub initial_prompt: Option<String>,
    pub sandbox_cpus: u64,
    pub sandbox_memory_mb: u64,
    pub sandbox_disk_mb: u64,
    pub allowed_hosts: Option<String>,
    pub secrets_config: Option<String>,
    pub cloned_from_id: Option<i64>,
}

/// The state of the dialog.
#[derive(Debug)]
pub struct NewWorkspaceDialog {
    pub name: String,
    pub mount_path: Option<String>,
}

/// What the dialog shows of the folder to mount.
#[derive(Debug)]
pub struct MountView {
    pub label: String,
    pub color: ColorRole,
    pub can_clear: bool,
}

/// What was clicked in the dialog.
#[derive(Clone, Copy, Debug, PartialEq, Eq, Structural)]
pub enum DialogClick {
    /// The screen around the dialog.
    Backdrop,
    /// The dialog itself, beside its buttons.
    Card,
    Browse,
    Clear,
    Cancel,
    Create,
}

/// What the dialog asks for.
#[derive(Clone, Copy, Debug, PartialEq, Eq, Structural)]
pub enum DialogAction {
    Nothing,
    /// To be closed.
    Dismiss,
    /// To let a folder be chosen.
    Browse,
    /// To make the workspace.
    Submit,
}

/// The last part of a path.
pub open spec fn last_part(path: Seq<char>) -> Seq<char> {
    text::pieces(path, '/').last()
}

/// The last part of a path.
pub fn last_part_of(path: &str) -> (s: String)
    ensures
        s@ == last_part(path@),
{
    let parts = text::split(path, '/');
    proof {
        lemma_pieces(path@);
        assert(text::views(parts@).last() == parts@.last()@);
    }
    parts[parts.len() - 1].clone()
}

proof fn lemma_pieces(s: Seq<char>)
    ensures
        text::pieces(s, '/').len() > 0,
    decreases s.len(),
{
    if s.len() > 0 {
        lemma_pieces(s.drop_last());
    }
}

impl NewWorkspaceDialog {
    pub fn new() -> (d: Self)
        ensures
            d.name@ == Seq::<char>::empty(),
            d.mount_path is None,
    {
        NewWorkspaceDialog { name: String::new(), mount_path: None }
    }

    /// A folder was chosen to mount, or the choice was taken back.
    pub fn set_mount(&mut self, path: Option<String>)
        ensures
            *final(self) == (NewWorkspaceDialog { mount_path: path, ..*old(self) }),
    {
        self.mount_path = path;
    }

    /// Folders were chosen: the first of them is mounted.
    pub fn folders_chosen(&mut self, paths: &Vec<String>)
        ensures
            paths@.len() == 0 ==> *final(self) == *old(self),
            paths@.len() > 0 ==> *final(self) == (NewWorkspaceDialog {
                mount_path: Some(paths@[0]),
                ..*old(self)
            }),
    {
        if paths.len() > 0 {
            self.mount_path = Some(paths[0].clone());
        }
    }

    /// Something was clicked.
    pub fn click(&mut self, on: DialogClick) -> (action: DialogAction)
        ensures
            action == (match on {
                DialogClick::Backdrop | DialogClick::Cancel => DialogAction::Dismiss,
                DialogClick::Card | DialogClick::Clear => DialogAction::Nothing,
                DialogClick::Browse => DialogAction::Browse,
                DialogClick::Create => DialogAction::Submit,
            }),
            *final(self) == (if on == DialogClick::Clear {
                NewWorkspaceDialog { mount_path: None, ..*old(self) }
            } else {
                *old(self)
            }),
    {
        match on {
            DialogClick::Backdrop | DialogClick::Cancel => DialogAction::Dismiss,
            DialogClick::Card => DialogAction::Nothing,
            DialogClick::Browse => DialogAction::Browse,
            DialogClick::Clear => {
                self.set_mount(None);
                DialogAction::Nothing
            },
            DialogClick::Create => DialogAction::Submit,
        }
    }

    /// A key was pressed: escape closes the dialog.
    pub fn key_down(&self, key: &str) -> (action: DialogAction)
        ensures
            action == (if key@ == "escape"@ {
                DialogAction::Dismiss
            } else {
                DialogAction::Nothing
            }),
    {
        if text::same_text(key, "escape") {
            DialogAction::Dismiss
        } else {
            DialogAction::Nothing
        }
    }

    /// The workspace to make, where it has a name. `has_git` says whether the folder holds a
    /// repository.
    pub fn submit(&self, has_git: bool, settings: Option<&StoredSettings>) -> (r: Option<
        CreateWorkspaceParams,
    >)
        ensures
            match r {
                None => self.name@.len() == 0,
                Some(p) => {
                    &&& self.name@.len() > 0
                    &&& p.name@ == self.name@
                    &&& text::optional_text(p.mount_path) == text::optional_text(
                        self.mount_path,
                    )
                    &&& p.mount_read_only
                    &&& p.is_git_repo == (self.mount_path is Some && has_git)
                    &&& p.branch_name is None
                    &&& p.base_branch is None
                    &&& p.initial_prompt is None
                    &&& (p.sandbox_cpus, p.sandbox_memory_mb, p.sandbox_disk_mb) == (
                    match settings {
                        Some(s) => (s.sandbox_cpus, s.sandbox_memory_mb, s.sandbox_disk_mb),
                        None => (2u64, 8192u64, 16384u64),
                    })
                    &&& p.allowed_hosts is None
                    &&& p.secrets_config is None
                    &&& p.cloned_from_id is None
                },
            },
    {
        let chars = text::to_chars(self.name.as_str());
        if chars.len() == 0 {
            return None;
        }
        let (cpus, memory, disk): (u64, u64, u64) = match settings {
            Some(s) => (s.sandbox_cpus, s.sandbox_memory_mb, s.sandbox_disk_mb),
            None => (2, 8192, 16384),
        };
        Some(
            CreateWorkspaceParams {
                name: self.name.clone(),
                mount_path: text::copy_optional(&self.mount_path),
                mount_read_only: true,
                is_git_repo: self.mount_path.is_some() && has_git,
                branch_name: None,
                base_branch: None,
                initial_prompt: None,
                sandbox_cpus: cpus,
                sandbox_memory_mb: memory,
                sandbox_disk_mb: disk,
                allowed_hosts: None,
                secrets_config: None,
                cloned_from_id: None,
            },
        )
    }

    /// What the dialog shows of the folder.
    pub fn mount_display(&self) -> (v: MountView)
        ensures
            v.can_clear == (self.mount_path is Some),
            match self.mount_path {
                Some(p) => v.label@ == last_part(p@) && v.color == ColorRole::TextSecondary,
                None => v.label@ == "None (scratch sandbox)"@ && v.color == ColorRole::TextGhost,
            },
    {
        match &self.mount_path {
            Some(p) => MountView {
                label: last_part_of(p.as_str()),
                color: ColorRole::TextSecondary,
                can_clear: true,
            },
            None => MountView {
                label: "None (scratch sandbox)".to_owned(),
                color: ColorRole::TextGhost,
                can_clear: false,
            },
        }
    }
}

/// The last part of a path is what stands behind its last slash, or all of it without one.
pub proof fn law_last_part(before: Seq<char>, name: Seq<char>)
    requires
        !name.contains('/'),
    ensures
        last_part(before.push('/') + name) == name,
        last_part(name) == name,
{
    text::law_whole_text_is_a_piece(name, '/');
    text::law_pieces_part_at_separators(before, '/', name);
}

} // verus!
