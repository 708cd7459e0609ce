//! What the review panel does with the files of a sandbox.

use crate::review::changes_tab::FileStatus;
use crate::review::diff_engine;
use crate::review::diff_engine::{CopyPlan, DiffStats, FileDiff};
use vstd::prelude::*;

verus! {

/// A sandbox with the host directory mounted in it, if any.
#[derive(Debug)]
pub struct DiffService {
    pub sandbox: usize,
    pub host_mount_path: Option<String>,
}

impl Clone for DiffService {
    fn clone(&self) -> (r: Self)
        ensures
            r == *self,
    {
        let host_mount_path = match &self.host_mount_path {
            Some(path) => Some(path.clone()),
            None => None,
        };
        DiffService { sandbox: self.sandbox, host_mount_path }
    }
}

/// The bytes that were read, or none where the file could not be read.
pub open spec fn bytes_or_empty(read: Option<Vec<u8>>) -> Seq<u8> {
    match read {
        Some(bytes) => bytes@,
        None => seq![],
    }
}

/// `r` counts the lines that are added and removed between two versions of a file.
pub open spec fn stats_fit(old: Seq<u8>, new: Seq<u8>, r: (DiffStats, bool)) -> bool {
    &&& diff_engine::stats_show(old, new, r.0, r.1)
    &&& !r.1 ==> diff_engine::totals_fit(old, new, r.0.additions as int, r.0.deletions as int)
}

/// What keeping a change does on the host.
#[derive(Debug)]
pub enum KeepAction {
    Nothing,
    DeleteHostFile { path: String },
    CopyToHost { plan: CopyPlan },
}

/// What keeping a change does: it deletes the host's file for a deletion, else it copies the
/// sandbox's version over, unless the path is refused.
pub open spec fn keeps(
    action: KeepAction,
    service: DiffService,
    path: Seq<char>,
    status: FileStatus,
) -> bool {
    let refused = crate::text::contains_text(path, ".."@) || diff_engine::is_git_internal(path);
    match action {
        KeepAction::DeleteHostFile { path: p } => status == FileStatus::Deleted
            && service.host_file(path) == Some(p@),
        KeepAction::CopyToHost { plan } => status != FileStatus::Deleted && !refused
            && service.host_file(path) == Some(plan.host_path@) && plan.sandbox_path@
            == diff_engine::path_under("/workspace"@, path),
        KeepAction::Nothing => service.host_mount_path is None || (status != FileStatus::Deleted
            && refused),
    }
}

impl DiffService {
    pub fn new(sandbox: usize, host_mount_path: Option<String>) -> (s: Self)
        ensures
            s.sandbox == sandbox,
            s.host_mount_path == host_mount_path,
    {
        DiffService { sandbox, host_mount_path }
    }

    /// Where a file lies on the host.
    pub open spec fn host_file(self, path: Seq<char>) -> Option<Seq<char>> {
        match self.host_mount_path {
            Some(host) => Some(diff_engine::path_under(host@, path)),
            None => None,
        }
    }

    /// Where a file lies on the host, if a host directory is mounted.
    pub fn host_path(&self, path: &str) -> (r: Option<String>)
        ensures
            r is Some == self.host_file(path@) is Some,
            r matches Some(p) ==> self.host_file(path@) == Some(p@),
    {
        match &self.host_mount_path {
            Some(host) => Some(diff_engine::join_path(host.as_str(), path)),
            None => None,
        }
    }

    /// Where a file lies in the sandbox.
    pub fn sandbox_path(&self, path: &str) -> (p: String)
        ensures
            p@ == diff_engine::path_under("/workspace"@, path@),
    {
        diff_engine::join_path("/workspace", path)
    }

    /// The diff between the host's version of a file and the sandbox's. A version that could not
    /// be read counts as empty.
    pub fn compute_diff(&self, host: Option<Vec<u8>>, sandbox: Option<Vec<u8>>) -> (diff: FileDiff)
        requires
            diff_engine::can_be_diffed(bytes_or_empty(host), bytes_or_empty(sandbox)),
        ensures
            diff_engine::diff_shows(bytes_or_empty(host), bytes_or_empty(sandbox), diff),
            diff_engine::diff_is_sound(bytes_or_empty(host), bytes_or_empty(sandbox), diff),
    {
        let old = or_empty(host);
        let new = or_empty(sandbox);
        diff_engine::compute_file_diff(old.as_slice(), new.as_slice())
    }

    /// The same diff, or none where the versions hold too many different lines for one.
    pub fn try_compute_diff(&self, host: Option<Vec<u8>>, sandbox: Option<Vec<u8>>) -> (r: Option<
        FileDiff,
    >)
        ensures
            r is Some == diff_engine::can_be_diffed(bytes_or_empty(host), bytes_or_empty(sandbox)),
            r matches Some(diff) ==> diff_engine::diff_shows(
                bytes_or_empty(host),
                bytes_or_empty(sandbox),
                diff,
            ) && diff_engine::diff_is_sound(bytes_or_empty(host), bytes_or_empty(sandbox), diff),
    {
        let old = or_empty(host);
        let new = or_empty(sandbox);
        if diff_engine::few_different_lines(old.as_slice(), new.as_slice()) {
            Some(self.compute_diff(Some(old), Some(new)))
        } else {
            None
        }
    }

    /// The counts of the same diff.
    pub fn compute_stats(&self, host: Option<Vec<u8>>, sandbox: Option<Vec<u8>>) -> (r: (
        DiffStats,
        bool,
    ))
        requires
            diff_engine::can_be_diffed(bytes_or_empty(host), bytes_or_empty(sandbox)),
        ensures
            stats_fit(bytes_or_empty(host), bytes_or_empty(sandbox), r),
    {
        let old = or_empty(host);
        let new = or_empty(sandbox);
        diff_engine::compute_file_stats(old.as_slice(), new.as_slice())
    }

    /// The same counts, or none where the versions hold too many different lines for a diff.
    pub fn try_compute_stats(&self, host: Option<Vec<u8>>, sandbox: Option<Vec<u8>>) -> (r: Option<
        (DiffStats, bool),
    >)
        ensures
            r is Some == diff_engine::can_be_diffed(bytes_or_empty(host), bytes_or_empty(sandbox)),
            r matches Some(stats) ==> stats_fit(
                bytes_or_empty(host),
                bytes_or_empty(sandbox),
                stats,
            ),
    {
        let old = or_empty(host);
        let new = or_empty(sandbox);
        if diff_engine::few_different_lines(old.as_slice(), new.as_slice()) {
            Some(self.compute_stats(Some(old), Some(new)))
        } else {
            None
        }
    }

    /// What keeping a change does: it deletes the host's file for a deletion, else it copies the
    /// sandbox's version over, unless the path is refused. Without a host there is nothing to do.
    pub fn keep_file(&self, path: &str, status: FileStatus) -> (action: KeepAction)
        ensures
            keeps(action, *self, path@, status),
    {
        match &self.host_mount_path {
            Some(host) => if status == FileStatus::Deleted {
                KeepAction::DeleteHostFile { path: diff_engine::join_path(host.as_str(), path) }
            } else {
                match diff_engine::plan_copy(path, host.as_str()) {
                    Ok(plan) => KeepAction::CopyToHost { plan },
                    Err(_) => KeepAction::Nothing,
                }
            },
            None => KeepAction::Nothing,
        }
    }

    /// The sandbox path whose overlay is to be discarded.
    pub fn discard_file(&self, path: &str) -> (p: String)
        ensures
            p@ == diff_engine::path_under("/workspace"@, path@),
    {
        self.sandbox_path(path)
    }
}

fn or_empty(read: Option<Vec<u8>>) -> (v: Vec<u8>)
    ensures
        v@ == bytes_or_empty(read),
{
    match read {
        Some(bytes) => bytes,
        None => Vec::new(),
    }
}

/// What keeping a change does on the host, by its inputs alone. Without a host directory nothing is
/// done. The deletion of a file is repeated on the host, at the file's place there. Any other
/// change copies the sandbox's file to that place, unless the path climbs or leads into git's own
/// directory; such a path is never copied.
pub proof fn law_keeping_touches_the_host_file(
    action: KeepAction,
    service: DiffService,
    path: Seq<char>,
    status: FileStatus,
)
    requires
        keeps(action, service, path, status),
    ensures
        service.host_mount_path is None ==> action is Nothing,
        service.host_mount_path matches Some(host) ==> {
            let climbs = exists|i: int|
                0 <= i < path.len() - 1 && path[i] == '.' && #[trigger] path[i + 1] == '.';
            let in_git = path.len() >= 4 && path.take(4) == seq!['.', 'g', 'i', 't'] && (path.len()
                == 4 || path[4] == '/');
            &&& status == FileStatus::Deleted ==> (action matches KeepAction::DeleteHostFile {
                path: p,
            } && p@ == host@ + seq!['/'] + path)
            &&& status != FileStatus::Deleted && (climbs || in_git) ==> action is Nothing
            &&& status != FileStatus::Deleted && !climbs && !in_git ==> (
            action matches KeepAction::CopyToHost { plan } && plan.host_path@ == host@ + seq![
                '/',
            ] + path && plan.sandbox_path@ == "/workspace"@ + seq!['/'] + path)
        },
{
    reveal_strlit("..");
    reveal_strlit("/");
    reveal_strlit(".git");
    reveal_strlit(".git/");
    assert("/"@ =~= seq!['/']);
    assert(".."@ =~= seq!['.', '.']);
    assert(".git"@ =~= seq!['.', 'g', 'i', 't']);
    assert(".git/"@ =~= seq!['.', 'g', 'i', 't', '/']);
    if crate::text::contains_text(path, ".."@) {
        let i = choose|i: int| crate::text::occurs_at(path, ".."@, i);
        assert(path.subrange(i, i + 2)[0] == '.');
        assert(path.subrange(i, i + 2)[1] == '.');
        assert(path[i + 1] == '.');
    }
    assert forall|i: int|
        0 <= i < path.len() - 1 && path[i] == '.' && #[trigger] path[i + 1] == '.' implies
        crate::text::contains_text(path, ".."@) by {
        assert(path.subrange(i, i + 2) =~= ".."@);
        assert(crate::text::occurs_at(path, ".."@, i));
    }
    let stem = seq!['.', 'g', 'i', 't'];
    if diff_engine::is_git_internal(path) {
        if path == ".git"@ {
            assert(path.take(4) =~= stem);
        } else {
            assert(path.take(5)[4] == '/');
            assert(path.take(4) =~= path.take(5).take(4));
            assert(".git/"@.take(4) =~= stem);
        }
    } else if path.len() >= 4 && path.take(4) == stem {
        if path.len() == 4 {
            assert(path.take(4) =~= path);
        } else if path[4] == '/' {
            assert(path.take(5) =~= path.take(4).push('/'));
            assert(path.take(5) =~= ".git/"@);
        }
    }
}

} // verus!
