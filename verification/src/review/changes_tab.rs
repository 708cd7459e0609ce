//! The list of changed files.

use crate::review::diff_engine::DiffStats;
use crate::review::diff_service::{DiffService, KeepAction};
use crate::review::diff_service;
use crate::review::diff_view;
use crate::review::diff_view::{DiffDisplayLine, SelectionInner};
use crate::review::file_row;
use crate::review::watcher::DiffResult;
use crate::text;
use crate::text_map;
use crate::text_map::TextMap;
use crate::text_set::TextSet;
use vstd::prelude::*;

verus! {

#[derive(Clone, Copy, Debug, PartialEq, Eq, Structural)]
pub enum FileStatus {
    Modified,
    Added,
    Deleted,
}

/// A changed file with what became of it.
#[derive(Debug)]
pub struct ChangedFile {
    pub path: String,
    pub status: FileStatus,
}

/// What an event for a file does to the list.
#[derive(Clone, Copy, Debug, PartialEq, Eq, Structural)]
pub enum RowAction {
    /// The file waits for a decision of the user: nothing.
    Skip,
    /// The row has this status already: its content is read again.
    RefreshContent,
    /// The row has another status: it starts over.
    RefreshWithStatusChange { new_status: FileStatus },
    /// No row yet for a modified file: it is added once its diff turns out not to be empty.
    ProbeThenAdd,
    /// No row yet for a new or deleted file: it is added at once.
    AddNow,
}

/// What an event of `status` does to a row of `existing`.
pub open spec fn row_action(
    status: FileStatus,
    existing: Option<FileStatus>,
    suppressed: bool,
) -> RowAction {
    if suppressed {
        RowAction::Skip
    } else {
        match existing {
            Some(previous) => if previous == status {
                RowAction::RefreshContent
            } else {
                RowAction::RefreshWithStatusChange { new_status: status }
            },
            None => if status == FileStatus::Modified {
                RowAction::ProbeThenAdd
            } else {
                RowAction::AddNow
            },
        }
    }
}

pub fn decide_row_action(
    event_status: FileStatus,
    existing_status: Option<FileStatus>,
    suppressed: bool,
) -> (action: RowAction)
    ensures
        action == row_action(event_status, existing_status, suppressed),
{
    if suppressed {
        return RowAction::Skip;
    }
    match existing_status {
        Some(previous) => if previous == event_status {
            RowAction::RefreshContent
        } else {
            RowAction::RefreshWithStatusChange { new_status: event_status }
        },
        None => match event_status {
            FileStatus::Modified => RowAction::ProbeThenAdd,
            FileStatus::Added | FileStatus::Deleted => RowAction::AddNow,
        },
    }
}

/// Files in order, each with its status.
pub type FileSeq = Seq<(Seq<char>, FileStatus)>;

/// What is to be done outside the list for an event.
#[derive(Debug)]
pub enum TabEffect {
    /// The row of this file reads its content again.
    RefreshContent { path: String },
    /// The row of this file starts over with a status.
    UpdateStatus { path: String, status: FileStatus },
    /// The counts of this file are computed, to see whether it is to be added.
    Probe { path: String, status: FileStatus },
}

/// An effect with its path as characters.
pub enum EffectView {
    RefreshContent(Seq<char>),
    UpdateStatus(Seq<char>, FileStatus),
    Probe(Seq<char>, FileStatus),
}

impl View for TabEffect {
    type V = EffectView;

    open spec fn view(&self) -> EffectView {
        match *self {
            TabEffect::RefreshContent { path } => EffectView::RefreshContent(path@),
            TabEffect::UpdateStatus { path, status } => EffectView::UpdateStatus(path@, status),
            TabEffect::Probe { path, status } => EffectView::Probe(path@, status),
        }
    }
}

/// The views of a list of effects.
pub open spec fn effect_views(effects: Seq<TabEffect>) -> Seq<EffectView> {
    effects.map_values(|e: TabEffect| e@)
}

/// The files after one event.
pub open spec fn after_update(
    files: FileSeq,
    suppressed: Set<Seq<char>>,
    path: Seq<char>,
    status: FileStatus,
) -> FileSeq {
    match row_action(status, text_map::value_of(files, path), suppressed.contains(path)) {
        RowAction::Skip | RowAction::ProbeThenAdd => files,
        _ => text_map::with_entry(files, path, status),
    }
}

/// The files after all events.
pub open spec fn after_updates(
    files: FileSeq,
    suppressed: Set<Seq<char>>,
    updates: FileSeq,
) -> FileSeq
    decreases updates.len(),
{
    if updates.len() == 0 {
        files
    } else {
        let last = updates.last();
        after_update(after_updates(files, suppressed, updates.drop_last()), suppressed, last.0, last.1)
    }
}

/// The files without those of a list.
pub open spec fn without_all(files: FileSeq, gone: Seq<Seq<char>>) -> FileSeq
    decreases gone.len(),
{
    if gone.len() == 0 {
        files
    } else {
        text_map::without_entry(without_all(files, gone.drop_last()), gone.last())
    }
}

/// What one event asks for, given the files, the rows and whether there is a service.
pub open spec fn update_effects(
    files: FileSeq,
    suppressed: Set<Seq<char>>,
    rows: Set<Seq<char>>,
    has_service: bool,
    path: Seq<char>,
    status: FileStatus,
) -> Seq<EffectView> {
    match row_action(status, text_map::value_of(files, path), suppressed.contains(path)) {
        RowAction::RefreshContent if rows.contains(path) => seq![EffectView::RefreshContent(path)],
        RowAction::RefreshWithStatusChange { .. } if rows.contains(path) => seq![
            EffectView::UpdateStatus(path, status),
        ],
        RowAction::ProbeThenAdd if has_service => seq![EffectView::Probe(path, status)],
        _ => seq![],
    }
}

/// What all events ask for.
pub open spec fn all_effects(
    files: FileSeq,
    suppressed: Set<Seq<char>>,
    rows: Set<Seq<char>>,
    has_service: bool,
    updates: FileSeq,
) -> Seq<EffectView>
    decreases updates.len(),
{
    if updates.len() == 0 {
        seq![]
    } else {
        let rest = updates.drop_last();
        let last = updates.last();
        all_effects(files, suppressed, rows, has_service, rest) + update_effects(
            after_updates(files, suppressed, rest),
            suppressed,
            rows,
            has_service,
            last.0,
            last.1,
        )
    }
}

/// The question to the agent that is being typed: the file and the text that was selected.
#[derive(Debug)]
pub struct AskAgentState {
    pub file_path: String,
    pub selected_text: String,
    /// Whether there was an agent to ask when the question was opened.
    pub has_agent: bool,
}

/// The changed files of a sandbox.
#[derive(Debug)]
pub struct ChangesTab {
    pub changed_files: TextMap<FileStatus>,
    /// The files that have a row.
    pub file_views: TextSet,
    /// The files that were kept or discarded and whose events do not count until they settle.
    pub suppressed: TextSet,
    pub service: Option<DiffService>,
    pub ask_agent: Option<AskAgentState>,
    /// Whether there is an agent to ask.
    pub on_ask_agent: bool,
}

/// The files of a list that was put aside.
#[derive(Debug)]
pub struct ChangesSnapshot {
    pub changed_files: TextMap<FileStatus>,
}

impl ChangesTab {
    pub open spec fn files(&self) -> FileSeq {
        self.changed_files.entries()
    }

    /// Nothing is listed, nothing waits, and nothing is asked.
    pub open spec fn is_clear(self) -> bool {
        &&& self.files().len() == 0
        &&& self.file_views@ == Set::<Seq<char>>::empty()
        &&& self.suppressed@ == Set::<Seq<char>>::empty()
        &&& self.ask_agent is None
    }

    /// The list without a file, which waits for its events to settle.
    pub open spec fn is_without(self, before: ChangesTab, path: Seq<char>) -> bool {
        &&& self.suppressed@ == before.suppressed@.insert(path)
        &&& self.files() == text_map::without_entry(before.files(), path)
        &&& self.file_views@ == before.file_views@.remove(path)
        &&& self == (ChangesTab {
            changed_files: self.changed_files,
            file_views: self.file_views,
            suppressed: self.suppressed,
            ..before
        })
    }

    /// The list without any file; all wait for their events to settle.
    pub open spec fn is_emptied(self, before: ChangesTab) -> bool {
        &&& self.files().len() == 0
        &&& self.file_views@ == Set::<Seq<char>>::empty()
        &&& forall|path: Seq<char>| #[trigger]
            self.suppressed@.contains(path) == (before.suppressed@.contains(path) || before.lists(
                path,
            ))
        &&& self == (ChangesTab {
            changed_files: self.changed_files,
            file_views: self.file_views,
            suppressed: self.suppressed,
            ..before
        })
    }

    /// Whether a file is in the list.
    pub open spec fn lists(&self, path: Seq<char>) -> bool {
        text_map::has_key(self.files(), path)
    }

    pub fn new() -> (tab: Self)
        ensures
            tab.is_clear(),
            tab.service is None,
            !tab.on_ask_agent,
    {
        ChangesTab {
            changed_files: TextMap::new(),
            file_views: TextSet::new(),
            suppressed: TextSet::new(),
            service: None,
            ask_agent: None,
            on_ask_agent: false,
        }
    }

    /// Empties the list; the service stays.
    pub fn clear(&mut self)
        ensures
            final(self).is_clear(),
            final(self).service == old(self).service,
            final(self).on_ask_agent == old(self).on_ask_agent,
    {
        self.changed_files.clear();
        self.file_views.clear();
        self.suppressed.clear();
        self.ask_agent = None;
    }

    pub fn snapshot(&self) -> (snap: ChangesSnapshot)
        ensures
            snap.changed_files.entries() == self.files(),
    {
        ChangesSnapshot { changed_files: self.changed_files.copy() }
    }

    pub fn restore(&mut self, snap: ChangesSnapshot)
        ensures
            *final(self) == (ChangesTab { changed_files: snap.changed_files, ..*old(self) }),
    {
        self.changed_files = snap.changed_files;
    }

    /// `after` is the list `before` with a batch of events taken in, and `effects` is what is to
    /// be done outside it.
    pub open spec fn applied(
        before: ChangesTab,
        after: ChangesTab,
        result: DiffResult,
        effects: Seq<TabEffect>,
    ) -> bool {
        let kept = without_all(before.files(), result.removed_paths.order());
        let updates = result.updated_files.entries();
        &&& after.service == before.service
        &&& after.ask_agent == before.ask_agent
        &&& after.on_ask_agent == before.on_ask_agent
        &&& after.suppressed@ == before.suppressed@.difference(result.dirty_paths@)
        &&& after.file_views@ == before.file_views@.difference(result.removed_paths@)
        &&& after.files() == after_updates(kept, after.suppressed@, updates)
        &&& effect_views(effects) == all_effects(
            kept,
            after.suppressed@,
            after.file_views@,
            before.service is Some,
            updates,
        )
    }

    /// Takes in what a batch of events came to. Returns what is to be done outside the list.
    pub fn apply_results(&mut self, result: &DiffResult) -> (effects: Vec<TabEffect>)
        ensures
            ChangesTab::applied(*old(self), *final(self), *result, effects@),
    {
        self.unsuppress(&result.dirty_paths);
        self.drop_all(&result.removed_paths);
        let ghost start = self.files();
        let ghost updates = result.updated_files.entries();
        let has_service = self.service.is_some();
        let mut effects: Vec<TabEffect> = Vec::new();
        let mut i: usize = 0;
        assert(effect_views(effects@) =~= seq![]);
        while i < result.updated_files.len()
            invariant
                i <= updates.len(),
                updates == result.updated_files.entries(),
                self.service == old(self).service,
                self.ask_agent == old(self).ask_agent,
                self.on_ask_agent == old(self).on_ask_agent,
                has_service == (self.service is Some),
                self.suppressed@ == old(self).suppressed@.difference(result.dirty_paths@),
                self.file_views@ == old(self).file_views@.difference(result.removed_paths@),
                self.files() == after_updates(start, self.suppressed@, updates.take(i as int)),
                effect_views(effects@) == all_effects(
                    start,
                    self.suppressed@,
                    self.file_views@,
                    has_service,
                    updates.take(i as int),
                ),
            decreases updates.len() - i,
        {
            let path = result.updated_files.key(i);
            let status = result.updated_files.value(i);
            let ghost done = effect_views(effects@);
            let ghost files = self.files();
            proof {
                let now = updates.take(i + 1);
                assert(now.drop_last() =~= updates.take(i as int));
                assert(now.last() == (path@, status));
            }
            let action = decide_row_action(
                status,
                self.changed_files.get(path),
                self.suppressed.contains(path),
            );
            let has_row = self.file_views.contains(path);
            match action {
                RowAction::Skip => {},
                RowAction::RefreshContent => {
                    self.changed_files.insert(path, status);
                    if has_row {
                        effects.push(TabEffect::RefreshContent { path: path.to_owned() });
                    }
                },
                RowAction::RefreshWithStatusChange { new_status } => {
                    self.changed_files.insert(path, new_status);
                    if has_row {
                        effects.push(
                            TabEffect::UpdateStatus { path: path.to_owned(), status: new_status },
                        );
                    }
                },
                RowAction::ProbeThenAdd => {
                    if has_service {
                        effects.push(TabEffect::Probe { path: path.to_owned(), status });
                    }
                },
                RowAction::AddNow => {
                    self.changed_files.insert(path, status);
                },
            }
            proof {
                let new = update_effects(
                    files,
                    self.suppressed@,
                    self.file_views@,
                    has_service,
                    path@,
                    status,
                );
                assert(effect_views(effects@) =~= done + new);
            }
            i += 1;
        }
        assert(updates.take(i as int) =~= updates);
        effects
    }

    fn unsuppress(&mut self, paths: &TextSet)
        ensures
            final(self).suppressed@ == old(self).suppressed@.difference(paths@),
            *final(self) == (ChangesTab { suppressed: final(self).suppressed, ..*old(self) }),
    {
        let ghost order = paths.order();
        let mut i: usize = 0;
        proof {
            use_type_invariant(&paths);
            assert(crate::text_set::set_of(order.take(0)) =~= Set::empty());
            assert(self.suppressed@.difference(Set::empty()) =~= self.suppressed@);
        }
        while i < paths.len()
            invariant
                i <= order.len(),
                order == paths.order(),
                *self == (ChangesTab { suppressed: self.suppressed, ..*old(self) }),
                self.suppressed@ == old(self).suppressed@.difference(
                    crate::text_set::set_of(order.take(i as int)),
                ),
            decreases order.len() - i,
        {
            let path = paths.get(i);
            self.suppressed.remove(path);
            proof {
                lemma_set_step(order, i as int);
                assert(self.suppressed@ =~= old(self).suppressed@.difference(
                    crate::text_set::set_of(order.take(i + 1)),
                ));
            }
            i += 1;
        }
        assert(order.take(i as int) =~= order);
    }

    fn drop_all(&mut self, paths: &TextSet)
        ensures
            final(self).files() == without_all(old(self).files(), paths.order()),
            final(self).file_views@ == old(self).file_views@.difference(paths@),
            *final(self) == (ChangesTab {
                changed_files: final(self).changed_files,
                file_views: final(self).file_views,
                ..*old(self)
            }),
    {
        let ghost order = paths.order();
        let mut i: usize = 0;
        proof {
            use_type_invariant(&paths);
            assert(crate::text_set::set_of(order.take(0)) =~= Set::empty());
            assert(self.file_views@.difference(Set::empty()) =~= self.file_views@);
        }
        while i < paths.len()
            invariant
                i <= order.len(),
                order == paths.order(),
                *self == (ChangesTab {
                    changed_files: self.changed_files,
                    file_views: self.file_views,
                    ..*old(self)
                }),
                self.files() == without_all(old(self).files(), order.take(i as int)),
                self.file_views@ == old(self).file_views@.difference(
                    crate::text_set::set_of(order.take(i as int)),
                ),
            decreases order.len() - i,
        {
            let path = paths.get(i);
            self.drop_file(path);
            proof {
                assert(order.take(i + 1).drop_last() =~= order.take(i as int));
                lemma_set_step(order, i as int);
                assert(self.file_views@ =~= old(self).file_views@.difference(
                    crate::text_set::set_of(order.take(i + 1)),
                ));
            }
            i += 1;
        }
        assert(order.take(i as int) =~= order);
    }

    /// The counts of a file that was probed are there: it is added unless they are none, or the
    /// file was kept, discarded or added meanwhile. Returns whether it was added.
    pub fn probe_finished(
        &mut self,
        path: &str,
        status: FileStatus,
        result: Option<(DiffStats, bool)>,
    ) -> (added: bool)
        ensures
            added == ((result matches Some((stats, is_binary)) && !file_row::is_no_change(
                stats,
                is_binary,
            )) && !old(self).suppressed@.contains(path@) && !old(self).lists(path@)),
            final(self).files() == (if added {
                old(self).files().push((path@, status))
            } else {
                old(self).files()
            }),
            *final(self) == (ChangesTab {
                changed_files: final(self).changed_files,
                ..*old(self)
            }),
    {
        let empty = match result {
            Some((stats, is_binary)) => !is_binary && stats.additions == 0 && stats.deletions == 0,
            None => true,
        };
        if empty || self.suppressed.contains(path) {
            return false;
        }
        match self.changed_files.get(path) {
            Some(_) => false,
            None => {
                self.changed_files.insert(path, status);
                true
            },
        }
    }

    /// Takes a file out of the list until its events have settled.
    pub fn suppress_file(&mut self, path: &str)
        ensures
            final(self).is_without(*old(self), path@),
    {
        self.suppressed.insert(path);
        self.drop_file(path);
    }

    /// Takes a file out of the list. Used when its diff turns out to be empty.
    pub fn drop_file(&mut self, path: &str)
        ensures
            final(self).files() == text_map::without_entry(old(self).files(), path@),
            final(self).file_views@ == old(self).file_views@.remove(path@),
            *final(self) == (ChangesTab {
                changed_files: final(self).changed_files,
                file_views: final(self).file_views,
                ..*old(self)
            }),
    {
        self.changed_files.remove(path);
        self.file_views.remove(path);
    }

    /// Takes all files out of the list until their events have settled.
    pub fn suppress_all(&mut self)
        ensures
            final(self).is_emptied(*old(self)),
    {
        let ghost files = self.files();
        let mut i: usize = 0;
        proof {
            assert forall|path: Seq<char>| text_map::place(files, path) >= 0 by {
                text_map::lemma_place(files, path);
            }
        }
        while i < self.changed_files.len()
            invariant
                i <= files.len(),
                files == old(self).files(),
                *self == (ChangesTab { suppressed: self.suppressed, ..*old(self) }),
                forall|path: Seq<char>| #[trigger]
                    self.suppressed@.contains(path) == (old(self).suppressed@.contains(path)
                        || text_map::place(files, path) < i),
            decreases files.len() - i,
        {
            let path = self.changed_files.key(i);
            proof {
                use_type_invariant(&self.changed_files);
                text_map::lemma_place_is(files, path@, i as int);
                assert forall|other: Seq<char>| text_map::place(files, other) == i implies other
                    == path@ by {
                    text_map::lemma_place(files, other);
                }
            }
            self.suppressed.insert(path);
            i += 1;
        }
        self.changed_files.clear();
        self.file_views.clear();
    }

    /// Keeps a file: it leaves the list, and the action is what happens on the host. Without a
    /// service nothing happens.
    pub fn keep(&mut self, path: &str, status: FileStatus) -> (action: Option<KeepAction>)
        ensures
            action is Some == old(self).service is Some,
            action is None ==> *final(self) == *old(self),
            action matches Some(a) ==> final(self).is_without(*old(self), path@)
                && diff_service::keeps(a, old(self).service->0, path@, status),
    {
        match &self.service {
            Some(service) => {
                let action = service.keep_file(path, status);
                self.suppress_file(path);
                Some(action)
            },
            None => None,
        }
    }

    /// Discards a file: it leaves the list, and the result is the sandbox path to reset. Without
    /// a service nothing happens.
    pub fn discard(&mut self, path: &str) -> (target: Option<String>)
        ensures
            target is Some == old(self).service is Some,
            target is None ==> *final(self) == *old(self),
            target matches Some(p) ==> {
                &&& p@ == crate::review::diff_engine::path_under("/workspace"@, path@)
                &&& final(self).is_without(*old(self), path@)
            },
    {
        match &self.service {
            Some(service) => {
                let target = service.discard_file(path);
                self.suppress_file(path);
                Some(target)
            },
            None => None,
        }
    }

    /// Applies a file in part: it leaves the list, and the service is to apply what was not
    /// discarded of it. Without a service nothing happens. Tells whether there is one.
    pub fn apply(&mut self, path: &str) -> (applies: bool)
        ensures
            applies == old(self).service is Some,
            !applies ==> *final(self) == *old(self),
            applies ==> final(self).is_without(*old(self), path@),
    {
        if self.service.is_none() {
            return false;
        }
        self.suppress_file(path);
        true
    }

    /// Takes all files out for keeping or discarding. Returns them, or nothing without a service.
    pub fn take_all(&mut self) -> (taken: Option<TextMap<FileStatus>>)
        ensures
            taken is Some == old(self).service is Some,
            taken is None ==> *final(self) == *old(self),
            taken matches Some(m) ==> {
                &&& m.entries() == old(self).files()
                &&& final(self).is_emptied(*old(self))
            },
    {
        if self.service.is_none() {
            return None;
        }
        let taken = self.changed_files.copy();
        self.suppress_all();
        Some(taken)
    }

    /// Gives every listed file a row and takes the row from every other. Returns the files whose
    /// row is new, in the order of the list.
    pub fn sync_views(&mut self) -> (created: Vec<String>)
        ensures
            forall|path: Seq<char>| #[trigger]
                final(self).file_views@.contains(path) == old(self).lists(path),
            text::views(created@) == new_rows(old(self).files(), old(self).file_views@),
            *final(self) == (ChangesTab { file_views: final(self).file_views, ..*old(self) }),
    {
        let ghost files = self.files();
        let mut rows = TextSet::new();
        let mut created: Vec<String> = Vec::new();
        let mut i: usize = 0;
        assert(text::views(created@) =~= seq![]);
        proof {
            assert forall|path: Seq<char>| text_map::place(files, path) >= 0 by {
                text_map::lemma_place(files, path);
            }
        }
        while i < self.changed_files.len()
            invariant
                i <= files.len(),
                *self == *old(self),
                files == self.files(),
                forall|path: Seq<char>| #[trigger]
                    rows@.contains(path) == (text_map::place(files, path) < i),
                text::views(created@) == new_rows(files.take(i as int), self.file_views@),
            decreases files.len() - i,
        {
            let path = self.changed_files.key(i);
            proof {
                use_type_invariant(&self.changed_files);
                text_map::lemma_place_is(files, path@, i as int);
                assert forall|other: Seq<char>| text_map::place(files, other) == i implies other
                    == path@ by {
                    text_map::lemma_place(files, other);
                }
                assert(files.take(i + 1).drop_last() =~= files.take(i as int));
            }
            rows.insert(path);
            if !self.file_views.contains(path) {
                let ghost done = text::views(created@);
                created.push(path.to_owned());
                assert(text::views(created@) =~= done.push(path@));
            }
            i += 1;
        }
        assert(files.take(i as int) =~= files);
        self.file_views = rows;
        created
    }

    /// The files whose rows are shown: the first of the list, as far as they have a row.
    pub fn visible_rows(&self) -> (shown: Vec<String>)
        ensures
            text::views(shown@) == with_rows(
                self.files().take(
                    diff_view::least(self.files().len() as int, MAX_VISIBLE_FILES as int),
                ),
                self.file_views@,
            ),
    {
        let ghost files = self.files();
        let n: usize = if self.changed_files.len() < MAX_VISIBLE_FILES {
            self.changed_files.len()
        } else {
            MAX_VISIBLE_FILES
        };
        let mut shown: Vec<String> = Vec::new();
        let mut i: usize = 0;
        assert(text::views(shown@) =~= seq![]);
        while i < n
            invariant
                i <= n <= files.len(),
                files == self.files(),
                text::views(shown@) == with_rows(files.take(i as int), self.file_views@),
            decreases n - i,
        {
            let path = self.changed_files.key(i);
            assert(files.take(i + 1).drop_last() =~= files.take(i as int));
            if self.file_views.contains(path) {
                let ghost done = text::views(shown@);
                shown.push(path.to_owned());
                assert(text::views(shown@) =~= done.push(path@));
            }
            i += 1;
        }
        shown
    }

    /// The entry of the context menu that asks the agent: it closes the menu and opens the
    /// question about what is selected. Returns where the menu was.
    pub fn ask_about<P: Copy>(
        &mut self,
        file_path: &str,
        sel: &mut SelectionInner<P>,
        lines: Option<&Vec<DiffDisplayLine>>,
    ) -> (place: Option<P>)
        requires
            lines matches Some(l) ==> l@.len() > 0 || old(sel).in_order().0 > 0,
        ensures
            place == old(sel).context_menu,
            *final(sel) == (SelectionInner::<P> { context_menu: None, ..*old(sel) }),
            final(self).ask_agent matches Some(ask) && {
                &&& ask.file_path@ == file_path@
                &&& ask.has_agent == old(self).on_ask_agent
                &&& ask.selected_text@ == (match lines {
                    Some(l) => diff_view::selection_of(*old(sel), diff_view::display_views(l@)),
                    None => Seq::empty(),
                })
            },
            *final(self) == (ChangesTab { ask_agent: final(self).ask_agent, ..*old(self) }),
    {
        let selected_text = match lines {
            Some(l) => diff_view::copy_selection(sel, l),
            None => String::new(),
        };
        let place = sel.context_menu;
        sel.close_menu();
        self.open_ask(file_path.to_owned(), selected_text);
        place
    }

    /// A key was pressed in the question: escape closes it. Tells whether the key was used.
    pub fn ask_key(&mut self, key: &str) -> (used: bool)
        ensures
            used == (key@ == "escape"@),
            *final(self) == (if used {
                ChangesTab { ask_agent: None, ..*old(self) }
            } else {
                *old(self)
            }),
    {
        if text::same_text(key, "escape") {
            self.close_ask();
            true
        } else {
            false
        }
    }

    /// Opens the question about a selection.
    pub fn open_ask(&mut self, file_path: String, selected_text: String)
        ensures
            *final(self) == (ChangesTab {
                ask_agent: Some(
                    AskAgentState {
                        file_path,
                        selected_text,
                        has_agent: old(self).on_ask_agent,
                    },
                ),
                ..*old(self)
            }),
    {
        let has_agent = self.on_ask_agent;
        self.ask_agent = Some(AskAgentState { file_path, selected_text, has_agent });
    }

    /// Closes the question.
    pub fn close_ask(&mut self)
        ensures
            *final(self) == (ChangesTab { ask_agent: None, ..*old(self) }),
    {
        self.ask_agent = None;
    }

    /// Sends the question: the message for the agent where there was one to ask when the question
    /// was opened, and the question closes.
    pub fn submit_ask(&mut self, instruction: &str) -> (message: Option<String>)
        ensures
            *final(self) == (ChangesTab { ask_agent: None, ..*old(self) }),
            match message {
                Some(m) => old(self).ask_agent matches Some(ask) && ask.has_agent && m@
                    == ask_message(ask.file_path@, ask.selected_text@, instruction@),
                None => old(self).ask_agent matches Some(ask) ==> !ask.has_agent,
            },
    {
        let message = match &self.ask_agent {
            Some(ask) => if ask.has_agent {
                Some(
                    agent_message(
                        ask.file_path.as_str(),
                        ask.selected_text.as_str(),
                        instruction,
                    ),
                )
            } else {
                None
            },
            None => None,
        };
        self.ask_agent = None;
        message
    }
}

/// The entry of the context menu that copies: it closes the menu. Returns the text for the
/// clipboard, where the lines are there.
pub fn menu_copy<P>(
    sel: &mut SelectionInner<P>,
    lines: Option<&Vec<DiffDisplayLine>>,
) -> (copied: Option<String>)
    requires
        lines matches Some(l) ==> l@.len() > 0 || old(sel).in_order().0 > 0,
    ensures
        *final(sel) == (SelectionInner::<P> { context_menu: None, ..*old(sel) }),
        text::optional_text(copied) == (match lines {
            Some(l) => Some(diff_view::selection_of(*old(sel), diff_view::display_views(l@))),
            None => None,
        }),
{
    let copied = match lines {
        Some(l) => Some(diff_view::copy_selection(sel, l)),
        None => None,
    };
    sel.close_menu();
    copied
}

/// The message to an agent about a selection in a file.
pub open spec fn ask_message(
    file_path: Seq<char>,
    selected: Seq<char>,
    instruction: Seq<char>,
) -> Seq<char> {
    "In `"@ + file_path + "`:\n\n```\n"@ + selected + "\n```\n\n"@ + instruction + "\n"@
}

/// The message to an agent about a selection in a file.
pub fn agent_message(file_path: &str, selected: &str, instruction: &str) -> (m: String)
    ensures
        m@ == ask_message(file_path@, selected@, instruction@),
{
    let mut m = "In `".to_owned();
    m.append(file_path);
    m.append("`:\n\n```\n");
    m.append(selected);
    m.append("\n```\n\n");
    m.append(instruction);
    m.append("\n");
    m
}

/// The files that have no row yet, in order.
pub open spec fn new_rows(files: FileSeq, rows: Set<Seq<char>>) -> Seq<Seq<char>>
    decreases files.len(),
{
    if files.len() == 0 {
        seq![]
    } else {
        let before = new_rows(files.drop_last(), rows);
        if rows.contains(files.last().0) {
            before
        } else {
            before.push(files.last().0)
        }
    }
}

/// The files that have a row, in order.
pub open spec fn with_rows(files: FileSeq, rows: Set<Seq<char>>) -> Seq<Seq<char>>
    decreases files.len(),
{
    if files.len() == 0 {
        seq![]
    } else {
        let before = with_rows(files.drop_last(), rows);
        if rows.contains(files.last().0) {
            before.push(files.last().0)
        } else {
            before
        }
    }
}

proof fn lemma_set_step(order: Seq<Seq<char>>, i: int)
    requires
        0 <= i < order.len(),
    ensures
        crate::text_set::set_of(order.take(i + 1)) == crate::text_set::set_of(
            order.take(i),
        ).insert(order[i]),
{
    let a = order.take(i);
    let b = order.take(i + 1);
    assert forall|t: Seq<char>| b.contains(t) == (a.contains(t) || t == order[i]) by {
        if b.contains(t) {
            let j = choose|j: int| 0 <= j < b.len() && b[j] == t;
            if j < i {
                assert(a[j] == t);
            }
        }
        if a.contains(t) {
            let j = choose|j: int| 0 <= j < a.len() && a[j] == t;
            assert(b[j] == t);
        }
        if t == order[i] {
            assert(b[i] == t);
        }
    }
    assert(crate::text_set::set_of(b) =~= crate::text_set::set_of(a).insert(order[i]));
}

/// A batch of events adds no file that is suppressed, and changes no suppressed file's status.
pub proof fn law_suppressed_unchanged(
    files: FileSeq,
    suppressed: Set<Seq<char>>,
    updates: FileSeq,
    path: Seq<char>,
)
    requires
        text_map::keys_distinct(files),
        suppressed.contains(path),
    ensures
        text_map::value_of(after_updates(files, suppressed, updates), path) == text_map::value_of(
            files,
            path,
        ),
        text_map::keys_distinct(after_updates(files, suppressed, updates)),
    decreases updates.len(),
{
    if updates.len() > 0 {
        let rest = updates.drop_last();
        let last = updates.last();
        law_suppressed_unchanged(files, suppressed, rest, path);
        let before = after_updates(files, suppressed, rest);
        text_map::lemma_entries_as_map(before, last.0, last.1);
        lemma_other_key(before, last.0, last.1, path);
    }
}

proof fn lemma_other_key(files: FileSeq, key: Seq<char>, status: FileStatus, other: Seq<char>)
    requires
        text_map::keys_distinct(files),
    ensures
        key != other ==> text_map::value_of(text_map::with_entry(files, key, status), other)
            == text_map::value_of(files, other),
        text_map::value_of(text_map::with_entry(files, key, status), key) == Some(status),
{
    text_map::lemma_entries_as_map(files, key, status);
    let set = text_map::with_entry(files, key, status);
    assert(text_map::value_of(set, other) == text_map::find(text_map::map_of(set), other));
    assert(text_map::value_of(files, other) == text_map::find(text_map::map_of(files), other));
    assert(text_map::value_of(set, key) == text_map::find(text_map::map_of(set), key));
}

/// A file that is not modified and not suppressed is listed with its last status after a batch.
pub proof fn law_update_is_listed(
    files: FileSeq,
    suppressed: Set<Seq<char>>,
    updates: FileSeq,
    i: int,
)
    requires
        text_map::keys_distinct(files),
        text_map::keys_distinct(updates),
        0 <= i < updates.len(),
        !suppressed.contains(updates[i].0),
        updates[i].1 != FileStatus::Modified || text_map::has_key(files, updates[i].0),
    ensures
        text_map::value_of(after_updates(files, suppressed, updates), updates[i].0) == Some(
            updates[i].1,
        ),
        text_map::keys_distinct(after_updates(files, suppressed, updates)),
    decreases updates.len(),
{
    let rest = updates.drop_last();
    let last = updates.last();
    let path = updates[i].0;
    lemma_updates_keep(files, suppressed, rest);
    let before = after_updates(files, suppressed, rest);
    lemma_other_key(before, last.0, last.1, path);
    text_map::lemma_entries_as_map(before, last.0, last.1);
    assert forall|j: int, k: int| 0 <= j < k < rest.len() implies rest[j].0 != rest[k].0 by {
        assert(rest[j] == updates[j]);
        assert(rest[k] == updates[k]);
    }
    if i < rest.len() {
        assert(rest[i] == updates[i]);
        law_update_is_listed(files, suppressed, rest, i);
        assert(updates[i].0 != updates[updates.len() - 1].0);
    }
}

/// A batch drops no listed file.
proof fn lemma_updates_keep(files: FileSeq, suppressed: Set<Seq<char>>, updates: FileSeq)
    requires
        text_map::keys_distinct(files),
    ensures
        text_map::keys_distinct(after_updates(files, suppressed, updates)),
        forall|path: Seq<char>| #[trigger]
            text_map::has_key(files, path) ==> text_map::has_key(
                after_updates(files, suppressed, updates),
                path,
            ),
    decreases updates.len(),
{
    if updates.len() > 0 {
        let rest = updates.drop_last();
        let last = updates.last();
        lemma_updates_keep(files, suppressed, rest);
        let before = after_updates(files, suppressed, rest);
        text_map::lemma_entries_as_map(before, last.0, last.1);
        assert forall|path: Seq<char>| #[trigger]
            text_map::has_key(files, path) implies text_map::has_key(
            after_updates(files, suppressed, updates),
            path,
        ) by {
            lemma_other_key(before, last.0, last.1, path);
            text_map::lemma_place(before, path);
        }
    }
}

proof fn lemma_value_of_last(updates: FileSeq, path: Seq<char>)
    requires
        updates.len() > 0,
        text_map::keys_distinct(updates),
    ensures
        text_map::keys_distinct(updates.drop_last()),
        text_map::value_of(updates.drop_last(), updates.last().0) is None,
        text_map::value_of(updates, path) == (if path == updates.last().0 {
            Some(updates.last().1)
        } else {
            text_map::value_of(updates.drop_last(), path)
        }),
{
    let rest = updates.drop_last();
    let last = updates.last();
    assert forall|j: int, k: int| 0 <= j < k < rest.len() implies rest[j].0 != rest[k].0 by {
        assert(rest[j] == updates[j]);
        assert(rest[k] == updates[k]);
    }
    text_map::lemma_place(rest, last.0);
    let i = text_map::place(rest, last.0);
    if i < rest.len() {
        assert(rest[i] == updates[i]);
        assert(updates[i].0 != updates[updates.len() - 1].0);
    }
    assert(text_map::with_entry(rest, last.0, last.1) =~= updates);
    lemma_other_key(rest, last.0, last.1, path);
}

proof fn lemma_value_after(
    files: FileSeq,
    suppressed: Set<Seq<char>>,
    updates: FileSeq,
    path: Seq<char>,
)
    requires
        text_map::keys_distinct(files),
        text_map::keys_distinct(updates),
    ensures
        text_map::keys_distinct(after_updates(files, suppressed, updates)),
        text_map::value_of(after_updates(files, suppressed, updates), path) == (
        match text_map::value_of(updates, path) {
            None => text_map::value_of(files, path),
            Some(status) => if suppressed.contains(path) || (status == FileStatus::Modified
                && text_map::value_of(files, path) is None) {
                text_map::value_of(files, path)
            } else {
                Some(status)
            },
        }),
    decreases updates.len(),
{
    if updates.len() > 0 {
        let rest = updates.drop_last();
        let last = updates.last();
        lemma_value_of_last(updates, path);
        lemma_value_after(files, suppressed, rest, path);
        lemma_value_after(files, suppressed, rest, last.0);
        let before = after_updates(files, suppressed, rest);
        lemma_other_key(before, last.0, last.1, path);
        text_map::lemma_entries_as_map(before, last.0, last.1);
    } else {
        text_map::lemma_place(updates, path);
    }
}

proof fn lemma_value_without(files: FileSeq, gone: Seq<Seq<char>>, path: Seq<char>)
    requires
        text_map::keys_distinct(files),
    ensures
        text_map::keys_distinct(without_all(files, gone)),
        text_map::value_of(without_all(files, gone), path) == (if gone.contains(path) {
            None
        } else {
            text_map::value_of(files, path)
        }),
    decreases gone.len(),
{
    if gone.len() > 0 {
        let rest = gone.drop_last();
        let last = gone.last();
        lemma_value_without(files, rest, path);
        let before = without_all(files, rest);
        text_map::lemma_entries_as_map(before, last, FileStatus::Added);
        let cut = text_map::without_entry(before, last);
        assert(text_map::value_of(cut, path) == text_map::find(text_map::map_of(cut), path));
        assert(text_map::value_of(before, path) == text_map::find(text_map::map_of(before), path));
        assert(gone.contains(path) == (rest.contains(path) || path == last)) by {
            if rest.contains(path) {
                let i = choose|i: int| 0 <= i < rest.len() && rest[i] == path;
                assert(gone[i] == path);
            }
            if gone.contains(path) {
                let i = choose|i: int| 0 <= i < gone.len() && gone[i] == path;
                if i < rest.len() {
                    assert(rest[i] == path);
                }
            }
            if path == last {
                assert(gone[gone.len() - 1] == path);
            }
        }
    }
}

proof fn lemma_contains_concat<T>(a: Seq<T>, b: Seq<T>, x: T)
    ensures
        (a + b).contains(x) == (a.contains(x) || b.contains(x)),
{
    let all = a + b;
    if a.contains(x) {
        let i = choose|i: int| 0 <= i < a.len() && a[i] == x;
        assert(all[i] == x);
    }
    if b.contains(x) {
        let i = choose|i: int| 0 <= i < b.len() && b[i] == x;
        assert(all[a.len() + i] == x);
    }
    if all.contains(x) {
        let i = choose|i: int| 0 <= i < all.len() && all[i] == x;
        if i < a.len() {
            assert(a[i] == x);
        } else {
            assert(b[i - a.len()] == x);
        }
    }
}

proof fn lemma_effects_of(
    files: FileSeq,
    suppressed: Set<Seq<char>>,
    rows: Set<Seq<char>>,
    has_service: bool,
    updates: FileSeq,
    path: Seq<char>,
    status: FileStatus,
)
    requires
        text_map::keys_distinct(files),
        text_map::keys_distinct(updates),
    ensures
        ({
            let all = all_effects(files, suppressed, rows, has_service, updates);
            let known = text_map::value_of(files, path);
            let new = text_map::value_of(updates, path);
            &&& all.contains(EffectView::RefreshContent(path)) == (new is Some && new == known
                && !suppressed.contains(path) && rows.contains(path))
            &&& all.contains(EffectView::UpdateStatus(path, status)) == (new == Some(status)
                && known is Some && new != known && !suppressed.contains(path) && rows.contains(
                path,
            ))
            &&& all.contains(EffectView::Probe(path, status)) == (new == Some(status) && status
                == FileStatus::Modified && known is None && !suppressed.contains(path)
                && has_service)
        }),
    decreases updates.len(),
{
    if updates.len() > 0 {
        let rest = updates.drop_last();
        let last = updates.last();
        lemma_value_of_last(updates, path);
        lemma_effects_of(files, suppressed, rows, has_service, rest, path, status);
        lemma_value_after(files, suppressed, rest, last.0);
        let before = all_effects(files, suppressed, rows, has_service, rest);
        let more = update_effects(
            after_updates(files, suppressed, rest),
            suppressed,
            rows,
            has_service,
            last.0,
            last.1,
        );
        lemma_contains_concat(before, more, EffectView::RefreshContent(path));
        lemma_contains_concat(before, more, EffectView::UpdateStatus(path, status));
        lemma_contains_concat(before, more, EffectView::Probe(path, status));
        if more.len() > 0 {
            assert(more.len() == 1);
            assert(forall|e: EffectView| more.contains(e) <==> e == more[0]) by {
                assert forall|e: EffectView| more.contains(e) <==> e == more[0] by {
                    if e == more[0] {
                        assert(more[0] == e);
                    }
                }
            }
        }
    } else {
        text_map::lemma_place(updates, path);
    }
}

/// What a batch of events does to a file of the list. An event of a file that was kept or
/// discarded counts for nothing until the file is among those that settled. Else a file that the
/// batch says is gone leaves the list; one that it says was added or deleted is listed so at
/// once; one that it says was modified is listed so where it is listed already, and else is looked
/// at first. A row that is there reads its content again where the status stays, and starts over
/// where it does not. A file without an event stays as it was, and nothing is asked for it.
pub proof fn law_batch_in_the_list(
    before: ChangesTab,
    after: ChangesTab,
    result: DiffResult,
    effects: Seq<TabEffect>,
    path: Seq<char>,
    status: FileStatus,
)
    requires
        ChangesTab::applied(before, after, result, effects),
        text_map::keys_distinct(before.files()),
        text_map::keys_distinct(result.updated_files.entries()),
    ensures
        ({
            let waits = before.suppressed@.contains(path) && !result.dirty_paths@.contains(path);
            let gone = result.removed_paths@.contains(path);
            let listed = before.lists(path) && !gone;
            let was = text_map::value_of(before.files(), path);
            let now = text_map::value_of(after.files(), path);
            let new = text_map::value_of(result.updated_files.entries(), path);
            let has_row = before.file_views@.contains(path) && !gone;
            let asked = effect_views(effects);
            &&& after.suppressed@.contains(path) == waits
            &&& after.file_views@.contains(path) == has_row
            &&& new is None || waits ==> now == (if gone {
                None
            } else {
                was
            })
            &&& new is Some && !waits ==> {
                &&& new->0 != FileStatus::Modified || listed ==> now == new
                &&& new->0 == FileStatus::Modified && !listed ==> now is None
            }
            &&& asked.contains(EffectView::Probe(path, status)) <==> {
                &&& new == Some(FileStatus::Modified)
                &&& status == FileStatus::Modified
                &&& !waits
                &&& !listed
                &&& before.service is Some
            }
            &&& asked.contains(EffectView::UpdateStatus(path, status)) <==> {
                &&& new == Some(status)
                &&& !waits
                &&& listed
                &&& has_row
                &&& was != new
            }
            &&& asked.contains(EffectView::RefreshContent(path)) <==> {
                &&& new is Some
                &&& !waits
                &&& listed
                &&& has_row
                &&& was == new
            }
        }),
{
    let gone = result.removed_paths.order();
    let updates = result.updated_files.entries();
    let kept = without_all(before.files(), gone);
    lemma_value_without(before.files(), gone, path);
    lemma_value_after(kept, after.suppressed@, updates, path);
    lemma_effects_of(
        kept,
        after.suppressed@,
        after.file_views@,
        before.service is Some,
        updates,
        path,
        status,
    );
    text_map::lemma_place(before.files(), path);
}

/// A file that was kept, discarded or applied is off the list and has no row, and it waits; every
/// other file stays as it was.
pub proof fn law_settled_file_is_off_the_list(
    before: ChangesTab,
    after: ChangesTab,
    path: Seq<char>,
    other: Seq<char>,
)
    requires
        after.is_without(before, path),
        text_map::keys_distinct(before.files()),
    ensures
        !after.lists(path),
        !after.file_views@.contains(path),
        after.suppressed@.contains(path),
        other != path ==> {
            &&& text_map::value_of(after.files(), other) == text_map::value_of(before.files(), other)
            &&& after.file_views@.contains(other) == before.file_views@.contains(other)
            &&& after.suppressed@.contains(other) == before.suppressed@.contains(other)
        },
        after.service == before.service,
        after.ask_agent == before.ask_agent,
{
    lemma_value_without(before.files(), seq![path], path);
    lemma_value_without(before.files(), seq![path], other);
    assert(seq![path].drop_last() =~= Seq::<Seq<char>>::empty());
    assert(seq![path].contains(path)) by {
        assert(seq![path][0] == path);
    }
    assert(without_all(before.files(), seq![path].drop_last()) == before.files());
    assert(without_all(before.files(), seq![path]) == after.files());
}

/// New rows are those of the listed files that have none, and shown are those that have one, both
/// in the order of the list.
pub proof fn law_rows_follow_the_list(files: FileSeq, rows: Set<Seq<char>>)
    ensures
        new_rows(files, rows) == files.map_values(
            |f: (Seq<char>, FileStatus)| f.0,
        ).filter(|path: Seq<char>| !rows.contains(path)),
        with_rows(files, rows) == files.map_values(
            |f: (Seq<char>, FileStatus)| f.0,
        ).filter(|path: Seq<char>| rows.contains(path)),
    decreases files.len(),
{
    reveal(Seq::filter);
    let paths = files.map_values(|f: (Seq<char>, FileStatus)| f.0);
    if files.len() > 0 {
        law_rows_follow_the_list(files.drop_last(), rows);
        assert(paths.drop_last() =~= files.drop_last().map_values(
            |f: (Seq<char>, FileStatus)| f.0,
        ));
    }
}

/// The totals of two lists of counts are those of the lists together; a count that is not known
/// adds nothing, and one that is known adds itself.
pub proof fn law_totals_add_up(a: Seq<Option<DiffStats>>, b: Seq<Option<DiffStats>>, s: DiffStats)
    ensures
        sum_added(a + b) == sum_added(a) + sum_added(b),
        sum_removed(a + b) == sum_removed(a) + sum_removed(b),
        sum_added(seq![Some(s)]) == s.additions,
        sum_removed(seq![Some(s)]) == s.deletions,
        sum_added(seq![None]) == 0,
        sum_removed(seq![None]) == 0,
    decreases b.len(),
{
    let one: Seq<Option<DiffStats>> = seq![Some(s)];
    let none: Seq<Option<DiffStats>> = seq![None];
    assert(one.drop_last() =~= Seq::empty());
    assert(none.drop_last() =~= Seq::empty());
    assert(sum_added(Seq::empty()) == 0 && sum_removed(Seq::empty()) == 0);
    if b.len() == 0 {
        assert(a + b =~= a);
    } else {
        law_totals_add_up(a, b.drop_last(), s);
        assert((a + b).drop_last() =~= a + b.drop_last());
    }
}

/// The message to an agent holds the file, then what was selected, then the instruction, each as
/// it is.
pub proof fn law_question_holds_all(
    file: Seq<char>,
    selected: Seq<char>,
    instruction: Seq<char>,
)
    ensures
        ({
            let m = ask_message(file, selected, instruction);
            let a = 4int;
            let b = a + file.len() + 8;
            let c = b + selected.len() + 6;
            &&& m.len() == c + instruction.len() + 1
            &&& m.subrange(a, a + file.len()) == file
            &&& m.subrange(b, b + selected.len()) == selected
            &&& m.subrange(c, c + instruction.len()) == instruction
        }),
{
    reveal_strlit("In `");
    reveal_strlit("`:\n\n```\n");
    reveal_strlit("\n```\n\n");
    reveal_strlit("\n");
    let m = ask_message(file, selected, instruction);
    let a = 4int;
    let b = a + file.len() + 8;
    let c = b + selected.len() + 6;
    assert(m.subrange(a, a + file.len()) =~= file);
    assert(m.subrange(b, b + selected.len()) =~= selected);
    assert(m.subrange(c, c + instruction.len()) =~= instruction);
}

/// The most files that are shown at once.
pub const MAX_VISIBLE_FILES: usize = 500;

/// The ending of a counted noun.
pub open spec fn plural(n: int) -> Seq<char> {
    if n == 1 {
        ""@
    } else {
        "s"@
    }
}

/// The head of the list.
#[derive(Debug)]
pub struct TabHeader {
    pub files: String,
    pub added: Option<String>,
    pub removed: Option<String>,
}

/// The additions of the counts that are known.
pub open spec fn sum_added(stats: Seq<Option<DiffStats>>) -> int
    decreases stats.len(),
{
    if stats.len() == 0 {
        0
    } else {
        sum_added(stats.drop_last()) + match stats.last() {
            Some(s) => s.additions as int,
            None => 0,
        }
    }
}

/// The deletions of the counts that are known.
pub open spec fn sum_removed(stats: Seq<Option<DiffStats>>) -> int
    decreases stats.len(),
{
    if stats.len() == 0 {
        0
    } else {
        sum_removed(stats.drop_last()) + match stats.last() {
            Some(s) => s.deletions as int,
            None => 0,
        }
    }
}

proof fn lemma_sums(stats: Seq<Option<DiffStats>>, k: int)
    requires
        0 <= k <= stats.len(),
    ensures
        0 <= sum_added(stats.take(k)) <= sum_added(stats),
        0 <= sum_removed(stats.take(k)) <= sum_removed(stats),
    decreases stats.len(), k,
{
    if k == stats.len() {
        assert(stats.take(k) =~= stats);
        if k > 0 {
            lemma_sums(stats.drop_last(), k - 1);
        }
    } else {
        lemma_sums(stats.drop_last(), k);
        assert(stats.drop_last().take(k) =~= stats.take(k));
    }
}

/// The totals of all rows' counts.
pub fn total_stats(stats: &Vec<Option<DiffStats>>) -> (r: (usize, usize))
    requires
        sum_added(stats@) <= usize::MAX,
        sum_removed(stats@) <= usize::MAX,
    ensures
        r.0 == sum_added(stats@),
        r.1 == sum_removed(stats@),
{
    let mut added: usize = 0;
    let mut removed: usize = 0;
    let mut i: usize = 0;
    while i < stats.len()
        invariant
            i <= stats@.len(),
            sum_added(stats@) <= usize::MAX,
            sum_removed(stats@) <= usize::MAX,
            added == sum_added(stats@.take(i as int)),
            removed == sum_removed(stats@.take(i as int)),
        decreases stats@.len() - i,
    {
        proof {
            lemma_sums(stats@, i + 1);
            assert(stats@.take(i + 1).drop_last() =~= stats@.take(i as int));
        }
        if let Some(s) = &stats[i] {
            added += s.additions;
            removed += s.deletions;
        }
        i += 1;
    }
    assert(stats@.take(i as int) =~= stats@);
    (added, removed)
}

/// The head of a list of `count` files: how many they are, and the totals that are not zero.
/// There is no head without files.
pub fn tab_header(count: usize, added: usize, removed: usize) -> (h: Option<TabHeader>)
    ensures
        h is Some == (count > 0),
        h matches Some(head) ==> {
            &&& head.files@ == text::decimal(count as nat) + " file"@ + plural(count as int)
            &&& text::optional_text(head.added) == diff_view::count_label('+', added)
            &&& text::optional_text(head.removed) == diff_view::count_label('-', removed)
        },
{
    if count == 0 {
        return None;
    }
    let mut files = text::decimal_text(count as u64);
    files.append(" file");
    files.append(
        if count == 1 {
            ""
        } else {
            "s"
        },
    );
    Some(
        TabHeader {
            files,
            added: diff_view::signed_count('+', added),
            removed: diff_view::signed_count('-', removed),
        },
    )
}

/// The note in place of the list where no file changed.
pub fn empty_note(count: usize) -> (note: Option<&'static str>)
    ensures
        note is Some == (count == 0),
        note matches Some(n) ==> n@ == "No changes"@,
{
    if count == 0 {
        Some("No changes")
    } else {
        None
    }
}

/// The note about files beyond those that are shown, where there are any.
pub fn overflow_note(count: usize) -> (note: Option<String>)
    ensures
        note is Some == (count > MAX_VISIBLE_FILES),
        note matches Some(n) ==> n@ == "and "@ + text::decimal((count - MAX_VISIBLE_FILES) as nat)
            + " more file"@ + plural(count - MAX_VISIBLE_FILES) + "..."@,
{
    if count <= MAX_VISIBLE_FILES {
        return None;
    }
    let over: usize = count - MAX_VISIBLE_FILES;
    let mut note = "and ".to_owned();
    text::push_decimal(&mut note, over as u64);
    note.append(" more file");
    note.append(
        if over == 1 {
            ""
        } else {
            "s"
        },
    );
    note.append("...");
    Some(note)
}

/// When all files are taken out none is listed and none has a row. Those that were listed wait, and
/// so do those that did before, and no other.
pub proof fn law_all_files_are_off_the_list(
    before: ChangesTab,
    after: ChangesTab,
    path: Seq<char>,
)
    requires
        after.is_emptied(before),
    ensures
        !after.lists(path),
        !after.file_views@.contains(path),
        before.lists(path) ==> after.suppressed@.contains(path),
        after.suppressed@.contains(path) ==> before.lists(path) || before.suppressed@.contains(path),
        before.suppressed@.contains(path) ==> after.suppressed@.contains(path),
        after.service == before.service,
        after.ask_agent == before.ask_agent,
{
    text_map::lemma_place(after.files(), path);
}

/// A batch of events leaves the service and the question as they are.
pub proof fn law_batch_leaves_the_question(
    before: ChangesTab,
    after: ChangesTab,
    result: DiffResult,
    effects: Seq<TabEffect>,
)
    requires
        ChangesTab::applied(before, after, result, effects),
    ensures
        after.service == before.service,
        after.ask_agent == before.ask_agent,
        after.on_ask_agent == before.on_ask_agent,
{
}

/// One thing has no ending, any other number of things has one.
pub proof fn law_plural(n: int)
    ensures
        plural(n).len() == 0 <==> n == 1,
        n != 1 ==> plural(n) == seq!['s'],
{
    reveal_strlit("");
    reveal_strlit("s");
    assert("s"@ =~= seq!['s']);
}

} // verus!
