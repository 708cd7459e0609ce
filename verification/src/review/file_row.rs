//! A single file of the review panel.

use crate::review::changes_tab::FileStatus;
use crate::review::diff_engine::{DiffStats, FileDiff};
use crate::review::diff_service::DiffService;
use crate::review::diff_view;
use crate::review::diff_view::{DiffDisplayLine, HighlightCache, SelectionInner};
use vstd::prelude::*;

verus! {

/// The state of one file row. Counts are wanted at once; the diff and its colours only when the
/// row is open.
pub struct FileRowView<P> {
    pub path: String,
    pub status: FileStatus,
    pub service: Option<DiffService>,
    pub stats: Option<DiffStats>,
    pub is_binary: bool,
    pub stats_loading: bool,
    pub diff: Option<FileDiff>,
    pub display_lines: Option<Vec<DiffDisplayLine>>,
    pub highlights: Option<HighlightCache>,
    pub highlighting: bool,
    pub diffing: bool,
    pub selection: SelectionInner<P>,
    pub expanded: bool,
    /// The state of the file that work is done for. Work that was begun for another state is of
    /// no use.
    pub generation: u64,
}

/// The state after a change of the file; the numbers start over where they end.
pub open spec fn next_generation(n: u64) -> u64 {
    if n == u64::MAX {
        0
    } else {
        (n + 1) as u64
    }
}

/// The work that a row asks for.
#[derive(Clone, Copy, Debug, PartialEq, Eq, Structural)]
pub enum RowJob {
    Nothing,
    Diff,
    Highlights,
}

/// What became of finished work: it was begun for an earlier state of the file, it failed, it
/// showed that nothing changed, or it changed the row.
#[derive(Clone, Copy, Debug, PartialEq, Eq, Structural)]
pub enum RowOutcome {
    Outdated,
    Failed,
    Empty,
    Changed,
}

/// Whether counts show no change at all.
pub open spec fn is_no_change(stats: DiffStats, is_binary: bool) -> bool {
    !is_binary && stats.additions == 0 && stats.deletions == 0
}

impl<P> FileRowView<P> {
    /// Whether counting would start now.
    pub open spec fn wants_stats(self) -> bool {
        self.stats is None && !self.stats_loading && self.diff is None && self.service is Some
    }

    /// Whether diffing would start now.
    pub open spec fn wants_diff(self) -> bool {
        self.diff is None && !self.diffing && self.service is Some
    }

    /// Whether colouring would start now.
    pub open spec fn wants_highlights(self) -> bool {
        self.highlights is None && !self.highlighting && self.diff is Some
    }

    /// A closed row. The second value tells whether counting starts.
    pub fn new(path: String, status: FileStatus, service: Option<DiffService>) -> (r: (Self, bool))
        ensures
            r.1 == (service is Some),
            r.0 == (FileRowView::<P> {
                path,
                status,
                service,
                stats: None,
                is_binary: false,
                stats_loading: r.1,
                diff: None,
                display_lines: None,
                highlights: None,
                highlighting: false,
                diffing: false,
                selection: SelectionInner {
                    selecting: false,
                    anchor_line: 0,
                    anchor_col: 0,
                    end_line: 0,
                    end_col: 0,
                    context_menu: None,
                },
                expanded: false,
                generation: 0,
            }),
    {
        let mut row = FileRowView {
            path,
            status,
            service,
            stats: None,
            is_binary: false,
            stats_loading: false,
            diff: None,
            display_lines: None,
            highlights: None,
            highlighting: false,
            diffing: false,
            selection: SelectionInner::new(),
            expanded: false,
            generation: 0,
        };
        let started = row.kick_stats();
        (row, started)
    }

    /// The counts, once they are known.
    pub fn stats(&self) -> (r: Option<&DiffStats>)
        ensures
            match r {
                Some(stats) => self.stats == Some(*stats),
                None => self.stats is None,
            },
    {
        self.stats.as_ref()
    }

    pub fn selection(&self) -> (r: &SelectionInner<P>)
        ensures
            *r == self.selection,
    {
        &self.selection
    }

    /// The lines of the diff, once it is there.
    pub fn display_lines(&self) -> (r: Option<&Vec<DiffDisplayLine>>)
        ensures
            match r {
                Some(lines) => self.display_lines == Some(*lines),
                None => self.display_lines is None,
            },
    {
        self.display_lines.as_ref()
    }

    /// The file changed in kind: what was computed is dropped, and so is what is being computed.
    /// Counting starts again for the new state, and diffing too where the row is open. Tells which
    /// of the two starts.
    pub fn update_status(&mut self, status: FileStatus) -> (r: (bool, bool))
        ensures
            r.0 == (old(self).service is Some),
            r.1 == (old(self).expanded && old(self).service is Some),
            *final(self) == (FileRowView::<P> {
                status,
                stats: None,
                is_binary: false,
                diff: None,
                display_lines: None,
                highlights: None,
                stats_loading: r.0,
                diffing: r.1,
                highlighting: false,
                generation: next_generation(old(self).generation),
                ..*old(self)
            }),
    {
        self.status = status;
        self.purge_cache();
        self.stats_loading = false;
        self.diffing = false;
        self.highlighting = false;
        self.generation = if self.generation == u64::MAX {
            0
        } else {
            self.generation + 1
        };
        let stats = self.kick_stats();
        let diff = if self.expanded {
            self.kick_diff()
        } else {
            false
        };
        (stats, diff)
    }

    /// Drops everything that was computed.
    pub fn purge_cache(&mut self)
        ensures
            *final(self) == (FileRowView::<P> {
                stats: None,
                is_binary: false,
                diff: None,
                display_lines: None,
                highlights: None,
                ..*old(self)
            }),
    {
        self.stats = None;
        self.is_binary = false;
        self.diff = None;
        self.display_lines = None;
        self.highlights = None;
    }

    /// Starts counting where that is wanted.
    pub fn kick_stats(&mut self) -> (started: bool)
        ensures
            started == old(self).wants_stats(),
            *final(self) == (FileRowView::<P> {
                stats_loading: old(self).stats_loading || started,
                ..*old(self)
            }),
    {
        if self.stats.is_some() || self.stats_loading || self.diff.is_some()
            || self.service.is_none() {
            return false;
        }
        self.stats_loading = true;
        true
    }

    /// Starts diffing where that is wanted.
    pub fn kick_diff(&mut self) -> (started: bool)
        ensures
            started == old(self).wants_diff(),
            *final(self) == (FileRowView::<P> {
                diffing: old(self).diffing || started,
                ..*old(self)
            }),
    {
        if self.diff.is_some() || self.diffing || self.service.is_none() {
            return false;
        }
        self.diffing = true;
        true
    }

    /// Starts colouring where that is wanted.
    pub fn kick_highlights(&mut self) -> (started: bool)
        ensures
            started == old(self).wants_highlights(),
            *final(self) == (FileRowView::<P> {
                highlighting: old(self).highlighting || started,
                ..*old(self)
            }),
    {
        if self.highlights.is_some() || self.highlighting || self.diff.is_none() {
            return false;
        }
        self.highlighting = true;
        true
    }

    /// Counting ended that was begun in a generation. A row without changes is to be dropped and
    /// stays as it is.
    pub fn stats_finished(
        &mut self,
        generation: u64,
        result: Option<(DiffStats, bool)>,
    ) -> (r: RowOutcome)
        ensures
            generation != old(self).generation ==> r == RowOutcome::Outdated && *final(self)
                == *old(self),
            generation == old(self).generation ==> match result {
                None => r == RowOutcome::Failed && *final(self) == *old(self),
                Some((stats, is_binary)) => if is_no_change(stats, is_binary) {
                    r == RowOutcome::Empty && *final(self) == *old(self)
                } else {
                    r == RowOutcome::Changed && *final(self) == (FileRowView::<P> {
                        stats_loading: false,
                        stats: Some(stats),
                        is_binary,
                        ..*old(self)
                    })
                },
            },
    {
        if generation != self.generation {
            return RowOutcome::Outdated;
        }
        match result {
            None => RowOutcome::Failed,
            Some((stats, is_binary)) => if !is_binary && stats.additions == 0 && stats.deletions
                == 0 {
                RowOutcome::Empty
            } else {
                self.stats_loading = false;
                self.stats = Some(stats);
                self.is_binary = is_binary;
                RowOutcome::Changed
            },
        }
    }

    /// Diffing ended that was begun in a generation. A row without changes is to be dropped and
    /// stays as it is.
    pub fn diff_finished(&mut self, generation: u64, result: Option<FileDiff>) -> (r: RowOutcome)
        ensures
            generation != old(self).generation ==> r == RowOutcome::Outdated && *final(self)
                == *old(self),
            generation == old(self).generation ==> match result {
                None => r == RowOutcome::Failed && *final(self) == *old(self),
                Some(diff) => if !diff.is_binary && diff.additions == 0 && diff.deletions == 0 {
                    r == RowOutcome::Empty && *final(self) == *old(self)
                } else {
                    &&& r == RowOutcome::Changed
                    &&& final(self).display_lines matches Some(lines)
                        && diff_view::display_views(lines@) == diff_view::all_display(diff.hunks@)
                    &&& *final(self) == (FileRowView::<P> {
                        diffing: false,
                        stats: Some(
                            DiffStats { additions: diff.additions, deletions: diff.deletions },
                        ),
                        is_binary: diff.is_binary,
                        display_lines: final(self).display_lines,
                        diff: Some(diff),
                        ..*old(self)
                    })
                },
            },
    {
        if generation != self.generation {
            return RowOutcome::Outdated;
        }
        match result {
            None => RowOutcome::Failed,
            Some(diff) => {
                if diff.is_empty() {
                    return RowOutcome::Empty;
                }
                let lines = diff_view::collect_lines(&diff.hunks);
                self.diffing = false;
                self.stats = Some(
                    DiffStats { additions: diff.additions, deletions: diff.deletions },
                );
                self.is_binary = diff.is_binary;
                self.display_lines = Some(lines);
                self.diff = Some(diff);
                RowOutcome::Changed
            },
        }
    }

    /// Colouring ended that was begun in a generation.
    pub fn highlights_finished(
        &mut self,
        generation: u64,
        result: Option<HighlightCache>,
    ) -> (r: RowOutcome)
        ensures
            generation != old(self).generation ==> r == RowOutcome::Outdated && *final(self)
                == *old(self),
            generation == old(self).generation ==> match result {
                None => r == RowOutcome::Failed && *final(self) == *old(self),
                Some(cache) => r == RowOutcome::Changed && *final(self) == (FileRowView::<P> {
                    highlighting: false,
                    highlights: Some(cache),
                    ..*old(self)
                }),
            },
    {
        if generation != self.generation {
            return RowOutcome::Outdated;
        }
        match result {
            None => RowOutcome::Failed,
            Some(cache) => {
                self.highlighting = false;
                self.highlights = Some(cache);
                RowOutcome::Changed
            },
        }
    }

    /// The work to start when the row is drawn: an open row wants its diff, then its colours.
    pub fn before_render(&mut self) -> (job: RowJob)
        ensures
            job == (if old(self).expanded && old(self).wants_diff() {
                RowJob::Diff
            } else if old(self).expanded && old(self).wants_highlights() {
                RowJob::Highlights
            } else {
                RowJob::Nothing
            }),
            *final(self) == (FileRowView::<P> {
                diffing: old(self).diffing || job == RowJob::Diff,
                highlighting: old(self).highlighting || job == RowJob::Highlights,
                ..*old(self)
            }),
    {
        if !self.expanded {
            return RowJob::Nothing;
        }
        if self.kick_diff() {
            RowJob::Diff
        } else if self.kick_highlights() {
            RowJob::Highlights
        } else {
            RowJob::Nothing
        }
    }

    /// A click on the header opens or closes the row.
    pub fn toggle(&mut self)
        ensures
            *final(self) == (FileRowView::<P> { expanded: !old(self).expanded, ..*old(self) }),
    {
        self.expanded = !self.expanded;
    }

    /// The counts to show; none count as zero.
    pub fn shown_stats(&self) -> (stats: DiffStats)
        ensures
            stats == (match self.stats {
                Some(s) => s,
                None => DiffStats { additions: 0, deletions: 0 },
            }),
    {
        match &self.stats {
            Some(s) => DiffStats { additions: s.additions, deletions: s.deletions },
            None => DiffStats::default(),
        }
    }
}

/// Work that was begun before a change of the file is told from work that was begun after it.
pub proof fn law_change_outdates_work(generation: u64)
    ensures
        next_generation(generation) != generation,
{
}

/// Work is wanted only while its result is missing and it is not under way: what was begun is not
/// begun again, nor is what was done. Without a service nothing is counted or diffed, and nothing
/// is coloured before it is diffed.
pub proof fn law_work_starts_once<P>(row: FileRowView<P>)
    ensures
        row.stats_loading || row.stats is Some || row.diff is Some || row.service is None
            <==> !row.wants_stats(),
        row.diffing || row.diff is Some || row.service is None <==> !row.wants_diff(),
        row.highlighting || row.highlights is Some || row.diff is None <==> !row.wants_highlights(),
{
}

/// The states of a file are told apart by numbers that count up by one.
pub proof fn law_generations_count_up(n: u64)
    ensures
        n < u64::MAX ==> next_generation(n) == n + 1,
        next_generation(u64::MAX) == 0,
{
}

/// Counts show no change only where a file is not binary and has neither an added nor a removed
/// line.
pub proof fn law_no_change(stats: DiffStats, is_binary: bool)
    ensures
        is_binary || stats.additions > 0 || stats.deletions > 0 <==> !is_no_change(
            stats,
            is_binary,
        ),
{
}

} // verus!
