//! The undo history of a text input.

use crate::text;
use vstd::prelude::*;

verus! {

/// A text with the place of the cursor in it.
#[derive(Debug)]
pub struct HistoryEntry {
    pub content: String,
    pub cursor: usize,
}

/// The texts of an input, oldest first, with the one that is current.
#[derive(Debug)]
pub struct UndoHistory {
    entries: Vec<HistoryEntry>,
    index: usize,
}

/// The most entries that are kept.
pub const MAX_ENTRIES: usize = 100;

/// Entries with their contents as characters.
pub type EntrySeq = Seq<(Seq<char>, usize)>;

/// The entries and the current one after a text is recorded. The same text again is passed over.
/// What was undone is forgotten, and beyond the most entries the oldest goes.
pub open spec fn recorded(
    entries: EntrySeq,
    index: int,
    content: Seq<char>,
    cursor: usize,
) -> (EntrySeq, int) {
    if entries[index].0 == content {
        (entries, index)
    } else {
        let grown = entries.take(index + 1).push((content, cursor));
        let kept = if grown.len() > MAX_ENTRIES {
            grown.drop_first()
        } else {
            grown
        };
        (kept, kept.len() - 1)
    }
}

/// The place one step back.
pub open spec fn back(index: int) -> int {
    if index > 0 {
        index - 1
    } else {
        0
    }
}

/// The place one step forward among `len` entries.
pub open spec fn forth(index: int, len: int) -> int {
    if index + 1 < len {
        index + 1
    } else {
        index
    }
}

impl UndoHistory {
    pub closed spec fn entries(&self) -> EntrySeq {
        self.entries@.map_values(|e: HistoryEntry| (e.content@, e.cursor))
    }

    pub closed spec fn index(&self) -> int {
        self.index as int
    }

    /// There is a current entry, and there are not too many.
    pub open spec fn wf(&self) -> bool {
        0 <= self.index() < self.entries().len() <= MAX_ENTRIES
    }

    /// The current entry.
    pub open spec fn current(&self) -> (Seq<char>, usize) {
        self.entries()[self.index()]
    }

    pub fn new() -> (h: Self)
        ensures
            h.wf(),
            h.entries() == seq![(Seq::<char>::empty(), 0usize)],
            h.index() == 0,
    {
        let mut entries: Vec<HistoryEntry> = Vec::new();
        entries.push(HistoryEntry { content: String::new(), cursor: 0 });
        let h = UndoHistory { entries, index: 0 };
        assert(h.entries() =~= seq![(Seq::<char>::empty(), 0usize)]);
        h
    }

    /// Records a text.
    pub fn push(&mut self, content: &str, cursor: usize)
        requires
            old(self).wf(),
        ensures
            final(self).wf(),
            (final(self).entries(), final(self).index()) == recorded(
                old(self).entries(),
                old(self).index(),
                content@,
                cursor,
            ),
    {
        assert(self.entries()[self.index as int].0 == self.entries@[self.index as int].content@);
        if text::same_text(self.entries[self.index].content.as_str(), content) {
            return;
        }
        let ghost before = self.entries();
        self.entries.truncate(self.index + 1);
        self.entries.push(HistoryEntry { content: content.to_owned(), cursor });
        let ghost grown = before.take(self.index + 1).push((content@, cursor));
        assert(self.entries() =~= grown);
        if self.entries.len() > MAX_ENTRIES {
            let _oldest = self.entries.remove(0);
            assert(self.entries() =~= grown.drop_first());
        }
        self.index = self.entries.len() - 1;
    }

    /// Goes one entry back, where there is one.
    pub fn undo(&mut self) -> (r: Option<&HistoryEntry>)
        requires
            old(self).wf(),
        ensures
            final(self).wf(),
            final(self).entries() == old(self).entries(),
            final(self).index() == back(old(self).index()),
            match r {
                Some(e) => old(self).index() > 0 && (e.content@, e.cursor) == final(self).current(),
                None => old(self).index() == 0 && *final(self) == *old(self),
            },
    {
        if self.index > 0 {
            self.index = self.index - 1;
            assert(self.entries()[self.index as int] == (
                self.entries@[self.index as int].content@,
                self.entries@[self.index as int].cursor,
            ));
            Some(&self.entries[self.index])
        } else {
            None
        }
    }

    /// Goes one entry forward, where there is one.
    pub fn redo(&mut self) -> (r: Option<&HistoryEntry>)
        requires
            old(self).wf(),
        ensures
            final(self).wf(),
            final(self).entries() == old(self).entries(),
            final(self).index() == forth(old(self).index(), old(self).entries().len() as int),
            match r {
                Some(e) => old(self).index() + 1 < old(self).entries().len() && (e.content@, e.cursor)
                    == final(self).current(),
                None => old(self).index() + 1 == old(self).entries().len() && *final(self) == *old(self),
            },
    {
        if self.index + 1 < self.entries.len() {
            self.index = self.index + 1;
            assert(self.entries()[self.index as int] == (
                self.entries@[self.index as int].content@,
                self.entries@[self.index as int].cursor,
            ));
            Some(&self.entries[self.index])
        } else {
            None
        }
    }
}

/// A step back and a step forward again end where they began, wherever there is a step back.
pub proof fn law_redo_takes_back_undo(index: int, len: int)
    requires
        0 < index < len,
    ensures
        forth(back(index), len) == index,
{
}

/// Right after a new text is recorded it is the current one, there is nothing to redo, and one
/// step back is the text that was current before.
pub proof fn law_undo_takes_back_push(
    entries: EntrySeq,
    index: int,
    content: Seq<char>,
    cursor: usize,
)
    requires
        0 <= index < entries.len() <= MAX_ENTRIES,
        entries[index].0 != content,
    ensures
        ({
            let (after, at) = recorded(entries, index, content, cursor);
            &&& after[at] == (content, cursor)
            &&& at + 1 == after.len()
            &&& at >= 1
            &&& after[at - 1] == entries[index]
            &&& after.len() <= MAX_ENTRIES
        }),
{
}

/// The texts before the current one stay behind a new one in their order, as far back as the
/// history reaches; the same text again changes nothing.
pub proof fn law_history_keeps_its_past(
    entries: EntrySeq,
    index: int,
    content: Seq<char>,
    cursor: usize,
    steps: int,
)
    requires
        0 <= index < entries.len() <= MAX_ENTRIES,
        0 <= steps,
    ensures
        entries[index].0 == content ==> recorded(entries, index, content, cursor) == (
            entries,
            index,
        ),
        entries[index].0 != content ==> {
            let (after, at) = recorded(entries, index, content, cursor);
            &&& at == after.len() - 1
            &&& 0 <= at - 1 - steps && 0 <= index - steps ==> after[at - 1 - steps] == entries[index
                - steps]
            &&& after.len() == (if index + 2 <= MAX_ENTRIES {
                index + 2
            } else {
                MAX_ENTRIES as int
            })
        },
{
}

/// A step leads to the entry beside the current one and never out of the history.
pub proof fn law_steps_stay_inside(index: int, len: int)
    requires
        0 <= index < len,
    ensures
        0 <= back(index) < len,
        0 <= forth(index, len) < len,
        index > 0 ==> back(index) == index - 1,
        index == 0 ==> back(index) == 0,
        index + 1 < len ==> forth(index, len) == index + 1,
        index + 1 == len ==> forth(index, len) == index,
{
}

} // verus!
