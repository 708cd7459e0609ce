//! A single-line text input: selection by byte offsets, editing, undo, and what is shown.

use crate::components::history::UndoHistory;
use crate::text;
use vstd::prelude::*;
use vstd::utf8::*;

verus! {

/// The byte offsets at which the grapheme clusters of a text start.
pub uninterp spec fn grapheme_starts_of(s: Seq<char>) -> Seq<usize>;

/// The byte offsets at which the words of a text start.
pub uninterp spec fn word_starts_of(s: Seq<char>) -> Seq<usize>;

/// Calls `UnicodeSegmentation::grapheme_indices` for extended clusters and keeps the offsets. They
/// ascend from 0 and lie between characters, before the end.
#[verifier::external_body]
fn grapheme_starts(s: &str) -> (starts: Vec<usize>)
    ensures
        starts@ == grapheme_starts_of(s@),
        forall|i: int, j: int| 0 <= i < j < starts@.len() ==> starts@[i] < starts@[j],
        forall|i: int|
            0 <= i < starts@.len() ==> text::is_boundary(s@, #[trigger] starts@[i] as int)
                && starts@[i] < text::byte_len(s@),
        s@.len() > 0 ==> starts@.len() > 0 && starts@[0] == 0,
{
    unicode_segmentation::UnicodeSegmentation::grapheme_indices(s, true).map(|(i, _)| i).collect()
}

/// Calls `UnicodeSegmentation::split_word_bound_indices` and keeps the offsets. The words make up
/// the text without a gap, so the offsets ascend from 0 and lie between characters, before the
/// end, and each word ends where the next one starts.
#[verifier::external_body]
fn word_starts(s: &str) -> (starts: Vec<usize>)
    ensures
        starts@ == word_starts_of(s@),
        forall|i: int, j: int| 0 <= i < j < starts@.len() ==> starts@[i] < starts@[j],
        forall|i: int|
            0 <= i < starts@.len() ==> text::is_boundary(s@, #[trigger] starts@[i] as int)
                && starts@[i] < text::byte_len(s@),
        s@.len() > 0 ==> starts@.len() > 0 && starts@[0] == 0,
{
    let words = unicode_segmentation::UnicodeSegmentation::split_word_bound_indices(s);
    words.map(|(i, _)| i).collect()
}

/// What an input tells its owner.
#[derive(Debug)]
pub enum TextInputEvent {
    Changed(String),
    Submit(String),
    Blur,
}

/// A single-line text input. Offsets count bytes of the content.
#[derive(Debug)]
pub struct TextInput {
    pub content: String,
    pub placeholder: String,
    /// The selection; the cursor is at one of its ends.
    pub start: usize,
    pub end: usize,
    /// Whether the cursor is at the start of the selection.
    pub selection_reversed: bool,
    /// The text that an input method is still composing.
    pub marked: Option<(usize, usize)>,
    pub is_selecting: bool,
    pub history: UndoHistory,
    pub disabled: bool,
    pub masked: bool,
    pub menu_open: bool,
}

/// What a key does in an input.
#[derive(Clone, Copy, Debug, PartialEq, Eq)]
pub enum KeyAction {
    Backspace,
    Delete,
    Left,
    Right,
    SelectLeft,
    SelectRight,
    SelectAll,
    Paste,
    Copy,
    Cut,
    Undo,
    Redo,
    Home,
    End,
    ShowCharacterPalette,
}

/// What a key does in an input.
pub open spec fn action_of(key: Seq<char>) -> Option<KeyAction> {
    if key == "backspace"@ {
        Some(KeyAction::Backspace)
    } else if key == "delete"@ {
        Some(KeyAction::Delete)
    } else if key == "left"@ {
        Some(KeyAction::Left)
    } else if key == "right"@ {
        Some(KeyAction::Right)
    } else if key == "shift-left"@ {
        Some(KeyAction::SelectLeft)
    } else if key == "shift-right"@ {
        Some(KeyAction::SelectRight)
    } else if key == "cmd-a"@ {
        Some(KeyAction::SelectAll)
    } else if key == "cmd-v"@ {
        Some(KeyAction::Paste)
    } else if key == "cmd-c"@ {
        Some(KeyAction::Copy)
    } else if key == "cmd-x"@ {
        Some(KeyAction::Cut)
    } else if key == "cmd-z"@ {
        Some(KeyAction::Undo)
    } else if key == "cmd-shift-z"@ {
        Some(KeyAction::Redo)
    } else if key == "home"@ {
        Some(KeyAction::Home)
    } else if key == "end"@ {
        Some(KeyAction::End)
    } else if key == "ctrl-cmd-space"@ {
        Some(KeyAction::ShowCharacterPalette)
    } else {
        None
    }
}

/// What a key does in an input.
pub fn key_action(key: &str) -> (r: Option<KeyAction>)
    ensures
        r == action_of(key@),
{
    if text::same_text(key, "backspace") {
        Some(KeyAction::Backspace)
    } else if text::same_text(key, "delete") {
        Some(KeyAction::Delete)
    } else if text::same_text(key, "left") {
        Some(KeyAction::Left)
    } else if text::same_text(key, "right") {
        Some(KeyAction::Right)
    } else if text::same_text(key, "shift-left") {
        Some(KeyAction::SelectLeft)
    } else if text::same_text(key, "shift-right") {
        Some(KeyAction::SelectRight)
    } else if text::same_text(key, "cmd-a") {
        Some(KeyAction::SelectAll)
    } else if text::same_text(key, "cmd-v") {
        Some(KeyAction::Paste)
    } else if text::same_text(key, "cmd-c") {
        Some(KeyAction::Copy)
    } else if text::same_text(key, "cmd-x") {
        Some(KeyAction::Cut)
    } else if text::same_text(key, "cmd-z") {
        Some(KeyAction::Undo)
    } else if text::same_text(key, "cmd-shift-z") {
        Some(KeyAction::Redo)
    } else if text::same_text(key, "home") {
        Some(KeyAction::Home)
    } else if text::same_text(key, "end") {
        Some(KeyAction::End)
    } else if text::same_text(key, "ctrl-cmd-space") {
        Some(KeyAction::ShowCharacterPalette)
    } else {
        None
    }
}

/// Where the mouse is, as seen from the line of text.
#[derive(Clone, Copy, Debug)]
pub enum MousePlace {
    /// Nothing was laid out yet.
    NoLayout,
    Above,
    Below,
    /// Beside or on the line, nearest to this offset of the text that is shown.
    At(usize),
}

/// What is drawn over the text.
#[derive(Clone, Copy, Debug, PartialEq, Eq)]
pub enum Caret {
    Selection(usize, usize),
    At(usize),
    Hidden,
}

/// The character that a masked text shows for each of its own.
pub const MASK_CHAR: char = '\u{2022}';

/// How many units of UTF-16 a character takes.
pub open spec fn utf16_width(c: char) -> nat {
    if (c as u32) < 0x10000 {
        1
    } else {
        2
    }
}

/// How many units of UTF-16 a text takes.
pub open spec fn utf16_len(s: Seq<char>) -> nat
    decreases s.len(),
{
    if s.len() == 0 {
        0
    } else {
        utf16_len(s.drop_last()) + utf16_width(s.last())
    }
}

/// The least number of characters, from `k` on, that take at least `units` of UTF-16, or all.
pub open spec fn chars_for_utf16(s: Seq<char>, units: int, k: int) -> int
    decreases s.len() - k,
{
    if k >= s.len() || k < 0 {
        s.len() as int
    } else if utf16_len(s.take(k)) >= units {
        k
    } else {
        chars_for_utf16(s, units, k + 1)
    }
}

/// The least number of characters, from `k` on, that take at least `bytes`, or all.
pub open spec fn chars_for_bytes(s: Seq<char>, bytes: int, k: int) -> int
    decreases s.len() - k,
{
    if k >= s.len() || k < 0 {
        s.len() as int
    } else if text::byte_len(s.take(k)) >= bytes {
        k
    } else {
        chars_for_bytes(s, bytes, k + 1)
    }
}

/// The byte offset for an offset in UTF-16.
pub open spec fn from_utf16(s: Seq<char>, units: int) -> int {
    text::byte_len(s.take(chars_for_utf16(s, units, 0))) as int
}

/// The offset in UTF-16 for a byte offset.
pub open spec fn to_utf16(s: Seq<char>, bytes: int) -> int {
    utf16_len(s.take(chars_for_bytes(s, bytes, 0))) as int
}

/// The greatest of the offsets below `offset`, or 0.
pub open spec fn last_below(starts: Seq<usize>, offset: int) -> int
    decreases starts.len(),
{
    if starts.len() == 0 {
        0
    } else if starts.last() < offset {
        starts.last() as int
    } else {
        last_below(starts.drop_last(), offset)
    }
}

/// The first of the offsets above `offset`, or `fallback`.
pub open spec fn first_above(starts: Seq<usize>, offset: int, fallback: int) -> int
    decreases starts.len(),
{
    if starts.len() == 0 {
        fallback
    } else if starts[0] > offset {
        starts[0] as int
    } else {
        first_above(starts.drop_first(), offset, fallback)
    }
}

/// Where the word `i` ends: where the next one starts, or at the end of the text.
pub open spec fn word_end(starts: Seq<usize>, len: usize, i: int) -> usize {
    if i + 1 < starts.len() {
        starts[i + 1]
    } else {
        len
    }
}

/// The start and the end of the first word, from the word `i` on, that `offset` touches, or the
/// whole text.
pub open spec fn word_at(starts: Seq<usize>, len: usize, offset: int, i: int) -> (usize, usize)
    decreases starts.len() - i,
{
    if i >= starts.len() {
        (0, len)
    } else if starts[i] <= offset <= word_end(starts, len, i) {
        (starts[i], word_end(starts, len, i))
    } else {
        word_at(starts, len, offset, i + 1)
    }
}

/// A text with every line feed as a blank.
pub open spec fn on_one_line(s: Seq<char>) -> Seq<char> {
    s.map_values(
        |c: char|
            if c == '\n' {
                ' '
            } else {
                c
            },
    )
}

/// The content after the bytes `start..end` are replaced.
pub open spec fn spliced(s: Seq<char>, start: int, end: int, new: Seq<char>) -> Seq<char> {
    s.take(text::chars_before(s, start)) + new + s.skip(text::chars_before(s, end))
}

/// The lesser of two numbers.
pub open spec fn at_most(a: int, b: int) -> int {
    if a < b {
        a
    } else {
        b
    }
}

proof fn lemma_utf16_len_take(s: Seq<char>, k: int)
    requires
        0 <= k < s.len(),
    ensures
        utf16_len(s.take(k + 1)) == utf16_len(s.take(k)) + utf16_width(s[k]),
        utf16_len(s.take(k + 1)) <= text::byte_len(s.take(k + 1)),
    decreases k,
{
    assert(s.take(k + 1).drop_last() =~= s.take(k));
    text::lemma_take_step(s, k);
    if k > 0 {
        lemma_utf16_len_take(s, k - 1);
    } else {
        assert(s.take(0) =~= Seq::<char>::empty());
    }
}

/// The units of UTF-16 grow with the characters.
proof fn lemma_utf16_monotone(s: Seq<char>, i: int, j: int)
    requires
        0 <= i <= j <= s.len(),
    ensures
        utf16_len(s.take(i)) + (j - i) <= utf16_len(s.take(j)),
    decreases j - i,
{
    if i < j {
        lemma_utf16_monotone(s, i, j - 1);
        lemma_utf16_len_take(s, j - 1);
    }
}

proof fn lemma_chars_for_utf16(s: Seq<char>, units: int, k: int)
    requires
        0 <= k <= s.len(),
    ensures
        k <= chars_for_utf16(s, units, k) <= s.len(),
    decreases s.len() - k,
{
    if k < s.len() && utf16_len(s.take(k)) < units {
        lemma_chars_for_utf16(s, units, k + 1);
    }
}

proof fn lemma_chars_for_bytes(s: Seq<char>, bytes: int, k: int)
    requires
        0 <= k <= s.len(),
    ensures
        k <= chars_for_bytes(s, bytes, k) <= s.len(),
    decreases s.len() - k,
{
    if k < s.len() && text::byte_len(s.take(k)) < bytes {
        lemma_chars_for_bytes(s, bytes, k + 1);
    }
}

proof fn lemma_chars_for_own_bytes(s: Seq<char>, k: int, from: int)
    requires
        0 <= from <= k <= s.len(),
    ensures
        chars_for_bytes(s, text::byte_len(s.take(k)) as int, from) == k,
    decreases k - from,
{
    if from < k {
        text::lemma_take_monotone(s, from, k);
        lemma_chars_for_own_bytes(s, k, from + 1);
    }
}

proof fn lemma_chars_for_own_utf16(s: Seq<char>, k: int, from: int)
    requires
        0 <= from <= k <= s.len(),
    ensures
        chars_for_utf16(s, utf16_len(s.take(k)) as int, from) == k,
    decreases k - from,
{
    if from < k {
        lemma_utf16_monotone(s, from, k);
        lemma_chars_for_own_utf16(s, k, from + 1);
    }
}

/// An offset between characters comes back from UTF-16 as it was.
pub proof fn law_utf16_round_trip(s: Seq<char>, offset: int)
    requires
        text::is_boundary(s, offset),
    ensures
        from_utf16(s, to_utf16(s, offset)) == offset,
{
    text::lemma_boundary(s, offset);
    let k = text::chars_before(s, offset);
    lemma_chars_for_own_bytes(s, k, 0);
    lemma_chars_for_own_utf16(s, k, 0);
}

/// An offset that comes from UTF-16 always lies between characters.
pub proof fn law_utf16_offsets_fit(s: Seq<char>, units: int)
    ensures
        text::is_boundary(s, from_utf16(s, units)),
{
    lemma_chars_for_utf16(s, units, 0);
    assert(text::ends_at(s, chars_for_utf16(s, units, 0), from_utf16(s, units)));
}

impl TextInput {
    /// The history is sound.
    pub open spec fn wf(&self) -> bool {
        self.history.wf()
    }

    /// The selection lies between characters of the content, its start first.
    pub open spec fn selection_fits(&self) -> bool {
        &&& text::is_boundary(self.content@, self.start as int)
        &&& text::is_boundary(self.content@, self.end as int)
        &&& self.start <= self.end
    }

    /// The text being composed lies between characters of the content.
    pub open spec fn marked_fits(&self) -> bool {
        self.marked matches Some((a, b)) ==> text::is_boundary(self.content@, a as int)
            && text::is_boundary(self.content@, b as int)
    }

    /// The entries of the history keep their cursors between characters.
    pub open spec fn history_fits(&self) -> bool {
        forall|i: int|
            0 <= i < self.history.entries().len() ==> text::is_boundary(
                (#[trigger] self.history.entries()[i]).0,
                self.history.entries()[i].1 as int,
            )
    }

    /// Everything fits.
    pub open spec fn fits(&self) -> bool {
        self.wf() && self.selection_fits() && self.marked_fits() && self.history_fits()
    }

    /// Where the cursor is.
    pub open spec fn cursor(&self) -> usize {
        if self.selection_reversed {
            self.start
        } else {
            self.end
        }
    }

    /// The end of the selection that the cursor is not at.
    pub open spec fn other_end(&self) -> usize {
        if self.selection_reversed {
            self.end
        } else {
            self.start
        }
    }

    /// The input with another selection.
    pub open spec fn with_selection(self, start: usize, end: usize, reversed: bool) -> TextInput {
        TextInput { start, end, selection_reversed: reversed, ..self }
    }

    /// The selection after the cursor's end goes to an offset, the other end staying.
    pub open spec fn selected_to(self, offset: usize) -> TextInput {
        let (a, b) = if self.selection_reversed {
            (offset, self.end)
        } else {
            (self.start, offset)
        };
        if b < a {
            self.with_selection(b, a, !self.selection_reversed)
        } else {
            self.with_selection(a, b, self.selection_reversed)
        }
    }

    /// Nothing is marked, the mouse selects nothing, and no menu is open.
    pub open spec fn is_idle(self) -> bool {
        !self.selection_reversed && self.marked is None && !self.is_selecting && !self.menu_open
    }

    pub fn new() -> (t: Self)
        ensures
            t.fits(),
            t.content@ == Seq::<char>::empty(),
            t.placeholder@ == Seq::<char>::empty(),
            t.start == 0,
            t.end == 0,
            t.is_idle(),
            !t.disabled,
            !t.masked,
            t.history.entries() == seq![(Seq::<char>::empty(), 0usize)],
            t.history.index() == 0,
    {
        proof {
            text::lemma_ends_are_boundaries(Seq::<char>::empty());
        }
        TextInput {
            content: String::new(),
            placeholder: String::new(),
            start: 0,
            end: 0,
            selection_reversed: false,
            marked: None,
            is_selecting: false,
            history: UndoHistory::new(),
            disabled: false,
            masked: false,
            menu_open: false,
        }
    }

    pub fn set_placeholder(&mut self, text: String)
        ensures
            *final(self) == (TextInput { placeholder: text, ..*old(self) }),
    {
        self.placeholder = text;
    }

    /// What an input is once its text was set: the cursor stands at the end, and the text is
    /// noted in the history.
    pub open spec fn value_set(now: Self, before: Self, value: Seq<char>) -> bool {
        &&& now.wf()
        &&& now.selection_fits()
        &&& now.content@ == value
        &&& now.start == text::byte_len(value)
        &&& now.end == text::byte_len(value)
        &&& (now.history.entries(), now.history.index()) == crate::components::history::recorded(
            before.history.entries(),
            before.history.index(),
            value,
            now.end,
        )
        &&& now == (TextInput {
            content: now.content,
            start: now.start,
            end: now.end,
            history: now.history,
            ..before
        })
    }

    /// Sets the text, with the cursor at its end.
    pub fn set_value(&mut self, value: String)
        requires
            old(self).wf(),
        ensures
            TextInput::value_set(*final(self), *old(self), value@),
    {
        let len: usize = text::byte_length(value.as_str());
        self.content = value;
        self.start = len;
        self.end = len;
        self.history.push(self.content.as_str(), len);
        proof {
            text::lemma_ends_are_boundaries(self.content@);
        }
    }

    pub fn value(&self) -> (s: &str)
        ensures
            s@ == self.content@,
    {
        self.content.as_str()
    }

    pub fn set_disabled(&mut self, disabled: bool)
        ensures
            *final(self) == (TextInput { disabled, ..*old(self) }),
    {
        self.disabled = disabled;
    }

    pub fn set_masked(&mut self, masked: bool)
        ensures
            *final(self) == (TextInput { masked, ..*old(self) }),
    {
        self.masked = masked;
    }

    /// Puts the cursor at an offset, with nothing selected. Which end of a selection the cursor is
    /// at stays.
    pub fn move_to(&mut self, offset: usize)
        ensures
            *final(self) == old(self).with_selection(offset, offset, old(self).selection_reversed),
    {
        self.start = offset;
        self.end = offset;
    }

    pub fn cursor_offset(&self) -> (n: usize)
        ensures
            n == self.cursor(),
    {
        if self.selection_reversed {
            self.start
        } else {
            self.end
        }
    }

    /// Takes the cursor's end of the selection to an offset.
    pub fn select_to(&mut self, offset: usize)
        ensures
            *final(self) == old(self).selected_to(offset),
    {
        if self.selection_reversed {
            self.start = offset;
        } else {
            self.end = offset;
        }
        if self.end < self.start {
            self.selection_reversed = !self.selection_reversed;
            let a: usize = self.end;
            self.end = self.start;
            self.start = a;
        }
    }

    /// The start of the grapheme cluster before an offset.
    pub fn previous_boundary(&self, offset: usize) -> (n: usize)
        ensures
            n == last_below(grapheme_starts_of(self.content@), offset as int),
            text::is_boundary(self.content@, n as int),
            offset > 0 ==> n < offset,
    {
        let starts = grapheme_starts(self.content.as_str());
        let mut i: usize = starts.len();
        assert(starts@.take(i as int) =~= starts@);
        while i > 0
            invariant
                i <= starts@.len(),
                starts@ == grapheme_starts_of(self.content@),
                forall|j: int|
                    0 <= j < starts@.len() ==> text::is_boundary(
                        self.content@,
                        #[trigger] starts@[j] as int,
                    ),
                last_below(starts@, offset as int) == last_below(
                    starts@.take(i as int),
                    offset as int,
                ),
            decreases i,
        {
            assert(starts@.take(i as int).drop_last() =~= starts@.take(i - 1));
            if starts[i - 1] < offset {
                return starts[i - 1];
            }
            i -= 1;
        }
        proof {
            text::lemma_ends_are_boundaries(self.content@);
        }
        0
    }

    /// The start of the grapheme cluster after an offset, or the end.
    pub fn next_boundary(&self, offset: usize) -> (n: usize)
        ensures
            n == first_above(
                grapheme_starts_of(self.content@),
                offset as int,
                text::byte_len(self.content@) as int,
            ),
            text::is_boundary(self.content@, n as int),
            offset < text::byte_len(self.content@) ==> n > offset,
    {
        let starts = grapheme_starts(self.content.as_str());
        let len: usize = text::byte_length(self.content.as_str());
        let mut i: usize = 0;
        assert(starts@.skip(0) =~= starts@);
        while i < starts.len()
            invariant
                i <= starts@.len(),
                len == text::byte_len(self.content@),
                starts@ == grapheme_starts_of(self.content@),
                forall|j: int|
                    0 <= j < starts@.len() ==> text::is_boundary(
                        self.content@,
                        #[trigger] starts@[j] as int,
                    ),
                first_above(starts@, offset as int, len as int) == first_above(
                    starts@.skip(i as int),
                    offset as int,
                    len as int,
                ),
            decreases starts@.len() - i,
        {
            assert(starts@.skip(i as int).drop_first() =~= starts@.skip(i + 1));
            if starts[i] > offset {
                return starts[i];
            }
            i += 1;
        }
        proof {
            text::lemma_ends_are_boundaries(self.content@);
        }
        len
    }

    /// Left: one cluster back, or to the start of the selection.
    pub fn left(&mut self)
        ensures
            *final(self) == old(self).with_selection(
                final(self).start,
                final(self).start,
                old(self).selection_reversed,
            ),
            final(self).start == (if old(self).start >= old(self).end {
                last_below(grapheme_starts_of(old(self).content@), old(self).cursor() as int)
            } else {
                old(self).start as int
            }),
            old(self).selection_fits() ==> final(self).selection_fits(),
    {
        let to: usize = if self.start >= self.end {
            self.previous_boundary(self.cursor_offset())
        } else {
            self.start
        };
        self.move_to(to);
    }

    /// Right: one cluster forward, or to the end of the selection.
    pub fn right(&mut self)
        ensures
            *final(self) == old(self).with_selection(
                final(self).start,
                final(self).start,
                old(self).selection_reversed,
            ),
            final(self).start == (if old(self).start >= old(self).end {
                first_above(
                    grapheme_starts_of(old(self).content@),
                    old(self).end as int,
                    text::byte_len(old(self).content@) as int,
                )
            } else {
                old(self).end as int
            }),
            old(self).selection_fits() ==> final(self).selection_fits(),
    {
        let to: usize = if self.start >= self.end {
            self.next_boundary(self.end)
        } else {
            self.end
        };
        self.move_to(to);
    }

    /// Takes the cursor's end of the selection one cluster back.
    pub fn select_left(&mut self)
        ensures
            exists|n: usize|
                n == last_below(grapheme_starts_of(old(self).content@), old(self).cursor() as int)
                    && text::is_boundary(old(self).content@, n as int) && *final(self)
                    == #[trigger] old(self).selected_to(n),
            old(self).selection_fits() ==> final(self).selection_fits(),
    {
        let to: usize = self.previous_boundary(self.cursor_offset());
        self.select_to(to);
        assert(*self == old(self).selected_to(to));
    }

    /// Takes the cursor's end of the selection one cluster forward.
    pub fn select_right(&mut self)
        ensures
            exists|n: usize|
                n == first_above(
                    grapheme_starts_of(old(self).content@),
                    old(self).cursor() as int,
                    text::byte_len(old(self).content@) as int,
                ) && text::is_boundary(old(self).content@, n as int) && *final(self)
                    == #[trigger] old(self).selected_to(n),
            old(self).selection_fits() ==> final(self).selection_fits(),
    {
        let to: usize = self.next_boundary(self.cursor_offset());
        self.select_to(to);
        assert(*self == old(self).selected_to(to));
    }

    /// Selects everything. With the cursor at the start of the selection it moves to the other
    /// end.
    pub fn select_all(&mut self)
        ensures
            final(self).selection_fits(),
            final(self).end == text::byte_len(old(self).content@),
            *final(self) == old(self).all_selected(),
    {
        let len: usize = text::byte_length(self.content.as_str());
        self.move_to(0);
        self.select_to(len);
        proof {
            text::lemma_ends_are_boundaries(self.content@);
        }
    }

    /// Puts the cursor at the start.
    pub fn home(&mut self)
        ensures
            *final(self) == old(self).with_selection(0, 0, old(self).selection_reversed),
            final(self).selection_fits(),
    {
        self.move_to(0);
        proof {
            text::lemma_ends_are_boundaries(self.content@);
        }
    }

    /// Puts the cursor at the end.
    pub fn end(&mut self)
        ensures
            final(self).start == text::byte_len(old(self).content@),
            *final(self) == old(self).with_selection(
                final(self).start,
                final(self).start,
                old(self).selection_reversed,
            ),
            final(self).selection_fits(),
    {
        let len: usize = text::byte_length(self.content.as_str());
        self.move_to(len);
        proof {
            text::lemma_ends_are_boundaries(self.content@);
        }
    }

    /// The byte offset for an offset in UTF-16.
    pub fn offset_from_utf16(&self, offset: usize) -> (n: usize)
        ensures
            n == from_utf16(self.content@, offset as int),
            text::is_boundary(self.content@, n as int),
    {
        let chars = text::to_chars(self.content.as_str());
        let len: usize = text::byte_length(self.content.as_str());
        let mut bytes: usize = 0;
        let mut units: usize = 0;
        let mut k: usize = 0;
        let ghost s = self.content@;
        proof {
            assert(s.take(0) =~= Seq::<char>::empty());
            text::lemma_byte_len_empty();
            law_utf16_offsets_fit(s, offset as int);
            assert(s.take(s.len() as int) =~= s);
        }
        while k < chars.len() && units < offset
            invariant
                k <= chars@.len(),
                chars@ == s,
                s == self.content@,
                len == text::byte_len(s),
                bytes == text::byte_len(s.take(k as int)),
                units == utf16_len(s.take(k as int)),
                units <= bytes,
                chars_for_utf16(s, offset as int, 0) == chars_for_utf16(
                    s,
                    offset as int,
                    k as int,
                ),
            decreases chars@.len() - k,
        {
            proof {
                text::lemma_take_step(s, k as int);
                text::lemma_take_monotone(s, k + 1, s.len() as int);
                assert(s.take(s.len() as int) =~= s);
                lemma_utf16_len_take(s, k as int);
            }
            let c: u32 = chars[k] as u32;
            units += if c < 0x10000 {
                1
            } else {
                2
            };
            bytes += width_of(chars[k]);
            k += 1;
        }
        bytes
    }

    /// The offset in UTF-16 for a byte offset.
    pub fn offset_to_utf16(&self, offset: usize) -> (n: usize)
        ensures
            n == to_utf16(self.content@, offset as int),
    {
        let chars = text::to_chars(self.content.as_str());
        let len: usize = text::byte_length(self.content.as_str());
        let mut bytes: usize = 0;
        let mut units: usize = 0;
        let mut k: usize = 0;
        let ghost s = self.content@;
        proof {
            assert(s.take(0) =~= Seq::<char>::empty());
            text::lemma_byte_len_empty();
            assert(s.take(s.len() as int) =~= s);
        }
        while k < chars.len() && bytes < offset
            invariant
                k <= chars@.len(),
                chars@ == s,
                s == self.content@,
                len == text::byte_len(s),
                bytes == text::byte_len(s.take(k as int)),
                units == utf16_len(s.take(k as int)),
                units <= bytes,
                chars_for_bytes(s, offset as int, 0) == chars_for_bytes(
                    s,
                    offset as int,
                    k as int,
                ),
            decreases chars@.len() - k,
        {
            proof {
                text::lemma_take_step(s, k as int);
                text::lemma_take_monotone(s, k + 1, s.len() as int);
                assert(s.take(s.len() as int) =~= s);
                lemma_utf16_len_take(s, k as int);
            }
            let c: u32 = chars[k] as u32;
            units += if c < 0x10000 {
                1
            } else {
                2
            };
            bytes += width_of(chars[k]);
            k += 1;
        }
        units
    }

    pub fn range_to_utf16(&self, start: usize, end: usize) -> (r: (usize, usize))
        ensures
            r.0 == to_utf16(self.content@, start as int),
            r.1 == to_utf16(self.content@, end as int),
    {
        (self.offset_to_utf16(start), self.offset_to_utf16(end))
    }

    pub fn range_from_utf16(&self, start: usize, end: usize) -> (r: (usize, usize))
        ensures
            r.0 == from_utf16(self.content@, start as int),
            r.1 == from_utf16(self.content@, end as int),
            text::is_boundary(self.content@, r.0 as int),
            text::is_boundary(self.content@, r.1 as int),
    {
        (self.offset_from_utf16(start), self.offset_from_utf16(end))
    }

    /// The range that an edit replaces: the one that is given in UTF-16, else the text being
    /// composed, else the selection.
    pub open spec fn edit_range(self, utf16: Option<(usize, usize)>) -> (int, int) {
        match utf16 {
            Some((a, b)) => (
                from_utf16(self.content@, a as int),
                from_utf16(self.content@, b as int),
            ),
            None => match self.marked {
                Some((a, b)) => (a as int, b as int),
                None => (self.start as int, self.end as int),
            },
        }
    }

    /// The range that an edit replaces can be cut out of the content.
    pub open spec fn edit_fits(self, utf16: Option<(usize, usize)>) -> bool {
        let (a, b) = self.edit_range(utf16);
        let len = text::byte_len(self.content@) as int;
        text::is_boundary(self.content@, at_most(a, len)) && text::is_boundary(
            self.content@,
            at_most(b, len),
        )
    }

    /// What a deletion takes out can be cut out of the content: the text being composed, the
    /// selection, or a cluster. A cluster has an end between characters by itself; its other end
    /// is where the cursor was.
    pub open spec fn deletion_fits(self) -> bool {
        if self.marked is Some || self.start < self.end {
            self.edit_fits(None)
        } else {
            let len = text::byte_len(self.content@) as int;
            text::is_boundary(self.content@, at_most(self.other_end() as int, len))
        }
    }

    fn range_to_edit(&self, utf16: Option<(usize, usize)>) -> (r: (usize, usize))
        ensures
            (r.0 as int, r.1 as int) == self.edit_range(utf16),
    {
        match utf16 {
            Some((a, b)) => self.range_from_utf16(a, b),
            None => match self.marked {
                Some((a, b)) => (a, b),
                None => (self.start, self.end),
            },
        }
    }

    fn splice(&self, start: usize, end: usize, new_text: &str) -> (r: (String, usize))
        requires
            text::is_boundary(self.content@, start as int),
            text::is_boundary(self.content@, end as int),
        ensures
            r.0@ == spliced(self.content@, start as int, end as int, new_text@),
            r.1 == start + text::byte_len(new_text@),
            text::is_boundary(r.0@, r.1 as int),
    {
        let (head, _) = text::split_text(self.content.as_str(), start);
        let (_, tail) = text::split_text(self.content.as_str(), end);
        let mut s = head.to_owned();
        s.append(new_text);
        let at: usize = text::byte_length(s.as_str());
        proof {
            text::lemma_boundary(self.content@, start as int);
            text::lemma_byte_len_concat(head@, new_text@);
        }
        let ghost front = s@;
        s.append(tail);
        proof {
            assert(s@.take(front.len() as int) =~= front);
            assert(text::ends_at(s@, front.len() as int, at as int));
        }
        (s, at)
    }

    /// Replaces a range, given in UTF-16, else the text being composed, else the selection. The
    /// cursor goes behind the new text. Nothing changes while the input is disabled.
    pub fn replace_text_in_range(&mut self, utf16: Option<(usize, usize)>, new_text: &str) -> (
        changed: bool)
        requires
            old(self).wf(),
            !old(self).disabled ==> old(self).edit_fits(utf16),
        ensures
            changed == !old(self).disabled,
            !changed ==> *final(self) == *old(self),
            changed ==> final(self).edited(*old(self), old(self).edit_range(utf16), new_text@),
            final(self).wf(),
            old(self).fits() ==> final(self).fits(),
    {
        if self.disabled {
            return false;
        }
        let (a, b) = self.range_to_edit(utf16);
        let len: usize = text::byte_length(self.content.as_str());
        let start: usize = if a < len {
            a
        } else {
            len
        };
        let end: usize = if b < len {
            b
        } else {
            len
        };
        let (content, at) = self.splice(start, end, new_text);
        self.content = content;
        self.start = at;
        self.end = at;
        self.marked = None;
        let ghost before = self.history.entries();
        self.history.push(self.content.as_str(), at);
        proof {
            if old(self).fits() {
                let now = self.history.entries();
                assert forall|i: int| 0 <= i < now.len() implies text::is_boundary(
                    (#[trigger] now[i]).0,
                    now[i].1 as int,
                ) by {
                    let index = old(self).history.index();
                    if before[index].0 != self.content@ {
                        let grown = before.take(index + 1).push((self.content@, at));
                        if grown.len() > crate::components::history::MAX_ENTRIES {
                            assert(now[i] == grown[i + 1]);
                            if i + 1 < before.take(index + 1).len() {
                                assert(grown[i + 1] == before[i + 1]);
                            }
                        } else {
                            assert(now[i] == grown[i]);
                            if i < before.take(index + 1).len() {
                                assert(grown[i] == before[i]);
                            }
                        }
                    }
                }
            }
        }
        true
    }

    /// The input `before` after a range was replaced.
    pub open spec fn edited(self, before: TextInput, range: (int, int), new_text: Seq<char>) -> bool {
        let len = text::byte_len(before.content@) as int;
        let start = at_most(range.0, len);
        let end = at_most(range.1, len);
        &&& self.content@ == spliced(before.content@, start, end, new_text)
        &&& self.start == start + text::byte_len(new_text)
        &&& self.end == self.start
        &&& self.marked is None
        &&& (self.history.entries(), self.history.index())
            == crate::components::history::recorded(
            before.history.entries(),
            before.history.index(),
            self.content@,
            self.start,
        )
        &&& self == (TextInput {
            content: self.content,
            start: self.start,
            end: self.end,
            marked: None,
            history: self.history,
            ..before
        })
    }

    /// Replaces a range as above with text that is being composed. It stays marked, and the
    /// selection lies where the input method says, counted from the range.
    pub fn replace_and_mark_text_in_range(
        &mut self,
        utf16: Option<(usize, usize)>,
        new_text: &str,
        selected_utf16: Option<(usize, usize)>,
    ) -> (changed: bool)
        requires
            old(self).wf(),
            !old(self).disabled ==> {
                let (a, b) = old(self).edit_range(utf16);
                &&& old(self).edit_fits(utf16)
                &&& a + text::byte_len(new_text@) <= usize::MAX
                &&& selected_utf16 matches Some((p, q)) ==> {
                    let len = text::byte_len(old(self).content@) as int;
                    let s = spliced(old(self).content@, at_most(a, len), at_most(b, len), new_text@);
                    from_utf16(s, p as int) + a <= usize::MAX && from_utf16(s, q as int) + b
                        <= usize::MAX
                }
            },
        ensures
            changed == !old(self).disabled,
            !changed ==> *final(self) == *old(self),
            changed ==> {
                let (a, b) = old(self).edit_range(utf16);
                let len = text::byte_len(old(self).content@) as int;
                let after = a + text::byte_len(new_text@);
                &&& final(self).content@ == spliced(
                    old(self).content@,
                    at_most(a, len),
                    at_most(b, len),
                    new_text@,
                )
                &&& final(self).marked == (if new_text@.len() > 0 {
                    Some((a as usize, after as usize))
                } else {
                    None
                })
                &&& (final(self).start as int, final(self).end as int) == (match selected_utf16 {
                    Some((p, q)) => (
                        from_utf16(final(self).content@, p as int) + a,
                        from_utf16(final(self).content@, q as int) + b,
                    ),
                    None => (after, after),
                })
                &&& *final(self) == (TextInput {
                    content: final(self).content,
                    start: final(self).start,
                    end: final(self).end,
                    marked: final(self).marked,
                    ..*old(self)
                })
            },
    {
        if self.disabled {
            return false;
        }
        let (a, b) = self.range_to_edit(utf16);
        let len: usize = text::byte_length(self.content.as_str());
        let start: usize = if a < len {
            a
        } else {
            len
        };
        let end: usize = if b < len {
            b
        } else {
            len
        };
        let (content, _) = self.splice(start, end, new_text);
        self.content = content;
        let after: usize = a + text::byte_length(new_text);
        proof {
            text::lemma_byte_len_at_least(new_text@);
            if new_text@.len() == 0 {
                assert(new_text@ =~= Seq::<char>::empty());
                text::lemma_byte_len_empty();
            }
        }
        self.marked = if text::byte_length(new_text) > 0 {
            Some((a, after))
        } else {
            None
        };
        match selected_utf16 {
            Some((p, q)) => {
                let (x, y) = self.range_from_utf16(p, q);
                self.start = x + a;
                self.end = y + b;
            },
            None => {
                self.start = after;
                self.end = after;
            },
        }
        true
    }

    /// Ends the composing; the text stays.
    pub fn unmark_text(&mut self)
        ensures
            *final(self) == (TextInput { marked: None, ..*old(self) }),
    {
        self.marked = None;
    }

    /// The text of a range given in UTF-16, with that range moved to whole characters.
    pub fn text_for_range(&self, start: usize, end: usize) -> (r: (String, (usize, usize)))
        requires
            from_utf16(self.content@, start as int) <= from_utf16(self.content@, end as int),
        ensures
            r.0@ == text::byte_slice(
                self.content@,
                from_utf16(self.content@, start as int),
                from_utf16(self.content@, end as int),
            ),
            r.1.0 == to_utf16(self.content@, from_utf16(self.content@, start as int)),
            r.1.1 == to_utf16(self.content@, from_utf16(self.content@, end as int)),
    {
        let (a, b) = self.range_from_utf16(start, end);
        let actual = self.range_to_utf16(a, b);
        (self.slice(a, b), actual)
    }

    fn slice(&self, a: usize, b: usize) -> (s: String)
        requires
            text::is_boundary(self.content@, a as int),
            text::is_boundary(self.content@, b as int),
            a <= b,
        ensures
            s@ == text::byte_slice(self.content@, a as int, b as int),
    {
        proof {
            text::lemma_boundary(self.content@, a as int);
            text::lemma_boundary(self.content@, b as int);
            text::lemma_boundary_order(self.content@, a as int, b as int);
            let i = text::chars_before(self.content@, a as int);
            let j = text::chars_before(self.content@, b as int);
            let head = self.content@.take(j);
            assert(head.take(i) =~= self.content@.take(i));
            assert(text::ends_at(head, i, a as int));
            text::lemma_ends_at_unique(head, i, a as int);
            assert(head.skip(i) =~= self.content@.subrange(i, j));
        }
        let (head, _) = text::split_text(self.content.as_str(), b);
        let (_, part) = text::split_text(head, a);
        part.to_owned()
    }

    /// The selected text, where there is any, for the clipboard.
    pub fn copy(&self) -> (r: Option<String>)
        requires
            self.start < self.end ==> self.selection_fits(),
        ensures
            match r {
                Some(s) => self.start < self.end && s@ == text::byte_slice(
                    self.content@,
                    self.start as int,
                    self.end as int,
                ),
                None => self.start >= self.end,
            },
    {
        if self.start >= self.end {
            return None;
        }
        Some(self.slice(self.start, self.end))
    }

    /// Takes the selected text out, for the clipboard. What is cut out of the content is the text
    /// being composed where there is one.
    pub fn cut(&mut self) -> (r: Option<String>)
        requires
            old(self).wf(),
            !old(self).disabled && old(self).start < old(self).end ==> old(self).selection_fits()
                && old(self).edit_fits(None),
        ensures
            final(self).wf(),
            old(self).fits() ==> final(self).fits(),
            match r {
                Some(s) => !old(self).disabled && old(self).start < old(self).end && s@
                    == text::byte_slice(
                    old(self).content@,
                    old(self).start as int,
                    old(self).end as int,
                ) && final(self).edited(*old(self), old(self).edit_range(None), Seq::empty()),
                None => (old(self).disabled || old(self).start >= old(self).end) && *final(self)
                    == *old(self),
            },
    {
        if self.disabled || self.start >= self.end {
            return None;
        }
        let s = self.slice(self.start, self.end);
        proof {
            reveal_strlit("");
            assert(""@ =~= Seq::<char>::empty());
        }
        let _changed = self.replace_text_in_range(None, "");
        Some(s)
    }

    /// Where everything fits, so does every edit of the input's own range.
    pub proof fn law_own_edits_fit(&self)
        requires
            self.fits(),
        ensures
            self.edit_fits(None),
            self.deletion_fits(),
    {
        text::lemma_boundary(self.content@, self.start as int);
        text::lemma_boundary(self.content@, self.end as int);
        if let Some((a, b)) = self.marked {
            text::lemma_boundary(self.content@, a as int);
            text::lemma_boundary(self.content@, b as int);
        }
    }

    /// A deletion fits still once its cluster is selected.
    proof fn lemma_cluster_fits(self, before: TextInput)
        requires
            before.deletion_fits(),
            before.start < before.end ==> self == before,
            before.start >= before.end ==> exists|n: usize|
                text::is_boundary(before.content@, n as int) && self
                    == #[trigger] before.selected_to(n),
        ensures
            self.edit_fits(None),
    {
        if before.start >= before.end {
            let n = choose|n: usize|
                text::is_boundary(before.content@, n as int) && self
                    == #[trigger] before.selected_to(n);
            text::lemma_boundary(before.content@, n as int);
        }
    }

    /// Puts a text from the clipboard in, on one line.
    pub fn paste(&mut self, clipboard: &str) -> (changed: bool)
        requires
            old(self).wf(),
            !old(self).disabled ==> old(self).edit_fits(None),
        ensures
            final(self).wf(),
            old(self).fits() ==> final(self).fits(),
            changed == !old(self).disabled,
            !changed ==> *final(self) == *old(self),
            changed ==> final(self).edited(
                *old(self),
                old(self).edit_range(None),
                on_one_line(clipboard@),
            ),
    {
        if self.disabled {
            return false;
        }
        let line = one_line(clipboard);
        self.replace_text_in_range(None, line.as_str())
    }

    /// Deletes the selection, or the cluster before the cursor.
    pub fn backspace(&mut self) -> (changed: bool)
        requires
            old(self).wf(),
            !old(self).disabled ==> old(self).deletion_fits(),
        ensures
            final(self).wf(),
            old(self).fits() ==> final(self).fits(),
            changed == !old(self).disabled,
            !changed ==> *final(self) == *old(self),
            changed ==> exists|mid: TextInput|
                deletes_from(mid, *old(self), true) && #[trigger] final(self).edited(
                    mid,
                    mid.edit_range(None),
                    Seq::empty(),
                ),
    {
        if self.disabled {
            return false;
        }
        if self.start >= self.end {
            self.select_left();
        }
        let ghost mid = *self;
        proof {
            self.lemma_cluster_fits(*old(self));
            reveal_strlit("");
            assert(""@ =~= Seq::<char>::empty());
            assert(deletes_from(mid, *old(self), true));
        }
        self.replace_text_in_range(None, "")
    }

    /// Deletes the selection, or the cluster after the cursor.
    pub fn delete(&mut self) -> (changed: bool)
        requires
            old(self).wf(),
            !old(self).disabled ==> old(self).deletion_fits(),
        ensures
            final(self).wf(),
            old(self).fits() ==> final(self).fits(),
            changed == !old(self).disabled,
            !changed ==> *final(self) == *old(self),
            changed ==> exists|mid: TextInput|
                deletes_from(mid, *old(self), false) && #[trigger] final(self).edited(
                    mid,
                    mid.edit_range(None),
                    Seq::empty(),
                ),
    {
        if self.disabled {
            return false;
        }
        if self.start >= self.end {
            self.select_right();
        }
        let ghost mid = *self;
        proof {
            self.lemma_cluster_fits(*old(self));
            reveal_strlit("");
            assert(""@ =~= Seq::<char>::empty());
            assert(deletes_from(mid, *old(self), false));
        }
        self.replace_text_in_range(None, "")
    }

    /// Goes one text back.
    pub fn undo(&mut self) -> (changed: bool)
        requires
            old(self).wf(),
        ensures
            final(self).wf(),
            changed == (!old(self).disabled && old(self).history.index() > 0),
            !changed ==> *final(self) == *old(self),
            changed ==> final(self).turned_to(*old(self), old(self).history.index() - 1),
            old(self).fits() && old(self).marked is None ==> final(self).fits(),
    {
        if self.disabled {
            return false;
        }
        if let Some(entry) = self.history.undo() {
            self.content = entry.content.clone();
            self.start = entry.cursor;
            self.end = entry.cursor;
            return true;
        }
        false
    }

    /// Goes one text forward again.
    pub fn redo(&mut self) -> (changed: bool)
        requires
            old(self).wf(),
        ensures
            final(self).wf(),
            changed == (!old(self).disabled && old(self).history.index() + 1 < old(
                self).history.entries().len()),
            !changed ==> *final(self) == *old(self),
            changed ==> final(self).turned_to(*old(self), old(self).history.index() + 1),
            old(self).fits() && old(self).marked is None ==> final(self).fits(),
    {
        if self.disabled {
            return false;
        }
        if let Some(entry) = self.history.redo() {
            self.content = entry.content.clone();
            self.start = entry.cursor;
            self.end = entry.cursor;
            return true;
        }
        false
    }

    /// The input `before` turned to an entry of its history.
    pub open spec fn turned_to(self, before: TextInput, i: int) -> bool {
        &&& self.history.entries() == before.history.entries()
        &&& self.history.index() == i
        &&& self.content@ == before.history.entries()[i].0
        &&& self.start == before.history.entries()[i].1
        &&& self.end == self.start
        &&& self == (TextInput {
            content: self.content,
            start: self.start,
            end: self.end,
            history: self.history,
            ..before
        })
    }

    /// Selects the first word that an offset touches. An empty input stays as it is.
    pub fn select_word_at(&mut self, offset: usize)
        ensures
            *final(self) == old(self).word_selected(offset),
            old(self).selection_fits() ==> final(self).selection_fits(),
    {
        let len: usize = text::byte_length(self.content.as_str());
        proof {
            text::lemma_byte_len_at_least(self.content@);
            if self.content@.len() == 0 {
                assert(self.content@ =~= Seq::<char>::empty());
                text::lemma_byte_len_empty();
            }
            text::lemma_ends_are_boundaries(self.content@);
        }
        if len == 0 {
            return;
        }
        let at: usize = if offset < len {
            offset
        } else {
            len
        };
        let starts = word_starts(self.content.as_str());
        let mut start: usize = 0;
        let mut end: usize = len;
        let mut i: usize = 0;
        while i < starts.len()
            invariant_except_break
                start == 0 && end == len,
            invariant
                i <= starts@.len(),
                len == text::byte_len(self.content@),
                word_at(starts@, len, at as int, 0) == word_at(starts@, len, at as int, i as int),
                forall|j: int|
                    0 <= j < starts@.len() ==> text::is_boundary(
                        self.content@,
                        #[trigger] starts@[j] as int,
                    ) && starts@[j] < len,
                forall|j: int, k: int| 0 <= j < k < starts@.len() ==> starts@[j] < starts@[k],
                *self == *old(self),
                text::is_boundary(self.content@, 0),
                text::is_boundary(self.content@, len as int),
            ensures
                (start, end) == word_at(starts@, len, at as int, 0),
                text::is_boundary(self.content@, start as int),
                text::is_boundary(self.content@, end as int),
                start <= end,
                *self == *old(self),
            decreases starts@.len() - i,
        {
            let a: usize = starts[i];
            let b: usize = if i + 1 < starts.len() {
                starts[i + 1]
            } else {
                len
            };
            if a <= at && at <= b {
                start = a;
                end = b;
                break;
            }
            i += 1;
        }
        self.start = start;
        self.end = end;
        self.selection_reversed = false;
    }

    /// The input after its word at an offset is selected.
    pub open spec fn word_selected(self, offset: usize) -> TextInput {
        if self.content@.len() == 0 {
            self
        } else {
            let len = text::byte_len(self.content@) as int;
            let word = word_at(
                word_starts_of(self.content@),
                len as usize,
                at_most(offset as int, len),
                0,
            );
            self.with_selection(word.0, word.1, false)
        }
    }

    /// The input after everything is selected.
    pub open spec fn all_selected(self) -> TextInput {
        let len = text::byte_len(self.content@);
        self.with_selection(0, len as usize, self.selection_reversed && len == 0)
    }

    /// The input after a press of the mouse.
    pub open spec fn pressed(self, index: usize, click_count: usize, shift: bool) -> TextInput {
        let touched = TextInput { menu_open: false, is_selecting: click_count < 2, ..self };
        if click_count == 2 {
            touched.word_selected(index)
        } else if click_count >= 3 {
            touched.all_selected()
        } else if shift {
            touched.selected_to(index)
        } else {
            touched.with_selection(index, index, touched.selection_reversed)
        }
    }

    /// A press of the mouse: twice selects a word, three times everything, once puts the cursor,
    /// or with shift takes the selection along.
    pub fn on_mouse_down(&mut self, index: usize, click_count: usize, shift: bool)
        ensures
            *final(self) == old(self).pressed(index, click_count, shift),
    {
        self.menu_open = false;
        if click_count == 2 {
            self.is_selecting = false;
            self.select_word_at(index);
        } else if click_count >= 3 {
            self.is_selecting = false;
            self.select_all();
        } else {
            self.is_selecting = true;
            if shift {
                self.select_to(index);
            } else {
                self.move_to(index);
            }
        }
    }

    /// A release of the mouse ends the selecting.
    pub fn on_mouse_up(&mut self)
        ensures
            *final(self) == (TextInput { is_selecting: false, ..*old(self) }),
    {
        self.is_selecting = false;
    }

    /// A move with the button down takes the selection along while selecting.
    pub fn on_drag(&mut self, index: usize)
        ensures
            *final(self) == (if old(self).is_selecting {
                old(self).selected_to(index)
            } else {
                *old(self)
            }),
    {
        if self.is_selecting {
            self.select_to(index);
        }
    }

    /// Escape closes the menu. Tells whether there was one to close; if not, the key goes on to
    /// the parent.
    pub fn cancel(&mut self) -> (closed: bool)
        ensures
            closed == old(self).menu_open,
            *final(self) == (TextInput { menu_open: false, ..*old(self) }),
    {
        let open = self.menu_open;
        self.menu_open = false;
        open
    }

    /// What the owner is told after the text changed.
    pub fn change_event(&self) -> (event: TextInputEvent)
        ensures
            event matches TextInputEvent::Changed(s) && s@ == self.content@,
    {
        TextInputEvent::Changed(self.content.clone())
    }

    /// The selection in UTF-16, and whether the cursor is at its start.
    pub fn selected_text_range(&self) -> (r: ((usize, usize), bool))
        ensures
            r.0.0 == to_utf16(self.content@, self.start as int),
            r.0.1 == to_utf16(self.content@, self.end as int),
            r.1 == self.selection_reversed,
    {
        (self.range_to_utf16(self.start, self.end), self.selection_reversed)
    }

    /// The text being composed, in UTF-16.
    pub fn marked_text_range(&self) -> (r: Option<(usize, usize)>)
        ensures
            match self.marked {
                Some((a, b)) => r matches Some((p, q)) && p == to_utf16(self.content@, a as int)
                    && q == to_utf16(self.content@, b as int),
                None => r is None,
            },
    {
        match self.marked {
            Some((a, b)) => Some(self.range_to_utf16(a, b)),
            None => None,
        }
    }

    /// The byte offset under the mouse: the start above the line, the end below it.
    pub fn index_for_mouse_position(&self, place: MousePlace) -> (n: usize)
        ensures
            n == (if self.content@.len() == 0 {
                0
            } else {
                match place {
                    MousePlace::NoLayout => 0,
                    MousePlace::Above => 0,
                    MousePlace::Below => text::byte_len(self.content@) as int,
                    MousePlace::At(shown) => self.content_offset(shown as int),
                }
            }),
    {
        let len: usize = text::byte_length(self.content.as_str());
        proof {
            text::lemma_byte_len_at_least(self.content@);
            if self.content@.len() == 0 {
                assert(self.content@ =~= Seq::<char>::empty());
                text::lemma_byte_len_empty();
            }
        }
        if len == 0 {
            return 0;
        }
        match place {
            MousePlace::NoLayout => 0,
            MousePlace::Above => 0,
            MousePlace::Below => len,
            MousePlace::At(shown) => self.offset_from_display(shown),
        }
    }

    /// A right click opens the menu; which items cannot be chosen: cut, copy, paste, select all.
    pub fn on_right_click(&mut self) -> (r: (bool, bool, bool, bool))
        ensures
            *final(self) == (TextInput { menu_open: true, ..*old(self) }),
            r == (
                old(self).start >= old(self).end || old(self).disabled,
                old(self).start >= old(self).end,
                old(self).disabled,
                false,
            ),
    {
        self.menu_open = true;
        let none = self.start >= self.end;
        (none || self.disabled, none, self.disabled, false)
    }

    /// A tick of the scrolling while the mouse is held beside the input. The selection follows
    /// where the mouse's offset or the scrolling moved. Tells whether the ticks go on.
    pub fn auto_scroll_tick(&mut self, outside: bool, index: usize, scrolled: bool) -> (on: bool)
        ensures
            on == (old(self).is_selecting && outside),
            *final(self) == (if on && (index != old(self).cursor() || scrolled) {
                old(self).selected_to(index)
            } else {
                *old(self)
            }),
    {
        if !self.is_selecting || !outside {
            return false;
        }
        if index != self.cursor_offset() || scrolled {
            self.select_to(index);
        }
        true
    }

    /// What is drawn over the text: the selection, or the caret of a focused input, at offsets of
    /// the text that is shown.
    pub fn caret(&self, focused: bool) -> (c: Caret)
        requires
            self.masked && self.content@.len() > 0 ==> {
                &&& text::is_boundary(self.content@, self.cursor() as int)
                &&& self.start < self.end ==> text::is_boundary(self.content@, self.start as int)
                    && text::is_boundary(self.content@, self.end as int)
                &&& 3 * self.content@.len() <= usize::MAX
            },
        ensures
            match c {
                Caret::Selection(a, b) => self.start < self.end && a == self.shown_offset(
                    self.start as int,
                ) && b == self.shown_offset(self.end as int),
                Caret::At(n) => self.start >= self.end && focused && n == self.shown_offset(
                    self.cursor() as int,
                ),
                Caret::Hidden => self.start >= self.end && !focused,
            },
    {
        if self.start < self.end {
            Caret::Selection(self.display_offset(self.start), self.display_offset(self.end))
        } else if focused {
            Caret::At(self.display_offset(self.cursor_offset()))
        } else {
            Caret::Hidden
        }
    }

    /// The text that is shown, and whether it is the placeholder.
    pub open spec fn shown(self) -> (Seq<char>, bool) {
        if self.content@.len() == 0 {
            (self.placeholder@, true)
        } else if self.masked {
            (Seq::new(self.content@.len(), |i: int| MASK_CHAR), false)
        } else {
            (self.content@, false)
        }
    }

    /// The text that is shown, and whether it is the placeholder.
    pub fn display_text(&self) -> (r: (String, bool))
        ensures
            (r.0@, r.1) == self.shown(),
    {
        let chars = text::to_chars(self.content.as_str());
        if chars.len() == 0 {
            return (self.placeholder.clone(), true);
        }
        if !self.masked {
            return (self.content.clone(), false);
        }
        let mut s = String::new();
        let mut i: usize = 0;
        let ghost all = Seq::new(self.content@.len(), |i: int| MASK_CHAR);
        while i < chars.len()
            invariant
                i <= chars@.len(),
                chars@ == self.content@,
                all == Seq::new(self.content@.len(), |i: int| MASK_CHAR),
                s@ == all.take(i as int),
            decreases chars@.len() - i,
        {
            s.push(MASK_CHAR);
            assert(all.take(i + 1) =~= all.take(i as int).push(MASK_CHAR));
            i += 1;
        }
        assert(all.take(i as int) =~= all);
        (s, false)
    }

    /// Where a byte offset of the content lies in the text that is shown.
    pub open spec fn shown_offset(self, offset: int) -> int {
        if self.masked && self.content@.len() > 0 {
            text::chars_before(self.content@, offset) * 3
        } else {
            offset
        }
    }

    /// Where a byte offset of the content lies in the text that is shown.
    pub fn display_offset(&self, offset: usize) -> (n: usize)
        requires
            self.masked && self.content@.len() > 0 ==> text::is_boundary(
                self.content@,
                offset as int,
            ) && 3 * self.content@.len() <= usize::MAX,
        ensures
            n == self.shown_offset(offset as int),
    {
        let length: usize = text::to_chars(self.content.as_str()).len();
        if !self.masked || length == 0 {
            return offset;
        }
        proof {
            text::lemma_boundary(self.content@, offset as int);
        }
        let (head, _) = text::split_text(self.content.as_str(), offset);
        let count: usize = text::to_chars(head).len();
        count * 3
    }

    /// The byte offset of the content for one in the text that is shown. Beyond the last character
    /// it is the end.
    pub open spec fn content_offset(self, shown: int) -> int {
        if self.masked {
            let k = shown / 3;
            if k < self.content@.len() {
                text::byte_len(self.content@.take(k)) as int
            } else {
                text::byte_len(self.content@) as int
            }
        } else {
            shown
        }
    }

    /// The byte offset of the content for one in the text that is shown.
    pub fn offset_from_display(&self, shown: usize) -> (n: usize)
        ensures
            n == self.content_offset(shown as int),
            self.masked ==> text::is_boundary(self.content@, n as int),
    {
        if !self.masked {
            return shown;
        }
        let k: usize = shown / 3;
        let chars = text::to_chars(self.content.as_str());
        let len: usize = text::byte_length(self.content.as_str());
        proof {
            text::lemma_ends_are_boundaries(self.content@);
        }
        if k >= chars.len() {
            return len;
        }
        let ghost s = self.content@;
        let mut i: usize = 0;
        let mut bytes: usize = 0;
        proof {
            assert(s.take(0) =~= Seq::<char>::empty());
            text::lemma_byte_len_empty();
        }
        while i < k
            invariant
                i <= k < chars@.len(),
                chars@ == s,
                len == text::byte_len(s),
                bytes == text::byte_len(s.take(i as int)),
            decreases k - i,
        {
            proof {
                text::lemma_take_step(s, i as int);
                text::lemma_take_monotone(s, i + 1, s.len() as int);
                assert(s.take(s.len() as int) =~= s);
            }
            bytes += width_of(chars[i]);
            i += 1;
        }
        assert(text::ends_at(s, k as int, bytes as int));
        bytes
    }

    /// The lengths of the stretches before, in and after the text being composed, and whether each
    /// is underlined. Empty stretches are left out.
    pub fn mark_runs(&self, shown_len: usize) -> (runs: Vec<(usize, bool)>)
        requires
            self.marked matches Some((a, b)) ==> a <= b <= shown_len,
        ensures
            runs@ == (match self.marked {
                Some((a, b)) => not_empty(a, false) + not_empty((b - a) as usize, true)
                    + not_empty((shown_len - b) as usize, false),
                None => seq![(shown_len, false)],
            }),
    {
        let mut runs: Vec<(usize, bool)> = Vec::new();
        match self.marked {
            Some((a, b)) => {
                if a > 0 {
                    runs.push((a, false));
                }
                if b - a > 0 {
                    runs.push((b - a, true));
                }
                if shown_len - b > 0 {
                    runs.push((shown_len - b, false));
                }
                assert(runs@ =~= not_empty(a, false) + not_empty((b - a) as usize, true)
                    + not_empty((shown_len - b) as usize, false));
            },
            None => {
                runs.push((shown_len, false));
                assert(runs@ =~= seq![(shown_len, false)]);
            },
        }
        runs
    }
}

/// Taking the cursor's end of the selection to an offset puts the cursor there and leaves the
/// other end where it is.
pub proof fn law_other_end_stays(input: TextInput, offset: usize)
    requires
        input.start <= input.end,
    ensures
        ({
            let after = input.selected_to(offset);
            &&& after.start <= after.end
            &&& after.start == after.end || after.cursor() == offset
            &&& after.start == after.end ==> after.start == offset
            &&& after.start == input.other_end() || after.end == input.other_end()
            &&& after.start != after.end ==> after.other_end() == input.other_end()
        }),
{
}

/// A stretch, where it is not empty.
pub open spec fn not_empty(len: usize, underlined: bool) -> Seq<(usize, bool)> {
    if len > 0 {
        seq![(len, underlined)]
    } else {
        seq![]
    }
}

/// The input before a deletion: `before` itself where something is selected, else with the
/// cluster before, or after, the cursor selected.
pub open spec fn deletes_from(mid: TextInput, before: TextInput, back: bool) -> bool {
    if before.start < before.end {
        mid == before
    } else {
        exists|n: usize|
            n == (if back {
                last_below(grapheme_starts_of(before.content@), before.cursor() as int)
            } else {
                first_above(
                    grapheme_starts_of(before.content@),
                    before.cursor() as int,
                    text::byte_len(before.content@) as int,
                )
            }) && mid == #[trigger] before.selected_to(n)
    }
}

fn one_line(s: &str) -> (r: String)
    ensures
        r@ == on_one_line(s@),
{
    let chars = text::to_chars(s);
    let mut r = String::new();
    let mut i: usize = 0;
    assert(on_one_line(s@).take(0) =~= r@);
    while i < chars.len()
        invariant
            i <= chars@.len(),
            chars@ == s@,
            r@ == on_one_line(s@).take(i as int),
        decreases chars@.len() - i,
    {
        let c = chars[i];
        r.push(
            if c == '\n' {
                ' '
            } else {
                c
            },
        );
        assert(on_one_line(s@).take(i + 1) =~= on_one_line(s@).take(i as int).push(
            on_one_line(s@)[i as int],
        ));
        i += 1;
    }
    assert(on_one_line(s@).take(i as int) =~= on_one_line(s@));
    r
}

fn width_of(c: char) -> (n: usize)
    ensures
        n == text::char_width(c),
{
    let v: u32 = c as u32;
    if v < 0x80 {
        1
    } else if v < 0x800 {
        2
    } else if v < 0x10000 {
        3
    } else {
        4
    }
}

proof fn lemma_cut(x: Seq<u8>, head: Seq<u8>, tail: Seq<u8>)
    requires
        x == head + tail,
    ensures
        x.take(head.len() as int) == head,
        x.skip(head.len() as int) == tail,
{
    assert(x.take(head.len() as int) =~= head);
    assert(x.skip(head.len() as int) =~= tail);
}

proof fn lemma_encoded_parts(s: Seq<char>, offset: int)
    requires
        text::is_boundary(s, offset),
    ensures
        ({
            let k = text::chars_before(s, offset);
            &&& encode_utf8(s.take(k)) == encode_utf8(s).take(offset)
            &&& encode_utf8(s.skip(k)) == encode_utf8(s).skip(offset)
        }),
{
    text::lemma_boundary(s, offset);
    let k = text::chars_before(s, offset);
    text::lemma_encode_concat(s.take(k), s.skip(k));
    assert(s.take(k) + s.skip(k) =~= s);
    lemma_cut(encode_utf8(s), encode_utf8(s.take(k)), encode_utf8(s.skip(k)));
}

proof fn lemma_spliced_bytes(s: Seq<char>, a: int, b: int, new: Seq<char>)
    requires
        text::is_boundary(s, a),
        text::is_boundary(s, b),
    ensures
        encode_utf8(spliced(s, a, b, new)) == encode_utf8(s).take(a) + encode_utf8(new)
            + encode_utf8(s).skip(b),
{
    let head = s.take(text::chars_before(s, a));
    let tail = s.skip(text::chars_before(s, b));
    lemma_encoded_parts(s, a);
    lemma_encoded_parts(s, b);
    text::lemma_encode_concat(head, new);
    text::lemma_encode_concat(head + new, tail);
}

/// An edit takes the bytes of its range out and puts those of the new text in their place; the
/// bytes before and behind stay. The cursor then stands behind the new text, with nothing selected
/// and nothing being composed.
pub proof fn law_edit_replaces_the_bytes(
    before: TextInput,
    after: TextInput,
    a: int,
    b: int,
    new: Seq<char>,
)
    requires
        after.edited(before, (a, b), new),
        text::is_boundary(before.content@, a),
        text::is_boundary(before.content@, b),
    ensures
        encode_utf8(after.content@) == encode_utf8(before.content@).take(a) + encode_utf8(new)
            + encode_utf8(before.content@).skip(b),
        after.start == a + encode_utf8(new).len(),
        after.end == after.start,
        after.marked is None,
        after.placeholder == before.placeholder,
        after.masked == before.masked,
        after.disabled == before.disabled,
{
    text::lemma_boundary(before.content@, a);
    text::lemma_boundary(before.content@, b);
    lemma_spliced_bytes(before.content@, a, b, new);
}

/// What an edit without a range replaces: the text being composed where there is one, wherever the
/// selection lies, and else the selection.
pub proof fn law_composed_text_is_replaced_first(input: TextInput, other: TextInput)
    ensures
        input.marked matches Some((a, b)) ==> input.edit_range(None) == (a as int, b as int),
        input.marked is None ==> input.edit_range(None) == (input.start as int, input.end as int),
        input.marked is Some && input.marked == other.marked ==> input.edit_range(None)
            == other.edit_range(None),
{
}

/// The nearest start below an offset: none of the starts lies between it and the offset.
pub proof fn law_nearest_below(starts: Seq<usize>, offset: int, i: int)
    requires
        forall|j: int, k: int| 0 <= j < k < starts.len() ==> starts[j] < starts[k],
        0 <= i < starts.len(),
    ensures
        starts[i] < offset ==> starts[i] <= last_below(starts, offset) < offset,
        last_below(starts, offset) == 0 || exists|j: int|
            0 <= j < starts.len() && #[trigger] starts[j] == last_below(starts, offset),
    decreases starts.len(),
{
    let last = starts.len() - 1;
    assert(starts.last() == starts[last]);
    if !(starts[last] < offset) {
        let rest = starts.drop_last();
        assert forall|j: int, k: int| 0 <= j < k < rest.len() implies rest[j] < rest[k] by {
            assert(rest[j] == starts[j] && rest[k] == starts[k]);
        }
        if rest.len() > 0 {
            let m = if i < last {
                i
            } else {
                0
            };
            law_nearest_below(rest, offset, m);
            assert(rest[m] == starts[m]);
            if last_below(rest, offset) != 0 {
                let j = choose|j: int|
                    0 <= j < rest.len() && #[trigger] rest[j] == last_below(rest, offset);
                assert(starts[j] == last_below(rest, offset));
            }
        }
    }
}

/// The nearest start above an offset: none of the starts lies between the offset and it, and where
/// there is none above, it is the end.
pub proof fn law_nearest_above(starts: Seq<usize>, offset: int, end: int, i: int)
    requires
        forall|j: int, k: int| 0 <= j < k < starts.len() ==> starts[j] < starts[k],
        0 <= i < starts.len(),
    ensures
        starts[i] > offset ==> offset < first_above(starts, offset, end) <= starts[i],
        first_above(starts, offset, end) == end || exists|j: int|
            0 <= j < starts.len() && #[trigger] starts[j] == first_above(starts, offset, end),
        (forall|j: int| 0 <= j < starts.len() ==> #[trigger] starts[j] <= offset) ==> first_above(
            starts,
            offset,
            end,
        ) == end,
    decreases starts.len(),
{
    if !(starts[0] > offset) {
        let rest = starts.drop_first();
        assert forall|j: int, k: int| 0 <= j < k < rest.len() implies rest[j] < rest[k] by {
            assert(rest[j] == starts[j + 1] && rest[k] == starts[k + 1]);
        }
        if rest.len() > 0 {
            let m = if i > 0 {
                i - 1
            } else {
                0
            };
            law_nearest_above(rest, offset, end, m);
            assert(rest[m] == starts[m + 1]);
            if first_above(rest, offset, end) != end {
                let j = choose|j: int|
                    0 <= j < rest.len() && #[trigger] rest[j] == first_above(rest, offset, end);
                assert(starts[j + 1] == first_above(rest, offset, end));
            }
            if forall|j: int| 0 <= j < starts.len() ==> #[trigger] starts[j] <= offset {
                assert forall|j: int| 0 <= j < rest.len() implies #[trigger] rest[j] <= offset by {
                    assert(rest[j] == starts[j + 1]);
                }
            }
        }
    } else {
        assert(starts[0] <= starts[i]);
    }
}

/// With nothing selected and nothing being composed, backspace takes out what stands between the
/// start of the cluster before the cursor and the cursor, and delete what stands between the cursor
/// and the next cluster's start. The rest stays, and the cursor stands where the cut was.
pub proof fn law_deletion_takes_one_cluster(
    before: TextInput,
    mid: TextInput,
    after: TextInput,
    back: bool,
    n: int,
)
    requires
        before.start == before.end,
        before.marked is None,
        text::is_boundary(before.content@, before.start as int),
        text::is_boundary(before.content@, n),
        deletes_from(mid, before, back),
        back ==> n == last_below(grapheme_starts_of(before.content@), before.start as int) && n
            <= before.start,
        !back ==> n == first_above(
            grapheme_starts_of(before.content@),
            before.start as int,
            text::byte_len(before.content@) as int,
        ) && before.start <= n,
        after.edited(mid, mid.edit_range(None), Seq::empty()),
    ensures
        ({
            let bytes = encode_utf8(before.content@);
            let (a, b) = if back {
                (n, before.start as int)
            } else {
                (before.start as int, n)
            };
            &&& encode_utf8(after.content@) == bytes.take(a) + bytes.skip(b)
            &&& after.start == a
            &&& after.end == a
        }),
{
    let (a, b) = if back {
        (n, before.start as int)
    } else {
        (before.start as int, n)
    };
    assert(mid.edit_range(None) == (a, b));
    law_edit_replaces_the_bytes(mid, after, a, b, Seq::empty());
    text::lemma_byte_len_empty();
    let bytes = encode_utf8(before.content@);
    assert(encode_utf8(Seq::<char>::empty()) =~= Seq::empty());
    assert(bytes.take(a) + encode_utf8(Seq::<char>::empty()) =~= bytes.take(a));
}

/// A click on a word selects a word that it touches, from its start to where the next one begins;
/// where it touches none, everything.
pub proof fn law_word_is_touched(starts: Seq<usize>, len: usize, offset: int, i: int)
    requires
        0 <= i <= starts.len(),
    ensures
        ({
            let (a, b) = word_at(starts, len, offset, i);
            ||| (a, b) == (0usize, len) && forall|k: int|
                i <= k < starts.len() ==> !(#[trigger] starts[k] <= offset && offset <= (if k + 1
                    < starts.len() {
                    starts[k + 1]
                } else {
                    len
                }))
            ||| exists|k: int|
                i <= k < starts.len() && a == #[trigger] starts[k] && b == (if k + 1 < starts.len() {
                    starts[k + 1]
                } else {
                    len
                }) && a <= offset <= b
        }),
    decreases starts.len() - i,
{
    if i < starts.len() {
        if starts[i] <= offset <= word_end(starts, len, i) {
            assert(starts[i] == word_at(starts, len, offset, i).0);
        } else {
            law_word_is_touched(starts, len, offset, i + 1);
        }
    }
}

/// Offsets count whole characters on either side: the first `k` characters end in UTF-16 where
/// their units end and in UTF-8 where their bytes do. A character takes two units where it lies
/// beyond the first 65536, else one.
pub proof fn law_utf16_counts_units(s: Seq<char>, k: int, c: char)
    requires
        0 <= k <= s.len(),
    ensures
        to_utf16(s, text::byte_len(s.take(k)) as int) == utf16_len(s.take(k)),
        from_utf16(s, utf16_len(s.take(k)) as int) == text::byte_len(s.take(k)),
        utf16_len(s.push(c)) == utf16_len(s) + (if c as u32 >= 0x10000 {
            2int
        } else {
            1
        }),
        utf16_len(Seq::empty()) == 0,
{
    lemma_chars_for_own_bytes(s, k, 0);
    lemma_chars_for_own_utf16(s, k, 0);
    assert(s.push(c).drop_last() =~= s);
}

/// A masked text shows as many signs as it has characters, all the same, so that two texts of one
/// length look alike.
pub proof fn law_mask_hides_the_text(a: TextInput, b: TextInput)
    requires
        a.masked,
        b.masked,
        a.content@.len() == b.content@.len() > 0,
    ensures
        a.shown() == b.shown(),
        a.shown().0.len() == a.content@.len(),
        forall|i: int, j: int|
            0 <= i < a.content@.len() && 0 <= j < a.content@.len() ==> a.shown().0[i]
                == a.shown().0[j],
        !a.shown().1,
{
}

/// An offset between characters comes back from the text that is shown as it was.
pub proof fn law_shown_offset_comes_back(input: TextInput, offset: int)
    requires
        text::is_boundary(input.content@, offset),
    ensures
        input.content_offset(input.shown_offset(offset)) == offset,
{
    text::lemma_boundary(input.content@, offset);
    let k = text::chars_before(input.content@, offset);
    if input.masked && input.content@.len() == 0 {
        assert(input.content@.take(k) =~= input.content@);
    } else if input.masked {
        assert((k * 3) / 3 == k) by (nonlinear_arith);
        if k == input.content@.len() {
            assert(input.content@.take(k) =~= input.content@);
        }
    }
}

/// A pasted text comes on one line: it keeps its length and all its characters but the line
/// feeds, which are blanks.
pub proof fn law_paste_is_one_line(s: Seq<char>, i: int)
    requires
        0 <= i < s.len(),
    ensures
        on_one_line(s).len() == s.len(),
        on_one_line(s)[i] != '\n',
        s[i] != '\n' ==> on_one_line(s)[i] == s[i],
        s[i] == '\n' ==> on_one_line(s)[i] == ' ',
{
}

/// What a press of the mouse selects: once the place itself, or with shift from the end that stays
/// to the place; three times everything. Only a single press goes on selecting.
pub proof fn law_clicks(input: TextInput, index: usize, shift: bool)
    requires
        text::byte_len(input.content@) <= usize::MAX,
        input.start <= input.end,
    ensures
        ({
            let once = input.pressed(index, 1, shift);
            let thrice = input.pressed(index, 3, shift);
            &&& !shift ==> once.start == index && once.end == index
            &&& shift && !input.selection_reversed ==> (once.start == input.start && once.end
                == index || once.start == index && once.end == input.start)
            &&& shift && input.selection_reversed ==> (once.start == input.end && once.end == index
                || once.start == index && once.end == input.end)
            &&& once.start <= once.end
            &&& once.is_selecting
            &&& thrice.start == 0
            &&& thrice.end == text::byte_len(input.content@)
            &&& !thrice.is_selecting
            &&& !input.pressed(index, 2, shift).is_selecting
            &&& once.content == input.content
            &&& thrice.content == input.content
            &&& input.pressed(index, 2, shift).content == input.content
        }),
{
}

/// An undo right after an edit brings the text back that was there before it, where that was noted
/// last, and a redo then brings the edited text back, with the cursor behind what was put in.
pub proof fn law_undo_takes_back_an_edit(
    before: TextInput,
    after: TextInput,
    undone: TextInput,
    redone: TextInput,
    range: (int, int),
    new: Seq<char>,
)
    requires
        before.wf(),
        before.history.current().0 == before.content@,
        after.edited(before, range, new),
        after.content@ != before.content@,
        undone.turned_to(after, after.history.index() - 1),
        redone.turned_to(undone, undone.history.index() + 1),
    ensures
        undone.content@ == before.content@,
        undone.start == before.history.current().1,
        undone.end == undone.start,
        redone.content@ == after.content@,
        redone.start == after.start,
        redone.end == after.end,
        redone.history.entries() == after.history.entries(),
        redone.history.index() == after.history.index(),
{
    crate::components::history::law_undo_takes_back_push(
        before.history.entries(),
        before.history.index(),
        after.content@,
        after.start,
    );
}

/// An input that was set holds the text, with the cursor at its end and nothing selected, and an
/// undo brings back what was noted before.
pub proof fn law_set_text_is_noted(
    before: TextInput,
    after: TextInput,
    undone: TextInput,
    value: Seq<char>,
)
    requires
        before.wf(),
        before.history.current().0 != value,
        TextInput::value_set(after, before, value),
        undone.turned_to(after, after.history.index() - 1),
    ensures
        after.content@ == value,
        after.start == encode_utf8(value).len(),
        after.end == after.start,
        after.masked == before.masked,
        after.placeholder == before.placeholder,
        undone.content@ == before.history.current().0,
        undone.start == before.history.current().1,
{
    crate::components::history::law_undo_takes_back_push(
        before.history.entries(),
        before.history.index(),
        value,
        after.end,
    );
}

/// With something selected, or with text being composed, a deletion takes that and no more,
/// whichever way it goes.
pub proof fn law_deletion_takes_the_selection(
    before: TextInput,
    mid: TextInput,
    after: TextInput,
    back: bool,
)
    requires
        before.start < before.end,
        before.marked is None,
        before.selection_fits(),
        deletes_from(mid, before, back),
        after.edited(mid, mid.edit_range(None), Seq::empty()),
    ensures
        encode_utf8(after.content@) == encode_utf8(before.content@).take(before.start as int)
            + encode_utf8(before.content@).skip(before.end as int),
        after.start == before.start,
        after.end == before.start,
{
    law_edit_replaces_the_bytes(
        mid,
        after,
        before.start as int,
        before.end as int,
        Seq::empty(),
    );
    text::lemma_byte_len_empty();
    let head = encode_utf8(before.content@).take(before.start as int);
    assert(encode_utf8(Seq::<char>::empty()) =~= Seq::<u8>::empty());
    assert(head + Seq::<u8>::empty() =~= head);
}

/// With everything selected the cursor stands at the end of the text.
pub proof fn law_all_is_selected(input: TextInput)
    requires
        text::byte_len(input.content@) <= usize::MAX,
    ensures
        input.all_selected().start == 0,
        input.all_selected().end == text::byte_len(input.content@),
        input.all_selected().cursor() == text::byte_len(input.content@),
        input.all_selected().content == input.content,
{
}

/// A word that is selected is one that the place touches, or all of the text where it touches none;
/// the cursor stands behind it. Without any text nothing changes.
pub proof fn law_word_is_selected(input: TextInput, offset: usize)
    requires
        text::byte_len(input.content@) <= usize::MAX,
        offset <= text::byte_len(input.content@),
    ensures
        input.content@.len() == 0 ==> input.word_selected(offset) == input,
        input.content@.len() > 0 ==> {
            let after = input.word_selected(offset);
            let len = text::byte_len(input.content@);
            let starts = word_starts_of(input.content@);
            &&& after.content == input.content
            &&& after.cursor() == after.end
            &&& ((after.start == 0 && after.end == len) || (exists|k: int|
                0 <= k < starts.len() && after.start == #[trigger] starts[k] && after.start
                    <= offset <= after.end && after.end == (if k + 1 < starts.len() {
                    starts[k + 1] as int
                } else {
                    len as int
                })))
        },
{
    if input.content@.len() > 0 {
        let len = text::byte_len(input.content@) as usize;
        law_word_is_touched(word_starts_of(input.content@), len, offset as int, 0);
    }
}

} // verus!
