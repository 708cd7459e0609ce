//! Line diffs between two versions of a file.

use crate::text;
use crate::text_order;
use vstd::prelude::*;

verus! {

#[derive(Clone, Copy, Debug, PartialEq, Eq, Structural)]
pub enum DiffLineKind {
    Context,
    Addition,
    Deletion,
}

/// One line of a hunk, with its line numbers from 1 where it has them.
#[derive(Clone, Debug)]
pub struct DiffLine {
    pub kind: DiffLineKind,
    pub old_lineno: Option<usize>,
    pub new_lineno: Option<usize>,
    pub content: String,
}

/// A run of changed lines with a little context.
#[derive(Clone, Debug)]
pub struct DiffHunk {
    pub old_start: usize,
    pub old_count: usize,
    pub new_start: usize,
    pub new_count: usize,
    pub lines: Vec<DiffLine>,
}

#[derive(Clone, Debug)]
pub struct FileDiff {
    pub additions: usize,
    pub deletions: usize,
    pub hunks: Vec<DiffHunk>,
    pub is_binary: bool,
}

#[derive(Clone, Debug)]
pub struct DiffStats {
    pub additions: usize,
    pub deletions: usize,
}

impl Default for DiffStats {
    fn default() -> (stats: Self)
        ensures
            stats.additions == 0,
            stats.deletions == 0,
    {
        DiffStats { additions: 0, deletions: 0 }
    }
}

/// What an edit does with the lines it covers.
#[derive(Clone, Copy, Debug, PartialEq, Eq, Structural)]
pub enum OpTag {
    Equal,
    Delete,
    Insert,
    Replace,
}

/// One edit: old lines `old_start..old_end` become new lines `new_start..new_end`.
#[derive(Clone, Copy, Debug, PartialEq, Eq, Structural)]
pub struct LineOp {
    pub tag: OpTag,
    pub old_start: usize,
    pub old_end: usize,
    pub new_start: usize,
    pub new_end: usize,
}

/// A diff line with its content as characters.
pub struct LineView {
    pub kind: DiffLineKind,
    pub old_lineno: Option<int>,
    pub new_lineno: Option<int>,
    pub content: Seq<char>,
}

impl View for DiffLine {
    type V = LineView;

    open spec fn view(&self) -> LineView {
        LineView {
            kind: self.kind,
            old_lineno: match self.old_lineno {
                Some(n) => Some(n as int),
                None => None,
            },
            new_lineno: match self.new_lineno {
                Some(n) => Some(n as int),
                None => None,
            },
            content: self.content@,
        }
    }
}

/// The views of a list of diff lines.
pub open spec fn line_views(lines: Seq<DiffLine>) -> Seq<LineView> {
    lines.map_values(|line: DiffLine| line@)
}

/// Where the line that holds character `i` of `s` ends: after `\n`, `\r\n`, or a single `\r`.
pub open spec fn line_end(s: Seq<char>, i: int) -> int
    decreases s.len() - i,
{
    if i >= s.len() {
        s.len() as int
    } else if s[i] == '\n' {
        i + 1
    } else if s[i] == '\r' {
        if i + 1 < s.len() && s[i + 1] == '\n' {
            i + 2
        } else {
            i + 1
        }
    } else {
        line_end(s, i + 1)
    }
}

/// The lines of `s`, each with its line break.
pub open spec fn split_lines(s: Seq<char>) -> Seq<Seq<char>>
    decreases s.len(),
{
    if s.len() == 0 {
        seq![]
    } else {
        let end = line_end(s, 0);
        if 0 < end <= s.len() {
            seq![s.take(end)] + split_lines(s.skip(end))
        } else {
            seq![]
        }
    }
}

/// All of the texts, one after the other.
pub open spec fn concatenated(parts: Seq<Seq<char>>) -> Seq<char>
    decreases parts.len(),
{
    if parts.len() == 0 {
        seq![]
    } else {
        parts[0] + concatenated(parts.drop_first())
    }
}

/// The ranges of an edit end no earlier than they start.
pub open spec fn op_ordered(op: LineOp) -> bool {
    op.old_start <= op.old_end && op.new_start <= op.new_end
}

/// The ranges of an edit lie inside texts of `m` old and `n` new lines. An insertion takes no
/// old line and a deletion gives no new one.
pub open spec fn op_fits(op: LineOp, m: nat, n: nat) -> bool {
    &&& op_ordered(op)
    &&& if op.tag == OpTag::Insert {
        op.old_start == op.old_end
    } else {
        op.old_end <= m
    }
    &&& if op.tag == OpTag::Delete {
        op.new_start == op.new_end
    } else {
        op.new_end <= n
    }
    &&& op.tag == OpTag::Equal ==> op.old_end - op.old_start == op.new_end - op.new_start
}

/// The ranges of an edit lie inside the two texts, and lines that it keeps are the same in both.
pub open spec fn op_holds(op: LineOp, old: Seq<Seq<char>>, new: Seq<Seq<char>>) -> bool {
    &&& op_fits(op, old.len(), new.len())
    &&& op.tag == OpTag::Equal ==> old.subrange(op.old_start as int, op.old_end as int)
        == new.subrange(op.new_start as int, op.new_end as int)
}

/// The edits turn `old[i..]` into `new[j..]`, without a gap on either side.
pub open spec fn replays(
    ops: Seq<LineOp>,
    i: int,
    j: int,
    old: Seq<Seq<char>>,
    new: Seq<Seq<char>>,
) -> bool
    decreases ops.len(),
{
    if ops.len() == 0 {
        i == old.len() && j == new.len()
    } else {
        let op = ops[0];
        &&& op_holds(op, old, new)
        &&& op.tag == OpTag::Insert || op.old_start == i
        &&& op.tag == OpTag::Delete || op.new_start == j
        &&& replays(
            ops.drop_first(),
            i + op.old_end - op.old_start,
            j + op.new_end - op.new_start,
            old,
            new,
        )
    }
}

/// The edits that change something, in order.
pub open spec fn changed(ops: Seq<LineOp>) -> Seq<LineOp>
    decreases ops.len(),
{
    if ops.len() == 0 {
        seq![]
    } else if ops.last().tag == OpTag::Equal {
        changed(ops.drop_last())
    } else {
        changed(ops.drop_last()).push(ops.last())
    }
}

/// The edits of all groups, in order.
pub open spec fn all_ops(groups: Seq<Seq<LineOp>>) -> Seq<LineOp>
    decreases groups.len(),
{
    if groups.len() == 0 {
        seq![]
    } else {
        all_ops(groups.drop_last()) + groups.last()
    }
}

/// How many lines the edits add.
pub open spec fn added(ops: Seq<LineOp>) -> int
    decreases ops.len(),
{
    if ops.len() == 0 {
        0
    } else {
        let op = ops.last();
        added(ops.drop_last()) + if op.tag == OpTag::Equal {
            0
        } else {
            op.new_end - op.new_start
        }
    }
}

/// How many lines the edits remove.
pub open spec fn removed(ops: Seq<LineOp>) -> int
    decreases ops.len(),
{
    if ops.len() == 0 {
        0
    } else {
        let op = ops.last();
        removed(ops.drop_last()) + if op.tag == OpTag::Equal {
            0
        } else {
            op.old_end - op.old_start
        }
    }
}

/// How many lines the edits keep.
pub open spec fn kept(ops: Seq<LineOp>) -> int
    decreases ops.len(),
{
    if ops.len() == 0 {
        0
    } else {
        let op = ops.last();
        kept(ops.drop_last()) + if op.tag == OpTag::Equal {
            op.old_end - op.old_start
        } else {
            0
        }
    }
}

/// The lines an edit shows: context for kept lines, else the deletions, then the additions.
pub open spec fn op_lines(op: LineOp, old: Seq<Seq<char>>, new: Seq<Seq<char>>) -> Seq<LineView> {
    let old_part = Seq::new(
        (op.old_end - op.old_start) as nat,
        |k: int|
            LineView {
                kind: if op.tag == OpTag::Equal {
                    DiffLineKind::Context
                } else {
                    DiffLineKind::Deletion
                },
                old_lineno: Some(op.old_start + k + 1),
                new_lineno: if op.tag == OpTag::Equal {
                    Some(op.new_start + k + 1)
                } else {
                    None
                },
                content: old[op.old_start + k],
            },
    );
    let new_part = Seq::new(
        (op.new_end - op.new_start) as nat,
        |k: int|
            LineView {
                kind: DiffLineKind::Addition,
                old_lineno: None,
                new_lineno: Some(op.new_start + k + 1),
                content: new[op.new_start + k],
            },
    );
    if op.tag == OpTag::Equal {
        old_part
    } else {
        old_part + new_part
    }
}

/// The lines of a group of edits.
pub open spec fn group_lines(
    ops: Seq<LineOp>,
    old: Seq<Seq<char>>,
    new: Seq<Seq<char>>,
) -> Seq<LineView>
    decreases ops.len(),
{
    if ops.len() == 0 {
        seq![]
    } else {
        group_lines(ops.drop_last(), old, new) + op_lines(ops.last(), old, new)
    }
}

/// `n`, or `fallback` where there is none.
pub open spec fn number_or(n: Option<int>, fallback: int) -> int {
    match n {
        Some(k) => k,
        None => fallback,
    }
}

/// `hunk` shows the edits of one group: its lines, how many of them each side has, and the
/// numbers of its first line, with 1 for a side that this line is not on.
pub open spec fn hunk_shows(
    hunk: DiffHunk,
    ops: Seq<LineOp>,
    old: Seq<Seq<char>>,
    new: Seq<Seq<char>>,
) -> bool {
    let lines = group_lines(ops, old, new);
    &&& line_views(hunk.lines@) == lines
    &&& hunk.old_count == kept(ops) + removed(ops)
    &&& hunk.new_count == kept(ops) + added(ops)
    &&& lines.len() > 0 ==> {
        &&& hunk.old_start == number_or(lines[0].old_lineno, 1)
        &&& hunk.new_start == number_or(lines[0].new_lineno, 1)
    }
    &&& lines.len() == 0 ==> hunk.old_start == 0 && hunk.new_start == 0
}

/// Data counts as binary when a zero byte is among its first 8192 bytes.
pub open spec fn looks_binary(data: Seq<u8>) -> bool {
    exists|i: int| 0 <= i < data.len() && i < 8192 && data[i] == 0
}

/// The edits that `similar` finds between two texts, line by line.
pub uninterp spec fn line_ops_of(old: Seq<char>, new: Seq<char>) -> Seq<LineOp>;

/// The groups into which `similar` gathers those edits, with `radius` lines of context.
pub uninterp spec fn line_groups_of(old: Seq<char>, new: Seq<char>, radius: nat) -> Seq<
    Seq<LineOp>,
>;

/// The views of a list of groups.
pub open spec fn group_views(groups: Seq<Vec<LineOp>>) -> Seq<Seq<LineOp>> {
    groups.map_values(|group: Vec<LineOp>| group@)
}

/// The edits follow one another, from old line `i` and new line `j` on. Where an insertion stands
/// in the old text, and a deletion in the new one, its own numbers do not say.
pub open spec fn follow(ops: Seq<LineOp>, i: int, j: int) -> bool {
    forall|k: int|
        0 <= k < ops.len() ==> {
            let op = #[trigger] ops[k];
            let done = ops.take(k);
            &&& op.tag == OpTag::Insert || op.old_start == i + kept(done) + removed(done)
            &&& op.tag == OpTag::Delete || op.new_start == j + kept(done) + added(done)
        }
}

/// Where a group of edits starts in both texts: at the lines that it keeps first, else at the
/// start of the texts.
pub open spec fn start_of(group: Seq<LineOp>) -> (int, int) {
    if group.len() > 0 && group[0].tag == OpTag::Equal {
        (group[0].old_start as int, group[0].new_start as int)
    } else {
        (0, 0)
    }
}

/// The groups turn `old[i..]` into `new[j..]`: each holds a change, its edits follow one another,
/// and the lines between the groups are the same in both texts.
pub open spec fn groups_replay(
    groups: Seq<Seq<LineOp>>,
    i: int,
    j: int,
    old: Seq<Seq<char>>,
    new: Seq<Seq<char>>,
) -> bool
    decreases groups.len(),
{
    if groups.len() == 0 {
        i <= old.len() && j <= new.len() && old.skip(i) == new.skip(j)
    } else {
        let group = groups[0];
        let (a, b) = start_of(group);
        &&& i <= a <= old.len()
        &&& j <= b <= new.len()
        &&& old.subrange(i, a) == new.subrange(j, b)
        &&& changed(group).len() > 0
        &&& follow(group, a, b)
        &&& groups_replay(
            groups.drop_first(),
            a + kept(group) + removed(group),
            b + kept(group) + added(group),
            old,
            new,
        )
    }
}

/// An edit covers a line of one of the texts at least.
pub open spec fn op_covers(op: LineOp) -> bool {
    op.old_start < op.old_end || op.new_start < op.new_end
}

/// Where an edit keeps lines, the one before it does not.
pub open spec fn alternate(ops: Seq<LineOp>) -> bool {
    forall|j: int, k: int|
        #![trigger ops[j], ops[k]]
        0 <= j < k < ops.len() && k == j + 1 ==> ops[j].tag != OpTag::Equal || ops[k].tag
            != OpTag::Equal
}

/// Where some context is asked for, no edit of a group is empty. Kept stretches lie between
/// changes, and no kept line is further than `radius` from one.
pub open spec fn is_tight(group: Seq<LineOp>, radius: int) -> bool {
    &&& alternate(group)
    &&& forall|k: int|
        0 <= k < group.len() ==> {
            let op = #[trigger] group[k];
            &&& radius > 0 ==> op_covers(op)
            &&& op.tag == OpTag::Equal ==> op.old_end - op.old_start <= (if k == 0 || k
                == group.len() - 1 {
                radius
            } else {
                2 * radius
            })
        }
}

/// Where a group of edits ends in both texts.
pub open spec fn end_of(group: Seq<LineOp>) -> (int, int) {
    (
        start_of(group).0 + kept(group) + removed(group),
        start_of(group).1 + kept(group) + added(group),
    )
}

/// Between two groups lies a line at least.
pub open spec fn groups_apart(groups: Seq<Seq<LineOp>>) -> bool {
    forall|g: int, h: int|
        #![trigger groups[g], groups[h]]
        0 <= g < h < groups.len() ==> {
            &&& end_of(groups[g]).0 < start_of(groups[h]).0
            &&& end_of(groups[g]).1 < start_of(groups[h]).1
        }
}

/// How many different lines two texts hold between them.
pub open spec fn distinct_lines(old: Seq<char>, new: Seq<char>) -> nat {
    (split_lines(old) + split_lines(new)).to_set().len()
}

/// Calls `similar::TextDiff::from_lines`, and `ops` and `grouped_ops` on its result. The edits
/// replay the new text from the old one and are all equal for equal texts. The groups keep
/// every edit that changes something, in order, and what they keep is the same on both sides;
/// each holds a change, and they replay the new text too, with the lines between them. A group
/// holds no line further than the radius from a change, groups do not touch, and with some context
/// asked for no edit of a group is empty. `from_lines` numbers the different lines with 32 bits,
/// and `grouped_ops` doubles the radius.
#[verifier::external_body]
fn diff_lines(old: &str, new: &str, radius: usize) -> (r: (Vec<LineOp>, Vec<Vec<LineOp>>))
    requires
        radius <= usize::MAX / 2,
        distinct_lines(old@, new@) <= u32::MAX,
    ensures
        r.0@ == line_ops_of(old@, new@),
        replays(r.0@, 0, 0, split_lines(old@), split_lines(new@)),
        old@ == new@ ==> changed(r.0@).len() == 0,
        group_views(r.1@) == line_groups_of(old@, new@, radius as nat),
        changed(all_ops(group_views(r.1@))) == changed(r.0@),
        forall|g: int, k: int|
            0 <= g < r.1@.len() && 0 <= k < r.1@[g]@.len() ==> op_holds(
                #[trigger] r.1@[g]@[k],
                split_lines(old@),
                split_lines(new@),
            ),
        groups_replay(group_views(r.1@), 0, 0, split_lines(old@), split_lines(new@)),
        forall|g: int| 0 <= g < r.1@.len() ==> is_tight((#[trigger] r.1@[g])@, radius as int),
        groups_apart(group_views(r.1@)),
{
    let diff = similar::TextDiff::from_lines(old, new);
    let convert = |op: &similar::DiffOp| {
        let (tag, o, n) = op.as_tag_tuple();
        let tag = match tag {
            similar::DiffTag::Equal => OpTag::Equal,
            similar::DiffTag::Delete => OpTag::Delete,
            similar::DiffTag::Insert => OpTag::Insert,
            similar::DiffTag::Replace => OpTag::Replace,
        };
        LineOp { tag, old_start: o.start, old_end: o.end, new_start: n.start, new_end: n.end }
    };
    let groups = diff.grouped_ops(radius);
    let groups = groups.iter().map(|group| group.iter().map(convert).collect()).collect();
    (diff.ops().iter().map(convert).collect(), groups)
}

/// Calls `similar::DiffableStr::tokenize_lines`: the lines of a text, each with its line break.
#[verifier::external_body]
fn tokenize_lines(text: &str) -> (lines: Vec<String>)
    ensures
        text::views(lines@) == split_lines(text@),
{
    similar::DiffableStr::tokenize_lines(text).into_iter().map(str::to_owned).collect()
}

proof fn lemma_line_end(s: Seq<char>, i: int)
    requires
        0 <= i < s.len(),
    ensures
        i < line_end(s, i) <= s.len(),
    decreases s.len() - i,
{
    reveal_with_fuel(line_end, 2);
    if s[i] != '\n' && s[i] != '\r' && i + 1 < s.len() {
        lemma_line_end(s, i + 1);
    }
}

/// The lines of a text are the whole text.
pub proof fn lemma_lines_are_text(s: Seq<char>)
    ensures
        concatenated(split_lines(s)) == s,
    decreases s.len(),
{
    if s.len() > 0 {
        lemma_line_end(s, 0);
        let end = line_end(s, 0);
        lemma_lines_are_text(s.skip(end));
        let lines = split_lines(s);
        assert(lines.drop_first() =~= split_lines(s.skip(end)));
        assert(s.take(end) + s.skip(end) =~= s);
    }
}

proof fn lemma_totals_split(a: Seq<LineOp>, b: Seq<LineOp>)
    ensures
        added(a + b) == added(a) + added(b),
        removed(a + b) == removed(a) + removed(b),
        kept(a + b) == kept(a) + kept(b),
        changed(a + b) == changed(a) + changed(b),
    decreases b.len(),
{
    if b.len() == 0 {
        assert(a + b =~= a);
        assert(changed(a) + changed(b) =~= changed(a));
    } else {
        assert((a + b).drop_last() =~= a + b.drop_last());
        lemma_totals_split(a, b.drop_last());
        assert(changed(a + b) =~= changed(a) + changed(b));
    }
}

proof fn lemma_totals_first(ops: Seq<LineOp>)
    requires
        ops.len() > 0,
    ensures
        added(ops) == added(seq![ops[0]]) + added(ops.drop_first()),
        removed(ops) == removed(seq![ops[0]]) + removed(ops.drop_first()),
        kept(ops) == kept(seq![ops[0]]) + kept(ops.drop_first()),
        changed(ops) == changed(seq![ops[0]]) + changed(ops.drop_first()),
{
    assert(ops =~= seq![ops[0]] + ops.drop_first());
    lemma_totals_split(seq![ops[0]], ops.drop_first());
}

proof fn lemma_totals_one(op: LineOp)
    ensures
        added(seq![op]) == (if op.tag == OpTag::Equal { 0 } else { op.new_end - op.new_start }),
        removed(seq![op]) == (if op.tag == OpTag::Equal { 0 } else { op.old_end - op.old_start }),
        kept(seq![op]) == (if op.tag == OpTag::Equal { op.old_end - op.old_start } else { 0 }),
        changed(seq![op]) == (if op.tag == OpTag::Equal { seq![] } else { seq![op] }),
{
    assert(seq![op].drop_last() =~= Seq::<LineOp>::empty());
    reveal_with_fuel(added, 2);
    reveal_with_fuel(removed, 2);
    reveal_with_fuel(kept, 2);
    reveal_with_fuel(changed, 2);
}

/// Only edits that change something count as added or removed lines.
proof fn lemma_totals_changed(ops: Seq<LineOp>)
    ensures
        added(changed(ops)) == added(ops),
        removed(changed(ops)) == removed(ops),
    decreases ops.len(),
{
    if ops.len() > 0 {
        lemma_totals_changed(ops.drop_last());
        if ops.last().tag != OpTag::Equal {
            assert(changed(ops).drop_last() =~= changed(ops.drop_last()));
        }
    }
}

/// Every line of either side is kept, removed or added.
proof fn lemma_replay_totals(
    ops: Seq<LineOp>,
    i: int,
    j: int,
    old: Seq<Seq<char>>,
    new: Seq<Seq<char>>,
)
    requires
        replays(ops, i, j, old, new),
    ensures
        kept(ops) + removed(ops) == old.len() - i,
        kept(ops) + added(ops) == new.len() - j,
        added(ops) >= 0,
        removed(ops) >= 0,
        kept(ops) >= 0,
    decreases ops.len(),
{
    if ops.len() > 0 {
        let op = ops[0];
        lemma_replay_totals(
            ops.drop_first(),
            i + op.old_end - op.old_start,
            j + op.new_end - op.new_start,
            old,
            new,
        );
        lemma_totals_first(ops);
        lemma_totals_one(op);
    }
}

/// Edits that change nothing leave the lines as they are.
proof fn lemma_replay_unchanged(
    ops: Seq<LineOp>,
    i: int,
    j: int,
    old: Seq<Seq<char>>,
    new: Seq<Seq<char>>,
)
    requires
        replays(ops, i, j, old, new),
        0 <= i <= old.len(),
        0 <= j <= new.len(),
        added(ops) == 0,
        removed(ops) == 0,
    ensures
        old.skip(i) == new.skip(j),
    decreases ops.len(),
{
    if ops.len() > 0 {
        let op = ops[0];
        let i2 = i + op.old_end - op.old_start;
        let j2 = j + op.new_end - op.new_start;
        lemma_totals_first(ops);
        lemma_totals_one(op);
        lemma_replay_totals(ops.drop_first(), i2, j2, old, new);
        lemma_replay_unchanged(ops.drop_first(), i2, j2, old, new);
        assert(old.skip(i) =~= old.subrange(i, i2) + old.skip(i2));
        assert(new.skip(j) =~= new.subrange(j, j2) + new.skip(j2));
        if op.tag != OpTag::Equal {
            assert(old.subrange(i, i2) =~= new.subrange(j, j2));
        }
    }
}

/// Nothing is added or removed exactly when the texts are the same.
proof fn lemma_unchanged(ops: Seq<LineOp>, old: Seq<char>, new: Seq<char>)
    requires
        replays(ops, 0, 0, split_lines(old), split_lines(new)),
        old == new ==> changed(ops).len() == 0,
    ensures
        added(ops) == 0 && removed(ops) == 0 <==> old == new,
{
    if old == new {
        lemma_totals_changed(ops);
    }
    if added(ops) == 0 && removed(ops) == 0 {
        lemma_replay_unchanged(ops, 0, 0, split_lines(old), split_lines(new));
        assert(split_lines(old).skip(0) =~= split_lines(old));
        assert(split_lines(new).skip(0) =~= split_lines(new));
        lemma_lines_are_text(old);
        lemma_lines_are_text(new);
    }
}

proof fn lemma_counts_bounded(
    ops: Seq<LineOp>,
    old: Seq<Seq<char>>,
    new: Seq<Seq<char>>,
)
    requires
        forall|k: int| 0 <= k < ops.len() ==> op_ordered(#[trigger] ops[k]),
    ensures
        0 <= added(ops),
        0 <= removed(ops),
        0 <= kept(ops),
        kept(ops) + removed(ops) + added(ops) == group_lines(ops, old, new).len(),
    decreases ops.len(),
{
    if ops.len() > 0 {
        assert(op_ordered(ops.last()));
        assert forall|k: int| 0 <= k < ops.drop_last().len() implies op_ordered(
            #[trigger] ops.drop_last()[k],
        ) by {
            assert(ops.drop_last()[k] == ops[k]);
        }
        lemma_counts_bounded(ops.drop_last(), old, new);
    }
}

/// A text has no more lines than bytes.
proof fn lemma_line_count(s: Seq<char>)
    ensures
        split_lines(s).len() <= s.len() <= text::byte_len(s),
    decreases s.len(),
{
    text::lemma_byte_len_at_least(s);
    if s.len() > 0 {
        lemma_line_end(s, 0);
        lemma_line_count(s.skip(line_end(s, 0)));
    }
}

proof fn lemma_replay_fits(
    ops: Seq<LineOp>,
    k: int,
    i: int,
    j: int,
    old: Seq<Seq<char>>,
    new: Seq<Seq<char>>,
)
    requires
        replays(ops, i, j, old, new),
        0 <= k < ops.len(),
    ensures
        op_fits(ops[k], old.len(), new.len()),
    decreases ops.len(),
{
    if k > 0 {
        let op = ops[0];
        lemma_replay_fits(
            ops.drop_first(),
            k - 1,
            i + op.old_end - op.old_start,
            j + op.new_end - op.new_start,
            old,
            new,
        );
    }
}

proof fn lemma_prefix_totals(ops: Seq<LineOp>, k: int)
    requires
        forall|i: int| 0 <= i < ops.len() ==> op_ordered(#[trigger] ops[i]),
        0 <= k <= ops.len(),
    ensures
        0 <= added(ops.take(k)) <= added(ops),
        0 <= removed(ops.take(k)) <= removed(ops),
{
    assert(ops =~= ops.take(k) + ops.skip(k));
    lemma_totals_split(ops.take(k), ops.skip(k));
    lemma_counts_bounded(ops.take(k), seq![], seq![]);
    lemma_counts_bounded(ops.skip(k), seq![], seq![]);
}

impl FileDiff {
    /// Whether there is nothing to show.
    pub fn is_empty(&self) -> (r: bool)
        ensures
            r == (!self.is_binary && self.additions == 0 && self.deletions == 0),
    {
        !self.is_binary && self.additions == 0 && self.deletions == 0
    }
}

/// Whether `data` counts as binary.
pub fn is_binary(data: &[u8]) -> (r: bool)
    ensures
        r == looks_binary(data@),
{
    let check_len: usize = if data.len() < 8192 {
        data.len()
    } else {
        8192
    };
    let mut i: usize = 0;
    while i < check_len
        invariant
            i <= check_len <= data@.len(),
            check_len <= 8192,
            forall|j: int| 0 <= j < i ==> data@[j] != 0,
        decreases check_len - i,
    {
        if data[i] == 0 {
            return true;
        }
        i += 1;
    }
    false
}

/// `stats` and `binary` are what `compute_file_stats` owes for two versions of a file.
pub open spec fn stats_show(old: Seq<u8>, new: Seq<u8>, stats: DiffStats, binary: bool) -> bool {
    let ops = line_ops_of(text::utf8_lossy(old), text::utf8_lossy(new));
    &&& binary == (looks_binary(old) || looks_binary(new))
    &&& binary ==> stats.additions == 0 && stats.deletions == 0
    &&& !binary ==> stats.additions == added(ops) && stats.deletions == removed(ops)
}

/// `additions` and `deletions` are none exactly where the texts are the same, and they make up
/// the difference in their line counts.
pub open spec fn totals_fit(old: Seq<u8>, new: Seq<u8>, additions: int, deletions: int) -> bool {
    let old_text = text::utf8_lossy(old);
    let new_text = text::utf8_lossy(new);
    &&& additions == 0 && deletions == 0 <==> old_text == new_text
    &&& split_lines(new_text).len() - split_lines(old_text).len() == additions - deletions
    &&& additions <= split_lines(new_text).len()
    &&& deletions <= split_lines(old_text).len()
}

/// The versions of a file hold no more different lines than a diff can tell apart.
pub open spec fn can_be_diffed(old: Seq<u8>, new: Seq<u8>) -> bool {
    looks_binary(old) || looks_binary(new) || distinct_lines(
        text::utf8_lossy(old),
        text::utf8_lossy(new),
    ) <= u32::MAX
}

/// A list without repetition has as many items as the set of its items.
proof fn lemma_distinct_count(all: Seq<Seq<char>>, distinct: Seq<Seq<char>>)
    requires
        text_order::ascending(distinct),
        forall|s: Seq<char>| #[trigger] distinct.contains(s) <==> all.contains(s),
    ensures
        all.to_set().len() == distinct.len(),
{
    assert(distinct.no_duplicates()) by {
        assert forall|i: int, j: int|
            0 <= i < distinct.len() && 0 <= j < distinct.len() && i != j implies distinct[i]
            != distinct[j] by {
            text_order::lemma_precedes_total(distinct[i], distinct[j]);
            if i < j {
                assert(text_order::precedes(distinct[i], distinct[j]));
            } else {
                assert(text_order::precedes(distinct[j], distinct[i]));
            }
        }
    }
    distinct.unique_seq_to_set();
    assert(all.to_set() =~= distinct.to_set());
}

/// Whether two versions of a file hold no more different lines than a diff can tell apart.
pub fn few_different_lines(old: &[u8], new: &[u8]) -> (r: bool)
    ensures
        r == can_be_diffed(old@, new@),
{
    if is_binary(old) || is_binary(new) {
        return true;
    }
    let old_text = text::from_utf8_lossy(old);
    let new_text = text::from_utf8_lossy(new);
    let mut lines = tokenize_lines(old_text.as_str());
    let mut new_lines = tokenize_lines(new_text.as_str());
    let ghost all = split_lines(old_text@) + split_lines(new_text@);
    let most: usize = u32::MAX as usize;
    proof {
        assert(text::views(lines@).len() == lines@.len());
        assert(text::views(new_lines@).len() == new_lines@.len());
        all.lemma_cardinality_of_set();
    }
    if lines.len() <= most && new_lines.len() <= most - lines.len() {
        return true;
    }
    lines.append(&mut new_lines);
    assert(text::views(lines@) =~= all);
    let distinct = text_order::sorted_distinct(&lines);
    proof {
        lemma_distinct_count(all, text::views(distinct@));
    }
    distinct.len() <= most
}

/// Counts the lines added and removed, without the lines themselves.
pub fn compute_file_stats(old: &[u8], new: &[u8]) -> (r: (DiffStats, bool))
    requires
        can_be_diffed(old@, new@),
    ensures
        stats_show(old@, new@, r.0, r.1),
        forall|i: int| 0 <= i < 8192 && i < old@.len() && old@[i] == 0 ==> r.1,
        forall|i: int| 0 <= i < 8192 && i < new@.len() && new@[i] == 0 ==> r.1,
        r.1 ==> exists|i: int|
            0 <= i < 8192 && (i < old@.len() && old@[i] == 0 || i < new@.len() && new@[i] == 0),
        r.1 ==> r.0.additions == 0 && r.0.deletions == 0,
        !r.1 ==> totals_fit(old@, new@, r.0.additions as int, r.0.deletions as int),
{
    if is_binary(old) || is_binary(new) {
        return (DiffStats::default(), true);
    }
    let old_text = text::from_utf8_lossy(old);
    let new_text = text::from_utf8_lossy(new);
    let ghost old_lines = split_lines(old_text@);
    let ghost new_lines = split_lines(new_text@);
    let _old_size: usize = text::byte_length(old_text.as_str());
    let _new_size: usize = text::byte_length(new_text.as_str());
    let (ops, _groups) = diff_lines(old_text.as_str(), new_text.as_str(), 1);
    proof {
        lemma_replay_totals(ops@, 0, 0, old_lines, new_lines);
        lemma_unchanged(ops@, old_text@, new_text@);
        lemma_line_count(old_text@);
        lemma_line_count(new_text@);
        assert forall|k: int| 0 <= k < ops@.len() implies op_fits(
            #[trigger] ops@[k],
            old_lines.len(),
            new_lines.len(),
        ) by {
            lemma_replay_fits(ops@, k, 0, 0, old_lines, new_lines);
        }
    }
    (count_changes(&ops), false)
}

/// The lines that edits add and remove.
pub fn count_changes(ops: &Vec<LineOp>) -> (stats: DiffStats)
    requires
        forall|k: int| 0 <= k < ops@.len() ==> op_ordered(#[trigger] ops@[k]),
        added(ops@) <= usize::MAX,
        removed(ops@) <= usize::MAX,
    ensures
        stats.additions == added(ops@),
        stats.deletions == removed(ops@),
{
    let mut additions: usize = 0;
    let mut deletions: usize = 0;
    let mut i: usize = 0;
    while i < ops.len()
        invariant
            i <= ops@.len(),
            forall|k: int| 0 <= k < ops@.len() ==> op_ordered(#[trigger] ops@[k]),
            added(ops@) <= usize::MAX,
            removed(ops@) <= usize::MAX,
            additions == added(ops@.take(i as int)),
            deletions == removed(ops@.take(i as int)),
        decreases ops@.len() - i,
    {
        proof {
            lemma_prefix_totals(ops@, i + 1);
            assert(ops@.take(i + 1).drop_last() =~= ops@.take(i as int));
        }
        let op = ops[i];
        if op.tag != OpTag::Equal {
            additions += op.new_end - op.new_start;
            deletions += op.old_end - op.old_start;
        }
        i += 1;
    }
    assert(ops@.take(i as int) =~= ops@);
    DiffStats { additions, deletions }
}

/// Appends the lines that `op` shows.
fn push_op_lines(
    lines: &mut Vec<DiffLine>,
    op: LineOp,
    old_lines: &Vec<String>,
    new_lines: &Vec<String>,
)
    requires
        op_fits(op, old_lines@.len(), new_lines@.len()),
    ensures
        line_views(final(lines)@) == line_views(old(lines)@) + op_lines(
            op,
            text::views(old_lines@),
            text::views(new_lines@),
        ),
{
    let ghost old_texts = text::views(old_lines@);
    let ghost new_texts = text::views(new_lines@);
    let ghost before = line_views(lines@);
    let ghost shown = op_lines(op, old_texts, new_texts);
    let equal = op.tag == OpTag::Equal;
    let old_size: usize = old_lines.len();
    let new_size: usize = new_lines.len();
    let mut k: usize = op.old_start;
    assert(shown.take(0) =~= seq![]);
    assert(before + shown.take(0) =~= before);
    while k < op.old_end
        invariant
            op.old_start <= k <= op.old_end,
            op_fits(op, old_lines@.len(), new_lines@.len()),
            old_size == old_lines@.len(),
            new_size == new_lines@.len(),
            equal == (op.tag == OpTag::Equal),
            old_texts == text::views(old_lines@),
            new_texts == text::views(new_lines@),
            shown == op_lines(op, old_texts, new_texts),
            line_views(lines@) == before + shown.take(k - op.old_start),
        decreases op.old_end - k,
    {
        let line = DiffLine {
            kind: if equal {
                DiffLineKind::Context
            } else {
                DiffLineKind::Deletion
            },
            old_lineno: Some(k + 1),
            new_lineno: if equal {
                Some(op.new_start + (k - op.old_start) + 1)
            } else {
                None
            },
            content: old_lines[k].clone(),
        };
        let ghost done = lines@;
        proof {
            assert(old_texts[k as int] == old_lines@[k as int]@);
            assert(line@ == shown[k - op.old_start]);
            assert(shown.take(k + 1 - op.old_start) =~= shown.take(k - op.old_start).push(line@));
        }
        lines.push(line);
        assert(line_views(lines@) =~= line_views(done).push(line@));
        k += 1;
    }
    if !equal {
        let mut k: usize = op.new_start;
        while k < op.new_end
            invariant
                op.new_start <= k <= op.new_end,
                op_fits(op, old_lines@.len(), new_lines@.len()),
                op.tag != OpTag::Equal,
                new_size == new_lines@.len(),
                old_texts == text::views(old_lines@),
                new_texts == text::views(new_lines@),
                shown == op_lines(op, old_texts, new_texts),
                line_views(lines@) == before + shown.take(
                    op.old_end - op.old_start + k - op.new_start,
                ),
            decreases op.new_end - k,
        {
            let line = DiffLine {
                kind: DiffLineKind::Addition,
                old_lineno: None,
                new_lineno: Some(k + 1),
                content: new_lines[k].clone(),
            };
            let ghost done = lines@;
            let ghost at = op.old_end - op.old_start + k - op.new_start;
            proof {
                assert(new_texts[k as int] == new_lines@[k as int]@);
                assert(line@ == shown[at]);
                assert(shown.take(at + 1) =~= shown.take(at).push(line@));
            }
            lines.push(line);
            assert(line_views(lines@) =~= line_views(done).push(line@));
            k += 1;
        }
    }
    assert(shown.take(shown.len() as int) =~= shown);
}

/// The hunk that shows one group of edits, with the lines it adds and removes.
pub fn hunk_of(group: &Vec<LineOp>, old_lines: &Vec<String>, new_lines: &Vec<String>) -> (r: (
    DiffHunk,
    usize,
    usize,
))
    requires
        forall|k: int|
            0 <= k < group@.len() ==> op_fits(
                #[trigger] group@[k],
                old_lines@.len(),
                new_lines@.len(),
            ),
    ensures
        hunk_shows(r.0, group@, text::views(old_lines@), text::views(new_lines@)),
        r.1 == added(group@),
        r.2 == removed(group@),
{
    let ghost old_texts = text::views(old_lines@);
    let ghost new_texts = text::views(new_lines@);
    let mut lines: Vec<DiffLine> = Vec::new();
    let mut old_count: usize = 0;
    let mut new_count: usize = 0;
    let mut additions: usize = 0;
    let mut deletions: usize = 0;
    let mut i: usize = 0;
    assert(group@.take(0) =~= seq![]);
    assert(line_views(lines@) =~= seq![]);
    while i < group.len()
        invariant
            i <= group@.len(),
            old_texts == text::views(old_lines@),
            new_texts == text::views(new_lines@),
            forall|k: int|
                0 <= k < group@.len() ==> op_fits(
                    #[trigger] group@[k],
                    old_lines@.len(),
                    new_lines@.len(),
                ),
            line_views(lines@) == group_lines(group@.take(i as int), old_texts, new_texts),
            old_count == kept(group@.take(i as int)) + removed(group@.take(i as int)),
            new_count == kept(group@.take(i as int)) + added(group@.take(i as int)),
            additions == added(group@.take(i as int)),
            deletions == removed(group@.take(i as int)),
        decreases group@.len() - i,
    {
        let op = group[i];
        push_op_lines(&mut lines, op, old_lines, new_lines);
        let _size: usize = lines.len();
        proof {
            let now = group@.take(i + 1);
            assert(now.drop_last() =~= group@.take(i as int));
            lemma_counts_bounded(now, old_texts, new_texts);
        }
        old_count += op.old_end - op.old_start;
        new_count += op.new_end - op.new_start;
        if op.tag != OpTag::Equal {
            additions += op.new_end - op.new_start;
            deletions += op.old_end - op.old_start;
        }
        i += 1;
    }
    assert(group@.take(i as int) =~= group@);
    let (old_start, new_start) = if lines.len() > 0 {
        assert(line_views(lines@)[0] == lines@[0]@);
        let old_start: usize = match lines[0].old_lineno {
            Some(n) => n,
            None => 1,
        };
        let new_start: usize = match lines[0].new_lineno {
            Some(n) => n,
            None => 1,
        };
        (old_start, new_start)
    } else {
        (0, 0)
    };
    (DiffHunk { old_start, old_count, new_start, new_count, lines }, additions, deletions)
}

/// `diff` is what `compute_file_diff` owes for two versions of a file: one hunk for each group
/// of edits with one line of context.
pub open spec fn diff_shows(old: Seq<u8>, new: Seq<u8>, diff: FileDiff) -> bool {
    let old_text = text::utf8_lossy(old);
    let new_text = text::utf8_lossy(new);
    let ops = line_ops_of(old_text, new_text);
    let groups = line_groups_of(old_text, new_text, 1);
    &&& diff.is_binary == (looks_binary(old) || looks_binary(new))
    &&& diff.is_binary ==> diff.additions == 0 && diff.deletions == 0 && diff.hunks@.len() == 0
    &&& !diff.is_binary ==> {
        &&& diff.additions == added(ops)
        &&& diff.deletions == removed(ops)
        &&& diff.hunks@.len() == groups.len()
        &&& forall|h: int|
            0 <= h < groups.len() ==> hunk_shows(
                #[trigger] diff.hunks@[h],
                groups[h],
                split_lines(old_text),
                split_lines(new_text),
            )
    }
}

/// The texts of the lines that are not of a kind: without the additions those on the old side,
/// without the deletions those on the new one.
pub open spec fn side(lines: Seq<LineView>, without: DiffLineKind) -> Seq<Seq<char>>
    decreases lines.len(),
{
    if lines.len() == 0 {
        seq![]
    } else {
        let before = side(lines.drop_last(), without);
        if lines.last().kind == without {
            before
        } else {
            before.push(lines.last().content)
        }
    }
}

/// How many lines are of a kind.
pub open spec fn count_of(lines: Seq<LineView>, kind: DiffLineKind) -> int
    decreases lines.len(),
{
    if lines.len() == 0 {
        0
    } else {
        count_of(lines.drop_last(), kind) + if lines.last().kind == kind {
            1int
        } else {
            0
        }
    }
}

/// How many lines of the hunks are of a kind.
pub open spec fn lines_in(hunks: Seq<DiffHunk>, kind: DiffLineKind) -> int
    decreases hunks.len(),
{
    if hunks.len() == 0 {
        0
    } else {
        lines_in(hunks.drop_last(), kind) + count_of(line_views(hunks.last().lines@), kind)
    }
}

/// The numbers of a line that follows `before`, where the lines are numbered from `i` on the old
/// and from `j` on the new side: an addition has no old number and a deletion no new one.
pub open spec fn has_numbers(line: LineView, before: Seq<LineView>, i: int, j: int) -> bool {
    &&& line.old_lineno == (if line.kind == DiffLineKind::Addition {
        None
    } else {
        Some(i + side(before, DiffLineKind::Addition).len())
    })
    &&& line.new_lineno == (if line.kind == DiffLineKind::Deletion {
        None
    } else {
        Some(j + side(before, DiffLineKind::Deletion).len())
    })
}

/// The numbers of the lines count up by one on each side, from `i` on the old and from `j` on the
/// new one.
pub open spec fn numbered(lines: Seq<LineView>, i: int, j: int) -> bool {
    forall|k: int|
        0 <= k < lines.len() ==> has_numbers(lines[k], #[trigger] lines.take(k), i, j)
}

/// A hunk is what its header says: it counts its lines, these are the lines of the two texts from
/// its starts on, and they are numbered from there.
pub open spec fn hunk_fits(hunk: DiffHunk, old: Seq<Seq<char>>, new: Seq<Seq<char>>) -> bool {
    let lines = line_views(hunk.lines@);
    let a = hunk.old_start - 1;
    let b = hunk.new_start - 1;
    &&& 0 <= a <= a + hunk.old_count <= old.len()
    &&& 0 <= b <= b + hunk.new_count <= new.len()
    &&& hunk.old_count == count_of(lines, DiffLineKind::Context) + count_of(
        lines,
        DiffLineKind::Deletion,
    )
    &&& hunk.new_count == count_of(lines, DiffLineKind::Context) + count_of(
        lines,
        DiffLineKind::Addition,
    )
    &&& side(lines, DiffLineKind::Addition) == old.subrange(a, a + hunk.old_count)
    &&& side(lines, DiffLineKind::Deletion) == new.subrange(b, b + hunk.new_count)
    &&& numbered(lines, hunk.old_start as int, hunk.new_start as int)
}

/// The lines `old[i..]` with the range of each hunk replaced by the new side of its lines.
pub open spec fn patched(old: Seq<Seq<char>>, i: int, hunks: Seq<DiffHunk>) -> Seq<Seq<char>>
    decreases hunks.len(),
{
    if hunks.len() == 0 {
        old.skip(i)
    } else {
        let hunk = hunks[0];
        let a = hunk.old_start - 1;
        old.subrange(i, a) + side(line_views(hunk.lines@), DiffLineKind::Deletion) + patched(
            old,
            a + hunk.old_count,
            hunks.drop_first(),
        )
    }
}

/// A line next to another one was added or removed.
pub open spec fn is_near_change(lines: Seq<LineView>, k: int) -> bool {
    ||| k > 0 && lines[k - 1].kind != DiffLineKind::Context
    ||| k + 1 < lines.len() && lines[k + 1].kind != DiffLineKind::Context
}

/// Every line that is kept stands next to one that is not.
pub open spec fn context_is_near(lines: Seq<LineView>) -> bool {
    forall|k: int|
        0 <= k < lines.len() && lines[k].kind == DiffLineKind::Context ==> #[trigger] is_near_change(
            lines,
            k,
        )
}

/// Between two hunks lies a line at least, in both texts.
pub open spec fn hunks_apart(hunks: Seq<DiffHunk>) -> bool {
    forall|g: int, h: int|
        #![trigger hunks[g], hunks[h]]
        0 <= g < h < hunks.len() ==> {
            &&& hunks[g].old_start + hunks[g].old_count < hunks[h].old_start
            &&& hunks[g].new_start + hunks[g].new_count < hunks[h].new_start
        }
}

/// What holds of a diff on its own: it has hunks exactly where it adds or removes lines, and
/// that is where the texts differ. It counts the lines of its hunks, each hunk is what its header
/// says, its lines stand in the texts, and putting the hunks in turns the old text into the new
/// one. A line that is kept stands next to a change, and hunks do not touch.
pub open spec fn diff_is_sound(old: Seq<u8>, new: Seq<u8>, diff: FileDiff) -> bool {
    let old_text = text::utf8_lossy(old);
    let new_text = text::utf8_lossy(new);
    let old_lines = split_lines(old_text);
    let new_lines = split_lines(new_text);
    &&& diff.additions == lines_in(diff.hunks@, DiffLineKind::Addition)
    &&& diff.deletions == lines_in(diff.hunks@, DiffLineKind::Deletion)
    &&& !diff.is_binary ==> {
        &&& diff.hunks@.len() == 0 <==> diff.additions == 0 && diff.deletions == 0
        &&& diff.hunks@.len() == 0 <==> old_text == new_text
        &&& patched(old_lines, 0, diff.hunks@) == new_lines
    }
    &&& forall|h: int|
        0 <= h < diff.hunks@.len() ==> hunk_fits(#[trigger] diff.hunks@[h], old_lines, new_lines)
    &&& forall|h: int|
        0 <= h < diff.hunks@.len() ==> lines_come_from(
            #[trigger] diff.hunks@[h],
            old_lines,
            new_lines,
        )
    &&& forall|h: int|
        0 <= h < diff.hunks@.len() ==> context_is_near(line_views((#[trigger] diff.hunks@[h]).lines@))
    &&& hunks_apart(diff.hunks@)
}

/// Every line of `hunk` stands in the text that it comes from, under its number.
pub open spec fn lines_come_from(
    hunk: DiffHunk,
    old: Seq<Seq<char>>,
    new: Seq<Seq<char>>,
) -> bool {
    forall|i: int| #![trigger hunk.lines@[i]]
        0 <= i < hunk.lines@.len() ==> line_comes_from(hunk.lines@[i]@, old, new)
}

/// A line has a number on the sides that it is on, and is the text's line of that number.
pub open spec fn line_comes_from(
    line: LineView,
    old: Seq<Seq<char>>,
    new: Seq<Seq<char>>,
) -> bool {
    &&& line.old_lineno is Some <==> line.kind != DiffLineKind::Addition
    &&& line.new_lineno is Some <==> line.kind != DiffLineKind::Deletion
    &&& line.old_lineno matches Some(n) ==> 1 <= n <= old.len() && old[n - 1] == line.content
    &&& line.new_lineno matches Some(n) ==> 1 <= n <= new.len() && new[n - 1] == line.content
}

proof fn lemma_group_lines_come_from(
    ops: Seq<LineOp>,
    old: Seq<Seq<char>>,
    new: Seq<Seq<char>>,
    i: int,
)
    requires
        forall|k: int| 0 <= k < ops.len() ==> op_holds(#[trigger] ops[k], old, new),
        0 <= i < group_lines(ops, old, new).len(),
    ensures
        line_comes_from(group_lines(ops, old, new)[i], old, new),
    decreases ops.len(),
{
    let before = group_lines(ops.drop_last(), old, new);
    let op = ops.last();
    assert(op_holds(op, old, new));
    if i < before.len() {
        assert forall|k: int| 0 <= k < ops.drop_last().len() implies op_holds(
            #[trigger] ops.drop_last()[k],
            old,
            new,
        ) by {
            assert(ops.drop_last()[k] == ops[k]);
        }
        lemma_group_lines_come_from(ops.drop_last(), old, new, i);
        assert(group_lines(ops, old, new)[i] == before[i]);
    } else {
        let k = i - before.len();
        assert(group_lines(ops, old, new)[i] == op_lines(op, old, new)[k]);
        if op.tag == OpTag::Equal {
            assert(old.subrange(op.old_start as int, op.old_end as int)[k] == old[op.old_start
                + k]);
            assert(new.subrange(op.new_start as int, op.new_end as int)[k] == new[op.new_start
                + k]);
        }
    }
}

proof fn lemma_sides_concat(a: Seq<LineView>, b: Seq<LineView>)
    ensures
        forall|kind: DiffLineKind| #[trigger] side(a + b, kind) == side(a, kind) + side(b, kind),
        forall|kind: DiffLineKind| #[trigger]
            count_of(a + b, kind) == count_of(a, kind) + count_of(b, kind),
    decreases b.len(),
{
    if b.len() == 0 {
        assert(a + b =~= a);
        assert forall|kind: DiffLineKind| #[trigger]
            side(a + b, kind) == side(a, kind) + side(b, kind) by {
            assert(side(a, kind) + side(b, kind) =~= side(a, kind));
        }
    } else {
        assert((a + b).drop_last() =~= a + b.drop_last());
        lemma_sides_concat(a, b.drop_last());
        assert forall|kind: DiffLineKind| #[trigger]
            side(a + b, kind) == side(a, kind) + side(b, kind) by {
            assert(side(a + b.drop_last(), kind) == side(a, kind) + side(b.drop_last(), kind));
            assert(side(a + b, kind) =~= side(a, kind) + side(b, kind));
        }
        assert forall|kind: DiffLineKind| #[trigger]
            count_of(a + b, kind) == count_of(a, kind) + count_of(b, kind) by {
            assert(count_of(a + b.drop_last(), kind) == count_of(a, kind) + count_of(
                b.drop_last(),
                kind,
            ));
        }
    }
}

/// Lines of one kind stand on a side all or not at all.
proof fn lemma_one_kind(lines: Seq<LineView>, kind: DiffLineKind)
    requires
        forall|k: int| 0 <= k < lines.len() ==> (#[trigger] lines[k]).kind == kind,
    ensures
        forall|other: DiffLineKind| #[trigger]
            side(lines, other) == (if other == kind {
                seq![]
            } else {
                lines.map_values(|line: LineView| line.content)
            }),
        forall|other: DiffLineKind| #[trigger]
            count_of(lines, other) == (if other == kind {
                lines.len() as int
            } else {
                0
            }),
    decreases lines.len(),
{
    let texts = lines.map_values(|line: LineView| line.content);
    if lines.len() == 0 {
        assert(texts =~= seq![]);
    } else {
        let rest = lines.drop_last();
        assert forall|k: int| 0 <= k < rest.len() implies (#[trigger] rest[k]).kind == kind by {
            assert(rest[k] == lines[k]);
        }
        lemma_one_kind(rest, kind);
        assert(lines[lines.len() - 1].kind == kind);
        assert(texts =~= rest.map_values(|line: LineView| line.content).push(
            lines.last().content,
        ));
        assert forall|other: DiffLineKind| #[trigger]
            side(lines, other) == (if other == kind {
                seq![]
            } else {
                texts
            }) by {
            assert(side(rest, other) == (if other == kind {
                seq![]
            } else {
                rest.map_values(|line: LineView| line.content)
            }));
        }
        assert forall|other: DiffLineKind| #[trigger]
            count_of(lines, other) == (if other == kind {
                lines.len() as int
            } else {
                0
            }) by {
            assert(count_of(rest, other) == (if other == kind {
                rest.len() as int
            } else {
                0
            }));
        }
    }
}

proof fn lemma_one_kind_prefix(lines: Seq<LineView>, kind: DiffLineKind, k: int)
    requires
        forall|k: int| 0 <= k < lines.len() ==> (#[trigger] lines[k]).kind == kind,
        0 <= k <= lines.len(),
    ensures
        forall|other: DiffLineKind| #[trigger]
            side(lines.take(k), other).len() == (if other == kind {
                0
            } else {
                k
            }),
{
    let part = lines.take(k);
    assert forall|i: int| 0 <= i < part.len() implies (#[trigger] part[i]).kind == kind by {
        assert(part[i] == lines[i]);
    }
    lemma_one_kind(part, kind);
    assert forall|other: DiffLineKind| #[trigger]
        side(part, other).len() == (if other == kind {
            0
        } else {
            k
        }) by {
        assert(side(part, other) == (if other == kind {
            seq![]
        } else {
            part.map_values(|line: LineView| line.content)
        }));
    }
}

proof fn lemma_numbered_concat(a: Seq<LineView>, b: Seq<LineView>, i: int, j: int)
    requires
        numbered(a, i, j),
        numbered(
            b,
            i + side(a, DiffLineKind::Addition).len(),
            j + side(a, DiffLineKind::Deletion).len(),
        ),
    ensures
        numbered(a + b, i, j),
{
    let all = a + b;
    assert forall|k: int| 0 <= k < all.len() implies has_numbers(
        all[k],
        #[trigger] all.take(k),
        i,
        j,
    ) by {
        if k < a.len() {
            assert(all[k] == a[k]);
            assert(all.take(k) =~= a.take(k));
        } else {
            assert(all[k] == b[k - a.len()]);
            assert(all.take(k) =~= a + b.take(k - a.len()));
            lemma_sides_concat(a, b.take(k - a.len()));
        }
    }
}

/// `lines` are `m` old lines from `i` on and `n` new lines from `j` on, numbered as these are.
#[verifier::opaque]
spec fn shows_ranges(
    lines: Seq<LineView>,
    i: int,
    m: int,
    j: int,
    n: int,
    old: Seq<Seq<char>>,
    new: Seq<Seq<char>>,
) -> bool {
    &&& side(lines, DiffLineKind::Addition) == old.subrange(i, i + m)
    &&& side(lines, DiffLineKind::Deletion) == new.subrange(j, j + n)
    &&& numbered(lines, i + 1, j + 1)
}

/// Lines of one kind, in a row, are numbered by their places.
proof fn lemma_one_kind_numbered(lines: Seq<LineView>, kind: DiffLineKind, i: int, j: int)
    requires
        forall|k: int|
            0 <= k < lines.len() ==> {
                let line = #[trigger] lines[k];
                &&& line.kind == kind
                &&& line.old_lineno == (if kind == DiffLineKind::Addition {
                    None
                } else {
                    Some(i + k)
                })
                &&& line.new_lineno == (if kind == DiffLineKind::Deletion {
                    None
                } else {
                    Some(j + k)
                })
            },
    ensures
        numbered(lines, i, j),
{
    assert forall|k: int| 0 <= k < lines.len() implies has_numbers(
        lines[k],
        #[trigger] lines.take(k),
        i,
        j,
    ) by {
        lemma_one_kind_prefix(lines, kind, k);
        assert(kind != DiffLineKind::Addition ==> side(
            lines.take(k),
            DiffLineKind::Addition,
        ).len() == k);
        assert(kind != DiffLineKind::Deletion ==> side(
            lines.take(k),
            DiffLineKind::Deletion,
        ).len() == k);
    }
}

/// The lines that an edit keeps or removes.
proof fn lemma_op_old_part(
    op: LineOp,
    i: int,
    j: int,
    old: Seq<Seq<char>>,
    new: Seq<Seq<char>>,
)
    requires
        op_holds(op, old, new),
        op.tag == OpTag::Insert || op.old_start == i,
        op.tag == OpTag::Delete || op.new_start == j,
        0 <= i <= old.len(),
        0 <= j <= new.len(),
    ensures
        ({
            let m = op.old_end - op.old_start;
            let part = op_lines(op, old, new).take(m);
            &&& 0 <= m <= op_lines(op, old, new).len()
            &&& i + m <= old.len()
            &&& forall|k: int|
                0 <= k < part.len() ==> (#[trigger] part[k]).kind == (if op.tag
                    == OpTag::Equal {
                    DiffLineKind::Context
                } else {
                    DiffLineKind::Deletion
                })
            &&& numbered(part, i + 1, j + 1)
            &&& part.map_values(|line: LineView| line.content) == old.subrange(i, i + m)
        }),
{
    let m = op.old_end - op.old_start;
    let part = op_lines(op, old, new).take(m);
    let kind = if op.tag == OpTag::Equal {
        DiffLineKind::Context
    } else {
        DiffLineKind::Deletion
    };
    lemma_one_kind_numbered(part, kind, i + 1, j + 1);
    assert(part.map_values(|line: LineView| line.content) =~= old.subrange(i, i + m));
}

/// The lines that an edit adds.
proof fn lemma_op_new_part(
    op: LineOp,
    i: int,
    j: int,
    old: Seq<Seq<char>>,
    new: Seq<Seq<char>>,
)
    requires
        op_holds(op, old, new),
        op.tag != OpTag::Equal,
        op.tag == OpTag::Delete || op.new_start == j,
        0 <= j <= new.len(),
    ensures
        ({
            let m = op.old_end - op.old_start;
            let n = op.new_end - op.new_start;
            let part = op_lines(op, old, new).skip(m);
            &&& part.len() == n
            &&& 0 <= n
            &&& j + n <= new.len()
            &&& forall|k: int|
                0 <= k < part.len() ==> (#[trigger] part[k]).kind == DiffLineKind::Addition
            &&& numbered(part, i, j + 1)
            &&& part.map_values(|line: LineView| line.content) == new.subrange(j, j + n)
        }),
{
    let m = op.old_end - op.old_start;
    let n = op.new_end - op.new_start;
    let part = op_lines(op, old, new).skip(m);
    lemma_one_kind_numbered(part, DiffLineKind::Addition, i, j + 1);
    assert(part.map_values(|line: LineView| line.content) =~= new.subrange(j, j + n));
}

/// The lines of an edit are its ranges of the two texts, and are numbered as these are.
proof fn lemma_op_sides(
    op: LineOp,
    i: int,
    j: int,
    old: Seq<Seq<char>>,
    new: Seq<Seq<char>>,
)
    requires
        op_holds(op, old, new),
        op.tag == OpTag::Insert || op.old_start == i,
        op.tag == OpTag::Delete || op.new_start == j,
        0 <= i <= old.len(),
        0 <= j <= new.len(),
    ensures
        i + (op.old_end - op.old_start) <= old.len(),
        j + (op.new_end - op.new_start) <= new.len(),
        shows_ranges(
            op_lines(op, old, new),
            i,
            op.old_end - op.old_start,
            j,
            op.new_end - op.new_start,
            old,
            new,
        ),
{
    reveal(shows_ranges);
    let lines = op_lines(op, old, new);
    let m = op.old_end - op.old_start;
    let n = op.new_end - op.new_start;
    let olds = lines.take(m);
    lemma_op_old_part(op, i, j, old, new);
    if op.tag == OpTag::Equal {
        assert(olds =~= lines);
        lemma_one_kind(lines, DiffLineKind::Context);
        assert(side(lines, DiffLineKind::Addition) == old.subrange(i, i + m));
        assert(side(lines, DiffLineKind::Deletion) == old.subrange(i, i + m));
    } else {
        let news = lines.skip(m);
        lemma_op_new_part(op, i + 1 + m, j, old, new);
        assert(lines =~= olds + news);
        lemma_one_kind(olds, DiffLineKind::Deletion);
        lemma_one_kind(news, DiffLineKind::Addition);
        lemma_sides_concat(olds, news);
        let none: Seq<Seq<char>> = seq![];
        assert(side(olds, DiffLineKind::Addition) == old.subrange(i, i + m));
        assert(side(olds, DiffLineKind::Deletion) == none);
        assert(side(news, DiffLineKind::Addition) == none);
        assert(side(news, DiffLineKind::Deletion) == new.subrange(j, j + n));
        assert(old.subrange(i, i + m) + none =~= old.subrange(i, i + m));
        assert(none + new.subrange(j, j + n) =~= new.subrange(j, j + n));
        lemma_numbered_concat(olds, news, i + 1, j + 1);
    }
}

/// How many lines of each kind an edit shows.
proof fn lemma_op_counts(op: LineOp, old: Seq<Seq<char>>, new: Seq<Seq<char>>)
    requires
        op_ordered(op),
    ensures
        count_of(op_lines(op, old, new), DiffLineKind::Context) == (if op.tag == OpTag::Equal {
            op.old_end - op.old_start
        } else {
            0
        }),
        count_of(op_lines(op, old, new), DiffLineKind::Deletion) == (if op.tag
            == OpTag::Equal {
            0
        } else {
            op.old_end - op.old_start
        }),
        count_of(op_lines(op, old, new), DiffLineKind::Addition) == (if op.tag
            == OpTag::Equal {
            0
        } else {
            op.new_end - op.new_start
        }),
{
    let lines = op_lines(op, old, new);
    let m = op.old_end - op.old_start;
    if op.tag == OpTag::Equal {
        lemma_one_kind(lines, DiffLineKind::Context);
    } else {
        let olds = lines.take(m);
        let news = lines.skip(m);
        assert(lines =~= olds + news);
        lemma_one_kind(olds, DiffLineKind::Deletion);
        lemma_one_kind(news, DiffLineKind::Addition);
        lemma_sides_concat(olds, news);
    }
}

/// Ranges that follow one another are shown by the lines of both.
proof fn lemma_ranges_join(
    a: Seq<LineView>,
    b: Seq<LineView>,
    i: int,
    m: int,
    m2: int,
    j: int,
    n: int,
    n2: int,
    old: Seq<Seq<char>>,
    new: Seq<Seq<char>>,
)
    requires
        0 <= i,
        0 <= m,
        0 <= m2,
        i + m + m2 <= old.len(),
        0 <= j,
        0 <= n,
        0 <= n2,
        j + n + n2 <= new.len(),
        shows_ranges(a, i, m, j, n, old, new),
        shows_ranges(b, i + m, m2, j + n, n2, old, new),
    ensures
        shows_ranges(a + b, i, m + m2, j, n + n2, old, new),
{
    reveal(shows_ranges);
    lemma_sides_concat(a, b);
    assert(old.subrange(i, i + m) + old.subrange(i + m, i + m + m2) =~= old.subrange(
        i,
        i + (m + m2),
    ));
    assert(new.subrange(j, j + n) + new.subrange(j + n, j + n + n2) =~= new.subrange(
        j,
        j + (n + n2),
    ));
    assert(side(a + b, DiffLineKind::Addition) == old.subrange(i, i + (m + m2)));
    assert(side(a + b, DiffLineKind::Deletion) == new.subrange(j, j + (n + n2)));
    assert(i + m + 1 == i + 1 + side(a, DiffLineKind::Addition).len());
    assert(j + n + 1 == j + 1 + side(a, DiffLineKind::Deletion).len());
    lemma_numbered_concat(a, b, i + 1, j + 1);
}

proof fn lemma_follow_prefix(ops: Seq<LineOp>, i: int, j: int)
    requires
        ops.len() > 0,
        follow(ops, i, j),
    ensures
        follow(ops.drop_last(), i, j),
{
    let rest = ops.drop_last();
    assert forall|k: int| 0 <= k < rest.len() implies {
        let op = #[trigger] rest[k];
        let done = rest.take(k);
        &&& op.tag == OpTag::Insert || op.old_start == i + kept(done) + removed(done)
        &&& op.tag == OpTag::Delete || op.new_start == j + kept(done) + added(done)
    } by {
        assert(rest[k] == ops[k]);
        assert(rest.take(k) =~= ops.take(k));
    }
}

/// The lines of a group are its ranges of the two texts, and are numbered as these are.
proof fn lemma_group_sides(
    ops: Seq<LineOp>,
    i: int,
    j: int,
    old: Seq<Seq<char>>,
    new: Seq<Seq<char>>,
)
    requires
        forall|k: int| 0 <= k < ops.len() ==> op_holds(#[trigger] ops[k], old, new),
        follow(ops, i, j),
        0 <= i <= old.len(),
        0 <= j <= new.len(),
    ensures
        0 <= kept(ops) + removed(ops),
        i + kept(ops) + removed(ops) <= old.len(),
        0 <= kept(ops) + added(ops),
        j + kept(ops) + added(ops) <= new.len(),
        shows_ranges(
            group_lines(ops, old, new),
            i,
            kept(ops) + removed(ops),
            j,
            kept(ops) + added(ops),
            old,
            new,
        ),
    decreases ops.len(),
{
    if ops.len() == 0 {
        reveal(shows_ranges);
        assert(old.subrange(i, i) =~= seq![]);
        assert(new.subrange(j, j) =~= seq![]);
    } else {
        let rest = ops.drop_last();
        let op = ops.last();
        assert forall|k: int| 0 <= k < rest.len() implies op_holds(
            #[trigger] rest[k],
            old,
            new,
        ) by {
            assert(rest[k] == ops[k]);
        }
        lemma_follow_prefix(ops, i, j);
        lemma_group_sides(rest, i, j, old, new);
        assert(ops.take(ops.len() - 1) =~= rest);
        assert(op_holds(ops[ops.len() - 1], old, new));
        let m = kept(rest) + removed(rest);
        let n = kept(rest) + added(rest);
        lemma_op_sides(op, i + m, j + n, old, new);
        lemma_ranges_join(
            group_lines(rest, old, new),
            op_lines(op, old, new),
            i,
            m,
            op.old_end - op.old_start,
            j,
            n,
            op.new_end - op.new_start,
            old,
            new,
        );
    }
}

/// A group's lines begin with those of its first edit.
proof fn lemma_first_lines(ops: Seq<LineOp>, old: Seq<Seq<char>>, new: Seq<Seq<char>>)
    requires
        ops.len() > 0,
    ensures
        ({
            let first = op_lines(ops[0], old, new);
            let lines = group_lines(ops, old, new);
            first.len() <= lines.len() && lines.take(first.len() as int) == first
        }),
    decreases ops.len(),
{
    let first = op_lines(ops[0], old, new);
    let lines = group_lines(ops, old, new);
    let before = group_lines(ops.drop_last(), old, new);
    if ops.len() == 1 {
        assert(ops.drop_last() =~= seq![]);
        assert(before =~= seq![]);
        assert(lines =~= first);
    } else {
        lemma_first_lines(ops.drop_last(), old, new);
        assert(lines.take(first.len() as int) =~= before.take(first.len() as int));
    }
}

/// The hunk shows the group, whose edits hold of the texts and begin with a line.
#[verifier::opaque]
spec fn shown_well(
    hunk: DiffHunk,
    group: Seq<LineOp>,
    old: Seq<Seq<char>>,
    new: Seq<Seq<char>>,
) -> bool {
    &&& hunk_shows(hunk, group, old, new)
    &&& forall|k: int| 0 <= k < group.len() ==> op_holds(#[trigger] group[k], old, new)
    &&& is_tight(group, 1)
}

/// The hunk is what its header says, and its lines stand in the texts.
#[verifier::opaque]
spec fn good_hunk(hunk: DiffHunk, old: Seq<Seq<char>>, new: Seq<Seq<char>>) -> bool {
    &&& hunk_fits(hunk, old, new)
    &&& lines_come_from(hunk, old, new)
    &&& context_is_near(line_views(hunk.lines@))
}

/// A hunk stands where its group does.
spec fn stands_where(hunk: DiffHunk, group: Seq<LineOp>) -> bool {
    &&& (hunk.old_start - 1, hunk.new_start - 1) == start_of(group)
    &&& hunk.old_count == kept(group) + removed(group)
    &&& hunk.new_count == kept(group) + added(group)
}

/// The edits alternate, none is empty, and they keep two lines in a row at most, or one at the
/// start.
spec fn keeps_few(ops: Seq<LineOp>) -> bool {
    &&& alternate(ops)
    &&& forall|k: int|
        0 <= k < ops.len() ==> {
            let op = #[trigger] ops[k];
            &&& op_ordered(op)
            &&& op_covers(op)
            &&& op.tag == OpTag::Equal ==> 0 < op.old_end - op.old_start <= (if k == 0 {
                1int
            } else {
                2
            })
        }
}

proof fn lemma_keeps_few_prefix(ops: Seq<LineOp>)
    requires
        ops.len() > 0,
        keeps_few(ops),
    ensures
        keeps_few(ops.drop_last()),
{
    let rest = ops.drop_last();
    assert forall|k: int| 0 <= k < rest.len() implies #[trigger] rest[k] == ops[k] by {}
}

/// How the lines of an edit that is not empty look: of one that keeps lines all are kept, of
/// another one none.
proof fn lemma_op_kinds(op: LineOp, old: Seq<Seq<char>>, new: Seq<Seq<char>>)
    requires
        op_ordered(op),
        op_covers(op),
        op.tag == OpTag::Equal ==> op.old_start < op.old_end,
    ensures
        op_lines(op, old, new).len() > 0,
        op.tag == OpTag::Equal ==> op_lines(op, old, new).len() == op.old_end - op.old_start,
        forall|k: int|
            0 <= k < op_lines(op, old, new).len() ==> ((#[trigger] op_lines(op, old, new)[k]).kind
                == DiffLineKind::Context <==> op.tag == OpTag::Equal),
{
}

/// In the lines of some edits, only a kept line at the end can be without a change next to it.
proof fn lemma_context_near_prefix(
    ops: Seq<LineOp>,
    old: Seq<Seq<char>>,
    new: Seq<Seq<char>>,
)
    requires
        ops.len() > 0,
        keeps_few(ops),
    ensures
        ({
            let lines = group_lines(ops, old, new);
            &&& lines.len() > 0
            &&& lines.last().kind == DiffLineKind::Context <==> ops.last().tag == OpTag::Equal
            &&& forall|k: int|
                0 <= k < lines.len() - 1 && lines[k].kind == DiffLineKind::Context
                    ==> #[trigger] is_near_change(lines, k)
        }),
    decreases ops.len(),
{
    let rest = ops.drop_last();
    let op = ops[ops.len() - 1];
    let a = group_lines(rest, old, new);
    let b = op_lines(op, old, new);
    let lines = group_lines(ops, old, new);
    lemma_op_kinds(op, old, new);
    lemma_keeps_few_prefix(ops);
    if rest.len() > 0 {
        lemma_context_near_prefix(rest, old, new);
        assert(rest.last() == ops[ops.len() - 2]);
    }
    assert(lines == a + b);
    assert forall|k: int|
        0 <= k < lines.len() - 1 && lines[k].kind == DiffLineKind::Context implies
        #[trigger] is_near_change(lines, k) by {
        if k < a.len() - 1 {
            assert(is_near_change(a, k));
        } else if k == a.len() - 1 {
            assert(lines[k + 1] == b[0]);
        } else {
            assert(lines[k] == b[k - a.len()]);
            assert(lines[a.len() - 1] == a.last());
        }
    }
    assert(lines.last() == b.last());
}

/// In the lines of a tight group every kept line stands next to a change.
proof fn lemma_context_near(group: Seq<LineOp>, old: Seq<Seq<char>>, new: Seq<Seq<char>>)
    requires
        changed(group).len() > 0,
        forall|k: int| 0 <= k < group.len() ==> op_holds(#[trigger] group[k], old, new),
        is_tight(group, 1),
    ensures
        context_is_near(group_lines(group, old, new)),
{
    let lines = group_lines(group, old, new);
    let rest = group.drop_last();
    let op = group[group.len() - 1];
    assert(keeps_few(group)) by {
        assert forall|k: int| 0 <= k < group.len() implies {
            let op = #[trigger] group[k];
            &&& op_ordered(op)
            &&& op_covers(op)
            &&& op.tag == OpTag::Equal ==> 0 < op.old_end - op.old_start <= (if k == 0 {
                1int
            } else {
                2
            })
        } by {
            assert(op_holds(group[k], old, new));
        }
    }
    lemma_context_near_prefix(group, old, new);
    if op.tag == OpTag::Equal {
        if rest.len() == 0 {
            assert(changed(rest).len() == 0);
        }
        lemma_keeps_few_prefix(group);
        lemma_context_near_prefix(rest, old, new);
        assert(rest.last() == group[group.len() - 2]);
        lemma_op_kinds(op, old, new);
        let a = group_lines(rest, old, new);
        assert(lines == a + op_lines(op, old, new));
        assert(lines[lines.len() - 2] == a.last());
    }
}

/// A hunk that shows a group is what its header says.
proof fn lemma_hunk_fits(
    hunk: DiffHunk,
    group: Seq<LineOp>,
    old: Seq<Seq<char>>,
    new: Seq<Seq<char>>,
)
    requires
        shown_well(hunk, group, old, new),
        changed(group).len() > 0,
        0 <= start_of(group).0 <= old.len(),
        0 <= start_of(group).1 <= new.len(),
        follow(group, start_of(group).0, start_of(group).1),
    ensures
        good_hunk(hunk, old, new),
        stands_where(hunk, group),
        start_of(group).0 + hunk.old_count <= old.len(),
        start_of(group).1 + hunk.new_count <= new.len(),
        side(line_views(hunk.lines@), DiffLineKind::Deletion) == new.subrange(
            start_of(group).1,
            start_of(group).1 + hunk.new_count,
        ),
{
    reveal(shown_well);
    reveal(good_hunk);
    let (a, b) = start_of(group);
    let lines = group_lines(group, old, new);
    reveal(shows_ranges);
    lemma_group_sides(group, a, b, old, new);
    assert(group.len() > 0) by {
        if group.len() == 0 {
            assert(changed(group).len() == 0);
        }
    }
    lemma_kind_counts(group, old, new);
    lemma_context_near(group, old, new);
    lemma_first_lines(group, old, new);
    let first = op_lines(group[0], old, new);
    assert(op_holds(group[0], old, new));
    assert(first.len() > 0);
    assert(lines[0] == lines.take(first.len() as int)[0]);
    assert(lines[0] == first[0]);
    assert(lines.take(0) =~= seq![]);
    assert(side(lines.take(0), DiffLineKind::Addition).len() == 0);
    assert(side(lines.take(0), DiffLineKind::Deletion).len() == 0);
    if group[0].tag == OpTag::Equal {
        assert(lines[0].kind == DiffLineKind::Context);
    }
    assert forall|i: int| #![trigger hunk.lines@[i]]
        0 <= i < hunk.lines@.len() implies line_comes_from(hunk.lines@[i]@, old, new) by {
        assert(line_views(hunk.lines@)[i] == hunk.lines@[i]@);
        lemma_group_lines_come_from(group, old, new, i);
    }
}

/// Putting the hunks in turns the old lines into the new ones, and each hunk is what its header
/// says.
proof fn lemma_hunks_replay(
    hunks: Seq<DiffHunk>,
    groups: Seq<Seq<LineOp>>,
    i: int,
    j: int,
    old: Seq<Seq<char>>,
    new: Seq<Seq<char>>,
)
    requires
        0 <= i <= old.len(),
        0 <= j <= new.len(),
        hunks.len() == groups.len(),
        groups_replay(groups, i, j, old, new),
        forall|h: int|
            0 <= h < groups.len() ==> shown_well(#[trigger] hunks[h], groups[h], old, new),
    ensures
        patched(old, i, hunks) == new.skip(j),
        forall|h: int|
            0 <= h < hunks.len() ==> good_hunk(#[trigger] hunks[h], old, new) && stands_where(
                hunks[h],
                groups[h],
            ),
    decreases groups.len(),
{
    if groups.len() > 0 {
        let group = groups[0];
        let hunk = hunks[0];
        let (a, b) = start_of(group);
        assert(shown_well(hunks[0], groups[0], old, new));
        lemma_hunk_fits(hunk, group, old, new);
        let i2 = a + kept(group) + removed(group);
        let j2 = b + kept(group) + added(group);
        let rest = groups.drop_first();
        let later = hunks.drop_first();
        assert forall|h: int| 0 <= h < rest.len() implies shown_well(
            #[trigger] later[h],
            rest[h],
            old,
            new,
        ) by {
            assert(later[h] == hunks[h + 1]);
            assert(rest[h] == groups[h + 1]);
        }
        lemma_hunks_replay(later, rest, i2, j2, old, new);
        assert(new.skip(j) =~= new.subrange(j, b) + new.subrange(b, j2) + new.skip(j2));
        assert forall|h: int| 0 <= h < hunks.len() implies good_hunk(
            #[trigger] hunks[h],
            old,
            new,
        ) && stands_where(hunks[h], groups[h]) by {
            if h > 0 {
                assert(hunks[h] == later[h - 1]);
                assert(groups[h] == rest[h - 1]);
            }
        }
    }
}

/// Hunks stand apart where their groups do.
proof fn lemma_hunks_apart(hunks: Seq<DiffHunk>, groups: Seq<Seq<LineOp>>)
    requires
        hunks.len() == groups.len(),
        groups_apart(groups),
        forall|h: int| 0 <= h < hunks.len() ==> stands_where(#[trigger] hunks[h], groups[h]),
    ensures
        hunks_apart(hunks),
{
    assert forall|g: int, h: int| #![trigger hunks[g], hunks[h]] 0 <= g < h < hunks.len() implies {
        &&& hunks[g].old_start + hunks[g].old_count < hunks[h].old_start
        &&& hunks[g].new_start + hunks[g].new_count < hunks[h].new_start
    } by {
        assert(stands_where(hunks[g], groups[g]) && stands_where(hunks[h], groups[h]));
    }
}

/// The hunks hold as many additions and deletions as the edits of their groups.
proof fn lemma_hunk_lines(
    hunks: Seq<DiffHunk>,
    groups: Seq<Seq<LineOp>>,
    old: Seq<Seq<char>>,
    new: Seq<Seq<char>>,
)
    requires
        hunks.len() == groups.len(),
        forall|h: int|
            0 <= h < groups.len() ==> shown_well(#[trigger] hunks[h], groups[h], old, new),
    ensures
        lines_in(hunks, DiffLineKind::Addition) == added(all_ops(groups)),
        lines_in(hunks, DiffLineKind::Deletion) == removed(all_ops(groups)),
    decreases groups.len(),
{
    if groups.len() > 0 {
        let last = groups.len() - 1;
        let rest = groups.drop_last();
        let before = hunks.drop_last();
        assert forall|h: int| 0 <= h < rest.len() implies shown_well(
            #[trigger] before[h],
            rest[h],
            old,
            new,
        ) by {
            assert(before[h] == hunks[h]);
            assert(rest[h] == groups[h]);
        }
        lemma_hunk_lines(before, rest, old, new);
        lemma_totals_split(all_ops(rest), groups[last]);
        assert(shown_well(hunks[last], groups[last], old, new));
        reveal(shown_well);
        assert forall|k: int| 0 <= k < groups[last].len() implies op_ordered(
            #[trigger] groups[last][k],
        ) by {
            assert(op_holds(groups[last][k], old, new));
        }
        lemma_kind_counts(groups[last], old, new);
    }
}

proof fn lemma_kind_counts(ops: Seq<LineOp>, old: Seq<Seq<char>>, new: Seq<Seq<char>>)
    requires
        forall|k: int| 0 <= k < ops.len() ==> op_ordered(#[trigger] ops[k]),
    ensures
        count_of(group_lines(ops, old, new), DiffLineKind::Context) == kept(ops),
        count_of(group_lines(ops, old, new), DiffLineKind::Addition) == added(ops),
        count_of(group_lines(ops, old, new), DiffLineKind::Deletion) == removed(ops),
    decreases ops.len(),
{
    if ops.len() > 0 {
        let rest = ops.drop_last();
        let op = ops.last();
        assert forall|k: int| 0 <= k < rest.len() implies op_ordered(#[trigger] rest[k]) by {
            assert(rest[k] == ops[k]);
        }
        lemma_kind_counts(rest, old, new);
        assert(op_ordered(ops[ops.len() - 1]));
        lemma_op_counts(op, old, new);
        lemma_sides_concat(group_lines(rest, old, new), op_lines(op, old, new));
        let all = group_lines(rest, old, new) + op_lines(op, old, new);
        assert(count_of(all, DiffLineKind::Context) == kept(ops));
        assert(count_of(all, DiffLineKind::Addition) == added(ops));
        assert(count_of(all, DiffLineKind::Deletion) == removed(ops));
    }
}

/// Where there is a group, its first change is among all of them.
proof fn lemma_changed_last(groups: Seq<Seq<LineOp>>)
    requires
        groups.len() > 0,
        changed(groups[0]).len() > 0,
    ensures
        changed(all_ops(groups)).len() > 0,
    decreases groups.len(),
{
    let rest = groups.drop_last();
    lemma_totals_split(all_ops(rest), groups.last());
    if groups.len() > 1 {
        assert(rest[0] == groups[0]);
        lemma_changed_last(rest);
    }
}

proof fn lemma_groups_step(groups: Seq<Seq<LineOp>>, g: int)
    requires
        0 <= g < groups.len(),
    ensures
        added(all_ops(groups.take(g + 1))) == added(all_ops(groups.take(g))) + added(groups[g]),
        removed(all_ops(groups.take(g + 1))) == removed(all_ops(groups.take(g))) + removed(
            groups[g],
        ),
{
    assert(groups.take(g + 1).drop_last() =~= groups.take(g));
    lemma_totals_split(all_ops(groups.take(g)), groups[g]);
}

proof fn lemma_groups_monotone(groups: Seq<Seq<LineOp>>, g: int)
    requires
        0 <= g <= groups.len(),
        forall|h: int, k: int|
            0 <= h < groups.len() && 0 <= k < groups[h].len() ==> op_ordered(
                #[trigger] groups[h][k],
            ),
    ensures
        added(all_ops(groups.take(g))) <= added(all_ops(groups)),
        removed(all_ops(groups.take(g))) <= removed(all_ops(groups)),
    decreases groups.len() - g,
{
    if g == groups.len() {
        assert(groups.take(g) =~= groups);
    } else {
        lemma_groups_step(groups, g);
        lemma_counts_bounded(groups[g], seq![], seq![]);
        lemma_groups_monotone(groups, g + 1);
    }
}

/// The hunks that show groups of edits, with the lines they add and remove.
pub fn diff_of_groups(
    groups: &Vec<Vec<LineOp>>,
    old_lines: &Vec<String>,
    new_lines: &Vec<String>,
) -> (diff: FileDiff)
    requires
        forall|g: int, k: int|
            0 <= g < groups@.len() && 0 <= k < groups@[g]@.len() ==> op_fits(
                #[trigger] groups@[g]@[k],
                old_lines@.len(),
                new_lines@.len(),
            ),
        added(all_ops(group_views(groups@))) <= usize::MAX,
        removed(all_ops(group_views(groups@))) <= usize::MAX,
    ensures
        !diff.is_binary,
        diff.additions == added(all_ops(group_views(groups@))),
        diff.deletions == removed(all_ops(group_views(groups@))),
        diff.hunks@.len() == groups@.len(),
        forall|h: int|
            0 <= h < diff.hunks@.len() ==> hunk_shows(
                #[trigger] diff.hunks@[h],
                groups@[h]@,
                text::views(old_lines@),
                text::views(new_lines@),
            ),
{
    let ghost views = group_views(groups@);
    let mut hunks: Vec<DiffHunk> = Vec::new();
    let mut additions: usize = 0;
    let mut deletions: usize = 0;
    let mut g: usize = 0;
    assert(views.take(0) =~= seq![]);
    while g < groups.len()
        invariant
            g <= groups@.len() == views.len(),
            views == group_views(groups@),
            forall|g: int, k: int|
                0 <= g < groups@.len() && 0 <= k < groups@[g]@.len() ==> op_fits(
                    #[trigger] groups@[g]@[k],
                    old_lines@.len(),
                    new_lines@.len(),
                ),
            added(all_ops(views)) <= usize::MAX,
            removed(all_ops(views)) <= usize::MAX,
            additions == added(all_ops(views.take(g as int))),
            deletions == removed(all_ops(views.take(g as int))),
            hunks@.len() == g,
            forall|h: int|
                0 <= h < g ==> hunk_shows(
                    #[trigger] hunks@[h],
                    groups@[h]@,
                    text::views(old_lines@),
                    text::views(new_lines@),
                ),
        decreases groups@.len() - g,
    {
        let ghost group = groups@[g as int]@;
        assert forall|k: int| 0 <= k < group.len() implies op_fits(
            #[trigger] group[k],
            old_lines@.len(),
            new_lines@.len(),
        ) by {
            assert(op_fits(groups@[g as int]@[k], old_lines@.len(), new_lines@.len()));
        }
        let (hunk, hunk_added, hunk_removed) = hunk_of(&groups[g], old_lines, new_lines);
        proof {
            assert(views[g as int] == group);
            assert forall|h: int, k: int|
                0 <= h < views.len() && 0 <= k < views[h].len() implies op_ordered(
                #[trigger] views[h][k],
            ) by {
                assert(views[h] == groups@[h]@);
                assert(op_fits(groups@[h]@[k], old_lines@.len(), new_lines@.len()));
            }
            lemma_groups_step(views, g as int);
            lemma_groups_monotone(views, g + 1);
        }
        additions += hunk_added;
        deletions += hunk_removed;
        hunks.push(hunk);
        g += 1;
    }
    assert(views.take(g as int) =~= views);
    FileDiff { additions, deletions, hunks, is_binary: false }
}

/// The diff between two versions of a file, in hunks.
pub fn compute_file_diff(old: &[u8], new: &[u8]) -> (diff: FileDiff)
    requires
        can_be_diffed(old@, new@),
    ensures
        diff_shows(old@, new@, diff),
        diff_is_sound(old@, new@, diff),
        forall|i: int| 0 <= i < 8192 && i < old@.len() && old@[i] == 0 ==> diff.is_binary,
        forall|i: int| 0 <= i < 8192 && i < new@.len() && new@[i] == 0 ==> diff.is_binary,
        diff.is_binary ==> exists|i: int|
            0 <= i < 8192 && (i < old@.len() && old@[i] == 0 || i < new@.len() && new@[i] == 0),
        diff.is_binary ==> diff.additions == 0 && diff.deletions == 0 && diff.hunks@.len() == 0,
        !diff.is_binary ==> totals_fit(old@, new@, diff.additions as int, diff.deletions as int),
{
    if is_binary(old) || is_binary(new) {
        return FileDiff { additions: 0, deletions: 0, hunks: Vec::new(), is_binary: true };
    }
    let old_text = text::from_utf8_lossy(old);
    let new_text = text::from_utf8_lossy(new);
    let old_lines = tokenize_lines(old_text.as_str());
    let new_lines = tokenize_lines(new_text.as_str());
    let ghost old_texts = split_lines(old_text@);
    let ghost new_texts = split_lines(new_text@);
    assert(old_texts.len() == old_lines@.len());
    assert(new_texts.len() == new_lines@.len());
    let _old_size: usize = old_lines.len();
    let _new_size: usize = new_lines.len();
    let (ops, groups) = diff_lines(old_text.as_str(), new_text.as_str(), 1);
    let ghost views = group_views(groups@);
    proof {
        lemma_replay_totals(ops@, 0, 0, old_texts, new_texts);
        lemma_unchanged(ops@, old_text@, new_text@);
        lemma_totals_changed(ops@);
        lemma_totals_changed(all_ops(views));
        assert forall|g: int, k: int|
            0 <= g < groups@.len() && 0 <= k < groups@[g]@.len() implies op_fits(
            #[trigger] groups@[g]@[k],
            old_lines@.len(),
            new_lines@.len(),
        ) by {
            assert(op_holds(groups@[g]@[k], old_texts, new_texts));
        }
    }
    let diff = diff_of_groups(&groups, &old_lines, &new_lines);
    proof {
        assert forall|h: int| 0 <= h < views.len() implies shown_well(
            #[trigger] diff.hunks@[h],
            views[h],
            old_texts,
            new_texts,
        ) by {
            reveal(shown_well);
            assert(views[h] == groups@[h]@);
            assert forall|k: int| 0 <= k < views[h].len() implies op_holds(
                #[trigger] views[h][k],
                old_texts,
                new_texts,
            ) by {
                assert(op_holds(groups@[h]@[k], old_texts, new_texts));
            }
        }
        lemma_hunks_replay(diff.hunks@, views, 0, 0, old_texts, new_texts);
        assert forall|h: int| 0 <= h < views.len() implies hunk_fits(
            #[trigger] diff.hunks@[h],
            old_texts,
            new_texts,
        ) && lines_come_from(diff.hunks@[h], old_texts, new_texts) && context_is_near(
            line_views(diff.hunks@[h].lines@),
        ) by {
            assert(good_hunk(diff.hunks@[h], old_texts, new_texts));
            reveal(good_hunk);
        }
        lemma_hunks_apart(diff.hunks@, views);
        assert(new_texts.skip(0) =~= new_texts);
        lemma_hunk_lines(diff.hunks@, views, old_texts, new_texts);
        if views.len() > 0 {
            lemma_changed_last(views);
        }
    }
    diff
}

/// A zero byte near the start of either version, whatever the other version is, marks a diff as
/// binary, and so it does the stats. Nothing else does. What is binary has no hunks and no counts.
pub proof fn law_either_side_makes_binary(
    old: Seq<u8>,
    new: Seq<u8>,
    diff: FileDiff,
    stats: DiffStats,
    binary: bool,
)
    requires
        diff_shows(old, new, diff),
        stats_show(old, new, stats, binary),
    ensures
        forall|i: int|
            0 <= i < 8192 && i < old.len() && old[i] == 0 ==> diff.is_binary && binary,
        forall|i: int|
            0 <= i < 8192 && i < new.len() && new[i] == 0 ==> diff.is_binary && binary,
        diff.is_binary || binary ==> exists|i: int|
            0 <= i < 8192 && (i < old.len() && old[i] == 0 || i < new.len() && new[i] == 0),
        diff.is_binary ==> diff.hunks@.len() == 0 && diff.additions == 0 && diff.deletions == 0,
        binary ==> stats.additions == 0 && stats.deletions == 0,
{
}

/// Which version is the old one and which the new one makes no difference to whether they are
/// binary.
pub proof fn law_binary_is_symmetric(
    old: Seq<u8>,
    new: Seq<u8>,
    there: DiffStats,
    there_binary: bool,
    back: DiffStats,
    back_binary: bool,
)
    requires
        stats_show(old, new, there, there_binary),
        stats_show(new, old, back, back_binary),
    ensures
        there_binary == back_binary,
{
}

/// The counts of the stats are those of the diff of the same two versions.
pub proof fn law_stats_match_diff(
    old: Seq<u8>,
    new: Seq<u8>,
    stats: DiffStats,
    binary: bool,
    diff: FileDiff,
)
    requires
        stats_show(old, new, stats, binary),
        diff_shows(old, new, diff),
    ensures
        stats.additions == diff.additions,
        stats.deletions == diff.deletions,
        binary == diff.is_binary,
{
}

/// Where a changed file lies in the sandbox and on the host.
#[derive(Debug)]
pub struct CopyPlan {
    pub sandbox_path: String,
    pub host_path: String,
}

/// Why a file is not copied to the host.
#[derive(Clone, Copy, Debug, PartialEq, Eq, Structural)]
pub enum CopyRefusal {
    Traversal,
    GitInternals,
}

impl CopyRefusal {
    /// The refusal in words.
    pub fn message(self) -> (s: &'static str)
        ensures
            s@ == (match self {
                CopyRefusal::Traversal => "path contains '..'"@,
                CopyRefusal::GitInternals => "refusing to write to .git"@,
            }),
    {
        match self {
            CopyRefusal::Traversal => "path contains '..'",
            CopyRefusal::GitInternals => "refusing to write to .git",
        }
    }
}

/// Whether a path is git's own.
pub open spec fn is_git_internal(path: Seq<char>) -> bool {
    text::has_prefix(path, ".git/"@) || path == ".git"@
}

/// A path under a directory.
pub open spec fn path_under(dir: Seq<char>, path: Seq<char>) -> Seq<char> {
    dir + "/"@ + path
}

/// A path under a directory.
pub fn join_path(dir: &str, path: &str) -> (s: String)
    ensures
        s@ == path_under(dir@, path@),
{
    text::concat3(dir, "/", path)
}

/// Where to copy a changed file from and to. A path that climbs up or that is git's own is
/// refused.
pub fn plan_copy(rel_path: &str, host_mount_path: &str) -> (r: Result<CopyPlan, CopyRefusal>)
    ensures
        match r {
            Err(CopyRefusal::Traversal) => text::contains_text(rel_path@, ".."@),
            Err(CopyRefusal::GitInternals) => !text::contains_text(rel_path@, ".."@)
                && is_git_internal(rel_path@),
            Ok(plan) => {
                &&& !text::contains_text(rel_path@, ".."@)
                &&& !is_git_internal(rel_path@)
                &&& plan.sandbox_path@ == path_under("/workspace"@, rel_path@)
                &&& plan.host_path@ == path_under(host_mount_path@, rel_path@)
            },
        },
{
    if text::contains(rel_path, "..") {
        return Err(CopyRefusal::Traversal);
    }
    if text::starts_with(rel_path, ".git/") || text::same_text(rel_path, ".git") {
        return Err(CopyRefusal::GitInternals);
    }
    Ok(
        CopyPlan {
            sandbox_path: join_path("/workspace", rel_path),
            host_path: join_path(host_mount_path, rel_path),
        },
    )
}

/// Lines make up the text; none is empty, a line break stands at the end of a line only, and every
/// line but the last has one.
pub proof fn law_lines_end_at_breaks(s: Seq<char>, k: int)
    requires
        0 <= k < split_lines(s).len(),
    ensures
        concatenated(split_lines(s)) == s,
        ({
            let line = split_lines(s)[k];
            &&& line.len() > 0
            &&& forall|i: int|
                0 <= i < line.len() - 1 ==> #[trigger] line[i] != '\n' && (line[i] == '\r' ==> i
                    == line.len() - 2 && line[i + 1] == '\n')
            &&& k + 1 < split_lines(s).len() ==> line.last() == '\n' || line.last() == '\r'
        }),
    decreases s.len(),
{
    lemma_lines_are_text(s);
    lemma_line_end(s, 0);
    lemma_line_inside(s, 0);
    let end = line_end(s, 0);
    let rest = s.skip(end);
    assert(split_lines(s) == seq![s.take(end)] + split_lines(rest));
    if k > 0 {
        law_lines_end_at_breaks(rest, k - 1);
        assert(split_lines(s)[k] == split_lines(rest)[k - 1]);
    } else {
        assert(split_lines(s)[0] == s.take(end));
        if 1 < split_lines(s).len() {
            assert(rest.len() > 0);
        }
    }
}

proof fn lemma_line_inside(s: Seq<char>, i: int)
    requires
        0 <= i < s.len(),
    ensures
        ({
            let end = line_end(s, i);
            &&& i < end <= s.len()
            &&& forall|j: int|
                i <= j < end - 1 ==> #[trigger] s[j] != '\n' && (s[j] == '\r' ==> j == end - 2
                    && s[j + 1] == '\n')
            &&& end < s.len() ==> s[end - 1] == '\n' || s[end - 1] == '\r'
        }),
    decreases s.len() - i,
{
    if s[i] != '\n' && s[i] != '\r' && i + 1 < s.len() {
        lemma_line_inside(s, i + 1);
    } else if s[i] != '\n' && s[i] != '\r' {
        assert(line_end(s, i + 1) == s.len());
    }
}

/// The lines of a kind are counted, and the lines of a side are all that are not of the other kind,
/// in order.
pub proof fn law_sides_hold_their_lines(lines: Seq<LineView>, kind: DiffLineKind)
    ensures
        count_of(lines, kind) == lines.filter(|line: LineView| line.kind == kind).len(),
        side(lines, kind) == lines.filter(|line: LineView| line.kind != kind).map_values(
            |line: LineView| line.content,
        ),
    decreases lines.len(),
{
    reveal(Seq::filter);
    if lines.len() > 0 {
        law_sides_hold_their_lines(lines.drop_last(), kind);
        let f = |line: LineView| line.content;
        let before = lines.drop_last().filter(|line: LineView| line.kind != kind);
        if lines.last().kind != kind {
            assert(before.push(lines.last()).map_values(f) =~= before.map_values(f).push(
                lines.last().content,
            ));
        }
    } else {
        assert(side(lines, kind) =~= lines.filter(
            |line: LineView| line.kind != kind,
        ).map_values(|line: LineView| line.content));
    }
}

} // verus!
