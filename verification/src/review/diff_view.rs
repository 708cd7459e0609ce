//! How a file's diff is shown: display lines, colours, selection and header.

use crate::review::changes_tab::FileStatus;
use crate::review::diff_engine::{DiffHunk, DiffLineKind, DiffStats, FileDiff};
use crate::review::highlighter::{HighlightColor, StyledRange};
use crate::review::{diff_engine, highlighter};
use crate::text;
use crate::theme::ColorRole;
use vstd::prelude::*;

verus! {

/// A line as it is shown: a hunk header, or a line of the file with its number.
#[derive(Debug)]
pub struct DiffDisplayLine {
    pub kind: DiffLineKind,
    pub lineno: String,
    pub content: String,
    pub is_hunk_header: bool,
}

/// A display line with its texts as characters.
pub struct DisplayView {
    pub kind: DiffLineKind,
    pub lineno: Seq<char>,
    pub content: Seq<char>,
    pub is_hunk_header: bool,
}

impl View for DiffDisplayLine {
    type V = DisplayView;

    open spec fn view(&self) -> DisplayView {
        DisplayView {
            kind: self.kind,
            lineno: self.lineno@,
            content: self.content@,
            is_hunk_header: self.is_hunk_header,
        }
    }
}

/// The views of a list of display lines.
pub open spec fn display_views(lines: Seq<DiffDisplayLine>) -> Seq<DisplayView> {
    lines.map_values(|line: DiffDisplayLine| line@)
}

/// `s` without the line feeds at its end.
pub open spec fn without_newlines(s: Seq<char>) -> Seq<char>
    decreases s.len(),
{
    if s.len() > 0 && s.last() == '\n' {
        without_newlines(s.drop_last())
    } else {
        s
    }
}

/// The header of a hunk, such as `@@ -1,3 +1,4 @@`.
pub open spec fn header_text(hunk: DiffHunk) -> Seq<char> {
    "@@ -"@ + text::decimal(hunk.old_start as nat) + ","@ + text::decimal(hunk.old_count as nat)
        + " +"@ + text::decimal(hunk.new_start as nat) + ","@ + text::decimal(
        hunk.new_count as nat,
    ) + " @@"@
}

/// A file line as it is shown: a deletion with its old number, any other with its new one.
pub open spec fn display_of(line: diff_engine::LineView) -> DisplayView {
    let lineno = if line.kind == DiffLineKind::Deletion {
        line.old_lineno
    } else {
        line.new_lineno
    };
    DisplayView {
        kind: line.kind,
        lineno: match lineno {
            Some(n) => text::decimal(n as nat),
            None => seq![],
        },
        content: without_newlines(line.content),
        is_hunk_header: false,
    }
}

/// The display lines of a hunk: its header, then its lines.
pub open spec fn hunk_display(hunk: DiffHunk) -> Seq<DisplayView> {
    seq![
        DisplayView {
            kind: DiffLineKind::Context,
            lineno: seq![],
            content: header_text(hunk),
            is_hunk_header: true,
        },
    ] + diff_engine::line_views(hunk.lines@).map_values(
        |line: diff_engine::LineView| display_of(line),
    )
}

/// The display lines of all hunks.
pub open spec fn all_display(hunks: Seq<DiffHunk>) -> Seq<DisplayView>
    decreases hunks.len(),
{
    if hunks.len() == 0 {
        seq![]
    } else {
        all_display(hunks.drop_last()) + hunk_display(hunks.last())
    }
}

fn trim_newlines(s: &str) -> (r: String)
    ensures
        r@ == without_newlines(s@),
{
    let chars = text::to_chars(s);
    let mut n: usize = chars.len();
    assert(s@.take(n as int) =~= s@);
    while n > 0 && chars[n - 1] == '\n'
        invariant
            n <= chars@.len(),
            chars@ == s@,
            without_newlines(s@) == without_newlines(s@.take(n as int)),
        decreases n,
    {
        assert(s@.take(n as int).drop_last() =~= s@.take(n - 1));
        n -= 1;
    }
    assert(s@.take(n as int) =~= chars@.subrange(0, n as int));
    text::from_chars(&chars, 0, n)
}

fn hunk_header(hunk: &DiffHunk) -> (s: String)
    ensures
        s@ == header_text(*hunk),
{
    let mut s = "@@ -".to_owned();
    text::push_decimal(&mut s, hunk.old_start as u64);
    s.append(",");
    text::push_decimal(&mut s, hunk.old_count as u64);
    s.append(" +");
    text::push_decimal(&mut s, hunk.new_start as u64);
    s.append(",");
    text::push_decimal(&mut s, hunk.new_count as u64);
    s.append(" @@");
    s
}

/// The display lines of all hunks.
pub fn collect_lines(hunks: &Vec<DiffHunk>) -> (lines: Vec<DiffDisplayLine>)
    ensures
        display_views(lines@) == all_display(hunks@),
{
    let mut lines: Vec<DiffDisplayLine> = Vec::new();
    let mut h: usize = 0;
    assert(display_views(lines@) =~= seq![]);
    while h < hunks.len()
        invariant
            h <= hunks@.len(),
            display_views(lines@) == all_display(hunks@.take(h as int)),
        decreases hunks@.len() - h,
    {
        let hunk = &hunks[h];
        let ghost done = display_views(lines@);
        let ghost shown = hunk_display(*hunk);
        let header = DiffDisplayLine {
            kind: DiffLineKind::Context,
            lineno: String::new(),
            content: hunk_header(hunk),
            is_hunk_header: true,
        };
        assert(header@.lineno =~= seq![]);
        assert(shown.take(1) =~= seq![header@]);
        lines.push(header);
        assert(display_views(lines@) =~= done + shown.take(1));
        let mut i: usize = 0;
        while i < hunk.lines.len()
            invariant
                i <= hunk.lines@.len(),
                shown == hunk_display(*hunk),
                display_views(lines@) == done + shown.take(1 + i),
            decreases hunk.lines@.len() - i,
        {
            let line = &hunk.lines[i];
            let number = if line.kind == DiffLineKind::Deletion {
                line.old_lineno
            } else {
                line.new_lineno
            };
            let lineno = match number {
                Some(n) => text::decimal_text(n as u64),
                None => String::new(),
            };
            let display = DiffDisplayLine {
                kind: line.kind,
                lineno,
                content: trim_newlines(line.content.as_str()),
                is_hunk_header: false,
            };
            let ghost before = display_views(lines@);
            proof {
                assert(diff_engine::line_views(hunk.lines@)[i as int] == line@);
                if number is None {
                    assert(display@.lineno =~= seq![]);
                }
                assert(display@ == display_of(line@));
                assert(shown[1 + i] == display@);
                assert(shown.take(1 + i + 1) =~= shown.take(1 + i).push(display@));
            }
            lines.push(display);
            assert(display_views(lines@) =~= before.push(display@));
            i += 1;
        }
        assert(shown.take(1 + i) =~= shown);
        assert(hunks@.take(h + 1).drop_last() =~= hunks@.take(h as int));
        h += 1;
    }
    assert(hunks@.take(h as int) =~= hunks@);
    lines
}

/// What stands after the last dot of a path, or the whole path where it has none.
pub open spec fn extension(path: Seq<char>) -> Seq<char> {
    text::pieces(path, '.').last()
}

/// The language of a path, by its extension. A lock file is TOML where the path names Cargo.
pub open spec fn language_of(path: Seq<char>) -> Seq<char> {
    let e = extension(path);
    if e == "rs"@ {
        "rust"@
    } else if e == "ts"@ || e == "tsx"@ {
        "typescript"@
    } else if e == "js"@ || e == "jsx"@ || e == "mjs"@ || e == "cjs"@ {
        "javascript"@
    } else if e == "py"@ {
        "python"@
    } else if e == "go"@ {
        "go"@
    } else if e == "java"@ {
        "java"@
    } else if e == "c"@ || e == "h"@ {
        "c"@
    } else if e == "cc"@ || e == "cpp"@ || e == "cxx"@ || e == "hpp"@ || e == "hxx"@ {
        "cpp"@
    } else if e == "rb"@ {
        "ruby"@
    } else if e == "swift"@ {
        "swift"@
    } else if e == "scala"@ {
        "scala"@
    } else if e == "zig"@ {
        "zig"@
    } else if e == "sh"@ || e == "bash"@ || e == "zsh"@ {
        "bash"@
    } else if e == "html"@ || e == "htm"@ {
        "html"@
    } else if e == "css"@ || e == "scss"@ {
        "css"@
    } else if e == "json"@ {
        "json"@
    } else if e == "toml"@ {
        "toml"@
    } else if e == "yaml"@ || e == "yml"@ {
        "yaml"@
    } else if e == "md"@ || e == "markdown"@ {
        "markdown"@
    } else if e == "sql"@ {
        "sql"@
    } else if e == "graphql"@ || e == "gql"@ {
        "graphql"@
    } else if e == "proto"@ {
        "proto"@
    } else if e == "ex"@ || e == "exs"@ {
        "elixir"@
    } else if e == "cs"@ {
        "csharp"@
    } else if e == "cmake"@ {
        "cmake"@
    } else if e == "lock"@ && text::contains_text(path, "Cargo"@) {
        "toml"@
    } else {
        "text"@
    }
}

/// The language of a path.
pub fn language_from_path(path: &str) -> (language: &'static str)
    ensures
        language@ == language_of(path@),
{
    let parts = text::split(path, '.');
    proof {
        lemma_pieces_not_empty(path@, '.');
        assert(text::views(parts@).last() == parts@[parts@.len() - 1]@);
    }
    let e = parts[parts.len() - 1].as_str();
    if text::same_text(e, "rs") {
        "rust"
    } else if text::same_text(e, "ts") || text::same_text(e, "tsx") {
        "typescript"
    } else if text::same_text(e, "js") || text::same_text(e, "jsx") || text::same_text(e, "mjs")
        || text::same_text(e, "cjs") {
        "javascript"
    } else if text::same_text(e, "py") {
        "python"
    } else if text::same_text(e, "go") {
        "go"
    } else if text::same_text(e, "java") {
        "java"
    } else if text::same_text(e, "c") || text::same_text(e, "h") {
        "c"
    } else if text::same_text(e, "cc") || text::same_text(e, "cpp") || text::same_text(e, "cxx")
        || text::same_text(e, "hpp") || text::same_text(e, "hxx") {
        "cpp"
    } else if text::same_text(e, "rb") {
        "ruby"
    } else if text::same_text(e, "swift") {
        "swift"
    } else if text::same_text(e, "scala") {
        "scala"
    } else if text::same_text(e, "zig") {
        "zig"
    } else if text::same_text(e, "sh") || text::same_text(e, "bash") || text::same_text(e, "zsh") {
        "bash"
    } else if text::same_text(e, "html") || text::same_text(e, "htm") {
        "html"
    } else if text::same_text(e, "css") || text::same_text(e, "scss") {
        "css"
    } else if text::same_text(e, "json") {
        "json"
    } else if text::same_text(e, "toml") {
        "toml"
    } else if text::same_text(e, "yaml") || text::same_text(e, "yml") {
        "yaml"
    } else if text::same_text(e, "md") || text::same_text(e, "markdown") {
        "markdown"
    } else if text::same_text(e, "sql") {
        "sql"
    } else if text::same_text(e, "graphql") || text::same_text(e, "gql") {
        "graphql"
    } else if text::same_text(e, "proto") {
        "proto"
    } else if text::same_text(e, "ex") || text::same_text(e, "exs") {
        "elixir"
    } else if text::same_text(e, "cs") {
        "csharp"
    } else if text::same_text(e, "cmake") {
        "cmake"
    } else if text::same_text(e, "lock") && text::contains(path, "Cargo") {
        "toml"
    } else {
        "text"
    }
}

proof fn lemma_pieces_not_empty(s: Seq<char>, separator: char)
    ensures
        text::pieces(s, separator).len() > 0,
    decreases s.len(),
{
    if s.len() > 0 {
        lemma_pieces_not_empty(s.drop_last(), separator);
    }
}

/// The coloured spans of each line, or `None` for a line without any.
pub type HighlightCache = Vec<Option<Vec<StyledRange>>>;

/// Whether a display line is part of the text that is highlighted.
pub open spec fn is_source(line: DisplayView) -> bool {
    !line.is_hunk_header && line.content.len() > 0
}

/// The text that is highlighted: every source line with a line feed after it.
pub open spec fn source_text(lines: Seq<DisplayView>) -> Seq<char>
    decreases lines.len(),
{
    if lines.len() == 0 {
        seq![]
    } else {
        let before = source_text(lines.drop_last());
        if is_source(lines.last()) {
            before + lines.last().content + seq!['\n']
        } else {
            before
        }
    }
}

/// The part of a range that lies between bytes `a` and `b`, counted from `a`.
pub open spec fn clip(range: StyledRange, a: int, b: int) -> StyledRange {
    let start = if range.start > a {
        range.start as int
    } else {
        a
    };
    let end = if range.end < b {
        range.end as int
    } else {
        b
    };
    StyledRange { start: (start - a) as usize, end: (end - a) as usize, color: range.color }
}

/// The parts of the ranges that lie between bytes `a` and `b`, counted from `a`.
pub open spec fn clipped(ranges: Seq<StyledRange>, a: int, b: int) -> Seq<StyledRange>
    decreases ranges.len(),
{
    if ranges.len() == 0 {
        seq![]
    } else {
        let before = clipped(ranges.drop_last(), a, b);
        let range = ranges.last();
        if range.start < b && a < range.end && range.start < range.end && a < b {
            before.push(clip(range, a, b))
        } else {
            before
        }
    }
}

/// `spans` are the colours of line `i`: those of its bytes in the text that is highlighted.
pub open spec fn spans_of_line(
    spans: Option<Vec<StyledRange>>,
    lines: Seq<DisplayView>,
    i: int,
    ranges: Seq<StyledRange>,
) -> bool {
    let start = text::byte_len(source_text(lines.take(i))) as int;
    let cut = if is_source(lines[i]) {
        clipped(ranges, start, start + text::byte_len(lines[i].content))
    } else {
        seq![]
    };
    match spans {
        Some(v) => v@.len() > 0 && v@ == cut,
        None => cut.len() == 0,
    }
}

/// Where the ranges stand one after the other and are not empty, so do their clipped parts, and
/// they stay inside the line.
pub proof fn lemma_clipped_flat(ranges: Seq<StyledRange>, a: int, b: int)
    requires
        forall|i: int| 0 <= i < ranges.len() ==> (#[trigger] ranges[i]).start < ranges[i].end,
        forall|i: int, j: int|
            0 <= i < j < ranges.len() ==> (#[trigger] ranges[i]).end <= (#[trigger] ranges[j]).start,
        0 <= a <= b <= usize::MAX,
    ensures
        spans_in_order(clipped(ranges, a, b), b - a),
        forall|k: int|
            0 <= k < clipped(ranges, a, b).len() ==> exists|i: int|
                0 <= i < ranges.len() && (#[trigger] clipped(ranges, a, b)[k]).end + a
                    <= #[trigger] ranges[i].end,
    decreases ranges.len(),
{
    if ranges.len() > 0 {
        let rest = ranges.drop_last();
        assert forall|i: int| 0 <= i < rest.len() implies (#[trigger] rest[i]).start
            < rest[i].end by {
            assert(rest[i] == ranges[i]);
        }
        assert forall|i: int, j: int| 0 <= i < j < rest.len() implies (#[trigger] rest[i]).end <= (
        #[trigger] rest[j]).start by {
            assert(rest[i] == ranges[i]);
            assert(rest[j] == ranges[j]);
        }
        lemma_clipped_flat(rest, a, b);
        let before = clipped(rest, a, b);
        let now = clipped(ranges, a, b);
        assert forall|k: int| 0 <= k < now.len() implies exists|i: int|
            0 <= i < ranges.len() && (#[trigger] now[k]).end + a <= #[trigger] ranges[i].end by {
            if k < before.len() {
                let i = choose|i: int|
                    0 <= i < rest.len() && before[k].end + a <= #[trigger] rest[i].end;
                assert(now[k] == before[k]);
                assert(ranges[i] == rest[i]);
            } else {
                assert(ranges[ranges.len() - 1] == ranges.last());
            }
        }
        if now.len() > before.len() {
            let last = ranges.last();
            assert forall|k: int| 0 <= k < before.len() implies (#[trigger] before[k]).end
                <= now.last().start by {
                let i = choose|i: int|
                    0 <= i < rest.len() && before[k].end + a <= #[trigger] rest[i].end;
                assert(rest[i] == ranges[i]);
                assert(ranges[i].end <= ranges[ranges.len() - 1].start);
            }
        }
    }
}

/// The spans are not empty, stand one after the other, and end within `len` bytes.
pub open spec fn spans_in_order(spans: Seq<StyledRange>, len: int) -> bool {
    &&& forall|i: int|
        0 <= i < spans.len() ==> (#[trigger] spans[i]).start < spans[i].end && spans[i].end <= len
    &&& forall|i: int, j: int|
        0 <= i < j < spans.len() ==> (#[trigger] spans[i]).end <= (#[trigger] spans[j]).start
}

fn clip_ranges(ranges: &Vec<StyledRange>, a: usize, b: usize) -> (cut: Vec<StyledRange>)
    requires
        a <= b,
    ensures
        cut@ == clipped(ranges@, a as int, b as int),
{
    let mut cut: Vec<StyledRange> = Vec::new();
    let mut i: usize = 0;
    while i < ranges.len()
        invariant
            i <= ranges@.len(),
            a <= b,
            cut@ == clipped(ranges@.take(i as int), a as int, b as int),
        decreases ranges@.len() - i,
    {
        let range = ranges[i];
        assert(ranges@.take(i + 1).drop_last() =~= ranges@.take(i as int));
        if range.start < b && a < range.end {
            let start: usize = if range.start > a {
                range.start
            } else {
                a
            };
            let end: usize = if range.end < b {
                range.end
            } else {
                b
            };
            if start < end {
                cut.push(StyledRange { start: start - a, end: end - a, color: range.color });
            }
        }
        i += 1;
    }
    assert(ranges@.take(i as int) =~= ranges@);
    cut
}

/// The text that is highlighted.
pub fn collect_source(lines: &Vec<DiffDisplayLine>) -> (s: String)
    ensures
        s@ == source_text(display_views(lines@)),
{
    let ghost all = display_views(lines@);
    let mut s = String::new();
    let mut i: usize = 0;
    while i < lines.len()
        invariant
            i <= lines@.len(),
            all == display_views(lines@),
            s@ == source_text(all.take(i as int)),
        decreases lines@.len() - i,
    {
        let line = &lines[i];
        proof {
            assert(all.take(i + 1).drop_last() =~= all.take(i as int));
            assert(all.take(i + 1).last() == line@);
        }
        if !line.is_hunk_header && !empty(line.content.as_str()) {
            s.append(line.content.as_str());
            s.append("\n");
            proof {
                reveal_strlit("\n");
                assert("\n"@ =~= seq!['\n']);
            }
        }
        i += 1;
    }
    assert(all.take(i as int) =~= all);
    s
}

fn empty(s: &str) -> (r: bool)
    ensures
        r == (s@.len() == 0),
{
    proof {
        text::lemma_byte_len_at_least(s@);
        if s@.len() == 0 {
            assert(s@ =~= Seq::<char>::empty());
            text::lemma_byte_len_empty();
        }
    }
    text::byte_length(s) == 0
}

proof fn lemma_source_prefix(lines: Seq<DisplayView>, i: int)
    requires
        0 <= i < lines.len(),
    ensures
        text::byte_len(source_text(lines.take(i + 1))) == text::byte_len(
            source_text(lines.take(i)),
        ) + (if is_source(lines[i]) {
            text::byte_len(lines[i].content) + 1
        } else {
            0
        }),
        text::byte_len(source_text(lines.take(i + 1))) <= text::byte_len(source_text(lines)),
    decreases lines.len() - i,
{
    assert(lines.take(i + 1).drop_last() =~= lines.take(i));
    let before = source_text(lines.take(i));
    if is_source(lines[i]) {
        text::lemma_byte_len_concat(before, lines[i].content);
        let grown = before + lines[i].content;
        assert(grown + seq!['\n'] =~= grown.push('\n'));
        text::lemma_byte_len_push(grown, '\n');
    }
    if i + 1 < lines.len() {
        lemma_source_prefix(lines, i + 1);
    } else {
        assert(lines.take(i + 1) =~= lines);
    }
}

/// The spans of each line, from the colours of the whole text that is highlighted. `size` is
/// the length of that text.
pub fn line_spans(lines: &Vec<DiffDisplayLine>, ranges: &Vec<StyledRange>, size: usize) -> (cache:
    HighlightCache)
    requires
        size == text::byte_len(source_text(display_views(lines@))),
    ensures
        cache@.len() == lines@.len(),
        forall|i: int|
            0 <= i < lines@.len() ==> spans_of_line(
                #[trigger] cache@[i],
                display_views(lines@),
                i,
                ranges@,
            ),
{
    let ghost all = display_views(lines@);
    let mut cache: HighlightCache = Vec::new();
    let mut start: usize = 0;
    let mut i: usize = 0;
    assert(all.take(0) =~= seq![]);
    while i < lines.len()
        invariant
            i <= lines@.len(),
            all == display_views(lines@),
            size == text::byte_len(source_text(all)),
            start == text::byte_len(source_text(all.take(i as int))),
            cache@.len() == i,
            forall|k: int|
                0 <= k < i ==> spans_of_line(#[trigger] cache@[k], all, k, ranges@),
        decreases lines@.len() - i,
    {
        let line = &lines[i];
        proof {
            assert(all[i as int] == line@);
            lemma_source_prefix(all, i as int);
        }
        let mut spans: Option<Vec<StyledRange>> = None;
        if !line.is_hunk_header && !empty(line.content.as_str()) {
            let len: usize = text::byte_length(line.content.as_str());
            let cut = clip_ranges(ranges, start, start + len);
            if cut.len() > 0 {
                spans = Some(cut);
            }
            start = start + len + 1;
        }
        cache.push(spans);
        i += 1;
    }
    cache
}

/// `ranges` are the colours of a file's text by the file's language; plain text has none.
pub open spec fn colors_file(
    path: Seq<char>,
    source: Seq<char>,
    ranges: Seq<StyledRange>,
) -> bool {
    &&& highlighter::is_flat(ranges)
    &&& if language_of(path) == "text"@ {
        ranges.len() == 0
    } else {
        highlighter::highlights(language_of(path), source, ranges)
    }
}

/// The spans of each line of a file's diff, by the file's language.
pub fn compute_highlights(path: &str, hunks: &Vec<DiffHunk>) -> (cache: HighlightCache)
    ensures
        cache@.len() == all_display(hunks@).len(),
        exists|ranges: Seq<StyledRange>|
            #[trigger] colors_file(path@, source_text(all_display(hunks@)), ranges) && forall|i: int|
                0 <= i < cache@.len() ==> spans_of_line(
                    #[trigger] cache@[i],
                    all_display(hunks@),
                    i,
                    ranges,
                ),
        cache_fits(cache, all_display(hunks@)),
        cache_is_sound(Some(cache)),
{
    let language = language_from_path(path);
    let lines = collect_lines(hunks);
    assert(display_views(lines@).len() == lines@.len());
    let source = collect_source(&lines);
    let size: usize = text::byte_length(source.as_str());
    let ranges = if text::same_text(language, "text") {
        Vec::new()
    } else {
        highlighter::highlight(language, source.as_str())
    };
    assert(colors_file(path@, source_text(all_display(hunks@)), ranges@));
    let cache = line_spans(&lines, &ranges, size);
    proof {
        lemma_cache_fits(cache, all_display(hunks@), ranges@);
    }
    cache
}

/// The spans of every line are not empty, stand one after the other, and end within the line.
pub open spec fn cache_fits(cache: HighlightCache, lines: Seq<DisplayView>) -> bool {
    forall|i: int|
        0 <= i < cache@.len() ==> match #[trigger] cache@[i] {
            Some(spans) => spans_in_order(spans@, text::byte_len(lines[i].content) as int),
            None => true,
        }
}

proof fn lemma_cache_fits(
    cache: HighlightCache,
    lines: Seq<DisplayView>,
    ranges: Seq<StyledRange>,
)
    requires
        highlighter::is_flat(ranges),
        cache@.len() == lines.len(),
        text::byte_len(source_text(lines)) <= usize::MAX,
        forall|i: int|
            0 <= i < cache@.len() ==> spans_of_line(#[trigger] cache@[i], lines, i, ranges),
    ensures
        cache_fits(cache, lines),
        cache_is_sound(Some(cache)),
{
    assert forall|i: int| 0 <= i < cache@.len() implies match #[trigger] cache@[i] {
        Some(spans) => spans_in_order(spans@, text::byte_len(lines[i].content) as int),
        None => true,
    } by {
        if let Some(spans) = cache@[i] {
            lemma_source_prefix(lines, i);
            let start = text::byte_len(source_text(lines.take(i))) as int;
            lemma_clipped_flat(ranges, start, start + text::byte_len(lines[i].content));
        }
    }
    assert forall|i: int, k: int|
        0 <= k && (cached(Some(cache), i) matches Some(s) && k < s.len()) implies (
    #[trigger] cached(Some(cache), i)->0[k]).start <= cached(Some(cache), i)->0[k].end by {
        assert(cache@[i] is Some);
    }
}

/// A stretch of text of one colour; `None` is the line's own colour.
#[derive(Clone, Copy, Debug, PartialEq, Eq, Structural)]
pub struct ColorRun {
    pub len: usize,
    pub color: Option<HighlightColor>,
}

/// The runs for the spans, from byte `pos` on: what lies before a span has the line's colour.
pub open spec fn runs_from(spans: Seq<StyledRange>, pos: int, len: int) -> Seq<ColorRun>
    decreases spans.len(),
{
    if spans.len() == 0 {
        if pos < len {
            seq![ColorRun { len: (len - pos) as usize, color: None }]
        } else {
            seq![]
        }
    } else {
        let span = spans[0];
        let gap = if span.start > pos {
            seq![ColorRun { len: (span.start - pos) as usize, color: None }]
        } else {
            seq![]
        };
        gap + seq![ColorRun { len: (span.end - span.start) as usize, color: Some(span.color) }]
            + runs_from(spans.drop_first(), span.end as int, len)
    }
}

/// The bytes that the runs cover.
pub open spec fn total_len(runs: Seq<ColorRun>) -> int
    decreases runs.len(),
{
    if runs.len() == 0 {
        0
    } else {
        runs[0].len + total_len(runs.drop_first())
    }
}

proof fn lemma_total_concat(a: Seq<ColorRun>, b: Seq<ColorRun>)
    ensures
        total_len(a + b) == total_len(a) + total_len(b),
    decreases a.len(),
{
    if a.len() == 0 {
        assert(a + b =~= b);
    } else {
        assert((a + b).drop_first() =~= a.drop_first() + b);
        lemma_total_concat(a.drop_first(), b);
    }
}

/// The runs of spans that stand in order cover the rest of the line exactly.
pub proof fn law_runs_cover_line(spans: Seq<StyledRange>, pos: int, len: int)
    requires
        spans_in_order(spans, len),
        0 <= pos <= len <= usize::MAX,
        spans.len() > 0 ==> pos <= spans[0].start,
    ensures
        total_len(runs_from(spans, pos, len)) == len - pos,
    decreases spans.len(),
{
    if spans.len() == 0 {
        if pos < len {
            let rest = seq![ColorRun { len: (len - pos) as usize, color: None }];
            assert(rest.drop_first() =~= seq![]);
            assert(total_len(rest.drop_first()) == 0);
        }
    } else {
        let span = spans[0];
        let gap = if span.start > pos {
            seq![ColorRun { len: (span.start - pos) as usize, color: None }]
        } else {
            seq![]
        };
        let run = seq![ColorRun { len: (span.end - span.start) as usize, color: Some(span.color) }];
        let tail = spans.drop_first();
        assert forall|i: int| 0 <= i < tail.len() implies (#[trigger] tail[i]).start < tail[i].end
            && tail[i].end <= len by {
            assert(tail[i] == spans[i + 1]);
        }
        assert forall|i: int, j: int| 0 <= i < j < tail.len() implies (#[trigger] tail[i]).end <= (
        #[trigger] tail[j]).start by {
            assert(tail[i] == spans[i + 1]);
            assert(tail[j] == spans[j + 1]);
        }
        if tail.len() > 0 {
            assert(tail[0] == spans[1]);
        }
        law_runs_cover_line(tail, span.end as int, len);
        lemma_total_concat(gap + run, runs_from(tail, span.end as int, len));
        lemma_total_concat(gap, run);
        assert(run.drop_first() =~= seq![]);
        assert(total_len(run.drop_first()) == 0);
        if gap.len() > 0 {
            assert(gap.drop_first() =~= seq![]);
            assert(total_len(gap.drop_first()) == 0);
        }
    }
}

/// The runs of a line of `len` bytes.
pub fn highlight_to_runs(len: usize, spans: &Vec<StyledRange>) -> (runs: Vec<ColorRun>)
    requires
        forall|i: int| 0 <= i < spans@.len() ==> (#[trigger] spans@[i]).start <= spans@[i].end,
    ensures
        runs@ == runs_from(spans@, 0, len as int),
{
    let mut runs: Vec<ColorRun> = Vec::new();
    let mut pos: usize = 0;
    let mut i: usize = 0;
    assert(spans@.skip(0) =~= spans@);
    while i < spans.len()
        invariant
            i <= spans@.len(),
            forall|i: int|
                0 <= i < spans@.len() ==> (#[trigger] spans@[i]).start <= spans@[i].end,
            runs_from(spans@, 0, len as int) == runs@ + runs_from(
                spans@.skip(i as int),
                pos as int,
                len as int,
            ),
        decreases spans@.len() - i,
    {
        let span = spans[i];
        let ghost before = runs@;
        proof {
            assert(spans@.skip(i as int)[0] == span);
            assert(spans@.skip(i as int).drop_first() =~= spans@.skip(i + 1));
        }
        if span.start > pos {
            runs.push(ColorRun { len: span.start - pos, color: None });
        }
        runs.push(ColorRun { len: span.end - span.start, color: Some(span.color) });
        pos = span.end;
        i += 1;
        assert(runs_from(spans@, 0, len as int) =~= runs@ + runs_from(
            spans@.skip(i as int),
            pos as int,
            len as int,
        ));
    }
    if pos < len {
        runs.push(ColorRun { len: len - pos, color: None });
    }
    assert(runs@ =~= runs_from(spans@, 0, len as int));
    runs
}

/// A selection in the lines of a diff, with the place of its context menu where one is open.
#[derive(Clone, Copy, Debug)]
pub struct SelectionInner<P> {
    pub selecting: bool,
    pub anchor_line: usize,
    pub anchor_col: usize,
    pub end_line: usize,
    pub end_col: usize,
    pub context_menu: Option<P>,
}

/// Which edges of its surroundings the mouse is near while it selects.
#[derive(Clone, Copy, Debug)]
pub struct NearEdges {
    pub left: bool,
    pub right: bool,
    /// Whether the lines are wider than what is seen of them.
    pub wider: bool,
    /// Whether the diff stands in a list that scrolls.
    pub in_list: bool,
    pub top: bool,
    pub bottom: bool,
}

/// A step of scrolling.
#[derive(Clone, Copy, Debug, PartialEq, Eq, Structural)]
pub enum Nudge {
    Stay,
    /// To the left or up.
    Back,
    /// To the right or down.
    Forward,
}

/// What a move of the mouse does while it selects.
#[derive(Clone, Copy, Debug, PartialEq, Eq, Structural)]
pub struct DragStep {
    /// How the diff scrolls.
    pub across: Nudge,
    /// How the list scrolls.
    pub along: Nudge,
    /// Whether anything is to be painted anew.
    pub changed: bool,
}

/// How a diff scrolls with the mouse at its edges.
pub open spec fn across(near: NearEdges) -> Nudge {
    if near.right && near.wider {
        Nudge::Forward
    } else if near.left {
        Nudge::Back
    } else {
        Nudge::Stay
    }
}

/// How the list around a diff scrolls with the mouse at its edges.
pub open spec fn along(near: NearEdges) -> Nudge {
    if !near.in_list {
        Nudge::Stay
    } else if near.top {
        Nudge::Back
    } else if near.bottom {
        Nudge::Forward
    } else {
        Nudge::Stay
    }
}

/// Whether place `(l1, c1)` comes before `(l2, c2)` or is the same.
pub open spec fn at_or_before(l1: int, c1: int, l2: int, c2: int) -> bool {
    l1 < l2 || (l1 == l2 && c1 <= c2)
}

impl<P> SelectionInner<P> {
    /// An empty selection.
    pub fn new() -> (s: Self)
        ensures
            s == (SelectionInner::<P> {
                selecting: false,
                anchor_line: 0,
                anchor_col: 0,
                end_line: 0,
                end_col: 0,
                context_menu: None,
            }),
    {
        SelectionInner {
            selecting: false,
            anchor_line: 0,
            anchor_col: 0,
            end_line: 0,
            end_col: 0,
            context_menu: None,
        }
    }

    pub open spec fn is_something(self) -> bool {
        self.anchor_line != self.end_line || self.anchor_col != self.end_col
    }

    /// The two ends of the selection, the earlier one first.
    pub open spec fn in_order(self) -> (usize, usize, usize, usize) {
        if at_or_before(
            self.anchor_line as int,
            self.anchor_col as int,
            self.end_line as int,
            self.end_col as int,
        ) {
            (self.anchor_line, self.anchor_col, self.end_line, self.end_col)
        } else {
            (self.end_line, self.end_col, self.anchor_line, self.anchor_col)
        }
    }

    /// Whether a place lies between the two ends, both of them counted in.
    pub open spec fn spans(self, line: usize, col: usize) -> bool {
        let (sl, sc, el, ec) = self.in_order();
        at_or_before(sl as int, sc as int, line as int, col as int) && at_or_before(
            line as int,
            col as int,
            el as int,
            ec as int,
        )
    }

    pub fn has_selection(&self) -> (r: bool)
        ensures
            r == self.is_something(),
    {
        self.anchor_line != self.end_line || self.anchor_col != self.end_col
    }

    pub fn ordered(&self) -> (r: (usize, usize, usize, usize))
        ensures
            r == self.in_order(),
            at_or_before(r.0 as int, r.1 as int, r.2 as int, r.3 as int),
    {
        if self.anchor_line < self.end_line || (self.anchor_line == self.end_line
            && self.anchor_col <= self.end_col) {
            (self.anchor_line, self.anchor_col, self.end_line, self.end_col)
        } else {
            (self.end_line, self.end_col, self.anchor_line, self.anchor_col)
        }
    }

    /// A press at a place starts a new selection there.
    pub fn begin(&mut self, line: usize, col: usize)
        ensures
            *final(self) == (SelectionInner::<P> {
                selecting: true,
                anchor_line: line,
                anchor_col: col,
                end_line: line,
                end_col: col,
                context_menu: old(self).context_menu,
            }),
    {
        self.selecting = true;
        self.anchor_line = line;
        self.anchor_col = col;
        self.end_line = line;
        self.end_col = col;
    }

    /// A press of the mouse starts a selection where it is the left button, over the diff, and
    /// above its scrollbar. Tells whether it does.
    pub fn mouse_down(
        &mut self,
        left_button: bool,
        over: bool,
        above_bar: bool,
        line: usize,
        col: usize,
    ) -> (started: bool)
        ensures
            started == (left_button && over && above_bar),
            *final(self) == (if started {
                SelectionInner::<P> {
                    selecting: true,
                    anchor_line: line,
                    anchor_col: col,
                    end_line: line,
                    end_col: col,
                    context_menu: old(self).context_menu,
                }
            } else {
                *old(self)
            }),
    {
        if left_button && over && above_bar {
            self.begin(line, col);
            true
        } else {
            false
        }
    }

    /// A move of the mouse takes the end of a selection along and scrolls at the edges.
    pub fn mouse_move(&mut self, line: usize, col: usize, near: NearEdges) -> (step: DragStep)
        ensures
            !old(self).selecting ==> *final(self) == *old(self) && step == (DragStep {
                across: Nudge::Stay,
                along: Nudge::Stay,
                changed: false,
            }),
            old(self).selecting ==> {
                &&& *final(self) == (SelectionInner::<P> {
                    end_line: line,
                    end_col: col,
                    ..*old(self)
                })
                &&& step.across == across(near)
                &&& step.along == along(near)
                &&& step.changed == (line != old(self).end_line || col != old(self).end_col
                    || step.across != Nudge::Stay || step.along != Nudge::Stay)
            },
    {
        if !self.selecting {
            return DragStep { across: Nudge::Stay, along: Nudge::Stay, changed: false };
        }
        let mut changed = self.extend(line, col);
        let mut across = Nudge::Stay;
        if near.right && near.wider {
            across = Nudge::Forward;
            changed = true;
        } else if near.left {
            across = Nudge::Back;
            changed = true;
        }
        let mut along = Nudge::Stay;
        if near.in_list {
            if near.top {
                along = Nudge::Back;
                changed = true;
            } else if near.bottom {
                along = Nudge::Forward;
                changed = true;
            }
        }
        DragStep { across, along, changed }
    }

    /// A move while selecting takes the end along. Returns whether it moved.
    pub fn extend(&mut self, line: usize, col: usize) -> (changed: bool)
        ensures
            changed == (old(self).selecting && (line != old(self).end_line || col != old(self).end_col)),
            changed ==> *final(self) == (SelectionInner::<P> {
                end_line: line,
                end_col: col,
                ..*old(self)
            }),
            !changed ==> *final(self) == *old(self),
    {
        if !self.selecting {
            return false;
        }
        if line != self.end_line || col != self.end_col {
            self.end_line = line;
            self.end_col = col;
            return true;
        }
        false
    }

    /// A release ends the selecting.
    pub fn finish(&mut self)
        ensures
            *final(self) == (SelectionInner::<P> { selecting: false, ..*old(self) }),
    {
        self.selecting = false;
    }

    /// A right click opens the menu inside a selection, and clears it elsewhere. Returns whether
    /// anything was done: without a selection nothing is.
    pub fn right_click(&mut self, line: usize, col: usize, place: P) -> (handled: bool)
        ensures
            handled == old(self).is_something(),
            !handled ==> *final(self) == *old(self),
            handled && old(self).spans(line, col) ==> *final(self) == (SelectionInner::<P> {
                context_menu: Some(place),
                ..*old(self)
            }),
            handled && !old(self).spans(line, col) ==> *final(self) == (SelectionInner::<P> {
                selecting: old(self).selecting,
                anchor_line: 0,
                anchor_col: 0,
                end_line: 0,
                end_col: 0,
                context_menu: None,
            }),
    {
        if !self.has_selection() {
            return false;
        }
        let (sl, sc, el, ec) = self.ordered();
        let inside = if sl == el {
            line == sl && col >= sc && col <= ec
        } else {
            (line == sl && col >= sc) || (line == el && col <= ec) || (line > sl && line < el)
        };
        if inside {
            self.context_menu = Some(place);
        } else {
            self.anchor_line = 0;
            self.anchor_col = 0;
            self.end_line = 0;
            self.end_col = 0;
            self.context_menu = None;
        }
        true
    }

    /// Closes the context menu.
    pub fn close_menu(&mut self)
        ensures
            *final(self) == (SelectionInner::<P> { context_menu: None, ..*old(self) }),
    {
        self.context_menu = None;
    }
}

/// The smaller of two numbers.
pub open spec fn least(a: int, b: int) -> int {
    if a < b {
        a
    } else {
        b
    }
}

/// The columns that a selection from `(sl, sc)` to `(el, ec)` covers on line `i` of `len` columns.
pub open spec fn columns(
    order: (usize, usize, usize, usize),
    i: int,
    len: int,
) -> (int, int) {
    let (sl, sc, el, ec) = order;
    if sl == el {
        (sc as int, ec as int)
    } else if i == sl {
        (sc as int, len)
    } else if i == el {
        (0, ec as int)
    } else {
        (0, len)
    }
}

/// The columns of line `i` to paint as selected. Where the second does not lie after the first,
/// the line is painted to its right edge.
pub fn highlight_columns<P>(sel: &SelectionInner<P>, i: usize, len: usize) -> (r: (usize, usize))
    ensures
        (r.0 as int, r.1 as int) == columns(sel.in_order(), i as int, len as int),
{
    let (sl, sc, el, ec) = sel.ordered();
    if sl == el {
        (sc, ec)
    } else if i == sl {
        (sc, len)
    } else if i == el {
        (0, ec)
    } else {
        (0, len)
    }
}

/// The lines to paint as selected: from the first, up to but without the second.
pub fn highlight_lines<P>(sel: &SelectionInner<P>, line_count: usize) -> (r: (usize, usize))
    requires
        line_count < usize::MAX,
    ensures
        sel.is_something() ==> r.0 == sel.in_order().0 && r.1 == least(
            sel.in_order().2 as int,
            if line_count == 0 {
                0
            } else {
                line_count - 1
            },
        ) + 1,
        !sel.is_something() ==> r == (0usize, 0usize),
{
    if !sel.has_selection() {
        return (0, 0);
    }
    let (sl, _, el, _) = sel.ordered();
    let last: usize = if line_count == 0 {
        0
    } else {
        line_count - 1
    };
    (
        sl,
        if el < last {
            el + 1
        } else {
            last + 1
        },
    )
}

/// What line `i` gives to the selected text: headers nothing, the first and the last line their
/// part of it, and every line but the last a line feed.
pub open spec fn selected_part(
    order: (usize, usize, usize, usize),
    line: DisplayView,
    i: int,
) -> Seq<char> {
    let (sl, sc, el, ec) = order;
    let n = line.content.len() as int;
    if line.is_hunk_header {
        seq![]
    } else if sl == el {
        line.content.subrange(least(sc as int, n), least(ec as int, n))
    } else if i == sl {
        line.content.skip(least(sc as int, n)) + seq!['\n']
    } else if i == el {
        line.content.take(least(ec as int, n))
    } else {
        line.content + seq!['\n']
    }
}

/// The selected text of lines `from..to`.
pub open spec fn selected_text(
    order: (usize, usize, usize, usize),
    lines: Seq<DisplayView>,
    from: int,
    to: int,
) -> Seq<char>
    decreases to - from,
{
    if to <= from {
        seq![]
    } else {
        selected_text(order, lines, from, to - 1) + selected_part(order, lines[to - 1], to - 1)
    }
}

/// The selected text of a diff.
pub open spec fn selection_of<P>(sel: SelectionInner<P>, lines: Seq<DisplayView>) -> Seq<char> {
    selected_text(
        sel.in_order(),
        lines,
        sel.in_order().0 as int,
        least(sel.in_order().2 + 1, lines.len() as int),
    )
}

/// The selected text, to be put on the clipboard. Columns count characters.
pub fn copy_selection<P>(sel: &SelectionInner<P>, lines: &Vec<DiffDisplayLine>) -> (s: String)
    requires
        lines@.len() > 0 || sel.in_order().0 > 0,
    ensures
        s@ == selection_of(*sel, display_views(lines@)),
{
    let (sl, sc, el, ec) = sel.ordered();
    let ghost order = sel.in_order();
    let ghost all = display_views(lines@);
    let count: usize = lines.len();
    let to: usize = if el < count {
        el + 1
    } else {
        count
    };
    let mut s = String::new();
    let mut i: usize = sl;
    while i < to
        invariant
            sl <= i,
            i <= to || s@.len() == 0 && i == sl,
            to <= count == lines@.len(),
            order == (sl, sc, el, ec),
            at_or_before(sl as int, sc as int, el as int, ec as int),
            all == display_views(lines@),
            s@ == selected_text(order, all, sl as int, i as int),
        decreases to - i,
    {
        let line = &lines[i];
        let ghost before = s@;
        assert(all[i as int] == line@);
        if !line.is_hunk_header {
            let chars = text::to_chars(line.content.as_str());
            let n: usize = chars.len();
            let first: usize = if sc < n {
                sc
            } else {
                n
            };
            let last: usize = if ec < n {
                ec
            } else {
                n
            };
            if sl == el {
                let part = text::from_chars(&chars, first, last);
                s.append(part.as_str());
            } else if i == sl {
                let part = text::from_chars(&chars, first, n);
                s.append(part.as_str());
                s.push('\n');
                assert(chars@.skip(first as int) =~= chars@.subrange(first as int, n as int));
                assert(s@ =~= before + (chars@.skip(first as int) + seq!['\n']));
            } else if i == el {
                let part = text::from_chars(&chars, 0, last);
                s.append(part.as_str());
                assert(chars@.take(last as int) =~= chars@.subrange(0, last as int));
            } else {
                s.append(line.content.as_str());
                s.push('\n');
                assert(s@ =~= before + (chars@ + seq!['\n']));
            }
        } else {
            assert(s@ =~= before + selected_part(order, line@, i as int));
        }
        i += 1;
    }
    s
}

/// The characters of a line, in their order, whose columns are chosen.
pub open spec fn characters_where(line: Seq<char>, chosen: spec_fn(int) -> bool) -> Seq<char> {
    Seq::new(line.len(), |c: int| c).filter_map(
        |c: int|
            if chosen(c) {
                Some(line[c])
            } else {
                None
            },
    )
}

proof fn lemma_characters_between(line: Seq<char>, lo: int, hi: int, n: int, chosen: spec_fn(int) -> bool)
    requires
        0 <= lo <= hi,
        0 <= n <= line.len(),
        forall|c: int| 0 <= c < n ==> #[trigger] chosen(c) == (lo <= c < hi),
    ensures
        Seq::new(n as nat, |c: int| c).filter_map(
            |c: int|
                if chosen(c) {
                    Some(line[c])
                } else {
                    None
                },
        ) == line.subrange(least(lo, n), least(hi, n)),
    decreases n,
{
    let all = Seq::new(n as nat, |c: int| c);
    if n > 0 {
        let rest = Seq::new((n - 1) as nat, |c: int| c);
        assert(all.drop_last() =~= rest);
        lemma_characters_between(line, lo, hi, n - 1, chosen);
        assert(chosen(n - 1) == (lo <= n - 1 < hi));
        if lo <= n - 1 < hi {
            assert(line.subrange(lo, n - 1) + seq![line[n - 1]] =~= line.subrange(lo, n));
        } else {
            assert(line.subrange(least(lo, n - 1), least(hi, n - 1)) =~= line.subrange(
                least(lo, n),
                least(hi, n),
            ));
        }
    } else {
        assert(line.subrange(least(lo, n), least(hi, n)) =~= seq![]);
    }
}

/// Whether the place `(i, c)` lies between the two ends of a selection, whichever comes first.
pub open spec fn is_between<P>(sel: SelectionInner<P>, i: int, c: int) -> bool {
    let anchor_first = sel.anchor_line < i || (sel.anchor_line == i && sel.anchor_col <= c);
    let end_first = sel.end_line < i || (sel.end_line == i && sel.end_col <= c);
    anchor_first != end_first
}

/// What line `i` of a diff gives to a copy: a header nothing, every other line the characters
/// between the ends of the selection, and a line feed where the selection goes on below it.
pub open spec fn copied_from<P>(sel: SelectionInner<P>, line: DisplayView, i: int) -> Seq<char> {
    if line.is_hunk_header {
        seq![]
    } else {
        characters_where(line.content, |c: int| is_between(sel, i, c)) + if (sel.anchor_line <= i)
            != (sel.end_line <= i) {
            seq!['\n']
        } else {
            seq![]
        }
    }
}

proof fn lemma_copied_from<P>(sel: SelectionInner<P>, line: DisplayView, i: int)
    requires
        0 <= i,
    ensures
        copied_from(sel, line, i) == (if sel.in_order().0 <= i <= sel.in_order().2 {
            selected_part(sel.in_order(), line, i)
        } else {
            seq![]
        }),
{
    let (sl, sc, el, ec) = sel.in_order();
    let n = line.content.len() as int;
    let inside = |c: int| is_between(sel, i, c);
    let (lo, hi) = if sl == el && i == sl {
        (sc as int, ec as int)
    } else if i == sl {
        (sc as int, if sc < n { n } else { sc as int })
    } else if i == el {
        (0, ec as int)
    } else if sl < i < el {
        (0, n)
    } else {
        (0, 0)
    };
    assert forall|c: int| 0 <= c < n implies #[trigger] inside(c) == (lo <= c < hi) by {}
    lemma_characters_between(line.content, lo, hi, n, inside);
    let part = line.content.subrange(least(lo, n), least(hi, n));
    assert(characters_where(line.content, inside) == part);
    let empty: Seq<char> = seq![];
    assert(part + empty =~= part);
    if i < sl || el < i {
        assert(part =~= empty);
    } else if !line.is_hunk_header {
        if sl < el && i == sl {
            assert(part =~= line.content.skip(least(sc as int, n)));
        } else if sl < el && i == el {
            assert(part =~= line.content.take(least(ec as int, n)));
        } else if sl < el {
            assert(part =~= line.content);
        }
    }
}

proof fn lemma_copied_up_to<P>(sel: SelectionInner<P>, lines: Seq<DisplayView>, n: int)
    requires
        0 <= n <= lines.len(),
    ensures
        Seq::new(n as nat, |i: int| copied_from(sel, lines[i], i)).flatten_alt() == selected_text(
            sel.in_order(),
            lines,
            sel.in_order().0 as int,
            least(sel.in_order().2 + 1, n),
        ),
    decreases n,
{
    let (sl, sc, el, ec) = sel.in_order();
    let parts = Seq::new(n as nat, |i: int| copied_from(sel, lines[i], i));
    if n > 0 {
        let rest = Seq::new((n - 1) as nat, |i: int| copied_from(sel, lines[i], i));
        assert(parts.drop_last() =~= rest);
        lemma_copied_up_to(sel, lines, n - 1);
        lemma_copied_from(sel, lines[n - 1], n - 1);
        let empty: Seq<char> = seq![];
        assert(rest.flatten_alt() + empty =~= rest.flatten_alt());
    }
}

/// The copied text is made of the lines in their order. Of each that is no header it holds the
/// characters that lie between the two ends of the selection and no others, and a line feed where
/// the selection goes on below the line. Which of the two ends comes first makes no difference.
pub proof fn law_copy_is_what_lies_between<P>(
    sel: SelectionInner<P>,
    turned: SelectionInner<P>,
    lines: Seq<DisplayView>,
)
    requires
        (turned.anchor_line, turned.anchor_col) == (sel.end_line, sel.end_col),
        (turned.end_line, turned.end_col) == (sel.anchor_line, sel.anchor_col),
    ensures
        selection_of(sel, lines) == Seq::new(
            lines.len(),
            |i: int| copied_from(sel, lines[i], i),
        ).flatten_alt(),
        selection_of(turned, lines) == selection_of(sel, lines),
{
    lemma_copied_up_to(sel, lines, lines.len() as int);
}

/// Within one line that is no header the copy runs from the smaller to the larger of the two
/// columns, both cut to the line, so its length is their difference.
pub proof fn law_copy_within_a_line<P>(sel: SelectionInner<P>, lines: Seq<DisplayView>)
    requires
        sel.anchor_line == sel.end_line,
        sel.anchor_line < lines.len(),
        !lines[sel.anchor_line as int].is_hunk_header,
    ensures
        ({
            let line = lines[sel.anchor_line as int].content;
            let a = if sel.anchor_col < line.len() {
                sel.anchor_col as int
            } else {
                line.len() as int
            };
            let b = if sel.end_col < line.len() {
                sel.end_col as int
            } else {
                line.len() as int
            };
            let copy = selection_of(sel, lines);
            &&& copy == (if a <= b {
                line.subrange(a, b)
            } else {
                line.subrange(b, a)
            })
            &&& copy.len() == (if a <= b {
                b - a
            } else {
                a - b
            })
        }),
{
    let (sl, sc, el, ec) = sel.in_order();
    assert(selected_text(sel.in_order(), lines, sl as int, sl as int) =~= seq![]);
    let part = selected_part(sel.in_order(), lines[sl as int], sl as int);
    let empty: Seq<char> = seq![];
    assert(empty + part =~= part);
}

/// The text and background colours of a line.
pub open spec fn colors_of(line: DisplayView) -> (ColorRole, Option<ColorRole>) {
    if line.is_hunk_header {
        (ColorRole::DiffHunkHeader, Some(ColorRole::BgElevated))
    } else {
        match line.kind {
            DiffLineKind::Context => (ColorRole::TextMuted, None),
            DiffLineKind::Addition => (ColorRole::DiffAddText, Some(ColorRole::DiffAddBg)),
            DiffLineKind::Deletion => (ColorRole::DiffDelText, Some(ColorRole::DiffDelBg)),
        }
    }
}

/// How a line of a diff is painted.
#[derive(Debug)]
pub struct LinePaint {
    /// The line number, where it has one.
    pub gutter: Option<String>,
    /// The text, where it has any.
    pub text: Option<String>,
    pub text_color: ColorRole,
    pub background: Option<ColorRole>,
    /// The stretches of the text; those without a colour have that of the line.
    pub runs: Vec<ColorRun>,
    /// The columns to paint as selected.
    pub selected: Option<(usize, usize)>,
}

/// A text, where it is not empty.
pub open spec fn some_text(s: Seq<char>) -> Option<Seq<char>> {
    if s.len() > 0 {
        Some(s)
    } else {
        None
    }
}

/// The runs of a line: by its colours where it has any, else one for all of it.
pub open spec fn runs_of(content: Seq<char>, spans: Option<Seq<StyledRange>>) -> Seq<ColorRun> {
    let len = text::byte_len(content) as int;
    if content.len() == 0 {
        seq![]
    } else {
        match spans {
            Some(s) => runs_from(s, 0, len),
            None => seq![ColorRun { len: len as usize, color: None }],
        }
    }
}

/// The columns to paint as selected on line `i` of a diff of `count` lines.
pub open spec fn selected_on<P>(
    sel: SelectionInner<P>,
    i: int,
    count: int,
    content: Seq<char>,
) -> Option<(int, int)> {
    let (sl, _, el, _) = sel.in_order();
    if sel.is_something() && sl <= i <= el && i < count {
        Some(columns(sel.in_order(), i, text::byte_len(content) as int))
    } else {
        None
    }
}

/// The spans that a cache holds for a line.
pub open spec fn cached(cache: Option<HighlightCache>, i: int) -> Option<Seq<StyledRange>> {
    match cache {
        Some(c) => if 0 <= i < c@.len() {
            match c@[i] {
                Some(spans) => Some(spans@),
                None => None,
            }
        } else {
            None
        },
        None => None,
    }
}

/// `paint` is how line `i` is painted.
pub open spec fn paints<P>(
    paint: LinePaint,
    lines: Seq<DisplayView>,
    i: int,
    spans: Option<Seq<StyledRange>>,
    sel: SelectionInner<P>,
) -> bool {
    let line = lines[i];
    &&& text::optional_text(paint.gutter) == some_text(line.lineno)
    &&& text::optional_text(paint.text) == some_text(line.content)
    &&& (paint.text_color, paint.background) == colors_of(line)
    &&& paint.runs@ == runs_of(line.content, spans)
    &&& match paint.selected {
        Some((a, b)) => selected_on(sel, i, lines.len() as int, line.content) == Some(
            (a as int, b as int),
        ),
        None => selected_on(sel, i, lines.len() as int, line.content) is None,
    }
}

/// No span of a cache ends before it starts.
pub open spec fn cache_is_sound(cache: Option<HighlightCache>) -> bool {
    forall|i: int, k: int|
        0 <= k && (cached(cache, i) matches Some(s) && k < s.len()) ==> (
        #[trigger] cached(cache, i)->0[k]).start <= cached(cache, i)->0[k].end
}

fn shown(s: &str) -> (r: Option<String>)
    ensures
        text::optional_text(r) == some_text(s@),
{
    if empty(s) {
        None
    } else {
        Some(s.to_owned())
    }
}

/// How the lines of a diff are painted, with the colours of their texts where those are known, and
/// with a selection.
pub fn paint_lines<P>(
    lines: &Vec<DiffDisplayLine>,
    cache: &Option<HighlightCache>,
    sel: &SelectionInner<P>,
) -> (paints_: Vec<LinePaint>)
    requires
        cache_is_sound(*cache),
    ensures
        paints_@.len() == lines@.len(),
        forall|i: int|
            0 <= i < paints_@.len() ==> paints(
                #[trigger] paints_@[i],
                display_views(lines@),
                i,
                cached(*cache, i),
                *sel,
            ),
{
    let ghost all = display_views(lines@);
    let (first, _, last, _) = sel.ordered();
    let something = sel.has_selection();
    let mut out: Vec<LinePaint> = Vec::new();
    let mut i: usize = 0;
    while i < lines.len()
        invariant
            i <= lines@.len(),
            all == display_views(lines@),
            cache_is_sound(*cache),
            first == sel.in_order().0,
            last == sel.in_order().2,
            something == sel.is_something(),
            out@.len() == i,
            forall|j: int|
                0 <= j < i ==> paints(#[trigger] out@[j], all, j, cached(*cache, j), *sel),
        decreases lines@.len() - i,
    {
        let line = &lines[i];
        assert(all[i as int] == line@);
        let len: usize = text::byte_length(line.content.as_str());
        let (text_color, background) = line_colors(line);
        let mut runs: Vec<ColorRun> = Vec::new();
        if !empty(line.content.as_str()) {
            let mut plain = true;
            if let Some(c) = cache {
                if i < c.len() {
                    if let Some(spans) = &c[i] {
                        assert(cached(*cache, i as int) == Some(spans@));
                        assert forall|k: int| 0 <= k < spans@.len() implies (
                        #[trigger] spans@[k]).start <= spans@[k].end by {
                            assert(cached(*cache, i as int)->0[k] == spans@[k]);
                        }
                        runs = highlight_to_runs(len, spans);
                        plain = false;
                    }
                }
            }
            if plain {
                runs.push(ColorRun { len, color: None });
            }
        }
        assert(runs@ =~= runs_of(line.content@, cached(*cache, i as int)));
        let selected = if something && first <= i && i <= last {
            Some(highlight_columns(sel, i, len))
        } else {
            None
        };
        out.push(
            LinePaint {
                gutter: shown(line.lineno.as_str()),
                text: shown(line.content.as_str()),
                text_color,
                background,
                runs,
                selected,
            },
        );
        i += 1;
    }
    out
}

/// The runs that a line is painted with cover its text exactly.
pub proof fn law_painted_line_is_covered<P>(
    paint: LinePaint,
    lines: Seq<DisplayView>,
    i: int,
    cache: Option<HighlightCache>,
    sel: SelectionInner<P>,
)
    requires
        0 <= i < lines.len(),
        text::byte_len(lines[i].content) <= usize::MAX,
        paints(paint, lines, i, cached(cache, i), sel),
        cache matches Some(c) ==> cache_fits(c, lines),
    ensures
        total_len(paint.runs@) == text::byte_len(lines[i].content),
{
    let content = lines[i].content;
    let len = text::byte_len(content) as int;
    if content.len() == 0 {
        assert(content =~= Seq::<char>::empty());
        text::lemma_byte_len_empty();
    } else {
        match cached(cache, i) {
            Some(spans) => law_runs_cover_line(spans, 0, len),
            None => {
                assert(paint.runs@.drop_first() =~= seq![]);
                assert(total_len(paint.runs@.drop_first()) == 0);
            },
        }
    }
}

/// The text and background colours of a line.
pub fn line_colors(line: &DiffDisplayLine) -> (r: (ColorRole, Option<ColorRole>))
    ensures
        r == colors_of(line@),
{
    if line.is_hunk_header {
        (ColorRole::DiffHunkHeader, Some(ColorRole::BgElevated))
    } else {
        match line.kind {
            DiffLineKind::Context => (ColorRole::TextMuted, None),
            DiffLineKind::Addition => (ColorRole::DiffAddText, Some(ColorRole::DiffAddBg)),
            DiffLineKind::Deletion => (ColorRole::DiffDelText, Some(ColorRole::DiffDelBg)),
        }
    }
}

/// What a file section shows under its header.
#[derive(Clone, Copy, Debug, PartialEq, Eq, Structural)]
pub enum SectionBody {
    Nothing,
    BinaryNote,
    Lines { count: usize },
}

/// What a file section shows under its header: nothing while it is closed or not computed, a
/// note for a binary file, else its lines where it has any.
pub fn section_body(
    expanded: bool,
    diff: &Option<FileDiff>,
    lines: &Option<Vec<DiffDisplayLine>>,
) -> (body: SectionBody)
    ensures
        body == (match (expanded, *diff, *lines) {
            (true, Some(d), Some(l)) => if d.is_binary {
                SectionBody::BinaryNote
            } else if l@.len() > 0 {
                SectionBody::Lines { count: l@.len() as usize }
            } else {
                SectionBody::Nothing
            },
            _ => SectionBody::Nothing,
        }),
{
    if !expanded {
        return SectionBody::Nothing;
    }
    match (diff, lines) {
        (Some(d), Some(l)) => if d.is_binary {
            SectionBody::BinaryNote
        } else if l.len() > 0 {
            SectionBody::Lines { count: l.len() }
        } else {
            SectionBody::Nothing
        },
        _ => SectionBody::Nothing,
    }
}

/// The header of a file section.
#[derive(Debug)]
pub struct HeaderView {
    pub chevron: &'static str,
    pub filename: String,
    pub dir: Option<String>,
    pub name_color: ColorRole,
    pub new_badge: bool,
    pub added: Option<String>,
    pub removed: Option<String>,
}

/// A count behind its sign, or nothing for none.
pub open spec fn count_label(sign: char, n: usize) -> Option<Seq<char>> {
    if n > 0 {
        Some(seq![sign] + text::decimal(n as nat))
    } else {
        None
    }
}

/// A count behind its sign, or nothing for none.
pub fn signed_count(sign: char, n: usize) -> (r: Option<String>)
    ensures
        text::optional_text(r) == count_label(sign, n),
{
    if n > 0 {
        let mut s = String::new();
        s.push(sign);
        text::push_decimal(&mut s, n as u64);
        assert(s@ =~= seq![sign] + text::decimal(n as nat));
        Some(s)
    } else {
        None
    }
}

/// A path is its directory, a slash, and a name without a slash; or a name alone.
pub open spec fn splits_path(
    path: Seq<char>,
    dir: Option<Seq<char>>,
    filename: Seq<char>,
) -> bool {
    &&& !filename.contains('/')
    &&& match dir {
        Some(d) => path == d + seq!['/'] + filename,
        None => path == filename,
    }
}

/// Splits a path at its last slash.
pub fn split_path(path: &str) -> (r: (Option<String>, String))
    ensures
        splits_path(path@, text::optional_text(r.0), r.1@),
{
    let chars = text::to_chars(path);
    let n: usize = chars.len();
    let mut i: usize = n;
    while i > 0 && chars[i - 1] != '/'
        invariant
            i <= n == chars@.len(),
            chars@ == path@,
            forall|j: int| i <= j < n ==> chars@[j] != '/',
        decreases i,
    {
        i -= 1;
    }
    let filename = text::from_chars(&chars, i, n);
    if i > 0 {
        let dir = text::from_chars(&chars, 0, i - 1);
        assert(path@ =~= dir@ + seq!['/'] + filename@);
        (Some(dir), filename)
    } else {
        assert(path@ =~= filename@);
        (None, filename)
    }
}

/// The header of a file section.
pub fn header_view(
    path: &str,
    status: FileStatus,
    stats: &DiffStats,
    expanded: bool,
) -> (h: HeaderView)
    ensures
        h.chevron@ == (if expanded {
            "icons/files/chevron-down.svg"@
        } else {
            "icons/files/chevron-right.svg"@
        }),
        splits_path(path@, text::optional_text(h.dir), h.filename@),
        h.name_color == (if status == FileStatus::Deleted {
            ColorRole::TextGhost
        } else {
            ColorRole::TextSecondary
        }),
        h.new_badge == (status == FileStatus::Added),
        text::optional_text(h.added) == count_label('+', stats.additions),
        text::optional_text(h.removed) == count_label('-', stats.deletions),
{
    let (dir, filename) = split_path(path);
    HeaderView {
        chevron: if expanded {
            "icons/files/chevron-down.svg"
        } else {
            "icons/files/chevron-right.svg"
        },
        filename,
        dir,
        name_color: if status == FileStatus::Deleted {
            ColorRole::TextGhost
        } else {
            ColorRole::TextSecondary
        },
        new_badge: status == FileStatus::Added,
        added: signed_count('+', stats.additions),
        removed: signed_count('-', stats.deletions),
    }
}

/// Under its header a hunk shows each of its lines once, in their order: with the kind it has, with
/// its text up to the line feeds at the end, and with its number in the new version, or in the old
/// one where the line was deleted.
pub proof fn law_hunk_shows_its_lines(hunk: DiffHunk, k: int)
    requires
        0 <= k < hunk.lines@.len(),
    ensures
        ({
            let shown = hunk_display(hunk);
            let line = hunk.lines@[k];
            let display = shown[k + 1];
            &&& shown.len() == hunk.lines@.len() + 1
            &&& shown[0].is_hunk_header
            &&& !display.is_hunk_header
            &&& display.kind == line.kind
            &&& line.kind == DiffLineKind::Deletion ==> display.lineno == (match line.old_lineno {
                Some(n) => text::decimal(n as nat),
                None => Seq::empty(),
            })
            &&& line.kind != DiffLineKind::Deletion ==> display.lineno == (match line.new_lineno {
                Some(n) => text::decimal(n as nat),
                None => Seq::empty(),
            })
            &&& display.content.len() <= line.content@.len()
            &&& line.content@.take(display.content.len() as int) == display.content
            &&& forall|i: int|
                display.content.len() <= i < line.content@.len() ==> #[trigger] line.content@[i]
                    == '\n'
            &&& display.content.len() > 0 ==> display.content.last() != '\n'
        }),
{
    assert(diff_engine::line_views(hunk.lines@)[k] == hunk.lines@[k]@);
    lemma_without_newlines(hunk.lines@[k].content@);
}

proof fn lemma_without_newlines(s: Seq<char>)
    ensures
        without_newlines(s).len() <= s.len(),
        s.take(without_newlines(s).len() as int) == without_newlines(s),
        forall|i: int| without_newlines(s).len() <= i < s.len() ==> #[trigger] s[i] == '\n',
        without_newlines(s).len() > 0 ==> without_newlines(s).last() != '\n',
    decreases s.len(),
{
    if s.len() > 0 && s.last() == '\n' {
        let rest = s.drop_last();
        lemma_without_newlines(rest);
        assert(s.take(without_newlines(s).len() as int) =~= rest.take(
            without_newlines(s).len() as int,
        ));
        assert forall|i: int| without_newlines(s).len() <= i < s.len() implies #[trigger] s[i]
            == '\n' by {
            if i < rest.len() {
                assert(rest[i] == s[i]);
            }
        }
    } else {
        assert(s.take(s.len() as int) =~= s);
    }
}

/// The lines of a diff are those of its hunks, hunk after hunk.
pub proof fn law_display_goes_hunk_by_hunk(hunks: Seq<DiffHunk>)
    ensures
        all_display(hunks) == hunks.map_values(|h: DiffHunk| hunk_display(h)).flatten_alt(),
    decreases hunks.len(),
{
    let parts = hunks.map_values(|h: DiffHunk| hunk_display(h));
    if hunks.len() > 0 {
        law_display_goes_hunk_by_hunk(hunks.drop_last());
        assert(parts.drop_last() =~= hunks.drop_last().map_values(|h: DiffHunk| hunk_display(h)));
    }
}

/// What is painted as selected is what lies between the two ends: on a line of the selection, a
/// column of the text is painted exactly where a copy would take it, and on other lines nothing is
/// painted.
pub proof fn law_painted_selection_is_what_lies_between<P>(
    sel: SelectionInner<P>,
    i: int,
    count: int,
    content: Seq<char>,
    c: int,
)
    requires
        0 <= i < count,
        0 <= c < text::byte_len(content),
    ensures
        ({
            let painted = selected_on(sel, i, count, content);
            &&& is_between(sel, i, c) <==> (painted matches Some((a, b)) && a <= c < b)
            &&& painted is Some ==> (sel.anchor_line <= i <= sel.end_line || sel.end_line <= i
                <= sel.anchor_line)
        }),
{
}

/// The menu opens at either end of a selection and at every place between, and nowhere else.
pub proof fn law_menu_opens_on_the_selection<P>(sel: SelectionInner<P>, line: usize, col: usize)
    ensures
        sel.spans(line, col) <==> is_between(sel, line as int, col as int) || (line, col) == (
            sel.anchor_line,
            sel.anchor_col,
        ) || (line, col) == (sel.end_line, sel.end_col),
{
}

/// The colour that the runs give to a byte of a line.
pub open spec fn color_at(runs: Seq<ColorRun>, at: int) -> Option<HighlightColor>
    decreases runs.len(),
{
    if runs.len() == 0 {
        None
    } else if at < runs[0].len {
        runs[0].color
    } else {
        color_at(runs.drop_first(), at - runs[0].len)
    }
}

proof fn lemma_color_concat(a: Seq<ColorRun>, b: Seq<ColorRun>, at: int)
    requires
        0 <= at,
    ensures
        color_at(a + b, at) == (if at < total_len(a) {
            color_at(a, at)
        } else {
            color_at(b, at - total_len(a))
        }),
        0 <= total_len(a),
    decreases a.len(),
{
    if a.len() == 0 {
        assert(a + b =~= b);
    } else {
        assert((a + b).drop_first() =~= a.drop_first() + b);
        if at >= a[0].len {
            lemma_color_concat(a.drop_first(), b, at - a[0].len);
        } else {
            lemma_color_concat(a.drop_first(), b, 0);
        }
    }
}

proof fn lemma_color_from(spans: Seq<StyledRange>, pos: int, len: int, at: int)
    requires
        spans_in_order(spans, len),
        0 <= pos <= at < len <= usize::MAX,
        spans.len() > 0 ==> pos <= spans[0].start,
    ensures
        forall|i: int|
            0 <= i < spans.len() && (#[trigger] spans[i]).start <= at < spans[i].end ==> color_at(
                runs_from(spans, pos, len),
                at - pos,
            ) == Some(spans[i].color),
        (forall|i: int|
            0 <= i < spans.len() ==> !((#[trigger] spans[i]).start <= at < spans[i].end))
            ==> color_at(runs_from(spans, pos, len), at - pos) is None,
    decreases spans.len(),
{
    reveal_with_fuel(total_len, 3);
    reveal_with_fuel(color_at, 3);
    if spans.len() > 0 {
        let span = spans[0];
        let gap = if span.start > pos {
            seq![ColorRun { len: (span.start - pos) as usize, color: None }]
        } else {
            seq![]
        };
        let own = seq![
            ColorRun { len: (span.end - span.start) as usize, color: Some(span.color) },
        ];
        let rest = spans.drop_first();
        let tail = runs_from(rest, span.end as int, len);
        assert(gap.drop_first() =~= Seq::<ColorRun>::empty() || gap.len() == 0);
        assert(own.drop_first() =~= Seq::<ColorRun>::empty());
        lemma_color_concat(gap + own, tail, at - pos);
        lemma_color_concat(gap, own, at - pos);
        lemma_total_concat(gap, own);
        assert(total_len(own) == span.end - span.start);
        assert(total_len(gap) == span.start - pos);
        assert forall|i: int, j: int| 0 <= i < j < rest.len() implies (#[trigger] rest[i]).end <= (
        #[trigger] rest[j]).start by {
            assert(rest[i] == spans[i + 1]);
            assert(rest[j] == spans[j + 1]);
        }
        assert forall|i: int| 0 <= i < rest.len() implies (#[trigger] rest[i]).start < rest[i].end
            && rest[i].end <= len by {
            assert(rest[i] == spans[i + 1]);
        }
        if rest.len() > 0 {
            assert(rest[0] == spans[1]);
        }
        if at >= span.end {
            lemma_color_from(rest, span.end as int, len, at);
        }
        assert forall|i: int|
            0 <= i < spans.len() && (#[trigger] spans[i]).start <= at < spans[i].end implies color_at(
            runs_from(spans, pos, len),
            at - pos,
        ) == Some(spans[i].color) by {
            if i > 0 {
                assert(spans[0].end <= spans[i].start);
                assert(rest[i - 1] == spans[i]);
            }
        }
        if forall|i: int|
            0 <= i < spans.len() ==> !((#[trigger] spans[i]).start <= at < spans[i].end) {
            assert(!(spans[0].start <= at < spans[0].end));
            assert forall|i: int| 0 <= i < rest.len() implies !((#[trigger] rest[i]).start <= at
                < rest[i].end) by {
                assert(rest[i] == spans[i + 1]);
            }
        }
    }
}

/// A byte of a line that lies in one of its spans is painted in the colour of that span, and one
/// that lies in none in the colour of the line.
pub proof fn law_painted_colour_is_that_of_the_span(
    content: Seq<char>,
    spans: Seq<StyledRange>,
    at: int,
)
    requires
        spans_in_order(spans, text::byte_len(content) as int),
        text::byte_len(content) <= usize::MAX,
        content.len() > 0,
        0 <= at < text::byte_len(content),
    ensures
        forall|i: int|
            0 <= i < spans.len() && (#[trigger] spans[i]).start <= at < spans[i].end ==> color_at(
                runs_of(content, Some(spans)),
                at,
            ) == Some(spans[i].color),
        (forall|i: int|
            0 <= i < spans.len() ==> !((#[trigger] spans[i]).start <= at < spans[i].end))
            ==> color_at(runs_of(content, Some(spans)), at) is None,
        color_at(runs_of(content, None), at) is None,
{
    lemma_color_from(spans, 0, text::byte_len(content) as int, at);
}

/// A line that is cut out of the coloured text keeps the colours of its bytes: a byte has a colour
/// there exactly where it has that colour in the whole text.
pub proof fn law_line_keeps_its_colours(
    ranges: Seq<StyledRange>,
    a: int,
    b: int,
    at: int,
    color: HighlightColor,
)
    requires
        0 <= a <= at < b <= usize::MAX,
    ensures
        (exists|k: int|
            0 <= k < clipped(ranges, a, b).len() && (#[trigger] clipped(ranges, a, b)[k]).start
                <= at - a < clipped(ranges, a, b)[k].end && clipped(ranges, a, b)[k].color == color)
            <==> (exists|i: int|
            0 <= i < ranges.len() && (#[trigger] ranges[i]).start <= at < ranges[i].end
                && ranges[i].color == color),
    decreases ranges.len(),
{
    let cut = clipped(ranges, a, b);
    if ranges.len() > 0 {
        let rest = ranges.drop_last();
        let before = clipped(rest, a, b);
        let last = ranges[ranges.len() - 1];
        law_line_keeps_its_colours(rest, a, b, at, color);
        if exists|i: int|
            0 <= i < ranges.len() && (#[trigger] ranges[i]).start <= at < ranges[i].end
                && ranges[i].color == color {
            let i = choose|i: int|
                0 <= i < ranges.len() && (#[trigger] ranges[i]).start <= at < ranges[i].end
                    && ranges[i].color == color;
            if i < rest.len() {
                assert(rest[i] == ranges[i]);
                let k = choose|k: int|
                    0 <= k < before.len() && (#[trigger] before[k]).start <= at - a < before[k].end
                        && before[k].color == color;
                assert(cut[k] == before[k]);
            } else {
                assert(cut[cut.len() - 1] == clip(last, a, b));
            }
        }
        if exists|k: int|
            0 <= k < cut.len() && (#[trigger] cut[k]).start <= at - a < cut[k].end && cut[k].color
                == color {
            let k = choose|k: int|
                0 <= k < cut.len() && (#[trigger] cut[k]).start <= at - a < cut[k].end
                    && cut[k].color == color;
            if k < before.len() {
                assert(before[k] == cut[k]);
                let i = choose|i: int|
                    0 <= i < rest.len() && (#[trigger] rest[i]).start <= at < rest[i].end
                        && rest[i].color == color;
                assert(ranges[i] == rest[i]);
            } else {
                assert(ranges[ranges.len() - 1] == last);
            }
        }
    }
}

/// A count shows exactly where it is not none, behind its sign.
pub proof fn law_counts_show_their_sign(sign: char, n: usize)
    ensures
        count_label(sign, n) is None <==> n == 0,
        count_label(sign, n) matches Some(s) ==> s[0] == sign && s.drop_first() == text::decimal(
            n as nat,
        ),
{
    if n > 0 {
        let s = count_label(sign, n)->0;
        assert(s.drop_first() =~= text::decimal(n as nat));
    }
}

/// The extension is what stands behind the last dot of a path, and the language goes by it: two
/// paths of the same extension are of the same language, but for lock files.
pub proof fn law_language_goes_by_the_extension(
    before: Seq<char>,
    e: Seq<char>,
    other: Seq<char>,
)
    requires
        !e.contains('.'),
    ensures
        extension(before.push('.') + e) == e,
        extension(e) == e,
        e != "lock"@ && extension(other) == e ==> language_of(other) == language_of(
            before.push('.') + e,
        ),
{
    text::law_whole_text_is_a_piece(e, '.');
    text::law_pieces_part_at_separators(before, '.', e);
}

/// A file of plain text has no colours, and a file of a known language those of that language,
/// none of which overlap.
pub proof fn law_colours_go_by_the_language(
    path: Seq<char>,
    source: Seq<char>,
    ranges: Seq<StyledRange>,
    i: int,
    j: int,
)
    requires
        colors_file(path, source, ranges),
        0 <= i < j < ranges.len(),
    ensures
        language_of(path) != "text"@,
        highlighter::highlights(language_of(path), source, ranges),
        ranges[i].end <= ranges[j].start,
        ranges[i].start < ranges[i].end,
{
}

/// A diff scrolls on only at its right edge and only where it is wider than its place, and back at
/// its left edge else; the list around it scrolls only where the mouse is over it, back at its top
/// and on at its bottom.
pub proof fn law_edges_scroll(near: NearEdges)
    ensures
        across(near) is Forward <==> near.right && near.wider,
        across(near) is Back <==> near.left && !(near.right && near.wider),
        along(near) is Back <==> near.in_list && near.top,
        along(near) is Forward <==> near.in_list && near.bottom && !near.top,
{
}

/// The name of a file is what stands behind the last slash of its path, and the rest is its
/// directory: a path can be split in one way only.
pub proof fn law_path_splits_at_its_last_slash(
    path: Seq<char>,
    dir: Option<Seq<char>>,
    filename: Seq<char>,
)
    requires
        splits_path(path, dir, filename),
    ensures
        filename == text::pieces(path, '/').last(),
        dir is None <==> !path.contains('/'),
        dir matches Some(d) ==> path.len() == d.len() + 1 + filename.len() && path.take(
            d.len() as int,
        ) == d,
{
    text::law_whole_text_is_a_piece(filename, '/');
    if let Some(d) = dir {
        assert(path =~= d.push('/') + filename);
        text::law_pieces_part_at_separators(d, '/', filename);
        assert(path[d.len() as int] == '/');
        assert(path.take(d.len() as int) =~= d);
    }
}

/// A line shows its number beside it where it has one, and its text where it has any.
pub proof fn law_painted_line_shows_its_text<P>(
    paint: LinePaint,
    lines: Seq<DisplayView>,
    i: int,
    spans: Option<Seq<StyledRange>>,
    sel: SelectionInner<P>,
)
    requires
        paints(paint, lines, i, spans, sel),
    ensures
        paint.gutter is None <==> lines[i].lineno.len() == 0,
        paint.gutter matches Some(s) ==> s@ == lines[i].lineno,
        paint.text is None <==> lines[i].content.len() == 0,
        paint.text matches Some(s) ==> s@ == lines[i].content,
        lines[i].content.len() == 0 ==> paint.runs@.len() == 0,
{
}

/// Added lines look added and removed ones removed, whatever stands in them; a kept line has no
/// background, and a header looks like none of the lines.
pub proof fn law_kinds_look_different(a: DisplayView, b: DisplayView)
    ensures
        !a.is_hunk_header && !b.is_hunk_header ==> (colors_of(a) == colors_of(b) <==> a.kind
            == b.kind),
        a.is_hunk_header && !b.is_hunk_header ==> colors_of(a) != colors_of(b),
        a.is_hunk_header && b.is_hunk_header ==> colors_of(a) == colors_of(b),
        !a.is_hunk_header ==> (colors_of(a).1 is None <==> a.kind == DiffLineKind::Context),
        !a.is_hunk_header && a.kind == DiffLineKind::Addition ==> colors_of(a).1 == Some(
            ColorRole::DiffAddBg,
        ),
        !a.is_hunk_header && a.kind == DiffLineKind::Deletion ==> colors_of(a).1 == Some(
            ColorRole::DiffDelBg,
        ),
{
}

} // verus!
