use superhq::review::diff_engine::{
    compute_file_diff, compute_file_stats, count_changes, diff_of_groups, few_different_lines, hunk_of,
    is_binary, plan_copy, CopyRefusal, DiffLineKind, DiffStats, LineOp, OpTag,
};
use superhq::review::diff_view::{
    collect_lines, compute_highlights, copy_selection, header_view, highlight_columns,
    highlight_lines, highlight_to_runs, language_from_path, line_colors, paint_lines, section_body,
    split_path, ColorRun, NearEdges, Nudge, SectionBody, SelectionInner,
};
use superhq::review::changes_tab::FileStatus;
use superhq::theme::ColorRole;
use superhq::review::file_row::{FileRowView, RowJob, RowOutcome};
use superhq::review::diff_service::DiffService;
use superhq::review::highlighter::{
    get_language, highlight, merge_styles, style_for_capture, Grammar, HighlightColor, StyledRange,
};

#[test]
fn zero_byte_makes_data_binary() {
    assert!(is_binary(&[1, 0, 2]));
    assert!(!is_binary(b"text"));
    let mut late = vec![b'a'; 8192];
    late.push(0);
    assert!(!is_binary(&late));
    late[8191] = 0;
    assert!(is_binary(&late));
}

#[test]
fn diff_shows_a_changed_line_with_context() {
    let old = b"one\ntwo\nthree\nfour\n";
    let new = b"one\n2\nthree\nfour\nfive\n";
    let diff = compute_file_diff(old, new);
    assert!(!diff.is_binary);
    assert_eq!((diff.additions, diff.deletions), (2, 1));
    let (stats, binary) = compute_file_stats(old, new);
    assert!(!binary);
    assert_eq!((stats.additions, stats.deletions), (2, 1));
    let lines: Vec<_> = diff.hunks.iter().flat_map(|h| h.lines.iter()).collect();
    assert!(lines.iter().any(|l| l.kind == DiffLineKind::Deletion
        && l.content == "two\n"
        && l.old_lineno == Some(2)
        && l.new_lineno.is_none()));
    assert!(lines.iter().any(|l| l.kind == DiffLineKind::Addition
        && l.content == "five\n"
        && l.new_lineno == Some(5)));
}

#[test]
fn single_hunk_header_counts_both_sides() {
    let diff = compute_file_diff(b"a\nb\nc\nd\ne\n", b"a\nb\nX\nd\ne\n");
    assert_eq!(diff.hunks.len(), 1);
    let hunk = &diff.hunks[0];
    assert_eq!((hunk.old_start, hunk.old_count, hunk.new_start, hunk.new_count), (2, 3, 2, 3));
    let shown = collect_lines(&diff.hunks);
    assert_eq!(shown[0].content, "@@ -2,3 +2,3 @@");
    assert!(shown[0].is_hunk_header);
    assert_eq!(shown[1].content, "b");
    assert_eq!(shown[1].lineno, "2");
    assert_eq!(shown[2].content, "c");
    assert_eq!(shown[2].lineno, "3");
    assert_eq!(shown[2].kind, DiffLineKind::Deletion);
    assert_eq!(shown[3].content, "X");
    assert_eq!(shown[3].kind, DiffLineKind::Addition);
    assert_eq!(shown.len(), 5);
}

#[test]
fn equal_versions_have_an_empty_diff() {
    assert!(compute_file_diff(b"same\n", b"same\n").is_empty());
    assert!(compute_file_diff(b"", b"").is_empty());
    assert!(!compute_file_diff(b"", b"x").is_empty());
    assert!(!compute_file_diff(&[0], b"x").is_empty());
    let (stats, binary) = compute_file_stats(&[0], b"x");
    assert!(binary);
    assert_eq!((stats.additions, stats.deletions), (0, 0));
}

fn op(tag: OpTag, old: std::ops::Range<usize>, new: std::ops::Range<usize>) -> LineOp {
    LineOp { tag, old_start: old.start, old_end: old.end, new_start: new.start, new_end: new.end }
}

/// The old text with the new side of each hunk in place of the hunk's old lines.
fn patch(old: &str, new: &str) -> String {
    let diff = compute_file_diff(old.as_bytes(), new.as_bytes());
    assert_eq!(diff.hunks.is_empty(), old == new);
    let lines: Vec<&str> = old.split_inclusive('\n').collect();
    let mut out = String::new();
    let mut next = 0;
    let (mut additions, mut deletions) = (0, 0);
    for hunk in &diff.hunks {
        out.push_str(&lines[next..hunk.old_start - 1].concat());
        let (mut old_line, mut new_line) = (hunk.old_start, hunk.new_start);
        for line in &hunk.lines {
            if line.kind != DiffLineKind::Addition {
                assert_eq!(line.old_lineno, Some(old_line));
                assert_eq!(line.content, lines[old_line - 1]);
                old_line += 1;
            }
            if line.kind != DiffLineKind::Deletion {
                assert_eq!(line.new_lineno, Some(new_line));
                new_line += 1;
                out.push_str(&line.content);
            }
        }
        additions += hunk.lines.iter().filter(|l| l.kind == DiffLineKind::Addition).count();
        deletions += hunk.lines.iter().filter(|l| l.kind == DiffLineKind::Deletion).count();
        for (k, line) in hunk.lines.iter().enumerate() {
            let changes = |k: usize| {
                hunk.lines.get(k).is_some_and(|l| l.kind != DiffLineKind::Context)
            };
            assert!(
                line.kind != DiffLineKind::Context
                    || changes(k + 1)
                    || k.checked_sub(1).is_some_and(|k| changes(k))
            );
        }
        assert!(next == 0 || next < hunk.old_start - 1);
        assert_eq!(old_line - hunk.old_start, hunk.old_count);
        assert_eq!(new_line - hunk.new_start, hunk.new_count);
        next = hunk.old_start - 1 + hunk.old_count;
    }
    assert_eq!((diff.additions, diff.deletions), (additions, deletions));
    out.push_str(&lines[next..].concat());
    out
}

#[test]
fn hunks_turn_the_old_text_into_the_new_one() {
    let texts = [
        "",
        "a\n",
        "a\nb\nc\nd\ne\nf\ng\n",
        "a\nX\nc\nd\ne\nY\ng\n",
        "c\nd\n",
        "z\na\nb\nc\nd\ne\nf\ng\nz",
        "g\nf\ne\nd\nc\nb\na\n",
    ];
    for old in texts {
        for new in texts {
            assert_eq!(patch(old, new), new);
        }
    }
    let long: String = (0..150).map(|n| format!("line {}\n", n)).collect();
    let changed = long.replace("line 20\n", "").replace("line 90\n", "x\ny\n");
    assert_eq!(patch(&long, &changed), changed);
    assert_eq!(patch(&changed, &long), long);
}

#[test]
fn given_groups_are_shown_as_hunks() {
    let old: Vec<String> = ["a\n", "b\n", "c\n"].iter().map(|s| s.to_string()).collect();
    let new: Vec<String> = ["a\n", "X\n", "Y\n", "c\n"].iter().map(|s| s.to_string()).collect();
    let group = vec![
        op(OpTag::Equal, 0..1, 0..1),
        op(OpTag::Replace, 1..2, 1..3),
        op(OpTag::Equal, 2..3, 3..4),
    ];
    let (hunk, added, removed) = hunk_of(&group, &old, &new);
    assert_eq!((added, removed), (2, 1));
    assert_eq!((hunk.old_start, hunk.old_count, hunk.new_start, hunk.new_count), (1, 3, 1, 4));
    let shown: Vec<_> = hunk
        .lines
        .iter()
        .map(|l| (l.kind, l.old_lineno, l.new_lineno, l.content.as_str()))
        .collect();
    assert_eq!(
        shown,
        vec![
            (DiffLineKind::Context, Some(1), Some(1), "a\n"),
            (DiffLineKind::Deletion, Some(2), None, "b\n"),
            (DiffLineKind::Addition, None, Some(2), "X\n"),
            (DiffLineKind::Addition, None, Some(3), "Y\n"),
            (DiffLineKind::Context, Some(3), Some(4), "c\n"),
        ]
    );
    let stats = count_changes(&group);
    assert_eq!((stats.additions, stats.deletions), (2, 1));

    let groups = vec![vec![op(OpTag::Delete, 0..1, 0..0)], vec![op(OpTag::Insert, 3..3, 1..2)]];
    let diff = diff_of_groups(&groups, &old, &new);
    assert!(!diff.is_binary);
    assert_eq!((diff.additions, diff.deletions, diff.hunks.len()), (1, 1, 2));
    assert_eq!((diff.hunks[0].old_start, diff.hunks[0].new_start), (1, 1));
    assert_eq!(diff.hunks[1].lines[0].content, "X\n");
    assert_eq!((diff.hunks[1].old_start, diff.hunks[1].new_start), (1, 2));
    let (empty, _, _) = hunk_of(&vec![], &old, &new);
    assert_eq!((empty.old_start, empty.new_start, empty.lines.len()), (0, 0, 0));
}

#[test]
fn versions_of_few_different_lines_can_be_diffed() {
    assert!(few_different_lines(b"a\n", b"b\n"));
    assert!(few_different_lines(&[0], b"b\n"));
    let service = DiffService::new(1, None);
    let diff = service.try_compute_diff(None, Some(b"x\n".to_vec())).unwrap();
    assert_eq!((diff.additions, diff.deletions), (1, 0));
    let (stats, binary) = service.try_compute_stats(Some(b"x\n".to_vec()), None).unwrap();
    assert_eq!((stats.additions, stats.deletions, binary), (0, 1, false));
}

#[test]
fn invalid_bytes_are_shown_replaced() {
    let diff = compute_file_diff(b"", &[0xff, b'\n']);
    assert_eq!(diff.hunks[0].lines[0].content, "\u{fffd}\n");
}

#[test]
fn line_breaks_of_any_kind_split_lines() {
    let diff = compute_file_diff(b"", b"a\r\nb\rc\nd");
    assert_eq!(diff.additions, 4);
    let contents: Vec<&str> = diff.hunks[0].lines.iter().map(|l| l.content.as_str()).collect();
    assert_eq!(contents, vec!["a\r\n", "b\r", "c\n", "d"]);
}

#[test]
fn copying_refuses_climbing_and_git_paths() {
    assert_eq!(plan_copy("a/../b", "/h").unwrap_err(), CopyRefusal::Traversal);
    assert_eq!(plan_copy("a..b", "/h").unwrap_err().message(), "path contains '..'");
    assert_eq!(plan_copy(".git", "/h").unwrap_err(), CopyRefusal::GitInternals);
    assert_eq!(plan_copy(".git/config", "/h").unwrap_err().message(), "refusing to write to .git");
    let plan = plan_copy(".gitignore", "/h").unwrap();
    assert_eq!(plan.host_path, "/h/.gitignore");
    assert_eq!(plan.sandbox_path, "/workspace/.gitignore");
}

#[test]
fn languages_follow_extensions() {
    assert_eq!(language_from_path("src/main.rs"), "rust");
    assert_eq!(language_from_path("a.b.tsx"), "typescript");
    assert_eq!(language_from_path("Cargo.lock"), "toml");
    assert_eq!(language_from_path("yarn.lock"), "text");
    assert_eq!(language_from_path("Makefile"), "text");
    assert_eq!(language_from_path("rs"), "rust");
    assert_eq!(get_language("rust"), Some(Grammar::Rust));
    assert_eq!(get_language("graphql"), None);
    assert_eq!(style_for_capture("keyword"), Some(HighlightColor::Blue));
    assert_eq!(style_for_capture("variant"), Some(HighlightColor::Cyan));
    assert_eq!(style_for_capture("nothing"), None);
}

#[test]
fn later_styles_win_where_they_overlap() {
    let s = |start, end, color| StyledRange { start, end, color };
    let merged = merge_styles(
        0,
        20,
        &vec![
            s(0, 10, HighlightColor::Blue),
            s(3, 5, HighlightColor::Red),
            s(10, 12, HighlightColor::Blue),
        ],
    );
    assert_eq!(
        merged,
        vec![
            s(0, 3, HighlightColor::Blue),
            s(3, 5, HighlightColor::Red),
            s(5, 12, HighlightColor::Blue),
        ]
    );
    assert!(merge_styles(0, 3, &vec![]).is_empty());
}

#[test]
fn rust_source_is_coloured() {
    let ranges = highlight("rust", "fn main() {}\n");
    assert_eq!(ranges[0], StyledRange { start: 0, end: 2, color: HighlightColor::Blue });
    assert!(highlight("text", "fn main() {}\n").is_empty());
}

#[test]
fn every_grammar_loads() {
    let samples = [
        ("rust", "// c\n"),
        ("javascript", "// c\n"),
        ("typescript", "// c\nconst x: number = 1;\n"),
        ("python", "# c\n"),
        ("go", "// c\n"),
        ("java", "// c\n"),
        ("c", "// c\n"),
        ("cpp", "// c\n"),
        ("ruby", "# c\n"),
        ("scala", "// c\n"),
        ("bash", "# c\n"),
        ("html", "<a></a>\n"),
        ("css", "/* c */\n"),
        ("json", "{\"a\": 1}\n"),
        ("toml", "# c\n"),
        ("yaml", "# c\n"),
        ("elixir", "# c\n"),
    ];
    for (name, source) in samples {
        let ranges = highlight(name, source);
        println!("{name}: {ranges:?}");
        assert!(get_language(name).is_some());
        for pair in ranges.windows(2) {
            assert!(pair[0].end <= pair[1].start);
        }
    }
    assert!(!highlight("python", "# c\n").is_empty());
    assert!(!highlight("json", "{\"a\": 1}\n").is_empty());
}

#[test]
fn highlights_are_cut_to_lines() {
    let diff = compute_file_diff(b"", b"fn a() {}\nfn b() {}\n");
    let cache = compute_highlights("x.rs", &diff.hunks);
    assert_eq!(cache.len(), 3);
    assert!(cache[0].is_none());
    for line in 1..3 {
        let spans = cache[line].as_ref().unwrap();
        assert_eq!(spans[0], StyledRange { start: 0, end: 2, color: HighlightColor::Blue });
    }
    assert!(compute_highlights("x.txt", &diff.hunks).iter().all(|c| c.is_none()));
}

#[test]
fn runs_cover_the_line() {
    let spans = vec![
        StyledRange { start: 2, end: 4, color: HighlightColor::Red },
        StyledRange { start: 4, end: 5, color: HighlightColor::Blue },
    ];
    let runs = highlight_to_runs(9, &spans);
    assert_eq!(
        runs,
        vec![
            ColorRun { len: 2, color: None },
            ColorRun { len: 2, color: Some(HighlightColor::Red) },
            ColorRun { len: 1, color: Some(HighlightColor::Blue) },
            ColorRun { len: 4, color: None },
        ]
    );
    assert_eq!(runs.iter().map(|r| r.len).sum::<usize>(), 9);
}

#[test]
fn selection_copies_text_without_headers() {
    let diff = compute_file_diff(b"a\nb\nc\nd\ne\n", b"a\nb\nX\nd\ne\n");
    let lines = collect_lines(&diff.hunks);
    let mut sel: SelectionInner<(f32, f32)> = SelectionInner::new();
    assert!(!sel.has_selection());
    sel.begin(3, 1);
    assert!(sel.extend(0, 4));
    assert!(!sel.extend(0, 4));
    sel.finish();
    assert!(!sel.extend(1, 1));
    assert_eq!(sel.ordered(), (0, 4, 3, 1));
    assert_eq!(copy_selection(&sel, &lines), "b\nc\nX");
    assert_eq!(highlight_lines(&sel, lines.len()), (0, 4));
    assert_eq!(highlight_lines(&sel, 2), (0, 2));
    assert_eq!(highlight_columns(&sel, 0, 10), (4, 10));
    assert_eq!(highlight_columns(&sel, 1, 10), (0, 10));
    assert_eq!(highlight_columns(&sel, 3, 10), (0, 1));
    let colors: Vec<ColorRole> = lines.iter().map(|l| line_colors(l).0).collect();
    assert_eq!(
        colors,
        vec![
            ColorRole::DiffHunkHeader,
            ColorRole::TextMuted,
            ColorRole::DiffDelText,
            ColorRole::DiffAddText,
            ColorRole::TextMuted,
        ]
    );
    assert!(sel.right_click(2, 0, (1.0, 2.0)));
    assert_eq!(sel.context_menu, Some((1.0, 2.0)));
    sel.close_menu();
    assert!(sel.right_click(4, 0, (1.0, 2.0)));
    assert!(!sel.has_selection());
    assert!(!sel.right_click(4, 0, (1.0, 2.0)));
    sel.begin(0, 4);
    sel.extend(0, 9);
    assert_eq!(copy_selection(&sel, &lines), "");
    sel.begin(1, 0);
    sel.extend(1, 9);
    assert_eq!(copy_selection(&sel, &lines), "b");
}

#[test]
fn header_splits_the_path() {
    let stats = DiffStats { additions: 4, deletions: 0 };
    let h = header_view("src/ui/mod.rs", FileStatus::Added, &stats, true);
    assert_eq!(h.filename, "mod.rs");
    assert_eq!(h.dir, Some("src/ui".to_string()));
    assert!(h.new_badge);
    assert_eq!(h.added, Some("+4".to_string()));
    assert_eq!(h.removed, None);
    assert_eq!(h.chevron, "icons/files/chevron-down.svg");
    assert_eq!(split_path("README"), (None, "README".to_string()));
    assert_eq!(split_path("/x"), (Some("".to_string()), "x".to_string()));
}

#[test]
fn row_works_through_its_jobs() {
    let service = Some(DiffService::new(1, None));
    let (mut row, started): (FileRowView<()>, bool) =
        FileRowView::new("a.rs".to_string(), FileStatus::Added, service);
    assert!(started && row.stats_loading);
    assert_eq!(row.stats_finished(0, None), RowOutcome::Failed);
    let none = DiffStats { additions: 0, deletions: 0 };
    assert_eq!(row.stats_finished(0, Some((none, false))), RowOutcome::Empty);
    let some = DiffStats { additions: 1, deletions: 0 };
    assert_eq!(row.stats_finished(0, Some((some, false))), RowOutcome::Changed);
    assert_eq!(row.before_render(), RowJob::Nothing);
    row.toggle();
    assert_eq!(row.before_render(), RowJob::Diff);
    assert_eq!(row.before_render(), RowJob::Nothing);
    assert_eq!(section_body(row.expanded, &row.diff, &row.display_lines), SectionBody::Nothing);
    assert_eq!(row.diff_finished(0, Some(compute_file_diff(b"", b"x\n"))), RowOutcome::Changed);
    assert_eq!(
        section_body(row.expanded, &row.diff, &row.display_lines),
        SectionBody::Lines { count: 2 }
    );
    assert_eq!(row.before_render(), RowJob::Highlights);
    assert_eq!(row.highlights_finished(0, Some(vec![None, None])), RowOutcome::Changed);
    assert_eq!(row.shown_stats().additions, 1);
    assert_eq!(row.update_status(FileStatus::Deleted), (true, true));
    assert!(row.diff.is_none() && row.stats.is_none() && row.highlights.is_none());
    assert!(row.stats_loading && row.diffing && !row.highlighting);
    let old = compute_file_diff(b"", b"x\n");
    assert_eq!(row.diff_finished(0, Some(old)), RowOutcome::Outdated);
    assert!(row.diff.is_none() && row.diffing);
    let old = DiffStats { additions: 1, deletions: 0 };
    assert_eq!(row.stats_finished(0, Some((old, false))), RowOutcome::Outdated);
    assert_eq!(row.highlights_finished(0, Some(vec![])), RowOutcome::Outdated);
    assert!(row.stats.is_none() && row.highlights.is_none());
    assert_eq!(row.update_status(FileStatus::Added), (true, true));
    assert_eq!(row.generation, 2);
    assert_eq!(row.diff_finished(1, Some(compute_file_diff(b"", b""))), RowOutcome::Outdated);
    assert_eq!(row.diff_finished(2, Some(compute_file_diff(b"", b""))), RowOutcome::Empty);
}

#[test]
fn selecting_at_an_edge_scrolls() {
    let away = NearEdges {
        left: false,
        right: false,
        wider: true,
        in_list: true,
        top: false,
        bottom: false,
    };
    let mut sel: SelectionInner<u8> = SelectionInner::new();
    assert!(!sel.mouse_move(1, 1, NearEdges { right: true, ..away }).changed);
    assert!(!sel.mouse_down(false, true, true, 1, 1));
    assert!(!sel.mouse_down(true, true, false, 1, 1));
    assert!(!sel.selecting);
    assert!(sel.mouse_down(true, true, true, 1, 1));
    assert!(!sel.mouse_move(1, 1, away).changed);
    assert!(sel.mouse_move(2, 1, away).changed);
    assert_eq!((sel.end_line, sel.end_col), (2, 1));
    let step = sel.mouse_move(2, 1, NearEdges { right: true, bottom: true, ..away });
    assert_eq!((step.across, step.along, step.changed), (Nudge::Forward, Nudge::Forward, true));
    let step = sel.mouse_move(2, 1, NearEdges { left: true, top: true, ..away });
    assert_eq!((step.across, step.along), (Nudge::Back, Nudge::Back));
    let step = sel.mouse_move(2, 1, NearEdges { right: true, wider: false, ..away });
    assert_eq!((step.across, step.changed), (Nudge::Stay, false));
    let step = sel.mouse_move(2, 1, NearEdges { top: true, in_list: false, ..away });
    assert_eq!(step.along, Nudge::Stay);
}

#[test]
fn lines_are_painted_with_colours_and_selection() {
    let diff = compute_file_diff(b"a\nb\n", b"a\nlet\n");
    let lines = collect_lines(&diff.hunks);
    let mut sel: SelectionInner<u8> = SelectionInner::new();
    let paints = paint_lines(&lines, &None, &sel);
    assert_eq!(paints.len(), lines.len());
    assert_eq!(paints[0].gutter, None);
    assert_eq!(paints[0].text.as_deref(), Some("@@ -1,2 +1,2 @@"));
    assert_eq!(paints[0].background, Some(ColorRole::BgElevated));
    assert_eq!(paints[1].runs, vec![ColorRun { len: 1, color: None }]);
    assert!(paints.iter().all(|p| p.selected.is_none()));
    sel.begin(1, 0);
    sel.extend(9, 2);
    let cache = compute_highlights("x.rs", &diff.hunks);
    let paints = paint_lines(&lines, &Some(cache), &sel);
    assert_eq!(paints[0].selected, None);
    assert_eq!(paints[1].selected, Some((0, 1)));
    assert_eq!(paints[3].selected, Some((0, 3)));
    assert_eq!(paints[3].gutter.as_deref(), Some("2"));
    for (paint, line) in paints.iter().zip(&lines) {
        assert_eq!(paint.runs.iter().map(|r| r.len).sum::<usize>(), line.content.len());
    }
    assert_eq!(paints[3].runs, vec![ColorRun { len: 3, color: Some(HighlightColor::Blue) }]);
}
