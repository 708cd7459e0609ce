use superhq::components::history::UndoHistory;
use superhq::components::scrollbar::{Press, ScrollbarState, ThumbLook};
use superhq::components::text_input::{
    key_action, Caret, KeyAction, MousePlace, TextInput, TextInputEvent,
};
use superhq::components::toast::Toast;
use superhq::dock::{
    activation_event, Axis, Dock, DockPosition, Pane, PaneLayout, PanelEvent,
};

fn input(text: &str) -> TextInput {
    let mut t = TextInput::new();
    t.set_value(text.to_string());
    t
}

#[test]
fn history_skips_repeats_and_forgets_what_was_undone() {
    let mut h = UndoHistory::new();
    h.push("a", 1);
    h.push("a", 1);
    h.push("ab", 2);
    assert_eq!(h.undo().map(|e| e.content.clone()), Some("a".to_string()));
    assert_eq!(h.redo().map(|e| e.content.clone()), Some("ab".to_string()));
    assert!(h.redo().is_none());
    h.undo();
    h.push("ax", 2);
    assert!(h.redo().is_none());
    assert_eq!(h.undo().map(|e| (e.content.clone(), e.cursor)), Some(("a".to_string(), 1)));
    assert_eq!(h.undo().map(|e| e.content.clone()), Some(String::new()));
    assert!(h.undo().is_none());
}

#[test]
fn history_keeps_a_hundred_entries() {
    let mut h = UndoHistory::new();
    for i in 0..150 {
        h.push(&format!("{}", i), 0);
    }
    let mut steps = 0;
    let mut oldest = String::new();
    while let Some(e) = h.undo() {
        steps += 1;
        oldest = e.content.clone();
    }
    assert_eq!(steps, 99);
    assert_eq!(oldest, "50");
}

#[test]
fn cursor_moves_by_clusters() {
    // "e" with a combining accent is one cluster of three bytes; the flag is one of eight.
    let mut t = input("ae\u{301}\u{1F1E9}\u{1F1EA}");
    assert_eq!(t.start, 12);
    t.left();
    assert_eq!(t.start, 4);
    t.left();
    assert_eq!(t.start, 1);
    t.left();
    assert_eq!(t.start, 0);
    t.left();
    assert_eq!(t.start, 0);
    t.right();
    t.right();
    assert_eq!(t.start, 4);
    t.end();
    t.right();
    assert_eq!(t.start, 12);
    t.home();
    assert_eq!((t.start, t.end), (0, 0));
}

#[test]
fn selecting_back_over_the_start_turns_around() {
    let mut t = input("abc");
    t.move_to(1);
    t.select_right();
    assert_eq!((t.start, t.end, t.selection_reversed), (1, 2, false));
    t.select_left();
    t.select_left();
    assert_eq!((t.start, t.end, t.selection_reversed), (0, 1, true));
    assert_eq!(t.cursor_offset(), 0);
    assert_eq!(t.copy(), Some("a".to_string()));
    t.right();
    assert_eq!((t.start, t.end), (1, 1));
    assert_eq!(t.copy(), None);
    t.select_all();
    assert_eq!(t.copy(), Some("abc".to_string()));
    t.left();
    assert_eq!((t.start, t.end), (0, 0));
}

#[test]
fn editing_replaces_the_selection() {
    let mut t = input("hello");
    t.select_all();
    assert!(t.paste("two\nlines"));
    assert_eq!(t.value(), "two lines");
    assert_eq!(t.start, 9);
    assert!(t.backspace());
    assert_eq!(t.value(), "two line");
    t.home();
    assert!(t.delete());
    assert_eq!(t.value(), "wo line");
    t.move_to(2);
    t.select_all();
    assert_eq!(t.cut(), Some("wo line".to_string()));
    assert_eq!(t.value(), "");
    assert_eq!(t.cut(), None);
    assert!(t.undo());
    assert_eq!(t.value(), "wo line");
    assert!(t.undo());
    assert_eq!(t.value(), "two line");
    assert!(t.redo());
    assert_eq!(t.value(), "wo line");
    match t.change_event() {
        TextInputEvent::Changed(s) => assert_eq!(s, "wo line"),
        _ => panic!("no change"),
    }
}

#[test]
fn backspace_at_the_start_changes_nothing_but_is_an_edit() {
    let mut t = input("a");
    t.home();
    assert!(t.backspace());
    assert_eq!(t.value(), "a");
}

#[test]
fn disabled_input_stays() {
    let mut t = input("abc");
    t.set_disabled(true);
    t.select_all();
    assert!(!t.paste("x"));
    assert!(!t.backspace());
    assert!(!t.delete());
    assert!(!t.undo());
    assert!(!t.redo());
    assert_eq!(t.cut(), None);
    assert!(!t.replace_text_in_range(Some((0, 1)), "x"));
    assert!(!t.replace_and_mark_text_in_range(None, "x", None));
    assert_eq!(t.value(), "abc");
    assert_eq!(t.copy(), Some("abc".to_string()));
    assert_eq!(t.on_right_click(), (true, false, true, false));
}

#[test]
fn utf16_offsets_round_trip() {
    let t = input("a\u{e9}\u{1F600}z");
    // Bytes 1, 2, 4, 1; units 1, 1, 2, 1.
    assert_eq!(t.offset_to_utf16(0), 0);
    assert_eq!(t.offset_to_utf16(3), 2);
    assert_eq!(t.offset_to_utf16(7), 4);
    assert_eq!(t.offset_to_utf16(99), 5);
    assert_eq!(t.offset_from_utf16(2), 3);
    assert_eq!(t.offset_from_utf16(3), 7);
    assert_eq!(t.offset_from_utf16(4), 7);
    assert_eq!(t.offset_from_utf16(99), 8);
    for b in [0usize, 1, 3, 7, 8] {
        assert_eq!(t.offset_from_utf16(t.offset_to_utf16(b)), b);
    }
    assert_eq!(t.text_for_range(1, 4), ("\u{e9}\u{1F600}".to_string(), (1, 4)));
    assert_eq!(t.selected_text_range(), ((5, 5), false));
    assert_eq!(t.marked_text_range(), None);
}

#[test]
fn composing_marks_the_text() {
    let mut t = input("ab");
    t.move_to(1);
    assert!(t.replace_and_mark_text_in_range(None, "\u{4f60}", None));
    assert_eq!(t.value(), "a\u{4f60}b");
    assert_eq!(t.marked, Some((1, 4)));
    assert_eq!((t.start, t.end), (4, 4));
    assert_eq!(t.marked_text_range(), Some((1, 2)));
    assert_eq!(t.mark_runs(5), vec![(1, false), (3, true), (1, false)]);
    assert!(t.replace_text_in_range(None, "xy"));
    assert_eq!(t.value(), "axyb");
    assert_eq!(t.marked, None);
    assert_eq!(t.mark_runs(4), vec![(4, false)]);
    t.replace_and_mark_text_in_range(Some((0, 1)), "Q", Some((1, 1)));
    assert_eq!(t.value(), "Qxyb");
    assert_eq!((t.start, t.end), (1, 2));
    t.unmark_text();
    assert_eq!(t.marked, None);
}

#[test]
fn composed_text_can_be_edited_wherever_the_selection_lies() {
    let composed = || {
        let mut t = TextInput::new();
        t.replace_and_mark_text_in_range(None, "n", Some((1, 1)));
        t.replace_and_mark_text_in_range(None, "ni", Some((2, 2)));
        assert_eq!((t.start, t.end, t.marked), (2, 3, Some((0, 2))));
        t
    };
    let mut t = composed();
    assert!(t.paste("x"));
    assert_eq!(t.value(), "x");
    let mut t = composed();
    assert!(t.backspace());
    assert_eq!(t.value(), "");
    let mut t = composed();
    assert!(t.delete());
    assert_eq!((t.value(), t.start), ("", 0));
    let mut t = composed();
    t.unmark_text();
    t.move_to(9);
    assert_eq!(t.copy(), None);
    assert!(t.backspace());
    assert_eq!(t.value(), "n");
}

#[test]
fn double_click_selects_a_word() {
    let mut t = input("see the-end, now");
    t.on_mouse_down(5, 2, false);
    assert_eq!(t.copy(), Some("the".to_string()));
    assert!(!t.is_selecting);
    t.on_mouse_down(5, 3, false);
    assert_eq!(t.copy(), Some("see the-end, now".to_string()));
    t.on_mouse_down(4, 1, false);
    assert_eq!((t.start, t.end, t.is_selecting), (4, 4, true));
    t.on_drag(7);
    assert_eq!(t.copy(), Some("the".to_string()));
    t.on_mouse_up();
    t.on_drag(9);
    assert_eq!(t.copy(), Some("the".to_string()));
    t.on_mouse_down(11, 1, true);
    assert_eq!(t.copy(), Some("the-end".to_string()));
    let mut empty = TextInput::new();
    empty.select_word_at(0);
    assert_eq!((empty.start, empty.end), (0, 0));
}

#[test]
fn masked_text_shows_bullets() {
    let mut t = input("a\u{e9}b");
    t.set_placeholder("Key".to_string());
    assert_eq!(t.display_text(), ("a\u{e9}b".to_string(), false));
    t.set_masked(true);
    assert_eq!(t.display_text(), ("\u{2022}\u{2022}\u{2022}".to_string(), false));
    assert_eq!(t.display_offset(3), 6);
    assert_eq!(t.offset_from_display(6), 3);
    assert_eq!(t.offset_from_display(100), 4);
    assert_eq!(t.index_for_mouse_position(MousePlace::At(3)), 1);
    assert_eq!(t.index_for_mouse_position(MousePlace::Above), 0);
    assert_eq!(t.index_for_mouse_position(MousePlace::Below), 4);
    assert_eq!(t.index_for_mouse_position(MousePlace::NoLayout), 0);
    assert_eq!(t.caret(true), Caret::At(9));
    assert_eq!(t.caret(false), Caret::Hidden);
    t.select_all();
    assert_eq!(t.caret(false), Caret::Selection(0, 9));
    t.set_value(String::new());
    assert_eq!(t.display_text(), ("Key".to_string(), true));
    t.set_masked(false);
    t.move_to(5);
    assert_eq!(t.caret(true), Caret::At(5));
}

#[test]
fn keys_have_actions() {
    assert_eq!(key_action("cmd-z"), Some(KeyAction::Undo));
    assert_eq!(key_action("cmd-shift-z"), Some(KeyAction::Redo));
    assert_eq!(key_action("shift-left"), Some(KeyAction::SelectLeft));
    assert_eq!(key_action("ctrl-cmd-space"), Some(KeyAction::ShowCharacterPalette));
    assert_eq!(key_action("a"), None);
}

#[test]
fn escape_closes_the_menu_first() {
    let mut t = input("abc");
    assert_eq!(t.on_right_click(), (true, true, false, false));
    assert!(t.cancel());
    assert!(!t.cancel());
}

#[test]
fn scrolling_beside_the_input_follows_the_mouse() {
    let mut t = input("abc");
    assert!(!t.auto_scroll_tick(true, 0, true));
    t.on_mouse_down(3, 1, false);
    assert!(t.auto_scroll_tick(true, 1, false));
    assert_eq!((t.start, t.end), (1, 3));
    assert!(!t.auto_scroll_tick(false, 0, true));
    assert_eq!((t.start, t.end), (1, 3));
}

#[test]
fn scrollbar_fades_after_a_scroll() {
    let mut s: ScrollbarState<i32> = ScrollbarState::new(0);
    assert!(!s.is_visible(0));
    assert_eq!(s.thumb(true, 0), None);
    s.did_scroll(1000);
    assert_eq!(s.opacity(2999), 1000);
    assert_eq!(s.opacity(3400), 600);
    assert_eq!(s.thumb(true, 3400), Some(ThumbLook::Resting(600)));
    assert_eq!(s.thumb(false, 3400), None);
    assert!(s.is_visible(3999));
    assert!(!s.is_visible(4000));
    assert_eq!(s.opacity(4000), 0);
    assert_eq!(s.opacity(500), 1000);
}

#[test]
fn scrollbar_follows_the_mouse() {
    let mut s: ScrollbarState<i32> = ScrollbarState::new(0);
    assert_eq!(s.mouse_down(false, Some(3), 5), Press::Ignored);
    assert_eq!(s.last_scroll, None);
    assert_eq!(s.mouse_move(true, false, false, true, 10), (false, true));
    assert_eq!(s.last_scroll, Some(10));
    assert_eq!(s.thumb(true, 90000), Some(ThumbLook::Hovered));
    assert_eq!(s.mouse_move(true, false, false, true, 20), (false, false));
    assert_eq!(s.last_scroll, Some(10));
    assert_eq!(s.mouse_down(true, None, 30), Press::Jump);
    assert_eq!(s.mouse_down(true, Some(7), 40), Press::Grabbed);
    assert_eq!(s.grip, 7);
    assert_eq!(s.thumb(true, 40), Some(ThumbLook::Active));
    assert_eq!(s.mouse_move(false, false, true, true, 50), (true, true));
    assert_eq!(s.last_scroll, Some(50));
    assert_eq!(s.mouse_move(false, false, true, false, 60), (false, false));
    assert!(s.mouse_up());
    assert!(!s.mouse_up());
    assert!(!s.is_visible(90000));
}

#[test]
fn only_the_latest_timer_hides_a_toast() {
    let mut t = Toast::new();
    assert_eq!(t.shown(), None);
    let first = t.show("saved".to_string());
    let second = t.show("removed".to_string());
    assert!(!t.timer_fired(first));
    assert_eq!(t.shown(), Some("removed"));
    assert!(t.timer_fired(second));
    assert_eq!(t.shown(), None);
    assert!(!t.timer_fired(second));
}

#[test]
fn first_panel_of_a_dock_is_active() {
    let mut d: Dock<&str, i32> = Dock::new(DockPosition::Right, 320);
    assert_eq!(d.position(), DockPosition::Right);
    assert_eq!(d.active_panel(), None);
    d.add_panel("review");
    d.add_panel("files");
    assert_eq!(d.active_panel(), Some(&"review"));
    assert!(!d.visible);
    d.on_event(activation_event(true));
    assert!(d.visible);
    d.on_event(PanelEvent::ChangePosition(DockPosition::Left));
    assert!(d.visible);
    d.on_event(activation_event(false));
    assert!(!d.visible);
    d.toggle();
    assert!(d.visible);
    d.dismiss();
    assert!(!d.visible);
    d.show();
    assert!(d.visible);
    d.set_size(400);
    assert_eq!(d.size(), 400);
}

#[test]
fn pane_keeps_an_active_item() {
    let mut p = Pane::new();
    assert!(p.is_empty());
    assert_eq!(p.active_item(), None);
    for id in [10, 20, 30] {
        p.add_item(id);
    }
    assert_eq!(p.active_item(), Some(30));
    p.remove_item(30);
    assert_eq!(p.active_item(), Some(20));
    p.activate_item(5);
    assert_eq!(p.active_index(), 1);
    p.activate_item(0);
    p.remove_item(10);
    assert_eq!(p.active_item(), Some(20));
    assert_eq!(p.items(), &vec![20]);
    assert_eq!(p.len(), 1);
    p.remove_item(20);
    assert_eq!(p.active_item(), None);
}

#[test]
fn layouts_split() {
    let l: PaneLayout<u8> = PaneLayout::split(
        Axis::Vertical,
        PaneLayout::single(),
        PaneLayout::single(),
        50,
    );
    match l {
        PaneLayout::Split { axis, first, ratio, .. } => {
            assert_eq!(axis, Axis::Vertical);
            assert_eq!(ratio, 50);
            assert!(matches!(*first, PaneLayout::Single(ref p) if p.is_empty()));
        }
        PaneLayout::Single(_) => panic!("not split"),
    }
}
