use eddy::buffer::Buffer;
use eddy::range::Range;
use eddy::Selection;

fn caret(c: usize) -> Selection {
    Selection { start: c, end: c, horiz: None }
}

fn buffer_with(text: &str) -> Buffer {
    let mut buf = Buffer::from_text(0, text);
    buf.init_view(0);
    buf
}

#[test]
fn undo_after_insert_gives_back_the_text_and_selections() {
    let mut buf = buffer_with("hello");
    buf.move_to_end_of_document(0);
    buf.insert(0, " world");
    assert_eq!(buf.to_text(), "hello world");
    buf.undo(0);
    assert_eq!(buf.to_text(), "hello");
    assert_eq!(buf.selections(0), vec![Selection { start: 5, end: 5, horiz: None }]);
}

#[test]
fn redo_after_undo_gives_back_the_edit() {
    let mut buf = buffer_with("");
    buf.insert(0, "ab");
    buf.insert(0, "c");
    buf.undo(0);
    assert_eq!(buf.to_text(), "ab");
    buf.redo(0);
    assert_eq!(buf.to_text(), "abc");
    assert_eq!(buf.selections(0), vec![caret(3)]);
}

#[test]
fn undo_and_redo_with_nothing_to_do_keep_the_text() {
    let mut buf = buffer_with("xyz");
    buf.undo(0);
    assert_eq!(buf.to_text(), "xyz");
    buf.insert(0, "a");
    buf.redo(0);
    assert_eq!(buf.to_text(), "axyz");
}

#[test]
fn undo_of_a_delete_restores_the_deleted_text() {
    let mut buf = buffer_with("abc");
    buf.move_to_end_of_document(0);
    buf.delete_backward(0);
    assert_eq!(buf.to_text(), "ab");
    buf.undo(0);
    assert_eq!(buf.to_text(), "abc");
}

#[test]
fn remove_after_insert_at_gives_back_text_and_selections() {
    let mut buf = buffer_with("abcdef");
    buf.replace_selections(0, &[Selection { start: 1, end: 4, horiz: None }]);
    buf.insert_at(2, "XYZ");
    assert_eq!(buf.to_text(), "abXYZcdef");
    assert_eq!(buf.selections(0), vec![Selection { start: 1, end: 7, horiz: None }]);
    buf.remove(Range { start: 2, end: 5 });
    assert_eq!(buf.to_text(), "abcdef");
    assert_eq!(buf.selections(0), vec![Selection { start: 1, end: 4, horiz: None }]);
}

#[test]
fn remove_collapses_points_inside_and_shifts_points_after() {
    let mut buf = buffer_with("0123456789");
    buf.replace_selections(0, &[caret(1), caret(4), caret(8)]);
    buf.remove(Range { start: 3, end: 6 });
    assert_eq!(buf.to_text(), "0126789");
    assert_eq!(buf.selections(0), vec![caret(1), caret(3), caret(5)]);
}

#[test]
fn insert_at_normalises_line_endings() {
    let mut buf = buffer_with("ab");
    buf.insert_at(1, "x\r\ny\rz");
    assert_eq!(buf.to_text(), "ax\ny\nzb");
}

#[test]
fn insert_replaces_every_selection() {
    let mut buf = buffer_with("one two");
    buf.replace_selections(
        0,
        &[Selection { start: 0, end: 3, horiz: None }, Selection { start: 4, end: 7, horiz: None }],
    );
    buf.insert(0, "X");
    assert_eq!(buf.to_text(), "X X");
}

#[test]
fn delete_forward_removes_a_whole_grapheme() {
    let mut buf = buffer_with("e\u{301}x");
    buf.delete_forward(0);
    assert_eq!(buf.to_text(), "x");
}

#[test]
fn delete_backward_at_the_start_does_nothing() {
    let mut buf = buffer_with("ab");
    buf.delete_backward(0);
    assert_eq!(buf.to_text(), "ab");
}

#[test]
fn delete_forward_at_the_end_does_nothing() {
    let mut buf = buffer_with("ab");
    buf.move_to_end_of_document(0);
    buf.delete_forward(0);
    assert_eq!(buf.to_text(), "ab");
}

#[test]
fn move_right_steps_over_a_whole_grapheme() {
    let mut buf = buffer_with("e\u{301}x");
    buf.move_right(0);
    assert_eq!(buf.selections(0), vec![caret(2)]);
    buf.move_left(0);
    assert_eq!(buf.selections(0), vec![caret(0)]);
}

#[test]
fn moving_collapses_a_selection_to_its_end() {
    let mut buf = buffer_with("abcdef");
    buf.replace_selections(0, &[Selection { start: 4, end: 1, horiz: None }]);
    buf.move_left(0);
    assert_eq!(buf.selections(0), vec![caret(1)]);
    buf.replace_selections(0, &[Selection { start: 4, end: 1, horiz: None }]);
    buf.move_right(0);
    assert_eq!(buf.selections(0), vec![caret(4)]);
}

#[test]
fn line_ends_and_document_ends() {
    let mut buf = buffer_with("ab\ncde\nf");
    buf.replace_selections(0, &[caret(4)]);
    buf.move_to_right_end_of_line(0);
    assert_eq!(buf.selections(0), vec![caret(6)]);
    buf.move_to_left_end_of_line(0);
    assert_eq!(buf.selections(0), vec![caret(3)]);
    buf.move_to_right_end_of_line_and_modify_selection(0);
    assert_eq!(buf.selections(0), vec![Selection { start: 3, end: 6, horiz: None }]);
    buf.move_to_end_of_document(0);
    assert_eq!(buf.selections(0), vec![caret(8)]);
    buf.move_to_beginning_of_document_and_modify_selection(0);
    assert_eq!(buf.selections(0)[0].start, 8);
    assert_eq!(buf.selections(0)[0].end, 0);
}

#[test]
fn word_moves() {
    let mut buf = buffer_with("foo_bar  +-= baz");
    buf.move_word_right(0);
    assert_eq!(buf.selections(0), vec![caret(7)]);
    buf.move_word_right(0);
    assert_eq!(buf.selections(0), vec![caret(12)]);
    buf.move_word_right(0);
    assert_eq!(buf.selections(0), vec![caret(16)]);
    buf.move_word_left(0);
    assert_eq!(buf.selections(0), vec![caret(13)]);
    buf.move_word_left(0);
    assert_eq!(buf.selections(0), vec![caret(9)]);
    buf.move_word_left_and_modify_selection(0);
    assert_eq!(buf.selections(0), vec![Selection { start: 9, end: 0, horiz: None }]);
}

#[test]
fn page_moves_reach_the_document_edges() {
    let mut buf = buffer_with("a\nb\nc");
    buf.page_down(0);
    assert_eq!(buf.selections(0)[0].end, 5);
    buf.page_up(0);
    assert_eq!(buf.selections(0)[0].end, 0);
}

#[test]
fn select_all_then_cut_empties_the_buffer() {
    let mut buf = buffer_with("abc\ndef");
    buf.select_all(0);
    assert_eq!(buf.selections(0), vec![Selection { start: 0, end: 7, horiz: None }]);
    assert_eq!(buf.copy(0), Some("abc\ndef".to_string()));
    assert_eq!(buf.cut(0), Some("abc\ndef".to_string()));
    assert_eq!(buf.to_text(), "");
}

#[test]
fn copy_joins_selections_with_line_feeds_and_skips_carets() {
    let mut buf = buffer_with("abcdef");
    buf.replace_selections(
        0,
        &[Selection { start: 0, end: 2, horiz: None }, caret(3), Selection { start: 6, end: 4, horiz: None }],
    );
    assert_eq!(buf.copy(0), Some("ab\nef".to_string()));
    buf.replace_selections(0, &[caret(1)]);
    assert_eq!(buf.copy(0), None);
}

#[test]
fn clicks_select_points_ranges_words_and_lines() {
    let mut buf = buffer_with("let x = 1;\nfoo bar");
    buf.gesture_point_select(0, 1, 5);
    assert_eq!(buf.selections(0), vec![caret(16)]);
    buf.gesture_range_select(0, 0, 4);
    assert_eq!(buf.selections(0), vec![Selection { start: 16, end: 4, horiz: None }]);
    buf.gesture_word_select(0, 1, 5);
    assert_eq!(buf.selections(0), vec![Selection { start: 15, end: 18, horiz: None }]);
    buf.gesture_line_select(0, 0);
    assert_eq!(buf.selections(0), vec![Selection { start: 0, end: 11, horiz: None }]);
    buf.gesture_line_select(0, 1);
    assert_eq!(buf.selections(0), vec![Selection { start: 11, end: 18, horiz: None }]);
}

#[test]
fn clicks_count_bytes_not_chars() {
    let mut buf = buffer_with("\u{e9}a\nb");
    buf.gesture_point_select(0, 0, 2);
    assert_eq!(buf.selections(0), vec![caret(1)]);
}

#[test]
fn ctrl_click_twice_takes_the_caret_back() {
    let mut buf = buffer_with("abcdef");
    buf.replace_selections(0, &[caret(1), caret(5)]);
    buf.gesture_toggle_sel(0, 0, 3);
    assert_eq!(buf.selections(0), vec![caret(1), caret(3), caret(5)]);
    buf.gesture_toggle_sel(0, 0, 3);
    assert_eq!(buf.selections(0), vec![caret(1), caret(5)]);
}

#[test]
fn ctrl_click_inside_a_selection_drops_it() {
    let mut buf = buffer_with("abcdef");
    buf.replace_selections(0, &[Selection { start: 1, end: 4, horiz: None }]);
    buf.gesture_toggle_sel(0, 0, 2);
    assert_eq!(buf.selections(0), Vec::<Selection>::new());
}

#[test]
fn drag_moves_the_cursor_end() {
    let mut buf = buffer_with("abc\ndef");
    buf.gesture_point_select(0, 0, 1);
    buf.drag(0, 1, 2);
    assert_eq!(buf.selections(0), vec![Selection { start: 1, end: 6, horiz: None }]);
    buf.drag(0, 9, 0);
    assert_eq!(buf.selections(0), vec![Selection { start: 1, end: 7, horiz: None }]);
}

#[test]
fn check_invariants_sees_a_caret_inside_a_grapheme() {
    let mut buf = buffer_with("e\u{301}x");
    assert!(buf.check_invariants(0));
    buf.replace_selections(0, &[caret(1)]);
    assert!(!buf.check_invariants(0));
}

#[test]
fn queries_on_text_with_wide_chars() {
    let buf = buffer_with("h\u{e9}llo\nw\u{1f600}rld\r\nend");
    assert_eq!(buf.len_chars(), 16);
    assert_eq!(buf.len_bytes(), 20);
    assert_eq!(buf.len_lines(), 3);
    assert_eq!(buf.line(1), "w\u{1f600}rld\r\n");
    assert_eq!(buf.char_to_line(7), 1);
    assert_eq!(buf.line_to_char(2), 13);
    assert_eq!(buf.char_to_byte(8), 12);
    assert_eq!(buf.line_to_byte(1), 7);
    assert_eq!(buf.rope_clone().to_string(), buf.to_text());
}

#[test]
fn a_line_is_shown_with_tabs_as_spaces_and_no_line_break() {
    let buf = buffer_with("");
    let mut out = String::from("old");
    buf.filter_line_to_display("a\tb\r\n", &mut out);
    assert_eq!(out, "a        b");
}

#[test]
fn insert_tab_and_newline() {
    let mut buf = buffer_with("");
    buf.insert_tab(0);
    buf.insert_newline(0);
    assert_eq!(buf.to_text(), "\t\n");
    assert_eq!(buf.len_lines(), 2);
}

#[test]
fn every_view_keeps_its_own_selections() {
    let mut buf = buffer_with("abc");
    buf.init_view(1);
    buf.move_to_end_of_document(1);
    buf.insert(0, "X");
    assert_eq!(buf.to_text(), "Xabc");
    assert_eq!(buf.selections(0), vec![caret(1)]);
    assert_eq!(buf.selections(1), vec![caret(4)]);
}

#[test]
fn views_have_selections_once_they_are_opened() {
    let mut buf = Buffer::new(3);
    assert!(!buf.has_selections(0));
    buf.init_view(0);
    assert!(buf.has_selections(0));
    assert!(!buf.has_selections(1));
    buf.move_left(1);
    assert!(buf.has_selections(1));
    assert_eq!(buf.selections(1), Vec::<Selection>::new());
}

#[test]
fn paste_changes_nothing() {
    let mut buf = buffer_with("abc");
    buf.paste(0);
    assert_eq!(buf.to_text(), "abc");
    assert_eq!(buf.selections(0), vec![caret(0)]);
}

#[test]
fn ctrl_click_removes_the_first_selection_starting_there() {
    let mut buf = buffer_with("abcdef");
    buf.replace_selections(0, &[caret(2), caret(2), caret(4)]);
    buf.gesture_toggle_sel(0, 0, 2);
    assert_eq!(buf.selections(0), vec![caret(2), caret(4)]);
}

#[test]
fn insert_before_a_combining_mark_puts_the_caret_after_the_cluster() {
    let mut buf = buffer_with("\u{301}x");
    assert_eq!(buf.selections(0), vec![caret(0)]);
    buf.insert(0, "e");
    assert_eq!(buf.to_text(), "e\u{301}x");
    assert_eq!(buf.selections(0), vec![caret(2)]);
    assert!(buf.check_invariants(0));
}

#[test]
fn the_edits_of_the_fuzz_sequence_keep_carets_on_boundaries() {
    let mut buf = buffer_with("");
    buf.insert(0, "\u{301}x");
    buf.move_left(0);
    buf.move_left(0);
    buf.insert(0, "e");
    assert!(buf.check_invariants(0));
    buf.insert_newline(0);
    buf.move_up(0);
    buf.move_right(0);
    buf.delete_backward(0);
    buf.move_down_and_modify_selection(0);
    buf.delete_forward(0);
    assert!(buf.check_invariants(0));
}

#[test]
fn long_runs_of_the_fuzzed_methods_keep_the_invariants() {
    let pieces = ["a", "\u{301}", "e\u{301}", "\r\n", "\r", "\n", "x\u{308}y", "\u{1f600}", "\t", "ab"];
    let mut seed: u64 = 0x2545_f491_4f6c_dd1d;
    for _ in 0..200 {
        let mut buf = Buffer::new(0);
        buf.init_view(0);
        for _ in 0..40 {
            seed = seed.wrapping_mul(6364136223846793005).wrapping_add(1442695040888963407);
            let pick = (seed >> 33) as usize;
            match pick % 12 {
                0 => buf.insert(0, pieces[(pick / 12) % pieces.len()]),
                1 => buf.insert_newline(0),
                2 => buf.move_up(0),
                3 => buf.move_down(0),
                4 => buf.move_left(0),
                5 => buf.move_right(0),
                6 => buf.move_up_and_modify_selection(0),
                7 => buf.move_down_and_modify_selection(0),
                8 => buf.move_left_and_modify_selection(0),
                9 => buf.move_right_and_modify_selection(0),
                10 => buf.delete_forward(0),
                _ => buf.delete_backward(0),
            }
            assert!(buf.check_invariants(0));
        }
    }
}

#[test]
fn ascii_graphemes_are_single_chars_and_crlf_is_one() {
    let buf = buffer_with("ab\r\nc\x07d");
    let rope = buf.rope_clone();
    assert_eq!(eddy::graphemes::next_grapheme_boundary(&rope, 0), 1);
    assert_eq!(eddy::graphemes::next_grapheme_boundary(&rope, 1), 2);
    assert_eq!(eddy::graphemes::next_grapheme_boundary(&rope, 2), 4);
    assert_eq!(eddy::graphemes::next_grapheme_boundary(&rope, 4), 5);
    assert_eq!(eddy::graphemes::next_grapheme_boundary(&rope, 5), 6);
    assert_eq!(eddy::graphemes::prev_grapheme_boundary(&rope, 4), 2);
    assert_eq!(eddy::graphemes::prev_grapheme_boundary(&rope, 7), 6);
    assert_eq!(eddy::graphemes::prev_grapheme_boundary(&rope, 1), 0);
}
