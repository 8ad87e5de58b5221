use eddy::buffer::Buffer;
use eddy::Selection;

#[test]
fn buffer_test_insert() {
    let mut buf = Buffer::new(0);
    buf.init_view(0);
    buf.insert(0, "a");
    assert_eq!(buf.to_text(), "a");
}
#[test]
fn buffer_test_insert2() {
    let mut buf = Buffer::new(0);
    buf.init_view(0);
    buf.insert(0, "a");
    buf.insert(0, "b");
    buf.insert(0, "cd");
    assert_eq!(buf.to_text(), "abcd");
}

#[test]
fn buffer_test_move_left() {
    let mut buf = Buffer::new(0);
    buf.init_view(0);
    buf.insert(0, "a");
    buf.insert(0, "b");
    buf.move_left(0);
    buf.insert(0, "cd");
    assert_eq!(buf.to_text(), "acdb");
}
#[test]
fn buffer_test_move_left_right() {
    let mut buf = Buffer::new(0);
    buf.init_view(0);
    buf.insert(0, "a");
    buf.insert(0, "b");
    buf.move_left(0);
    buf.move_right(0);
    buf.insert(0, "cd");
    assert_eq!(buf.to_text(), "abcd");
}

#[test]
fn buffer_test_move_left_too_far() {
    let mut buf = Buffer::new(0);
    buf.init_view(0);
    buf.move_left(0);
    buf.move_left(0);
    buf.move_left(0);
    buf.insert(0, "abc");
    assert_eq!(buf.to_text(), "abc");
}
#[test]
fn buffer_test_move_right_too_far() {
    let mut buf = Buffer::new(0);
    buf.init_view(0);
    buf.move_right(0);
    buf.move_right(0);
    buf.move_right(0);
    buf.insert(0, "abc");
    assert_eq!(buf.to_text(), "abc");
}

#[test]
fn buffer_test_move_left_and_modify_selection() {
    let mut buf = Buffer::new(0);
    buf.init_view(0);
    buf.insert(0, "abc");
    buf.move_left_and_modify_selection(0);
    buf.move_left_and_modify_selection(0);
    buf.insert(0, "de");
    assert_eq!(buf.to_text(), "ade");
    buf.move_left_and_modify_selection(0);
    buf.insert(0, "f");
    assert_eq!(buf.to_text(), "adf");
}
#[test]
fn buffer_test_move_right_and_modify_selection() {
    let mut buf = Buffer::new(0);
    buf.init_view(0);
    buf.insert(0, "abc");
    buf.move_left(0);
    buf.move_left(0);
    buf.move_right_and_modify_selection(0);
    buf.move_right_and_modify_selection(0);
    buf.insert(0, "de");
    assert_eq!(buf.to_text(), "ade");
}
#[test]
fn buffer_test_move_up() {
    let mut buf = Buffer::new(0);
    buf.init_view(0);
    buf.insert(0, "abc\ndef");
    buf.move_left(0);
    buf.move_up(0);
    buf.insert(0, "_");
    assert_eq!(buf.to_text(), "ab_c\ndef");
}
#[test]
fn buffer_test_move_up2() {
    let mut buf = Buffer::new(0);
    buf.init_view(0);
    buf.insert(0, "a\nbcd");
    buf.move_up(0);
    buf.insert(0, "_");
    assert_eq!(buf.to_text(), "a_\nbcd");
}
#[test]
fn buffer_test_move_up_to_tab_0() {
    let mut buf = Buffer::new(0);
    buf.init_view(0);
    buf.insert(0, "\tabc");
    buf.insert_newline(0);
    buf.move_up(0);
    buf.insert(0, "_");
    assert_eq!(buf.to_text(), "_\tabc\n");
}
#[test]
fn buffer_test_move_up_to_tab_4() {
    let mut buf = Buffer::new(0);
    buf.init_view(0);
    buf.insert(0, "\tabc");
    buf.insert_newline(0);
    buf.insert(0, "    ");
    buf.move_up(0);
    buf.insert(0, "_");
    assert_eq!(buf.to_text(), "_\tabc\n    ");
}
#[test]
fn buffer_test_move_up_to_tab_8() {
    let mut buf = Buffer::new(0);
    buf.init_view(0);
    buf.insert(0, "\tabc");
    buf.insert_newline(0);
    buf.insert(0, "        ");
    buf.move_up(0);
    buf.insert(0, "_");
    assert_eq!(buf.to_text(), "\t_abc\n        ");
}
#[test]
fn buffer_test_move_up_to_tab_9() {
    let mut buf = Buffer::new(0);
    buf.init_view(0);
    buf.insert(0, "\tabc");
    buf.insert_newline(0);
    buf.insert(0, "         ");
    buf.move_up(0);
    buf.insert(0, "_");
    assert_eq!(buf.to_text(), "\ta_bc\n         ");
}
#[test]
fn test_move_up_from_tab() {
    let mut buf = Buffer::new(0);
    buf.init_view(0);
    buf.insert(0, "abcdefghi");
    buf.insert_newline(0);
    buf.insert(0, "\t");
    buf.move_up(0);
    buf.insert(0, "_");
    assert_eq!(buf.to_text(), "abcdefgh_i\n\t");
}
#[test]
fn buffer_test_move_down() {
    let mut buf = Buffer::new(0);
    buf.init_view(0);
    buf.insert(0, "abc\ndef");
    buf.move_left(0);
    buf.move_up(0);
    buf.move_down(0);
    assert_eq!(
        buf.selections(0),
        vec![Selection {
            start: 6,
            end: 6,
            horiz: Some(2),
        }]
    );
}
#[test]
fn buffer_test_move_down2() {
    let mut buf = Buffer::new(0);
    buf.init_view(0);
    buf.insert(0, "abc\nd");
    buf.move_left(0);
    buf.move_left(0);
    buf.move_down(0);
    assert_eq!(
        buf.selections(0),
        vec![Selection {
            start: 5,
            end: 5,
            horiz: Some(3),
        }]
    );
}
#[test]
fn buffer_test_move_down3() {
    let mut buf = Buffer::new(0);
    buf.init_view(0);
    buf.insert(0, "abc");
    buf.move_left(0);
    buf.move_down(0);
    assert_eq!(
        buf.selections(0),
        vec![Selection {
            start: 3,
            end: 3,
            horiz: Some(2),
        }]
    );
}
