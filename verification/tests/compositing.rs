use cine_term::Frame;

fn row_text(frame: &Frame, row: usize) -> String {
    let mut text = String::new();
    let mut col = 0;
    while col < frame.get_width() {
        text.push(frame.get_pixel(row, col));
        col += 1;
    }
    text
}

fn lines(texts: &[&str]) -> Vec<String> {
    texts.iter().map(|t| String::from(*t)).collect()
}

#[test]
fn new_frame_is_blank_with_given_dimensions() {
    let frame = Frame::new(2, 3);
    assert_eq!(frame.get_height(), 2);
    assert_eq!(frame.get_width(), 3);
    assert_eq!(row_text(&frame, 0), "   ");
    assert_eq!(row_text(&frame, 1), "   ");
}

#[test]
fn new_frame_accepts_zero_dimensions() {
    let frame = Frame::new(0, 0);
    assert_eq!(frame.get_height(), 0);
    assert_eq!(frame.get_width(), 0);
    let wide = Frame::new(0, 4);
    assert_eq!(wide.get_height(), 0);
    assert_eq!(wide.get_width(), 4);
}

#[test]
fn from_string_builds_single_row() {
    let frame = Frame::from_string("hello");
    assert_eq!(frame.get_height(), 1);
    assert_eq!(frame.get_width(), 5);
    assert_eq!(row_text(&frame, 0), "hello");
}

#[test]
fn overlay_with_copy_at_origin_leaves_frame_identical() {
    let mut frame = Frame::from_lines(2, 3, &lines(&["abc", "def"]));
    let copy = frame.duplicate();
    frame.overlay_with_frame(&copy);
    assert_eq!(row_text(&frame, 0), row_text(&copy, 0));
    assert_eq!(row_text(&frame, 1), row_text(&copy, 1));
    assert_eq!(row_text(&frame, 0), "abc");
    assert_eq!(row_text(&frame, 1), "def");
}

#[test]
fn same_size_overlay_at_origin_replaces_content() {
    let mut target = Frame::from_lines(2, 2, &lines(&["ab", "cd"]));
    let source = Frame::from_lines(2, 2, &lines(&["wx", "yz"]));
    target.overlay_with_frame(&source);
    assert_eq!(row_text(&target, 0), "wx");
    assert_eq!(row_text(&target, 1), "yz");
}

#[test]
fn overlay_fully_outside_bounds_leaves_target_unchanged() {
    let mut target = Frame::from_lines(2, 3, &lines(&["abc", "def"]));
    let source = Frame::from_lines(2, 2, &lines(&["xx", "yy"]));
    target.overlay_with_frame_at_position(3, 0, &source);
    assert_eq!(row_text(&target, 0), "abc");
    assert_eq!(row_text(&target, 1), "def");
    target.overlay_with_frame_at_position(0, 2, &source);
    assert_eq!(row_text(&target, 0), "abc");
    assert_eq!(row_text(&target, 1), "def");
    target.overlay_with_frame_at_position(-2, -2, &source);
    assert_eq!(row_text(&target, 0), "abc");
    assert_eq!(row_text(&target, 1), "def");
}

#[test]
fn long_string_overlay_writes_exactly_first_width_chars() {
    let mut target = Frame::from_lines(2, 3, &lines(&["xyz", "uvw"]));
    target.overlay_with_string("abcdef");
    assert_eq!(row_text(&target, 0), "abc");
    assert_eq!(row_text(&target, 1), "uvw");
}

#[test]
fn string_overlay_at_position_clips_like_frame_overlay() {
    let mut target = Frame::new(3, 4);
    target.overlay_with_string_at_position(1, 1, "ab");
    assert_eq!(row_text(&target, 0), "    ");
    assert_eq!(row_text(&target, 1), " ab ");
    assert_eq!(row_text(&target, 2), "    ");
    target.overlay_with_string_at_position(-1, 2, "ab");
    assert_eq!(row_text(&target, 2), "b   ");
    target.overlay_with_string_at_position(0, 3, "ab");
    assert_eq!(row_text(&target, 0), "    ");
}

#[test]
fn overlay_with_negative_offsets_clips_top_left() {
    let mut target = Frame::new(2, 2);
    let source = Frame::from_lines(2, 2, &lines(&["ab", "cd"]));
    target.overlay_with_frame_at_position(-1, -1, &source);
    assert_eq!(row_text(&target, 0), "d ");
    assert_eq!(row_text(&target, 1), "  ");
}

#[test]
fn from_lines_fills_rows_and_clips_overflow() {
    let frame = Frame::from_lines(2, 2, &lines(&["abc", "d", "e", "f"]));
    assert_eq!(frame.get_height(), 2);
    assert_eq!(frame.get_width(), 2);
    assert_eq!(row_text(&frame, 0), "ab");
    assert_eq!(row_text(&frame, 1), "d ");
}

#[test]
fn from_lines_with_no_lines_is_blank() {
    let frame = Frame::from_lines(2, 2, &Vec::new());
    assert_eq!(row_text(&frame, 0), "  ");
    assert_eq!(row_text(&frame, 1), "  ");
}

#[test]
fn duplicate_is_an_independent_copy() {
    let mut original = Frame::from_string("ab");
    let copy = original.duplicate();
    original.overlay_with_string("zz");
    assert_eq!(row_text(&original, 0), "zz");
    assert_eq!(row_text(&copy, 0), "ab");
}
