use cine_term::{CineError, Frame, Movie};
use cine_term::movie::playback_delay_ms;

fn frame_text(frame: &Frame) -> String {
    let mut text = String::new();
    let mut row = 0;
    while row < frame.get_height() {
        let mut col = 0;
        while col < frame.get_width() {
            text.push(frame.get_pixel(row, col));
            col += 1;
        }
        row += 1;
    }
    text
}

fn movie_texts(movie: &Movie) -> Vec<String> {
    let mut texts = Vec::new();
    let mut i = 0;
    while i < movie.frame_count() {
        texts.push(frame_text(movie.get_frame(i)));
        i += 1;
    }
    texts
}

#[test]
fn new_movie_is_empty() {
    let movie = Movie::new(2, 3);
    assert_eq!(movie.frame_count(), 0);
    assert_eq!(movie.get_height(), 2);
    assert_eq!(movie.get_width(), 3);
}

#[test]
fn new_blank_creates_count_blank_frames() {
    let movie = Movie::new_blank(1, 2, 3);
    assert_eq!(movie.frame_count(), 3);
    assert_eq!(movie_texts(&movie), vec!["  ", "  ", "  "]);
}

#[test]
fn add_frame_with_mismatched_dimensions_is_refused() {
    let mut movie = Movie::new(2, 2);
    let wrong_height = Frame::new(3, 2);
    assert_eq!(
        movie.add_frame(&wrong_height),
        Err(CineError::DimensionMismatch)
    );
    assert_eq!(movie.frame_count(), 0);
    let wrong_width = Frame::new(2, 3);
    assert_eq!(
        movie.add_frame(&wrong_width),
        Err(CineError::DimensionMismatch)
    );
    assert_eq!(movie.frame_count(), 0);
    let matching = Frame::new(2, 2);
    assert_eq!(movie.add_frame(&matching), Ok(()));
    assert_eq!(movie.frame_count(), 1);
}

#[test]
fn added_frame_is_an_independent_copy() {
    let mut movie = Movie::new(1, 2);
    let mut frame = Frame::from_string("ab");
    assert_eq!(movie.add_frame(&frame), Ok(()));
    frame.overlay_with_string("zz");
    assert_eq!(frame_text(&frame), "zz");
    assert_eq!(frame_text(movie.get_frame(0)), "ab");
}

#[test]
fn cyclic_overlay_tiles_short_source() {
    let mut target = Movie::new_blank(1, 1, 5);
    let mut source = Movie::new(1, 1);
    assert_eq!(source.add_frame(&Frame::from_string("A")), Ok(()));
    assert_eq!(source.add_frame(&Frame::from_string("B")), Ok(()));
    assert_eq!(target.overlay_with_movie(&source), Ok(()));
    assert_eq!(
        movie_texts(&target),
        vec!["A", "B", "A", "B", "A"]
    );
}

#[test]
fn range_restricted_overlay_advances_only_on_inclusion() {
    let mut target = Movie::new_blank(1, 1, 6);
    let mut source = Movie::new(1, 1);
    assert_eq!(source.add_frame(&Frame::from_string("A")), Ok(()));
    assert_eq!(source.add_frame(&Frame::from_string("B")), Ok(()));
    let index_set: Vec<u32> = vec![1, 3, 5];
    assert_eq!(
        target.overlay_with_movie_at_position_in_range(0, 0, &source, &index_set),
        Ok(())
    );
    assert_eq!(
        movie_texts(&target),
        vec![" ", "A", " ", "B", " ", "A"]
    );
}

#[test]
fn range_restricted_overlay_accepts_unordered_sparse_indices() {
    let mut target = Movie::new_blank(1, 1, 4);
    let mut source = Movie::new(1, 1);
    assert_eq!(source.add_frame(&Frame::from_string("A")), Ok(()));
    assert_eq!(source.add_frame(&Frame::from_string("B")), Ok(()));
    let index_set: Vec<u32> = vec![3, 0];
    assert_eq!(
        target.overlay_with_movie_at_position_in_range(0, 0, &source, &index_set),
        Ok(())
    );
    assert_eq!(movie_texts(&target), vec!["A", " ", " ", "B"]);
}

#[test]
fn movie_overlay_at_position_clips_each_frame() {
    let mut target = Movie::new_blank(1, 3, 2);
    let mut source = Movie::new(1, 2);
    assert_eq!(source.add_frame(&Frame::from_string("ab")), Ok(()));
    assert_eq!(target.overlay_with_movie_at_position(2, 0, &source), Ok(()));
    assert_eq!(movie_texts(&target), vec!["  a", "  a"]);
}

#[test]
fn overlay_with_empty_movie_is_refused() {
    let mut target = Movie::new_blank(1, 1, 2);
    let empty = Movie::new(1, 1);
    assert_eq!(
        target.overlay_with_movie(&empty),
        Err(CineError::EmptyOverlaySource)
    );
    assert_eq!(
        target.overlay_with_movie_at_position(0, 0, &empty),
        Err(CineError::EmptyOverlaySource)
    );
    let index_set: Vec<u32> = vec![0];
    assert_eq!(
        target.overlay_with_movie_at_position_in_range(0, 0, &empty, &index_set),
        Err(CineError::EmptyOverlaySource)
    );
    assert_eq!(movie_texts(&target), vec![" ", " "]);
}

#[test]
fn playback_delay_with_zero_rate_is_refused() {
    assert_eq!(playback_delay_ms(0), Err(CineError::InvalidFrameRate));
}

#[test]
fn playback_delay_divides_one_second_by_the_rate() {
    assert_eq!(playback_delay_ms(25), Ok(40));
    assert_eq!(playback_delay_ms(3), Ok(333));
    assert_eq!(playback_delay_ms(1), Ok(1000));
    assert_eq!(playback_delay_ms(2000), Ok(0));
}
