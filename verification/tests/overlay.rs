use wgpu_voxels::overlay::{glyph_rows, text_glyph_cells, FpsCounter, GlyphCell};

const MS: u64 = 1_000_000;

#[test]
fn first_frame_only_starts_the_clock() {
    let mut counter = FpsCounter::new();
    assert_eq!(counter.tick(5 * MS), 0);
}

#[test]
fn rate_updates_after_a_quarter_second() {
    let mut counter = FpsCounter::new();
    assert_eq!(counter.tick(0), 0);
    assert_eq!(counter.tick(100 * MS), 0);
    assert_eq!(counter.tick(200 * MS), 0);
    // Three frames in 300 ms: ten frames per second.
    assert_eq!(counter.tick(300 * MS), 10);
    // The count restarts; the shown rate stays until the next full interval.
    assert_eq!(counter.tick(310 * MS), 10);
}

#[test]
fn sixty_frames_per_second_is_shown_as_sixty() {
    let mut counter = FpsCounter::new();
    let frame = 16_666_667u64;
    let mut shown = 0;
    for i in 0..=15u64 {
        shown = counter.tick(i * frame);
    }
    assert_eq!(shown, 60);
}

#[test]
fn rate_rounds_halves_up() {
    let mut counter = FpsCounter::new();
    counter.tick(0);
    // One frame in 400 ms: 2.5 frames per second, shown as 3.
    assert_eq!(counter.tick(400 * MS), 3);
}

#[test]
fn clock_going_back_counts_no_time() {
    let mut counter = FpsCounter::new();
    counter.tick(500 * MS);
    assert_eq!(counter.tick(100 * MS), 0);
    assert_eq!(counter.tick(350 * MS), 8);
}

#[test]
fn digits_and_fps_letters_have_glyphs() {
    assert_eq!(glyph_rows('0'), Some([0b111, 0b101, 0b101, 0b101, 0b111]));
    assert_eq!(glyph_rows('F'), Some([0b111, 0b100, 0b111, 0b100, 0b100]));
    assert_eq!(glyph_rows('P'), Some([0b110, 0b101, 0b110, 0b100, 0b100]));
    assert_eq!(glyph_rows(' '), None);
    assert_eq!(glyph_rows('x'), None);
}

#[test]
fn text_cells_skip_spaces_but_keep_their_slot() {
    let cells = text_glyph_cells(" 1");
    // Glyph '1': rows 010, 110, 010, 010, 111.
    let expected = vec![
        GlyphCell { slot: 1, row: 0, column: 1 },
        GlyphCell { slot: 1, row: 1, column: 0 },
        GlyphCell { slot: 1, row: 1, column: 1 },
        GlyphCell { slot: 1, row: 2, column: 1 },
        GlyphCell { slot: 1, row: 3, column: 1 },
        GlyphCell { slot: 1, row: 4, column: 0 },
        GlyphCell { slot: 1, row: 4, column: 1 },
        GlyphCell { slot: 1, row: 4, column: 2 },
    ];
    assert_eq!(cells, expected);
}

#[test]
fn fps_label_lights_the_expected_number_of_cells() {
    // F: 3+1+3+1+1, P: 2+2+2+1+1, S: 3+1+3+1+3, 6: 3+1+3+2+3, 0: 3+2+2+2+3.
    assert_eq!(text_glyph_cells("FPS 60").len(), 9 + 8 + 11 + 12 + 12);
    assert!(text_glyph_cells("?").is_empty());
}
