use falling_sand::tank::Tank;

fn count_grains(t: &Tank) -> usize {
    let mut n: usize = 0;
    for row in t.grains.iter() {
        for c in row.iter() {
            if *c != '-' {
                n += 1;
            }
        }
    }
    n
}

// Conservation: settling relocates grains but never creates or destroys
// one, and placement never removes one.
#[test]
fn test_conservation_over_frames() {
    let mut t = Tank::new(4, 4, 0);
    t.drop_sand_in_column(1, 'g');
    t.drop_sand_in_column(2, 'r');
    assert_eq!(count_grains(&t), 2);
    for _ in 0..10 {
        let before = count_grains(&t);
        t.advance_frame();
        assert_eq!(count_grains(&t), before);
    }
    let before = count_grains(&t);
    t.drop_sand(0, 0, 'b', 2);
    assert!(count_grains(&t) >= before);
}

// Floor stability: a grain resting on the bottom row stays exactly where
// it is across frames.  The settling pass never examines the bottom row as
// a source of movement, so floor grains do not even spread sideways into
// open neighbouring columns: an intentional-looking quirk of the settling
// rule, pinned down here on purpose.
#[test]
fn test_floor_grains_never_move() {
    let mut t = Tank::from_grains(vec![
        "---".to_string(),
        "---".to_string(),
        "-g-".to_string(),
    ]);
    for _ in 0..5 {
        t.advance_frame();
    }
    let expected = Tank::from_grains(vec![
        "---".to_string(),
        "---".to_string(),
        "-g-".to_string(),
    ]);
    assert!(
        t.equals(&expected),
        "expected \n{} \n actual\n{}",
        expected.to_string(),
        t.to_string()
    );
}

// Single-frame, single-move: the grain at the top of a blocked column
// slides right exactly one cell in a frame.  Without the rightward-slide
// suppression it would be re-examined at its landing cell and fall in the
// same frame.
#[test]
fn test_right_slide_moves_once_per_frame() {
    let mut t = Tank::from_grains(vec!["g-".to_string(), "g-".to_string()]);
    t.advance_frame();
    let expected = Tank::from_grains(vec!["-g".to_string(), "g-".to_string()]);
    assert!(
        t.equals(&expected),
        "expected \n{} \n actual\n{}",
        expected.to_string(),
        t.to_string()
    );
}

// Left preference: with both sides open and equal drop potential, the
// grain slides left, never right.
#[test]
fn test_left_preferred_on_tie() {
    let mut t = Tank::from_grains(vec![
        "---".to_string(),
        "-g-".to_string(),
        "-g-".to_string(),
    ]);
    t.advance_frame();
    let expected = Tank::from_grains(vec![
        "---".to_string(),
        "g--".to_string(),
        "-g-".to_string(),
    ]);
    assert!(
        t.equals(&expected),
        "expected \n{} \n actual\n{}",
        expected.to_string(),
        t.to_string()
    );
}

// Viscosity gating: a high viscosity on a shallow grid freezes all
// horizontal movement, so grains pile up in their own column.
#[test]
fn test_high_viscosity_freezes_sliding() {
    let mut t = Tank::new(2, 2, 5);
    t.drop_sand_in_column(0, 'g');
    t.advance_frame();
    t.drop_sand_in_column(0, 'g');
    t.advance_frame();
    t.advance_frame();
    let expected = Tank::from_grains(vec!["g-".to_string(), "g-".to_string()]);
    assert!(
        t.equals(&expected),
        "expected \n{} \n actual\n{}",
        expected.to_string(),
        t.to_string()
    );
}

// Idempotence of the height query: repeated calls with no mutation in
// between return the same value.
#[test]
fn test_height_query_repeatable() {
    let t = Tank::from_grains(vec![
        "-g".to_string(),
        "-g".to_string(),
        "g-".to_string(),
    ]);
    let first = t.get_count_of_grains_in_column(1);
    let second = t.get_count_of_grains_in_column(1);
    let third = t.get_count_of_grains_in_column(1);
    assert_eq!(first, 0);
    assert_eq!(second, first);
    assert_eq!(third, first);
}

// The height query counts only the contiguous run from the floor: grains
// at the bottom two rows plus one above a gap count as 2, not 3.
#[test]
fn test_height_query_stops_at_gap() {
    let t = Tank::from_grains(vec![
        "-".to_string(),
        "g".to_string(),
        "-".to_string(),
        "g".to_string(),
        "g".to_string(),
    ]);
    assert_eq!(t.get_count_of_grains_in_column(0), 2);
}

// An area drop fills only the currently empty cells of its square.
#[test]
fn test_drop_area_skips_occupied() {
    let mut t = Tank::from_grains(vec!["--".to_string(), "-x".to_string()]);
    t.drop_sand(0, 0, 'g', 2);
    let expected = Tank::from_grains(vec!["gg".to_string(), "gx".to_string()]);
    assert!(
        t.equals(&expected),
        "expected \n{} \n actual\n{}",
        expected.to_string(),
        t.to_string()
    );
}

// An area drop whose square extends past the far edges is clipped
// silently.
#[test]
fn test_drop_area_clipped_at_edges() {
    let mut t = Tank::new(3, 3, 0);
    t.drop_sand(1, 1, 'g', 3);
    let expected = Tank::from_grains(vec![
        "---".to_string(),
        "-gg".to_string(),
        "-gg".to_string(),
    ]);
    assert!(
        t.equals(&expected),
        "expected \n{} \n actual\n{}",
        expected.to_string(),
        t.to_string()
    );
}

// The text dump is one line per row, one character per cell, empty cells
// shown as '-'.
#[test]
fn test_to_string_exact() {
    let mut t = Tank::new(2, 2, 0);
    t.drop_sand_in_column(1, 'g');
    assert_eq!(t.to_string(), "-g\n--\n");
    let u = Tank::from_grains(vec!["ab".to_string(), "cd".to_string()]);
    assert_eq!(u.to_string(), "ab\ncd\n");
}

// Structural equality requires identical dimensions and identical cells.
#[test]
fn test_equals_discriminates() {
    let a = Tank::new(2, 2, 0);
    let b = Tank::new(2, 2, 7);
    let c = Tank::new(2, 3, 0);
    let d = Tank::new(3, 2, 0);
    let mut e = Tank::new(2, 2, 0);
    e.drop_sand_in_column(0, 'g');
    assert!(a.equals(&b));
    assert!(!a.equals(&c));
    assert!(!a.equals(&d));
    assert!(!a.equals(&e));
    assert!(!e.equals(&a));
    assert!(e.equals(&e));
}

// A grain above a blocked cell with only the right side open slides right
// when the drop potential clears the threshold, and only then.
#[test]
fn test_right_slide_needs_margin() {
    let mut low = Tank::new(2, 2, 0);
    low.drop_sand_in_column(0, 'g');
    low.advance_frame();
    low.drop_sand_in_column(0, 'g');
    low.advance_frame();
    let slid = Tank::from_grains(vec!["-g".to_string(), "g-".to_string()]);
    assert!(
        low.equals(&slid),
        "expected \n{} \n actual\n{}",
        slid.to_string(),
        low.to_string()
    );

    let mut high = Tank::new(2, 2, 1);
    high.drop_sand_in_column(0, 'g');
    high.advance_frame();
    high.drop_sand_in_column(0, 'g');
    high.advance_frame();
    let stuck = Tank::from_grains(vec!["g-".to_string(), "g-".to_string()]);
    assert!(
        high.equals(&stuck),
        "expected \n{} \n actual\n{}",
        stuck.to_string(),
        high.to_string()
    );
}
