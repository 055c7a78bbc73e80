use falling_sand::tank::Tank;

#[test]
fn test_one_column_init() {
    let t = Tank::new(1, 3, 0);
    let expected = Tank::from_grains(vec![
        "-".to_string(),
        "-".to_string(),
        "-".to_string(),
    ]);
    assert!(
        t.equals(&expected),
        "expected \n{} \n actual\n{}",
        expected.to_string(),
        t.to_string()
    );
}

#[test]
fn test_one_column_drop_sand() {
    let mut t = Tank::new(1, 3, 0);
    t.drop_sand_in_column(0, 'g');
    let expected = Tank::from_grains(vec![
        "g".to_string(),
        "-".to_string(),
        "-".to_string(),
    ]);
    assert!(
        t.equals(&expected),
        "expected \n{} \n actual\n{}",
        expected.to_string(),
        t.to_string()
    );
}

#[test]
fn test_one_column_advance_frame1() {
    let mut t = Tank::new(1, 3, 0);
    t.drop_sand_in_column(0, 'g');
    t.advance_frame();
    let expected = Tank::from_grains(vec![
        "-".to_string(),
        "g".to_string(),
        "-".to_string(),
    ]);
    assert!(
        t.equals(&expected),
        "expected \n{} \n actual\n{}",
        expected.to_string(),
        t.to_string()
    );
}

#[test]
fn test_one_column_advance_frame2() {
    let mut t = Tank::new(1, 3, 0);
    t.drop_sand_in_column(0, 'g');
    t.advance_frame();
    t.advance_frame();
    let expected = Tank::from_grains(vec![
        "-".to_string(),
        "-".to_string(),
        "g".to_string(),
    ]);
    assert!(
        t.equals(&expected),
        "expected \n{} \n actual\n{}",
        expected.to_string(),
        t.to_string()
    );
}

#[test]
fn test_one_column_advance_frame3() {
    let mut t = Tank::new(1, 3, 0);
    t.drop_sand_in_column(0, 'g');
    t.advance_frame();
    t.advance_frame();
    t.advance_frame();
    let expected = Tank::from_grains(vec![
        "-".to_string(),
        "-".to_string(),
        "g".to_string(),
    ]);
    assert!(
        t.equals(&expected),
        "expected \n{} \n actual\n{}",
        expected.to_string(),
        t.to_string()
    );
}

#[test]
fn test_one_column_two_grain() {
    let mut t = Tank::new(1, 3, 0);
    t.drop_sand_in_column(0, 'g');
    t.advance_frame();
    t.drop_sand_in_column(0, 'g');
    let expected = Tank::from_grains(vec![
        "g".to_string(),
        "g".to_string(),
        "-".to_string(),
    ]);
    assert!(
        t.equals(&expected),
        "expected \n{} \n actual\n{}",
        expected.to_string(),
        t.to_string()
    );
}

#[test]
fn test_one_column_two_grain_advance_frame1() {
    let mut t = Tank::new(1, 3, 0);
    t.drop_sand_in_column(0, 'g');
    t.advance_frame();
    t.drop_sand_in_column(0, 'g');
    t.advance_frame();
    let expected = Tank::from_grains(vec![
        "-".to_string(),
        "g".to_string(),
        "g".to_string(),
    ]);
    assert!(
        t.equals(&expected),
        "expected \n{} \n actual\n{}",
        expected.to_string(),
        t.to_string()
    );
}

#[test]
fn test_one_column_two_grain_advance_frame2() {
    let mut t = Tank::new(1, 3, 0);
    t.drop_sand_in_column(0, 'g');
    t.advance_frame();
    t.drop_sand_in_column(0, 'g');
    t.advance_frame();
    t.advance_frame();
    let expected = Tank::from_grains(vec![
        "-".to_string(),
        "g".to_string(),
        "g".to_string(),
    ]);
    assert!(
        t.equals(&expected),
        "expected \n{} \n actual\n{}",
        expected.to_string(),
        t.to_string()
    );
}

#[test]
fn test_two_column_two_grain_step0_advance_frame1() {
    let mut t = Tank::new(2, 2, 0);
    t.drop_sand_in_column(0, 'g');
    t.advance_frame();
    t.drop_sand_in_column(0, 'g');
    t.advance_frame();
    let expected = Tank::from_grains(vec!["-g".to_string(), "g-".to_string()]);
    assert!(
        t.equals(&expected),
        "expected \n{} \n actual\n{}",
        expected.to_string(),
        t.to_string()
    );
}

#[test]
fn test_two_column_two_grain_step0_advance_frame2() {
    let mut t = Tank::new(2, 2, 0);
    t.drop_sand_in_column(0, 'g');
    t.advance_frame();
    t.drop_sand_in_column(0, 'g');
    t.advance_frame();
    t.advance_frame();
    let expected = Tank::from_grains(vec!["--".to_string(), "gg".to_string()]);
    assert!(
        t.equals(&expected),
        "expected \n{} \n actual\n{}",
        expected.to_string(),
        t.to_string()
    );
}

#[test]
fn test_two_column_three_grain_step0_setup() {
    let mut t = Tank::new(2, 3, 0);
    t.drop_sand_in_column(0, 'g');
    t.advance_frame();
    t.drop_sand_in_column(0, 'g');
    t.advance_frame();
    t.drop_sand_in_column(0, 'g');
    t.advance_frame();
    let expected = Tank::from_grains(vec![
        "--".to_string(),
        "gg".to_string(),
        "g-".to_string(),
    ]);
    assert!(
        t.equals(&expected),
        "expected \n{} \n actual\n{}",
        expected.to_string(),
        t.to_string()
    );
}

#[test]
fn test_two_column_three_grain_step0_advance_frame1() {
    let mut t = Tank::new(2, 3, 0);
    t.drop_sand_in_column(0, 'g');
    t.advance_frame();
    t.drop_sand_in_column(0, 'g');
    t.advance_frame();
    t.drop_sand_in_column(0, 'g');
    t.advance_frame();
    t.advance_frame();
    let expected = Tank::from_grains(vec![
        "--".to_string(),
        "g-".to_string(),
        "gg".to_string(),
    ]);
    assert!(
        t.equals(&expected),
        "expected \n{} \n actual\n{}",
        expected.to_string(),
        t.to_string()
    );
}

#[test]
fn test_two_column_two_grain_step1() {
    let mut t = Tank::new(2, 2, 1);
    t.drop_sand_in_column(0, 'g');
    t.advance_frame();
    t.drop_sand_in_column(0, 'g');
    let expected = Tank::from_grains(vec!["g-".to_string(), "g-".to_string()]);
    assert!(
        t.equals(&expected),
        "expected \n{} \n actual\n{}",
        expected.to_string(),
        t.to_string()
    );
}

#[test]
fn test_two_column_two_grain_step1_advance_frame1() {
    let mut t = Tank::new(2, 2, 1);
    t.drop_sand_in_column(0, 'g');
    t.advance_frame();
    t.drop_sand_in_column(0, 'g');
    t.advance_frame();
    let expected = Tank::from_grains(vec!["g-".to_string(), "g-".to_string()]);
    assert!(
        t.equals(&expected),
        "expected \n{} \n actual\n{}",
        expected.to_string(),
        t.to_string()
    );
}

#[test]
fn test_three_column_setup() {
    let mut t = Tank::new(3, 3, 0);
    t.drop_sand_in_column(1, 'g');
    t.advance_frame();
    t.drop_sand_in_column(1, 'g');
    t.advance_frame();
    let expected = Tank::from_grains(vec![
        "---".to_string(),
        "-g-".to_string(),
        "-g-".to_string(),
    ]);
    assert!(
        t.equals(&expected),
        "expected \n{} \n actual\n{}",
        expected.to_string(),
        t.to_string()
    );
}

#[test]
fn test_three_column_advance_frame1() {
    let mut t = Tank::new(3, 3, 0);
    t.drop_sand_in_column(1, 'g');
    t.advance_frame();
    t.drop_sand_in_column(1, 'g');
    t.advance_frame();
    t.advance_frame();
    let expected = Tank::from_grains(vec![
        "---".to_string(),
        "g--".to_string(),
        "-g-".to_string(),
    ]);
    assert!(
        t.equals(&expected),
        "expected \n{} \n actual\n{}",
        expected.to_string(),
        t.to_string()
    );
}

#[test]
fn test_three_column_advance_frame2() {
    let mut t = Tank::new(3, 3, 0);
    t.drop_sand_in_column(1, 'g');
    t.advance_frame();
    t.drop_sand_in_column(1, 'g');
    t.advance_frame();
    t.advance_frame();
    t.advance_frame();
    let expected = Tank::from_grains(vec![
        "---".to_string(),
        "---".to_string(),
        "gg-".to_string(),
    ]);
    assert!(
        t.equals(&expected),
        "expected \n{} \n actual\n{}",
        expected.to_string(),
        t.to_string()
    );
}

#[test]
fn test_three_column_drop_another_in_middle() {
    let mut t = Tank::new(3, 3, 0);
    t.drop_sand_in_column(1, 'g');
    t.advance_frame();
    t.drop_sand_in_column(1, 'g');
    t.advance_frame();
    t.advance_frame();
    t.advance_frame();
    t.drop_sand_in_column(1, 'g');
    t.advance_frame();
    t.advance_frame();
    t.advance_frame();
    let expected = Tank::from_grains(vec![
        "---".to_string(),
        "---".to_string(),
        "ggg".to_string(),
    ]);
    assert!(
        t.equals(&expected),
        "expected \n{} \n actual\n{}",
        expected.to_string(),
        t.to_string()
    );
}

#[test]
fn test_three_column_drop_6_on_left_step0() {
    let mut t = Tank::new(3, 3, 0);
    t.drop_sand_in_column(0, 'g');
    t.advance_frame();
    t.drop_sand_in_column(0, 'g');
    t.advance_frame();
    t.drop_sand_in_column(0, 'g');
    t.advance_frame();
    t.drop_sand_in_column(0, 'g');
    t.advance_frame();
    t.drop_sand_in_column(0, 'g');
    t.advance_frame();
    t.advance_frame();
    t.drop_sand_in_column(0, 'g');
    t.advance_frame();
    t.advance_frame();

    let expected = Tank::from_grains(vec![
        "g--".to_string(),
        "gg-".to_string(),
        "ggg".to_string(),
    ]);
    assert!(
        t.equals(&expected),
        "expected \n{} \n actual\n{}",
        expected.to_string(),
        t.to_string()
    );
}

#[test]
fn test_three_column_drop_6_on_middle_step0() {
    let mut t = Tank::new(3, 3, 0);
    t.drop_sand_in_column(1, 'g');
    t.advance_frame();
    t.drop_sand_in_column(1, 'g');
    t.advance_frame();
    t.drop_sand_in_column(1, 'g');
    t.advance_frame();
    t.drop_sand_in_column(1, 'g');
    t.advance_frame();
    t.drop_sand_in_column(1, 'g');
    t.advance_frame();
    t.drop_sand_in_column(1, 'g');
    t.advance_frame();
    t.advance_frame();

    let expected = Tank::from_grains(vec![
        "---".to_string(),
        "ggg".to_string(),
        "ggg".to_string(),
    ]);
    assert!(
        t.equals(&expected),
        "expected \n{} \n actual\n{}",
        expected.to_string(),
        t.to_string()
    );
}

#[test]
fn test_three_column_drop_6_on_right_step0() {
    let mut t = Tank::new(3, 3, 0);
    t.drop_sand_in_column(2, 'g');
    t.advance_frame();
    t.drop_sand_in_column(2, 'g');
    t.advance_frame();
    t.drop_sand_in_column(2, 'g');
    t.advance_frame();
    t.drop_sand_in_column(2, 'g');
    t.advance_frame();
    t.drop_sand_in_column(2, 'g');
    t.advance_frame();
    t.advance_frame();
    t.drop_sand_in_column(2, 'g');
    t.advance_frame();
    t.advance_frame();

    let expected = Tank::from_grains(vec![
        "--g".to_string(),
        "-gg".to_string(),
        "ggg".to_string(),
    ]);
    assert!(
        t.equals(&expected),
        "expected \n{} \n actual\n{}",
        expected.to_string(),
        t.to_string()
    );
}

#[test]
fn test_five_column_drop_15_on_left_step0() {
    let mut t = Tank::new(5, 5, 0);
    t.drop_sand_in_column(0, 'g');
    t.advance_frame();
    t.drop_sand_in_column(0, 'g');
    t.advance_frame();
    t.drop_sand_in_column(0, 'g');
    t.advance_frame();
    t.drop_sand_in_column(0, 'g');
    t.advance_frame();
    t.drop_sand_in_column(0, 'g');
    t.advance_frame();
    t.advance_frame();
    t.drop_sand_in_column(0, 'g');
    t.advance_frame();
    t.advance_frame();
    t.drop_sand_in_column(0, 'g');
    t.advance_frame();
    t.advance_frame();
    t.drop_sand_in_column(0, 'g');
    t.advance_frame();
    t.advance_frame();
    t.drop_sand_in_column(0, 'g');
    t.advance_frame();
    t.advance_frame();
    t.drop_sand_in_column(0, 'g');
    t.advance_frame();
    t.advance_frame();
    t.drop_sand_in_column(0, 'g');
    t.advance_frame();
    t.advance_frame();
    t.drop_sand_in_column(0, 'g');
    t.advance_frame();
    t.advance_frame();
    t.drop_sand_in_column(0, 'g');
    t.advance_frame();
    t.advance_frame();
    t.drop_sand_in_column(0, 'g');
    t.advance_frame();
    t.advance_frame();
    t.drop_sand_in_column(0, 'g');
    t.advance_frame();
    t.advance_frame();

    let expected = Tank::from_grains(vec![
        "g----".to_string(),
        "gg---".to_string(),
        "ggg--".to_string(),
        "gggg-".to_string(),
        "ggggg".to_string(),
    ]);
    assert!(
        t.equals(&expected),
        "expected \n{} \n actual\n{}",
        expected.to_string(),
        t.to_string()
    );
}

#[test]
fn test_five_column_drop_15_on_middle_step0() {
    let mut t = Tank::new(5, 5, 0);
    t.drop_sand_in_column(2, 'g');
    t.advance_frame();
    t.drop_sand_in_column(2, 'g');
    t.advance_frame();
    t.drop_sand_in_column(2, 'g');
    t.advance_frame();
    t.drop_sand_in_column(2, 'g');
    t.advance_frame();
    t.drop_sand_in_column(2, 'g');
    t.advance_frame();
    t.advance_frame();
    t.drop_sand_in_column(2, 'g');
    t.advance_frame();
    t.advance_frame();
    t.drop_sand_in_column(2, 'g');
    t.advance_frame();
    t.advance_frame();
    t.drop_sand_in_column(2, 'g');
    t.advance_frame();
    t.advance_frame();
    t.drop_sand_in_column(2, 'g');
    t.advance_frame();
    t.advance_frame();
    t.drop_sand_in_column(2, 'g');
    t.advance_frame();
    t.advance_frame();
    t.drop_sand_in_column(2, 'g');
    t.advance_frame();
    t.advance_frame();
    t.drop_sand_in_column(2, 'g');
    t.advance_frame();
    t.advance_frame();
    t.drop_sand_in_column(2, 'g');
    t.advance_frame();
    t.advance_frame();
    t.drop_sand_in_column(2, 'g');
    t.advance_frame();
    t.advance_frame();
    t.drop_sand_in_column(2, 'g');
    t.advance_frame();
    t.advance_frame();
    t.advance_frame();
    t.advance_frame();

    let expected = Tank::from_grains(vec![
        "-----".to_string(),
        "--g--".to_string(),
        "gggg-".to_string(),
        "ggggg".to_string(),
        "ggggg".to_string(),
    ]);
    assert!(
        t.equals(&expected),
        "expected \n{} \n actual\n{}",
        expected.to_string(),
        t.to_string()
    );
}

#[test]
fn test_straight_line() {
    let t = Tank::from_grains(vec![
        "--------G----------------------".to_string(),
        "--------G----------------------".to_string(),
        "-----------G------------------".to_string(),
        "--------G----------------------".to_string(),
        "--------G----------------------".to_string(),
        "--------G----------------------".to_string(),
    ]);

    assert!(
        t.get_count_of_grains_in_column(8) == 3,
        "get_count_of_grains_in_column is incorrect, expected: {} actual: {}",
        3,
        t.get_count_of_grains_in_column(8)
    );
    assert!(
        t.get_count_of_grains_in_column(11) == 0,
        "get_count_of_grains_in_column is incorrect, expected: {} actual: {}",
        0,
        t.get_count_of_grains_in_column(11)
    );
}
