use smart_pointers::patterns::binding_case;
use smart_pointers::patterns::classify_letter;
use smart_pointers::patterns::classify_number;
use smart_pointers::patterns::for_loops_pattern;
use smart_pointers::patterns::if_let_cases;
use smart_pointers::patterns::locate;
use smart_pointers::patterns::match_cases;
use smart_pointers::patterns::match_cases_with;
use smart_pointers::patterns::match_guard;
use smart_pointers::patterns::odd_places;
use smart_pointers::patterns::sum_of_squares;
use smart_pointers::patterns::update_setting;
use smart_pointers::patterns::while_let;
use smart_pointers::patterns::Background;
use smart_pointers::patterns::GuardOutcome;
use smart_pointers::patterns::IdClass;
use smart_pointers::patterns::LetterClass;
use smart_pointers::patterns::Msg;
use smart_pointers::patterns::NumberClass;
use smart_pointers::patterns::Point;
use smart_pointers::patterns::PointPlace;
use smart_pointers::patterns::SettingUpdate;
use smart_pointers::random::roll;

#[test]
fn numbers_fall_into_the_first_arm_that_matches() {
    assert_eq!(classify_number(1), NumberClass::One);
    assert_eq!(classify_number(2), NumberClass::TwoToFive);
    assert_eq!(classify_number(5), NumberClass::TwoToFive);
    assert_eq!(classify_number(6), NumberClass::SixOrSeven);
    assert_eq!(classify_number(7), NumberClass::SixOrSeven);
    assert_eq!(classify_number(0), NumberClass::Other);
    assert_eq!(classify_number(8), NumberClass::Other);
    assert_eq!(classify_number(9), NumberClass::Other);
    assert_eq!(classify_number(-1), NumberClass::Other);
    assert_eq!(classify_number(i32::MAX), NumberClass::Other);
}

#[test]
fn letters_fall_into_two_ranges() {
    assert_eq!(classify_letter('a'), LetterClass::Early);
    assert_eq!(classify_letter('c'), LetterClass::Early);
    assert_eq!(classify_letter('j'), LetterClass::Early);
    assert_eq!(classify_letter('k'), LetterClass::Late);
    assert_eq!(classify_letter('z'), LetterClass::Late);
    assert_eq!(classify_letter('A'), LetterClass::Other);
    assert_eq!(classify_letter('`'), LetterClass::Other);
    assert_eq!(classify_letter('{'), LetterClass::Other);
    assert_eq!(classify_letter('7'), LetterClass::Other);
}

#[test]
fn a_point_is_matched_with_a_literal_in_the_pattern() {
    assert_eq!(locate(Point { x: 4, y: 5 }), PointPlace::OnLine(5));
    assert_eq!(locate(Point { x: 4, y: -4 }), PointPlace::OnLine(-4));
    assert_eq!(locate(Point { x: 5, y: 4 }), PointPlace::Elsewhere(5, 4));
    assert_eq!(locate(Point { x: 0, y: 0 }), PointPlace::Elsewhere(0, 0));
}

#[test]
fn squares_are_summed() {
    let points = vec![Point { x: 0, y: 0 }, Point { x: 10, y: 10 }, Point { x: 8, y: 23 }];
    assert_eq!(sum_of_squares(&points), Some(793));
    assert_eq!(sum_of_squares(&Vec::new()), Some(0));
    assert_eq!(sum_of_squares(&vec![Point { x: -3, y: 4 }]), Some(25));
}

#[test]
fn a_sum_of_squares_that_does_not_fit_is_refused() {
    assert_eq!(sum_of_squares(&vec![Point { x: 46340, y: 0 }]), Some(2147395600));
    assert_eq!(sum_of_squares(&vec![Point { x: 46341, y: 0 }]), None);
    assert_eq!(sum_of_squares(&vec![Point { x: 0, y: i32::MIN }]), None);
    assert_eq!(sum_of_squares(&vec![Point { x: 46340, y: 295 }]), Some(2147482625));
    assert_eq!(sum_of_squares(&vec![Point { x: 46340, y: 296 }]), Some(2147483216));
    assert_eq!(sum_of_squares(&vec![Point { x: 46340, y: 297 }]), None);
    assert_eq!(
        sum_of_squares(&vec![Point { x: 40000, y: 0 }, Point { x: 0, y: 40000 }]),
        None
    );
    assert_eq!(
        sum_of_squares(&vec![Point { x: 46341, y: 0 }, Point { x: 0, y: 0 }]),
        None
    );
}

#[test]
fn a_customized_setting_is_not_overwritten() {
    assert_eq!(
        update_setting(Some(5), Some(10)),
        SettingUpdate { setting: Some(5), refused: true }
    );
    assert_eq!(
        update_setting(None, Some(10)),
        SettingUpdate { setting: Some(10), refused: false }
    );
    assert_eq!(update_setting(Some(5), None), SettingUpdate { setting: None, refused: false });
    assert_eq!(update_setting(None, None), SettingUpdate { setting: None, refused: false });
}

#[test]
fn odd_places_are_picked() {
    assert_eq!(odd_places((1, 2, 3, 4, 5)), (1, 3, 5));
    assert_eq!(odd_places((9, 8, 7, 6, 5)), (9, 7, 5));
}

#[test]
fn a_guard_decides_after_the_pattern() {
    assert_eq!(match_guard(Some(5), 5), GuardOutcome::Matched(5));
    assert_eq!(match_guard(Some(50), 5), GuardOutcome::Fifty);
    assert_eq!(match_guard(Some(50), 50), GuardOutcome::Fifty);
    assert_eq!(match_guard(Some(4), 5), GuardOutcome::Default);
    assert_eq!(match_guard(None, 5), GuardOutcome::Default);
}

#[test]
fn an_id_is_bound_while_it_is_tested() {
    assert_eq!(binding_case(Msg::Hello { id: 5 }), IdClass::InRange(5));
    assert_eq!(binding_case(Msg::Hello { id: 3 }), IdClass::InRange(3));
    assert_eq!(binding_case(Msg::Hello { id: 8 }), IdClass::InRange(8));
    assert_eq!(binding_case(Msg::Hello { id: 9 }), IdClass::Other(9));
    assert_eq!(binding_case(Msg::Hello { id: 10 }), IdClass::Unbound);
    assert_eq!(binding_case(Msg::Hello { id: 13 }), IdClass::Unbound);
    assert_eq!(binding_case(Msg::Hello { id: 14 }), IdClass::Other(14));
    assert_eq!(binding_case(Msg::Hello { id: 2 }), IdClass::Other(2));
}

#[test]
fn the_background_follows_the_first_condition_that_holds() {
    assert_eq!(if_let_cases(true, true, Some(34)), Background::Favorite);
    assert_eq!(if_let_cases(true, false, None), Background::Favorite);
    assert_eq!(if_let_cases(false, true, Some(34)), Background::Green);
    assert_eq!(if_let_cases(false, false, Some(34)), Background::Purple);
    assert_eq!(if_let_cases(false, false, Some(31)), Background::Purple);
    assert_eq!(if_let_cases(false, false, Some(30)), Background::Orange);
    assert_eq!(if_let_cases(false, false, Some(0)), Background::Orange);
    assert_eq!(if_let_cases(false, false, None), Background::Blue);
}

#[test]
fn a_stack_comes_off_top_first() {
    assert_eq!(while_let(vec![1, 2, 3]), vec![3, 2, 1]);
    assert_eq!(while_let(Vec::new()), Vec::<i32>::new());
    assert_eq!(while_let(vec![7]), vec![7]);
}

#[test]
fn values_are_paired_with_their_index() {
    assert_eq!(for_loops_pattern(&vec![1, 2, 3]), vec![(0, 1), (1, 2), (2, 3)]);
    assert_eq!(for_loops_pattern(&Vec::new()), Vec::<(usize, i32)>::new());
}

#[test]
fn the_tour_reports_for_a_given_number() {
    let report = match_cases_with(3);
    assert_eq!(report.roll, 3);
    assert_eq!(report.number, NumberClass::TwoToFive);
    assert_eq!(report.letter, LetterClass::Early);
    assert_eq!(report.place, PointPlace::OnLine(5));
    assert_eq!(report.squares, Some(793));
    assert_eq!(report.setting, SettingUpdate { setting: Some(5), refused: true });
    assert_eq!(report.picked, (1, 3, 5));
    assert_eq!(match_cases_with(1).number, NumberClass::One);
    assert_eq!(match_cases_with(7).number, NumberClass::SixOrSeven);
    assert_eq!(match_cases_with(9).number, NumberClass::Other);
}

#[test]
fn the_tour_draws_a_number_below_ten() {
    for _ in 0..200 {
        let report = match_cases();
        assert!(0 <= report.roll && report.roll < 10);
        assert_eq!(report, match_cases_with(report.roll));
    }
}

#[test]
fn a_roll_stays_in_its_range() {
    for _ in 0..200 {
        let x = roll(-5, 5).unwrap();
        assert!(-5 <= x && x < 5);
    }
    assert_eq!(roll(7, 8), Some(7));
    assert_eq!(roll(i32::MAX - 1, i32::MAX), Some(i32::MAX - 1));
}

#[test]
fn a_roll_is_not_one_of_its_bounds_every_time() {
    let mut low_every_time = true;
    for _ in 0..64 {
        let x = roll(0, 1_000_000).unwrap();
        assert!(x != 1_000_000);
        if x != 0 {
            low_every_time = false;
        }
    }
    assert!(!low_every_time);
}

#[test]
fn an_empty_range_gives_no_roll() {
    assert_eq!(roll(5, 5), None);
    assert_eq!(roll(6, 5), None);
    assert_eq!(roll(i32::MAX, i32::MIN), None);
}
