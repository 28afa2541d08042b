use ml_life_killer::trainer::history::ValueThingy;

#[test]
fn new_window_is_empty() {
    let scores = ValueThingy::new(3);
    assert_eq!(scores.value(), None);
    assert_eq!(scores.max(), None);
    assert_eq!(scores.min(), None);
    assert_eq!(scores.total(), Some((0, 0)));
    assert!(!scores.averages_ready());
}

#[test]
fn update_keeps_the_newest_values() {
    let mut scores = ValueThingy::new(3);
    scores.update(5);
    assert_eq!(scores.value(), Some(5));
    assert!(!scores.averages_ready());
    scores.update(-2);
    scores.update(9);
    assert!(scores.averages_ready());
    assert_eq!(scores.total(), Some((12, 3)));
    assert_eq!(scores.max(), Some(9));
    assert_eq!(scores.min(), Some(-2));
    scores.update(1);
    // The five has left the window.
    assert_eq!(scores.total(), Some((8, 3)));
    assert_eq!(scores.value(), Some(1));
    scores.update(0);
    assert_eq!(scores.min(), Some(0));
    assert_eq!(scores.max(), Some(9));
    scores.update(4);
    assert_eq!(scores.max(), Some(4));
    assert_eq!(scores.total(), Some((5, 3)));
}

#[test]
fn window_of_zero_only_grows() {
    let mut scores = ValueThingy::new(0);
    assert!(scores.averages_ready());
    scores.update(1);
    scores.update(2);
    scores.update(3);
    assert_eq!(scores.total(), Some((6, 3)));
    assert_eq!(scores.value(), Some(3));
}

#[test]
fn total_reports_a_sum_that_cannot_be_held() {
    let mut scores = ValueThingy::new(2);
    scores.update(isize::MAX);
    scores.update(1);
    assert_eq!(scores.total(), None);
    assert_eq!(scores.max(), Some(isize::MAX));
}

#[test]
fn clone_keeps_values_and_window() {
    let mut scores = ValueThingy::new(2);
    scores.update(7);
    let mut copy = scores.clone();
    copy.update(8);
    copy.update(9);
    assert_eq!(scores.total(), Some((7, 1)));
    assert_eq!(copy.total(), Some((17, 2)));
}
