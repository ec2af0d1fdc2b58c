use tiny_games::clock::display_time;

#[test]
fn clock_digits_and_places() {
    assert_eq!(
        display_time(23, 5, 59),
        vec![(4, 4, 2), (8, 4, 3), (14, 4, 0), (18, 4, 5), (24, 4, 5), (28, 4, 9)]
    );
}
