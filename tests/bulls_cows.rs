use tiny_games::bulls_cows::Digits;

#[test]
fn digits_format() {
    // valid case
    assert!(Digits::new("1234").is_some());
    assert!(Digits::new("5678").is_some());
    // invalid case
    assert!(Digits::new("234").is_none()); // length < 4
    assert!(Digits::new("12345").is_none()); // length > 4
    assert!(Digits::new("234a").is_none()); // contains not only digits
    assert!(Digits::new("1341").is_none()); // contains repeated digits
}

#[test]
fn digits_guessing() {
    let answer = Digits::new("1357").unwrap();

    let guess1 = Digits::new("1234").unwrap();
    let guess2 = Digits::new("7135").unwrap();
    let guess3 = Digits::new("1357").unwrap();
    assert_eq!(answer.check(&guess1), (1, 1));
    assert_eq!(answer.check(&guess2), (0, 4));
    assert_eq!(answer.check(&guess3), (4, 0));
}

#[test]
fn check_correct_only_on_exact_match() {
    let answer = Digits::new("9012").unwrap();
    assert!(answer.check_correct(&Digits::new("9012").unwrap()));
    assert!(!answer.check_correct(&Digits::new("9021").unwrap()));
    assert_eq!(answer.check(&Digits::new("3456").unwrap()), (0, 0));
}

#[test]
fn non_ascii_input_is_rejected() {
    assert!(Digits::new("12é").is_none());
    assert!(Digits::new("").is_none());
}

#[test]
fn generated_secret_scores_four_against_itself() {
    let secret = Digits::generate();
    assert_eq!(secret.check(&secret), (4, 0));
}
