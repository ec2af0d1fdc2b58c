use tiny_games::hangman::{random_word_index, Game, GuessResult};

#[test]
fn guessing_a_word() {
    let mut g = Game::new("noon");
    let mut shown = String::new();
    g.show(&mut shown);
    assert_eq!(shown, "****");
    assert_eq!(g.guess('o'), GuessResult::Continue);
    g.show(&mut shown);
    assert_eq!(shown, "*oo*");
    assert_eq!(g.guess('o'), GuessResult::Repeated);
    assert_eq!(g.guess('x'), GuessResult::NotPrecent);
    assert_eq!(g.missed(), 1);
    assert!(!g.has_won());
    assert_eq!(g.guess('n'), GuessResult::Win);
    assert!(g.has_won());
    assert_eq!(g.answer(), "noon");
}

#[test]
fn word_index_in_range() {
    assert_eq!(random_word_index(0), None);
    for _ in 0..20 {
        assert!(random_word_index(3).unwrap() < 3);
    }
    assert_eq!(random_word_index(1), Some(0));
}
