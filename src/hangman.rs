//! Hangman: guessing the letters of a hidden word one at a time.
use vstd::prelude::*;
use vstd::string::{StrSliceExecFns, StringExecFns};
use crate::random::random_below;

verus! {

#[derive(Debug, Clone, Copy, PartialEq, Eq, Structural)]
pub enum GuessResult {
    /// The last hidden letter was found.
    Win,
    /// A letter of the word, with more still hidden.
    Continue,
    /// The letter was already guessed.
    Repeated,
    /// The letter is not in the word.
    NotPrecent,
}

/// The word as shown: each guessed letter in place, `*` for the others.
pub open spec fn masked(answer: Seq<char>, guesses: Seq<char>) -> Seq<char> {
    answer.map_values(|c: char| if guesses.contains(c) { c } else { '*' })
}

/// The word shows no `*`.
pub open spec fn solved(answer: Seq<char>, guesses: Seq<char>) -> bool {
    forall|i: int| 0 <= i < answer.len() ==> #[trigger] masked(answer, guesses)[i] != '*'
}

/// Picks the index of the hidden word among `count` candidates, at random.
pub fn random_word_index(count: usize) -> (r: Option<usize>)
    ensures
        r is Some <==> count > 0,
        r matches Some(i) ==> i < count,
{
    if count == 0 {
        None
    } else {
        Some(random_below(count))
    }
}

fn contains_char(v: &Vec<char>, c: char) -> (r: bool)
    ensures
        r == v@.contains(c),
{
    let mut i: usize = 0;
    while i < v.len()
        invariant
            i <= v@.len(),
            forall|k: int| 0 <= k < i ==> v@[k] != c,
        decreases v@.len() - i,
    {
        if v[i] == c {
            assert(v@[i as int] == c);
            return true;
        }
        i = i + 1;
    }
    false
}

fn str_contains_char(s: &str, c: char) -> (r: bool)
    ensures
        r == s@.contains(c),
{
    let n = s.unicode_len();
    let mut i: usize = 0;
    while i < n
        invariant
            n == s@.len(),
            i <= n,
            forall|k: int| 0 <= k < i ==> s@[k] != c,
        decreases n - i,
    {
        if s.get_char(i) == c {
            assert(s@[i as int] == c);
            return true;
        }
        i = i + 1;
    }
    false
}

pub struct Game {
    answer: String,
    guesses: Vec<char>,
    missed: i32,
}

impl Game {
    pub closed spec fn word(&self) -> Seq<char> {
        self.answer@
    }

    /// The letters found so far, in the order they were found.
    pub closed spec fn guesses(&self) -> Seq<char> {
        self.guesses@
    }

    /// How many guesses missed.
    pub closed spec fn misses(&self) -> int {
        self.missed as int
    }

    /// A game on `answer`, nothing guessed yet.
    pub fn new(answer: &str) -> (r: Game)
        ensures
            r.word() == answer@,
            r.guesses() == Seq::<char>::empty(),
            r.misses() == 0,
    {
        Game { answer: String::from_str(answer), guesses: Vec::new(), missed: 0 }
    }

    /// The hidden word.
    pub fn answer(&self) -> (r: &str)
        ensures
            r@ == self.word(),
    {
        self.answer.as_str()
    }

    /// How many guesses missed.
    pub fn missed(&self) -> (r: i32)
        ensures
            r == self.misses(),
    {
        self.missed
    }

    /// Takes one guessed letter.
    pub fn guess(&mut self, guess: char) -> (r: GuessResult)
        requires
            old(self).misses() < i32::MAX,
        ensures
            final(self).word() == old(self).word(),
            old(self).guesses().contains(guess) ==> r == GuessResult::Repeated && *final(self)
                == *old(self),
            !old(self).guesses().contains(guess) && old(self).word().contains(guess) ==> {
                &&& final(self).guesses() == old(self).guesses().push(guess)
                &&& final(self).misses() == old(self).misses()
                &&& r == if solved(final(self).word(), final(self).guesses()) {
                    GuessResult::Win
                } else {
                    GuessResult::Continue
                }
            },
            !old(self).guesses().contains(guess) && !old(self).word().contains(guess) ==> {
                &&& final(self).guesses() == old(self).guesses()
                &&& final(self).misses() == old(self).misses() + 1
                &&& r == GuessResult::NotPrecent
            },
    {
        if contains_char(&self.guesses, guess) {
            GuessResult::Repeated
        } else if str_contains_char(self.answer.as_str(), guess) {
            self.guesses.push(guess);
            if self.has_won() {
                GuessResult::Win
            } else {
                GuessResult::Continue
            }
        } else {
            self.missed = self.missed + 1;
            GuessResult::NotPrecent
        }
    }

    /// Writes the word as shown into `result`: guessed letters in place, `*`
    /// for the others.
    pub fn show(&self, result: &mut String)
        ensures
            final(result)@ == masked(self.word(), self.guesses()),
    {
        *result = String::new();
        let n = self.answer.as_str().unicode_len();
        let mut i: usize = 0;
        while i < n
            invariant
                n == self.answer@.len(),
                i <= n,
                result@ == masked(self.answer@.subrange(0, i as int), self.guesses@),
            decreases n - i,
        {
            let c = self.answer.as_str().get_char(i);
            if contains_char(&self.guesses, c) {
                result.append(self.answer.as_str().substring_char(i, i + 1));
            } else {
                result.append("*");
                proof {
                    reveal_strlit("*");
                }
            }
            i = i + 1;
            assert(result@ =~= masked(self.answer@.subrange(0, i as int), self.guesses@));
        }
        assert(self.answer@.subrange(0, n as int) =~= self.answer@);
    }

    /// Whether every letter of the word has been guessed.
    pub fn has_won(&self) -> (r: bool)
        ensures
            r == solved(self.word(), self.guesses()),
    {
        let mut state = String::new();
        self.show(&mut state);
        let n = state.as_str().unicode_len();
        let mut i: usize = 0;
        while i < n
            invariant
                n == state@.len(),
                state@ == masked(self.word(), self.guesses()),
                i <= n,
                forall|k: int| 0 <= k < i ==> state@[k] != '*',
            decreases n - i,
        {
            if state.as_str().get_char(i) == '*' {
                return false;
            }
            i = i + 1;
        }
        true
    }
}

} // verus!
