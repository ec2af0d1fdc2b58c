//! Bulls and cows: a secret of four distinct decimal digits, and the score of
//! a guess against it.
use vstd::prelude::*;
use crate::random::four_distinct_digits;
use vstd::string::StringSliceAdditionalSpecFns;

verus! {

/// The decimal value of a character, if it is an ASCII digit.
pub open spec fn digit_value(c: char) -> Option<u32> {
    if '0' <= c && c <= '9' {
        Some((c as u32 - '0' as u32) as u32)
    } else {
        None
    }
}

/// Four digits, each below ten, no two alike.
pub open spec fn valid_digits(d: Seq<u32>) -> bool {
    &&& d.len() == 4
    &&& forall|i: int| 0 <= i < 4 ==> d[i] < 10
    &&& forall|i: int, j: int| 0 <= i < j < 4 ==> d[i] != d[j]
}

/// The four characters of `s` read as digits.
pub open spec fn digits_of(s: Seq<char>) -> Seq<u32> {
    s.map_values(|c: char| digit_value(c)->0)
}

/// `s` spells four distinct decimal digits.
pub open spec fn well_formed_guess(s: Seq<char>) -> bool {
    &&& s.len() == 4
    &&& forall|i: int| 0 <= i < 4 ==> digit_value(#[trigger] s[i]) is Some
    &&& valid_digits(digits_of(s))
}

/// Positions among the first `k` where secret and guess hold the same digit.
pub open spec fn bulls(a: Seq<u32>, g: Seq<u32>, k: int) -> nat
    decreases k,
{
    if k <= 0 {
        0
    } else {
        bulls(a, g, k - 1) + if a[k - 1] == g[k - 1] { 1nat } else { 0nat }
    }
}

/// Positions among the first `k` whose secret digit occurs elsewhere in the guess.
pub open spec fn cows(a: Seq<u32>, g: Seq<u32>, k: int) -> nat
    decreases k,
{
    if k <= 0 {
        0
    } else {
        cows(a, g, k - 1) + if a[k - 1] != g[k - 1] && g.contains(a[k - 1]) {
            1nat
        } else {
            0nat
        }
    }
}

/// A secret or a guess: four distinct decimal digits.
pub struct Digits {
    digits: [u32; 4],
}

impl View for Digits {
    type V = Seq<u32>;

    closed spec fn view(&self) -> Seq<u32> {
        self.digits@
    }
}

impl Digits {
    pub open spec fn wf(&self) -> bool {
        valid_digits(self@)
    }

    /// Reads four distinct digits from `numbers`; `None` if it is not exactly
    /// four bytes of distinct decimal digits.
    pub fn new(numbers: &str) -> (r: Option<Digits>)
        ensures
            r is Some <==> numbers.spec_bytes().len() == 4 && well_formed_guess(numbers@),
            r matches Some(d) ==> d.wf() && d@ == digits_of(numbers@),
    {
        if numbers.as_bytes().len() != 4 {
            return None;
        }
        let mut digit_set: [bool; 10] = [false; 10];
        let mut guess: [u32; 4] = [0; 4];
        let mut i: usize = 0;
        for c in it: numbers.chars()
            invariant
                numbers.spec_bytes().len() == 4,
                i == it.index(),
                it.seq() == numbers@,
                i <= 4,
                forall|k: int| 0 <= k < i ==> digit_value(#[trigger] numbers@[k]) is Some,
                forall|k: int| 0 <= k < i ==> guess@[k] == digit_value(numbers@[k])->0,
                forall|k: int, l: int| 0 <= k < l < i ==> guess@[k] != guess@[l],
                forall|d: int| 0 <= d < 10 ==> (digit_set@[d] <==> exists|k: int|
                    0 <= k < i && guess@[k] == d),
        {
            if i >= 4 {
                return None;
            }
            if c < '0' || c > '9' {
                return None;
            }
            let digit: u32 = (c as u32) - ('0' as u32);
            if digit_set[digit as usize] {
                proof {
                    let k = choose|k: int| 0 <= k < i && guess@[k] == digit;
                    assert(digits_of(numbers@)[k] == digits_of(numbers@)[i as int]);
                }
                return None;
            }
            let ghost old_set = digit_set@;
            let ghost old_guess = guess@;
            digit_set[digit as usize] = true;
            guess[i] = digit;
            assert forall|d: int| 0 <= d < 10 implies (digit_set@[d] <==> exists|k: int|
                0 <= k < i + 1 && guess@[k] == d) by {
                if d == digit as int {
                    assert(guess@[i as int] == d);
                } else if old_set[d] {
                    let k = choose|k: int| 0 <= k < i && old_guess[k] == d;
                    assert(guess@[k] == d);
                }
            }
            i = i + 1;
        }
        if i != 4 {
            return None;
        }
        let d = Digits { digits: guess };
        assert(d@ =~= digits_of(numbers@));
        Some(d)
    }

    /// A secret drawn at random.
    pub fn generate() -> (r: Digits)
        ensures
            r.wf(),
    {
        let picked = four_distinct_digits();
        let digits: [u32; 4] = [
            picked[0] as u32,
            picked[1] as u32,
            picked[2] as u32,
            picked[3] as u32,
        ];
        Digits { digits }
    }

    /// The score of `guess` against this secret: (bulls, cows).
    pub fn check(&self, guess: &Digits) -> (r: (u32, u32))
        ensures
            r.0 == bulls(self@, guess@, 4),
            r.1 == cows(self@, guess@, 4),
    {
        let mut correct_count: u32 = 0;
        let mut diff_count: u32 = 0;
        let mut i: usize = 0;
        while i < 4
            invariant
                i <= 4,
                correct_count == bulls(self@, guess@, i as int),
                diff_count == cows(self@, guess@, i as int),
                correct_count + diff_count <= i,
            decreases 4 - i,
        {
            let self_digit = self.digits[i];
            if self_digit == guess.digits[i] {
                correct_count = correct_count + 1;
            } else {
                let mut found = false;
                let mut j: usize = 0;
                while j < 4
                    invariant
                        j <= 4,
                        found <==> exists|k: int| 0 <= k < j && guess@[k] == self_digit,
                    decreases 4 - j,
                {
                    if guess.digits[j] == self_digit {
                        found = true;
                        assert(guess@[j as int] == self_digit);
                    }
                    j = j + 1;
                }
                assert(found <==> guess@.contains(self_digit));
                if found {
                    diff_count = diff_count + 1;
                }
            }
            i = i + 1;
        }
        (correct_count, diff_count)
    }

    /// Whether `guess` matches this secret in every position.
    pub fn check_correct(&self, guess: &Digits) -> (r: bool)
        ensures
            r == (bulls(self@, guess@, 4) == 4),
    {
        let (correct_count, _) = self.check(guess);
        correct_count == 4
    }
}

} // verus!
