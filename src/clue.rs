//! Clues: one marker per letter of a guess, read from the player or derived
//! from a guess and an answer.
use vstd::prelude::*;

use crate::error::SolverError;
use crate::fill::init_array;
use crate::word::{Word, WORD_LEN};

verus! {

/// The marker that a clue gives one letter of a guess.
#[derive(Debug, Clone, Copy, PartialEq, Eq, Structural)]
pub enum Info {
    /// The letter is not in the answer.
    Black,
    /// The letter is in the answer, at another position.
    Yellow,
    /// The letter is in the answer at this position.
    Green,
}

/// One marker for each position of a guess.
pub type Clue = [Info; 5];

/// The marker that a clue character stands for: `x` or `b` for Black, `g` for
/// Green, `y` for Yellow; no other character is a marker.
pub open spec fn marker_spec(c: u8) -> Option<Info> {
    if c == 120u8 || c == 98u8 {
        Some(Info::Black)
    } else if c == 103u8 {
        Some(Info::Green)
    } else if c == 121u8 {
        Some(Info::Yellow)
    } else {
        None
    }
}

/// The clue that a line of markers stands for, if its first five characters are markers.
pub open spec fn decode_spec(line: Seq<u8>) -> Option<Seq<Info>> {
    if line.len() >= WORD_LEN && forall|i: int| 0 <= i < WORD_LEN ==> (#[trigger] marker_spec(line[i])).is_some() {
        Some(Seq::new(WORD_LEN as nat, |i: int| marker_spec(line[i]).unwrap()))
    } else {
        None
    }
}

/// `w` holds the letter `c` at some position.
pub open spec fn contains_letter(w: Seq<u8>, c: u8) -> bool {
    exists|j: int| 0 <= j < w.len() && w[j] == c
}

/// The marker at position `i` of the clue for `guess` when the answer is
/// `answer`. A letter that occurs in the answer is Yellow at every position
/// where it is not Green, however often it occurs.
pub open spec fn clue_at(guess: Seq<u8>, answer: Seq<u8>, i: int) -> Info {
    if guess[i] == answer[i] {
        Info::Green
    } else if contains_letter(answer, guess[i]) {
        Info::Yellow
    } else {
        Info::Black
    }
}

/// The clue for `guess` when the answer is `answer`.
pub open spec fn clue_spec(guess: Seq<u8>, answer: Seq<u8>) -> Seq<Info> {
    Seq::new(WORD_LEN as nat, |i: int| clue_at(guess, answer, i))
}

impl Info {
    /// Reads one clue character.
    pub fn from_u8(c: u8) -> (r: Result<Info, SolverError>)
        ensures
            match marker_spec(c) {
                Some(m) => r == Ok::<Info, SolverError>(m),
                None => r == Err::<Info, SolverError>(SolverError::InvalidClueCharacter),
            },
    {
        if c == 120u8 || c == 98u8 {
            Ok(Info::Black)
        } else if c == 103u8 {
            Ok(Info::Green)
        } else if c == 121u8 {
            Ok(Info::Yellow)
        } else {
            Err(SolverError::InvalidClueCharacter)
        }
    }
}

/// Reads a clue from the first five characters of a line; what follows them
/// (a line break) is ignored.
pub fn decode_clue(line: &[u8]) -> (r: Result<Clue, SolverError>)
    ensures
        match decode_spec(line@) {
            Some(c) => r matches Ok(k) && k@ == c,
            None => r == Err::<Clue, SolverError>(SolverError::InvalidClueCharacter),
        },
{
    if line.len() < WORD_LEN {
        return Err(SolverError::InvalidClueCharacter);
    }
    let mut i: usize = 0;
    while i < WORD_LEN
        invariant
            line@.len() >= WORD_LEN,
            i <= WORD_LEN,
            forall|j: int| 0 <= j < i ==> (#[trigger] marker_spec(line@[j])).is_some(),
        decreases WORD_LEN - i,
    {
        if Info::from_u8(line[i]).is_err() {
            assert(marker_spec(line@[i as int]).is_none());
            return Err(SolverError::InvalidClueCharacter);
        }
        i += 1;
    }
    let marker = |i: usize| -> (m: Info)
        requires
            i < WORD_LEN,
        ensures
            Some(m) == marker_spec(line@[i as int]),
        {
            match Info::from_u8(line[i]) {
                Ok(m) => m,
                Err(_) => Info::Black,
            }
        };
    let clue: Clue = init_array(marker);
    assert(clue@ =~= decode_spec(line@).unwrap());
    Ok(clue)
}

/// Whether `w` holds the letter `c`.
pub fn word_contains(w: &Word, c: u8) -> (r: bool)
    ensures
        r == contains_letter(w@, c),
{
    let r = c == w[0] || c == w[1] || c == w[2] || c == w[3] || c == w[4];
    if r {
        assert(w@[0] == c || w@[1] == c || w@[2] == c || w@[3] == c || w@[4] == c);
    }
    r
}

/// The clue that `guess` earns when the answer is `answer`: Green where the
/// letters agree, else Yellow where the guessed letter occurs in the answer,
/// else Black.
pub fn clue(guess: Word, answer: Word) -> (r: Clue)
    ensures
        r@ == clue_spec(guess@, answer@),
{
    let marker = |i: usize| -> (m: Info)
        requires
            i < WORD_LEN,
        ensures
            m == clue_at(guess@, answer@, i as int),
        {
            if guess[i] == answer[i] {
                Info::Green
            } else if word_contains(&answer, guess[i]) {
                Info::Yellow
            } else {
                Info::Black
            }
        };
    let r: Clue = init_array(marker);
    assert(r@ =~= clue_spec(guess@, answer@));
    r
}

/// The number of Green markers among the first `n` of `c`.
pub open spec fn green_count(c: Seq<Info>, n: nat) -> nat
    decreases n,
{
    if n == 0 {
        0
    } else {
        green_count(c, (n - 1) as nat) + if c[n - 1] == Info::Green {
            1nat
        } else {
            0nat
        }
    }
}

/// The number of positions below `n` where `guess` and `answer` hold the same letter.
pub open spec fn agreeing_positions(guess: Seq<u8>, answer: Seq<u8>, n: nat) -> nat
    decreases n,
{
    if n == 0 {
        0
    } else {
        agreeing_positions(guess, answer, (n - 1) as nat) + if guess[n - 1] == answer[n - 1] {
            1nat
        } else {
            0nat
        }
    }
}

/// A word guessed against itself earns Green at every position.
pub proof fn lemma_clue_of_answer_all_green(w: Seq<u8>)
    requires
        w.len() == WORD_LEN,
    ensures
        forall|i: int| 0 <= i < WORD_LEN ==> #[trigger] clue_spec(w, w)[i] == Info::Green,
{
}

/// The clue for a guess holds as many Green markers as there are positions
/// where the guess and the answer agree.
pub proof fn lemma_green_count_is_agreement(guess: Seq<u8>, answer: Seq<u8>)
    requires
        guess.len() == WORD_LEN,
        answer.len() == WORD_LEN,
    ensures
        green_count(clue_spec(guess, answer), WORD_LEN as nat) == agreeing_positions(guess, answer, WORD_LEN as nat),
{
    lemma_green_count_prefix(guess, answer, WORD_LEN as nat);
}

proof fn lemma_green_count_prefix(guess: Seq<u8>, answer: Seq<u8>, n: nat)
    requires
        n <= WORD_LEN,
    ensures
        green_count(clue_spec(guess, answer), n) == agreeing_positions(guess, answer, n),
    decreases n,
{
    if n > 0 {
        lemma_green_count_prefix(guess, answer, (n - 1) as nat);
    }
}

} // verus!
