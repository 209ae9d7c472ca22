//! What the clues so far have taught: confirmed letters by position, and for
//! each letter of the alphabet whether the answer holds it.
use vstd::prelude::*;

use crate::clue::{clue_spec, contains_letter, word_contains, Clue, Info};
use crate::fill::init_array;
use crate::word::{is_letter, is_word, letter_index_spec, u8_to_letter_index, Word, ALPHABET_LEN, WORD_LEN};

verus! {

/// What is known of one letter of the alphabet.
#[derive(Debug, Clone, Copy, PartialEq, Eq, Structural)]
pub enum LetterStatus {
    /// The answer holds the letter.
    Yes,
    /// The answer does not hold the letter.
    No,
    /// Nothing is known of the letter.
    Unknown,
}

/// The status of each letter, `a` first.
#[derive(Debug, Clone, Copy, PartialEq, Eq)]
pub struct LettersContained(pub [LetterStatus; 26]);

/// The model of a knowledge state.
pub ghost struct Knowledge {
    /// The letter confirmed at each position, if any.
    pub mask: Seq<Option<u8>>,
    /// The status of each letter of the alphabet.
    pub letters: Seq<LetterStatus>,
}

/// The knowledge state: confirmed letters by position and the status of each letter.
#[derive(Debug, Clone, Copy, PartialEq, Eq)]
pub struct InfoState {
    pub mask: [Option<u8>; 5],
    pub letters: LettersContained,
}

impl View for InfoState {
    type V = Knowledge;

    open spec fn view(&self) -> Knowledge {
        Knowledge { mask: self.mask@, letters: self.letters.0@ }
    }
}

/// The mask after a guess: a confirmed position keeps its letter; an open
/// position is confirmed with the guessed letter where `hit` holds.
pub open spec fn mask_after(mask: Seq<Option<u8>>, guess: Seq<u8>, hit: Seq<bool>) -> Seq<Option<u8>> {
    Seq::new(
        WORD_LEN as nat,
        |i: int|
            if mask[i].is_some() {
                mask[i]
            } else if hit[i] {
                Some(guess[i])
            } else {
                None
            },
    )
}

/// The letter statuses after marking the first `n` letters of `guess`, in
/// order: Yes where `present` holds, No elsewhere. A later position
/// overwrites an earlier one with the same letter.
pub open spec fn mark_letters(
    letters: Seq<LetterStatus>,
    guess: Seq<u8>,
    present: Seq<bool>,
    n: nat,
) -> Seq<LetterStatus>
    decreases n,
{
    if n == 0 {
        letters
    } else {
        mark_letters(letters, guess, present, (n - 1) as nat).update(
            letter_index_spec(guess[n - 1]),
            if present[n - 1] {
                LetterStatus::Yes
            } else {
                LetterStatus::No
            },
        )
    }
}

impl Knowledge {
    /// Nothing known: no position confirmed, every letter Unknown.
    pub open spec fn empty() -> Knowledge {
        Knowledge {
            mask: Seq::new(WORD_LEN as nat, |i: int| None),
            letters: Seq::new(ALPHABET_LEN as nat, |i: int| LetterStatus::Unknown),
        }
    }

    /// `w` agrees with every confirmed position, and each letter of `w` at an
    /// open position is not known to be absent.
    pub open spec fn consistent(self, w: Seq<u8>) -> bool {
        forall|i: int|
            0 <= i < WORD_LEN ==> match #[trigger] self.mask[i] {
                Some(c) => w[i] == c,
                None => self.letters[letter_index_spec(w[i])] != LetterStatus::No,
            }
    }

    /// The knowledge after `guess` earned `clue`.
    pub open spec fn update(self, guess: Seq<u8>, clue: Seq<Info>) -> Knowledge {
        Knowledge {
            mask: mask_after(self.mask, guess, Seq::new(WORD_LEN as nat, |i: int| clue[i] == Info::Green)),
            letters: mark_letters(
                self.letters,
                guess,
                Seq::new(WORD_LEN as nat, |i: int| clue[i] != Info::Black),
                WORD_LEN as nat,
            ),
        }
    }

    /// The knowledge after `guess` was made and the answer `answer` became known.
    pub open spec fn update_from_answer(self, guess: Seq<u8>, answer: Seq<u8>) -> Knowledge {
        Knowledge {
            mask: mask_after(self.mask, guess, Seq::new(WORD_LEN as nat, |i: int| guess[i] == answer[i])),
            letters: mark_letters(
                self.letters,
                guess,
                Seq::new(WORD_LEN as nat, |i: int| contains_letter(answer, guess[i])),
                WORD_LEN as nat,
            ),
        }
    }
}

impl LettersContained {
    /// Whether the answer may hold `x`: its status is not No.
    pub fn possibly_contains(&self, x: u8) -> (r: bool)
        requires
            is_letter(x),
        ensures
            r == (self.0@[letter_index_spec(x)] != LetterStatus::No),
    {
        match self.0[u8_to_letter_index(x)] {
            LetterStatus::No => false,
            LetterStatus::Unknown | LetterStatus::Yes => true,
        }
    }

    /// Records that the answer holds `x`.
    pub fn mark_contains(&mut self, x: u8)
        requires
            is_letter(x),
        ensures
            final(self).0@ == old(self).0@.update(letter_index_spec(x), LetterStatus::Yes),
    {
        self.0[u8_to_letter_index(x)] = LetterStatus::Yes;
        assert(self.0@ =~= old(self).0@.update(letter_index_spec(x), LetterStatus::Yes));
    }

    /// Records that the answer does not hold `x`.
    pub fn mark_not_contains(&mut self, x: u8)
        requires
            is_letter(x),
        ensures
            final(self).0@ == old(self).0@.update(letter_index_spec(x), LetterStatus::No),
    {
        self.0[u8_to_letter_index(x)] = LetterStatus::No;
        assert(self.0@ =~= old(self).0@.update(letter_index_spec(x), LetterStatus::No));
    }
}

impl InfoState {
    /// The state before any clue: no position confirmed, every letter Unknown.
    pub fn new() -> (r: InfoState)
        ensures
            r@ == Knowledge::empty(),
    {
        let unknown = |i: usize| -> (s: LetterStatus)
            ensures
                s == LetterStatus::Unknown,
            { LetterStatus::Unknown };
        let open = |i: usize| -> (m: Option<u8>)
            ensures
                m.is_none(),
            { None };
        let r = InfoState { letters: LettersContained(init_array(unknown)), mask: init_array(open) };
        assert(r@.mask =~= Knowledge::empty().mask);
        assert(r@.letters =~= Knowledge::empty().letters);
        r
    }

    /// Whether `w` may still be the answer: it agrees with every confirmed
    /// position, and no letter of it at an open position is known absent.
    pub fn consistent(&self, w: &Word) -> (r: bool)
        requires
            is_word(w@),
        ensures
            r == self@.consistent(w@),
    {
        let mut i: usize = 0;
        while i < WORD_LEN
            invariant
                is_word(w@),
                i <= WORD_LEN,
                forall|j: int|
                    0 <= j < i ==> match #[trigger] self@.mask[j] {
                        Some(c) => w@[j] == c,
                        None => self@.letters[letter_index_spec(w@[j])] != LetterStatus::No,
                    },
            decreases WORD_LEN - i,
        {
            match self.mask[i] {
                None => {
                    if !self.letters.possibly_contains(w[i]) {
                        return false;
                    }
                },
                Some(c) => {
                    if w[i] != c {
                        return false;
                    }
                },
            }
            i += 1;
        }
        true
    }

    /// The state after `guess` earned `clue`: an open position whose marker is
    /// Green is confirmed with the guessed letter; each guessed letter is
    /// marked present where its marker is Green or Yellow and absent where it
    /// is Black, position by position, so a later position wins.
    pub fn update(&self, guess: Word, clue: Clue) -> (r: InfoState)
        requires
            is_word(guess@),
        ensures
            r@ == self@.update(guess@, clue@),
    {
        let ghost present = Seq::new(WORD_LEN as nat, |i: int| clue@[i] != Info::Black);
        let old_mask = self.mask;
        let confirm = |i: usize| -> (m: Option<u8>)
            requires
                i < WORD_LEN,
            ensures
                m == mask_after(old_mask@, guess@, Seq::new(WORD_LEN as nat, |j: int| clue@[j] == Info::Green))[i as int],
            {
                match old_mask[i] {
                    Some(c) => Some(c),
                    None => if clue[i] == Info::Green {
                        Some(guess[i])
                    } else {
                        None
                    },
                }
            };
        let mask: [Option<u8>; 5] = init_array(confirm);
        let mut letters = self.letters;
        let mut i: usize = 0;
        while i < WORD_LEN
            invariant
                is_word(guess@),
                i <= WORD_LEN,
                present == Seq::new(WORD_LEN as nat, |i: int| clue@[i] != Info::Black),
                letters.0@ == mark_letters(self.letters.0@, guess@, present, i as nat),
            decreases WORD_LEN - i,
        {
            match clue[i] {
                Info::Green | Info::Yellow => letters.mark_contains(guess[i]),
                Info::Black => letters.mark_not_contains(guess[i]),
            }
            i += 1;
        }
        let r = InfoState { letters, mask };
        assert(r@.mask =~= self@.update(guess@, clue@).mask);
        r
    }

    /// The state after `guess` was made and `answer` became known: as
    /// [`InfoState::update`] with the clue that `answer` gives, each guessed
    /// letter marked present exactly when the answer holds it, and a position
    /// confirmed where the guess and the answer agree.
    pub fn update_from_answer(&self, guess: &Word, answer: &Word) -> (r: InfoState)
        requires
            is_word(guess@),
        ensures
            r@ == self@.update_from_answer(guess@, answer@),
    {
        let ghost present = Seq::new(WORD_LEN as nat, |i: int| contains_letter(answer@, guess@[i]));
        let mut letters = self.letters;
        let mut i: usize = 0;
        while i < WORD_LEN
            invariant
                is_word(guess@),
                i <= WORD_LEN,
                present == Seq::new(WORD_LEN as nat, |i: int| contains_letter(answer@, guess@[i])),
                letters.0@ == mark_letters(self.letters.0@, guess@, present, i as nat),
            decreases WORD_LEN - i,
        {
            let c = guess[i];
            if word_contains(answer, c) {
                letters.mark_contains(c);
            } else {
                letters.mark_not_contains(c);
            }
            i += 1;
        }
        let old_mask = self.mask;
        let confirm = |i: usize| -> (m: Option<u8>)
            requires
                i < WORD_LEN,
            ensures
                m == mask_after(old_mask@, guess@, Seq::new(WORD_LEN as nat, |j: int| guess@[j] == answer@[j]))[i as int],
            {
                match old_mask[i] {
                    Some(c) => Some(c),
                    None => if guess[i] == answer[i] {
                        Some(guess[i])
                    } else {
                        None
                    },
                }
            };
        let r = InfoState { letters, mask: init_array(confirm) };
        assert(r@.mask =~= self@.update_from_answer(guess@, answer@).mask);
        r
    }
}

/// Learning the answer directly teaches exactly what the clue it gives teaches.
pub proof fn lemma_update_from_answer_is_update_with_clue(k: Knowledge, guess: Seq<u8>, answer: Seq<u8>)
    requires
        guess.len() == WORD_LEN,
        answer.len() == WORD_LEN,
    ensures
        k.update_from_answer(guess, answer) == k.update(guess, clue_spec(guess, answer)),
{
    let c = clue_spec(guess, answer);
    let p1 = Seq::new(WORD_LEN as nat, |i: int| contains_letter(answer, guess[i]));
    let p2 = Seq::new(WORD_LEN as nat, |i: int| c[i] != Info::Black);
    assert forall|i: int| 0 <= i < WORD_LEN implies p1[i] == p2[i] by {
        if guess[i] == answer[i] {
            assert(contains_letter(answer, guess[i]));
        }
    }
    assert(p1 =~= p2);
    let h1 = Seq::new(WORD_LEN as nat, |i: int| guess[i] == answer[i]);
    let h2 = Seq::new(WORD_LEN as nat, |i: int| c[i] == Info::Green);
    assert(h1 =~= h2);
    assert(k.update_from_answer(guess, answer).mask =~= k.update(guess, c).mask);
}

/// Starting from nothing, guessing the answer and reading its clue leaves a
/// state with which the answer is consistent.
pub proof fn lemma_guessing_answer_is_self_consistent(w: Seq<u8>)
    requires
        is_word(w),
    ensures
        Knowledge::empty().update(w, clue_spec(w, w)).consistent(w),
{
    let k = Knowledge::empty().update(w, clue_spec(w, w));
    assert forall|i: int| 0 <= i < WORD_LEN implies #[trigger] k.mask[i] == Some(w[i]) by {
        assert(clue_spec(w, w)[i] == Info::Green);
    }
}

} // verus!
