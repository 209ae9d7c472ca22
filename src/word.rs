//! Words: five lowercase ASCII letters.
use vstd::prelude::*;

use crate::error::SolverError;
use crate::fill::init_array;

verus! {

/// A word of the puzzle, as ASCII bytes.
pub type Word = [u8; 5];

/// The number of letters in a word.
pub const WORD_LEN: usize = 5;

/// The number of letters in the alphabet.
pub const ALPHABET_LEN: usize = 26;

/// The byte of the letter `a`.
pub const A: u8 = 97;

pub open spec fn is_letter(c: u8) -> bool {
    A <= c && c < A + ALPHABET_LEN
}

/// A valid word: five lowercase letters.
pub open spec fn is_word(w: Seq<u8>) -> bool {
    w.len() == WORD_LEN && forall|i: int| 0 <= i < WORD_LEN ==> is_letter(#[trigger] w[i])
}

/// Every word of a pool is valid.
pub open spec fn all_words(pool: Seq<Word>) -> bool {
    forall|k: int| 0 <= k < pool.len() ==> is_word(#[trigger] pool[k]@)
}

/// The position of a letter in the alphabet.
pub open spec fn letter_index_spec(c: u8) -> int {
    c - A
}

/// The position of a letter in the alphabet, `a` being 0.
pub fn u8_to_letter_index(x: u8) -> (r: usize)
    requires
        is_letter(x),
    ensures
        r == letter_index_spec(x),
        r < ALPHABET_LEN,
{
    (x - A) as usize
}

/// The length of one record of a word list: five letters and a separator.
pub const RECORD_LEN: usize = 6;

/// The number of records in a word list of `len` bytes: the last record may
/// lack its separator.
pub open spec fn record_count(len: nat) -> nat {
    ((len + WORD_LEN) / RECORD_LEN as int) as nat
}

/// The letters of record `k`.
pub open spec fn record(bytes: Seq<u8>, k: int) -> Seq<u8> {
    bytes.subrange(RECORD_LEN * k, RECORD_LEN * k + WORD_LEN)
}

/// The list is empty, or its last record holds fewer than five letters.
pub open spec fn is_truncated(len: nat) -> bool {
    len == 0 || (len % RECORD_LEN as nat != 0 && len % RECORD_LEN as nat != WORD_LEN as nat)
}

/// Reads a word list: records of five lowercase letters, each followed by one
/// separator byte (which is not checked); the last separator may be missing.
pub fn parse_words(bytes: &[u8]) -> (r: Result<Vec<Word>, SolverError>)
    ensures
        is_truncated(bytes@.len()) ==> r == Err::<Vec<Word>, SolverError>(SolverError::TruncatedWordList),
        !is_truncated(bytes@.len()) && (exists|k: int| 0 <= k < record_count(bytes@.len()) && !is_word(#[trigger] record(bytes@, k)))
            ==> r == Err::<Vec<Word>, SolverError>(SolverError::InvalidWordCharacter),
        !is_truncated(bytes@.len()) && (forall|k: int| 0 <= k < record_count(bytes@.len()) ==> is_word(#[trigger] record(bytes@, k)))
            ==> (r matches Ok(ws) && ws@.len() == record_count(bytes@.len())
                && forall|k: int| 0 <= k < ws@.len() ==> (#[trigger] ws@[k])@ == record(bytes@, k)),
{
    let n = bytes.len();
    if n == 0 || (n % RECORD_LEN != 0 && n % RECORD_LEN != WORD_LEN) {
        return Err(SolverError::TruncatedWordList);
    }
    let mut ws: Vec<Word> = Vec::new();
    let mut i: usize = 0;
    while i < n
        invariant
            n == bytes@.len(),
            !is_truncated(n as nat),
            i <= n,
            i < n ==> i == RECORD_LEN * ws@.len(),
            i == n ==> ws@.len() == record_count(n as nat),
            forall|k: int| 0 <= k < ws@.len() ==> (#[trigger] ws@[k])@ == record(bytes@, k),
            forall|k: int| 0 <= k < ws@.len() ==> is_word(#[trigger] record(bytes@, k)),
        decreases n - i,
    {
        assert(i + WORD_LEN <= n);
        assert(ws@.len() < record_count(n as nat));
        let start = i;
        let letter = |j: usize| -> (c: u8)
            requires
                j < WORD_LEN,
            ensures
                c == bytes@[start + j],
            { bytes[start + j] };
        let w: Word = init_array(letter);
        assert(w@ =~= record(bytes@, ws@.len() as int));
        let mut j: usize = 0;
        while j < WORD_LEN
            invariant
                n == bytes@.len(),
                !is_truncated(n as nat),
                ws@.len() < record_count(n as nat),
                j <= WORD_LEN,
                w@ == record(bytes@, ws@.len() as int),
                forall|m: int| 0 <= m < j ==> is_letter(#[trigger] w@[m]),
            decreases WORD_LEN - j,
        {
            if !(A <= w[j] && w[j] < A + ALPHABET_LEN as u8) {
                assert(!is_word(record(bytes@, ws@.len() as int)));
                return Err(SolverError::InvalidWordCharacter);
            }
            j += 1;
        }
        ws.push(w);
        if n - i > RECORD_LEN {
            i = i + RECORD_LEN;
        } else {
            i = n;
        }
    }
    Ok(ws)
}

} // verus!
