//! Suggests the next guess in a five-letter word-guessing puzzle.
//!
//! The library keeps what the clues so far have taught (a [`state::InfoState`]),
//! narrows the pool of candidate words with it, and ranks every candidate by the
//! number of words expected to survive the next clue.
//!
//! A clue is derived without counting repeated letters: a guessed letter that
//! occurs anywhere in the answer is Yellow at every position where it is not
//! Green. Letter statuses are overwritten by each update, the later position of
//! a guess winning, and consistency checks only that no letter known absent is
//! used at an open position.
pub mod clue;
pub mod error;
pub mod fill;
pub mod round;
pub mod selector;
pub mod state;
pub mod word;
