//! Ranking candidate guesses by how many words are expected to survive the
//! next clue, and choosing the best one.
use vstd::prelude::*;

use rayon::iter::{IndexedParallelIterator, IntoParallelRefIterator, ParallelIterator};

use crate::clue::Info;
use crate::error::SolverError;
use crate::state::{InfoState, Knowledge};
use crate::word::{all_words, is_word, Word};

verus! {

/// The words of `pool` that are consistent with `k`, in pool order.
pub open spec fn survivors(k: Knowledge, pool: Seq<Word>) -> Seq<Word> {
    pool.filter(|w: Word| k.consistent(w@))
}

/// How many words of `pool` survive once `guess` has been made against `answer`.
pub open spec fn remaining_spec(k: Knowledge, guess: Seq<u8>, answer: Seq<u8>, pool: Seq<Word>) -> nat {
    survivors(k.update_from_answer(guess, answer), pool).len()
}

/// The sum, over each answer of `answers`, of the words of `pool` that would
/// survive `guess` if that were the answer.
pub open spec fn sum_remaining(k: Knowledge, guess: Seq<u8>, answers: Seq<Word>, pool: Seq<Word>) -> nat
    decreases answers.len(),
{
    if answers.len() == 0 {
        0
    } else {
        sum_remaining(k, guess, answers.drop_last(), pool) + remaining_spec(k, guess, answers.last()@, pool)
    }
}

/// The score of `guess`: the survivors summed over every word of `pool` taken
/// as the answer, that is `|pool|` times the expected number of survivors.
pub open spec fn score_spec(k: Knowledge, guess: Seq<u8>, pool: Seq<Word>) -> nat {
    sum_remaining(k, guess, pool, pool)
}

/// Position `i` holds the least score of `scores`, and no earlier position does.
pub open spec fn is_first_min(scores: Seq<int>, i: int) -> bool {
    &&& 0 <= i < scores.len()
    &&& forall|j: int| 0 <= j < i ==> scores[i] < #[trigger] scores[j]
    &&& forall|j: int| i <= j < scores.len() ==> scores[i] <= #[trigger] scores[j]
}

/// The scores of scored candidates.
pub open spec fn scores_of(scored: Seq<(Word, usize)>) -> Seq<int> {
    scored.map_values(|p: (Word, usize)| p.1 as int)
}

/// The scores of all candidates of `pool`.
pub open spec fn pool_scores(k: Knowledge, pool: Seq<Word>) -> Seq<int> {
    pool.map_values(|w: Word| score_spec(k, w@, pool) as int)
}

/// A pool small enough that every score fits in a `usize`.
pub open spec fn scorable(pool: Seq<Word>) -> bool {
    pool.len() * pool.len() <= usize::MAX
}

/// Relies on rayon's `filter` and `count`: the number of words for which
/// `InfoState::consistent` holds.
#[verifier::external_body]
fn par_count_consistent(state: &InfoState, pool: &Vec<Word>) -> (r: usize)
    requires
        all_words(pool@),
    ensures
        r == survivors(state@, pool@).len(),
{
    pool.par_iter().filter(|w| state.consistent(w)).count()
}

/// Relies on rayon's `filter`, `copied` and `collect` into a `Vec`, which
/// keeps the order of the items: the words for which
/// `InfoState::consistent` holds, in pool order.
#[verifier::external_body]
fn par_filter_consistent(state: &InfoState, pool: &Vec<Word>) -> (r: Vec<Word>)
    requires
        all_words(pool@),
    ensures
        r@ == survivors(state@, pool@),
{
    pool.par_iter().filter(|w| state.consistent(w)).copied().collect()
}

/// Relies on rayon's `map` and `sum`: the sum of `remaining_possibilities`
/// over every word of the pool taken as the answer.
#[verifier::external_body]
fn par_sum_remaining(state: &InfoState, guess: &Word, pool: &Vec<Word>) -> (r: usize)
    requires
        all_words(pool@),
        is_word(guess@),
        scorable(pool@),
    ensures
        r == score_spec(state@, guess@, pool@),
{
    pool.par_iter().map(|a| remaining_possibilities(state, guess, a, pool)).sum()
}

/// Relies on rayon's `enumerate` and `min_by_key`: the item of least key, or
/// `None` when there is none. The key `(score, index)` differs for every
/// item, so the result is the first position of least score.
#[verifier::external_body]
fn par_first_min_index(scored: &Vec<(Word, usize)>) -> (r: Option<usize>)
    ensures
        match r {
            None => scored@.len() == 0,
            Some(i) => is_first_min(scores_of(scored@), i as int),
        },
{
    scored.par_iter().enumerate().min_by_key(|&(i, &(_, s))| (s, i)).map(|(i, _)| i)
}

/// The words of `pool` consistent with `state`, in pool order.
pub fn filter_pool(state: &InfoState, pool: &Vec<Word>) -> (r: Vec<Word>)
    requires
        all_words(pool@),
    ensures
        r@ == survivors(state@, pool@),
{
    par_filter_consistent(state, pool)
}

/// How many words of `possible_answers` would stay consistent if `guess` were
/// made and `actual_answer` were the answer.
pub fn remaining_possibilities(
    info: &InfoState,
    guess: &Word,
    actual_answer: &Word,
    possible_answers: &Vec<Word>,
) -> (r: usize)
    requires
        is_word(guess@),
        all_words(possible_answers@),
    ensures
        r == remaining_spec(info@, guess@, actual_answer@, possible_answers@),
{
    let info = info.update_from_answer(guess, actual_answer);
    par_count_consistent(&info, possible_answers)
}

/// The score of `guess`: `remaining_possibilities` summed over every word of
/// `possible_answers` taken as the answer. Lower is better.
pub fn unnormalized_expected_remaining_possibilities(
    info: &InfoState,
    guess: &Word,
    possible_answers: &Vec<Word>,
) -> (r: usize)
    requires
        is_word(guess@),
        all_words(possible_answers@),
        scorable(possible_answers@),
    ensures
        r == score_spec(info@, guess@, possible_answers@),
{
    par_sum_remaining(info, guess, possible_answers)
}

/// Every word of `pool` with its score, in pool order.
pub fn score_candidates(info: &InfoState, pool: &Vec<Word>) -> (r: Vec<(Word, usize)>)
    requires
        all_words(pool@),
        scorable(pool@),
    ensures
        r@.len() == pool@.len(),
        forall|k: int| 0 <= k < pool@.len() ==> (#[trigger] r@[k]).0 == pool@[k],
        scores_of(r@) == pool_scores(info@, pool@),
{
    let mut r: Vec<(Word, usize)> = Vec::new();
    let mut k: usize = 0;
    while k < pool.len()
        invariant
            all_words(pool@),
            scorable(pool@),
            k <= pool@.len(),
            r@.len() == k,
            forall|j: int| 0 <= j < k ==> (#[trigger] r@[j]).0 == pool@[j],
            forall|j: int| 0 <= j < k ==> (#[trigger] r@[j]).1 == score_spec(info@, pool@[j]@, pool@),
        decreases pool@.len() - k,
    {
        let guess = pool[k];
        let score = unnormalized_expected_remaining_possibilities(info, &guess, pool);
        r.push((guess, score));
        k += 1;
    }
    assert(scores_of(r@) =~= pool_scores(info@, pool@));
    r
}

/// The first candidate of least score, or `ExhaustedCandidatePool` when there
/// is none.
pub fn select_min_score(scored: &Vec<(Word, usize)>) -> (r: Result<Word, SolverError>)
    ensures
        scored@.len() == 0 ==> r == Err::<Word, SolverError>(SolverError::ExhaustedCandidatePool),
        scored@.len() > 0 ==> (r matches Ok(w) && exists|i: int| is_first_min(scores_of(scored@), i) && scored@[i].0 == w),
{
    match par_first_min_index(scored) {
        None => Err(SolverError::ExhaustedCandidatePool),
        Some(i) => {
            assert(scores_of(scored@).len() == scored@.len());
            Ok(scored[i].0)
        },
    }
}

/// The candidate of `pool` with the least score, the first one in pool order
/// where several share it; `ExhaustedCandidatePool` when the pool is empty.
pub fn select_next_guess(info: &InfoState, pool: &Vec<Word>) -> (r: Result<Word, SolverError>)
    requires
        all_words(pool@),
        scorable(pool@),
    ensures
        pool@.len() == 0 ==> r == Err::<Word, SolverError>(SolverError::ExhaustedCandidatePool),
        pool@.len() > 0 ==> (r matches Ok(w) && exists|i: int| is_first_min(pool_scores(info@, pool@), i) && pool@[i] == w),
{
    let scored = score_candidates(info, pool);
    select_min_score(&scored)
}

proof fn lemma_sum_remaining_bounded(k: Knowledge, guess: Seq<u8>, answers: Seq<Word>, pool: Seq<Word>)
    ensures
        sum_remaining(k, guess, answers, pool) <= answers.len() * pool.len(),
    decreases answers.len(),
{
    if answers.len() > 0 {
        let rest = answers.drop_last();
        lemma_sum_remaining_bounded(k, guess, rest, pool);
        let after = k.update_from_answer(guess, answers.last()@);
        pool.lemma_filter_len(|w: Word| after.consistent(w@));
        assert(answers.len() * pool.len() == rest.len() * pool.len() + pool.len()) by (nonlinear_arith)
            requires
                answers.len() == rest.len() + 1,
        ;
    }
}

/// No score exceeds the square of the pool size: each of the `|pool|`
/// hypothetical answers leaves at most `|pool|` words.
pub proof fn lemma_score_at_most_pool_squared(k: Knowledge, guess: Seq<u8>, pool: Seq<Word>)
    ensures
        score_spec(k, guess, pool) <= pool.len() * pool.len(),
{
    lemma_sum_remaining_bounded(k, guess, pool, pool);
}

proof fn lemma_filter_twice<A>(s: Seq<A>, p: spec_fn(A) -> bool)
    ensures
        s.filter(p).filter(p) == s.filter(p),
    decreases s.len(),
{
    reveal(Seq::filter);
    if s.len() > 0 {
        let rest = s.drop_last();
        lemma_filter_twice(rest, p);
        if p(s.last()) {
            let f = rest.filter(p).push(s.last());
            assert(f.drop_last() =~= rest.filter(p));
        }
    }
}

/// Filtering a pool a second time with the same state removes nothing more.
pub proof fn lemma_filter_pool_idempotent(k: Knowledge, pool: Seq<Word>)
    ensures
        survivors(k, survivors(k, pool)) == survivors(k, pool),
{
    lemma_filter_twice(pool, |w: Word| k.consistent(w@));
}

/// Filtering a pool with the state that any clue leads to never makes it larger.
pub proof fn lemma_update_never_grows_pool(k: Knowledge, pool: Seq<Word>, guess: Seq<u8>, clue: Seq<Info>)
    ensures
        survivors(k.update(guess, clue), pool).len() <= pool.len(),
{
    pool.lemma_filter_len(|w: Word| k.update(guess, clue).consistent(w@));
}

} // verus!
