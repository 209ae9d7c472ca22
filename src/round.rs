//! One round of play: apply the clue that the last guess earned, narrow the
//! pool, score what is left and choose the next guess.
use vstd::prelude::*;

use crate::clue::Clue;
use crate::error::SolverError;
use crate::selector::{
    filter_pool, is_first_min, pool_scores, scorable, score_candidates, scores_of, select_min_score,
    survivors,
};
use crate::state::{InfoState, Knowledge};
use crate::word::{all_words, is_word, Word};

verus! {

/// What a round produces.
#[derive(Debug)]
pub struct Round {
    /// The knowledge after the clue.
    pub state: InfoState,
    /// The words still consistent with it, in their former order.
    pub pool: Vec<Word>,
    /// Each of those words with its score.
    pub scored: Vec<(Word, usize)>,
    /// The guess to make next, or `ExhaustedCandidatePool` when no word is left.
    pub next_guess: Result<Word, SolverError>,
}

/// A pool is still scorable after filtering, and holds only words.
proof fn lemma_survivors_stay_valid(k: Knowledge, pool: Seq<Word>)
    requires
        all_words(pool),
        scorable(pool),
    ensures
        all_words(survivors(k, pool)),
        scorable(survivors(k, pool)),
{
    let p = |w: Word| k.consistent(w@);
    pool.lemma_filter_len(p);
    let s = survivors(k, pool);
    assert forall|j: int| 0 <= j < s.len() implies is_word(#[trigger] s[j]@) by {
        assert(s.contains(s[j]));
        pool.lemma_filter_contains_rev(p, s[j]);
    }
    assert(s.len() * s.len() <= pool.len() * pool.len()) by (nonlinear_arith)
        requires
            s.len() <= pool.len(),
    ;
}

/// Plays one round: `last_guess` earned `clue`.
pub fn play_round(state: &InfoState, pool: &Vec<Word>, last_guess: Word, clue: Clue) -> (r: Round)
    requires
        is_word(last_guess@),
        all_words(pool@),
        scorable(pool@),
    ensures
        r.state@ == state@.update(last_guess@, clue@),
        r.pool@ == survivors(r.state@, pool@),
        r.scored@.len() == r.pool@.len(),
        forall|k: int| 0 <= k < r.pool@.len() ==> (#[trigger] r.scored@[k]).0 == r.pool@[k],
        scores_of(r.scored@) == pool_scores(r.state@, r.pool@),
        r.pool@.len() == 0 ==> r.next_guess == Err::<Word, SolverError>(SolverError::ExhaustedCandidatePool),
        r.pool@.len() > 0 ==> (r.next_guess matches Ok(w)
            && exists|i: int| is_first_min(pool_scores(r.state@, r.pool@), i) && r.pool@[i] == w),
{
    let next = state.update(last_guess, clue);
    let narrowed = filter_pool(&next, pool);
    proof {
        lemma_survivors_stay_valid(next@, pool@);
    }
    let scored = score_candidates(&next, &narrowed);
    let guess = select_min_score(&scored);
    proof {
        if let Ok(w) = guess {
            let i = choose|i: int| is_first_min(scores_of(scored@), i) && scored@[i].0 == w;
            assert(narrowed@[i] == w);
        }
    }
    Round { state: next, pool: narrowed, scored, next_guess: guess }
}

} // verus!
