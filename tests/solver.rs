use wordle_solver::clue::{clue, decode_clue, word_contains, Info};
use wordle_solver::error::SolverError;
use wordle_solver::round::play_round;
use wordle_solver::selector::{
    filter_pool, remaining_possibilities, score_candidates, select_min_score, select_next_guess,
    unnormalized_expected_remaining_possibilities,
};
use wordle_solver::state::{InfoState, LetterStatus, LettersContained};
use wordle_solver::word::{parse_words, u8_to_letter_index, Word};

fn w(s: &str) -> Word {
    let b = s.as_bytes();
    [b[0], b[1], b[2], b[3], b[4]]
}

fn c(s: &str) -> [Info; 5] {
    decode_clue(s.as_bytes()).unwrap()
}

fn pool(words: &[&str]) -> Vec<Word> {
    words.iter().map(|s| w(s)).collect()
}

const G: Info = Info::Green;
const Y: Info = Info::Yellow;
const B: Info = Info::Black;

#[test]
fn clue_of_word_against_itself_is_all_green() {
    for s in ["lares", "abcde", "eerie", "zzzzz"] {
        assert_eq!(clue(w(s), w(s)), [G; 5]);
    }
}

#[test]
fn guessing_the_answer_is_self_consistent() {
    for s in ["lares", "abcde", "eerie", "mamma"] {
        let state = InfoState::new().update(w(s), clue(w(s), w(s)));
        assert!(state.consistent(&w(s)));
        assert_eq!(state.mask, [Some(w(s)[0]), Some(w(s)[1]), Some(w(s)[2]), Some(w(s)[3]), Some(w(s)[4])]);
    }
}

#[test]
fn filtering_twice_is_filtering_once() {
    let p = pool(&["lares", "cigar", "rebut", "sissy", "humph", "awake", "blush"]);
    let state = InfoState::new().update(w("lares"), c("bxyxx"));
    let once = filter_pool(&state, &p);
    let twice = filter_pool(&state, &once);
    assert_eq!(once, twice);
    assert_eq!(once, pool(&["humph"]));
}

#[test]
fn update_never_grows_the_pool() {
    let p = pool(&["lares", "cigar", "rebut", "sissy", "humph", "awake", "blush"]);
    for clue_text in ["xxxxx", "ggggg", "yyyyy", "gxyxb"] {
        let state = InfoState::new().update(w("cigar"), c(clue_text));
        assert!(filter_pool(&state, &p).len() <= p.len());
    }
}

#[test]
fn green_count_equals_agreeing_positions() {
    let cases = [("lares", "laser", 3), ("abcde", "fghij", 0), ("crane", "crane", 5), ("eerie", "three", 2)];
    for (g, a, n) in cases {
        let greens = clue(w(g), w(a)).iter().filter(|m| **m == G).count();
        let agree = (0..5).filter(|&i| w(g)[i] == w(a)[i]).count();
        assert_eq!(greens, n);
        assert_eq!(agree, n);
    }
}

#[test]
fn disjoint_hypothetical_answer_leaves_one() {
    let p = pool(&["abcde", "fghij"]);
    assert_eq!(clue(w("abcde"), w("fghij")), [B; 5]);
    assert_eq!(remaining_possibilities(&InfoState::new(), &w("abcde"), &w("fghij"), &p), 1);
}

#[test]
fn all_black_clue_removes_words_with_those_letters() {
    let p = pool(&["lares", "humph", "cigar", "bunny", "pouty", "tolls", "quick", "eerie"]);
    let state = InfoState::new().update(w("lares"), c("xxxxx"));
    assert_eq!(filter_pool(&state, &p), pool(&["humph", "bunny", "pouty", "quick"]));
}

#[test]
fn lower_score_is_selected() {
    let scored = vec![(w("aaaaa"), 20), (w("bbbbb"), 10)];
    assert_eq!(select_min_score(&scored), Ok(w("bbbbb")));
    let scored = vec![(w("bbbbb"), 10), (w("aaaaa"), 20)];
    assert_eq!(select_min_score(&scored), Ok(w("bbbbb")));
}

#[test]
fn ties_go_to_the_first_candidate() {
    let scored = vec![(w("ccccc"), 30), (w("aaaaa"), 10), (w("bbbbb"), 10), (w("ddddd"), 10)];
    assert_eq!(select_min_score(&scored), Ok(w("aaaaa")));
}

#[test]
fn selecting_from_nothing_fails() {
    assert_eq!(select_min_score(&vec![]), Err(SolverError::ExhaustedCandidatePool));
    assert_eq!(select_next_guess(&InfoState::new(), &vec![]), Err(SolverError::ExhaustedCandidatePool));
}

#[test]
fn clue_marks_green_yellow_black() {
    assert_eq!(clue(w("lares"), w("laser")), [G, G, Y, G, Y]);
    assert_eq!(clue(w("crane"), w("humph")), [B; 5]);
    assert_eq!(clue(w("abcde"), w("eabcd")), [Y; 5]);
}

#[test]
fn repeated_guess_letter_is_yellow_at_every_unmatched_position() {
    assert_eq!(clue(w("eerie"), w("there")), [Y, Y, Y, B, G]);
    assert_eq!(clue(w("sassy"), w("salsa")), [G, G, Y, G, B]);
}

#[test]
fn decode_reads_each_marker() {
    assert_eq!(decode_clue(b"xbgy g\n"), Err(SolverError::InvalidClueCharacter));
    assert_eq!(decode_clue(b"xbgyg\n"), Ok([B, B, G, Y, G]));
    assert_eq!(decode_clue(b"ggggg"), Ok([G; 5]));
    assert_eq!(Info::from_u8(b'x'), Ok(B));
    assert_eq!(Info::from_u8(b'b'), Ok(B));
    assert_eq!(Info::from_u8(b'g'), Ok(G));
    assert_eq!(Info::from_u8(b'y'), Ok(Y));
    assert_eq!(Info::from_u8(b'G'), Err(SolverError::InvalidClueCharacter));
}

#[test]
fn decode_rejects_bad_or_short_lines() {
    assert_eq!(decode_clue(b"xxxxz\n"), Err(SolverError::InvalidClueCharacter));
    assert_eq!(decode_clue(b"xxxx"), Err(SolverError::InvalidClueCharacter));
    assert_eq!(decode_clue(b""), Err(SolverError::InvalidClueCharacter));
}

#[test]
fn new_state_accepts_every_word() {
    let s = InfoState::new();
    assert_eq!(s.mask, [None; 5]);
    assert_eq!(s.letters, LettersContained([LetterStatus::Unknown; 26]));
    assert!(s.consistent(&w("zzzzz")));
}

#[test]
fn update_confirms_greens_and_marks_letters() {
    let s = InfoState::new().update(w("lares"), c("gyxxb"));
    assert_eq!(s.mask, [Some(b'l'), None, None, None, None]);
    assert_eq!(s.letters.0[u8_to_letter_index(b'l')], LetterStatus::Yes);
    assert_eq!(s.letters.0[u8_to_letter_index(b'a')], LetterStatus::Yes);
    assert_eq!(s.letters.0[u8_to_letter_index(b'r')], LetterStatus::No);
    assert_eq!(s.letters.0[u8_to_letter_index(b's')], LetterStatus::No);
    assert_eq!(s.letters.0[u8_to_letter_index(b'z')], LetterStatus::Unknown);
    assert!(s.consistent(&w("llama")));
    assert!(!s.consistent(&w("alarm")));
    assert!(!s.consistent(&w("lemon")));
}

#[test]
fn update_keeps_confirmed_positions() {
    let s = InfoState::new().update(w("lares"), c("gxxxx"));
    let s = s.update(w("humph"), c("xxxxx"));
    assert_eq!(s.mask[0], Some(b'l'));
    let s = s.update(w("tight"), c("ggggg"));
    assert_eq!(s.mask, [Some(b'l'), Some(b'i'), Some(b'g'), Some(b'h'), Some(b't')]);
}

#[test]
fn later_position_wins_for_a_repeated_letter() {
    let s = InfoState::new().update(w("eerie"), c("yxxxx"));
    assert_eq!(s.letters.0[u8_to_letter_index(b'e')], LetterStatus::No);
    let s = InfoState::new().update(w("eerie"), c("xxxxy"));
    assert_eq!(s.letters.0[u8_to_letter_index(b'e')], LetterStatus::Yes);
}

#[test]
fn update_from_answer_matches_update_with_its_clue() {
    let pairs = [("lares", "laser"), ("eerie", "there"), ("abcde", "fghij"), ("crane", "crane")];
    let start = InfoState::new().update(w("humph"), c("xxgxx"));
    for (g, a) in pairs {
        let direct = start.update_from_answer(&w(g), &w(a));
        let via_clue = start.update(w(g), clue(w(g), w(a)));
        assert_eq!(direct, via_clue);
    }
    let s = InfoState::new().update_from_answer(&w("lares"), &w("laser"));
    assert_eq!(s.mask, [Some(b'l'), Some(b'a'), None, Some(b'e'), None]);
    assert_eq!(s.letters.0[u8_to_letter_index(b's')], LetterStatus::Yes);
}

#[test]
fn letters_contained_marks() {
    let mut l = LettersContained([LetterStatus::Unknown; 26]);
    assert!(l.possibly_contains(b'q'));
    l.mark_not_contains(b'q');
    assert!(!l.possibly_contains(b'q'));
    l.mark_contains(b'q');
    assert!(l.possibly_contains(b'q'));
    assert_eq!(l.0[16], LetterStatus::Yes);
    assert_eq!(u8_to_letter_index(b'a'), 0);
    assert_eq!(u8_to_letter_index(b'z'), 25);
}

#[test]
fn word_contains_finds_any_position() {
    assert!(word_contains(&w("lares"), b's'));
    assert!(word_contains(&w("lares"), b'l'));
    assert!(!word_contains(&w("lares"), b'z'));
}

#[test]
fn score_of_two_disjoint_words() {
    let p = pool(&["abcde", "fghij"]);
    let s = InfoState::new();
    assert_eq!(unnormalized_expected_remaining_possibilities(&s, &w("abcde"), &p), 2);
    assert_eq!(score_candidates(&s, &p), vec![(w("abcde"), 2), (w("fghij"), 2)]);
    assert_eq!(select_next_guess(&s, &p), Ok(w("abcde")));
}

#[test]
fn score_prefers_the_more_telling_guess() {
    let p = pool(&["aaaab", "aaaac", "aaaad", "bcdxy"]);
    let s = InfoState::new();
    let scored = score_candidates(&s, &p);
    // "bcdxy" tells every answer apart; each "aaaa?" leaves two words for two of the answers.
    assert_eq!(scored, vec![(w("aaaab"), 6), (w("aaaac"), 6), (w("aaaad"), 6), (w("bcdxy"), 4)]);
    assert_eq!(select_next_guess(&s, &p), Ok(w("bcdxy")));
    assert_eq!(remaining_possibilities(&s, &w("aaaab"), &w("aaaac"), &p), 2);
    assert!(scored.iter().all(|(_, score)| *score <= p.len() * p.len()));
}

#[test]
fn parse_reads_records_of_six_bytes() {
    assert_eq!(parse_words(b"lares\ncigar\n"), Ok(pool(&["lares", "cigar"])));
    assert_eq!(parse_words(b"lares\ncigar"), Ok(pool(&["lares", "cigar"])));
    assert_eq!(parse_words(b"lares"), Ok(pool(&["lares"])));
}

#[test]
fn parse_rejects_truncated_lists() {
    assert_eq!(parse_words(b""), Err(SolverError::TruncatedWordList));
    assert_eq!(parse_words(b"lares\ncig"), Err(SolverError::TruncatedWordList));
    assert_eq!(parse_words(b"lares\n\n"), Err(SolverError::TruncatedWordList));
}

#[test]
fn parse_rejects_non_letters() {
    assert_eq!(parse_words(b"lares\nCigar\n"), Err(SolverError::InvalidWordCharacter));
    assert_eq!(parse_words(b"la3es"), Err(SolverError::InvalidWordCharacter));
}

#[test]
fn round_applies_clue_filters_and_chooses() {
    let p = pool(&["lares", "humph", "bunny", "pouty", "quick", "tolls"]);
    let r = play_round(&InfoState::new(), &p, w("lares"), c("xxxxx"));
    assert_eq!(r.pool, pool(&["humph", "bunny", "pouty", "quick"]));
    assert_eq!(r.scored.len(), 4);
    assert_eq!(r.scored[0].0, w("humph"));
    let best = r.scored.iter().map(|p| p.1).min().unwrap();
    let first = r.scored.iter().find(|p| p.1 == best).unwrap().0;
    assert_eq!(r.next_guess, Ok(first));
    let r = play_round(&r.state, &r.pool, w("humph"), c("ggggg"));
    assert_eq!(r.pool, pool(&["humph"]));
    assert_eq!(r.next_guess, Ok(w("humph")));
}

#[test]
fn round_with_no_survivors_reports_exhaustion() {
    let p = pool(&["lares", "tolls"]);
    let r = play_round(&InfoState::new(), &p, w("humph"), c("ggggg"));
    assert!(r.pool.is_empty());
    assert_eq!(r.next_guess, Err(SolverError::ExhaustedCandidatePool));
}
