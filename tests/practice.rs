use typing_tutor::alphabet::{char_at, in_alphabet, index_of, ALPHABET_LEN};
use typing_tutor::model::{
    parse_pair_key, stat_tier, ErrorModel, ERROR_SCORE_INCR, STAT_SCORE_INCR,
};
use typing_tutor::prompt::{
    div_ceil, generate_random_str, prompt_from_draws, prompt_weights, PROMPT_LEN,
};
use typing_tutor::session::{classify_key, CharState, KeyInput, KeyOutcome, Practice};

fn prompt_of(s: &str) -> Vec<char> {
    let v: Vec<char> = s.chars().collect();
    assert_eq!(v.len(), PROMPT_LEN);
    v
}

fn repeated(c: char) -> Vec<char> {
    vec![c; PROMPT_LEN]
}

#[test]
fn alphabet_is_printable_ascii() {
    assert_eq!(ALPHABET_LEN, 94);
    assert_eq!(char_at(0), '!');
    assert_eq!(char_at(93), '~');
    assert_eq!(index_of('a'), 64);
    assert!(in_alphabet('a'));
    assert!(!in_alphabet(' '));
    assert!(!in_alphabet('\u{7f}'));
    assert!(!in_alphabet('é'));
}

#[test]
fn classify_named_and_plain_keys() {
    assert_eq!(classify_key("Backspace"), KeyInput::Backspace);
    assert_eq!(classify_key("Enter"), KeyInput::Enter);
    assert_eq!(classify_key("a"), KeyInput::Symbol('a'));
    assert_eq!(classify_key("~"), KeyInput::Symbol('~'));
    assert_eq!(classify_key("Shift"), KeyInput::Other);
    assert_eq!(classify_key(""), KeyInput::Other);
    assert_eq!(classify_key(" "), KeyInput::Other);
    assert_eq!(classify_key("é"), KeyInput::Other);
    assert_eq!(classify_key("ab"), KeyInput::Other);
}

#[test]
fn correct_keystroke_decays_score_and_pairs() {
    let mut m = ErrorModel::new();
    m.account('a', 'b');
    m.account('a', 'c');
    m.account('x', 'y');
    assert_eq!(m.score_for('a'), 20);
    m.account('a', 'a');
    assert_eq!(m.score_for('a'), 19);
    assert_eq!(m.pair_count('a', 'b'), 49);
    assert_eq!(m.pair_count('a', 'c'), 49);
    assert_eq!(m.pair_count('x', 'y'), 50);
    assert_eq!(m.score_for('b'), 1);
}

#[test]
fn correct_keystrokes_stop_at_zero() {
    let mut m = ErrorModel::new();
    m.account('q', 'q');
    assert_eq!(m.score_for('q'), 0);
    m.account('q', 'w');
    for _ in 0..15 {
        m.account('q', 'q');
    }
    assert_eq!(m.score_for('q'), 0);
    assert_eq!(m.pair_count('q', 'w'), 35);
}

#[test]
fn mistake_raises_scores_and_pair() {
    let mut m = ErrorModel::new();
    m.account('e', 't');
    assert_eq!(m.score_for('e'), ERROR_SCORE_INCR);
    assert_eq!(m.score_for('t'), 1);
    assert_eq!(m.pair_count('e', 't'), STAT_SCORE_INCR);
    assert_eq!(m.pair_count('t', 'e'), 0);
    m.account('e', 't');
    assert_eq!(m.score_for('e'), 20);
    assert_eq!(m.score_for('t'), 2);
    assert_eq!(m.pair_count('e', 't'), 100);
    assert_eq!(m.pair_stats().len(), 1);
}

#[test]
fn ten_mistakes_then_ten_correct_leave_residual() {
    let mut m = ErrorModel::new();
    for _ in 0..10 {
        m.account('a', 'b');
    }
    assert_eq!(m.score_for('a'), 100);
    assert_eq!(m.pair_count('a', 'b'), 500);
    for _ in 0..10 {
        m.account('a', 'a');
    }
    assert_eq!(m.score_for('a'), 90);
    assert_eq!(m.pair_count('a', 'b'), 490);
    assert_eq!(m.score_for('b'), 10);
}

#[test]
fn set_score_and_set_pair() {
    let mut m = ErrorModel::new();
    m.set_score('a', 100);
    m.set_score(' ', 7);
    assert_eq!(m.score_for('a'), 100);
    assert_eq!(m.score_for(' '), 0);
    m.set_pair('a', 'b', 3);
    m.set_pair('a', 'b', 9);
    assert_eq!(m.pair_count('a', 'b'), 9);
    assert_eq!(m.pair_stats().len(), 1);
}

#[test]
fn ranked_pairs_largest_first() {
    let mut m = ErrorModel::new();
    m.set_pair('a', 'b', 10);
    m.set_pair('c', 'd', 120);
    m.set_pair('e', 'f', 60);
    let r = m.ranked_pairs();
    let order: Vec<(char, char, u32)> = r.iter().map(|p| (p.expected, p.typed, p.count)).collect();
    assert_eq!(order, vec![('c', 'd', 120), ('e', 'f', 60), ('a', 'b', 10)]);
    assert_eq!(stat_tier(120), 3);
    assert_eq!(stat_tier(50), 1);
    assert_eq!(stat_tier(0), 0);
}

#[test]
fn pair_keys_round_trip() {
    let mut m = ErrorModel::new();
    m.account('a', 'b');
    m.account('>', '-');
    let stored = m.stored_pairs();
    assert_eq!(stored, vec![("a -> b".to_string(), 50), ("> -> -".to_string(), 50)]);
    assert_eq!(parse_pair_key(&stored[0].0), Some(('a', 'b')));
    assert_eq!(parse_pair_key(&stored[1].0), Some(('>', '-')));
    assert_eq!(parse_pair_key("a -> b"), Some(('a', 'b')));
    assert_eq!(parse_pair_key("a->b"), None);
    assert_eq!(parse_pair_key("a => b"), None);
    assert_eq!(parse_pair_key(""), None);
}

#[test]
fn div_ceil_values() {
    assert_eq!(div_ceil(0, 10), 0);
    assert_eq!(div_ceil(1, 10), 1);
    assert_eq!(div_ceil(10, 10), 1);
    assert_eq!(div_ceil(11, 10), 2);
    assert_eq!(div_ceil(100, 10), 10);
    assert_eq!(div_ceil(u32::MAX, 10), 429_496_730);
}

#[test]
fn weights_follow_error_tiers() {
    let mut m = ErrorModel::new();
    m.set_score('a', 100);
    m.set_score('b', 11);
    let w = prompt_weights(&m);
    assert_eq!(w.len(), ALPHABET_LEN);
    assert_eq!(w[index_of('a')], 11);
    assert_eq!(w[index_of('b')], 3);
    assert_eq!(w[index_of('c')], 1);
}

#[test]
fn prompt_from_draws_maps_positions() {
    assert_eq!(prompt_from_draws(&vec![0, 64, 93]), vec!['!', 'a', '~']);
    assert!(prompt_from_draws(&vec![]).is_empty());
}

#[test]
fn generated_prompt_has_fifty_alphabet_chars() {
    let m = ErrorModel::new();
    for _ in 0..20 {
        let p = generate_random_str(&m);
        assert_eq!(p.len(), 50);
        assert!(p.iter().all(|c| ('!'..='~').contains(c)));
    }
}

#[test]
fn heavy_score_is_sampled_more_often() {
    let mut m = ErrorModel::new();
    m.set_score('a', 100);
    let (mut a, mut z) = (0u32, 0u32);
    let rounds = 400;
    for _ in 0..rounds {
        for c in generate_random_str(&m) {
            if c == 'a' {
                a += 1;
            } else if c == 'z' {
                z += 1;
            }
        }
    }
    // 'a' weighs 11 of 104, 'z' 1 of 104, over 20000 draws.
    let total = (rounds * PROMPT_LEN) as f64;
    let pa = a as f64 / total;
    let pz = z as f64 / total;
    assert!((pa - 11.0 / 104.0).abs() < 0.02, "share of 'a': {pa}");
    assert!((pz - 1.0 / 104.0).abs() < 0.006, "share of 'z': {pz}");
    assert!(a > 5 * z);
}

#[test]
fn typing_whole_prompt_completes_and_enter_restarts() {
    let mut s = Practice::new(ErrorModel::new());
    let prompt = s.prompt().clone();
    assert_eq!(prompt.len(), 50);
    for (i, c) in prompt.iter().enumerate() {
        assert!(!s.complete());
        let out = s.handle_key(&c.to_string());
        assert_eq!(out, KeyOutcome::Scored { expected: *c, typed: *c, correct: true });
        assert_eq!(s.correctness().len(), i + 1);
    }
    assert!(s.complete());
    assert!(s.correctness().iter().all(|b| *b));
    assert_eq!(s.handle_key("x"), KeyOutcome::Ignored);
    assert_eq!(s.handle_key("Backspace"), KeyOutcome::Ignored);
    assert_eq!(s.correctness().len(), 50);
    assert_eq!(s.handle_key("Enter"), KeyOutcome::Restarted);
    assert!(!s.complete());
    assert!(s.correctness().is_empty());
    assert_eq!(s.prompt().len(), 50);
}

#[test]
fn enter_during_round_is_ignored() {
    let mut s = Practice::with_prompt(ErrorModel::new(), repeated('k'));
    s.handle_key("k");
    assert_eq!(s.handle_key("Enter"), KeyOutcome::Ignored);
    assert_eq!(s.correctness(), &vec![true]);
}

#[test]
fn backspace_removes_one_result() {
    let mut s = Practice::with_prompt(
        ErrorModel::new(),
        prompt_of("abcdefghijabcdefghijabcdefghijabcdefghijabcdefghij"),
    );
    assert_eq!(s.handle_key("Backspace"), KeyOutcome::Ignored);
    assert!(s.correctness().is_empty());
    s.handle_key("a");
    s.handle_key("x");
    assert_eq!(s.correctness(), &vec![true, false]);
    assert_eq!(s.handle_key("Backspace"), KeyOutcome::Erased);
    assert_eq!(s.correctness(), &vec![true]);
    assert_eq!(
        s.handle_key("b"),
        KeyOutcome::Scored { expected: 'b', typed: 'b', correct: true }
    );
    assert!(!s.complete());
}

#[test]
fn irrelevant_keys_change_nothing() {
    let mut s = Practice::with_prompt(ErrorModel::new(), repeated('k'));
    for key in ["", "Shift", " ", "é", "ArrowLeft", "kk"] {
        assert_eq!(s.handle_key(key), KeyOutcome::Ignored);
    }
    assert!(s.correctness().is_empty());
    assert_eq!(s.error_stats().score_for('k'), 0);
}

#[test]
fn mistakes_update_model_and_recent_list() {
    let mut s = Practice::with_prompt(ErrorModel::new(), repeated('a'));
    assert_eq!(
        s.handle_key("b"),
        KeyOutcome::Scored { expected: 'a', typed: 'b', correct: false }
    );
    assert_eq!(s.error_stats().score_for('a'), 10);
    assert_eq!(s.error_stats().score_for('b'), 1);
    assert_eq!(s.error_stats().pair_count('a', 'b'), 50);
    assert_eq!(s.recent_mistakes(), vec![('a', 'b')]);
    s.handle_key("a");
    assert_eq!(s.error_stats().score_for('a'), 9);
    assert_eq!(s.recent_mistakes(), vec![('a', 'b')]);
}

#[test]
fn recent_mistakes_keep_last_ten() {
    let mut s = Practice::with_prompt(ErrorModel::new(), repeated('a'));
    let typed: Vec<char> = "bcdefghijkl".chars().collect();
    for c in &typed {
        s.handle_key(&c.to_string());
    }
    let r = s.recent_mistakes();
    assert_eq!(r.len(), 10);
    let expected: Vec<(char, char)> = typed[1..].iter().rev().map(|t| ('a', *t)).collect();
    assert_eq!(r, expected);
    assert!(!r.contains(&('a', 'b')));
}

#[test]
fn mistakes_survive_restart() {
    let mut s = Practice::with_prompt(ErrorModel::new(), repeated('a'));
    s.handle_key("b");
    for _ in 1..50 {
        s.handle_key("a");
    }
    assert!(s.complete());
    assert_eq!(s.handle_key("Enter"), KeyOutcome::Restarted);
    assert_eq!(s.recent_mistakes(), vec![('a', 'b')]);
    assert_eq!(s.error_stats().pair_count('a', 'b'), 1);
}

#[test]
fn char_states_tag_each_position() {
    let mut s = Practice::with_prompt(ErrorModel::new(), repeated('a'));
    s.handle_key("a");
    s.handle_key("s");
    let st = s.char_states();
    assert_eq!(st.len(), 50);
    assert_eq!(&st[..4], &[CharState::Correct, CharState::Incorrect, CharState::Cursor, CharState::Untyped]);
    for _ in 2..50 {
        s.handle_key("a");
    }
    let st = s.char_states();
    assert!(!st.contains(&CharState::Cursor));
    assert_eq!(st.iter().filter(|x| **x == CharState::Incorrect).count(), 1);
}

#[test]
fn stored_scores_list_nonzero_scores() {
    let mut m = ErrorModel::new();
    m.account('a', 'b');
    m.account('!', '!');
    assert_eq!(m.stored_scores(), vec![('a', 10), ('b', 1)]);
    let mut back = ErrorModel::new();
    for (c, v) in m.stored_scores() {
        back.set_score(c, v);
    }
    for (k, v) in m.stored_pairs() {
        let (e, t) = parse_pair_key(&k).unwrap();
        back.set_pair(e, t, v);
    }
    assert_eq!(back.score_for('a'), 10);
    assert_eq!(back.score_for('b'), 1);
    assert_eq!(back.pair_count('a', 'b'), 50);
}
