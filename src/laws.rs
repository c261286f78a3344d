use vstd::prelude::*;
use crate::model::{ErrorModel, sat_sub, ERROR_SCORE_DECAY, ERROR_SCORE_INCR, STAT_SCORE_INCR, TYPED_SCORE_INCR};
use crate::session::{Practice, push_recent, backspace_name, MISTAKES_KEPT};

verus! {

/// Every entry of `s` is `true`.
pub open spec fn all_true(s: Seq<bool>) -> bool {
    forall|i: int| 0 <= i < s.len() ==> #[trigger] s[i]
}

/// Typing the prompt's next characters, each correctly, from a state in which
/// every keystroke so far was correct keeps every result `true`, advances the
/// cursor once per key, and completes the round exactly when the cursor reaches
/// the end of the prompt.
pub proof fn lemma_correct_run(states: Seq<Practice>, keys: Seq<Seq<char>>, n: int)
    requires
        states.len() == keys.len() + 1,
        states[0].wf(),
        all_true(states[0].correctness_view()),
        states[0].correctness_view().len() + keys.len() <= states[0].prompt_view().len(),
        forall|i: int|
            0 <= i < keys.len() ==> #[trigger] keys[i] == seq![
                states[0].prompt_view()[states[0].correctness_view().len() + i],
            ],
        forall|i: int|
            0 <= i < keys.len() ==> Practice::key_step(#[trigger] states[i], states[i + 1], keys[i]),
        0 <= n <= keys.len(),
    ensures
        states[n].prompt_view() == states[0].prompt_view(),
        states[n].correctness_view().len() == states[0].correctness_view().len() + n,
        all_true(states[n].correctness_view()),
        states[n].is_complete() <==> states[n].correctness_view().len()
            == states[n].prompt_view().len(),
    decreases n,
{
    if n > 0 {
        lemma_correct_run(states, keys, n - 1);
        let (s, t) = (states[n - 1], states[n]);
        assert(Practice::key_step(s, t, keys[n - 1]));
        let c = states[0].prompt_view()[states[0].correctness_view().len() + n - 1];
        assert(keys[n - 1] == seq![c]);
        assert(keys[n - 1][0] == c);
        assert(crate::alphabet::is_alpha(c));
        assert(keys[n - 1] != backspace_name()) by {
            assert(backspace_name().len() == 9);
        }
        assert(keys[n - 1] != crate::session::enter_name()) by {
            assert(crate::session::enter_name().len() == 5);
        }
        assert(t.correctness_view() == s.correctness_view().push(true));
        assert forall|i: int| 0 <= i < t.correctness_view().len() implies #[trigger] t.correctness_view()[i] by {
            if i < s.correctness_view().len() {
                assert(t.correctness_view()[i] == s.correctness_view()[i]);
            }
        }
    }
}

/// Backspace during a round never completes it: it removes the last result,
/// or does nothing when there is none.
pub proof fn lemma_backspace(s: Practice, t: Practice)
    requires
        s.wf(),
        !s.is_complete(),
        Practice::key_step(s, t, backspace_name()),
    ensures
        s.correctness_view().len() == 0 ==> Practice::unchanged(s, t),
        s.correctness_view().len() > 0 ==> t.correctness_view() == s.correctness_view().drop_last(),
        s.correctness_view().len() > 0 ==> t.correctness_view().len() + 1 == s.correctness_view().len(),
        !t.is_complete(),
{
    assert(backspace_name().len() == 9);
}

/// A correct keystroke raises no score and no confusion count; it lowers the
/// score of the typed character by the decay until that score reaches 0.
pub proof fn lemma_correct_keystroke(m: ErrorModel, m2: ErrorModel, c: char)
    requires
        ErrorModel::accounted(m, m2, c, c),
    ensures
        forall|x: char| #[trigger] m2.score(x) <= m.score(x),
        forall|e: char, t: char| #[trigger] m2.pair(e, t) <= m.pair(e, t),
        m2.score(c) == sat_sub(m.score(c), ERROR_SCORE_DECAY as nat),
{
    assert(m2.score(c) == sat_sub(m.score(c), ERROR_SCORE_DECAY as nat));
}

/// Repeated correct keystrokes of `c` bring its score down by the decay each
/// time, never below 0, and to 0 after as many keystrokes as the score was.
pub proof fn lemma_correct_keystrokes_converge(models: Seq<ErrorModel>, c: char, n: int)
    requires
        forall|i: int|
            0 <= i < models.len() - 1 ==> ErrorModel::accounted(#[trigger] models[i], models[i + 1], c, c),
        0 <= n < models.len(),
    ensures
        models[n].score(c) == sat_sub(models[0].score(c), n as nat),
        n >= models[0].score(c) ==> models[n].score(c) == 0,
    decreases n,
{
    if n > 0 {
        lemma_correct_keystrokes_converge(models, c, n - 1);
        lemma_correct_keystroke(models[n - 1], models[n], c);
    }
}

/// A mistake raises the expected character's score by the error increment,
/// the typed character's score by one, and the confusion's count by the pair
/// increment, wherever these stay within `u32`.
pub proof fn lemma_mistake(m: ErrorModel, m2: ErrorModel, e: char, t: char)
    requires
        ErrorModel::accounted(m, m2, e, t),
        e != t,
        m.score(e) + ERROR_SCORE_INCR <= u32::MAX,
        m.score(t) + TYPED_SCORE_INCR <= u32::MAX,
        m.pair(e, t) + STAT_SCORE_INCR <= u32::MAX,
    ensures
        m2.score(e) == m.score(e) + ERROR_SCORE_INCR,
        m2.score(t) == m.score(t) + TYPED_SCORE_INCR,
        m2.pair(e, t) == m.pair(e, t) + STAT_SCORE_INCR,
        m2.has_pair(e, t),
{
    assert(m2.score(e) == m.score(e) + ERROR_SCORE_INCR);
    assert(m2.score(t) == m.score(t) + TYPED_SCORE_INCR);
    assert(m2.pair(e, t) == m.pair(e, t) + STAT_SCORE_INCR);
    assert(m2.has_pair(e, t));
}

/// The recent-mistake list never grows past `MISTAKES_KEPT`: once full, a new
/// mistake drops the oldest and keeps the rest in order, the new one last.
pub proof fn lemma_recent_window(q: Seq<(char, char)>, m: (char, char))
    requires
        q.len() <= MISTAKES_KEPT,
    ensures
        push_recent(q, m).len() <= MISTAKES_KEPT,
        q.len() < MISTAKES_KEPT ==> push_recent(q, m) == q.push(m),
        q.len() == MISTAKES_KEPT ==> push_recent(q, m) == q.subrange(1, q.len() as int).push(m),
{
    if q.len() == MISTAKES_KEPT {
        assert(q.push(m).drop_first() =~= q.subrange(1, q.len() as int).push(m));
    }
}

} // verus!
