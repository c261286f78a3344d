use vstd::prelude::*;
use std::collections::VecDeque;
use crate::alphabet::{is_alpha, in_alphabet};
use crate::model::ErrorModel;
use crate::prompt::{generate_random_str, PROMPT_LEN};

verus! {

/// How many recent mistakes are kept.
pub const MISTAKES_KEPT: usize = 10;

/// What a key identifier from the host asks for.
#[derive(Clone, Copy, Debug, PartialEq, Eq)]
pub enum KeyInput {
    Backspace,
    Enter,
    Symbol(char),
    Other,
}

/// What handling a key did, so that the host can re-render, keep the key
/// from its default action, and save the model.
#[derive(Clone, Copy, Debug, PartialEq, Eq)]
pub enum KeyOutcome {
    Ignored,
    Erased,
    Restarted,
    Scored { expected: char, typed: char, correct: bool },
}

pub open spec fn backspace_name() -> Seq<char> {
    seq!['B', 'a', 'c', 'k', 's', 'p', 'a', 'c', 'e']
}

pub open spec fn enter_name() -> Seq<char> {
    seq!['E', 'n', 't', 'e', 'r']
}

/// The meaning of a key identifier: the two named keys, one alphabet
/// character, or anything else.
pub open spec fn key_input(key: Seq<char>) -> KeyInput {
    if key == backspace_name() {
        KeyInput::Backspace
    } else if key == enter_name() {
        KeyInput::Enter
    } else if key.len() == 1 && is_alpha(key[0]) {
        KeyInput::Symbol(key[0])
    } else {
        KeyInput::Other
    }
}

fn same_chars(key: &str, name: &Vec<char>) -> (r: bool)
    ensures
        r == (key@ == name@),
{
    let n = key.unicode_len();
    if n != name.len() {
        return false;
    }
    let mut i: usize = 0;
    while i < n
        invariant
            n == key@.len() == name@.len(),
            i <= n,
            forall|j: int| 0 <= j < i ==> key@[j] == name@[j],
        decreases n - i,
    {
        if key.get_char(i) != name[i] {
            return false;
        }
        i = i + 1;
    }
    assert(key@ =~= name@);
    true
}

/// Classifies a key identifier from the host.
pub fn classify_key(key: &str) -> (r: KeyInput)
    ensures
        r == key_input(key@),
{
    let backspace = vec!['B', 'a', 'c', 'k', 's', 'p', 'a', 'c', 'e'];
    let enter = vec!['E', 'n', 't', 'e', 'r'];
    assert(backspace@ =~= backspace_name());
    assert(enter@ =~= enter_name());
    if same_chars(key, &backspace) {
        KeyInput::Backspace
    } else if same_chars(key, &enter) {
        KeyInput::Enter
    } else if key.unicode_len() == 1 && in_alphabet(key.get_char(0)) {
        KeyInput::Symbol(key.get_char(0))
    } else {
        KeyInput::Other
    }
}

/// `q` with `m` appended, the oldest entry dropped if more than `MISTAKES_KEPT` would remain.
pub open spec fn push_recent(q: Seq<(char, char)>, m: (char, char)) -> Seq<(char, char)> {
    if q.len() + 1 > MISTAKES_KEPT {
        q.push(m).drop_first()
    } else {
        q.push(m)
    }
}

/// How a prompt character stands in the round.
#[derive(Clone, Copy, Debug, PartialEq, Eq)]
pub enum CharState {
    Correct,
    Incorrect,
    Cursor,
    Untyped,
}

/// The state of prompt position `i` given the keystroke results `c`.
pub open spec fn char_state(c: Seq<bool>, i: int) -> CharState {
    if i == c.len() {
        CharState::Cursor
    } else if i < c.len() {
        if c[i] { CharState::Correct } else { CharState::Incorrect }
    } else {
        CharState::Untyped
    }
}

/// One practice round: the prompt, the result of each keystroke so far,
/// the latest mistakes, and the error model that adapts the prompts.
pub struct Practice {
    prompt: Vec<char>,
    correctness: Vec<bool>,
    mistyped: VecDeque<(char, char)>,
    error_stats: ErrorModel,
}

impl Practice {
    pub closed spec fn prompt_view(&self) -> Seq<char> {
        self.prompt@
    }

    pub closed spec fn correctness_view(&self) -> Seq<bool> {
        self.correctness@
    }

    /// Latest mistakes as (expected, typed), oldest first.
    pub closed spec fn mistakes_view(&self) -> Seq<(char, char)> {
        self.mistyped@
    }

    pub closed spec fn model(&self) -> ErrorModel {
        self.error_stats
    }

    /// The round is complete once every prompt character has been typed.
    pub open spec fn is_complete(&self) -> bool {
        self.correctness_view().len() == self.prompt_view().len()
    }

    pub open spec fn wf(&self) -> bool {
        &&& self.prompt_view().len() == PROMPT_LEN
        &&& forall|i: int| 0 <= i < self.prompt_view().len() ==> is_alpha(#[trigger] self.prompt_view()[i])
        &&& self.correctness_view().len() <= self.prompt_view().len()
        &&& self.mistakes_view().len() <= MISTAKES_KEPT
        &&& self.model().wf()
    }

    /// `new` is `old` with no observable change.
    pub open spec fn unchanged(old: Practice, new: Practice) -> bool {
        &&& new.prompt_view() == old.prompt_view()
        &&& new.correctness_view() == old.correctness_view()
        &&& new.mistakes_view() == old.mistakes_view()
        &&& new.model() == old.model()
    }

    /// How a key moves the round from `old` to `new`.
    pub open spec fn key_step(old: Practice, new: Practice, key: Seq<char>) -> bool {
        match key_input(key) {
            KeyInput::Backspace => if !old.is_complete() {
                &&& new.prompt_view() == old.prompt_view()
                &&& new.correctness_view() == if old.correctness_view().len() == 0 {
                    old.correctness_view()
                } else {
                    old.correctness_view().drop_last()
                }
                &&& new.mistakes_view() == old.mistakes_view()
                &&& new.model() == old.model()
            } else {
                Practice::unchanged(old, new)
            },
            KeyInput::Enter => if old.is_complete() {
                &&& new.correctness_view().len() == 0
                &&& new.mistakes_view() == old.mistakes_view()
                &&& new.model() == old.model()
            } else {
                Practice::unchanged(old, new)
            },
            KeyInput::Symbol(c) => if !old.is_complete() {
                let e = old.prompt_view()[old.correctness_view().len() as int];
                &&& new.prompt_view() == old.prompt_view()
                &&& new.correctness_view() == old.correctness_view().push(e == c)
                &&& new.mistakes_view() == if e == c {
                    old.mistakes_view()
                } else {
                    push_recent(old.mistakes_view(), (e, c))
                }
                &&& ErrorModel::accounted(old.model(), new.model(), e, c)
            } else {
                Practice::unchanged(old, new)
            },
            KeyInput::Other => Practice::unchanged(old, new),
        }
    }

    /// The outcome reported for `key` in state `old`.
    pub open spec fn outcome_of(old: Practice, key: Seq<char>) -> KeyOutcome {
        match key_input(key) {
            KeyInput::Backspace => if !old.is_complete() && old.correctness_view().len() > 0 {
                KeyOutcome::Erased
            } else {
                KeyOutcome::Ignored
            },
            KeyInput::Enter => if old.is_complete() {
                KeyOutcome::Restarted
            } else {
                KeyOutcome::Ignored
            },
            KeyInput::Symbol(c) => if !old.is_complete() {
                let e = old.prompt_view()[old.correctness_view().len() as int];
                KeyOutcome::Scored { expected: e, typed: c, correct: e == c }
            } else {
                KeyOutcome::Ignored
            },
            KeyInput::Other => KeyOutcome::Ignored,
        }
    }

    /// A round on a freshly generated prompt.
    pub fn new(model: ErrorModel) -> (r: Practice)
        requires
            model.wf(),
        ensures
            r.wf(),
            r.model() == model,
            r.correctness_view().len() == 0,
            r.mistakes_view().len() == 0,
    {
        let prompt = generate_random_str(&model);
        Practice { prompt, correctness: Vec::new(), mistyped: VecDeque::new(), error_stats: model }
    }

    /// A round on a given prompt.
    pub fn with_prompt(model: ErrorModel, prompt: Vec<char>) -> (r: Practice)
        requires
            model.wf(),
            prompt@.len() == PROMPT_LEN,
            forall|i: int| 0 <= i < prompt@.len() ==> is_alpha(#[trigger] prompt@[i]),
        ensures
            r.wf(),
            r.model() == model,
            r.prompt_view() == prompt@,
            r.correctness_view().len() == 0,
            r.mistakes_view().len() == 0,
    {
        Practice { prompt, correctness: Vec::new(), mistyped: VecDeque::new(), error_stats: model }
    }

    /// The prompt of the current round.
    pub fn prompt(&self) -> (r: &Vec<char>)
        ensures
            r@ == self.prompt_view(),
    {
        &self.prompt
    }

    /// The result of each keystroke of the round so far; its length is the cursor.
    pub fn correctness(&self) -> (r: &Vec<bool>)
        ensures
            r@ == self.correctness_view(),
    {
        &self.correctness
    }

    /// Whether every prompt character has been typed.
    pub fn complete(&self) -> (r: bool)
        ensures
            r == self.is_complete(),
    {
        self.correctness.len() == self.prompt.len()
    }

    /// The state of each prompt character: typed correctly, typed wrongly,
    /// under the cursor, or not reached yet.
    pub fn char_states(&self) -> (r: Vec<CharState>)
        ensures
            r@.len() == self.prompt_view().len(),
            forall|i: int|
                0 <= i < r@.len() ==> #[trigger] r@[i] == char_state(self.correctness_view(), i),
    {
        let n = self.prompt.len();
        let typed = self.correctness.len();
        let mut r: Vec<CharState> = Vec::new();
        let mut i: usize = 0;
        while i < n
            invariant
                n == self.prompt@.len(),
                typed == self.correctness@.len(),
                i <= n,
                r@.len() == i,
                forall|j: int| 0 <= j < i ==> #[trigger] r@[j] == char_state(self.correctness@, j),
            decreases n - i,
        {
            let st = if i == typed {
                CharState::Cursor
            } else if i < typed {
                if self.correctness[i] { CharState::Correct } else { CharState::Incorrect }
            } else {
                CharState::Untyped
            };
            r.push(st);
            i = i + 1;
        }
        r
    }

    /// The error model.
    pub fn error_stats(&self) -> (r: &ErrorModel)
        ensures
            *r == self.model(),
    {
        &self.error_stats
    }

    /// The latest mistakes as (expected, typed), most recent first.
    pub fn recent_mistakes(&self) -> (r: Vec<(char, char)>)
        ensures
            r@.len() == self.mistakes_view().len(),
            forall|i: int|
                0 <= i < r@.len() ==> #[trigger] r@[i] == self.mistakes_view()[r@.len() - 1 - i],
    {
        let n = self.mistyped.len();
        let mut r: Vec<(char, char)> = Vec::new();
        let mut i: usize = 0;
        while i < n
            invariant
                n == self.mistyped@.len(),
                i <= n,
                r@.len() == i,
                forall|j: int| 0 <= j < i ==> #[trigger] r@[j] == self.mistyped@[n - 1 - j],
            decreases n - i,
        {
            r.push(self.mistyped[n - 1 - i]);
            i = i + 1;
        }
        r
    }

    /// Handles one key identifier from the host.
    pub fn handle_key(&mut self, key: &str) -> (r: KeyOutcome)
        requires
            old(self).wf(),
        ensures
            final(self).wf(),
            Practice::key_step(*old(self), *final(self), key@),
            r == Practice::outcome_of(*old(self), key@),
    {
        match classify_key(key) {
            KeyInput::Backspace => {
                if self.correctness.len() < self.prompt.len() && self.correctness.len() > 0 {
                    self.correctness.pop();
                    return KeyOutcome::Erased;
                }
                KeyOutcome::Ignored
            },
            KeyInput::Enter => {
                if self.correctness.len() == self.prompt.len() {
                    self.prompt = generate_random_str(&self.error_stats);
                    self.correctness.clear();
                    return KeyOutcome::Restarted;
                }
                KeyOutcome::Ignored
            },
            KeyInput::Symbol(typed) => {
                if self.correctness.len() < self.prompt.len() {
                    let expected = self.prompt[self.correctness.len()];
                    let correct = expected == typed;
                    self.correctness.push(correct);
                    self.error_stats.account(expected, typed);
                    if !correct {
                        self.mistyped.push_back((expected, typed));
                        if self.mistyped.len() > MISTAKES_KEPT {
                            self.mistyped.pop_front();
                        }
                    }
                    return KeyOutcome::Scored { expected, typed, correct };
                }
                KeyOutcome::Ignored
            },
            KeyInput::Other => KeyOutcome::Ignored,
        }
    }
}

} // verus!
