use vstd::prelude::*;
use crate::alphabet::{is_alpha, alpha_at, char_at, ALPHABET_LEN};
use crate::model::{ErrorModel, ERROR_SCORE_INCR};

verus! {

/// Number of characters in a prompt.
pub const PROMPT_LEN: usize = 50;

/// `n / d` rounded up.
pub open spec fn ceil_div(n: nat, d: nat) -> nat
    recommends
        d > 0,
{
    n / d + if n % d == 0 { 0nat } else { 1nat }
}

/// Sampling weight of a character with error score `score`: its error tier plus one.
pub open spec fn weight_of(score: nat) -> nat {
    ceil_div(score, ERROR_SCORE_INCR as nat) + 1
}

/// `dividend / divisor` rounded up.
pub fn div_ceil(dividend: u32, divisor: u32) -> (r: u32)
    requires
        divisor > 0,
    ensures
        r == ceil_div(dividend as nat, divisor as nat),
{
    let q = dividend / divisor;
    if dividend % divisor == 0 {
        q
    } else {
        proof {
            assert(q <= dividend) by (nonlinear_arith)
                requires q == dividend / divisor, divisor > 0;
            assert(q < u32::MAX) by (nonlinear_arith)
                requires q == dividend / divisor, divisor > 0, dividend % divisor != 0;
        }
        q + 1
    }
}

/// The sampling weight of every alphabet character, in alphabet order.
pub fn prompt_weights(model: &ErrorModel) -> (r: Vec<u64>)
    requires
        model.wf(),
    ensures
        r@.len() == ALPHABET_LEN,
        forall|i: int| 0 <= i < ALPHABET_LEN ==> #[trigger] r@[i] == weight_of(model.score(alpha_at(i))),
        forall|i: int| 0 <= i < ALPHABET_LEN ==> 1 <= #[trigger] r@[i] <= u32::MAX,
{
    let mut r: Vec<u64> = Vec::new();
    let mut i: usize = 0;
    while i < ALPHABET_LEN
        invariant
            model.wf(),
            i <= ALPHABET_LEN,
            r@.len() == i,
            forall|j: int| 0 <= j < i ==> #[trigger] r@[j] == weight_of(model.score(alpha_at(j))),
            forall|j: int| 0 <= j < i ==> 1 <= #[trigger] r@[j] <= u32::MAX,
        decreases ALPHABET_LEN - i,
    {
        let score = model.score_for(char_at(i));
        let tier = div_ceil(score, ERROR_SCORE_INCR);
        proof {
            assert(tier <= score as nat / 10 + 1);
            assert(score as nat / 10 <= u32::MAX / 10) by (nonlinear_arith)
                requires score <= u32::MAX;
        }
        r.push(tier as u64 + 1);
        i = i + 1;
    }
    r
}

/// Relies on rand's `WeightedIndex` (built from `weights`, sampled `n` times
/// with `thread_rng`): every draw is an index into `weights`.
#[verifier::external_body]
fn draw_weighted(weights: &Vec<u64>, n: usize) -> (r: Vec<usize>)
    requires
        0 < weights@.len() <= u32::MAX,
        forall|i: int| 0 <= i < weights@.len() ==> 1 <= #[trigger] weights@[i] <= u32::MAX,
    ensures
        r@.len() == n,
        forall|i: int| 0 <= i < n ==> #[trigger] r@[i] < weights@.len(),
{
    let dist = rand::distributions::WeightedIndex::new(weights.iter().copied()).unwrap();
    let mut rng = rand::thread_rng();
    (0..n).map(|_| rand::distributions::Distribution::sample(&dist, &mut rng)).collect()
}

/// The prompt whose characters sit at positions `draws` of the alphabet.
pub fn prompt_from_draws(draws: &Vec<usize>) -> (r: Vec<char>)
    requires
        forall|i: int| 0 <= i < draws@.len() ==> #[trigger] draws@[i] < ALPHABET_LEN,
    ensures
        r@.len() == draws@.len(),
        forall|i: int| 0 <= i < draws@.len() ==> #[trigger] r@[i] == alpha_at(draws@[i] as int),
        forall|i: int| 0 <= i < r@.len() ==> is_alpha(#[trigger] r@[i]),
{
    let mut r: Vec<char> = Vec::new();
    let mut i: usize = 0;
    while i < draws.len()
        invariant
            i <= draws@.len(),
            r@.len() == i,
            forall|j: int| 0 <= j < draws@.len() ==> #[trigger] draws@[j] < ALPHABET_LEN,
            forall|j: int| 0 <= j < i ==> #[trigger] r@[j] == alpha_at(draws@[j] as int),
            forall|j: int| 0 <= j < i ==> is_alpha(#[trigger] r@[j]),
        decreases draws@.len() - i,
    {
        r.push(char_at(draws[i]));
        i = i + 1;
    }
    r
}

/// A fresh prompt of `PROMPT_LEN` alphabet characters, each drawn at random
/// with probability proportional to its weight under `model`.
pub fn generate_random_str(model: &ErrorModel) -> (r: Vec<char>)
    requires
        model.wf(),
    ensures
        r@.len() == PROMPT_LEN,
        forall|i: int| 0 <= i < r@.len() ==> is_alpha(#[trigger] r@[i]),
{
    let weights = prompt_weights(model);
    let draws = draw_weighted(&weights, PROMPT_LEN);
    prompt_from_draws(&draws)
}

} // verus!
