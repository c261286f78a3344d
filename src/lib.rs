// Adaptive typing practice: a per-character error model, prompts sampled by
// error weight, and the state machine of one practice round.
pub mod alphabet;
pub mod model;
pub mod prompt;
pub mod session;
pub mod laws;
