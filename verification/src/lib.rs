//! A Wordle solver: it keeps the set of answers that are still possible
//! after each guess and its coloured result, and suggests the next guess.

pub mod words;
pub mod knowledge;
pub mod model;
pub mod solver;
pub mod report;
pub mod laws;
pub mod feedback;
pub mod soundness;
pub mod benchmark;
pub mod input;

