//! What holds of queries as a whole.
pub mod alike;
pub mod answers;
pub mod asking;
pub mod batches;
pub mod choices;
pub mod components;
pub mod editing;
pub mod matched;
pub mod matching;
pub mod order;
pub mod provided;
pub mod turns;
pub mod visiting;
pub mod writing;
