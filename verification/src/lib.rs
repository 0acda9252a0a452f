//! Queries over a world of entities: which archetypes a query matches, and what it gives for them.
//!
//! [`state::QueryState`] keeps the archetypes and tables that a query and its filter match. Its
//! methods ask about given entities (`get`), go through the results (`iter`, `for_each`, `many`),
//! change them (`edit`), split them for parallel work (`par`) and combine them (`combinations`).
//! What holds of queries as a whole is stated under `laws`.
mod arrays;
pub mod access;
pub mod bits;
pub mod changed;
pub mod combinations;
pub mod edit;
pub mod error;
pub mod fetch;
pub mod for_each;
pub mod get;
pub mod ids;
pub mod iter;
pub mod laws;
pub mod many;
pub mod par;
pub mod populate;
pub mod queries;
pub mod rows;
pub mod state;
pub mod world;
