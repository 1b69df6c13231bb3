//! A parser for hand-written planning documents.
//!
//! A plan is a line-oriented text that lists features, the tasks of each
//! feature, and per task its effort, owner, ticket, notes, links and
//! dependencies.
//!
//! - `grammar` says what a plan text means, as functions on sequences of
//!   characters.
//! - `fplan` is the parser, proved to compute what `grammar` says.
//! - `laws` holds what follows for every plan.
//! - `pheader` puts the tables and teams of a project header in order, with
//!   the sorting of `order`.
//! - `text` holds the operations on characters that the parser is built on,
//!   and `views` the step from values to what they stand for.
pub mod fplan;
pub mod grammar;
pub mod laws;
pub mod order;
pub mod pheader;
pub mod text;
pub mod views;
