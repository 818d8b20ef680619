//! An undirected graph constraint solver for node and edge colors.
//!
//! Every node carries a template: its own color and the multiset of
//! `(edge color, neighbour color)` pairs it must end up with. The solver
//! colors every unordered pair of nodes so that all templates, required
//! pairs and the enabled structural rules hold.

pub mod cache;
pub mod candidates;
pub mod laws;
pub mod local;
pub mod matching;
pub mod model;
pub mod predicates;
pub mod reach;
pub mod render;
pub mod search;

pub use model::{Color, Constraint, Graph, Node, DISCONNECTED_EDGE, EMPTY_EDGE};
pub use search::{SearchState, Solution, SolveSettings};
