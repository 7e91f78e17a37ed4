//! A Carnot consensus engine: a pure state machine over a block tree, the committee
//! overlay it consults, threshold tallies, and the decisions of the event loop that
//! drives it.
pub mod block_tree;
pub mod carnot;
pub mod dispatch;
pub mod laws;
pub mod messages;
pub mod orchestrator;
pub mod overlay;
pub mod tally;
pub mod simulation;
pub mod tasks;
pub mod tree_overlay;
pub mod types;
