//! A dataflow pipeline engine: typed stages ("tasks") joined into a graph,
//! with the decisions of each task, the tagging relays of merge and split,
//! and the graph builder that fixes a safe startup order. The actor runtime
//! that moves messages and fires timers stays outside this crate.

pub mod data;
pub mod logic;
pub mod pipeline;
pub mod port;
pub mod relay;
pub mod source;
pub mod stages;
pub mod task;
