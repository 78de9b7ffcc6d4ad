//! The execution core of an incremental dataflow engine: typed row values,
//! a per-row expression evaluator, diff-based table state, retraction-aware
//! reducers, an incremental join, fixpoint iteration, timestamp batching,
//! and the calendar-clock types the values carry.

pub mod concat;
pub mod error;
pub mod expression;
pub mod format;
pub mod iterate;
pub mod ixer;
pub mod join;
pub mod num;
pub mod progress;
pub mod reduce;
pub mod strings;
pub mod table;
pub mod time;
pub mod value;
