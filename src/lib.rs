//! A terminal log monitor's verified core: a line decoder, a per-file metrics
//! engine with a lifecycle state machine, a bounded window of recent lines, and
//! the decisions of the event loop that feeds them.

pub mod content;
pub mod dash;
pub mod decoder;
pub mod metrics;
pub mod monitor;
pub mod text;
