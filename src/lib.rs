//! Streaming labeling of limit-order-book snapshots: the three-way label and
//! its decision rule, the delay queue that pairs each record with the book
//! state one horizon later, the order of event times, and the label tally of
//! a run.
pub mod event_time;
pub mod label;
pub mod labeler;
pub mod tally;
