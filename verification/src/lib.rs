//! Duplicate-file engine: request and result model, exact byte verification,
//! result comparison between engines and presentation helpers.
//!
//! Every step that touches the file system, a clock or another process is
//! described here as a decision function: the caller performs the requested
//! operation and hands its outcome back.

pub mod biff_check;
pub mod compare;
pub mod engines;
pub mod listing;
pub mod order;
pub mod outside;
pub mod pairwise;
pub mod probes;
pub mod protocol;
pub mod rows;
pub mod text;
pub mod types;
pub mod verify;
