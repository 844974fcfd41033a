//! Health check for a TL-SG108E-style managed switch: the login session as a
//! state machine, extraction of per-port counters from the statistics page,
//! and the one-line monitoring report built from them.
use vstd::prelude::*;

pub mod report;
pub mod session;
pub mod text;
pub mod tl_sg108e_stats;

verus! {

} // verus!
