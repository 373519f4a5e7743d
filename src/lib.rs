//! Volume control: command-line token preprocessing, the adjustment grammar,
//! and the master/channel level model with its write-back plan.
use vstd::prelude::*;

pub mod adjust;
pub mod args;
pub mod cli;
pub mod device;
pub mod text;
pub mod volume;

verus! {

/// The largest level a channel or the master can hold: one level unit is a
/// millionth of full scale.
pub const FULL: u32 = 1_000_000;

} // verus!
