//! Congestion control.
pub mod no_control;

use vstd::prelude::*;

verus! {

/// Decides how much may be on the way at a time.
pub trait Controller {
    /// The number of octets that may be on the way.
    fn window(&self) -> usize;

    /// The congestion window.
    fn cwnd(&self) -> usize;

    /// The slow start threshold.
    fn ssthresh(&self) -> usize;
}

} // verus!
