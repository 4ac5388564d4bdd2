//! No congestion control at all.
use crate::socket::tcp::congestion::Controller;
use vstd::prelude::*;

verus! {

/// A controller that holds nothing back.
#[derive(Debug, Clone, Copy, PartialEq, Eq, Structural)]
pub struct NoControl;

impl Controller for NoControl {
    fn window(&self) -> (r: usize)
        ensures
            r == usize::MAX,
    {
        usize::MAX
    }

    fn cwnd(&self) -> (r: usize)
        ensures
            r == 0,
    {
        0
    }

    fn ssthresh(&self) -> (r: usize)
        ensures
            r == usize::MAX,
    {
        usize::MAX
    }
}

} // verus!
