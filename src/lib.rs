//! Periodic CPU, RAM and network sampling for a desktop panel applet, and
//! the short text readout that shows the latest sample.

pub mod cpu;
pub mod metrics;
pub mod sampler;
pub mod text;

use vstd::prelude::*;

verus! {

/// The one event that drives the applet: the periodic timer fired.
#[derive(Debug, Clone, Copy, PartialEq, Eq, Structural)]
pub enum Message {
    Tick,
}

} // verus!
