//! Packet framing and window bookkeeping for a reliable-blast UDP file
//! transfer: a sender streams fixed-size numbered packets over UDP and,
//! per window, reports the packet numbers it sent over a TCP control
//! channel; the receiver compares them with what arrived.
use vstd::prelude::*;

pub mod packet;
pub mod window;
pub mod control;
pub mod sender;
pub mod receiver;

verus! {

} // verus!
