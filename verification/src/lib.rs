//! POCSAG transmissions, and the protocol of the MMDVM modems that put them on
//! air.
use vstd::prelude::*;

pub mod message;
pub mod mmdvm;
pub mod pocsag;

verus! {

} // verus!
