//! Discovery of attached game controllers: each device is reported once,
//! the "no devices" notice at most once, and polling re-arms itself until a
//! fatal enumeration failure.
use vstd::prelude::*;

pub mod event;
pub mod scheduler;
pub mod tracker;

verus! {

} // verus!
