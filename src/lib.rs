//! A decoder for the gob self-describing binary format: a byte codec, a
//! registry of wire types that the stream teaches as it goes, and a value
//! decoder that turns records into a flat stream of events.

use vstd::prelude::*;

pub mod gob;
pub mod types;
pub mod de;
pub mod stream;

verus! {

} // verus!
