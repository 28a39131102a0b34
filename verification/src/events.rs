//! The records that cross the boundary between the reactor and its host.

use vstd::prelude::*;

verus! {

/// Bytes drained from one port during one drain cycle: the port's label and the data.
#[derive(Debug, PartialEq, Eq)]
pub struct SerialReadEvent(pub String, pub Vec<u8>);

/// An outbound payload for one port: the port's label and the data.
#[derive(Debug, PartialEq, Eq)]
pub struct SerialWriteEvent(pub String, pub Vec<u8>);

} // verus!
