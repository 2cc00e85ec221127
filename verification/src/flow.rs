//! The flow key: the immutable 4-tuple identifying one direction of a
//! TCP conversation.  IPv4 addresses are held as big-endian 32-bit
//! integers, so the key is plain data the contracts can speak about.

use vstd::prelude::*;

verus! {

/// Immutable 4-tuple `(source address, source port, destination
/// address, destination port)`.  A conversation is identified by the
/// first flow key observed; packets of the opposite direction match the
/// reversed key.
#[derive(Debug, Clone, Copy, PartialEq, Eq, Structural, Hash)]
pub struct Flow {
    pub source_ip: u32,
    pub source_port: u16,
    pub destination_ip: u32,
    pub destination_port: u16,
}

impl Flow {
    /// The same pair of endpoints, seen from the other side.
    pub open spec fn spec_reverse(self) -> Flow {
        Flow {
            source_ip: self.destination_ip,
            source_port: self.destination_port,
            destination_ip: self.source_ip,
            destination_port: self.source_port,
        }
    }

    /// The flow with source and destination swapped.
    pub fn reverse(&self) -> (r: Self)
        ensures
            r == self.spec_reverse(),
    {
        Flow {
            source_ip: self.destination_ip,
            source_port: self.destination_port,
            destination_ip: self.source_ip,
            destination_port: self.source_port,
        }
    }
}

impl Default for Flow {
    /// The all-zero flow (unspecified addresses and ports).
    fn default() -> (r: Self)
        ensures
            r == (Flow { source_ip: 0, source_port: 0, destination_ip: 0, destination_port: 0 }),
    {
        Flow { source_ip: 0, source_port: 0, destination_ip: 0, destination_port: 0 }
    }
}

} // verus!
