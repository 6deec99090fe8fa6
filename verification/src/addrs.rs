//! IPv4 socket addresses as plain values. The node speaks IPv4 only; the
//! surrounding process converts between these and its socket types.

use vstd::prelude::*;

verus! {

/// An IPv4 address and UDP port: four octets and a 16-bit port.
#[derive(Clone, Copy, PartialEq, Eq, Structural, Debug)]
pub struct PeerAddr {
    pub o0: u8,
    pub o1: u8,
    pub o2: u8,
    pub o3: u8,
    pub port: u16,
}

impl PeerAddr {
    /// Builds an address from its octets and port.
    pub fn new(o0: u8, o1: u8, o2: u8, o3: u8, port: u16) -> (r: PeerAddr)
        ensures
            r == (PeerAddr { o0, o1, o2, o3, port }),
    {
        PeerAddr { o0, o1, o2, o3, port }
    }

    /// The same address with the port replaced.
    pub fn with_port(&self, port: u16) -> (r: PeerAddr)
        ensures
            r == (PeerAddr { port, ..*self }),
    {
        PeerAddr { port, ..*self }
    }

    /// The compact 6-byte wire form: four octets then the port big-endian.
    pub open spec fn compact(self) -> Seq<u8> {
        seq![
            self.o0,
            self.o1,
            self.o2,
            self.o3,
            (self.port / 256) as u8,
            (self.port % 256) as u8,
        ]
    }

    /// Appends the compact 6-byte form of this address to `out`.
    pub fn push_compact(&self, out: &mut Vec<u8>)
        ensures
            final(out)@ == old(out)@ + self.compact(),
    {
        out.push(self.o0);
        out.push(self.o1);
        out.push(self.o2);
        out.push(self.o3);
        out.push((self.port / 256) as u8);
        out.push((self.port % 256) as u8);
        assert(out@ =~= old(out)@ + self.compact());
    }
}

} // verus!
