use vstd::prelude::*;

verus! {

/// The longest connection identifier the wire format carries.
pub const MAX_CONNECTION_ID_LEN: usize = 20;

/// A connection identifier: an opaque byte string of at most
/// [`MAX_CONNECTION_ID_LEN`] bytes.  Short headers carry it raw; long headers
/// carry it behind a one-byte length prefix.
pub struct ConnectionId {
    bytes: Vec<u8>,
}

impl View for ConnectionId {
    type V = Seq<u8>;

    closed spec fn view(&self) -> Seq<u8> {
        self.bytes@
    }
}

impl ConnectionId {
    pub open spec fn wf(&self) -> bool {
        self@.len() <= MAX_CONNECTION_ID_LEN
    }

    pub fn new(bytes: Vec<u8>) -> (r: Self)
        requires
            bytes@.len() <= MAX_CONNECTION_ID_LEN,
        ensures
            r@ == bytes@,
            r.wf(),
    {
        ConnectionId { bytes }
    }

    pub fn len(&self) -> (r: usize)
        ensures
            r == self@.len(),
    {
        self.bytes.len()
    }

    pub fn as_slice(&self) -> (r: &[u8])
        ensures
            r@ == self@,
    {
        self.bytes.as_slice()
    }
}

} // verus!
