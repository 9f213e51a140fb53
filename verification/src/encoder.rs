use vstd::prelude::*;
use vstd::pervasive::VecAdditionalExecFns;

verus! {

/// The big-endian encoding of `v` in exactly `n` bytes (only the low `n` bytes
/// of `v` are represented; the last element is the least significant byte).
pub open spec fn be_bytes(v: nat, n: nat) -> Seq<u8>
    decreases n,
{
    if n == 0 {
        Seq::empty()
    } else {
        be_bytes(v / 256, (n - 1) as nat).push((v % 256) as u8)
    }
}

pub broadcast proof fn lemma_be_bytes_len(v: nat, n: nat)
    ensures
        (#[trigger] be_bytes(v, n)).len() == n,
    decreases n,
{
    if n > 0 {
        lemma_be_bytes_len(v / 256, (n - 1) as nat);
    }
}

/// The variable-length integer encoding used for length prefixes: the top two
/// bits of the first byte give the total width (1, 2, 4 or 8 bytes) and the
/// remaining bits hold the value, big-endian.  Values up to `2^62 - 1` are
/// representable.
pub open spec fn varint_bytes(n: nat) -> Seq<u8> {
    if n < 0x40 {
        be_bytes(n, 1)
    } else if n < 0x4000 {
        be_bytes(n + 0x4000, 2)
    } else if n < 0x4000_0000 {
        be_bytes(n + 0x8000_0000, 4)
    } else {
        be_bytes(n + 0xc000_0000_0000_0000, 8)
    }
}

/// A growable byte buffer into which packets are assembled.  Its view is the
/// byte sequence it holds; every operation states exactly which bytes it
/// appends or overwrites.
pub struct Encoder {
    buf: Vec<u8>,
}

impl View for Encoder {
    type V = Seq<u8>;

    closed spec fn view(&self) -> Seq<u8> {
        self.buf@
    }
}

impl Encoder {
    /// An empty buffer.
    pub fn new() -> (r: Self)
        ensures
            r@ == Seq::<u8>::empty(),
    {
        Encoder { buf: Vec::new() }
    }

    pub fn len(&self) -> (r: usize)
        ensures
            r == self@.len(),
    {
        self.buf.len()
    }

    pub fn is_empty(&self) -> (r: bool)
        ensures
            r == (self@.len() == 0),
    {
        self.buf.is_empty()
    }

    /// Read the byte at position `i`.
    pub fn byte_at(&self, i: usize) -> (r: u8)
        requires
            i < self@.len(),
        ensures
            r == self@[i as int],
    {
        self.buf[i]
    }

    /// Overwrite the byte at position `i`.
    pub fn set_byte(&mut self, i: usize, b: u8)
        requires
            i < old(self)@.len(),
        ensures
            final(self)@ == old(self)@.update(i as int, b),
    {
        self.buf.set(i, b);
    }

    /// Append a single byte.
    pub fn encode_byte(&mut self, b: u8)
        ensures
            final(self)@ == old(self)@.push(b),
    {
        self.buf.push(b);
    }

    /// Append a slice of bytes unchanged.
    pub fn encode(&mut self, data: &[u8])
        ensures
            final(self)@ == old(self)@ + data@,
    {
        let mut i: usize = 0;
        while i < data.len()
            invariant
                i <= data@.len(),
                self@ == old(self)@ + data@.take(i as int),
            decreases data@.len() - i,
        {
            let b = data[i];
            self.buf.push(b);
            i = i + 1;
            proof {
                assert(data@.take(i as int) =~= data@.take(i - 1).push(data@[i - 1]));
            }
        }
        proof {
            assert(data@.take(data@.len() as int) =~= data@);
        }
    }

    /// Append `v` as an `n`-byte big-endian integer.
    pub fn encode_uint(&mut self, n: usize, v: u64)
        requires
            n <= 8,
        ensures
            final(self)@ == old(self)@ + be_bytes(v as nat, n as nat),
        decreases n,
    {
        if n == 0 {
            proof {
                assert(old(self)@ + be_bytes(v as nat, 0) =~= old(self)@);
            }
        } else {
            self.encode_uint(n - 1, v / 256);
            self.encode_byte((v % 256) as u8);
            proof {
                assert(self@ =~= old(self)@ + be_bytes(v as nat, n as nat));
            }
        }
    }

    /// Append `data` preceded by its length in one byte.
    pub fn encode_vec1(&mut self, data: &[u8])
        requires
            data@.len() <= 255,
        ensures
            final(self)@ == old(self)@ + seq![data@.len() as u8] + data@,
    {
        self.encode_byte(data.len() as u8);
        self.encode(data);
        proof {
            assert(self@ =~= old(self)@ + seq![data@.len() as u8] + data@);
        }
    }

    /// Append `data` preceded by its length as a variable-length integer.
    pub fn encode_vvec(&mut self, data: &[u8])
        requires
            data@.len() < 0x4000_0000_0000_0000,
        ensures
            final(self)@ == old(self)@ + varint_bytes(data@.len() as nat) + data@,
    {
        let n: u64 = data.len() as u64;
        if n < 0x40 {
            self.encode_byte(n as u8);
            proof {
                assert(be_bytes(n as nat, 1) == be_bytes((n as nat) / 256, 0).push(
                    ((n as nat) % 256) as u8,
                ));
                assert(be_bytes(n as nat, 1) =~= seq![n as u8]);
            }
        } else if n < 0x4000 {
            self.encode_uint(2, n + 0x4000);
        } else if n < 0x4000_0000 {
            self.encode_uint(4, n + 0x8000_0000);
        } else {
            self.encode_uint(8, n + 0xc000_0000_0000_0000);
        }
        self.encode(data);
        proof {
            assert(self@ =~= old(self)@ + varint_bytes(data@.len() as nat) + data@);
        }
    }

    /// Cut the buffer back to `len` bytes.
    pub fn truncate(&mut self, len: usize)
        requires
            len <= old(self)@.len(),
        ensures
            final(self)@ == old(self)@.subrange(0, len as int),
    {
        self.buf.truncate(len);
    }

    /// A copy of the bytes in `[a, b)`.
    pub fn slice_range(&self, a: usize, b: usize) -> (r: Vec<u8>)
        requires
            a <= b,
            b <= self@.len(),
        ensures
            r@ == self@.subrange(a as int, b as int),
    {
        let mut r: Vec<u8> = Vec::new();
        let mut i: usize = a;
        while i < b
            invariant
                a <= i <= b,
                b <= self@.len(),
                r@ == self@.subrange(a as int, i as int),
            decreases b - i,
        {
            r.push(self.buf[i]);
            i = i + 1;
            proof {
                assert(self@.subrange(a as int, i as int) =~= self@.subrange(a as int, i - 1).push(
                    self@[i - 1],
                ));
            }
        }
        r
    }

    /// A copy of the whole buffer.
    pub fn to_vec(&self) -> (r: Vec<u8>)
        ensures
            r@ == self@,
    {
        let r = self.slice_range(0, self.len());
        proof {
            assert(self@.subrange(0, self@.len() as int) =~= self@);
        }
        r
    }

    /// Give up the buffer as a plain byte vector.
    pub fn into_vec(self) -> (r: Vec<u8>)
        ensures
            r@ == self@,
    {
        self.buf
    }
}

} // verus!
