use vstd::prelude::*;

use crate::cid::ConnectionId;
use crate::crypto::CryptoDx;
use crate::crypto::Error;
use crate::crypto::MASK_SIZE;
use crate::crypto::SAMPLE_SIZE;
use crate::encoder::be_bytes;
use crate::encoder::varint_bytes;
use crate::encoder::Encoder;

verus! {

broadcast use crate::encoder::lemma_be_bytes_len;

/// The wire version this crate writes into long headers.
pub const QUIC_VERSION: u32 = 0xff00_0018;

pub const PACKET_TYPE_INITIAL: u8 = 0x0;
pub const PACKET_TYPE_0RTT: u8 = 0x01;
pub const PACKET_TYPE_HANDSHAKE: u8 = 0x2;
pub const PACKET_TYPE_RETRY: u8 = 0x03;

pub const PACKET_BIT_LONG: u8 = 0x80;
pub const PACKET_BIT_SHORT: u8 = 0x00;
pub const PACKET_BIT_FIXED_QUIC: u8 = 0x40;

pub type PacketNumber = u64;

/// The kinds of packet the protocol knows.
#[derive(Debug, Clone, Copy, PartialEq, Eq, Structural)]
pub enum PacketType {
    VersionNegotiation,
    Initial,
    Handshake,
    ZeroRtt,
    Retry,
    Short,
}

impl PacketType {
    /// Whether this kind carries a type code in a long header's first byte.
    pub open spec fn has_code(self) -> bool {
        self == PacketType::Initial || self == PacketType::ZeroRtt || self
            == PacketType::Handshake || self == PacketType::Retry
    }

    pub open spec fn spec_code(self) -> u8 {
        match self {
            PacketType::Initial => PACKET_TYPE_INITIAL,
            PacketType::ZeroRtt => PACKET_TYPE_0RTT,
            PacketType::Handshake => PACKET_TYPE_HANDSHAKE,
            PacketType::Retry => PACKET_TYPE_RETRY,
            _ => arbitrary(),
        }
    }

    /// The two-bit type code embedded in a long header.  Version Negotiation
    /// and short headers have no such field, so those kinds are ruled out by
    /// the precondition.
    pub fn code(self) -> (r: u8)
        requires
            self.has_code(),
        ensures
            r == self.spec_code(),
    {
        match self {
            PacketType::Initial => PACKET_TYPE_INITIAL,
            PacketType::ZeroRtt => PACKET_TYPE_0RTT,
            PacketType::Handshake => PACKET_TYPE_HANDSHAKE,
            PacketType::Retry => PACKET_TYPE_RETRY,
            _ => vstd::pervasive::unreached(),
        }
    }
}

/// The first byte of a short header: short marker, fixed bit, and the
/// key-phase bit in position 2.
pub open spec fn short_first_byte(key_phase: bool) -> u8 {
    PACKET_BIT_SHORT | PACKET_BIT_FIXED_QUIC | ((if key_phase {
        1u8
    } else {
        0u8
    }) << 2)
}

/// The bytes a short-header start appends: the first byte, then the
/// destination connection identifier raw.
pub open spec fn short_header(key_phase: bool, dcid: Seq<u8>) -> Seq<u8> {
    seq![short_first_byte(key_phase)] + dcid
}

/// The first byte of a long header: long marker, fixed bit, and the type code
/// in bits 4 and 5.
pub open spec fn long_first_byte(pt: PacketType) -> u8 {
    PACKET_BIT_LONG | PACKET_BIT_FIXED_QUIC | (pt.spec_code() << 4)
}

/// A byte string behind its one-byte length prefix.
pub open spec fn len_prefixed(b: Seq<u8>) -> Seq<u8> {
    seq![b.len() as u8] + b
}

/// The bytes a long-header start appends: first byte, version, then both
/// connection identifiers length-prefixed.
pub open spec fn long_header(pt: PacketType, dcid: Seq<u8>, scid: Seq<u8>) -> Seq<u8> {
    seq![long_first_byte(pt)] + be_bytes(QUIC_VERSION as nat, 4) + len_prefixed(dcid)
        + len_prefixed(scid)
}

/// Offsets into the buffer for the packet in progress.
pub struct PacketBuilderOffsets {
    /// The bits of the first byte that header protection masks.
    pub first_byte_mask: u8,
    /// Offset of the reserved two-byte length field; zero while none is
    /// reserved.
    pub len: usize,
    /// Start of the packet-number field.
    pub pn_start: usize,
    /// End of the packet-number field.
    pub pn_end: usize,
}

/// An incremental assembler for one short- or long-header packet.
///
/// It owns the output buffer while the packet is in progress; the bytes before
/// `header_start` are earlier packets being coalesced and are never touched.
/// `build` and `abort` consume the builder and hand the buffer back.
pub struct PacketBuilder {
    pub encoder: Encoder,
    pub pn: PacketNumber,
    pub header_start: usize,
    pub header_end: usize,
    pub offsets: PacketBuilderOffsets,
}

impl PacketBuilder {
    /// The bounds every builder keeps: the header range lies inside the
    /// buffer, behind at least one written byte.
    pub open spec fn wf(&self) -> bool {
        &&& self.header_start <= self.header_end
        &&& self.header_end <= self.encoder@.len()
        &&& self.header_start < self.encoder@.len()
    }

    /// The header is still open: no packet number was written yet.
    pub open spec fn pn_unset(&self) -> bool {
        &&& self.header_end == self.header_start
        &&& self.offsets.pn_start == 0
        &&& self.offsets.pn_end == 0
        &&& self.offsets.len == 0
    }

    /// The packet number is fixed: its field closes the header, and a length
    /// placeholder sits right before it when one was reserved.
    pub open spec fn pn_fixed(&self) -> bool {
        &&& self.header_start < self.offsets.pn_start
        &&& self.offsets.pn_start < self.offsets.pn_end
        &&& self.offsets.pn_end == self.header_end
        &&& self.offsets.pn_end - self.offsets.pn_start <= 4
        &&& (self.offsets.len != 0 ==> self.offsets.len + 2 == self.offsets.pn_start
            && self.header_start < self.offsets.len)
    }

    /// Nothing was appended after the header and packet number.
    pub open spec fn spec_is_empty(&self) -> bool {
        self.encoder@.len() == self.header_end
    }

    /// Start a short-header packet on `encoder`, leaving whatever the buffer
    /// already holds untouched.
    pub fn short(encoder: Encoder, key_phase: bool, dcid: &ConnectionId) -> (r: Self)
        requires
            dcid.wf(),
        ensures
            r.encoder@ == encoder@ + short_header(key_phase, dcid@),
            r.header_start == encoder@.len(),
            r.header_end == r.header_start,
            r.offsets.first_byte_mask == 0x1f,
            r.pn_unset(),
            r.wf(),
            r.encoder@[r.header_start as int] & 0x80 == PACKET_BIT_SHORT,
    {
        let header_start = encoder.len();
        let mut enc = encoder;
        let kp: u8 = if key_phase {
            1
        } else {
            0
        };
        enc.encode_byte(PACKET_BIT_SHORT | PACKET_BIT_FIXED_QUIC | (kp << 2));
        enc.encode(dcid.as_slice());
        proof {
            assert(enc@ =~= encoder@ + short_header(key_phase, dcid@));
            assert((PACKET_BIT_SHORT | PACKET_BIT_FIXED_QUIC | (kp << 2)) & 0x80
                == PACKET_BIT_SHORT) by (bit_vector)
                requires
                    kp == 0 || kp == 1,
            ;
        }
        PacketBuilder {
            encoder: enc,
            pn: u64::MAX,
            header_start,
            header_end: header_start,
            offsets: PacketBuilderOffsets { first_byte_mask: 0x1f, len: 0, pn_start: 0, pn_end: 0 },
        }
    }

    /// Start a long-header packet on `encoder`.  For an Initial packet,
    /// `initial_token` must follow, even with an empty token.
    pub fn long(encoder: Encoder, pt: PacketType, dcid: &ConnectionId, scid: &ConnectionId) -> (r:
        Self)
        requires
            pt.has_code(),
            dcid.wf(),
            scid.wf(),
        ensures
            r.encoder@ == encoder@ + long_header(pt, dcid@, scid@),
            r.header_start == encoder@.len(),
            r.header_end == r.header_start,
            r.offsets.first_byte_mask == 0x0f,
            r.pn_unset(),
            r.wf(),
            pt == PacketType::Initial ==> r.encoder@[r.header_start as int] & 0xb0
                == PACKET_BIT_LONG | (PACKET_TYPE_INITIAL << 4),
            r.encoder@[r.header_start as int] & 0x80 == PACKET_BIT_LONG,
    {
        let header_start = encoder.len();
        let mut enc = encoder;
        enc.encode_byte(PACKET_BIT_LONG | PACKET_BIT_FIXED_QUIC | (pt.code() << 4));
        enc.encode_uint(4, QUIC_VERSION as u64);
        enc.encode_vec1(dcid.as_slice());
        enc.encode_vec1(scid.as_slice());
        proof {
            assert(enc@ =~= encoder@ + long_header(pt, dcid@, scid@));
            assert((PACKET_BIT_LONG | PACKET_BIT_FIXED_QUIC | (PACKET_TYPE_INITIAL << 4)) & 0xb0
                == PACKET_BIT_LONG | (PACKET_TYPE_INITIAL << 4)) by (bit_vector);
            let c = pt.spec_code();
            assert((PACKET_BIT_LONG | PACKET_BIT_FIXED_QUIC | (c << 4)) & 0x80 == PACKET_BIT_LONG)
                by (bit_vector);
            assert(enc@[header_start as int] == long_first_byte(pt));
        }
        PacketBuilder {
            encoder: enc,
            pn: u64::MAX,
            header_start,
            header_end: header_start,
            offsets: PacketBuilderOffsets { first_byte_mask: 0x0f, len: 0, pn_start: 0, pn_end: 0 },
        }
    }

    /// For an Initial packet, append the token behind a variable-length
    /// prefix.  Required exactly once per Initial packet, even when the token
    /// is empty.
    pub fn initial_token(&mut self, token: &[u8])
        requires
            old(self).wf(),
            old(self).pn_unset(),
            old(self).encoder@[old(self).header_start as int] & 0xb0 == PACKET_BIT_LONG | (
            PACKET_TYPE_INITIAL << 4),
            token@.len() < 0x4000_0000_0000_0000,
        ensures
            final(self).encoder@ == old(self).encoder@ + varint_bytes(token@.len() as nat)
                + token@,
            final(self).header_start == old(self).header_start,
            final(self).header_end == old(self).header_end,
            final(self).offsets == old(self).offsets,
            final(self).pn == old(self).pn,
            final(self).wf(),
            final(self).pn_unset(),
    {
        self.encoder.encode_vvec(token);
    }

    /// Fix the packet number: for a long header, first reserve the two-byte
    /// length field, then write `pn` in `pn_len` bytes, record its range, and
    /// put `pn_len - 1` into the first byte's low bits.
    pub fn pn(&mut self, pn: PacketNumber, pn_len: usize)
        requires
            old(self).wf(),
            old(self).pn_unset(),
            1 <= pn_len <= 4,
        ensures
            ({
                let e0 = old(self).encoder@;
                let hs = old(self).header_start as int;
                let is_long = e0[hs] & 0x80 == PACKET_BIT_LONG;
                let lenfield: Seq<u8> = if is_long {
                    seq![0u8, 0u8]
                } else {
                    Seq::<u8>::empty()
                };
                let appended = lenfield + be_bytes(pn as nat, pn_len as nat);
                &&& final(self).encoder@ == (e0 + appended).update(hs, e0[hs] | (pn_len - 1) as u8)
                &&& final(self).encoder@.len() == e0.len() + lenfield.len() + pn_len
                &&& final(self).offsets.len == (if is_long {
                    e0.len()
                } else {
                    0
                })
                &&& final(self).offsets.pn_start == e0.len() + lenfield.len()
            }),
            final(self).offsets.pn_end == final(self).encoder@.len(),
            final(self).header_end == final(self).encoder@.len(),
            final(self).header_start == old(self).header_start,
            final(self).offsets.first_byte_mask == old(self).offsets.first_byte_mask,
            final(self).pn == pn,
            final(self).wf(),
            final(self).pn_fixed(),
            final(self).spec_is_empty(),
    {
        if self.encoder.byte_at(self.header_start) & 0x80 == PACKET_BIT_LONG {
            self.offsets.len = self.encoder.len();
            self.encoder.encode_byte(0);
            self.encoder.encode_byte(0);
        }
        let pn_offset = self.encoder.len();
        self.encoder.encode_uint(pn_len, pn);
        self.offsets.pn_start = pn_offset;
        self.offsets.pn_end = self.encoder.len();
        let first = self.encoder.byte_at(self.header_start);
        self.encoder.set_byte(self.header_start, first | (pn_len - 1) as u8);
        self.header_end = self.encoder.len();
        self.pn = pn;
        proof {
            let e0 = old(self).encoder@;
            let hs = old(self).header_start as int;
            let is_long = e0[hs] & 0x80 == PACKET_BIT_LONG;
            let lenfield: Seq<u8> = if is_long {
                seq![0u8, 0u8]
            } else {
                Seq::<u8>::empty()
            };
            let appended = lenfield + be_bytes(pn as nat, pn_len as nat);
            assert(self.encoder@ =~= (e0 + appended).update(hs, e0[hs] | (pn_len - 1) as u8));
        }
    }

    /// Append payload bytes after the header.
    pub fn encode(&mut self, data: &[u8])
        requires
            old(self).wf(),
        ensures
            final(self).encoder@ == old(self).encoder@ + data@,
            final(self).header_start == old(self).header_start,
            final(self).header_end == old(self).header_end,
            final(self).offsets == old(self).offsets,
            final(self).pn == old(self).pn,
            final(self).wf(),
            old(self).pn_fixed() ==> final(self).pn_fixed(),
            data@.len() > 0 ==> !final(self).spec_is_empty(),
    {
        self.encoder.encode(data);
    }

    /// True exactly when no payload byte followed the packet number.
    pub fn is_empty(&self) -> (r: bool)
        ensures
            r == self.spec_is_empty(),
    {
        self.encoder.len() == self.header_end
    }

    /// Discard the packet in progress: the buffer is cut back to exactly what
    /// it held before `short` or `long` began this packet.
    pub fn abort(self) -> (r: Encoder)
        requires
            self.wf(),
        ensures
            r@ == self.encoder@.subrange(0, self.header_start as int),
    {
        let mut this = self;
        this.encoder.truncate(this.header_start);
        this.encoder
    }

    /// Back-patch the reserved length field with the bytes that follow it plus
    /// the tag the provider will add, in the two-byte variable-length form.
    fn write_len(&mut self, expansion: usize)
        requires
            old(self).wf(),
            old(self).pn_fixed(),
            old(self).offsets.len != 0,
            old(self).encoder@.len() + expansion <= usize::MAX,
        ensures
            final(self).encoder@ == with_len_field(
                old(self).encoder@,
                old(self).offsets.len as int,
                (old(self).encoder@.len() - (old(self).offsets.len + 2) + expansion) as nat,
            ),
            final(self).encoder@.len() == old(self).encoder@.len(),
            final(self).header_start == old(self).header_start,
            final(self).header_end == old(self).header_end,
            final(self).offsets == old(self).offsets,
            final(self).pn == old(self).pn,
            final(self).wf(),
            final(self).pn_fixed(),
    {
        let len_val: usize = self.encoder.len() - (self.offsets.len + 2) + expansion;
        let off = self.offsets.len;
        self.encoder.set_byte(off, (0x40 + ((len_val / 0x100) % 0x40)) as u8);
        self.encoder.set_byte(off + 1, (len_val % 0x100) as u8);
    }
}

impl PacketBuilder {
    /// The buffer after the reserved length field is back-patched for a body
    /// that sealing will grow by `expansion` bytes; the buffer itself when no
    /// length field was reserved.
    pub open spec fn with_final_len(self, expansion: nat) -> Seq<u8> {
        if self.offsets.len != 0 {
            with_len_field(
                self.encoder@,
                self.offsets.len as int,
                (self.encoder@.len() - (self.offsets.len + 2) + expansion) as nat,
            )
        } else {
            self.encoder@
        }
    }

    /// Everything `build` guarantees of its output `out`, given the mask and
    /// the ciphertext the provider returned: the buffer with the length field
    /// patched and header protection applied, cut at the header's end, then
    /// the ciphertext.
    pub open spec fn build_output(
        self,
        expansion: nat,
        mask: Seq<u8>,
        ct: Seq<u8>,
        out: Seq<u8>,
    ) -> bool {
        &&& mask.len() == MASK_SIZE
        &&& ct.len() == self.encoder@.len() - self.header_end + expansion
        &&& out == hp_mask_apply(
            self.with_final_len(expansion),
            self.header_start as int,
            self.offsets.first_byte_mask,
            self.offsets.pn_start as int,
            self.offsets.pn_end as int,
            mask,
        ).take(self.header_end as int) + ct
    }

    /// `out` is a possible result of `build`: [`Self::build_output`] holds of
    /// it for some mask and ciphertext the provider produced.
    pub open spec fn build_ok(self, expansion: nat, out: Seq<u8>) -> bool {
        exists|mask: Seq<u8>, ct: Seq<u8>| self.build_output(expansion, mask, ct, out)
    }

    /// Finish the packet: patch the length field, seal the body with the
    /// header as associated data, mask the first byte and the packet-number
    /// field with a mask sampled from the ciphertext, and replace the
    /// plaintext body with the ciphertext.  Fails only when the provider
    /// fails, with the provider's error.
    pub fn build<C: CryptoDx>(self, crypto: &mut C) -> (r: Result<Encoder, Error>)
        requires
            self.wf(),
            self.pn_fixed(),
            self.encoder@.len() + old(crypto).spec_expansion() <= usize::MAX,
            // the ciphertext must be long enough to sample a mask from
            4 - (self.offsets.pn_end - self.offsets.pn_start) + SAMPLE_SIZE <= self.encoder@.len()
                - self.header_end + old(crypto).spec_expansion(),
        ensures
            final(crypto).spec_expansion() == old(crypto).spec_expansion(),
            (r matches Ok(out) ==> self.build_ok(old(crypto).spec_expansion(), out@)),
            (r matches Ok(out) ==> out@.len() == self.encoder@.len() + old(
                crypto,
            ).spec_expansion()),
            (r matches Ok(out) ==> out@.subrange(0, self.header_start as int) == self.encoder@
                .subrange(0, self.header_start as int)),
    {
        let ghost pre = self;
        let ghost expansion_spec = old(crypto).spec_expansion();
        let mut this = self;
        let expansion = crypto.expansion();
        if this.offsets.len > 0 {
            this.write_len(expansion);
        }
        proof {
            assert(this.encoder@ == pre.with_final_len(expansion_spec));
        }
        let hdr = this.encoder.slice_range(this.header_start, this.header_end);
        let body = this.encoder.slice_range(this.header_end, this.encoder.len());
        let ct = match crypto.encrypt(this.pn, hdr.as_slice(), body.as_slice()) {
            Ok(ct) => ct,
            Err(e) => {
                return Err(e);
            },
        };
        let pn_len = this.offsets.pn_end - this.offsets.pn_start;
        let offset = 4 - pn_len;
        let sample = sub_bytes(ct.as_slice(), offset, offset + SAMPLE_SIZE);
        let mask = match crypto.compute_mask(sample.as_slice()) {
            Ok(m) => m,
            Err(e) => {
                return Err(e);
            },
        };
        let ghost patched = pre.with_final_len(expansion_spec);
        let ghost hs = this.header_start as int;
        let ghost pn_start = this.offsets.pn_start as int;
        let ghost pn_end = this.offsets.pn_end as int;
        let ghost fbm = this.offsets.first_byte_mask;
        let first = this.encoder.byte_at(this.header_start);
        this.encoder.set_byte(this.header_start, first ^ (mask[0] & this.offsets.first_byte_mask));
        let mut i: usize = 0;
        while i < pn_len
            invariant
                i <= pn_len,
                pn_len == pn_end - pn_start,
                pn_len <= 4,
                this.header_end as int == pn_end,
                mask@.len() == MASK_SIZE,
                this.header_start as int == hs,
                this.offsets.pn_start as int == pn_start,
                this.offsets.pn_end as int == pn_end,
                hs < pn_start,
                pn_end <= patched.len(),
                this.encoder@.len() == patched.len(),
                forall|j: int|
                    0 <= j < patched.len() ==> this.encoder@[j] == (if j == hs {
                        patched[j] ^ (mask@[0] & fbm)
                    } else if pn_start <= j < pn_start + i {
                        patched[j] ^ mask@[j - pn_start + 1]
                    } else {
                        patched[j]
                    }),
            decreases pn_len - i,
        {
            let b = this.encoder.byte_at(this.offsets.pn_start + i);
            this.encoder.set_byte(this.offsets.pn_start + i, b ^ mask[1 + i]);
            i = i + 1;
        }
        proof {
            assert(this.encoder@ =~= hp_mask_apply(patched, hs, fbm, pn_start, pn_end, mask@));
        }
        let ghost masked = this.encoder@;
        this.encoder.truncate(this.header_end);
        this.encoder.encode(ct.as_slice());
        proof {
            assert(this.encoder@ =~= masked.take(pre.header_end as int) + ct@);
            assert(pre.build_ok(expansion_spec, this.encoder@)) by {
                assert(pre.build_output(expansion_spec, mask@, ct@, this.encoder@));
            }
            assert(this.encoder@.subrange(0, pre.header_start as int) =~= pre.encoder@.subrange(
                0,
                pre.header_start as int,
            ));
        }
        Ok(this.encoder)
    }
}

/// What `retry` guarantees of its output `out`, given the random low nibble
/// and the integrity tag that were produced: a Retry first byte carrying the
/// nibble, the version, both connection identifiers length-prefixed, the raw
/// token, and the tag.
pub open spec fn retry_output(
    dcid: Seq<u8>,
    scid: Seq<u8>,
    token: Seq<u8>,
    low_bits: u8,
    tag: Seq<u8>,
    expansion: nat,
    out: Seq<u8>,
) -> bool {
    &&& low_bits & 0xf0 == 0
    &&& tag.len() == expansion
    &&& out == seq![PACKET_BIT_LONG | PACKET_BIT_FIXED_QUIC | (PACKET_TYPE_RETRY << 4) | low_bits]
        + be_bytes(QUIC_VERSION as nat, 4) + len_prefixed(dcid) + len_prefixed(scid) + token + tag
}

/// `out` is a possible Retry packet for these inputs: [`retry_output`] holds
/// of it for some random nibble and some tag the protector produced.
pub open spec fn retry_ok(
    dcid: Seq<u8>,
    scid: Seq<u8>,
    token: Seq<u8>,
    expansion: nat,
    out: Seq<u8>,
) -> bool {
    exists|low_bits: u8, tag: Seq<u8>| retry_output(dcid, scid, token, low_bits, tag, expansion, out)
}

/// What `version_negotiation` guarantees of its output `out`, given the five
/// random bytes drawn: a first byte keeping only the long-header bit fixed, an
/// all-zero version, both connection identifiers length-prefixed, the real
/// version, and one greased version whose low nibbles are pinned to 0xa.
pub open spec fn vn_output(dcid: Seq<u8>, scid: Seq<u8>, grease: Seq<u8>, out: Seq<u8>) -> bool {
    &&& grease.len() == 5
    &&& out == seq![PACKET_BIT_LONG | (grease[4] & 0x7f)] + seq![0u8, 0u8, 0u8, 0u8] + len_prefixed(
        dcid,
    ) + len_prefixed(scid) + be_bytes(QUIC_VERSION as nat, 4) + Seq::new(
        4,
        |i: int| (grease[i] & 0xf0) | 0x0a,
    )
}

/// `out` is a possible Version Negotiation packet for these inputs.
pub open spec fn vn_ok(dcid: Seq<u8>, scid: Seq<u8>, out: Seq<u8>) -> bool {
    exists|grease: Seq<u8>| vn_output(dcid, scid, grease, out)
}

/// Relies on rand::random: one byte drawn from the thread's generator.
/// Nothing is promised of the value.
#[verifier::external_body]
fn random_u8() -> u8 {
    rand::random()
}

impl PacketBuilder {
    /// Build a complete Retry packet in one call.  The original destination
    /// connection identifier is written length-prefixed before the header,
    /// covered by the integrity tag as associated data, and stripped before
    /// returning; `crypto` is the fixed-key Retry protector, sealing an empty
    /// plaintext under packet number zero.  Fails only when the protector
    /// fails, with the protector's error.
    pub fn retry<C: CryptoDx>(
        crypto: &mut C,
        dcid: &ConnectionId,
        scid: &ConnectionId,
        token: &[u8],
        odcid: &ConnectionId,
    ) -> (r: Result<Vec<u8>, Error>)
        requires
            dcid.wf(),
            scid.wf(),
            odcid.wf(),
        ensures
            final(crypto).spec_expansion() == old(crypto).spec_expansion(),
            (r matches Ok(p) ==> retry_ok(dcid@, scid@, token@, old(crypto).spec_expansion(), p@)),
    {
        let ghost expansion_spec = old(crypto).spec_expansion();
        let mut encoder = Encoder::new();
        encoder.encode_vec1(odcid.as_slice());
        let start = encoder.len();
        let raw = random_u8();
        let low = raw & 0x0f;
        proof {
            assert(low & 0xf0 == 0) by (bit_vector)
                requires
                    low == raw & 0x0f,
            ;
        }
        encoder.encode_byte(
            PACKET_BIT_LONG | PACKET_BIT_FIXED_QUIC | (PACKET_TYPE_RETRY << 4) | low,
        );
        encoder.encode_uint(4, QUIC_VERSION as u64);
        encoder.encode_vec1(dcid.as_slice());
        encoder.encode_vec1(scid.as_slice());
        encoder.encode(token);
        let aad = encoder.to_vec();
        let nothing: Vec<u8> = Vec::new();
        let tag = match crypto.encrypt(0, aad.as_slice(), nothing.as_slice()) {
            Ok(t) => t,
            Err(e) => {
                return Err(e);
            },
        };
        encoder.encode(tag.as_slice());
        let mut complete = encoder.into_vec();
        let out = complete.split_off(start);
        proof {
            assert(retry_ok(dcid@, scid@, token@, expansion_spec, out@)) by {
                assert(out@ =~= seq![
                    PACKET_BIT_LONG | PACKET_BIT_FIXED_QUIC | (PACKET_TYPE_RETRY << 4) | low,
                ] + be_bytes(QUIC_VERSION as nat, 4) + len_prefixed(dcid@) + len_prefixed(scid@)
                    + token@ + tag@);
                assert(retry_output(dcid@, scid@, token@, low, tag@, expansion_spec, out@));
            }
        }
        Ok(out)
    }

    /// Build a complete Version Negotiation packet in one call: no packet
    /// number, no protection, a deliberately unfixed first byte, and one
    /// greased version to discourage ossification.
    pub fn version_negotiation(dcid: &ConnectionId, scid: &ConnectionId) -> (r: Vec<u8>)
        requires
            dcid.wf(),
            scid.wf(),
        ensures
            vn_ok(dcid@, scid@, r@),
            r@.len() == 15 + dcid@.len() + scid@.len(),
            r@[0] & PACKET_BIT_LONG == PACKET_BIT_LONG,
            r@.subrange(1, 5) == seq![0u8, 0u8, 0u8, 0u8],
            r@.subrange(r@.len() - 8, r@.len() - 4) == be_bytes(QUIC_VERSION as nat, 4),
            forall|j: int| r@.len() - 4 <= j < r@.len() ==> (r@[j] & 0x0f) == 0x0a,
    {
        let mut grease: Vec<u8> = Vec::new();
        let mut k: usize = 0;
        while k < 5
            invariant
                k <= 5,
                grease@.len() == k,
            decreases 5 - k,
        {
            grease.push(random_u8());
            k = k + 1;
        }
        let mut encoder = Encoder::new();
        encoder.encode_byte(PACKET_BIT_LONG | (grease[4] & 0x7f));
        encoder.encode_byte(0);
        encoder.encode_byte(0);
        encoder.encode_byte(0);
        encoder.encode_byte(0);
        encoder.encode_vec1(dcid.as_slice());
        encoder.encode_vec1(scid.as_slice());
        encoder.encode_uint(4, QUIC_VERSION as u64);
        let ghost base = encoder@;
        let mut i: usize = 0;
        while i < 4
            invariant
                i <= 4,
                grease@.len() == 5,
                encoder@ == base + Seq::new(i as nat, |j: int| (grease@[j] & 0xf0) | 0x0a),
            decreases 4 - i,
        {
            encoder.encode_byte((grease[i] & 0xf0) | 0x0a);
            i = i + 1;
            proof {
                assert(Seq::new(i as nat, |j: int| (grease@[j] & 0xf0) | 0x0a) =~= Seq::new(
                    (i - 1) as nat,
                    |j: int| (grease@[j] & 0xf0) | 0x0a,
                ).push((grease@[i - 1] & 0xf0) | 0x0a));
            }
        }
        let r = encoder.into_vec();
        proof {
            assert(vn_ok(dcid@, scid@, r@)) by {
                assert(r@ =~= seq![PACKET_BIT_LONG | (grease@[4] & 0x7f)] + seq![0u8, 0u8, 0u8, 0u8]
                    + len_prefixed(dcid@) + len_prefixed(scid@) + be_bytes(QUIC_VERSION as nat, 4)
                    + Seq::new(4, |j: int| (grease@[j] & 0xf0) | 0x0a));
                assert(vn_output(dcid@, scid@, grease@, r@));
            }
            let g4 = grease@[4];
            assert((PACKET_BIT_LONG | (g4 & 0x7f)) & PACKET_BIT_LONG == PACKET_BIT_LONG)
                by (bit_vector);
            assert(r@.subrange(1, 5) =~= seq![0u8, 0u8, 0u8, 0u8]);
            assert(r@.subrange(r@.len() - 8, r@.len() - 4) =~= be_bytes(QUIC_VERSION as nat, 4));
            assert forall|j: int| r@.len() - 4 <= j < r@.len() implies (r@[j] & 0x0f) == 0x0a by {
                let g = grease@[j - (r@.len() - 4)];
                assert(r@[j] == (g & 0xf0) | 0x0a);
                assert(((g & 0xf0) | 0x0a) & 0x0f == 0x0a) by (bit_vector);
            }
        }
        r
    }
}

/// Law: coalescing keeps earlier packets intact.  A builder begun on a buffer
/// already holding built packets has `header_start` at that buffer's length
/// and never touches the bytes below it, and every output `build` may return
/// carries them unchanged: its first `first.len()` bytes are exactly `first`.
pub proof fn lemma_coalesced_prefix(first: Seq<u8>, b: PacketBuilder, expansion: nat, out: Seq<u8>)
    requires
        b.wf(),
        b.pn_fixed(),
        b.header_start == first.len(),
        b.encoder@.subrange(0, b.header_start as int) == first,
        b.build_ok(expansion, out),
    ensures
        out.subrange(0, first.len() as int) == first,
{
    let (mask, ct) = choose|mask: Seq<u8>, ct: Seq<u8>| b.build_output(expansion, mask, ct, out);
    let patched = b.with_final_len(expansion);
    let masked = hp_mask_apply(
        patched,
        b.header_start as int,
        b.offsets.first_byte_mask,
        b.offsets.pn_start as int,
        b.offsets.pn_end as int,
        mask,
    );
    assert forall|j: int| 0 <= j < first.len() implies out[j] == first[j] by {
        assert(out[j] == masked.take(b.header_end as int)[j]);
        assert(masked[j] == patched[j]);
        assert(patched[j] == b.encoder@[j]);
        assert(b.encoder@[j] == b.encoder@.subrange(0, b.header_start as int)[j]);
    }
    assert(out.subrange(0, first.len() as int) =~= first);
}

/// Law: a packet begun on a buffer and then aborted leaves that buffer
/// exactly as it was.  `short` and `long` return a builder whose buffer is the
/// given one followed by the new header and whose `header_start` is the given
/// buffer's length; `abort` returns the buffer cut back to `header_start`;
/// together, the buffer from before the packet was begun, byte for byte.
pub proof fn lemma_abort_restores(base: Seq<u8>, header: Seq<u8>, b: PacketBuilder)
    requires
        b.encoder@ == base + header,
        b.header_start == base.len(),
    ensures
        b.encoder@.subrange(0, b.header_start as int) == base,
{
    assert(b.encoder@.subrange(0, b.header_start as int) =~= base);
}

/// `b` with the header-protection mask applied: the byte at `hs` XORed with
/// the mask's first byte restricted to `fbm`, the bytes in `[pn_start,
/// pn_end)` XORed with the following mask bytes in order, and every other
/// byte untouched.
pub open spec fn hp_mask_apply(
    b: Seq<u8>,
    hs: int,
    fbm: u8,
    pn_start: int,
    pn_end: int,
    mask: Seq<u8>,
) -> Seq<u8> {
    Seq::new(
        b.len(),
        |j: int|
            if j == hs {
                b[j] ^ (mask[0] & fbm)
            } else if pn_start <= j < pn_end {
                b[j] ^ mask[j - pn_start + 1]
            } else {
                b[j]
            },
    )
}

/// A copy of `data[a..b]`.
fn sub_bytes(data: &[u8], a: usize, b: usize) -> (r: Vec<u8>)
    requires
        a <= b,
        b <= data@.len(),
    ensures
        r@ == data@.subrange(a as int, b as int),
{
    let mut r: Vec<u8> = Vec::new();
    let mut i: usize = a;
    while i < b
        invariant
            a <= i <= b,
            b <= data@.len(),
            r@ == data@.subrange(a as int, i as int),
        decreases b - i,
    {
        r.push(data[i]);
        i = i + 1;
        proof {
            assert(data@.subrange(a as int, i as int) =~= data@.subrange(a as int, i - 1).push(
                data@[i - 1],
            ));
        }
    }
    r
}

/// The two bytes of a reserved-length back-patch: tag bits `01`, then the low
/// fourteen bits of `l`, big-endian.
pub open spec fn len_field_bytes(l: nat) -> Seq<u8> {
    seq![(0x40 + ((l / 0x100) % 0x40)) as u8, (l % 0x100) as u8]
}

/// `b` with the length field at `off` patched to encode `l`.
pub open spec fn with_len_field(b: Seq<u8>, off: int, l: nat) -> Seq<u8> {
    b.update(off, len_field_bytes(l)[0]).update(off + 1, len_field_bytes(l)[1])
}

/// Law: for every length the two-byte field can carry, the back-patched bytes
/// are exactly the two-byte variable-length-integer form of that length — the
/// same encoding the token prefix uses.
pub proof fn lemma_len_field_is_varint(l: nat)
    requires
        l < 0x4000,
    ensures
        len_field_bytes(l) == be_bytes(l + 0x4000, 2),
{
    let lv = l as u64;
    assert((lv + 0x4000) / 256 == lv / 256 + 0x40 && (lv + 0x4000) % 256 == lv % 256 && (lv / 256)
        % 0x40 == lv / 256 && (lv / 256 + 0x40) % 256 == lv / 256 + 0x40) by (bit_vector)
        requires
            lv < 0x4000,
    ;
    let m = l + 0x4000;
    assert(be_bytes(m, 2) == be_bytes(m / 256, 1).push((m % 256) as u8));
    assert(be_bytes(m / 256, 1) == be_bytes(m / 256 / 256, 0).push(((m / 256) % 256) as u8));
    assert(be_bytes(m / 256 / 256, 0) == Seq::<u8>::empty());
    assert(be_bytes(m, 2) =~= seq![((m / 256) % 256) as u8, (m % 256) as u8]);
    assert(len_field_bytes(l) =~= be_bytes(l + 0x4000, 2));
}

} // verus!
