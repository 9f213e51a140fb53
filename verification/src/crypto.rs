use vstd::prelude::*;

verus! {

/// Number of ciphertext bytes sampled to derive the header-protection mask.
pub const SAMPLE_SIZE: usize = 16;

/// Number of bytes in a header-protection mask: one for the first byte and up
/// to four for the packet-number field.
pub const MASK_SIZE: usize = 5;

/// The failures packet construction can surface.
#[derive(Debug, Clone, Copy, PartialEq, Eq, Structural)]
pub enum Error {
    /// The packet-protection provider rejected a call.
    CryptoError,
    /// A protector the construction depends on could not be used.
    InternalError,
}

/// The packet-protection provider for one direction of one connection.
///
/// The builder does not derive keys or run ciphers itself; the caller hands in
/// an implementation of this trait for the duration of one `build` (or
/// `retry`) call.  The contracts state only what every implementation owes:
/// sealing adds exactly `spec_expansion()` bytes (the authentication tag) and
/// a mask covers [`MASK_SIZE`] bytes.  Nothing is assumed about the ciphertext
/// or mask bytes themselves.
pub trait CryptoDx {
    /// How many bytes sealing adds to a plaintext.  Implementations verified
    /// with this crate may give it a concrete value; for any other
    /// implementation it stays an unspecified function of the provider.
    open spec fn spec_expansion(&self) -> nat {
        arbitrary()
    }

    fn expansion(&self) -> (r: usize)
        ensures
            r == self.spec_expansion(),
    ;

    /// Seal `plain` with `pn` as the nonce input and `aad` as associated data,
    /// returning ciphertext plus tag.
    fn encrypt(&mut self, pn: u64, aad: &[u8], plain: &[u8]) -> (r: Result<Vec<u8>, Error>)
        ensures
            final(self).spec_expansion() == old(self).spec_expansion(),
            (r matches Ok(ct) ==> ct@.len() == plain@.len() + old(self).spec_expansion()),
    ;

    /// Derive a header-protection mask from a [`SAMPLE_SIZE`]-byte ciphertext
    /// sample.
    fn compute_mask(&self, sample: &[u8]) -> (r: Result<Vec<u8>, Error>)
        requires
            sample@.len() == SAMPLE_SIZE,
        ensures
            (r matches Ok(m) ==> m@.len() == MASK_SIZE),
    ;
}

} // verus!
