//! The identity of a caller or of a service.

use crate::bytes::{bytes_equal, copy_bytes};
use crate::vecmap::Key;
use vstd::prelude::*;

verus! {

/// The largest number of bytes an identity can have.
pub const MAX_PRINCIPAL_LEN: usize = 29;

/// An identity: at most 29 opaque bytes. Two identities are the same when
/// their bytes are.
#[derive(Debug, PartialEq, Eq)]
pub struct Principal {
    bytes: Vec<u8>,
}

impl View for Principal {
    type V = Seq<u8>;

    closed spec fn view(&self) -> Seq<u8> {
        self.bytes@
    }
}

impl Principal {
    #[verifier::type_invariant]
    spec fn inv(self) -> bool {
        self.bytes@.len() <= 29
    }

    /// The identity with the bytes `bytes`, unless they are more than 29.
    pub fn try_from_slice(bytes: &[u8]) -> (r: Option<Principal>)
        ensures
            match r {
                Some(p) => bytes@.len() <= 29 && p@ == bytes@,
                None => bytes@.len() > 29,
            },
    {
        if bytes.len() > MAX_PRINCIPAL_LEN {
            None
        } else {
            Some(Principal { bytes: copy_bytes(bytes) })
        }
    }

    /// The bytes of the identity.
    pub fn as_slice(&self) -> (s: &[u8])
        ensures
            s@ == self@,
            s@.len() <= 29,
    {
        proof {
            use_type_invariant(self);
        }
        self.bytes.as_slice()
    }
}

impl Clone for Principal {
    fn clone(&self) -> (c: Self)
        ensures
            c@ == self@,
    {
        proof {
            use_type_invariant(self);
        }
        Principal { bytes: copy_bytes(self.bytes.as_slice()) }
    }
}

impl Key for Principal {
    fn same(&self, other: &Self) -> (r: bool) {
        bytes_equal(self.bytes.as_slice(), other.bytes.as_slice())
    }
}

} // verus!
