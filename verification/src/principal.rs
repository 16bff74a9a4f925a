//! Principals: the identities of callers and canisters.
use vstd::prelude::*;

use crate::outside::{principal_from_text, principal_text, principal_to_text, text_principal};
use crate::sync::journal::copied_bytes;
use crate::text::same_bytes;

verus! {

/// The most bytes that a principal has.
pub const MAX_PRINCIPAL_BYTES: usize = 29;

/// An identity, at most twenty-nine bytes.
#[derive(Debug)]
pub struct Principal {
    bytes: Vec<u8>,
}

impl Clone for Principal {
    fn clone(&self) -> (r: Principal)
        ensures
            r@ == self@,
    {
        self.duplicate()
    }
}

impl View for Principal {
    type V = Seq<u8>;

    closed spec fn view(&self) -> Seq<u8> {
        self.bytes@
    }
}

/// The identity of a caller who does not say who it is.
pub open spec fn anonymous_bytes() -> Seq<u8> {
    seq![4u8]
}

impl Principal {
    #[verifier::type_invariant]
    spec fn short(self) -> bool {
        self.bytes@.len() <= MAX_PRINCIPAL_BYTES
    }

    /// The identity of a caller who does not say who it is.
    pub fn anonymous() -> (r: Principal)
        ensures
            r@ == anonymous_bytes(),
    {
        let mut bytes: Vec<u8> = Vec::new();
        bytes.push(4);
        assert(bytes@ =~= anonymous_bytes());
        Principal { bytes }
    }

    /// The identity with the given bytes.
    pub fn from_slice(bytes: &[u8]) -> (r: Principal)
        requires
            bytes@.len() <= MAX_PRINCIPAL_BYTES,
        ensures
            r@ == bytes@,
    {
        Principal { bytes: copied_bytes(bytes) }
    }

    /// The bytes of the identity.
    pub fn as_slice(&self) -> (r: &[u8])
        ensures
            r@ == self@,
    {
        self.bytes.as_slice()
    }

    /// A copy of the identity.
    pub fn duplicate(&self) -> (r: Principal)
        ensures
            r@ == self@,
    {
        proof {
            use_type_invariant(self);
        }
        Principal { bytes: copied_bytes(self.bytes.as_slice()) }
    }

    /// The identity in its textual form.
    pub fn to_text(&self) -> (r: String)
        ensures
            r@ == principal_text(self@),
            text_principal(r@) == Ok::<Seq<u8>, Seq<char>>(self@),
    {
        proof {
            use_type_invariant(self);
        }
        principal_to_text(self.bytes.as_slice())
    }

    /// The identity that a text stands for, or what is wrong with the text.
    pub fn from_text(text: &str) -> (r: Result<Principal, String>)
        ensures
            text_principal(text@) == match r {
                Ok(principal) => Ok::<Seq<u8>, Seq<char>>(principal@),
                Err(message) => Err::<Seq<u8>, Seq<char>>(message@),
            },
    {
        match principal_from_text(text) {
            Ok(bytes) => Ok(Principal { bytes }),
            Err(message) => Err(message),
        }
    }

    /// Whether this is the anonymous identity.
    pub fn is_anonymous(&self) -> (r: bool)
        ensures
            r == (self@ == anonymous_bytes()),
    {
        let r = self.bytes.len() == 1 && self.bytes[0] == 4;
        proof {
            if r {
                assert(self@ =~= anonymous_bytes());
            }
        }
        r
    }
}

impl PartialEq for Principal {
    fn eq(&self, other: &Principal) -> (r: bool) {
        same_bytes(self.bytes.as_slice(), other.bytes.as_slice())
    }
}

impl vstd::std_specs::cmp::PartialEqSpecImpl for Principal {
    open spec fn obeys_eq_spec() -> bool {
        true
    }

    open spec fn eq_spec(&self, other: &Principal) -> bool {
        self@ == other@
    }
}

impl Eq for Principal {

}

/// The anonymous identity is the single byte 4.
pub proof fn law_the_anonymous_identity_is_one_byte()
    ensures
        anonymous_bytes() == seq![4u8],
        MAX_PRINCIPAL_BYTES == 29,
{
}

} // verus!
