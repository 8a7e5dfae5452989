//! Caller identities: opaque byte strings with one reserved anonymous
//! sentinel.

use vstd::prelude::*;

verus! {

/// The byte encoding of the reserved anonymous identity.
pub open spec fn anonymous_bytes() -> Seq<u8> {
    seq![4u8]
}

/// An opaque caller identity.  The interface layer converts the platform's
/// own identity value to and from the raw bytes held here.
pub struct Principal {
    bytes: Vec<u8>,
}

impl View for Principal {
    type V = Seq<u8>;

    closed spec fn view(&self) -> Seq<u8> {
        self.bytes@
    }
}

impl Principal {
    /// The reserved anonymous identity.
    pub fn anonymous() -> (r: Principal)
        ensures
            r@ == anonymous_bytes(),
    {
        let mut bytes: Vec<u8> = Vec::new();
        bytes.push(4u8);
        assert(bytes@ =~= anonymous_bytes());
        Principal { bytes }
    }

    /// An identity from its raw bytes.
    pub fn from_bytes(bytes: Vec<u8>) -> (r: Principal)
        ensures
            r@ == bytes@,
    {
        Principal { bytes }
    }

    /// The raw bytes of this identity.
    pub fn to_bytes(&self) -> (r: Vec<u8>)
        ensures
            r@ == self@,
    {
        let mut out: Vec<u8> = Vec::new();
        let n = self.bytes.len();
        let mut i: usize = 0;
        while i < n
            invariant
                n == self.bytes.len(),
                0 <= i <= n,
                out@ =~= self.bytes@.subrange(0, i as int),
            decreases n - i,
        {
            out.push(self.bytes[i]);
            i = i + 1;
        }
        assert(out@ =~= self@);
        out
    }

    /// Whether this is the reserved anonymous identity.
    pub fn is_anonymous(&self) -> (r: bool)
        ensures
            r == (self@ == anonymous_bytes()),
    {
        if self.bytes.len() == 1 && self.bytes[0] == 4u8 {
            assert(self@ =~= anonymous_bytes());
            true
        } else {
            assert(self@ != anonymous_bytes());
            false
        }
    }

    /// A copy of this identity.
    pub fn duplicate(&self) -> (r: Principal)
        ensures
            r@ == self@,
    {
        Principal { bytes: self.to_bytes() }
    }
}

/// Checks that the effective requester — the named owner, or the caller
/// when none is named — is not the reserved anonymous identity.
pub fn validate_user_permission(owner: &Option<Principal>, caller: &Principal) -> (r: Result<
    (),
    String,
>)
    ensures
        r is Ok <==> (match owner {
            Some(o) => o@,
            None => caller@,
        }) != anonymous_bytes(),
        r is Err ==> r->Err_0@ == crate::validation::rejection_text(
            crate::validation::Rejection::AnonymousRequester,
        ),
{
    let anon = match owner {
        Some(p) => p.is_anonymous(),
        None => caller.is_anonymous(),
    };
    if anon {
        Err(crate::validation::rejection_message(crate::validation::Rejection::AnonymousRequester))
    } else {
        Ok(())
    }
}

} // verus!
