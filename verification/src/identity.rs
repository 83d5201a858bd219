//! The identity of a caller: an opaque run of at most 29 bytes.

use vstd::prelude::*;
use vstd::std_specs::cmp::PartialEqSpecImpl;

verus! {

/// The most bytes an identity can hold.
pub const MAX_IDENTITY_BYTES: usize = 29;

/// The bytes of the identity that stands for "nobody".
pub open spec fn anonymous_bytes() -> Seq<u8> {
    seq![4u8]
}

/// The textual form of the principal that holds `bytes`: a checksum and the
/// bytes in base 32, in groups of five separated by dashes.
pub uninterp spec fn principal_text(bytes: Seq<u8>) -> Seq<char>;

/// `candid::Principal::to_text`, on the principal that
/// `candid::Principal::from_slice` makes of `bytes`. The text depends on the
/// bytes alone; `from_slice` takes at most 29 of them.
#[verifier::external_body]
fn principal_to_text(bytes: &[u8]) -> (text: String)
    requires
        bytes@.len() <= MAX_IDENTITY_BYTES,
    ensures
        text@ == principal_text(bytes@),
{
    candid::Principal::from_slice(bytes).to_text()
}

/// Whether two runs of bytes are the same.
pub fn bytes_equal(a: &[u8], b: &[u8]) -> (r: bool)
    ensures
        r == (a@ == b@),
{
    if a.len() != b.len() {
        return false;
    }
    let mut i: usize = 0;
    while i < a.len()
        invariant
            a.len() == b.len(),
            i <= a.len(),
            forall|j: int| 0 <= j < i ==> a@[j] == b@[j],
        decreases a.len() - i,
    {
        if a[i] != b[i] {
            return false;
        }
        i += 1;
    }
    assert(a@ =~= b@);
    true
}

/// A copy of a run of bytes.
pub fn bytes_to_vec(a: &[u8]) -> (v: Vec<u8>)
    ensures
        v@ == a@,
{
    let mut v: Vec<u8> = Vec::new();
    let mut i: usize = 0;
    while i < a.len()
        invariant
            i <= a.len(),
            v@ == a@.take(i as int),
        decreases a.len() - i,
    {
        v.push(a[i]);
        assert(v@ =~= a@.take(i + 1));
        i += 1;
    }
    assert(a@.take(a.len() as int) =~= a@);
    v
}

/// Who makes a call. Two identities are the same when their bytes are.
#[derive(Debug)]
pub struct Identity {
    bytes: Vec<u8>,
}

impl View for Identity {
    type V = Seq<u8>;

    closed spec fn view(&self) -> Seq<u8> {
        self.bytes@
    }
}

impl Identity {
    #[verifier::type_invariant]
    spec fn fits(self) -> bool {
        self.bytes@.len() <= MAX_IDENTITY_BYTES
    }

    /// The identity that holds `bytes`, if they are few enough.
    pub fn from_slice(bytes: &[u8]) -> (r: Option<Identity>)
        ensures
            r is Some <==> bytes@.len() <= MAX_IDENTITY_BYTES,
            r matches Some(id) ==> id@ == bytes@,
    {
        if bytes.len() <= MAX_IDENTITY_BYTES {
            Some(Identity { bytes: bytes_to_vec(bytes) })
        } else {
            None
        }
    }

    /// The identity of a caller who did not say who they are.
    pub fn anonymous() -> (id: Identity)
        ensures
            id@ == anonymous_bytes(),
    {
        let mut bytes: Vec<u8> = Vec::new();
        bytes.push(4u8);
        assert(bytes@ =~= anonymous_bytes());
        Identity { bytes }
    }

    /// The bytes of the identity: at most 29.
    pub fn as_slice(&self) -> (s: &[u8])
        ensures
            s@ == self@,
            s@.len() <= MAX_IDENTITY_BYTES,
    {
        proof {
            use_type_invariant(self);
        }
        self.bytes.as_slice()
    }

    /// Whether this is the identity of a caller who did not say who they
    /// are.
    pub fn is_anonymous(&self) -> (r: bool)
        ensures
            r == (self@ == anonymous_bytes()),
    {
        let r = self.bytes.len() == 1 && self.bytes[0] == 4u8;
        assert(r == (self.bytes@ =~= anonymous_bytes()));
        r
    }

    /// The text by which the identity is written and listed.
    pub fn to_text(&self) -> (text: String)
        ensures
            text@ == principal_text(self@),
    {
        proof {
            use_type_invariant(self);
        }
        principal_to_text(self.bytes.as_slice())
    }
}

impl Clone for Identity {
    fn clone(&self) -> (r: Self)
        ensures
            r@ == self@,
    {
        proof {
            use_type_invariant(self);
        }
        Identity { bytes: bytes_to_vec(self.bytes.as_slice()) }
    }
}

impl PartialEq for Identity {
    fn eq(&self, other: &Self) -> (r: bool) {
        bytes_equal(self.bytes.as_slice(), other.bytes.as_slice())
    }
}

impl PartialEqSpecImpl for Identity {
    open spec fn obeys_eq_spec() -> bool {
        true
    }

    open spec fn eq_spec(&self, other: &Self) -> bool {
        self@ == other@
    }
}

impl Eq for Identity {

}

} // verus!
