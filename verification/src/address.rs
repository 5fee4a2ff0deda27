use vstd::prelude::*;
use vstd::std_specs::cmp::PartialEqSpecImpl;

verus! {

/// The identity of a caller: twenty opaque bytes that the host supplies.
///
/// The ledger never derives or inspects an identity; it only asks whether two
/// of them are the same.
#[derive(Clone, Copy, Debug)]
pub struct Address {
    pub bytes: [u8; 20],
}

impl View for Address {
    type V = Seq<u8>;

    open spec fn view(&self) -> Seq<u8> {
        self.bytes@
    }
}

impl PartialEq for Address {
    fn eq(&self, other: &Self) -> (r: bool) {
        let mut i: usize = 0;
        while i < 20
            invariant
                i <= 20,
                forall|j: int| 0 <= j < i ==> self.bytes[j] == other.bytes[j],
            decreases 20 - i,
        {
            if self.bytes[i] != other.bytes[i] {
                return false;
            }
            i += 1;
        }
        assert(self.bytes@ =~= other.bytes@);
        true
    }
}

impl PartialEqSpecImpl for Address {
    open spec fn obeys_eq_spec() -> bool {
        true
    }

    /// Two identities are `==` exactly when all twenty bytes agree.
    open spec fn eq_spec(&self, other: &Self) -> bool {
        self@ == other@
    }
}

impl Eq for Address {

}

impl Address {
    /// The bytes of the identity that holds administration before anyone has
    /// initialized the ledger: twenty zero bytes.
    pub open spec fn spec_zero() -> Seq<u8> {
        Seq::new(20, |i: int| 0u8)
    }

    /// The all-zero identity.
    pub fn zero() -> (r: Self)
        ensures
            r@ == Self::spec_zero(),
    {
        let r = Address { bytes: [0u8; 20] };
        assert(r@ =~= Self::spec_zero());
        r
    }
}

} // verus!
