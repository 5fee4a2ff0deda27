use vstd::prelude::*;
use vstd::std_specs::cmp::PartialEqSpecImpl;

verus! {

/// An unsigned 256-bit integer: the width of a choice label, a timestamp and
/// a count on the ledger's public surface.
///
/// The number is held as four 64-bit limbs, least significant first. Every
/// combination of limbs is a valid number, so the limbs are public.
#[derive(Clone, Copy, Debug)]
pub struct Uint256 {
    pub limbs: [u64; 4],
}

impl View for Uint256 {
    type V = nat;

    /// The number that the limbs spell in base 2^64.
    open spec fn view(&self) -> nat {
        (self.limbs[0] as nat) + (self.limbs[1] as nat) * 0x1_0000_0000_0000_0000
            + (self.limbs[2] as nat) * 0x1_0000_0000_0000_0000_0000_0000_0000_0000
            + (self.limbs[3] as nat)
            * 0x1_0000_0000_0000_0000_0000_0000_0000_0000_0000_0000_0000_0000
    }
}

impl PartialEq for Uint256 {
    fn eq(&self, other: &Self) -> (r: bool) {
        self.limbs[0] == other.limbs[0] && self.limbs[1] == other.limbs[1] && self.limbs[2]
            == other.limbs[2] && self.limbs[3] == other.limbs[3]
    }
}

impl PartialEqSpecImpl for Uint256 {
    open spec fn obeys_eq_spec() -> bool {
        true
    }

    /// Two values are `==` exactly when they are the same number.
    open spec fn eq_spec(&self, other: &Self) -> bool {
        self@ == other@
    }
}

impl Eq for Uint256 {

}

impl Uint256 {
    /// The 256-bit value of a 64-bit number.
    pub fn from_u64(n: u64) -> (r: Self)
        ensures
            r@ == n,
    {
        Uint256 { limbs: [n, 0, 0, 0] }
    }

    /// The value as a machine index, or `None` when it does not fit in one.
    pub fn to_usize(&self) -> (r: Option<usize>)
        ensures
            match r {
                Some(n) => n == self@,
                None => self@ > usize::MAX,
            },
    {
        if self.limbs[1] != 0 || self.limbs[2] != 0 || self.limbs[3] != 0 {
            None
        } else if self.limbs[0] > usize::MAX as u64 {
            None
        } else {
            Some(self.limbs[0] as usize)
        }
    }

    /// Distinct limbs spell distinct numbers: a value is determined by its view.
    pub proof fn view_is_injective(a: Uint256, b: Uint256)
        requires
            a@ == b@,
        ensures
            a == b,
    {
        // The limbs agree from the most significant down, so the arrays do.
        assert(a.limbs[3] == b.limbs[3]);
        assert(a.limbs@ =~= b.limbs@);
        assert(a.limbs == b.limbs);
    }
}

} // verus!
