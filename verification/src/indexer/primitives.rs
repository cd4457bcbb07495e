use vstd::prelude::*;

verus! {

/// A 20-byte account or contract address, as its raw bytes.
#[derive(Debug, Clone, Copy, Hash)]
pub struct Address(pub [u8; 20]);

/// A 32-byte hash (block or transaction hash), as its raw bytes.
#[derive(Debug, Clone, Copy, Hash)]
pub struct B256(pub [u8; 32]);

/// An unsigned 256-bit integer, as four 64-bit limbs, least significant first.
#[derive(Debug, Clone, Copy, Hash)]
pub struct U256(pub [u64; 4]);

/// The number that little-endian limbs `l` stand for.
pub open spec fn limbs_value(l: Seq<u64>) -> nat {
    (l[0] + l[1] * 0x1_0000_0000_0000_0000 + l[2] * 0x1_0000_0000_0000_0000_0000_0000_0000_0000
        + l[3] * 0x1_0000_0000_0000_0000_0000_0000_0000_0000_0000_0000_0000_0000) as nat
}

impl U256 {
    /// The number this value stands for.
    pub open spec fn value(self) -> nat {
        limbs_value(self.0@)
    }

    /// The value `v`.
    pub fn from_u64(v: u64) -> (r: U256)
        ensures
            r.value() == v,
    {
        U256([v, 0, 0, 0])
    }

    /// The value with the given little-endian limbs.
    pub fn from_limbs(limbs: [u64; 4]) -> (r: U256)
        ensures
            r.0@ == limbs@,
    {
        U256(limbs)
    }

    /// Whether two values are the same number.
    pub fn same_as(&self, other: &U256) -> (r: bool)
        ensures
            r == (self.0@ == other.0@),
    {
        let r = self.0[0] == other.0[0] && self.0[1] == other.0[1] && self.0[2] == other.0[2]
            && self.0[3] == other.0[3];
        proof {
            if r {
                assert(self.0@ =~= other.0@);
            }
        }
        r
    }
}

impl Address {
    /// The address whose every byte is `b`.
    pub fn repeat_byte(b: u8) -> (r: Address)
        ensures
            forall|i: int| 0 <= i < 20 ==> #[trigger] r.0@[i] == b,
    {
        Address([b; 20])
    }

    /// Whether two addresses have the same bytes.
    pub fn same_as(&self, other: &Address) -> (r: bool)
        ensures
            r == (self.0@ == other.0@),
    {
        let mut i: usize = 0;
        while i < 20
            invariant
                0 <= i <= 20,
                forall|k: int| 0 <= k < i ==> self.0@[k] == other.0@[k],
            decreases 20 - i,
        {
            if self.0[i] != other.0[i] {
                return false;
            }
            i = i + 1;
        }
        assert(self.0@ =~= other.0@);
        true
    }
}

impl B256 {
    /// The hash whose every byte is `b`.
    pub fn repeat_byte(b: u8) -> (r: B256)
        ensures
            forall|i: int| 0 <= i < 32 ==> #[trigger] r.0@[i] == b,
    {
        B256([b; 32])
    }

    /// Whether two hashes have the same bytes.
    pub fn same_as(&self, other: &B256) -> (r: bool)
        ensures
            r == (self.0@ == other.0@),
    {
        let mut i: usize = 0;
        while i < 32
            invariant
                0 <= i <= 32,
                forall|k: int| 0 <= k < i ==> self.0@[k] == other.0@[k],
            decreases 32 - i,
        {
            if self.0[i] != other.0[i] {
                return false;
            }
            i = i + 1;
        }
        assert(self.0@ =~= other.0@);
        true
    }
}

impl PartialEq for Address {
    fn eq(&self, other: &Self) -> (r: bool) {
        self.same_as(other)
    }
}

impl vstd::std_specs::cmp::PartialEqSpecImpl for Address {
    open spec fn obeys_eq_spec() -> bool {
        true
    }

    open spec fn eq_spec(&self, other: &Self) -> bool {
        self.0@ == other.0@
    }
}

impl Eq for Address {}

impl PartialEq for B256 {
    fn eq(&self, other: &Self) -> (r: bool) {
        self.same_as(other)
    }
}

impl vstd::std_specs::cmp::PartialEqSpecImpl for B256 {
    open spec fn obeys_eq_spec() -> bool {
        true
    }

    open spec fn eq_spec(&self, other: &Self) -> bool {
        self.0@ == other.0@
    }
}

impl Eq for B256 {}

impl PartialEq for U256 {
    fn eq(&self, other: &Self) -> (r: bool) {
        self.same_as(other)
    }
}

impl vstd::std_specs::cmp::PartialEqSpecImpl for U256 {
    open spec fn obeys_eq_spec() -> bool {
        true
    }

    open spec fn eq_spec(&self, other: &Self) -> bool {
        self.0@ == other.0@
    }
}

impl Eq for U256 {}

} // verus!
