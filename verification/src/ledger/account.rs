use vstd::prelude::*;

verus! {

/// Account identifier, e.g. `"merchant:payable"`.
#[derive(Debug, Clone, Eq, Hash)]
pub struct AccountId(pub String);

/// Asset / currency code, e.g. `"USDC"`. Balancing is always per asset.
#[derive(Debug, Clone, Eq, Hash)]
pub struct Asset(pub String);

impl View for AccountId {
    type V = Seq<char>;

    open spec fn view(&self) -> Seq<char> {
        self.0@
    }
}

impl View for Asset {
    type V = Seq<char>;

    open spec fn view(&self) -> Seq<char> {
        self.0@
    }
}

impl AccountId {
    /// A copy of this identifier with the same text.
    pub fn copy(&self) -> (r: AccountId)
        ensures
            r@ == self@,
    {
        AccountId(self.0.clone())
    }
}

impl Asset {
    /// A copy of this asset code with the same text.
    pub fn copy(&self) -> (r: Asset)
        ensures
            r@ == self@,
    {
        Asset(self.0.clone())
    }
}

impl PartialEq for AccountId {
    fn eq(&self, other: &Self) -> (r: bool) {
        self.0 == other.0
    }
}

impl vstd::std_specs::cmp::PartialEqSpecImpl for AccountId {
    open spec fn obeys_eq_spec() -> bool {
        true
    }

    open spec fn eq_spec(&self, other: &Self) -> bool {
        self@ == other@
    }
}

impl PartialEq for Asset {
    fn eq(&self, other: &Self) -> (r: bool) {
        self.0 == other.0
    }
}

impl vstd::std_specs::cmp::PartialEqSpecImpl for Asset {
    open spec fn obeys_eq_spec() -> bool {
        true
    }

    open spec fn eq_spec(&self, other: &Self) -> bool {
        self@ == other@
    }
}

} // verus!
