use vstd::prelude::*;

verus! {

/// A currency; assets are grouped by it in balances.
#[derive(PartialEq, Eq, Debug)]
pub struct Currency {
    pub symbol: String,
    pub name: String,
    pub base_unit_symbol: String,
    pub decimals: u64,
}

impl Clone for Currency {
    fn clone(&self) -> (r: Self)
        ensures
            r == *self,
    {
        Currency {
            symbol: self.symbol.clone(),
            name: self.name.clone(),
            base_unit_symbol: self.base_unit_symbol.clone(),
            decimals: self.decimals,
        }
    }
}

/// Two currencies form one balance group when every field agrees.
pub open spec fn same_currency(a: Currency, b: Currency) -> bool {
    &&& a.symbol@ == b.symbol@
    &&& a.name@ == b.name@
    &&& a.base_unit_symbol@ == b.base_unit_symbol@
    &&& a.decimals == b.decimals
}

impl Currency {
    pub fn new(symbol: String, name: String, base_unit_symbol: String, decimals: u64) -> (r: Self)
        ensures
            r == (Currency { symbol, name, base_unit_symbol, decimals }),
    {
        Currency { symbol, name, base_unit_symbol, decimals }
    }

    /// Bitcoin, counted in satoshis.
    pub fn bitcoin() -> (r: Self)
        ensures
            r.is_bitcoin(),
    {
        Currency {
            symbol: String::from_str("Btc"),
            name: String::from_str("Bitcoin"),
            base_unit_symbol: String::from_str("sat"),
            decimals: 8,
        }
    }

    pub open spec fn is_bitcoin(self) -> bool {
        &&& self.symbol@ == "Btc"@
        &&& self.name@ == "Bitcoin"@
        &&& self.base_unit_symbol@ == "sat"@
        &&& self.decimals == 8
    }

    /// Whether the two currencies fall into one balance group.
    pub fn same_as(&self, other: &Currency) -> (r: bool)
        ensures
            r == same_currency(*self, *other),
    {
        self.symbol == other.symbol && self.name == other.name && self.base_unit_symbol
            == other.base_unit_symbol && self.decimals == other.decimals
    }
}

/// A value in the base unit of its currency.
#[derive(PartialEq, Eq, Debug)]
pub struct Amount {
    pub value: u64,
    pub currency: Currency,
}

impl Clone for Amount {
    fn clone(&self) -> (r: Self)
        ensures
            r == *self,
    {
        Amount { value: self.value, currency: self.currency.clone() }
    }
}

impl Amount {
    pub fn new(value: u64, currency: Currency) -> (r: Self)
        ensures
            r == (Amount { value, currency }),
    {
        Amount { value, currency }
    }

    pub fn zero(currency: Currency) -> (r: Self)
        ensures
            r == (Amount { value: 0, currency }),
    {
        Amount { value: 0, currency }
    }

    /// The value multiplied by the currency's decimals.
    pub fn base_value(&self) -> (r: u64)
        requires
            self.value * self.currency.decimals <= u64::MAX,
        ensures
            r == self.value * self.currency.decimals,
    {
        self.value * self.currency.decimals
    }
}

} // verus!
