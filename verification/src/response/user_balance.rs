use vstd::prelude::*;

verus! {

/// The account's balance as the service reports it.
#[derive(Debug)]
pub struct UserBalance {
    /// Whether the balance is sufficient for API calls.
    pub is_available: bool,
    pub balance_infos: Vec<BalacneInfo>,
}

/// The balance in one currency; amounts are decimal text.
#[derive(Debug)]
pub struct BalacneInfo {
    /// The currency of the balance.
    pub currency: Currency,
    /// The total available balance, granted and topped-up together.
    pub total_balance: String,
    /// The granted balance that has not expired.
    pub granted_balance: String,
    /// The topped-up balance.
    pub topped_up_balance: String,
}

#[derive(Debug, Clone, Copy, PartialEq, Eq, Structural)]
pub enum Currency {
    Cny,
    Usd,
}

} // verus!
