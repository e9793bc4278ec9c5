//! Assets: immutable account configuration, the valued runtime wrapper,
//! and the per-period withdrawal step.

use vstd::prelude::*;

use crate::fixed::{
    calculate_compound, calculate_principal, clamp64, clamp_to_i64, compound_spec,
    lemma_compound_nonneg, lemma_principal_nonneg, max_int, min_int, principal_spec, tdiv, tdiv128,
    SCALE,
};
use crate::market::MarketConditions;
use crate::user::User;

verus! {

/// The account category.  Inert metadata today; a closed enum so that
/// category-specific behaviour can be added with exhaustiveness checks.
#[derive(Clone, Copy, Debug)]
pub enum AccountType {
    FourOone,
    Ira,
    Bonds,
    Stocks,
    Cash,
    Other,
    Income,
}

/// Immutable account configuration.  Rates and ages are fixed-point
/// micro-units; the accessible-age window is inclusive on both ends.
/// The tax rate is carried but not applied by the current logic.
#[derive(Debug)]
pub struct Asset {
    pub name: String,
    pub asset_type: AccountType,
    pub real_return: i64,
    pub start_age: i64,
    pub end_age: i64,
    pub tax_rate: i64,
}

/// An asset is accessible at `age` iff `age` lies in
/// `[start_age, end_age]`, both ends included.
pub open spec fn accessible_spec(a: Asset, age: int) -> bool {
    a.start_age <= age && age <= a.end_age
}

/// The per-period effective rate of an asset: its yearly real return
/// plus yearly inflation, divided by the periods in a year.
pub open spec fn period_rate_spec(a: Asset, m: MarketConditions, piy: int) -> int
    recommends
        piy >= 1,
{
    clamp64(tdiv(a.real_return + m.inflation, piy))
}

impl Asset {
    pub fn new(
        name: String,
        asset_type: AccountType,
        real_return: i64,
        start_age: i64,
        end_age: i64,
        tax_rate: i64,
    ) -> (r: Asset)
        ensures
            r == (Asset { name, asset_type, real_return, start_age, end_age, tax_rate }),
    {
        Asset { name, asset_type, real_return, start_age, end_age, tax_rate }
    }

    pub fn name(&self) -> (r: &str)
        ensures
            r@ == self.name@,
    {
        self.name.as_str()
    }

    pub fn start_age(&self) -> (r: i64)
        ensures
            r == self.start_age,
    {
        self.start_age
    }

    pub fn real_return_yearly(&self) -> (r: i64)
        ensures
            r == self.real_return,
    {
        self.real_return
    }

    pub fn end_age(&self) -> (r: i64)
        ensures
            r == self.end_age,
    {
        self.end_age
    }

    /// True exactly when `age` lies inside the accessible window,
    /// inclusive on both ends.
    pub fn is_accessable(&self, age: i64) -> (r: bool)
        ensures
            r == accessible_spec(*self, age as int),
            r <==> (self.start_age <= age && age <= self.end_age),
    {
        self.start_age <= age && age <= self.end_age
    }

    /// An equal copy of this configuration.
    pub fn duplicate(&self) -> (r: Asset)
        ensures
            r == *self,
    {
        Asset {
            name: self.name.clone(),
            asset_type: self.asset_type,
            real_return: self.real_return,
            start_age: self.start_age,
            end_age: self.end_age,
            tax_rate: self.tax_rate,
        }
    }
}

/// An asset paired with its current balance.  The balance is never
/// negative: constructors and `set_value` require a non-negative value
/// and `process_asset` never produces one.
#[derive(Debug)]
pub struct AssetWithValue {
    pub config: Asset,
    pub value: i64,
}

/// The withdrawal priority order, strictly below:
/// by start age, then yearly real return, then current balance.
pub open spec fn awv_lt(a: AssetWithValue, b: AssetWithValue) -> bool {
    ||| a.config.start_age < b.config.start_age
    ||| (a.config.start_age == b.config.start_age && a.config.real_return < b.config.real_return)
    ||| (a.config.start_age == b.config.start_age && a.config.real_return == b.config.real_return
        && a.value < b.value)
}

/// One withdrawal step.  With a positive balance, an accessible window
/// and a positive need: set aside the present value of the need, clamp
/// it to the balance, and reduce the need by what that frozen principal
/// is worth once it has compounded to the withdrawal date.  Otherwise
/// the asset is untouched.
pub open spec fn process_asset_spec(
    awv: AssetWithValue,
    m: MarketConditions,
    piy: int,
    age: int,
    p: nat,
    need: int,
) -> (int, int, int) {
    let rate = period_rate_spec(awv.config, m, piy);
    if awv.value > 0 && accessible_spec(awv.config, age) && need > 0 {
        let principal = principal_spec(need, rate, p);
        let updated = max_int(0, awv.value - principal);
        let frozen = min_int(awv.value as int, principal);
        let withdrawal = compound_spec(frozen, rate, p);
        let still = need - min_int(need, withdrawal);
        (updated, frozen, still)
    } else {
        (awv.value as int, 0, need)
    }
}

fn period_rate(a: &Asset, m: &MarketConditions, piy: usize) -> (r: i64)
    requires
        piy >= 1,
    ensures
        r as int == period_rate_spec(*a, *m, piy as int),
{
    let s: i128 = a.real_return as i128 + m.inflation as i128;
    let q: i128 = tdiv128(s, piy as i128);
    clamp_to_i64(q)
}

impl AssetWithValue {
    pub fn new(config: Asset, value: i64) -> (r: AssetWithValue)
        requires
            value >= 0,
        ensures
            r == (AssetWithValue { config, value }),
    {
        AssetWithValue { config, value }
    }

    pub fn value(&self) -> (r: i64)
        ensures
            r == self.value,
    {
        self.value
    }

    /// Replaces the balance.  The caller never passes a negative value.
    pub fn set_value(&mut self, new_value: i64) -> (r: i64)
        requires
            new_value >= 0,
        ensures
            r == new_value,
            *final(self) == (AssetWithValue { config: old(self).config, value: new_value }),
    {
        self.value = new_value;
        self.value
    }

    pub fn config(&self) -> (r: &Asset)
        ensures
            *r == self.config,
    {
        &self.config
    }

    /// An equal copy of this valued asset.
    pub fn duplicate(&self) -> (r: AssetWithValue)
        ensures
            r == *self,
    {
        AssetWithValue { config: self.config.duplicate(), value: self.value }
    }

    /// One withdrawal step for one asset in one period; see
    /// `process_asset_spec`.  Returns the new balance, the principal
    /// frozen out of this asset, and the revenue still needed.
    pub fn process_asset(
        &self,
        current_user: &User,
        market: &MarketConditions,
        age_in_retirement: i64,
        period_in_retirement: usize,
        revenue_needed: i64,
    ) -> (r: (i64, i64, i64))
        requires
            current_user.wf(),
            self.value >= 0,
            period_rate_spec(self.config, *market, current_user.periods_in_year as int) > -SCALE,
        ensures
            (r.0 as int, r.1 as int, r.2 as int) == process_asset_spec(
                *self,
                *market,
                current_user.periods_in_year as int,
                age_in_retirement as int,
                period_in_retirement as nat,
                revenue_needed as int,
            ),
            r.0 >= 0,
            0 <= r.1 <= self.value,
            r.2 <= revenue_needed,
            revenue_needed > 0 ==> r.2 >= 0,
            !(self.value > 0 && accessible_spec(self.config, age_in_retirement as int)
                && revenue_needed > 0) ==> (r.0 == self.value && r.1 == 0 && r.2
                == revenue_needed),
    {
        let rate = period_rate(&self.config, market, current_user.periods_in_year());
        if self.value > 0 && self.config.is_accessable(age_in_retirement) && revenue_needed > 0 {
            let principal = calculate_principal(revenue_needed, rate, period_in_retirement);
            proof {
                lemma_principal_nonneg(
                    revenue_needed as int,
                    rate as int,
                    period_in_retirement as nat,
                );
            }
            let updated: i64 = if principal >= self.value {
                0
            } else {
                self.value - principal
            };
            let frozen: i64 = if principal >= self.value {
                self.value
            } else {
                principal
            };
            let withdrawal = calculate_compound(frozen, rate, period_in_retirement);
            proof {
                lemma_compound_nonneg(frozen as int, rate as int, period_in_retirement as nat);
            }
            let reduce: i64 = if withdrawal < revenue_needed {
                withdrawal
            } else {
                revenue_needed
            };
            let still = revenue_needed - reduce;
            (updated, frozen, still)
        } else {
            (self.value, 0, revenue_needed)
        }
    }
}

/// Comparator of the withdrawal priority: true when `a` stands at or
/// above `b` in the order (not strictly below).
pub fn awv_ge(a: &AssetWithValue, b: &AssetWithValue) -> (r: bool)
    ensures
        r == !awv_lt(*a, *b),
{
    if a.config.start_age != b.config.start_age {
        a.config.start_age > b.config.start_age
    } else if a.config.real_return != b.config.real_return {
        a.config.real_return > b.config.real_return
    } else {
        a.value >= b.value
    }
}

} // verus!
