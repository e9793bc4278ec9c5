//! Income streams: recurring payments such as a pension, with an
//! accessible-age window that, unlike an asset's, excludes its end age.

use vstd::prelude::*;

use crate::asset::AccountType;
use crate::fixed::{calculate_compound, compound_spec, tdiv, tdiv64_by};
use crate::user::User;

verus! {

/// Immutable income-stream configuration.  `real_return` is the
/// payment-growth rate, not an asset growth rate.
#[derive(Debug)]
pub struct Income {
    pub name: String,
    pub asset_type: AccountType,
    pub real_return: i64,
    pub start_age: i64,
    pub end_age: i64,
    pub tax_rate: i64,
}

impl Income {
    pub fn new(
        name: String,
        asset_type: AccountType,
        real_return: i64,
        start_age: i64,
        end_age: i64,
        tax_rate: i64,
    ) -> (r: Income)
        ensures
            r == (Income { name, asset_type, real_return, start_age, end_age, tax_rate }),
    {
        Income { name, asset_type, real_return, start_age, end_age, tax_rate }
    }

    pub fn name(&self) -> (r: &str)
        ensures
            r@ == self.name@,
    {
        self.name.as_str()
    }

    pub fn start_age(&self) -> (r: i64)
        ensures
            r == self.start_age,
    {
        self.start_age
    }

    pub fn end_age(&self) -> (r: i64)
        ensures
            r == self.end_age,
    {
        self.end_age
    }

    pub fn real_return(&self) -> (r: i64)
        ensures
            r == self.real_return,
    {
        self.real_return
    }

    /// An equal copy of this configuration.
    pub fn duplicate(&self) -> (r: Income)
        ensures
            r == *self,
    {
        Income {
            name: self.name.clone(),
            asset_type: self.asset_type,
            real_return: self.real_return,
            start_age: self.start_age,
            end_age: self.end_age,
            tax_rate: self.tax_rate,
        }
    }
}

/// An income stream paired with its payment base, read-only during a
/// run.
#[derive(Debug)]
pub struct IncomeWithValue {
    pub config: Income,
    pub value: i64,
}

/// The payment one stream generates in one period: with a positive base
/// and an age in `[start_age, end_age)` (end excluded), the per-period
/// base grown at the per-period rate over the period index; otherwise
/// zero.
pub open spec fn income_one_spec(iwv: IncomeWithValue, piy: int, age: int, p: nat) -> int
    recommends
        piy >= 1,
{
    if iwv.value > 0 && iwv.config.start_age <= age && iwv.config.end_age > age {
        compound_spec(tdiv(iwv.value as int, piy), tdiv(iwv.config.real_return as int, piy), p)
    } else {
        0
    }
}

/// Law: an income stream pays nothing outside its window — a nonzero
/// payment means the age lies in `[start_age, end_age)`.
pub proof fn lemma_income_only_in_window(iwv: IncomeWithValue, piy: int, age: int, p: nat)
    ensures
        income_one_spec(iwv, piy, age, p) != 0 ==> (iwv.config.start_age <= age
            && age < iwv.config.end_age),
{
}

impl IncomeWithValue {
    pub fn new(config: Income, value: i64) -> (r: IncomeWithValue)
        ensures
            r == (IncomeWithValue { config, value }),
    {
        IncomeWithValue { config, value }
    }

    pub fn value(&self) -> (r: i64)
        ensures
            r == self.value,
    {
        self.value
    }

    pub fn config(&self) -> (r: &Income)
        ensures
            *r == self.config,
    {
        &self.config
    }

    /// An equal copy of this valued income stream.
    pub fn duplicate(&self) -> (r: IncomeWithValue)
        ensures
            r == *self,
    {
        IncomeWithValue { config: self.config.duplicate(), value: self.value }
    }

    /// The payment this stream generates in one period; see
    /// `income_one_spec`.
    pub fn compute_income(
        &self,
        current_user: &User,
        age_in_retirement: i64,
        period_in_retirement: usize,
    ) -> (r: i64)
        requires
            current_user.wf(),
        ensures
            r as int == income_one_spec(
                *self,
                current_user.periods_in_year as int,
                age_in_retirement as int,
                period_in_retirement as nat,
            ),
            r != 0 ==> (self.config.start_age <= age_in_retirement && age_in_retirement
                < self.config.end_age),
    {
        if self.value > 0 && self.config.start_age <= age_in_retirement
            && self.config.end_age > age_in_retirement {
            let piy = current_user.periods_in_year();
            let rate = tdiv64_by(self.config.real_return, piy as u64);
            let base = tdiv64_by(self.value, piy as u64);
            calculate_compound(base, rate, period_in_retirement)
        } else {
            0
        }
    }
}

} // verus!
