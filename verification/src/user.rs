//! The retiree: identity, planning horizon and expense baseline.

use vstd::prelude::*;

use crate::fixed::{clamp64, clamp_to_i64, tdiv, tdiv128, SCALE};

verus! {

/// Identity and planning parameters.  Ages and money are fixed-point
/// micro-units; `periods_in_year` counts the sub-year slices of one year
/// (12 = monthly).
#[derive(Debug)]
pub struct User {
    pub name: String,
    pub birth_month: usize,
    pub birth_year: usize,
    pub max_age: i64,
    pub yearly_expenses: i64,
    pub buffer: i64,
    pub periods_in_year: usize,
    pub input_file: String,
}

/// The user's age in micro-years derived from a number of days alive:
/// `days / 365`, in fixed point.
pub open spec fn age_from_days_spec(days: int) -> int {
    clamp64(tdiv(days * SCALE, 365))
}

/// The remaining horizon in micro-years.
pub open spec fn length_of_retirement_spec(max_age: int, current_age: int) -> int {
    clamp64(max_age - current_age)
}

/// Whole years of horizon times periods per year, saturating at the
/// machine's count range.
pub open spec fn total_periods_spec(max_age: int, current_age: int, piy: int) -> int {
    let len = length_of_retirement_spec(max_age, current_age);
    if len <= 0 {
        0
    } else {
        let years = len / (SCALE as int);
        if years * piy > usize::MAX {
            usize::MAX as int
        } else {
            years * piy
        }
    }
}

impl User {
    /// A well-formed user has a calendar birth date and at least one
    /// period per year.
    pub open spec fn wf(&self) -> bool {
        &&& 1 <= self.birth_month <= 12
        &&& 1 <= self.birth_year <= 9999
        &&& self.periods_in_year >= 1
    }

    /// A new user with the default planning parameters: plan to age 100,
    /// monthly periods, no buffer.
    pub fn new(name: String, birth_month: usize, birth_year: usize) -> (r: User)
        requires
            1 <= birth_month <= 12,
            1 <= birth_year <= 9999,
        ensures
            r.wf(),
            r.name == name,
            r.birth_month == birth_month,
            r.birth_year == birth_year,
            r.max_age == 100 * SCALE,
            r.yearly_expenses == 0,
            r.buffer == SCALE,
            r.periods_in_year == 12,
            r.input_file@ == "Income_Assets.csv"@,
    {
        User {
            name,
            birth_month,
            birth_year,
            max_age: 100 * SCALE,
            yearly_expenses: 0,
            buffer: SCALE,
            periods_in_year: 12,
            input_file: new_strlit_input(),
        }
    }

    /// A user with every planning parameter given.
    pub fn new_full(
        name: String,
        birth_month: usize,
        birth_year: usize,
        max_age: i64,
        yearly_expenses: i64,
        buffer: i64,
        periods_in_year: usize,
        input_file: String,
    ) -> (r: User)
        requires
            1 <= birth_month <= 12,
            1 <= birth_year <= 9999,
            periods_in_year >= 1,
        ensures
            r.wf(),
            r == (User {
                name,
                birth_month,
                birth_year,
                max_age,
                yearly_expenses,
                buffer,
                periods_in_year,
                input_file,
            }),
    {
        User { name, birth_month, birth_year, max_age, yearly_expenses, buffer, periods_in_year, input_file }
    }

    pub fn name(&self) -> (r: &str)
        ensures
            r@ == self.name@,
    {
        self.name.as_str()
    }

    /// The user's age right now, from the wall clock.  The result depends
    /// on the day the call runs, so no value is promised; it is
    /// `age_from_days_spec` of however many days the user has lived.
    pub fn current_age(&self) -> i64
        requires
            self.wf(),
    {
        let days = days_since_birth(self.birth_year, self.birth_month);
        age_from_days(days)
    }

    pub fn max_age(&self) -> (r: i64)
        ensures
            r == self.max_age,
    {
        self.max_age
    }

    pub fn yearly_expenses(&self) -> (r: i64)
        ensures
            r == self.yearly_expenses,
    {
        self.yearly_expenses
    }

    pub fn periods_in_year(&self) -> (r: usize)
        ensures
            r == self.periods_in_year,
    {
        self.periods_in_year
    }

    pub fn buffer(&self) -> (r: i64)
        ensures
            r == self.buffer,
    {
        self.buffer
    }

    pub fn input_file(&self) -> (r: &str)
        ensures
            r@ == self.input_file@,
    {
        self.input_file.as_str()
    }

    /// Micro-years between a given current age and the planning limit.
    pub fn length_of_retirement(&self, current_age: i64) -> (r: i64)
        ensures
            r as int == length_of_retirement_spec(self.max_age as int, current_age as int),
    {
        let d: i128 = self.max_age as i128 - current_age as i128;
        clamp_to_i64(d)
    }

    /// How many periods the simulation runs for: whole years of horizon
    /// times periods per year.
    pub fn total_periods_of_retirement(&self, current_age: i64) -> (r: usize)
        requires
            self.wf(),
        ensures
            r as int == total_periods_spec(
                self.max_age as int,
                current_age as int,
                self.periods_in_year as int,
            ),
    {
        let len = self.length_of_retirement(current_age);
        if len <= 0 {
            0
        } else {
            let years: u64 = (len as u64) / (SCALE as u64);
            proof {
                assert((years as int) * (self.periods_in_year as int) <= u128::MAX)
                    by (nonlinear_arith)
                    requires
                        0 <= years <= u64::MAX,
                        0 <= self.periods_in_year <= u64::MAX,
                ;
            }
            let prod: u128 = (years as u128) * (self.periods_in_year as u128);
            if prod > usize::MAX as u128 {
                usize::MAX
            } else {
                prod as usize
            }
        }
    }
}

/// The user's age in micro-years after `days` days alive.
pub fn age_from_days(days: i64) -> (r: i64)
    ensures
        r as int == age_from_days_spec(days as int),
{
    proof {
        assert((days as int) * (SCALE as int) > i128::MIN && (days as int) * (SCALE as int)
            <= i128::MAX) by (nonlinear_arith)
            requires
                i64::MIN <= days <= i64::MAX,
        ;
    }
    let p: i128 = (days as i128) * (SCALE as i128);
    let q: i128 = tdiv128(p, 365);
    clamp_to_i64(q)
}

/// Relies on chrono: `Utc::now().date_naive()` for today's date,
/// `NaiveDate::from_ymd_opt` for the first day of the birth month (a
/// valid date for any month 1..=12 and year 1..=9999), and the date
/// difference's `num_days`.  The result moves with the wall clock, so
/// nothing is promised of it.
#[verifier::external_body]
fn days_since_birth(birth_year: usize, birth_month: usize) -> i64
    requires
        1 <= birth_month <= 12,
        1 <= birth_year <= 9999,
{
    let now = chrono::Utc::now().date_naive();
    let birth = chrono::NaiveDate::from_ymd_opt(birth_year as i32, birth_month as u32, 1).unwrap();
    (now - birth).num_days()
}

/// The default starting-balance input path.
fn new_strlit_input() -> (r: String)
    ensures
        r@ == "Income_Assets.csv"@,
{
    let s: &str = "Income_Assets.csv";
    s.to_string()
}

} // verus!
