//! The parsed configuration: the user, the market and the account
//! definitions, as one read-only container.  Reading and parsing the
//! configuration file is a collaborator's concern, outside this crate.

use vstd::prelude::*;

use crate::asset::Asset;
use crate::income::Income;
use crate::market::MarketConditions;
use crate::user::User;

verus! {

/// The starting balance for a name in a parsed table, scanned from
/// column `j` on: the value under the first matching header, or zero
/// when no column matches or the row is too short — a missing account
/// starts empty.
pub open spec fn balance_lookup_spec(
    header: Seq<String>,
    values: Seq<i64>,
    name: Seq<char>,
    j: nat,
) -> int
    decreases header.len() - j,
{
    if j >= header.len() {
        0
    } else if header[j as int]@ == name {
        if j < values.len() {
            values[j as int] as int
        } else {
            0
        }
    } else {
        balance_lookup_spec(header, values, name, j + 1)
    }
}

/// Looks a starting balance up by account name; see
/// `balance_lookup_spec`.
pub fn balance_by_name(header: &Vec<String>, values: &Vec<i64>, name: &String) -> (r: i64)
    ensures
        r as int == balance_lookup_spec(header@, values@, name@, 0),
{
    let mut j: usize = 0;
    loop
        invariant
            j <= header@.len(),
            balance_lookup_spec(header@, values@, name@, 0) == balance_lookup_spec(
                header@,
                values@,
                name@,
                j as nat,
            ),
        decreases header@.len() - j,
    {
        if j == header.len() {
            return 0;
        }
        let h = &header[j];
        if h.eq(name) {
            if j < values.len() {
                return values[j];
            } else {
                return 0;
            }
        }
        j = j + 1;
    }
}

pub struct Configuration {
    pub title: String,
    pub user: User,
    pub market: MarketConditions,
    pub assets: Vec<Asset>,
    pub income: Vec<Income>,
}

impl Configuration {
    pub fn new(
        title: String,
        user: User,
        market: MarketConditions,
        assets: Vec<Asset>,
        income: Vec<Income>,
    ) -> (r: Configuration)
        ensures
            r.title == title,
            r.user == user,
            r.market == market,
            r.assets@ == assets@,
            r.income@ == income@,
    {
        Configuration { title, user, market, assets, income }
    }

    pub fn user(&self) -> (r: &User)
        ensures
            *r == self.user,
    {
        &self.user
    }

    pub fn market(&self) -> (r: &MarketConditions)
        ensures
            *r == self.market,
    {
        &self.market
    }

    pub fn assets(&self) -> (r: &Vec<Asset>)
        ensures
            r@ == self.assets@,
    {
        &self.assets
    }

    pub fn income(&self) -> (r: &Vec<Income>)
        ensures
            r@ == self.income@,
    {
        &self.income
    }
}

} // verus!
