//! The simulation core: per-period processing of the asset list in
//! priority order, the full-horizon driver, and the outer search for the
//! largest sustainable yearly expense.

use vstd::prelude::*;

use crate::asset::{
    accessible_spec, awv_ge, awv_lt, period_rate_spec, process_asset_spec, Asset, AssetWithValue,
};
use crate::fixed::{
    clamp64, compound_spec, max_int, mul_div64, mul_div_spec, sat_add64, sat_add_spec, sat_sub64,
    sat_sub_spec, tdiv, tdiv64_by, tdiv128, clamp_to_i64, SCALE,
};
use crate::income::{income_one_spec, IncomeWithValue};
use crate::market::MarketConditions;
use crate::user::{total_periods_spec, User};

verus! {

/// Inserts `x` into a list sorted descending by the priority order,
/// before the first element strictly below it (so equal elements keep
/// their earlier position, as a stable sort does).
pub open spec fn insert_desc(s: Seq<AssetWithValue>, x: AssetWithValue) -> Seq<AssetWithValue>
    decreases s.len(),
{
    if s.len() == 0 {
        seq![x]
    } else if !awv_lt(s[0], x) {
        seq![s[0]] + insert_desc(s.subrange(1, s.len() as int), x)
    } else {
        seq![x] + s
    }
}

/// Insertion sort, descending by the priority order: latest access age
/// and highest return first.
pub open spec fn sort_desc_spec(s: Seq<AssetWithValue>) -> Seq<AssetWithValue>
    decreases s.len(),
{
    if s.len() == 0 {
        Seq::empty()
    } else {
        insert_desc(sort_desc_spec(s.drop_last()), s.last())
    }
}

proof fn lemma_insert_desc_len(s: Seq<AssetWithValue>, x: AssetWithValue)
    ensures
        insert_desc(s, x).len() == s.len() + 1,
    decreases s.len(),
{
    if s.len() != 0 && !awv_lt(s[0], x) {
        lemma_insert_desc_len(s.subrange(1, s.len() as int), x);
    }
}

proof fn lemma_insert_desc_contains_x(s: Seq<AssetWithValue>, x: AssetWithValue)
    ensures
        insert_desc(s, x).contains(x),
    decreases s.len(),
{
    if s.len() == 0 {
        assert(insert_desc(s, x)[0] == x);
    } else if !awv_lt(s[0], x) {
        let rest = s.subrange(1, s.len() as int);
        lemma_insert_desc_contains_x(rest, x);
        let j = choose|j: int| 0 <= j < insert_desc(rest, x).len() && insert_desc(rest, x)[j] == x;
        assert(insert_desc(s, x)[j + 1] == x);
    } else {
        assert(insert_desc(s, x)[0] == x);
    }
}

proof fn lemma_insert_desc_contains(s: Seq<AssetWithValue>, x: AssetWithValue)
    ensures
        forall|e: AssetWithValue| insert_desc(s, x).contains(e) <==> (s.contains(e) || e == x),
    decreases s.len(),
{
    if s.len() == 0 {
        assert forall|e: AssetWithValue| insert_desc(s, x).contains(e) implies (s.contains(e) || e
            == x) by {
            assert(insert_desc(s, x) == seq![x]);
        }
        assert(seq![x][0] == x);
        assert(seq![x].contains(x));
    } else if !awv_lt(s[0], x) {
        let rest = s.subrange(1, s.len() as int);
        lemma_insert_desc_contains(rest, x);
        let r = insert_desc(s, x);
        assert(r == seq![s[0]] + insert_desc(rest, x));
        assert forall|e: AssetWithValue| r.contains(e) implies (s.contains(e) || e == x) by {
            let i = choose|i: int| 0 <= i < r.len() && r[i] == e;
            if i == 0 {
                assert(s[0] == e);
                assert(s.contains(e));
            } else {
                assert(insert_desc(rest, x)[i - 1] == e);
                assert(insert_desc(rest, x).contains(e));
                if rest.contains(e) {
                    let j = choose|j: int| 0 <= j < rest.len() && rest[j] == e;
                    assert(s[j + 1] == e);
                    assert(s.contains(e));
                }
            }
        }
        assert forall|e: AssetWithValue| (s.contains(e) || e == x) implies r.contains(e) by {
            if e == x {
                lemma_insert_desc_contains_x(rest, x);
                let j = choose|j: int| 0 <= j < insert_desc(rest, x).len() && insert_desc(
                    rest,
                    x,
                )[j] == x;
                assert(r[j + 1] == x);
            } else {
                let i = choose|i: int| 0 <= i < s.len() && s[i] == e;
                if i == 0 {
                    assert(r[0] == e);
                } else {
                    assert(rest[i - 1] == e);
                    assert(rest.contains(e));
                    assert(insert_desc(rest, x).contains(e));
                    let j = choose|j: int| 0 <= j < insert_desc(rest, x).len() && insert_desc(
                        rest,
                        x,
                    )[j] == e;
                    assert(r[j + 1] == e);
                }
            }
        }
    } else {
        let r = insert_desc(s, x);
        assert(r == seq![x] + s);
        assert forall|e: AssetWithValue| (s.contains(e) || e == x) implies r.contains(e) by {
            if e == x {
                assert(r[0] == x);
            } else {
                let i = choose|i: int| 0 <= i < s.len() && s[i] == e;
                assert(r[i + 1] == e);
            }
        }
        assert forall|e: AssetWithValue| r.contains(e) implies (s.contains(e) || e == x) by {
            let i = choose|i: int| 0 <= i < r.len() && r[i] == e;
            if i > 0 {
                assert(s[i - 1] == e);
                assert(s.contains(e));
            }
        }
    }
}

/// The sort keeps exactly the elements of its input.
pub proof fn lemma_sort_desc_contains(s: Seq<AssetWithValue>)
    ensures
        sort_desc_spec(s).len() == s.len(),
        forall|e: AssetWithValue| sort_desc_spec(s).contains(e) <==> s.contains(e),
    decreases s.len(),
{
    if s.len() != 0 {
        let front = s.drop_last();
        lemma_sort_desc_contains(front);
        lemma_insert_desc_len(sort_desc_spec(front), s.last());
        lemma_insert_desc_contains(sort_desc_spec(front), s.last());
        assert forall|e: AssetWithValue| s.contains(e) implies (front.contains(e) || e == s.last())
            by {
            let i = choose|i: int| 0 <= i < s.len() && s[i] == e;
            if i < s.len() - 1 {
                assert(front[i] == e);
            }
        }
        assert forall|e: AssetWithValue| (front.contains(e) || e == s.last()) implies s.contains(e)
            by {
            if front.contains(e) {
                let i = choose|i: int| 0 <= i < front.len() && front[i] == e;
                assert(s[i] == e);
            } else {
                assert(s[s.len() - 1] == e);
            }
        }
        assert forall|e: AssetWithValue| sort_desc_spec(s).contains(e) <==> s.contains(e) by {
            assert(sort_desc_spec(s) == insert_desc(sort_desc_spec(front), s.last()));
            assert(insert_desc(sort_desc_spec(front), s.last()).contains(e) <==> (sort_desc_spec(
                front,
            ).contains(e) || e == s.last()));
            assert(sort_desc_spec(front).contains(e) <==> front.contains(e));
            assert(s.contains(e) <==> (front.contains(e) || e == s.last()));
        }
    }
}

proof fn lemma_insert_desc_multiset(s: Seq<AssetWithValue>, x: AssetWithValue)
    ensures
        insert_desc(s, x).to_multiset() == s.to_multiset().insert(x),
    decreases s.len(),
{
    broadcast use vstd::seq_lib::group_to_multiset_ensures;

    if s.len() == 0 {
        assert(seq![x] == Seq::empty().push(x));
        assert(insert_desc(s, x).to_multiset() =~= s.to_multiset().insert(x));
    } else if !awv_lt(s[0], x) {
        let rest = s.subrange(1, s.len() as int);
        lemma_insert_desc_multiset(rest, x);
        let r = insert_desc(s, x);
        assert(r == seq![s[0]] + insert_desc(rest, x));
        vstd::seq_lib::lemma_multiset_commutative(seq![s[0]], insert_desc(rest, x));
        assert(seq![s[0]] == Seq::empty().push(s[0]));
        assert(s == seq![s[0]] + rest);
        vstd::seq_lib::lemma_multiset_commutative(seq![s[0]], rest);
        assert(r.to_multiset() =~= s.to_multiset().insert(x));
    } else {
        let r = insert_desc(s, x);
        assert(r == seq![x] + s);
        vstd::seq_lib::lemma_multiset_commutative(seq![x], s);
        assert(seq![x] == Seq::empty().push(x));
        assert(r.to_multiset() =~= s.to_multiset().insert(x));
    }
}

/// The sort is a permutation: it keeps the multiset of valued assets.
pub proof fn lemma_sort_desc_multiset(s: Seq<AssetWithValue>)
    ensures
        sort_desc_spec(s).to_multiset() == s.to_multiset(),
    decreases s.len(),
{
    broadcast use vstd::seq_lib::group_to_multiset_ensures;

    if s.len() != 0 {
        let front = s.drop_last();
        lemma_sort_desc_multiset(front);
        lemma_insert_desc_multiset(sort_desc_spec(front), s.last());
        assert(s == front.push(s.last()));
        assert(sort_desc_spec(s).to_multiset() =~= s.to_multiset());
    }
}

fn find_insert_pos(acc: &Vec<AssetWithValue>, x: &AssetWithValue) -> (j: usize)
    ensures
        j <= acc@.len(),
        forall|k: int| 0 <= k < j ==> !awv_lt(acc@[k], *x),
        j < acc@.len() ==> awv_lt(acc@[j as int], *x),
{
    let mut j: usize = 0;
    loop
        invariant
            j <= acc@.len(),
            forall|k: int| 0 <= k < j ==> !awv_lt(acc@[k], *x),
        decreases acc@.len() - j,
    {
        if j == acc.len() {
            return j;
        }
        if !awv_ge(&acc[j], x) {
            return j;
        }
        j = j + 1;
    }
}

proof fn lemma_insert_desc_at(s: Seq<AssetWithValue>, x: AssetWithValue, j: int)
    requires
        0 <= j <= s.len(),
        forall|k: int| 0 <= k < j ==> !awv_lt(s[k], x),
        j < s.len() ==> awv_lt(s[j], x),
    ensures
        insert_desc(s, x) == s.take(j) + seq![x] + s.skip(j),
    decreases j,
{
    if j == 0 {
        if s.len() == 0 {
            assert(insert_desc(s, x) =~= s.take(0) + seq![x] + s.skip(0));
        } else {
            assert(awv_lt(s[0], x));
            assert(insert_desc(s, x) =~= s.take(0) + seq![x] + s.skip(0));
        }
    } else {
        let rest = s.subrange(1, s.len() as int);
        assert(forall|k: int| 0 <= k < j - 1 ==> rest[k] == s[k + 1]);
        lemma_insert_desc_at(rest, x, j - 1);
        assert(!awv_lt(s[0], x));
        assert(insert_desc(s, x) == seq![s[0]] + insert_desc(rest, x));
        assert(insert_desc(s, x) =~= s.take(j) + seq![x] + s.skip(j));
    }
}

fn insert_sorted(acc: &mut Vec<AssetWithValue>, x: AssetWithValue)
    ensures
        final(acc)@ == insert_desc(old(acc)@, x),
{
    let j = find_insert_pos(acc, &x);
    proof {
        lemma_insert_desc_at(acc@, x, j as int);
    }
    acc.insert(j, x);
    proof {
        assert(acc@ =~= old(acc)@.take(j as int) + seq![x] + old(acc)@.skip(j as int));
    }
}

/// Sorts the asset list descending by the priority order, without
/// changing the input: latest access age and highest return first.
pub fn sort_assets(v: &Vec<AssetWithValue>) -> (r: Vec<AssetWithValue>)
    ensures
        r@ == sort_desc_spec(v@),
{
    let mut out: Vec<AssetWithValue> = Vec::new();
    let mut i: usize = 0;
    while i < v.len()
        invariant
            i <= v@.len(),
            out@ == sort_desc_spec(v@.take(i as int)),
        decreases v@.len() - i,
    {
        let x = (&v[i]).duplicate();
        insert_sorted(&mut out, x);
        proof {
            assert(v@.take(i + 1 as int).drop_last() =~= v@.take(i as int));
            assert(v@.take(i + 1 as int).last() == v@[i as int]);
        }
        i = i + 1;
    }
    proof {
        assert(v@.take(v@.len() as int) =~= v@);
    }
    out
}

/// Every asset in the list has a balance at or above zero and a
/// per-period rate above minus one whole unit — what the withdrawal
/// arithmetic is defined for.
pub open spec fn assets_ok(s: Seq<AssetWithValue>, m: MarketConditions, piy: int) -> bool {
    forall|i: int|
        0 <= i < s.len() ==> (period_rate_spec(#[trigger] s[i].config, m, piy) > -SCALE
            && s[i].value >= 0)
}

proof fn lemma_sort_keeps_assets_ok(s: Seq<AssetWithValue>, m: MarketConditions, piy: int)
    requires
        assets_ok(s, m, piy),
    ensures
        assets_ok(sort_desc_spec(s), m, piy),
        sort_desc_spec(s).len() == s.len(),
{
    lemma_sort_desc_contains(s);
    let t = sort_desc_spec(s);
    assert forall|i: int| 0 <= i < t.len() implies (period_rate_spec(
        #[trigger] t[i].config,
        m,
        piy,
    ) > -SCALE && t[i].value >= 0) by {
        assert(t.contains(t[i]));
        assert(s.contains(t[i]));
        let j = choose|j: int| 0 <= j < s.len() && s[j] == t[i];
        assert(period_rate_spec(s[j].config, m, piy) > -SCALE);
    }
}

/// The state of the asset chain after the first `k` assets of one period
/// have been processed: the updated list, the total frozen so far, and
/// the revenue still needed.
pub open spec fn assets_step(
    s0: Seq<AssetWithValue>,
    m: MarketConditions,
    piy: int,
    age: int,
    p: nat,
    need0: int,
    frozen0: int,
    k: nat,
) -> (Seq<AssetWithValue>, int, int)
    recommends
        k <= s0.len(),
    decreases k,
{
    if k == 0 {
        (s0, frozen0, need0)
    } else {
        let prev = assets_step(s0, m, piy, age, p, need0, frozen0, (k - 1) as nat);
        let i = k - 1;
        let a = prev.0[i as int];
        let step = process_asset_spec(a, m, piy, age, p, prev.2);
        (
            prev.0.update(i as int, AssetWithValue { config: a.config, value: step.0 as i64 }),
            sat_add_spec(prev.1, step.1),
            step.2,
        )
    }
}

/// Applies the withdrawal step to every asset in order, threading the
/// shrinking revenue need and accumulating frozen principal.
fn apply_assets(
    assets: &mut Vec<AssetWithValue>,
    user: &User,
    market: &MarketConditions,
    age: i64,
    p: usize,
    need0: i64,
    frozen0: i64,
) -> (r: (i64, i64))
    requires
        user.wf(),
        assets_ok(old(assets)@, *market, user.periods_in_year as int),
    ensures
        (final(assets)@, r.0 as int, r.1 as int) == assets_step(
            old(assets)@,
            *market,
            user.periods_in_year as int,
            age as int,
            p as nat,
            need0 as int,
            frozen0 as int,
            old(assets)@.len() as nat,
        ),
        assets_ok(final(assets)@, *market, user.periods_in_year as int),
        final(assets)@.len() == old(assets)@.len(),
        r.1 <= need0,
        need0 > 0 ==> r.1 >= 0,
        need0 <= 0 ==> r.1 == need0,
{
    let ghost s0 = assets@;
    let ghost piy = user.periods_in_year as int;
    let mut need: i64 = need0;
    let mut frozen: i64 = frozen0;
    let mut i: usize = 0;
    while i < assets.len()
        invariant
            i <= assets@.len(),
            assets@.len() == s0.len(),
            user.wf(),
            (assets@, frozen as int, need as int) == assets_step(
                s0,
                *market,
                piy,
                age as int,
                p as nat,
                need0 as int,
                frozen0 as int,
                i as nat,
            ),
            assets_ok(s0, *market, piy),
            assets_ok(assets@, *market, piy),
            forall|k: int| 0 <= k < s0.len() ==> (#[trigger] assets@[k]).config == s0[k].config,
            need <= need0,
            need0 > 0 ==> need >= 0,
            need0 <= 0 ==> need == need0,
            piy == user.periods_in_year as int,
        decreases assets@.len() - i,
    {
        let step = (&assets[i]).process_asset(user, market, age, p, need);
        need = step.2;
        frozen = sat_add64(frozen, step.1);
        let ghost before = assets@;
        assets[i].set_value(step.0);
        proof {
            assert(assets@ =~= before.update(
                i as int,
                AssetWithValue { config: before[i as int].config, value: step.0 },
            ));
        }
        i = i + 1;
    }
    (frozen, need)
}

/// The fractional age reached `p` periods before the end of the horizon,
/// in micro-years.
pub open spec fn age_at_spec(current_age: int, p: nat, piy: int) -> int
    recommends
        piy >= 1,
{
    clamp64(current_age + (p as int / piy) * SCALE + tdiv((p as int % piy) * SCALE, piy))
}

fn age_at(current_age: i64, p: usize, piy: usize) -> (r: i64)
    requires
        piy >= 1,
    ensures
        r as int == age_at_spec(current_age as int, p as nat, piy as int),
{
    let years: u128 = ((p / piy) as u128) * (SCALE as u128);
    proof {
        assert(((p / piy) as int) * (SCALE as int) <= u128::MAX) by (nonlinear_arith)
            requires
                0 <= (p / piy) as int <= u64::MAX,
        ;
    }
    let frac: u128 = (((p % piy) as u128) * (SCALE as u128)) / (piy as u128);
    proof {
        assert(((p % piy) as int) * (SCALE as int) <= u128::MAX) by (nonlinear_arith)
            requires
                0 <= (p % piy) as int <= u64::MAX,
        ;
        assert(years <= 0x1_0000_0000_0000_0000u128 * 0x100000u128) by (nonlinear_arith)
            requires
                years == ((p / piy) as int) * (SCALE as int),
                0 <= (p / piy) as int <= u64::MAX,
        ;
        assert(frac as int == tdiv(((p % piy) as int) * SCALE, piy as int));
    }
    let total: i128 = current_age as i128 + years as i128 + frac as i128;
    clamp_to_i64(total)
}

/// The inflation-adjusted per-period expense `p` periods before the end:
/// the per-period baseline grown at per-period inflation over `p`
/// periods.
pub open spec fn fixed_cost_spec(yearly: int, inflation: int, piy: int, p: nat) -> int
    recommends
        piy >= 1,
{
    compound_spec(tdiv(yearly, piy), tdiv(inflation, piy), p)
}

/// Total income generated by all streams in one period, saturating.
pub open spec fn income_total_spec(incomes: Seq<IncomeWithValue>, piy: int, age: int, p: nat) -> int
    decreases incomes.len(),
{
    if incomes.len() == 0 {
        0
    } else {
        sat_add_spec(
            income_total_spec(incomes.drop_last(), piy, age, p),
            income_one_spec(incomes.last(), piy, age, p),
        )
    }
}

fn income_total(incomes: &Vec<IncomeWithValue>, user: &User, age: i64, p: usize) -> (r: i64)
    requires
        user.wf(),
    ensures
        r as int == income_total_spec(incomes@, user.periods_in_year as int, age as int, p as nat),
{
    let mut total: i64 = 0;
    let mut i: usize = 0;
    while i < incomes.len()
        invariant
            i <= incomes@.len(),
            user.wf(),
            total as int == income_total_spec(
                incomes@.take(i as int),
                user.periods_in_year as int,
                age as int,
                p as nat,
            ),
        decreases incomes@.len() - i,
    {
        let one = (&incomes[i]).compute_income(user, age, p);
        total = sat_add64(total, one);
        proof {
            assert(incomes@.take(i + 1 as int).drop_last() =~= incomes@.take(i as int));
            assert(incomes@.take(i + 1 as int).last() == incomes@[i as int]);
        }
        i = i + 1;
    }
    proof {
        assert(incomes@.take(incomes@.len() as int) =~= incomes@);
    }
    total
}

/// One line of the simulation report: what one period cost, earned and
/// withdrew.  `total_assets` is the frozen principal accumulated since
/// the start of the run.
#[derive(Clone, Copy, Debug, PartialEq, Eq, Structural)]
pub struct LedgerRow {
    pub period: usize,
    pub age: i64,
    pub expenses: i64,
    pub income: i64,
    pub withdrawal: i64,
    pub total_revenue: i64,
    pub total_assets: i64,
}

/// One full period: age and inflation-adjusted cost, income aggregation,
/// the buffered residual need, the withdrawal chain over the re-sorted
/// asset list, and the ledger row.  Returns the updated assets, the row,
/// the unmet need, the cumulative frozen total and the period's revenue.
pub open spec fn period_spec(
    assets: Seq<AssetWithValue>,
    incomes: Seq<IncomeWithValue>,
    user: User,
    m: MarketConditions,
    current_age: int,
    yearly: int,
    p: nat,
    frozen0: int,
) -> (Seq<AssetWithValue>, LedgerRow, int, int, int) {
    let piy = user.periods_in_year as int;
    let age = age_at_spec(current_age, p, piy);
    let fc = fixed_cost_spec(yearly, m.inflation as int, piy, p);
    let sorted = sort_desc_spec(assets);
    let ti = income_total_spec(incomes, piy, age, p);
    let rest = mul_div_spec(sat_sub_spec(fc, ti), user.buffer as int, SCALE as int);
    let applied = assets_step(sorted, m, piy, age, p, rest, frozen0, sorted.len());
    let withdrawal = sat_sub_spec(rest, applied.2);
    let revenue = sat_add_spec(ti, withdrawal);
    let row = LedgerRow {
        period: p as usize,
        age: age as i64,
        expenses: fc as i64,
        income: ti as i64,
        withdrawal: withdrawal as i64,
        total_revenue: revenue as i64,
        total_assets: applied.1 as i64,
    };
    (applied.0, row, applied.2, applied.1, revenue)
}

/// Processes one period; see `period_spec`.
pub fn process_period(
    assets: Vec<AssetWithValue>,
    incomes: &Vec<IncomeWithValue>,
    user: &User,
    market: &MarketConditions,
    current_age: i64,
    yearly_expenses: i64,
    p: usize,
    frozen0: i64,
) -> (r: (Vec<AssetWithValue>, LedgerRow, i64, i64, i64))
    requires
        user.wf(),
        assets_ok(assets@, *market, user.periods_in_year as int),
    ensures
        ({
            let spec = period_spec(
                assets@,
                incomes@,
                *user,
                *market,
                current_age as int,
                yearly_expenses as int,
                p as nat,
                frozen0 as int,
            );
            r.0@ == spec.0 && r.1 == spec.1 && r.2 as int == spec.2 && r.3 as int == spec.3 && r.4
                as int == spec.4
        }),
        assets_ok(r.0@, *market, user.periods_in_year as int),
        r.0@.len() == assets@.len(),
{
    let piy = user.periods_in_year();
    let age = age_at(current_age, p, piy);
    let base = tdiv64_by(yearly_expenses, piy as u64);
    let infl = tdiv64_by(market.inflation_yearly(), piy as u64);
    let fc = crate::fixed::calculate_compound(base, infl, p);
    let mut sorted = sort_assets(&assets);
    proof {
        lemma_sort_keeps_assets_ok(assets@, *market, user.periods_in_year as int);
    }
    let ti = income_total(incomes, user, age, p);
    let shortfall = sat_sub64(fc, ti);
    let rest = mul_div64(shortfall, user.buffer(), SCALE);
    let chain = apply_assets(&mut sorted, user, market, age, p, rest, frozen0);
    let withdrawal = sat_sub64(rest, chain.1);
    let revenue = sat_add64(ti, withdrawal);
    let row = LedgerRow {
        period: p,
        age,
        expenses: fc,
        income: ti,
        withdrawal,
        total_revenue: revenue,
        total_assets: chain.0,
    };
    (sorted, row, chain.1, chain.0, revenue)
}

/// The driver's state after the first `k` of `total` periods, iterating
/// the period index down from `total - 1`: the working asset list, the
/// ledger so far, the last period's unmet need and revenue, and the
/// cumulative frozen total.
pub open spec fn sim_steps(
    assets0: Seq<AssetWithValue>,
    incomes: Seq<IncomeWithValue>,
    user: User,
    m: MarketConditions,
    current_age: int,
    yearly: int,
    total: nat,
    k: nat,
) -> (Seq<AssetWithValue>, Seq<LedgerRow>, int, int, int)
    recommends
        k <= total,
    decreases k,
{
    if k == 0 {
        (assets0, Seq::empty(), 0, 0, 0)
    } else {
        let prev = sim_steps(assets0, incomes, user, m, current_age, yearly, total, (k - 1) as nat);
        let p = (total - k) as nat;
        let st = period_spec(prev.0, incomes, user, m, current_age, yearly, p, prev.4);
        (st.0, prev.1.push(st.1), st.2, st.4, st.3)
    }
}

/// One full-horizon run; see `sim_steps`.  The ledger and final balances
/// are a function of the arguments alone, so two runs with equal inputs
/// yield equal ledgers.  Returns the final period's unmet revenue, its
/// revenue, the post-run asset list and the ledger.
pub fn run_simulation(
    income_list: &Vec<IncomeWithValue>,
    asset_list: &Vec<AssetWithValue>,
    current_user: &User,
    market: &MarketConditions,
    current_age: i64,
    yearly_expenses: i64,
) -> (r: (i64, i64, Vec<AssetWithValue>, Vec<LedgerRow>))
    requires
        current_user.wf(),
        assets_ok(asset_list@, *market, current_user.periods_in_year as int),
    ensures
        ({
            let total = total_periods_spec(
                current_user.max_age as int,
                current_age as int,
                current_user.periods_in_year as int,
            );
            let fin = sim_steps(
                asset_list@,
                income_list@,
                *current_user,
                *market,
                current_age as int,
                yearly_expenses as int,
                total as nat,
                total as nat,
            );
            r.0 as int == fin.2 && r.1 as int == fin.3 && r.2@ == fin.0 && r.3@ == fin.1
        }),
        assets_ok(r.2@, *market, current_user.periods_in_year as int),
        r.3@.len() == total_periods_spec(
            current_user.max_age as int,
            current_age as int,
            current_user.periods_in_year as int,
        ),
{
    let total = current_user.total_periods_of_retirement(current_age);
    let mut assets = duplicate_assets(asset_list);
    let mut ledger: Vec<LedgerRow> = Vec::new();
    let mut need: i64 = 0;
    let mut revenue: i64 = 0;
    let mut frozen: i64 = 0;
    let mut j: usize = 0;
    while j < total
        invariant
            j <= total,
            current_user.wf(),
            assets_ok(asset_list@, *market, current_user.periods_in_year as int),
            assets_ok(assets@, *market, current_user.periods_in_year as int),
            ledger@.len() == j,
            ({
                let st = sim_steps(
                    asset_list@,
                    income_list@,
                    *current_user,
                    *market,
                    current_age as int,
                    yearly_expenses as int,
                    total as nat,
                    j as nat,
                );
                assets@ == st.0 && ledger@ == st.1 && need as int == st.2 && revenue as int == st.3
                    && frozen as int == st.4
            }),
        decreases total - j,
    {
        let p = total - 1 - j;
        let out = process_period(
            assets,
            income_list,
            current_user,
            market,
            current_age,
            yearly_expenses,
            p,
            frozen,
        );
        assets = out.0;
        ledger.push(out.1);
        need = out.2;
        frozen = out.3;
        revenue = out.4;
        j = j + 1;
    }
    (need, revenue, assets, ledger)
}

/// A run is a function of its inputs alone: two results that both meet
/// the driver's contract on equal inputs are equal — the ledgers and the
/// final balances alike.
pub proof fn lemma_simulation_deterministic(
    r1: (Seq<AssetWithValue>, Seq<LedgerRow>, int, int, int),
    r2: (Seq<AssetWithValue>, Seq<LedgerRow>, int, int, int),
    assets0: Seq<AssetWithValue>,
    incomes: Seq<IncomeWithValue>,
    user: User,
    m: MarketConditions,
    current_age: int,
    yearly: int,
    total: nat,
)
    requires
        r1 == sim_steps(assets0, incomes, user, m, current_age, yearly, total, total),
        r2 == sim_steps(assets0, incomes, user, m, current_age, yearly, total, total),
    ensures
        r1 == r2,
{
}

/// The yearly expense level the search starts from.
pub const SEED_EXPENSE: i64 = 1_000_000_000;

/// The convergence tolerance on leftover accessible assets.
pub const LEFTOVER_TOLERANCE: i64 = 100_000_000;

/// Sum of the balances of the assets still accessible at `current_age`,
/// saturating.
pub open spec fn leftover_spec(s: Seq<AssetWithValue>, current_age: int) -> int
    decreases s.len(),
{
    if s.len() == 0 {
        0
    } else {
        let rest = leftover_spec(s.drop_last(), current_age);
        if accessible_spec(s.last().config, current_age) {
            sat_add_spec(rest, s.last().value as int)
        } else {
            rest
        }
    }
}

/// The plain (unclamped) sum of the balances accessible at
/// `current_age`.
pub open spec fn accessible_sum_spec(s: Seq<AssetWithValue>, current_age: int) -> int
    decreases s.len(),
{
    if s.len() == 0 {
        0
    } else {
        accessible_sum_spec(s.drop_last(), current_age) + (if accessible_spec(
            s.last().config,
            current_age,
        ) {
            s.last().value as int
        } else {
            0
        })
    }
}

proof fn lemma_accessible_sum_nonneg(s: Seq<AssetWithValue>, current_age: int)
    requires
        forall|i: int| 0 <= i < s.len() ==> (#[trigger] s[i]).value >= 0,
    ensures
        accessible_sum_spec(s, current_age) >= 0,
    decreases s.len(),
{
    if s.len() > 0 {
        lemma_accessible_sum_nonneg(s.drop_last(), current_age);
    }
}

/// Law: with balances at or above zero, the leftover is exactly the sum
/// of the balances accessible at the current age, clamped to the `i64`
/// range.
pub proof fn lemma_leftover_is_clamped_accessible_sum(s: Seq<AssetWithValue>, current_age: int)
    requires
        forall|i: int| 0 <= i < s.len() ==> (#[trigger] s[i]).value >= 0,
    ensures
        leftover_spec(s, current_age) == clamp64(accessible_sum_spec(s, current_age)),
    decreases s.len(),
{
    if s.len() > 0 {
        let front = s.drop_last();
        lemma_leftover_is_clamped_accessible_sum(front, current_age);
        lemma_accessible_sum_nonneg(front, current_age);
        assert(s[s.len() - 1].value >= 0);
    }
}

/// Law: each asset contributes to the leftover sum exactly its balance
/// if it is accessible at the current age, and nothing if it is not —
/// an inaccessible asset is excluded from the stopping decision.
pub proof fn lemma_leftover_counts_exactly_accessible(
    s: Seq<AssetWithValue>,
    current_age: int,
    i: int,
)
    requires
        0 <= i < s.len(),
    ensures
        accessible_sum_spec(s, current_age) == accessible_sum_spec(s.remove(i), current_age) + (
        if accessible_spec(s[i].config, current_age) {
            s[i].value as int
        } else {
            0
        }),
    decreases s.len(),
{
    if i == s.len() - 1 {
        assert(s.remove(i) =~= s.drop_last());
    } else {
        let front = s.drop_last();
        lemma_leftover_counts_exactly_accessible(front, current_age, i);
        assert(s.remove(i).drop_last() =~= front.remove(i));
        assert(s.remove(i).last() == s.last());
    }
}

/// Sum of all balances in the list, saturating.
pub open spec fn sum_values_spec(s: Seq<AssetWithValue>) -> int
    decreases s.len(),
{
    if s.len() == 0 {
        0
    } else {
        sat_add_spec(sum_values_spec(s.drop_last()), s.last().value as int)
    }
}

/// Sum of the balances of the assets accessible at `current_age`.
pub fn compute_leftover(assets: &Vec<AssetWithValue>, current_age: i64) -> (r: i64)
    ensures
        r as int == leftover_spec(assets@, current_age as int),
{
    let mut total: i64 = 0;
    let mut i: usize = 0;
    while i < assets.len()
        invariant
            i <= assets@.len(),
            total as int == leftover_spec(assets@.take(i as int), current_age as int),
        decreases assets@.len() - i,
    {
        if assets[i].config().is_accessable(current_age) {
            let v = assets[i].value();
            total = sat_add64(total, v);
        }
        proof {
            assert(assets@.take(i + 1 as int).drop_last() =~= assets@.take(i as int));
            assert(assets@.take(i + 1 as int).last() == assets@[i as int]);
        }
        i = i + 1;
    }
    proof {
        assert(assets@.take(assets@.len() as int) =~= assets@);
    }
    total
}

/// Sum of all starting balances.
pub fn sum_values(assets: &Vec<AssetWithValue>) -> (r: i64)
    ensures
        r as int == sum_values_spec(assets@),
{
    let mut total: i64 = 0;
    let mut i: usize = 0;
    while i < assets.len()
        invariant
            i <= assets@.len(),
            total as int == sum_values_spec(assets@.take(i as int)),
        decreases assets@.len() - i,
    {
        let v = assets[i].value();
        total = sat_add64(total, v);
        proof {
            assert(assets@.take(i + 1 as int).drop_last() =~= assets@.take(i as int));
            assert(assets@.take(i + 1 as int).last() == assets@[i as int]);
        }
        i = i + 1;
    }
    proof {
        assert(assets@.take(assets@.len() as int) =~= assets@);
    }
    total
}

/// What the search ended with.
#[derive(Debug)]
pub enum SearchOutcome {
    /// Leftover accessible assets fell inside the tolerance: the search
    /// stops with the sustainable expense level, the implied withdrawal
    /// rate where it can be stated, whether the user's stated target was
    /// met, and the accepted run's final assets and ledger.
    Converged {
        expense: i64,
        leftover: i64,
        withdrawal_rate: Option<i64>,
        target_met: bool,
        assets: Vec<AssetWithValue>,
        ledger: Vec<LedgerRow>,
    },
    /// Leftover went negative: an invariant violation; the search aborts.
    Diverged { expense: i64, leftover: i64 },
    /// The iteration bound ran out before the leftover converged.
    NotConverged { expense: i64 },
}

/// The ghost-level mirror of `SearchOutcome`.
pub enum SearchModel {
    Converged {
        expense: int,
        leftover: int,
        withdrawal_rate: Option<int>,
        target_met: bool,
        assets: Seq<AssetWithValue>,
        ledger: Seq<LedgerRow>,
    },
    Diverged { expense: int, leftover: int },
    NotConverged { expense: int },
}

/// The CONTINUE transition: raise the candidate by `leftover / total
/// periods` — at least one micro-unit, so the candidate strictly rises
/// while the horizon has periods at all.
pub open spec fn next_candidate_spec(expense: int, leftover: int, total: int) -> int {
    if total > 0 {
        sat_add_spec(expense, max_int(1, tdiv(leftover, total)))
    } else {
        expense
    }
}

/// Law: the CONTINUE transition never lowers the candidate expense, and
/// strictly raises it whenever the horizon has at least one period and
/// the candidate has room left to grow.
pub proof fn lemma_candidate_increases_on_continue(expense: int, leftover: int, total: int)
    requires
        i64::MIN <= expense <= i64::MAX,
    ensures
        next_candidate_spec(expense, leftover, total) >= expense,
        total >= 1 && expense < i64::MAX ==> next_candidate_spec(expense, leftover, total)
            > expense,
{
}

/// One run at the candidate `expense`, then the transition rule on the
/// leftover: inside `[0, LEFTOVER_TOLERANCE)` stop; at or above the
/// tolerance raise the candidate by `next_candidate_spec` and recurse on
/// the remaining fuel; below zero abort.
pub open spec fn search_spec(
    assets0: Seq<AssetWithValue>,
    incomes: Seq<IncomeWithValue>,
    user: User,
    m: MarketConditions,
    current_age: int,
    expense: int,
    fuel: nat,
) -> SearchModel
    decreases fuel,
{
    if fuel == 0 {
        SearchModel::NotConverged { expense }
    } else {
        let piy = user.periods_in_year as int;
        let total = total_periods_spec(user.max_age as int, current_age, piy);
        let fin = sim_steps(
            assets0,
            incomes,
            user,
            m,
            current_age,
            expense,
            total as nat,
            total as nat,
        );
        let leftover = leftover_spec(fin.0, current_age);
        if 0 <= leftover < LEFTOVER_TOLERANCE {
            let init_sum = sum_values_spec(assets0);
            let rate: Option<int> = if expense >= SEED_EXPENSE && init_sum > 0 {
                Option::Some(mul_div_spec(expense, SCALE as int, init_sum))
            } else {
                Option::None
            };
            SearchModel::Converged {
                expense,
                leftover,
                withdrawal_rate: rate,
                target_met: expense >= user.yearly_expenses,
                assets: fin.0,
                ledger: fin.1,
            }
        } else if leftover >= LEFTOVER_TOLERANCE {
            let next = next_candidate_spec(expense, leftover, total);
            search_spec(assets0, incomes, user, m, current_age, next, (fuel - 1) as nat)
        } else {
            SearchModel::Diverged { expense, leftover }
        }
    }
}

/// The executable outcome carries exactly the values of the model.
pub open spec fn outcome_matches(o: SearchOutcome, model: SearchModel) -> bool {
    match o {
        SearchOutcome::Converged {
            expense,
            leftover,
            withdrawal_rate,
            target_met,
            assets,
            ledger,
        } => {
            &&& model matches SearchModel::Converged {
                expense: me,
                leftover: ml,
                withdrawal_rate: mr,
                target_met: mt,
                assets: ma,
                ledger: mld,
            }
            &&& me == expense as int
            &&& ml == leftover as int
            &&& (match withdrawal_rate {
                Option::Some(r) => mr == Option::Some(r as int),
                Option::None => mr is None,
            })
            &&& mt == target_met
            &&& ma == assets@
            &&& mld == ledger@
        },
        SearchOutcome::Diverged { expense, leftover } => {
            &&& model matches SearchModel::Diverged { expense: me, leftover: ml }
            &&& me == expense as int
            &&& ml == leftover as int
        },
        SearchOutcome::NotConverged { expense } => {
            &&& model matches SearchModel::NotConverged { expense: me }
            &&& me == expense as int
        },
    }
}

/// The withdrawal-rate search: repeatedly runs the simulation, raising
/// the candidate yearly expense from the seed until the leftover
/// accessible assets fall inside the tolerance or the iteration bound
/// runs out; see `search_spec`.
pub fn run_search(
    income_list: &Vec<IncomeWithValue>,
    asset_list: &Vec<AssetWithValue>,
    current_user: &User,
    market: &MarketConditions,
    current_age: i64,
    max_iterations: usize,
) -> (r: SearchOutcome)
    requires
        current_user.wf(),
        assets_ok(asset_list@, *market, current_user.periods_in_year as int),
    ensures
        outcome_matches(
            r,
            search_spec(
                asset_list@,
                income_list@,
                *current_user,
                *market,
                current_age as int,
                SEED_EXPENSE as int,
                max_iterations as nat,
            ),
        ),
{
    let ghost model = search_spec(
        asset_list@,
        income_list@,
        *current_user,
        *market,
        current_age as int,
        SEED_EXPENSE as int,
        max_iterations as nat,
    );
    let mut expense: i64 = SEED_EXPENSE;
    let mut iter: usize = 0;
    loop
        invariant
            iter <= max_iterations,
            current_user.wf(),
            assets_ok(asset_list@, *market, current_user.periods_in_year as int),
            model == search_spec(
                asset_list@,
                income_list@,
                *current_user,
                *market,
                current_age as int,
                expense as int,
                (max_iterations - iter) as nat,
            ),
            model == search_spec(
                asset_list@,
                income_list@,
                *current_user,
                *market,
                current_age as int,
                SEED_EXPENSE as int,
                max_iterations as nat,
            ),
        decreases max_iterations - iter,
    {
        if iter == max_iterations {
            return SearchOutcome::NotConverged { expense };
        }
        let sim = run_simulation(
            income_list,
            asset_list,
            current_user,
            market,
            current_age,
            expense,
        );
        let leftover = compute_leftover(&sim.2, current_age);
        if leftover >= 0 && leftover < LEFTOVER_TOLERANCE {
            let init_sum = sum_values(asset_list);
            let withdrawal_rate: Option<i64> = if expense >= SEED_EXPENSE && init_sum > 0 {
                Option::Some(mul_div64(expense, SCALE, init_sum))
            } else {
                Option::None
            };
            let target_met = expense >= current_user.yearly_expenses();
            return SearchOutcome::Converged {
                expense,
                leftover,
                withdrawal_rate,
                target_met,
                assets: sim.2,
                ledger: sim.3,
            };
        } else if leftover >= LEFTOVER_TOLERANCE {
            let total = current_user.total_periods_of_retirement(current_age);
            if total > 0 {
                let mut step = tdiv64_by(leftover, total as u64);
                if step < 1 {
                    step = 1;
                }
                expense = sat_add64(expense, step);
            }
            iter = iter + 1;
        } else {
            return SearchOutcome::Diverged { expense, leftover };
        }
    }
}

proof fn lemma_assets_step_ok(
    s0: Seq<AssetWithValue>,
    m: MarketConditions,
    piy: int,
    age: int,
    p: nat,
    need0: int,
    frozen0: int,
    k: nat,
)
    requires
        assets_ok(s0, m, piy),
        k <= s0.len(),
    ensures
        ({
            let st = assets_step(s0, m, piy, age, p, need0, frozen0, k);
            &&& st.0.len() == s0.len()
            &&& assets_ok(st.0, m, piy)
            &&& forall|i: int| 0 <= i < s0.len() ==> (#[trigger] st.0[i]).config == s0[i].config
            &&& st.2 <= need0
            &&& (need0 > 0 ==> st.2 >= 0)
            &&& (need0 <= 0 ==> st.2 == need0)
        }),
    decreases k,
{
    if k > 0 {
        lemma_assets_step_ok(s0, m, piy, age, p, need0, frozen0, (k - 1) as nat);
        let prev = assets_step(s0, m, piy, age, p, need0, frozen0, (k - 1) as nat);
        let i = k - 1;
        let a = prev.0[i as int];
        let rate = period_rate_spec(a.config, m, piy);
        if a.value > 0 && accessible_spec(a.config, age) && prev.2 > 0 {
            crate::fixed::lemma_principal_nonneg(prev.2, rate, p);
            let principal = crate::fixed::principal_spec(prev.2, rate, p);
            let frozen = crate::fixed::min_int(a.value as int, principal);
            crate::fixed::lemma_compound_nonneg(frozen, rate, p);
        }
    }
}

/// Law: within one period the revenue need never rises from one asset in
/// the chain to the next.
pub proof fn lemma_need_nonincreasing_along_chain(
    s0: Seq<AssetWithValue>,
    m: MarketConditions,
    piy: int,
    age: int,
    p: nat,
    need0: int,
    frozen0: int,
    k: nat,
)
    requires
        assets_ok(s0, m, piy),
        1 <= k <= s0.len(),
    ensures
        assets_step(s0, m, piy, age, p, need0, frozen0, k).2 <= assets_step(
            s0,
            m,
            piy,
            age,
            p,
            need0,
            frozen0,
            (k - 1) as nat,
        ).2,
{
    lemma_assets_step_ok(s0, m, piy, age, p, need0, frozen0, (k - 1) as nat);
    let prev = assets_step(s0, m, piy, age, p, need0, frozen0, (k - 1) as nat);
    let a = prev.0[k - 1];
    let rate = period_rate_spec(a.config, m, piy);
    if a.value > 0 && accessible_spec(a.config, age) && prev.2 > 0 {
        crate::fixed::lemma_principal_nonneg(prev.2, rate, p);
        let principal = crate::fixed::principal_spec(prev.2, rate, p);
        let frozen = crate::fixed::min_int(a.value as int, principal);
        crate::fixed::lemma_compound_nonneg(frozen, rate, p);
    }
}

proof fn lemma_assets_step_untouched(
    s0: Seq<AssetWithValue>,
    m: MarketConditions,
    piy: int,
    age: int,
    p: nat,
    need0: int,
    frozen0: int,
    k: nat,
)
    requires
        k <= s0.len(),
        need0 <= 0,
    ensures
        assets_step(s0, m, piy, age, p, need0, frozen0, k).0 == s0,
        assets_step(s0, m, piy, age, p, need0, frozen0, k).2 == need0,
    decreases k,
{
    if k > 0 {
        lemma_assets_step_untouched(s0, m, piy, age, p, need0, frozen0, (k - 1) as nat);
        let i = k - 1;
        let a = s0[i as int];
        assert((AssetWithValue { config: a.config, value: (a.value as int) as i64 }) == a);
        assert(s0.update(i as int, a) =~= s0);
    }
}

proof fn lemma_update_count_other(
    s: Seq<AssetWithValue>,
    i: int,
    y: AssetWithValue,
    x: AssetWithValue,
)
    requires
        0 <= i < s.len(),
        s[i] != x,
        y != x,
    ensures
        s.update(i, y).to_multiset().count(x) == s.to_multiset().count(x),
{
    broadcast use vstd::seq_lib::group_to_multiset_ensures;

    let left = s.take(i);
    let mid = seq![s[i]];
    let right = s.skip(i + 1);
    assert(s =~= left + (mid + right));
    vstd::seq_lib::lemma_multiset_commutative(left, mid + right);
    vstd::seq_lib::lemma_multiset_commutative(mid, right);
    let u = s.update(i, y);
    assert(u =~= left + (seq![y] + right));
    vstd::seq_lib::lemma_multiset_commutative(left, seq![y] + right);
    vstd::seq_lib::lemma_multiset_commutative(seq![y], right);
    assert(mid == Seq::empty().push(s[i]));
    assert(seq![y] == Seq::empty().push(y));
    assert(mid.to_multiset().count(x) == 0);
    assert(seq![y].to_multiset().count(x) == 0);
}

proof fn lemma_multiset_eq_count(
    s1: Seq<AssetWithValue>,
    s2: Seq<AssetWithValue>,
    x: AssetWithValue,
)
    requires
        s1.to_multiset() == s2.to_multiset(),
    ensures
        s1.to_multiset().count(x) == s2.to_multiset().count(x),
{
}

proof fn lemma_assets_step_len(
    s0: Seq<AssetWithValue>,
    m: MarketConditions,
    piy: int,
    age: int,
    p: nat,
    need0: int,
    frozen0: int,
    k: nat,
)
    requires
        k <= s0.len(),
    ensures
        assets_step(s0, m, piy, age, p, need0, frozen0, k).0.len() == s0.len(),
    decreases k,
{
    if k > 0 {
        lemma_assets_step_len(s0, m, piy, age, p, need0, frozen0, (k - 1) as nat);
    }
}

proof fn lemma_assets_step_count(
    s0: Seq<AssetWithValue>,
    m: MarketConditions,
    piy: int,
    age: int,
    p: nat,
    need0: int,
    frozen0: int,
    k: nat,
    x: AssetWithValue,
)
    requires
        k <= s0.len(),
        !accessible_spec(x.config, age),
    ensures
        assets_step(s0, m, piy, age, p, need0, frozen0, k).0.to_multiset().count(x)
            == s0.to_multiset().count(x),
    decreases k,
{
    if k > 0 {
        lemma_assets_step_count(s0, m, piy, age, p, need0, frozen0, (k - 1) as nat, x);
        lemma_assets_step_len(s0, m, piy, age, p, need0, frozen0, (k - 1) as nat);
        let prev = assets_step(s0, m, piy, age, p, need0, frozen0, (k - 1) as nat);
        let i = k - 1;
        let a = prev.0[i as int];
        let step = process_asset_spec(a, m, piy, age, p, prev.2);
        let fresh = AssetWithValue { config: a.config, value: step.0 as i64 };
        if a == x {
            assert(!accessible_spec(a.config, age));
            assert(fresh == a);
            assert(prev.0.update(i as int, fresh) =~= prev.0);
        } else {
            if fresh == x {
                assert(a.config == x.config);
                assert(!accessible_spec(a.config, age));
                assert(fresh == a);
                assert(false);
            }
            lemma_update_count_other(prev.0, i as int, fresh, x);
        }
    }
}

/// An asset whose window opens only after every age the horizon reaches
/// is never accessible during the run.
pub open spec fn never_accessible(a: Asset, current_age: int, piy: int, total: nat) -> bool {
    forall|p: nat| p < total ==> !accessible_spec(a, #[trigger] age_at_spec(current_age, p, piy))
}

/// Law: an asset that is never accessible during the run is never
/// touched, whatever the need: every valued asset with such a window
/// appears in the final list exactly as often, with the same balance, as
/// in the starting list.
pub proof fn lemma_never_accessible_untouched(
    assets0: Seq<AssetWithValue>,
    incomes: Seq<IncomeWithValue>,
    user: User,
    m: MarketConditions,
    current_age: int,
    yearly: int,
    total: nat,
    k: nat,
    x: AssetWithValue,
)
    requires
        k <= total,
        never_accessible(x.config, current_age, user.periods_in_year as int, total),
    ensures
        sim_steps(
            assets0,
            incomes,
            user,
            m,
            current_age,
            yearly,
            total,
            k,
        ).0.to_multiset().count(x) == assets0.to_multiset().count(x),
    decreases k,
{
    if k > 0 {
        lemma_never_accessible_untouched(
            assets0,
            incomes,
            user,
            m,
            current_age,
            yearly,
            total,
            (k - 1) as nat,
            x,
        );
        let prev = sim_steps(assets0, incomes, user, m, current_age, yearly, total, (k - 1) as nat);
        let piy = user.periods_in_year as int;
        let p = (total - k) as nat;
        let age = age_at_spec(current_age, p, piy);
        assert(!accessible_spec(x.config, age));
        let sorted = sort_desc_spec(prev.0);
        lemma_sort_desc_multiset(prev.0);
        lemma_multiset_eq_count(sorted, prev.0, x);
        let fc = fixed_cost_spec(yearly, m.inflation as int, piy, p);
        let ti = income_total_spec(incomes, piy, age, p);
        let rest = mul_div_spec(sat_sub_spec(fc, ti), user.buffer as int, SCALE as int);
        lemma_assets_step_count(sorted, m, piy, age, p, rest, prev.4, sorted.len(), x);
    }
}

/// Law: when income covers the inflation-adjusted cost in every period
/// (and the buffer is not negative), no asset is ever touched: the final
/// list holds exactly the starting valued assets.
pub proof fn lemma_income_covering_leaves_assets(
    assets0: Seq<AssetWithValue>,
    incomes: Seq<IncomeWithValue>,
    user: User,
    m: MarketConditions,
    current_age: int,
    yearly: int,
    total: nat,
    k: nat,
)
    requires
        k <= total,
        user.periods_in_year >= 1,
        user.buffer >= 0,
        forall|p: nat|
            p < total ==> income_total_spec(
                incomes,
                user.periods_in_year as int,
                #[trigger] age_at_spec(current_age, p, user.periods_in_year as int),
                p,
            ) >= fixed_cost_spec(yearly, m.inflation as int, user.periods_in_year as int, p),
    ensures
        sim_steps(assets0, incomes, user, m, current_age, yearly, total, k).0.to_multiset()
            == assets0.to_multiset(),
    decreases k,
{
    if k > 0 {
        lemma_income_covering_leaves_assets(
            assets0,
            incomes,
            user,
            m,
            current_age,
            yearly,
            total,
            (k - 1) as nat,
        );
        let prev = sim_steps(assets0, incomes, user, m, current_age, yearly, total, (k - 1) as nat);
        let piy = user.periods_in_year as int;
        let p = (total - k) as nat;
        let age = age_at_spec(current_age, p, piy);
        let sorted = sort_desc_spec(prev.0);
        lemma_sort_desc_multiset(prev.0);
        let fc = fixed_cost_spec(yearly, m.inflation as int, piy, p);
        let ti = income_total_spec(incomes, piy, age, p);
        assert(ti >= fc);
        let short = sat_sub_spec(fc, ti);
        assert(short <= 0);
        let rest = mul_div_spec(short, user.buffer as int, SCALE as int);
        assert(short * (user.buffer as int) <= 0) by (nonlinear_arith)
            requires
                short <= 0,
                user.buffer as int >= 0,
        ;
        assert(rest <= 0);
        lemma_assets_step_untouched(sorted, m, piy, age, p, rest, prev.4, sorted.len());
    }
}

proof fn lemma_sim_steps_ok(
    assets0: Seq<AssetWithValue>,
    incomes: Seq<IncomeWithValue>,
    user: User,
    m: MarketConditions,
    current_age: int,
    yearly: int,
    total: nat,
    k: nat,
)
    requires
        k <= total,
        assets_ok(assets0, m, user.periods_in_year as int),
    ensures
        assets_ok(
            sim_steps(assets0, incomes, user, m, current_age, yearly, total, k).0,
            m,
            user.periods_in_year as int,
        ),
    decreases k,
{
    if k > 0 {
        lemma_sim_steps_ok(assets0, incomes, user, m, current_age, yearly, total, (k - 1) as nat);
        let prev = sim_steps(assets0, incomes, user, m, current_age, yearly, total, (k - 1) as nat);
        let piy = user.periods_in_year as int;
        let p = (total - k) as nat;
        let age = age_at_spec(current_age, p, piy);
        lemma_sort_keeps_assets_ok(prev.0, m, piy);
        let sorted = sort_desc_spec(prev.0);
        let fc = fixed_cost_spec(yearly, m.inflation as int, piy, p);
        let ti = income_total_spec(incomes, piy, age, p);
        let rest = mul_div_spec(sat_sub_spec(fc, ti), user.buffer as int, SCALE as int);
        lemma_assets_step_ok(sorted, m, piy, age, p, rest, prev.4, sorted.len());
    }
}

proof fn lemma_leftover_nonneg(s: Seq<AssetWithValue>, current_age: int)
    requires
        forall|i: int| 0 <= i < s.len() ==> (#[trigger] s[i]).value >= 0,
    ensures
        leftover_spec(s, current_age) >= 0,
    decreases s.len(),
{
    if s.len() > 0 {
        lemma_leftover_nonneg(s.drop_last(), current_age);
    }
}

/// Law: on well-formed inputs the search never reports divergence — the
/// leftover is a sum of non-negative balances, so it never goes below
/// zero.
pub proof fn lemma_search_never_diverges(
    assets0: Seq<AssetWithValue>,
    incomes: Seq<IncomeWithValue>,
    user: User,
    m: MarketConditions,
    current_age: int,
    expense: int,
    fuel: nat,
)
    requires
        user.periods_in_year >= 1,
        assets_ok(assets0, m, user.periods_in_year as int),
    ensures
        !(search_spec(assets0, incomes, user, m, current_age, expense, fuel) is Diverged),
    decreases fuel,
{
    if fuel > 0 {
        let piy = user.periods_in_year as int;
        let total = total_periods_spec(user.max_age as int, current_age, piy);
        lemma_sim_steps_ok(
            assets0,
            incomes,
            user,
            m,
            current_age,
            expense,
            total as nat,
            total as nat,
        );
        let fin = sim_steps(
            assets0,
            incomes,
            user,
            m,
            current_age,
            expense,
            total as nat,
            total as nat,
        );
        assert forall|i: int| 0 <= i < fin.0.len() implies (#[trigger] fin.0[i]).value >= 0 by {
            assert(period_rate_spec(fin.0[i].config, m, piy) > -SCALE && fin.0[i].value >= 0);
        }
        lemma_leftover_nonneg(fin.0, current_age);
        let leftover = leftover_spec(fin.0, current_age);
        if leftover >= LEFTOVER_TOLERANCE {
            let next = next_candidate_spec(expense, leftover, total);
            lemma_search_never_diverges(assets0, incomes, user, m, current_age, next, (fuel - 1) as nat);
        }
    }
}

/// An equal copy of a list of valued assets.
pub fn duplicate_assets(v: &Vec<AssetWithValue>) -> (r: Vec<AssetWithValue>)
    ensures
        r@ == v@,
{
    let mut out: Vec<AssetWithValue> = Vec::new();
    let mut i: usize = 0;
    while i < v.len()
        invariant
            i <= v@.len(),
            out@ == v@.take(i as int),
        decreases v@.len() - i,
    {
        out.push((&v[i]).duplicate());
        proof {
            assert(v@.take(i + 1 as int) =~= v@.take(i as int).push(v@[i as int]));
        }
        i = i + 1;
    }
    proof {
        assert(v@.take(v@.len() as int) =~= v@);
    }
    out
}

} // verus!
