use swono::asset::{AccountType, Asset, AssetWithValue};
use swono::fixed::SCALE;
use swono::income::{Income, IncomeWithValue};
use swono::market::MarketConditions;
use swono::sim::{run_search, run_simulation, sort_assets, SearchOutcome};
use swono::user::User;

fn named_asset(name: &str, start_age: i64, end_age: i64, real_return: i64) -> Asset {
    Asset::new(
        String::from(name),
        AccountType::Stocks,
        real_return,
        start_age,
        end_age,
        0,
    )
}

fn yearly_user(max_age: i64, yearly_expenses: i64) -> User {
    User::new_full(
        String::from("u"),
        6,
        1960,
        max_age,
        yearly_expenses,
        SCALE,
        1,
        String::from("in.csv"),
    )
}

#[test]
fn sort_orders_descending_by_priority() {
    let list = vec![
        AssetWithValue::new(named_asset("early_low", 60 * SCALE, 120 * SCALE, 10_000), SCALE),
        AssetWithValue::new(named_asset("late", 70 * SCALE, 120 * SCALE, 10_000), SCALE),
        AssetWithValue::new(named_asset("early_high", 60 * SCALE, 120 * SCALE, 50_000), SCALE),
    ];
    let sorted = sort_assets(&list);
    assert_eq!(sorted[0].config().name(), "late");
    assert_eq!(sorted[1].config().name(), "early_high");
    assert_eq!(sorted[2].config().name(), "early_low");
}

#[test]
fn sort_ties_keep_first_come_order() {
    let list = vec![
        AssetWithValue::new(named_asset("first", 60 * SCALE, 120 * SCALE, 10_000), SCALE),
        AssetWithValue::new(named_asset("second", 60 * SCALE, 120 * SCALE, 10_000), SCALE),
    ];
    let sorted = sort_assets(&list);
    assert_eq!(sorted[0].config().name(), "first");
    assert_eq!(sorted[1].config().name(), "second");
}

#[test]
fn simulation_is_deterministic() {
    let user = yearly_user(70 * SCALE, 5_000 * SCALE);
    let market = MarketConditions::new(20_000);
    let assets = vec![AssetWithValue::new(
        named_asset("nest_egg", 0, 120 * SCALE, 40_000),
        100_000 * SCALE,
    )];
    let incomes: Vec<IncomeWithValue> = Vec::new();
    let r1 = run_simulation(&incomes, &assets, &user, &market, 60 * SCALE, 5_000 * SCALE);
    let r2 = run_simulation(&incomes, &assets, &user, &market, 60 * SCALE, 5_000 * SCALE);
    assert_eq!(r1.0, r2.0);
    assert_eq!(r1.1, r2.1);
    assert_eq!(r1.3, r2.3);
    assert_eq!(r1.2.len(), r2.2.len());
    for i in 0..r1.2.len() {
        assert_eq!(r1.2[i].value(), r2.2[i].value());
    }
}

#[test]
fn simulation_runs_periods_descending() {
    let user = yearly_user(70 * SCALE, 0);
    let market = MarketConditions::new(0);
    let assets = vec![AssetWithValue::new(
        named_asset("nest_egg", 0, 120 * SCALE, 0),
        100_000 * SCALE,
    )];
    let incomes: Vec<IncomeWithValue> = Vec::new();
    let (_, _, _, ledger) = run_simulation(&incomes, &assets, &user, &market, 60 * SCALE, 1_000 * SCALE);
    assert_eq!(ledger.len(), 10);
    for (i, row) in ledger.iter().enumerate() {
        assert_eq!(row.period, 9 - i);
    }
}

#[test]
fn search_converges_exactly_at_zero_rates() {
    // Flat rates make every number exact: a 100000 balance over 10 yearly
    // periods sustains an expense of 10000, found in one raise from the
    // seed of 1000 (leftover 90000, step 90000/10).
    let user = yearly_user(70 * SCALE, 5_000 * SCALE);
    let market = MarketConditions::new(0);
    let assets = vec![AssetWithValue::new(
        named_asset("nest_egg", 0, 120 * SCALE, 0),
        100_000 * SCALE,
    )];
    let incomes: Vec<IncomeWithValue> = Vec::new();
    match run_search(&incomes, &assets, &user, &market, 60 * SCALE, 100) {
        SearchOutcome::Converged { expense, leftover, withdrawal_rate, target_met, ledger, .. } => {
            assert_eq!(expense, 10_000 * SCALE);
            assert_eq!(leftover, 0);
            assert_eq!(withdrawal_rate, Some(100_000));
            assert!(target_met);
            assert_eq!(ledger.len(), 10);
        },
        _ => panic!("expected convergence"),
    }
}

#[test]
fn search_single_asset_scenario_converges() {
    // One asset accessible throughout, 4% real return, 2% inflation,
    // yearly periods, a ten-year horizon: the search must terminate with
    // a bounded number of raises and report the implied withdrawal rate.
    let user = yearly_user(70 * SCALE, 5_000 * SCALE);
    let market = MarketConditions::new(20_000);
    let assets = vec![AssetWithValue::new(
        named_asset("nest_egg", 0, 120 * SCALE, 40_000),
        100_000 * SCALE,
    )];
    let incomes: Vec<IncomeWithValue> = Vec::new();
    match run_search(&incomes, &assets, &user, &market, 60 * SCALE, 1_000) {
        SearchOutcome::Converged { expense, leftover, withdrawal_rate, ledger, .. } => {
            assert!(expense >= 1_000 * SCALE);
            assert!((0..100 * SCALE).contains(&leftover));
            assert!(withdrawal_rate.is_some());
            assert_eq!(ledger.len(), 10);
            // The cumulative frozen total never falls from row to row.
            for i in 1..ledger.len() {
                assert!(ledger[i].total_assets >= ledger[i - 1].total_assets);
            }
        },
        _ => panic!("expected convergence"),
    }
}

#[test]
fn income_covering_costs_leaves_assets_untouched() {
    // The income stream pays 10000 per period against a 5000 cost: the
    // asset ends the run with its starting balance.
    let user = yearly_user(70 * SCALE, 5_000 * SCALE);
    let market = MarketConditions::new(0);
    let assets = vec![AssetWithValue::new(
        named_asset("nest_egg", 0, 120 * SCALE, 40_000),
        100_000 * SCALE,
    )];
    let incomes = vec![IncomeWithValue::new(
        Income::new(String::from("pension"), AccountType::Income, 0, 0, 120 * SCALE, 0),
        10_000 * SCALE,
    )];
    let (need, _, assets_left, ledger) =
        run_simulation(&incomes, &assets, &user, &market, 60 * SCALE, 5_000 * SCALE);
    assert_eq!(assets_left.len(), 1);
    assert_eq!(assets_left[0].value(), 100_000 * SCALE);
    assert!(need <= 0);
    for row in &ledger {
        assert_eq!(row.income, 10_000 * SCALE);
        assert_eq!(row.withdrawal, 0);
        assert_eq!(row.total_assets, 0);
    }
}

#[test]
fn never_accessible_asset_is_never_touched() {
    // The window opens only past every age the horizon reaches: the
    // balance survives any need, and counts for nothing in the leftover.
    let user = yearly_user(70 * SCALE, 50_000 * SCALE);
    let market = MarketConditions::new(0);
    let assets = vec![AssetWithValue::new(
        named_asset("locked", 200 * SCALE, 250 * SCALE, 0),
        77_000 * SCALE,
    )];
    let incomes: Vec<IncomeWithValue> = Vec::new();
    let (need, _, assets_left, _) =
        run_simulation(&incomes, &assets, &user, &market, 60 * SCALE, 50_000 * SCALE);
    assert_eq!(assets_left[0].value(), 77_000 * SCALE);
    assert!(need > 0);
    // Excluded from the leftover, so the search stops at the seed.
    match run_search(&incomes, &assets, &user, &market, 60 * SCALE, 10) {
        SearchOutcome::Converged { expense, leftover, .. } => {
            assert_eq!(expense, 1_000 * SCALE);
            assert_eq!(leftover, 0);
        },
        _ => panic!("expected convergence"),
    }
}

#[test]
fn search_without_fuel_reports_no_convergence() {
    let user = yearly_user(70 * SCALE, 0);
    let market = MarketConditions::new(0);
    let assets = vec![AssetWithValue::new(
        named_asset("nest_egg", 0, 120 * SCALE, 0),
        100_000 * SCALE,
    )];
    let incomes: Vec<IncomeWithValue> = Vec::new();
    match run_search(&incomes, &assets, &user, &market, 60 * SCALE, 0) {
        SearchOutcome::NotConverged { expense } => assert_eq!(expense, 1_000 * SCALE),
        _ => panic!("expected the bound to run out"),
    }
}

#[test]
fn ledger_row_of_final_period_matches_hand_computation() {
    // Zero rates, one yearly period of horizon: the single row is exact.
    let user = yearly_user(61 * SCALE, 0);
    let market = MarketConditions::new(0);
    let assets = vec![AssetWithValue::new(
        named_asset("nest_egg", 0, 120 * SCALE, 0),
        9_000 * SCALE,
    )];
    let incomes: Vec<IncomeWithValue> = Vec::new();
    let (need, revenue, assets_left, ledger) =
        run_simulation(&incomes, &assets, &user, &market, 60 * SCALE, 4_000 * SCALE);
    assert_eq!(ledger.len(), 1);
    let row = &ledger[0];
    assert_eq!(row.period, 0);
    assert_eq!(row.age, 60 * SCALE);
    assert_eq!(row.expenses, 4_000 * SCALE);
    assert_eq!(row.income, 0);
    assert_eq!(row.withdrawal, 4_000 * SCALE);
    assert_eq!(row.total_revenue, 4_000 * SCALE);
    assert_eq!(row.total_assets, 4_000 * SCALE);
    assert_eq!(need, 0);
    assert_eq!(revenue, 4_000 * SCALE);
    assert_eq!(assets_left[0].value(), 5_000 * SCALE);
}
