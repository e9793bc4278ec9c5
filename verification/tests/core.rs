use swono::asset::{AccountType, Asset, AssetWithValue};
use swono::config::{balance_by_name, Configuration};
use swono::fixed::{calculate_compound, calculate_principal, SCALE};
use swono::income::{Income, IncomeWithValue};
use swono::market::MarketConditions;
use swono::user::{age_from_days, User};

fn plain_asset(start_age: i64, end_age: i64, real_return: i64) -> Asset {
    Asset::new(
        String::from("acct"),
        AccountType::Stocks,
        real_return,
        start_age,
        end_age,
        0,
    )
}

fn plain_income(start_age: i64, end_age: i64, real_return: i64) -> Income {
    Income::new(
        String::from("pension"),
        AccountType::Income,
        real_return,
        start_age,
        end_age,
        0,
    )
}

fn monthly_user() -> User {
    User::new_full(
        String::from("u"),
        6,
        1960,
        100 * SCALE,
        0,
        SCALE,
        12,
        String::from("in.csv"),
    )
}

fn yearly_user(max_age: i64, yearly_expenses: i64) -> User {
    User::new_full(
        String::from("u"),
        6,
        1960,
        max_age,
        yearly_expenses,
        SCALE,
        1,
        String::from("in.csv"),
    )
}

#[test]
fn compound_zero_rate_is_identity() {
    assert_eq!(calculate_compound(123_456_789, 0, 0), 123_456_789);
    assert_eq!(calculate_compound(123_456_789, 0, 17), 123_456_789);
    assert_eq!(calculate_compound(-5_000_000, 0, 9), -5_000_000);
    assert_eq!(calculate_compound(0, 40_000, 30), 0);
}

#[test]
fn compound_exact_growth() {
    // 1.0 at 4% over one period: 1.04.
    assert_eq!(calculate_compound(SCALE, 40_000, 1), 1_040_000);
    // Two periods: 1.0816.
    assert_eq!(calculate_compound(SCALE, 40_000, 2), 1_081_600);
    // A negative rate shrinks: 1.0 at -50% over one period.
    assert_eq!(calculate_compound(SCALE, -500_000, 1), 500_000);
}

#[test]
fn principal_exact_discount() {
    // 1.04 discounted one period at 4% is 1.0 again.
    assert_eq!(calculate_principal(1_040_000, 40_000, 1), SCALE);
    assert_eq!(calculate_principal(123_456_789, 0, 25), 123_456_789);
    assert_eq!(calculate_principal(SCALE, 0, 0), SCALE);
}

#[test]
fn principal_compound_round_trip_zero_rate() {
    let p0 = 777_000_000;
    let c = calculate_compound(p0, 0, 40);
    assert_eq!(calculate_principal(c, 0, 40), p0);
    let c0 = calculate_compound(p0, 123_456, 0);
    assert_eq!(calculate_principal(c0, 123_456, 0), p0);
}

#[test]
fn round_trip_never_overstates_principal() {
    // At a non-negative rate every rounding step rounds toward zero, so
    // the round trip can lose the low digits but never invent value.
    for &p0 in &[1, 999, SCALE, 123_456_789, 100_000 * SCALE] {
        for &rate in &[0, 1, 40_000, 500_000] {
            for &n in &[0usize, 1, 2, 10, 120] {
                let back = calculate_principal(calculate_compound(p0, rate, n), rate, n);
                assert!(back <= p0, "p0={p0} rate={rate} n={n} back={back}");
            }
        }
    }
}

#[test]
fn asset_accessibility_window_is_inclusive() {
    let a = plain_asset(62 * SCALE, 100 * SCALE, 40_000);
    assert!(!a.is_accessable(62 * SCALE - 1));
    assert!(a.is_accessable(62 * SCALE));
    assert!(a.is_accessable(80 * SCALE));
    assert!(a.is_accessable(100 * SCALE));
    assert!(!a.is_accessable(100 * SCALE + 1));
}

#[test]
fn asset_accessors_return_fields() {
    let a = plain_asset(10 * SCALE, 90 * SCALE, 30_000);
    assert_eq!(a.name(), "acct");
    assert_eq!(a.start_age(), 10 * SCALE);
    assert_eq!(a.end_age(), 90 * SCALE);
    assert_eq!(a.real_return_yearly(), 30_000);
}

#[test]
fn asset_value_roundtrip() {
    let a = plain_asset(0, 120 * SCALE, 0);
    let mut awv = AssetWithValue::new(a, 55 * SCALE);
    assert_eq!(awv.value(), 55 * SCALE);
    assert_eq!(awv.set_value(7 * SCALE), 7 * SCALE);
    assert_eq!(awv.value(), 7 * SCALE);
    assert_eq!(awv.config().start_age(), 0);
}

#[test]
fn process_asset_untouched_when_guard_fails() {
    let user = monthly_user();
    let market = MarketConditions::new(20_000);
    // No balance.
    let empty = AssetWithValue::new(plain_asset(0, 120 * SCALE, 40_000), 0);
    assert_eq!(
        empty.process_asset(&user, &market, 70 * SCALE, 5, 1000 * SCALE),
        (0, 0, 1000 * SCALE)
    );
    // Not accessible yet.
    let locked = AssetWithValue::new(plain_asset(80 * SCALE, 120 * SCALE, 40_000), 50 * SCALE);
    assert_eq!(
        locked.process_asset(&user, &market, 70 * SCALE, 5, 1000 * SCALE),
        (50 * SCALE, 0, 1000 * SCALE)
    );
    // Nothing needed.
    let idle = AssetWithValue::new(plain_asset(0, 120 * SCALE, 40_000), 50 * SCALE);
    assert_eq!(idle.process_asset(&user, &market, 70 * SCALE, 5, 0), (50 * SCALE, 0, 0));
    assert_eq!(
        idle.process_asset(&user, &market, 70 * SCALE, 5, -3 * SCALE),
        (50 * SCALE, 0, -3 * SCALE)
    );
}

#[test]
fn process_asset_withdraws_present_value() {
    // Zero rates and period index zero: the principal equals the need.
    let user = yearly_user(100 * SCALE, 0);
    let market = MarketConditions::new(0);
    let awv = AssetWithValue::new(plain_asset(0, 120 * SCALE, 0), 100 * SCALE);
    let (balance, frozen, still) = awv.process_asset(&user, &market, 70 * SCALE, 0, 30 * SCALE);
    assert_eq!(balance, 70 * SCALE);
    assert_eq!(frozen, 30 * SCALE);
    assert_eq!(still, 0);
}

#[test]
fn process_asset_never_negative_and_frozen_capped() {
    // The need exceeds the balance: the balance is drained to zero, the
    // frozen part is capped at the balance, and the rest stays needed.
    let user = yearly_user(100 * SCALE, 0);
    let market = MarketConditions::new(0);
    let awv = AssetWithValue::new(plain_asset(0, 120 * SCALE, 0), 10 * SCALE);
    let (balance, frozen, still) = awv.process_asset(&user, &market, 70 * SCALE, 0, 30 * SCALE);
    assert_eq!(balance, 0);
    assert_eq!(frozen, 10 * SCALE);
    assert_eq!(still, 20 * SCALE);
    assert!(balance >= 0);
    assert!(frozen <= 10 * SCALE);
    assert!(still <= 30 * SCALE);
}

#[test]
fn income_window_excludes_end_age() {
    let user = yearly_user(100 * SCALE, 0);
    let iwv = IncomeWithValue::new(plain_income(65 * SCALE, 90 * SCALE, 0), 12 * SCALE);
    assert_eq!(iwv.compute_income(&user, 65 * SCALE - 1, 0), 0);
    assert_eq!(iwv.compute_income(&user, 65 * SCALE, 0), 12 * SCALE);
    assert_eq!(iwv.compute_income(&user, 89 * SCALE, 0), 12 * SCALE);
    assert_eq!(iwv.compute_income(&user, 90 * SCALE, 0), 0);
}

#[test]
fn income_zero_base_pays_nothing() {
    let user = yearly_user(100 * SCALE, 0);
    let iwv = IncomeWithValue::new(plain_income(0, 120 * SCALE, 50_000), 0);
    assert_eq!(iwv.compute_income(&user, 70 * SCALE, 3), 0);
}

#[test]
fn income_monthly_base_grows_with_period_index() {
    // 12.0 yearly at 12 periods: 1.0 per period; zero growth keeps it.
    let user = monthly_user();
    let iwv = IncomeWithValue::new(plain_income(0, 120 * SCALE, 0), 12 * SCALE);
    assert_eq!(iwv.compute_income(&user, 70 * SCALE, 0), SCALE);
    assert_eq!(iwv.compute_income(&user, 70 * SCALE, 7), SCALE);
}

#[test]
fn age_from_days_is_days_over_365() {
    assert_eq!(age_from_days(0), 0);
    assert_eq!(age_from_days(365), SCALE);
    assert_eq!(age_from_days(730), 2 * SCALE);
    // 100 days: 0.273972 years, truncated.
    assert_eq!(age_from_days(100), 273_972);
}

#[test]
fn user_defaults_match() {
    let u = User::new(String::from("Leher"), 12, 1975);
    assert_eq!(u.name(), "Leher");
    assert_eq!(u.max_age(), 100 * SCALE);
    assert_eq!(u.yearly_expenses(), 0);
    assert_eq!(u.buffer(), SCALE);
    assert_eq!(u.periods_in_year(), 12);
    assert_eq!(u.input_file(), "Income_Assets.csv");
}

#[test]
fn configuration_carries_its_parts() {
    let cfg = Configuration::new(
        String::from("plan"),
        monthly_user(),
        MarketConditions::new(20_000),
        vec![plain_asset(0, 120 * SCALE, 40_000)],
        vec![plain_income(65 * SCALE, 90 * SCALE, 0)],
    );
    assert_eq!(cfg.user().periods_in_year(), 12);
    assert_eq!(cfg.market().inflation_yearly(), 20_000);
    assert_eq!(cfg.assets().len(), 1);
    assert_eq!(cfg.assets()[0].real_return_yearly(), 40_000);
    assert_eq!(cfg.income().len(), 1);
    assert_eq!(cfg.income()[0].name(), "pension");
}

#[test]
fn balance_lookup_finds_first_matching_column() {
    let header = vec![
        String::from("cash"),
        String::from("stocks"),
        String::from("cash"),
    ];
    let values = vec![5 * SCALE, 7 * SCALE, 9 * SCALE];
    assert_eq!(balance_by_name(&header, &values, &String::from("stocks")), 7 * SCALE);
    assert_eq!(balance_by_name(&header, &values, &String::from("cash")), 5 * SCALE);
    // A missing column counts as an empty account.
    assert_eq!(balance_by_name(&header, &values, &String::from("bonds")), 0);
    // So does a data row too short to reach the column.
    let short = vec![5 * SCALE];
    assert_eq!(balance_by_name(&header, &short, &String::from("stocks")), 0);
}

#[test]
fn user_horizon_counts_whole_years_of_periods() {
    let u = monthly_user();
    assert_eq!(u.length_of_retirement(90 * SCALE), 10 * SCALE);
    assert_eq!(u.total_periods_of_retirement(90 * SCALE), 120);
    // A fractional year is floored away.
    assert_eq!(u.total_periods_of_retirement(90 * SCALE + SCALE / 2), 108);
    // Past the planning limit: no periods.
    assert_eq!(u.total_periods_of_retirement(101 * SCALE), 0);
}
