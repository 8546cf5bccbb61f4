use acb::portfolio::affiliate::Affiliate;
use acb::portfolio::bookkeeping::delta_list::txs_to_delta_list;
use acb::portfolio::currency::Currency;
use acb::portfolio::summary::make_summary_txs_as_of;
use acb::portfolio::tx::{CsvTx, SFLInput, Tx, TxAction as A};
use acb::portfolio::txdelta::TxDelta;
use acb::util::date::Date;
use acb::util::decimal::{Dec, LessEqualZeroDecimal};
use acb::util::math::maybe_round_to_effective_cent;

fn d(s: &str) -> Dec {
    Dec::parse(s).unwrap()
}

fn doy_date(year: i32, day: i64) -> Date {
    Date::from_calendar_date(year, 1, 1).unwrap().saturating_add_days(day)
}

/// The memo of an automatic superficial loss adjustment starts so.
const AUTO_SFLA_MEMO: &str = "Automatic SfL ACB adjustment";

/// A test transaction settling on day `s_doy` of `s_yr` (traded two days
/// before, unless `same_day`).
struct T {
    s_yr: i32,
    s_doy: i64,
    same_day: bool,
    act: A,
    shares: Option<Dec>,
    price: Option<Dec>,
    comm: Option<Dec>,
    af: &'static str,
    sfl: Option<SFLInput>,
    memo: String,
}

fn t(s_yr: i32, s_doy: i64, act: A, shares: &str, price: &str) -> T {
    T {
        s_yr,
        s_doy,
        same_day: false,
        act,
        shares: Some(d(shares)),
        price: Some(d(price)),
        comm: None,
        af: "",
        sfl: None,
        memo: String::new(),
    }
}

impl T {
    fn comm(mut self, c: &str) -> T {
        self.comm = Some(d(c));
        self
    }

    fn af(mut self, af: &'static str) -> T {
        self.af = af;
        self
    }

    fn sfl(mut self, loss: &str) -> T {
        self.sfl = Some(SFLInput {
            superficial_loss: LessEqualZeroDecimal::try_from(d(loss)).unwrap(),
            force: false,
        });
        self
    }

    fn x(self) -> Tx {
        let settle = doy_date(self.s_yr, self.s_doy);
        let trade = if self.same_day { settle } else { settle.saturating_add_days(-2) };
        let mut c = CsvTx::default();
        c.security = Some("FOO".to_string());
        c.trade_date = Some(trade);
        c.settlement_date = Some(settle);
        c.action = Some(self.act);
        c.shares = self.shares;
        c.amount_per_share = self.price;
        c.commission = self.comm;
        c.tx_currency = Some(Currency::cad());
        c.tx_curr_to_local_exchange_rate = Some(d("1"));
        c.memo = Some(self.memo);
        c.affiliate = Some(Affiliate::from_strep(self.af));
        c.specified_superficial_loss = self.sfl;
        Tx::try_from(c).unwrap()
    }
}

/// A simple summary buy on the given day.
fn simple_sum(year: i32, doy: i64, shares: &str, amount: Dec, af: &'static str) -> Tx {
    T {
        same_day: true,
        price: Some(amount),
        memo: "Summary".to_string(),
        af,
        ..t(year, doy, A::Buy, shares, "0")
    }
    .x()
}

/// The base buy of an annual summary.
fn sum_base_buy(year: i32, shares: &str, amount: Dec, af: &'static str) -> Tx {
    T {
        same_day: true,
        price: Some(amount),
        memo: "Summary base (buy)".to_string(),
        af,
        ..t(year, 0, A::Buy, shares, "0")
    }
    .x()
}

/// The gain (or loss) summary sale of one year.
fn sum_gains(year: i32, acb_per_sh: Dec, gain: Dec, af: &'static str) -> Tx {
    let (amount, commission) = if !gain.is_negative() {
        (acb_per_sh.checked_add(&gain).unwrap(), d("0"))
    } else {
        (acb_per_sh, gain.neg())
    };
    T {
        same_day: true,
        price: Some(amount),
        comm: Some(commission),
        memo: format!("{} gain summary (sell)", year),
        af,
        ..t(year, 0, A::Sell, "1", "0")
    }
    .x()
}

/// An automatic superficial loss adjustment (its memo is matched by prefix).
fn sfla(year: i32, doy: i64, amount: &str) -> Tx {
    T { memo: AUTO_SFLA_MEMO.to_string(), ..t(year, doy, A::Sfla, "1", amount) }.x()
}

fn deltas_of(txs: &Vec<Tx>) -> Vec<TxDelta> {
    txs_to_delta_list(txs).0.unwrap()
}

fn summarize(latest: Date, txs: &Vec<Tx>, split_annual: bool) -> (Vec<Tx>, Vec<String>) {
    let deltas = deltas_of(txs);
    // Far from the summary date, so that it is not too recent.
    make_summary_txs_as_of(latest, &deltas, split_annual, doy_date(3000, 1)).unwrap()
}

/// Compares the summary with the expected transactions. Where the counts
/// differ, the expectation stands for no transactions at all.
fn validate_txs(exp: &Vec<Tx>, actual: &Vec<Tx>) {
    if exp.len() != actual.len() {
        assert!(actual.is_empty(), "expected {:#?}\nactual {:#?}", exp, actual);
        return;
    }
    for (e, a) in exp.iter().zip(actual.iter()) {
        let mut e = e.clone_tx();
        if e.memo == AUTO_SFLA_MEMO {
            assert!(a.memo.starts_with(AUTO_SFLA_MEMO), "{}", a.memo);
            e.memo = a.memo.clone();
        }
        assert_eq!(&e, a);
    }
}

#[test]
fn test_summary_basic() {
    let latest = doy_date(2022, -1);

    // TEST: simple one tx to one summary
    let txs = vec![t(2021, 4, A::Buy, "10", "1").comm("2").x()];
    let exp = vec![simple_sum(2021, 4, "10", d("1.2"), "")];
    let (sum, warnings) = summarize(latest, &txs, false);
    assert!(warnings.is_empty());
    validate_txs(&exp, &sum);

    // TEST: nothing at all
    let (sum, warnings) = summarize(latest, &vec![], false);
    assert_eq!(warnings.len(), 1);
    validate_txs(&vec![], &sum);

    // TEST: only after summary period
    let txs = vec![t(2022, 4, A::Buy, "10", "1").comm("2").x()];
    let (sum, warnings) = summarize(latest, &txs, false);
    assert_eq!(warnings.len(), 1);
    validate_txs(&txs, &sum);

    // TEST: only after summary period, but there is a close superficial loss
    let txs = vec![
        t(2022, 4, A::Buy, "10", "1").comm("2").x(),
        t(2022, 41, A::Sell, "5", "0.2").x(),
    ];
    let (sum, warnings) = summarize(latest, &txs, false);
    assert_eq!(warnings.len(), 1);
    validate_txs(&txs, &sum);

    // TEST: only after summary period, but there is a further superficial loss
    let txs = vec![
        t(2022, 40, A::Buy, "10", "1").comm("2").x(),
        t(2022, 41, A::Sell, "5", "0.2").x(),
    ];
    let (sum, warnings) = summarize(latest, &txs, false);
    assert_eq!(warnings.len(), 1);
    validate_txs(&txs, &sum);

    // TEST: only before period, and there are terminating superficial losses
    let txs = vec![
        t(2022, -2, A::Buy, "10", "1").comm("2").x(),
        t(2022, -1, A::Sell, "2", "0.2").x(),
    ];
    let exp = vec![simple_sum(2022, -1, "8", d("1.45"), "")];
    let (sum, warnings) = summarize(latest, &txs, false);
    assert!(warnings.is_empty());
    validate_txs(&exp, &sum);

    // TEST: present [ SELL ... 2 days || SFL, BUY ] past
    let txs = vec![
        t(2022, -2, A::Buy, "10", "1").comm("2").x(),
        t(2022, -1, A::Sell, "2", "0.2").x(),
        t(2022, 2, A::Sell, "2", "2").x(),
    ];
    let exp = vec![simple_sum(2022, -1, "8", d("1.45"), "")];
    let (sum, warnings) = summarize(latest, &txs, false);
    assert!(warnings.is_empty());
    validate_txs(&exp, &sum);

    // TEST: present [ SFL ... 30 days || SELL(+), BUY ] past
    let txs = vec![
        t(2022, -2, A::Buy, "10", "1").comm("2").x(),
        t(2022, -1, A::Sell, "2", "2").x(),
        t(2022, 30, A::Sell, "2", "0.2").x(),
        t(2022, 31, A::Buy, "1", "2").comm("2").x(),
    ];
    let exp = vec![simple_sum(2022, -1, "8", d("1.2"), "")];
    let (sum, warnings) = summarize(latest, &txs, false);
    assert!(warnings.is_empty());
    validate_txs(&exp, &sum);

    // TEST: present [ SFL ... 29 days || SELL(+), 1 day...  BUY ] past
    let txs = vec![
        t(2022, -2, A::Buy, "10", "1").comm("2").x(),
        t(2022, -1, A::Sell, "2", "2").x(),
        t(2022, 29, A::Sell, "2", "0.2").x(),
        t(2022, 31, A::Buy, "1", "2").comm("2").x(),
    ];
    let exp = vec![simple_sum(2022, -2, "10", d("1.2"), ""), t(2022, -1, A::Sell, "2", "2").x()];
    let (sum, warnings) = summarize(latest, &txs, false);
    assert_eq!(warnings.len(), 1);
    validate_txs(&exp, &sum);

    // TEST: present [ SFL ... 29 days || SELL(+), 0 days...  BUY ] past
    let txs = vec![
        t(2022, -1, A::Buy, "10", "1").comm("2").x(),
        t(2022, -1, A::Sell, "2", "2").x(),
        t(2022, 29, A::Sell, "2", "0.2").x(),
        t(2022, 31, A::Buy, "1", "2").comm("2").x(),
    ];
    let exp = vec![
        t(2022, -1, A::Buy, "10", "1").comm("2").x(),
        t(2022, -1, A::Sell, "2", "2").x(),
    ];
    let (sum, warnings) = summarize(latest, &txs, false);
    assert_eq!(warnings.len(), 1);
    validate_txs(&exp, &sum);

    // TEST: present [ SFL ... 29 days || SFL, 29 days... BUY, 1 day... BUY ] past
    let txs = vec![
        t(2022, -32, A::Buy, "8", "1").comm("2").x(),
        t(2022, -31, A::Buy, "2", "1").comm("2").x(),
        t(2022, -1, A::Sell, "2", "0.2").x(),
        t(2022, 29, A::Sell, "2", "0.2").x(),
        t(2022, 31, A::Buy, "1", "2").comm("2").x(),
    ];
    let exp = vec![
        simple_sum(2022, -32, "8", d("1.25"), ""),
        t(2022, -31, A::Buy, "2", "1").comm("2").x(),
        t(2022, -1, A::Sell, "2", "0.2").sfl("-2.4").x(),
        sfla(2022, -1, "2.4"),
    ];
    let (sum, warnings) = summarize(latest, &txs, false);
    assert_eq!(warnings.len(), 1);
    validate_txs(&exp, &sum);

    // TEST: present [ SFL ... 29 days || <mix of SFLs, BUYs> ] past
    let txs = vec![
        t(2022, -71, A::Buy, "10", "1").comm("2").x(),
        t(2022, -70, A::Sell, "2", "0.2").x(),
        t(2022, -45, A::Buy, "8", "1").comm("2").x(),
        t(2022, -31, A::Buy, "2", "1").comm("2").x(),
        t(2022, -15, A::Sell, "2", "0.2").x(),
        t(2022, -1, A::Sell, "2", "0.2").x(),
        t(2022, 29, A::Sell, "2", "0.2").x(),
        t(2022, 31, A::Buy, "1", "2").comm("2").x(),
    ];
    let exp = vec![
        simple_sum(2022, -70, "8", d("1.45"), ""),
        t(2022, -45, A::Buy, "8", "1").comm("2").x(),
        t(2022, -31, A::Buy, "2", "1").comm("2").x(),
        t(2022, -15, A::Sell, "2", "0.2").sfl("-2.4444444444444444444444444444").x(),
        sfla(2022, -15, "2.4444444444444444444444444444"),
        t(2022, -1, A::Sell, "2", "0.2").sfl("-2.75").x(),
        sfla(2022, -1, "2.75"),
    ];
    let (sum, warnings) = summarize(latest, &txs, false);
    assert_eq!(warnings.len(), 1);
    validate_txs(&exp, &sum);

    // TEST: before and after: present [ SFL ... 25 days || ... 5 days, SFL, BUY ] past
    let txs = vec![
        t(2022, -6, A::Buy, "10", "1").comm("2").x(),
        t(2022, -5, A::Sell, "2", "0.2").x(),
        t(2022, 26, A::Sell, "2", "0.2").x(),
        t(2022, 31, A::Buy, "1", "2").comm("2").x(),
    ];
    let exp = vec![simple_sum(2022, -5, "8", d("1.45"), "")];
    let (sum, warnings) = summarize(latest, &txs, false);
    assert!(warnings.is_empty());
    validate_txs(&exp, &sum);

    // TEST: before and after: present [ SFL ... 2 days || BUY, SFL ... 20 days, BUY ... 10 days, BUY ] past
    let txs = vec![
        t(2022, -34, A::Buy, "1", "1").comm("1").x(),
        t(2022, -33, A::Buy, "9", "1").comm("1").x(),
        t(2022, -20, A::Buy, "4", "1").comm("2").x(),
        t(2022, -2, A::Sell, "2", "0.2").x(),
        t(2022, -1, A::Buy, "2", "0.2").comm("2").x(),
        t(2022, 2, A::Sell, "2", "0.2").x(),
        t(2022, 3, A::Buy, "1", "2").comm("2").x(),
    ];
    let exp = vec![
        simple_sum(2022, -33, "10", d("1.2"), ""),
        t(2022, -20, A::Buy, "4", "1").comm("2").x(),
        t(2022, -2, A::Sell, "2", "0.2").sfl("-2.1714285714285714285714285714").x(),
        sfla(2022, -2, "2.1714285714285714285714285714"),
        t(2022, -1, A::Buy, "2", "0.2").comm("2").x(),
    ];
    let (sum, warnings) = summarize(latest, &txs, false);
    assert_eq!(warnings.len(), 1);
    validate_txs(&exp, &sum);

    // TEST: before and after: present [ SFL ... 30 days || BUY, SFL ... 20 days, BUY ... 10 days, BUY ] past
    let txs = vec![
        t(2022, -33, A::Buy, "10", "1").comm("2").x(),
        t(2022, -20, A::Buy, "10", "1").comm("2").x(),
        t(2022, -2, A::Sell, "2", "0.2").x(),
        t(2022, -1, A::Buy, "2", "0.6").comm("2").x(),
        t(2022, 30, A::Sell, "2", "0.2").x(),
        t(2022, 31, A::Buy, "1", "2").comm("2").x(),
    ];
    let exp = vec![simple_sum(2022, -1, "20", d("1.34"), "")];
    let (sum, warnings) = summarize(latest, &txs, false);
    assert!(warnings.is_empty());
    validate_txs(&exp, &sum);

    // TEST: No shares left in summary.
    let txs = vec![
        t(2021, 4, A::Buy, "10", "1").comm("2").x(),
        t(2021, 4, A::Sell, "10", "1").x(),
    ];
    let (sum, warnings) = summarize(latest, &txs, false);
    assert_eq!(warnings.len(), 1);
    validate_txs(&vec![], &sum);

    // TEST: No shares left in summarizable region
    let txs = vec![
        t(2022, -33, A::Buy, "10", "1").comm("2").x(),
        t(2022, -33, A::Sell, "10", "2").x(),
        t(2022, -20, A::Buy, "4", "1").comm("2").x(),
        t(2022, 2, A::Sell, "2", "0.2").x(),
        t(2022, 3, A::Buy, "1", "2").comm("2").x(),
    ];
    let exp = vec![t(2022, -20, A::Buy, "4", "1").comm("2").x()];
    let (sum, warnings) = summarize(latest, &txs, false);
    assert_eq!(warnings.len(), 2);
    validate_txs(&exp, &sum);
}

#[test]
fn test_summary_year_splits() {
    let txs = vec![
        t(2018, 30, A::Buy, "8", "1").comm("2").x(),
        t(2020, 30, A::Buy, "8", "1").comm("2").x(),
        t(2020, 31, A::Sell, "1", "2").x(),
        t(2020, 100, A::Sell, "1", "0.9").x(),
        t(2021, 100, A::Sell, "2", "0.2").x(),
        t(2022, -1, A::Sell, "2", "0.2").x(),
        t(2022, 29, A::Sell, "2", "0.2").x(),
        t(2022, 31, A::Buy, "1", "2").comm("2").x(),
    ];
    let summary_acb = d("1.25");
    let exp = vec![
        // shares = final shares (12) + N years with gains (2)
        sum_base_buy(2017, "14", summary_acb, ""),
        sum_gains(2020, summary_acb, d("0.4"), ""),
        sum_gains(2021, summary_acb, d("-2.1"), ""),
        t(2022, -1, A::Sell, "2", "0.2").x(),
    ];
    let (sum, warnings) = summarize(doy_date(2022, -1), &txs, true);
    assert_eq!(warnings.len(), 1);
    validate_txs(&exp, &sum);
}

#[test]
fn test_multi_affiliate_summary() {
    // Case: Test basic only buys for each affiliate.
    let txs = vec![
        t(2018, 30, A::Buy, "8", "1").comm("2").x(),
        t(2018, 31, A::Buy, "4", "1").comm("2").af("B").x(),
        t(2019, 31, A::Buy, "3", "1").comm("2").af("(R)").x(),
        t(2020, 29, A::Buy, "5", "1").comm("2").af("B").x(),
    ];
    let gez_10_o_8 = d("1.25");
    let gez_9_7_o_7 = d("1.3857142857142857142857142857");

    // Sorted by affiliate name to break ties.
    let exp = vec![
        sum_base_buy(2017, "9", d("1.4444444444444444444444444444"), "B"),
        sum_base_buy(2017, "8", gez_10_o_8, ""),
        // Registered accounts use 0 in the summary
        sum_base_buy(2017, "3", d("0"), "(R)"),
    ];
    let (sum, warnings) = summarize(doy_date(2022, -1), &txs, true);
    assert!(warnings.is_empty());
    validate_txs(&exp, &sum);

    // Case: capital gains in multiple years, different between affiliates.
    let txs = vec![
        t(2018, 30, A::Buy, "8", "1").comm("2").x(),
        t(2018, 31, A::Buy, "7", "1.1").comm("2").af("B").x(),
        t(2019, 31, A::Buy, "6", "1.2").comm("2").af("(R)").x(),
        t(2019, 5, A::Sell, "1", "2").x(),
        t(2019, 6, A::Sell, "1", "2.1").af("B").x(),
        t(2020, 7, A::Sell, "1", "2.2").af("(R)").x(),
        t(2021, 7, A::Sell, "1", "2.3").x(),
        t(2022, 7, A::Sell, "1", "2.4").af("B").x(),
        t(2022, 8, A::Sell, "1", "2.5").af("(R)").x(),
    ];
    let def_acb = gez_10_o_8;
    let b_acb = gez_9_7_o_7;
    let minus = |a: &str, b: Dec| d(a).checked_sub(&b).unwrap();
    let exp = vec![
        sum_base_buy(2017, "7", b_acb, "B"),
        sum_base_buy(2017, "8", def_acb, ""),
        // No gains on (R), so only the base
        sum_base_buy(2017, "4", d("0"), "(R)"),
        sum_gains(2019, b_acb, minus("2.1", b_acb), "B"),
        sum_gains(2019, def_acb, minus("2.0", def_acb), ""),
        sum_gains(2021, def_acb, minus("2.3", def_acb), ""),
        sum_gains(2022, b_acb, minus("2.4", b_acb), "B"),
    ];
    let (sum, warnings) = summarize(doy_date(2024, -1), &txs, true);
    assert!(warnings.is_empty());
    validate_txs(&exp, &sum);

    // Case: only some affiliates have gains (registered & non-registered)
    let txs = vec![
        t(2018, 30, A::Buy, "8", "1").comm("2").x(),
        t(2018, 31, A::Buy, "7", "1.1").comm("2").af("B").x(),
        t(2019, 31, A::Buy, "6", "1.2").comm("2").af("(R)").x(),
        t(2019, 5, A::Sell, "1", "2").x(),
    ];
    let exp = vec![
        sum_base_buy(2017, "7", b_acb, "B"),
        sum_base_buy(2017, "8", def_acb, ""),
        sum_base_buy(2017, "6", d("0"), "(R)"),
        sum_gains(2019, def_acb, minus("2.0", def_acb), ""),
    ];
    let (sum, warnings) = summarize(doy_date(2024, -1), &txs, true);
    assert!(warnings.is_empty());
    validate_txs(&exp, &sum);

    // Case: Simple summary, where some affiliates have sells
    let txs = vec![
        t(2018, 30, A::Buy, "8", "1").comm("2").x(),
        t(2018, 31, A::Buy, "7", "1.1").comm("2").af("B").x(),
        t(2019, 31, A::Buy, "6", "1.2").comm("2").af("(R)").x(),
        t(2019, 40, A::Buy, "5", "1.3").comm("2").af("B (R)").x(),
        t(2020, 5, A::Sell, "2", "2").af("B").x(),
        t(2020, 6, A::Sell, "3", "2").af("B (R)").x(),
    ];
    let exp = vec![
        simple_sum(2018, 30, "8", gez_10_o_8, ""),
        simple_sum(2019, 31, "6", d("0"), "(R)"),
        simple_sum(2020, 5, "5", gez_9_7_o_7, "B"),
        simple_sum(2020, 6, "2", d("0"), "B (R)"),
    ];
    let (sum, warnings) = summarize(doy_date(2024, -1), &txs, false);
    assert!(warnings.is_empty());
    validate_txs(&exp, &sum);

    // Case: Some affiliates net zero shares at the end
    let txs = vec![
        t(2018, 30, A::Buy, "8", "1").comm("2").x(),
        t(2018, 31, A::Buy, "7", "1.1").comm("2").af("B").x(),
        t(2019, 31, A::Buy, "6", "1.2").comm("2").af("(R)").x(),
        t(2019, 5, A::Sell, "7", "2").af("B").x(),
        t(2019, 5, A::Sell, "6", "2").af("(R)").x(),
    ];
    let b_gain = maybe_round_to_effective_cent(minus("2.0", b_acb).checked_mul(&d("7.0")).unwrap());
    let exp = vec![
        sum_base_buy(2017, "1", d("0"), "B"),
        sum_base_buy(2017, "8", d("1.25"), ""),
        sum_gains(2019, d("0"), b_gain, "B"),
    ];
    let (sum, warnings) = summarize(doy_date(2024, -1), &txs, true);
    assert_eq!(warnings.len(), 1);
    validate_txs(&exp, &sum);

    // Case: Superficial losses in one affiliate, and another affiliate with
    // no transactions before the summarizable range.
    let txs = vec![
        t(2018, 30, A::Buy, "8", "1").comm("2").x(),
        t(2018, 31, A::Buy, "7", "1.1").comm("2").af("B").x(),
        t(2020, 5, A::Sell, "2", "2").af("B").x(),
        t(2020, 101, A::Buy, "2", "1").af("B").x(),
        t(2020, 103, A::Buy, "3", "1").af("C").x(),
        t(2020, 105, A::Sell, "2", "0.9").sfl("-0.751020").af("B").x(),
    ];
    let exp = vec![
        simple_sum(2018, 30, "8", gez_10_o_8, ""),
        simple_sum(2020, 5, "5", gez_9_7_o_7, "B"),
        t(2020, 101, A::Buy, "2", "1").af("B").x(),
        t(2020, 103, A::Buy, "3", "1").af("C").x(),
    ];
    let (sum, warnings) = summarize(doy_date(2020, 104), &txs, false);
    assert_eq!(warnings.len(), 1);
    validate_txs(&exp, &sum);

    // Case: Superficial loss after summary period, and a registered affiliate
    let txs = vec![
        t(2018, 30, A::Buy, "8", "1").comm("2").x(),
        t(2018, 31, A::Buy, "7", "1.1").comm("2").af("(R)").x(),
        t(2020, 59, A::Sell, "2", "2").x(),
        t(2020, 60, A::Sell, "2", "1.1").comm("2").af("(R)").x(),
        t(2020, 102, A::Sell, "3", "1.1").comm("2").af("(R)").x(),
        t(2020, 103, A::Buy, "3", "2").x(),
        t(2020, 105, A::Sell, "2", "0.9").sfl("-1.2").x(),
    ];
    let exp = vec![
        simple_sum(2020, 59, "6", gez_10_o_8, ""),
        simple_sum(2020, 60, "5", d("0"), "(R)"),
        t(2020, 102, A::Sell, "3", "1.1").comm("2").af("(R)").x(),
        t(2020, 103, A::Buy, "3", "2").x(),
    ];
    let (sum, warnings) = summarize(doy_date(2020, 104), &txs, false);
    assert_eq!(warnings.len(), 1);
    validate_txs(&exp, &sum);

    // Case: as above, with registered sales at least every 30 days back (the
    // summarizable period is not pushed back by them).
    let txs = vec![
        t(2020, 50, A::Buy, "7", "1.1").comm("2").af("(R)").x(),
        t(2020, 51, A::Buy, "8", "1").comm("2").x(),
        t(2020, 59, A::Sell, "2", "2").x(),
        t(2020, 60, A::Sell, "1", "1.1").comm("2").af("(R)").x(),
        t(2020, 70, A::Sell, "1", "1.1").comm("2").af("(R)").x(),
        t(2020, 85, A::Sell, "3", "1.1").comm("2").af("(R)").x(),
        t(2020, 103, A::Buy, "3", "2").x(),
        t(2020, 105, A::Sell, "2", "0.9").sfl("-1.2").x(),
    ];
    let exp = vec![
        simple_sum(2020, 59, "6", gez_10_o_8, ""),
        simple_sum(2020, 70, "5", d("0"), "(R)"),
        t(2020, 85, A::Sell, "3", "1.1").comm("2").af("(R)").x(),
        t(2020, 103, A::Buy, "3", "2").x(),
    ];
    let (sum, warnings) = summarize(doy_date(2020, 104), &txs, false);
    assert_eq!(warnings.len(), 1);
    validate_txs(&exp, &sum);

    // Case: Only registered sales after summary period; they are not
    // superficial losses.
    let txs = vec![
        t(2018, 30, A::Buy, "8", "1").comm("2").x(),
        t(2018, 31, A::Buy, "7", "1.1").comm("2").af("(R)").x(),
        t(2020, 59, A::Sell, "2", "2").x(),
        t(2020, 60, A::Sell, "2", "1.1").comm("2").af("(R)").x(),
        t(2020, 102, A::Sell, "3", "1.1").comm("2").af("(R)").x(),
        t(2020, 103, A::Buy, "3", "2").x(),
        t(2020, 105, A::Sell, "2", "1.1").comm("2").af("(R)").x(),
    ];
    let exp = vec![
        simple_sum(2020, 102, "2", d("0"), "(R)"),
        simple_sum(2020, 103, "9", d("1.5"), ""),
    ];
    let (sum, warnings) = summarize(doy_date(2020, 104), &txs, false);
    assert!(warnings.is_empty());
    validate_txs(&exp, &sum);
}

#[test]
fn test_summary_too_recent_warning() {
    let txs = vec![t(2021, 4, A::Buy, "10", "1").comm("2").x()];
    let deltas = deltas_of(&txs);
    let (sum, warnings) =
        make_summary_txs_as_of(doy_date(2022, -1), &deltas, false, doy_date(2021, 20)).unwrap();
    validate_txs(&vec![simple_sum(2021, 4, "10", d("1.2"), "")], &sum);
    assert_eq!(warnings.len(), 1);
}
