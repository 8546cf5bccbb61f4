use acb::portfolio::affiliate::Affiliate;
use acb::portfolio::bookkeeping::delta_list::{delta_for_tx, txs_to_delta_list};
use acb::portfolio::bookkeeping::affiliate_map::{AffiliateDecMap, AffiliateSet};
use acb::portfolio::bookkeeping::portfolio_status::AffiliatePortfolioSecurityStatuses;
use acb::portfolio::bookkeeping::superficial_loss::{
    calc_superficial_loss_ratio, get_superficial_loss_info, MaybeSuperficialLossInfo,
    SflRatioResultResult, SuperficialLossInfo,
};
use acb::portfolio::currency::Currency;
use acb::portfolio::misc::{find_all_non_global_affiliates, split_txs_by_security};
use acb::portfolio::tx::{CsvTx, SFLInput, SplitRatio, Tx, TxAction as A, TxActionSpecifics};
use acb::portfolio::txdelta::{PortfolioSecurityStatus, TxDelta};
use acb::util::date::Date;
use acb::util::decimal::{Dec, GreaterEqualZeroDecimal, LessEqualZeroDecimal, PosDecimal};

fn dec(s: &str) -> Dec {
    Dec::parse(s).unwrap()
}

fn gez(s: &str) -> GreaterEqualZeroDecimal {
    GreaterEqualZeroDecimal::try_from(dec(s)).unwrap()
}

fn sgez(s: &str) -> Option<GreaterEqualZeroDecimal> {
    Some(gez(s))
}

fn sdec(s: &str) -> Option<Dec> {
    Some(dec(s))
}

fn lez(s: &str) -> LessEqualZeroDecimal {
    LessEqualZeroDecimal::try_from(dec(s)).unwrap()
}

fn default_sec() -> String {
    "FOO".to_string()
}

fn doy_date(year: i32, day: i64) -> Date {
    Date::from_calendar_date(year, 1, 1).unwrap().saturating_add_days(day)
}

fn mk_date(i: i32) -> Date {
    doy_date(2017, i as i64)
}

fn usd() -> Currency {
    Currency::usd()
}

fn cad() -> Currency {
    Currency::cad()
}

fn cadsfl(superficial_loss: LessEqualZeroDecimal, force: bool) -> Option<SFLInput> {
    Some(SFLInput { superficial_loss, force })
}

/// A test transaction: unset fields take the usual defaults.
struct TTx {
    t_day: i32,
    act: A,
    shares: Option<&'static str>,
    price: Option<&'static str>,
    t_amt: Option<&'static str>,
    comm: Option<&'static str>,
    curr: Option<Currency>,
    fx_rate: Option<&'static str>,
    comm_curr: Option<Currency>,
    comm_fx_rate: Option<&'static str>,
    af_name: Option<&'static str>,
    sfl: Option<SFLInput>,
    split: Option<SplitRatio>,
}

impl Default for TTx {
    fn default() -> Self {
        TTx {
            t_day: 0,
            act: A::Roc,
            shares: None,
            price: None,
            t_amt: None,
            comm: None,
            curr: None,
            fx_rate: None,
            comm_curr: None,
            comm_fx_rate: None,
            af_name: None,
            sfl: None,
            split: None,
        }
    }
}

impl TTx {
    fn x(self) -> Tx {
        let trade_date = mk_date(self.t_day);
        let settlement_date = trade_date.saturating_add_days(2);
        let mut c = CsvTx::default();
        c.security = Some(default_sec());
        c.trade_date = Some(trade_date);
        c.settlement_date = Some(settlement_date);
        c.action = Some(self.act);
        c.shares = self.shares.map(dec);
        c.amount_per_share = self.price.map(dec);
        c.total_amount = self.t_amt.map(dec);
        c.commission = self.comm.map(dec);
        c.tx_currency = Some(self.curr.unwrap_or(cad()));
        c.tx_curr_to_local_exchange_rate = Some(dec(self.fx_rate.unwrap_or("1")));
        c.commission_currency = self.comm_curr;
        c.commission_curr_to_local_exchange_rate = self.comm_fx_rate.map(dec);
        c.affiliate = Some(Affiliate::from_strep(self.af_name.unwrap_or("")));
        c.specified_superficial_loss = self.sfl;
        c.stock_split_ratio = self.split;
        Tx::try_from(c).unwrap()
    }
}

/// A test status: all shares default to the affiliate's shares, and an ACB
/// may be given per share.
#[derive(Default)]
struct TPSS {
    shares: Option<&'static str>,
    all_shares: Option<&'static str>,
    total_acb: Option<&'static str>,
    acb_per_sh: Option<&'static str>,
}

impl TPSS {
    fn x(&self) -> PortfolioSecurityStatus {
        let shares = gez(self.shares.unwrap_or("0"));
        let all = match self.all_shares {
            Some(a) => gez(a),
            None => shares,
        };
        let total_acb = match self.acb_per_sh {
            Some(aps) => Some(
                GreaterEqualZeroDecimal::try_from(dec(aps).checked_mul(&shares.get()).unwrap())
                    .unwrap(),
            ),
            None => self.total_acb.map(gez),
        };
        PortfolioSecurityStatus {
            security: default_sec(),
            share_balance: shares,
            all_affiliate_share_balance: all,
            total_acb,
        }
    }
}

#[derive(Default)]
struct TDt {
    post_st: TPSS,
    gain: Option<Dec>,
    sfl: Option<Dec>,
    potentially_over_applied_sfl: bool,
}

fn run_delta_for_tx(tx: Tx, pre: &PortfolioSecurityStatus) -> Result<(TxDelta, Option<Vec<Tx>>), String> {
    let mut statuses = AffiliatePortfolioSecurityStatuses::new(tx.security.clone(), None);
    let share_diff = GreaterEqualZeroDecimal::try_from(
        pre.all_affiliate_share_balance.get().checked_sub(&pre.share_balance.get()).unwrap(),
    )
    .unwrap();
    let dummy_af = Affiliate::from_strep("dummy(R)");
    statuses
        .try_set_latest_post_status(
            &dummy_af,
            PortfolioSecurityStatus {
                security: default_sec(),
                share_balance: share_diff,
                all_affiliate_share_balance: share_diff,
                total_acb: None,
            },
        )
        .unwrap();
    statuses.try_set_latest_post_status(&tx.affiliate, pre.clone_status()).unwrap();
    let txs = vec![tx];
    delta_for_tx(0, &txs, &statuses)
}

fn delta_for_tx_ok(tx: Tx, pre: &PortfolioSecurityStatus) -> TxDelta {
    run_delta_for_tx(tx, pre).unwrap().0
}

fn delta_for_tx_has_err(tx: Tx, pre: &PortfolioSecurityStatus) {
    run_delta_for_tx(tx, pre).unwrap_err();
}

fn validate_delta(delta: TxDelta, tdt: TDt) {
    assert_eq!(delta.post_status, tdt.post_st.x());
    assert_eq!(delta.capital_gain, tdt.gain);
    assert_eq!(delta.sfl.map(|s| s.superficial_loss), tdt.sfl);
}

fn txs_to_delta_list_no_err(txs: Vec<Tx>) -> Vec<TxDelta> {
    txs_to_delta_list(&txs).0.unwrap()
}

fn txs_to_delta_list_with_err(txs: Vec<Tx>) {
    txs_to_delta_list(&txs).0.unwrap_err();
}

fn validate_deltas(deltas: Vec<TxDelta>, exp: Vec<TDt>) {
    assert_eq!(deltas.len(), exp.len(), "Lengths must be equal: {:#?}", deltas);
    for (i, delta) in deltas.iter().enumerate() {
        let tdt = &exp[i];
        let post_st = tdt.post_st.x();
        assert_eq!(delta.post_status, post_st, "post status at {}", i);
        assert_eq!(delta.capital_gain, tdt.gain, "gain at {}", i);
        assert_eq!(delta.sfl.as_ref().map(|s| s.superficial_loss), tdt.sfl, "sfl at {}", i);
        assert_eq!(
            delta.sfl.as_ref().map(|s| s.potentially_over_applied).unwrap_or(false),
            tdt.potentially_over_applied_sfl,
            "over-applied at {}",
            i
        );
    }
}

fn tpss(shares: &'static str, total_acb: Option<&'static str>) -> TPSS {
    TPSS { shares: Some(shares), total_acb, ..TPSS::default() }
}

fn tpss_all(shares: &'static str, all: &'static str, total_acb: Option<&'static str>) -> TPSS {
    TPSS { shares: Some(shares), all_shares: Some(all), total_acb, ..TPSS::default() }
}

fn tdt(post_st: TPSS) -> TDt {
    TDt { post_st, ..TDt::default() }
}

fn tdt_g(post_st: TPSS, gain: &str) -> TDt {
    TDt { post_st, gain: sdec(gain), ..TDt::default() }
}

fn tdt_sfl(post_st: TPSS, gain: &str, sfl: &str) -> TDt {
    TDt { post_st, gain: sdec(gain), sfl: sdec(sfl), ..TDt::default() }
}

fn buy(t_day: i32, shares: &'static str, price: &'static str) -> TTx {
    TTx { t_day, act: A::Buy, shares: Some(shares), price: Some(price), ..TTx::default() }
}

fn sell(t_day: i32, shares: &'static str, price: &'static str) -> TTx {
    TTx { t_day, act: A::Sell, shares: Some(shares), price: Some(price), ..TTx::default() }
}

// MARK: portfolio status

#[test]
fn test_get_latest_for_affiliate_basic() {
    let default_af = Affiliate::default();
    let af_b = Affiliate::from_strep("B");

    let statuses = AffiliatePortfolioSecurityStatuses::new(default_sec(), None);
    assert!(statuses.get_latest_post_status_for_affiliate(&default_af).is_none());
    assert!(statuses.get_latest_post_status_for_affiliate(&af_b).is_none());

    let non_zero_init_status = tpss("12", Some("24")).x();
    let statuses =
        AffiliatePortfolioSecurityStatuses::new(default_sec(), Some(non_zero_init_status.clone_status()));
    let default_pss = statuses.get_latest_post_status_for_affiliate(&default_af);
    assert_eq!(default_pss.unwrap(), &non_zero_init_status);
    assert!(statuses.get_latest_post_status_for_affiliate(&af_b).is_none());
}

#[test]
fn test_get_latest() {
    let af_b = Affiliate::from_strep("B");

    let statuses = AffiliatePortfolioSecurityStatuses::new(default_sec(), None);
    assert_eq!(tpss("0", Some("0")).x(), statuses.get_latest_post_status());

    let non_zero_init_status = tpss("12", Some("24")).x();
    let statuses =
        AffiliatePortfolioSecurityStatuses::new(default_sec(), Some(non_zero_init_status.clone_status()));
    assert_eq!(tpss("12", Some("24")).x(), statuses.get_latest_post_status());

    let mut statuses = AffiliatePortfolioSecurityStatuses::new(default_sec(), None);
    statuses.try_set_latest_post_status(&af_b, tpss("2", Some("4")).x()).unwrap();
    assert_eq!(tpss("2", Some("4")).x(), statuses.get_latest_post_status());

    let mut statuses =
        AffiliatePortfolioSecurityStatuses::new(default_sec(), Some(non_zero_init_status.clone_status()));
    statuses.try_set_latest_post_status(&af_b, tpss_all("2", "14", Some("4")).x()).unwrap();
    assert_eq!(tpss_all("2", "14", Some("4")).x(), statuses.get_latest_post_status());
}

#[test]
#[should_panic]
fn test_panic_on_invalid_all_shares() {
    let af_b = Affiliate::from_strep("B");
    let non_zero_init_status = tpss("12", Some("24")).x();
    let mut statuses =
        AffiliatePortfolioSecurityStatuses::new(default_sec(), Some(non_zero_init_status));
    statuses.try_set_latest_post_status(&af_b, tpss_all("2", "2", Some("4")).x()).unwrap();
}

#[test]
fn test_get_next_pre_get_latest() {
    let default_af = Affiliate::default();
    let af_b = Affiliate::from_strep("B");

    let mut statuses = AffiliatePortfolioSecurityStatuses::new(default_sec(), None);
    statuses.try_set_latest_post_status(&af_b, tpss_all("2", "2", Some("4")).x()).unwrap();
    let default_status = statuses.get_next_pre_status(&default_af);
    assert_eq!(tpss_all("0", "2", Some("0")).x(), default_status);
    assert_eq!(tpss_all("2", "2", Some("4")).x(), statuses.get_latest_post_status());

    let non_zero_init_status = tpss("12", Some("24")).x();
    let mut statuses =
        AffiliatePortfolioSecurityStatuses::new(default_sec(), Some(non_zero_init_status));
    statuses.try_set_latest_post_status(&af_b, tpss_all("2", "14", Some("4")).x()).unwrap();
    let default_status = statuses.get_next_pre_status(&default_af);
    assert_eq!(tpss_all("12", "14", Some("24")).x(), default_status);
    assert_eq!(tpss_all("2", "14", Some("4")).x(), statuses.get_latest_post_status());
}

#[test]
fn test_full_use_case() {
    let default_af = Affiliate::default();
    let af_b = Affiliate::from_strep("B");

    // Buy 2 default
    let mut statuses = AffiliatePortfolioSecurityStatuses::new(default_sec(), None);
    assert_eq!(tpss_all("0", "0", Some("0")).x(), statuses.get_next_pre_status(&default_af));
    assert_eq!(tpss_all("0", "0", Some("0")).x(), statuses.get_latest_post_status());
    assert!(statuses.get_latest_post_status_for_affiliate(&default_af).is_none());
    assert!(statuses.get_latest_post_status_for_affiliate(&af_b).is_none());
    statuses.try_set_latest_post_status(&default_af, tpss("2", Some("4")).x()).unwrap();

    // Buy 1 default
    assert_eq!(tpss("2", Some("4")).x(), statuses.get_next_pre_status(&default_af));
    assert_eq!(tpss_all("2", "2", Some("4")).x(), statuses.get_latest_post_status());
    assert_eq!(
        &tpss_all("2", "2", Some("4")).x(),
        statuses.get_latest_post_status_for_affiliate(&default_af).unwrap()
    );
    assert!(statuses.get_latest_post_status_for_affiliate(&af_b).is_none());
    statuses.try_set_latest_post_status(&default_af, tpss("3", Some("6")).x()).unwrap();

    // Buy 12 B
    assert_eq!(tpss_all("0", "3", Some("0")).x(), statuses.get_next_pre_status(&af_b));
    assert_eq!(tpss_all("3", "3", Some("6")).x(), statuses.get_latest_post_status());
    assert_eq!(
        &tpss_all("3", "3", Some("6")).x(),
        statuses.get_latest_post_status_for_affiliate(&default_af).unwrap()
    );
    assert!(statuses.get_latest_post_status_for_affiliate(&af_b).is_none());
    statuses.try_set_latest_post_status(&af_b, tpss_all("12", "15", Some("24")).x()).unwrap();

    // Sell 6 B
    assert_eq!(tpss_all("12", "15", Some("24")).x(), statuses.get_next_pre_status(&af_b));
    assert_eq!(tpss_all("12", "15", Some("24")).x(), statuses.get_latest_post_status());
    assert_eq!(
        &tpss_all("3", "3", Some("6")).x(),
        statuses.get_latest_post_status_for_affiliate(&default_af).unwrap()
    );
    assert_eq!(
        &tpss_all("12", "15", Some("24")).x(),
        statuses.get_latest_post_status_for_affiliate(&af_b).unwrap()
    );
    statuses.try_set_latest_post_status(&af_b, tpss_all("6", "9", Some("12")).x()).unwrap();

    // Buy 1 default
    assert_eq!(tpss_all("3", "9", Some("6")).x(), statuses.get_next_pre_status(&default_af));
    assert_eq!(tpss_all("6", "9", Some("12")).x(), statuses.get_latest_post_status());
    assert_eq!(
        &tpss_all("3", "3", Some("6")).x(),
        statuses.get_latest_post_status_for_affiliate(&default_af).unwrap()
    );
    assert_eq!(
        &tpss_all("6", "9", Some("12")).x(),
        statuses.get_latest_post_status_for_affiliate(&af_b).unwrap()
    );
    statuses.try_set_latest_post_status(&default_af, tpss_all("4", "10", Some("6")).x()).unwrap();
}

#[test]
fn test_registered() {
    let default_r_af = Affiliate::default_registered();
    let mut statuses = AffiliatePortfolioSecurityStatuses::new(default_sec(), None);

    assert_eq!(tpss_all("0", "0", None).x(), statuses.get_next_pre_status(&default_r_af));

    statuses.try_set_latest_post_status(&default_r_af, tpss_all("1", "1", None).x()).unwrap();
    assert_eq!(tpss_all("1", "1", None).x(), statuses.get_latest_post_status());
}

#[test]
#[should_panic]
fn test_panic_some_acb_registered() {
    let default_r_af = Affiliate::default_registered();
    let mut statuses = AffiliatePortfolioSecurityStatuses::new(default_sec(), None);
    statuses.try_set_latest_post_status(&default_r_af, tpss_all("0", "0", Some("0")).x()).unwrap();
}

#[test]
#[should_panic]
fn test_panic_none_acb_non_registered() {
    let default_af = Affiliate::default();
    let mut statuses = AffiliatePortfolioSecurityStatuses::new(default_sec(), None);
    statuses.try_set_latest_post_status(&default_af, tpss_all("0", "0", None).x()).unwrap();
}

#[test]
fn test_set_status_rejected_leaves_tracker_unchanged() {
    let af_b = Affiliate::from_strep("B");
    let mut statuses = AffiliatePortfolioSecurityStatuses::new(default_sec(), Some(tpss("12", Some("24")).x()));
    assert!(statuses.try_set_latest_post_status(&af_b, tpss_all("2", "2", Some("4")).x()).is_err());
    assert_eq!(tpss("12", Some("24")).x(), statuses.get_latest_post_status());
    assert!(statuses.get_latest_post_status_for_affiliate(&af_b).is_none());
}

// MARK: deltas

#[test]
fn test_basic_buy_acb() {
    let sptf = tpss("0", Some("0")).x();

    let tx = buy(0, "3", "10.0").x();
    let delta = delta_for_tx_ok(tx, &sptf);
    validate_delta(delta, tdt(tpss("3", Some("30.0"))));

    let tx = TTx { comm: Some("1.0"), ..buy(0, "2", "10.0") }.x();
    let delta = delta_for_tx_ok(tx, &sptf);
    validate_delta(delta, tdt(tpss("2", Some("21.0"))));

    let sptf = tpss("2", Some("21.0")).x();
    let tx = TTx {
        comm: Some("1.0"),
        curr: Some(usd()),
        fx_rate: Some("2.0"),
        comm_curr: Some(Currency::new("XXX")),
        comm_fx_rate: Some("0.3"),
        ..buy(0, "3", "12.0")
    }
    .x();
    let delta = delta_for_tx_ok(tx, &sptf);
    // 21 + (12 * 2 * 3 = 72) + 0.3
    validate_delta(delta, tdt(tpss("5", Some("93.3"))));
}

#[test]
fn test_basic_sell_acb_errors() {
    let sptf = tpss("2", Some("20.0")).x();
    let tx = sell(0, "3", "10.0").x();
    delta_for_tx_has_err(tx, &sptf);
}

#[test]
fn test_basic_sell_acb() {
    let sptf = tpss("2", Some("20.0")).x();
    let tx = sell(0, "2", "15.0").x();
    let delta = delta_for_tx_ok(tx, &sptf);
    validate_delta(delta, tdt_g(tpss("0", Some("0")), "10.0"));

    let sptf = tpss("3", Some("30.0")).x();
    let tx = TTx { comm: Some("1.0"), ..sell(0, "2", "15.0") }.x();
    let delta = delta_for_tx_ok(tx, &sptf);
    validate_delta(delta, tdt_g(tpss("1", Some("10.0")), "9.0"));

    let sptf = tpss("3", Some("30.0")).x();
    let tx = TTx {
        comm: Some("2.0"),
        curr: Some(Currency::new("XXX")),
        fx_rate: Some("2.0"),
        comm_curr: Some(Currency::new("YYY")),
        comm_fx_rate: Some("0.4"),
        ..sell(0, "2", "15.0")
    }
    .x();
    let delta = delta_for_tx_ok(tx, &sptf);
    // ((15.0 * 2.0 * 2.0) - 20.0 - 0.8) = 39.2
    validate_delta(delta, tdt_g(tpss("1", Some("10.0")), "39.2"));
}

#[test]
fn test_superficial_losses() {
    // buy 10; wait; sell 5 (loss, not superficial)
    let txs = vec![
        TTx { comm: Some("2.0"), ..buy(1, "10", "1.0") }.x(),
        sell(50, "5", "0.2").x(),
    ];
    validate_deltas(txs_to_delta_list_no_err(txs), vec![
        tdt(tpss("10", Some("12.0"))),
        tdt_g(tpss("5", Some("6.0")), "-5.0"),
    ]);

    // buy 10; sell 5 (sfl); sell 4 (sfl); wait; sell 1
    let txs = vec![
        TTx { comm: Some("2.0"), ..buy(1, "10", "1.0") }.x(),
        sell(2, "5", "0.2").x(),
        sell(15, "4", "0.2").x(),
        sell(100, "1", "0.2").x(),
    ];
    validate_deltas(txs_to_delta_list_no_err(txs), vec![
        tdt(tpss("10", Some("12.0"))),
        tdt_sfl(tpss("5", Some("6.0")), "-4.0", "-1"),
        tdt(tpss("5", Some("7.0"))),
        tdt_sfl(tpss("1", Some("1.4")), "-3.6", "-1.2"),
        tdt(tpss("1", Some("2.6"))),
        tdt_g(tpss("0", Some("0")), "-2.4"),
    ]);

    // buy 10; wait; sell 5 (sfl 100%); buy 5
    let txs = vec![
        TTx { comm: Some("2.0"), ..buy(1, "10", "1.0") }.x(),
        sell(50, "5", "0.2").x(),
        TTx { comm: Some("2.0"), ..buy(51, "5", "0.2") }.x(),
    ];
    validate_deltas(txs_to_delta_list_no_err(txs), vec![
        tdt(tpss("10", Some("12.0"))),
        tdt_sfl(tpss("5", Some("6.0")), "0", "-5"),
        tdt(tpss("5", Some("11.0"))),
        tdt(tpss("10", Some("14.0"))),
    ]);

    // USD
    let txs = vec![
        TTx { curr: Some(usd()), fx_rate: Some("1.2"), comm: Some("2.0"), ..buy(1, "10", "1.0") }.x(),
        TTx { curr: Some(usd()), fx_rate: Some("1.2"), ..sell(50, "5", "0.2") }.x(),
        TTx { curr: Some(usd()), fx_rate: Some("1.2"), comm: Some("2.0"), ..buy(51, "5", "0.2") }.x(),
    ];
    validate_deltas(txs_to_delta_list_no_err(txs), vec![
        tdt(tpss("10", Some("14.4"))),
        tdt_sfl(tpss("5", Some("7.2")), "0", "-6.0"),
        tdt(tpss("5", Some("13.2"))),
        tdt(tpss("10", Some("16.8"))),
    ]);

    // buy 10; wait; sell 5; sell 5
    let txs = vec![
        TTx { comm: Some("2.0"), ..buy(1, "10", "1.0") }.x(),
        sell(50, "5", "0.2").x(),
        sell(51, "5", "0.2").x(),
    ];
    validate_deltas(txs_to_delta_list_no_err(txs), vec![
        tdt(tpss("10", Some("12.0"))),
        tdt_g(tpss("5", Some("6.0")), "-5.0"),
        tdt_g(tpss("0", Some("0")), "-5.0"),
    ]);

    // buy 100; wait; sell 99 (sfl min(99, 25, 26) / 99); buy 25
    let txs = vec![
        TTx { comm: Some("2.0"), ..buy(1, "100", "3.0") }.x(),
        sell(50, "99", "2.0").x(),
        TTx { comm: Some("2.0"), ..buy(51, "25", "2.2") }.x(),
    ];
    validate_deltas(txs_to_delta_list_no_err(txs), vec![
        tdt(tpss("100", Some("302.0"))),
        tdt_sfl(tpss("1", Some("3.02")), "-75.48", "-25.5"),
        tdt(tpss("1", Some("28.52"))),
        tdt(tpss("26", Some("85.52"))),
    ]);

    // buy 10; sell 10 (sfl 0.3); buy 5; sell 2 (sfl 1); wait; sell 3
    let txs = vec![
        TTx { comm: Some("2.0"), ..buy(1, "10", "1.0") }.x(),
        sell(2, "10", "0.2").x(),
        TTx { comm: Some("2.0"), ..buy(3, "5", "1.0") }.x(),
        sell(4, "2", "0.2").x(),
        sell(50, "3", "0.2").x(),
    ];
    validate_deltas(txs_to_delta_list_no_err(txs), vec![
        tdt(tpss("10", Some("12.0"))),
        tdt_sfl(tpss("0", Some("0")), "-7", "-3"),
        tdt(tpss("0", Some("3"))),
        tdt(tpss("5", Some("10.0"))),
        tdt_sfl(tpss("3", Some("6.0")), "0", "-3.6"),
        tdt(tpss("3", Some("9.6"))),
        tdt_g(tpss("0", Some("0")), "-9"),
    ]);

    // buy 10; sell 5 (gain)
    let txs = vec![TTx { comm: Some("2.0"), ..buy(1, "10", "1.0") }.x(), sell(2, "5", "2.0").x()];
    validate_deltas(txs_to_delta_list_no_err(txs), vec![
        tdt(tpss("10", Some("12.0"))),
        tdt_g(tpss("5", Some("6.0")), "4.0"),
    ]);

    // Fractional shares: sell all in two operations
    let txs = vec![
        TTx { comm: Some("2.0"), ..buy(1, "5.0", "1.0") }.x(),
        sell(2, "4.7", "0.2").x(),
        sell(3, "0.3", "0.2").x(),
    ];
    validate_deltas(txs_to_delta_list_no_err(txs), vec![
        tdt(tpss("5", Some("7.0"))),
        tdt_g(tpss("0.3", Some("0.42")), "-5.64"),
        tdt_g(tpss("0", Some("0")), "-0.36"),
    ]);

    // Explicit superficial loss, matching the detected one
    let txs = vec![
        TTx { curr: Some(usd()), fx_rate: Some("1.2"), comm: Some("2.0"), ..buy(1, "10", "1.0") }.x(),
        TTx { curr: Some(usd()), fx_rate: Some("1.2"), sfl: cadsfl(lez("-6.0"), false), ..sell(50, "5", "0.2") }
            .x(),
        TTx { t_day: 50, act: A::Sfla, shares: Some("5"), price: Some("0.02"), ..TTx::default() }.x(),
        TTx { curr: Some(usd()), fx_rate: Some("1.2"), comm: Some("2.0"), ..buy(51, "5", "0.2") }.x(),
    ];
    validate_deltas(txs_to_delta_list_no_err(txs), vec![
        tdt(tpss("10", Some("14.4"))),
        tdt_sfl(tpss("5", Some("7.2")), "0", "-6"),
        tdt(tpss("5", Some("7.3"))),
        tdt(tpss("10", Some("10.9"))),
    ]);

    // Override a detected superficial loss
    let make = |force: bool| {
        vec![
            TTx { curr: Some(usd()), fx_rate: Some("1.2"), comm: Some("2.0"), ..buy(1, "10", "1.0") }.x(),
            TTx { curr: Some(usd()), fx_rate: Some("1.2"), sfl: cadsfl(lez("-0.7"), force), ..sell(50, "5", "0.2") }
                .x(),
            TTx { t_day: 50, act: A::Sfla, shares: Some("5"), price: Some("0.02"), ..TTx::default() }.x(),
            TTx { curr: Some(usd()), fx_rate: Some("1.2"), comm: Some("2.0"), ..buy(51, "5", "0.2") }.x(),
        ]
    };
    validate_deltas(txs_to_delta_list_no_err(make(true)), vec![
        tdt(tpss("10", Some("14.4"))),
        tdt_sfl(tpss("5", Some("7.2")), "-5.3", "-0.7"),
        tdt(tpss("5", Some("7.3"))),
        tdt(tpss("10", Some("10.9"))),
    ]);
    // Not forced: an error
    txs_to_delta_list_with_err(make(false));

    // An undetectable superficial loss
    let make = |force: bool| {
        vec![
            TTx { curr: Some(usd()), fx_rate: Some("1.2"), comm: Some("2.0"), ..buy(1, "10", "1.0") }.x(),
            TTx { curr: Some(usd()), fx_rate: Some("1.2"), sfl: cadsfl(lez("-0.7"), force), ..sell(50, "5", "0.2") }
                .x(),
            TTx { t_day: 50, act: A::Sfla, t_amt: Some("0.1"), curr: Some(cad()), fx_rate: Some("1.0"), ..TTx::default() }
                .x(),
        ]
    };
    validate_deltas(txs_to_delta_list_no_err(make(true)), vec![
        tdt(tpss("10", Some("14.4"))),
        tdt_sfl(tpss("5", Some("7.2")), "-5.3", "-0.7"),
        tdt(tpss("5", Some("7.3"))),
    ]);
    txs_to_delta_list_with_err(make(false));

    // An adjustment by itself
    let txs = vec![TTx {
        t_day: 50,
        act: A::Sfla,
        shares: Some("1"),
        price: Some("0.1"),
        curr: Some(cad()),
        fx_rate: Some("1.0"),
        ..TTx::default()
    }
    .x()];
    validate_deltas(txs_to_delta_list_no_err(txs), vec![tdt(tpss("0", Some("0.1")))]);
}

#[test]
fn test_basic_roc_acb_errors() {
    let sptf = tpss("2", Some("20.0")).x();
    let tx = TTx { act: A::Roc, price: Some("13.0"), ..TTx::default() }.x();
    delta_for_tx_has_err(tx, &sptf);

    let sptf = tpss("2", Some("20.0")).x();
    let tx = TTx { act: A::Roc, t_amt: Some("21.0"), ..TTx::default() }.x();
    delta_for_tx_has_err(tx, &sptf);
}

#[test]
fn test_basic_roc_acb() {
    let sptf = tpss_all("2", "8", Some("20.0")).x();
    let tx = TTx { act: A::Roc, price: Some("1.0"), ..TTx::default() }.x();
    validate_delta(delta_for_tx_ok(tx, &sptf), tdt(tpss_all("2", "8", Some("18.0"))));

    let tx = TTx { act: A::Roc, t_amt: Some("2.0"), ..TTx::default() }.x();
    validate_delta(delta_for_tx_ok(tx, &sptf), tdt(tpss_all("2", "8", Some("18.0"))));

    let sptf = tpss("2", Some("20.0")).x();
    let tx = TTx { act: A::Roc, price: Some("1.0"), curr: Some(usd()), fx_rate: Some("2.0"), ..TTx::default() }.x();
    validate_delta(delta_for_tx_ok(tx, &sptf), tdt(tpss("2", Some("16.0"))));

    let tx = TTx { act: A::Roc, t_amt: Some("2.0"), curr: Some(usd()), fx_rate: Some("2.0"), ..TTx::default() }.x();
    validate_delta(delta_for_tx_ok(tx, &sptf), tdt(tpss("2", Some("16.0"))));
}

#[test]
fn test_basic_sfla_errors() {
    let sptf = tpss("2", None).x();
    let tx = TTx { act: A::Sfla, shares: Some("2"), price: Some("1.0"), af_name: Some("(R)"), ..TTx::default() }.x();
    let err = run_delta_for_tx(tx, &sptf).unwrap_err();
    assert!(err.contains("Registered affiliates do not have an ACB"), "{}", err);
}

#[test]
fn test_registered_affiliate_capital_gain() {
    let sptf = tpss("5", None).x();
    let tx = TTx { af_name: Some("(R)"), ..sell(0, "2", "3.0") }.x();
    let delta = delta_for_tx_ok(tx, &sptf);
    assert_eq!(tpss("3", None).x(), delta.post_status);
    assert_eq!(delta.capital_gain, None);
}

#[test]
#[should_panic]
fn test_registered_affiliate_acb_panic() {
    let sptf = tpss("5", Some("0")).x();
    let tx = TTx { af_name: Some("(R)"), ..sell(0, "2", "3.0") }.x();
    let _ = run_delta_for_tx(tx, &sptf);
}

#[test]
#[should_panic]
fn test_registered_affiliate_acb_panic_nonzero() {
    let sptf = tpss("5", Some("1.0")).x();
    let tx = TTx { af_name: Some("(R)"), ..sell(0, "2", "3.0") }.x();
    let _ = run_delta_for_tx(tx, &sptf);
}

#[test]
#[should_panic]
fn test_non_registered_affiliate_no_acb_panic() {
    let sptf = tpss("5", None).x();
    let tx = sell(0, "2", "3.0").x();
    let _ = run_delta_for_tx(tx, &sptf);
}

#[test]
fn test_all_affiliate_share_balance_add_tx() {
    let sptf = tpss_all("3", "7", Some("15.0")).x();
    let tx = buy(0, "2", "5.0").x();
    validate_delta(delta_for_tx_ok(tx, &sptf), tdt(tpss_all("5", "9", Some("25.0"))));

    let sptf = TPSS { shares: Some("5"), all_shares: Some("8"), acb_per_sh: Some("3.0"), ..TPSS::default() }.x();
    let tx = sell(0, "2", "5.0").x();
    validate_delta(
        delta_for_tx_ok(tx, &sptf),
        tdt_g(TPSS { shares: Some("3"), all_shares: Some("6.0"), acb_per_sh: Some("3.0"), ..TPSS::default() }, "4.0"),
    );
}

fn af_tx(t: TTx, af: &'static str) -> Tx {
    TTx { af_name: Some(af), ..t }.x()
}

#[test]
fn test_multi_affiliate_gains() {
    let txs = vec![
        af_tx(buy(0, "10", "1.0"), ""),
        af_tx(buy(0, "20", "1.0"), "(R)"),
        af_tx(buy(0, "30", "1.0"), "B"),
        af_tx(buy(0, "40", "1.0"), "B (R)"),
        af_tx(sell(0, "1", "1.2"), ""),
        af_tx(sell(0, "2", "1.3"), "(R)"),
        af_tx(sell(0, "3", "1.4"), "B"),
        af_tx(sell(0, "4", "1.5"), "B (R)"),
    ];
    validate_deltas(txs_to_delta_list_no_err(txs), vec![
        tdt(tpss_all("10", "10", Some("10"))),
        tdt(tpss_all("20", "30", None)),
        tdt(tpss_all("30", "60", Some("30"))),
        tdt(tpss_all("40", "100", None)),
        tdt_g(tpss_all("9", "99", Some("9")), "0.2"),
        tdt(tpss_all("18", "97", None)),
        tdt_g(tpss_all("27", "94", Some("27")), "1.2"),
        tdt(tpss_all("36", "90", None)),
    ]);
}

#[test]
fn test_multi_affiliate_roc() {
    let txs = vec![
        af_tx(buy(0, "10", "1.0"), ""),
        af_tx(buy(0, "20", "1.0"), "B"),
        af_tx(TTx { act: A::Roc, price: Some("0.2"), ..TTx::default() }, "B"),
        af_tx(sell(0, "10", "1.1"), ""),
        af_tx(sell(0, "20", "1.1"), "B"),
    ];
    validate_deltas(txs_to_delta_list_no_err(txs), vec![
        tdt(tpss_all("10", "10", Some("10"))),
        tdt(tpss_all("20", "30", Some("20"))),
        tdt(tpss_all("20", "30", Some("16"))),
        tdt_g(tpss_all("0", "20", Some("0")), "1.0"),
        tdt_g(tpss_all("0", "0", Some("0")), "6.0"),
    ]);
}

#[test]
fn test_other_affiliate_sfl() {
    // All buys on a different affiliate
    let txs = vec![
        af_tx(buy(1, "10", "1.0"), ""),
        af_tx(buy(1, "5", "1.0"), "B"),
        af_tx(sell(40, "2", "0.5"), ""),
        af_tx(buy(41, "2", "1.0"), "B"),
    ];
    validate_deltas(txs_to_delta_list_no_err(txs), vec![
        tdt(tpss_all("10", "10", Some("10.0"))),
        tdt(tpss_all("5", "15", Some("5.0"))),
        tdt_sfl(tpss_all("8", "13", Some("8.0")), "0", "-1.0"),
        tdt(tpss_all("5", "13", Some("6.0"))),
        tdt(tpss_all("7", "15", Some("8.0"))),
    ]);

    // All buys on a registered affiliate
    let txs = vec![
        af_tx(buy(1, "10", "1.0"), ""),
        af_tx(buy(1, "5", "1.0"), "(R)"),
        af_tx(sell(40, "2", "0.5"), ""),
        af_tx(buy(41, "2", "1.0"), "(R)"),
    ];
    validate_deltas(txs_to_delta_list_no_err(txs), vec![
        tdt(tpss_all("10", "10", Some("10.0"))),
        tdt(tpss_all("5", "15", None)),
        tdt_sfl(tpss_all("8", "13", Some("8.0")), "0", "-1.0"),
        tdt(tpss_all("7", "15", None)),
    ]);

    // Buys on B, sells on (R)
    let txs = vec![
        af_tx(buy(1, "10", "1.0"), ""),
        af_tx(buy(1, "5", "1.0"), "B"),
        af_tx(buy(1, "5", "1.0"), "(R)"),
        af_tx(sell(40, "2", "0.5"), ""),
        af_tx(buy(41, "2", "1.0"), "B"),
        af_tx(sell(41, "2", "1.0"), "(R)"),
    ];
    validate_deltas(txs_to_delta_list_no_err(txs), vec![
        tdt(tpss_all("10", "10", Some("10.0"))),
        tdt(tpss_all("5", "15", Some("5.0"))),
        tdt(tpss_all("5", "20", None)),
        tdt_sfl(tpss_all("8", "18", Some("8.0")), "0", "-1.0"),
        tdt(tpss_all("5", "18", Some("6.0"))),
        tdt(tpss_all("7", "20", Some("8.0"))),
        tdt(tpss_all("3", "18", None)),
    ]);

    // Buys on two other affiliates
    let txs = vec![
        af_tx(buy(1, "10", "1.0"), ""),
        af_tx(buy(1, "5", "1.0"), "B"),
        af_tx(buy(1, "7", "1.0"), "C"),
        af_tx(sell(40, "2", "0.5"), ""),
        af_tx(buy(41, "2", "1.0"), "B"),
        af_tx(buy(41, "2", "1.0"), "C"),
    ];
    validate_deltas(txs_to_delta_list_no_err(txs), vec![
        tdt(tpss_all("10", "10", Some("10.0"))),
        tdt(tpss_all("5", "15", Some("5.0"))),
        tdt(tpss_all("7", "22", Some("7.0"))),
        tdt_sfl(tpss_all("8", "20", Some("8.0")), "0", "-1.0"),
        tdt(tpss_all("5", "20", Some("5.4375"))),
        tdt(tpss_all("7", "20", Some("7.5625"))),
        tdt(tpss_all("7", "22", Some("7.4375"))),
        tdt(tpss_all("9", "24", Some("9.5625"))),
    ]);

    // Buys on a registered and a non-registered affiliate
    let txs = vec![
        af_tx(buy(1, "10", "1.0"), ""),
        af_tx(buy(1, "5", "1.0"), "(R)"),
        af_tx(buy(1, "7", "1.0"), "B"),
        af_tx(sell(40, "2", "0.5"), ""),
        af_tx(buy(41, "2", "1.0"), "(R)"),
        af_tx(buy(41, "2", "1.0"), "B"),
    ];
    validate_deltas(txs_to_delta_list_no_err(txs), vec![
        tdt(tpss_all("10", "10", Some("10.0"))),
        tdt(tpss_all("5", "15", None)),
        tdt(tpss_all("7", "22", Some("7.0"))),
        tdt_sfl(tpss_all("8", "20", Some("8.0")), "0", "-1.0"),
        tdt(tpss_all("7", "20", Some("7.5625"))),
        tdt(tpss_all("7", "22", None)),
        tdt(tpss_all("9", "24", Some("9.5625"))),
    ]);

    // Fewer shares left in the selling affiliate than suffered the loss
    let txs = vec![
        af_tx(buy(1, "5", "1.0"), ""),
        af_tx(sell(40, "4", "0.5"), ""),
        af_tx(buy(41, "2", "1.0"), "B"),
        af_tx(sell(42, "1", "2.0"), "B"),
    ];
    validate_deltas(txs_to_delta_list_no_err(txs), vec![
        tdt(tpss_all("5", "5", Some("5.0"))),
        TDt {
            post_st: tpss_all("1", "1", Some("1.0")),
            gain: sdec("-1.0"),
            sfl: sdec("-1.0"),
            potentially_over_applied_sfl: true,
        },
        tdt(tpss_all("0", "1", Some("1.0"))),
        tdt(tpss_all("2", "3", Some("3.0"))),
        tdt_g(tpss_all("1", "2", Some("1.5")), "0.50"),
    ]);

    // Buys on the selling affiliate and another one
    let txs = vec![
        af_tx(buy(1, "5", "1.0"), ""),
        af_tx(sell(40, "4", "0.5"), ""),
        af_tx(buy(41, "2", "1.0"), "B"),
        af_tx(buy(42, "1", "2.0"), ""),
    ];
    validate_deltas(txs_to_delta_list_no_err(txs), vec![
        tdt(tpss_all("5", "5", Some("5.0"))),
        tdt_sfl(tpss_all("1", "1", Some("1.0")), "-0.5", "-1.5"),
        tdt(tpss_all("0", "1", Some("0.75"))),
        tdt(tpss_all("1", "1", Some("1.75"))),
        tdt(tpss_all("2", "3", Some("2.75"))),
        tdt(tpss_all("2", "4", Some("3.75"))),
    ]);

    // A buy on one other, registered affiliate
    let txs = vec![
        af_tx(buy(1, "5", "1.0"), ""),
        af_tx(sell(40, "4", "0.5"), ""),
        af_tx(buy(41, "2", "1.0"), "(R)"),
    ];
    validate_deltas(txs_to_delta_list_no_err(txs), vec![
        tdt(tpss_all("5", "5", Some("5.0"))),
        tdt_sfl(tpss_all("1", "1", Some("1.0")), "-1.0", "-1.0"),
        tdt(tpss_all("2", "3", None)),
    ]);

    // ... with fewer shares left than suffered the loss
    let txs = vec![
        af_tx(buy(1, "5", "1.0"), ""),
        af_tx(sell(40, "4", "0.5"), ""),
        af_tx(buy(41, "2", "1.0"), "(R)"),
        af_tx(sell(42, "1", "2.0"), "(R)"),
    ];
    validate_deltas(txs_to_delta_list_no_err(txs), vec![
        tdt(tpss_all("5", "5", Some("5.0"))),
        TDt {
            post_st: tpss_all("1", "1", Some("1.0")),
            gain: sdec("-1.0"),
            sfl: sdec("-1.0"),
            potentially_over_applied_sfl: true,
        },
        tdt(tpss_all("2", "3", None)),
        tdt(tpss_all("1", "2", None)),
    ]);
}

#[test]
fn test_other_affiliate_explicit_sfl() {
    let txs = vec![
        af_tx(buy(1, "10", "1.0"), ""),
        af_tx(buy(1, "5", "1.0"), "B"),
        af_tx(buy(1, "7", "1.0"), "C"),
        af_tx(TTx { sfl: cadsfl(lez("-1.0"), false), ..sell(40, "2", "0.5") }, ""),
        af_tx(TTx { t_day: 40, act: A::Sfla, shares: Some("1"), price: Some("0.5"), ..TTx::default() }, "C"),
        af_tx(buy(41, "2", "1.0"), "B"),
        af_tx(buy(41, "2", "1.0"), "C"),
    ];
    validate_deltas(txs_to_delta_list_no_err(txs), vec![
        tdt(tpss_all("10", "10", Some("10.0"))),
        tdt(tpss_all("5", "15", Some("5"))),
        tdt(tpss_all("7", "22", Some("7.0"))),
        tdt_sfl(tpss_all("8", "20", Some("8.0")), "0", "-1.0"),
        tdt(tpss_all("7", "20", Some("7.5"))),
        tdt(tpss_all("7", "22", Some("7"))),
        tdt(tpss_all("9", "24", Some("9.5"))),
    ]);

    let txs = vec![
        af_tx(buy(1, "10", "1.0"), ""),
        af_tx(buy(1, "5", "1.0"), "(R)"),
        af_tx(buy(1, "7", "1.0"), "B"),
        af_tx(TTx { sfl: cadsfl(lez("-1.0"), false), ..sell(40, "2", "0.5") }, ""),
        af_tx(TTx { t_day: 40, act: A::Sfla, shares: Some("1"), price: Some("0.5"), ..TTx::default() }, "B"),
        af_tx(buy(41, "2", "1.0"), "(R)"),
        af_tx(buy(41, "2", "1.0"), "B"),
    ];
    validate_deltas(txs_to_delta_list_no_err(txs), vec![
        tdt(tpss_all("10", "10", Some("10.0"))),
        tdt(tpss_all("5", "15", None)),
        tdt(tpss_all("7", "22", Some("7.0"))),
        tdt_sfl(tpss_all("8", "20", Some("8.0")), "0", "-1.0"),
        tdt(tpss_all("7", "20", Some("7.5"))),
        tdt(tpss_all("7", "22", None)),
        tdt(tpss_all("9", "24", Some("9.5"))),
    ]);
}

#[test]
fn test_stock_splits() {
    let split = |s: &str| Some(SplitRatio::parse(s).unwrap());
    let split_tx = |t_day: i32, s: &str, af: &'static str| {
        TTx { t_day, act: A::Split, split: split(s), af_name: Some(af), ..TTx::default() }.x()
    };

    let txs = vec![af_tx(buy(1, "10", "1.0"), ""), split_tx(2, "2-for-1", ""), af_tx(sell(3, "20", "0.5"), "")];
    validate_deltas(txs_to_delta_list_no_err(txs), vec![
        tdt(tpss_all("10", "10", Some("10.0"))),
        tdt(tpss_all("20", "20", Some("10.0"))),
        tdt_g(tpss_all("0", "0", Some("0.0")), "0"),
    ]);

    let txs = vec![af_tx(buy(1, "11", "1.0"), ""), split_tx(2, "2.5-for-1", ""), af_tx(sell(3, "27.5", "1.0"), "")];
    validate_deltas(txs_to_delta_list_no_err(txs), vec![
        tdt(tpss_all("11", "11", Some("11.0"))),
        tdt(tpss_all("27.5", "27.5", Some("11.0"))),
        tdt_g(tpss_all("0", "0", Some("0.0")), "16.5"),
    ]);

    let txs = vec![
        af_tx(buy(1, "11", "1.0"), ""),
        af_tx(sell(2, "1", "1.5"), ""),
        split_tx(2, "1-for-2", ""),
        af_tx(sell(3, "5", "3.0"), ""),
    ];
    validate_deltas(txs_to_delta_list_no_err(txs), vec![
        tdt(tpss_all("11", "11", Some("11.0"))),
        tdt_g(tpss_all("10", "10", Some("10.0")), "0.5"),
        tdt(tpss_all("5", "5", Some("10.0"))),
        tdt_g(tpss_all("0", "0", Some("0.0")), "5"),
    ]);

    let txs = vec![af_tx(buy(1, "11", "1.0"), ""), split_tx(2, "1-for-2", "")];
    txs_to_delta_list_with_err(txs);

    let txs = vec![af_tx(buy(1, "11", "1.0"), ""), split_tx(2, "1.0-for-2", "")];
    validate_deltas(txs_to_delta_list_no_err(txs), vec![
        tdt(tpss_all("11", "11", Some("11.0"))),
        tdt(tpss_all("5.5", "5.5", Some("11.0"))),
    ]);

    let txs = vec![
        af_tx(buy(1, "10", "1.0"), ""),
        af_tx(buy(1, "100", "1.0"), "(R)"),
        af_tx(buy(1, "1000", "1.0"), "B"),
        split_tx(2, "2-for-1", ""),
        split_tx(2, "2-for-1", "(R)"),
        split_tx(2, "2-for-1", "B"),
    ];
    validate_deltas(txs_to_delta_list_no_err(txs), vec![
        tdt(tpss_all("10", "10", Some("10.0"))),
        tdt(tpss_all("100", "110", None)),
        tdt(tpss_all("1000", "1110", Some("1000.0"))),
        tdt(tpss_all("20", "1120", Some("10.0"))),
        tdt(tpss_all("200", "1220", None)),
        tdt(tpss_all("2000", "2220", Some("1000.0"))),
    ]);
}

#[test]
fn test_auto_adjustments_follow_the_sale() {
    // The automatic adjustment for affiliate B is processed right after the
    // sale, and it is a superficial loss adjustment on B.
    let txs = vec![
        af_tx(buy(1, "10", "1.0"), ""),
        af_tx(buy(1, "5", "1.0"), "B"),
        af_tx(sell(40, "2", "0.5"), ""),
        af_tx(buy(41, "2", "1.0"), "B"),
    ];
    let deltas = txs_to_delta_list_no_err(txs);
    assert_eq!(deltas[3].tx.action(), A::Sfla);
    assert_eq!(deltas[3].tx.affiliate, Affiliate::from_strep("B"));
    match &deltas[3].tx.action_specifics {
        TxActionSpecifics::Sfla(f) => assert_eq!(f.total_amount().get(), dec("1.0")),
        _ => panic!("not an adjustment"),
    }
    assert!(deltas[3].tx.memo.starts_with("Automatic SfL ACB adjustment. 100.00% (7/7) of SfL, which was 2/2 of sale shares."), "{}", deltas[3].tx.memo);
}

#[test]
fn test_empty_delta_list() {
    assert!(txs_to_delta_list(&vec![]).0.unwrap().is_empty());
}

#[test]
fn test_delta_list_error_keeps_partial_deltas() {
    let txs = vec![af_tx(buy(1, "2", "1.0"), ""), af_tx(sell(2, "3", "1.0"), "")];
    let res = txs_to_delta_list(&txs);
    let err = res.0.unwrap_err();
    assert_eq!(err.partial_deltas.len(), 1);
    assert!(err.err_msg.contains("is more than the current holdings"), "{}", err.err_msg);
}

// Superficial loss scan and ratio.

fn sfl_status(af_shares: &[(&'static str, &'static str)]) -> AffiliatePortfolioSecurityStatuses {
    let mut statuses = AffiliatePortfolioSecurityStatuses::new(default_sec(), None);
    let mut total = dec("0");
    for (af_name, shares) in af_shares {
        let af = Affiliate::from_strep(af_name);
        let sh = gez(shares);
        total = total.checked_add(&sh.get()).unwrap();
        let acb = if af.registered() { None } else { Some(sh) };
        let st = PortfolioSecurityStatus {
            security: default_sec(),
            share_balance: sh,
            all_affiliate_share_balance: GreaterEqualZeroDecimal::try_from(total).unwrap(),
            total_acb: acb,
        };
        statuses.try_set_latest_post_status(&af, st).unwrap();
    }
    statuses
}

fn sfl_tx(t_day: i32, act: A, shares: &'static str, price: &'static str, af: &'static str) -> Tx {
    TTx { t_day, act, shares: Some(shares), price: Some(price), af_name: Some(af), ..TTx::default() }
        .x()
}

fn split_tx(t_day: i32, ratio: &str, af: &'static str) -> Tx {
    TTx {
        t_day,
        act: A::Split,
        split: Some(SplitRatio::parse(ratio).unwrap()),
        af_name: Some(af),
        ..TTx::default()
    }
    .x()
}

/// A sale that carries an explicit loss, which the scan ignores.
fn sell_ignored_sfl(t_day: i32, shares: &'static str, price: &'static str, af: &'static str) -> Tx {
    TTx {
        t_day,
        act: A::Sell,
        shares: Some(shares),
        price: Some(price),
        af_name: Some(af),
        sfl: cadsfl(lez("-1"), true),
        ..TTx::default()
    }
    .x()
}

fn pd(s: &str) -> PosDecimal {
    PosDecimal::try_from(dec(s)).unwrap()
}

fn check_sfl_info(
    m: &MaybeSuperficialLossInfo,
    sale_day: i32,
    all_eop: &str,
    acquired: &str,
    buyers: &[&str],
    active: &[(&str, &str)],
) {
    let info = m.info().unwrap();
    // The settlement date is two days after the trade date.
    assert_eq!(info._first_date_in_period, mk_date(sale_day + 2 - 30));
    assert_eq!(info._last_date_in_period, mk_date(sale_day + 2 + 30));
    assert_eq!(info.all_aff_spladj_shares_at_end_of_period, pd(all_eop));
    assert_eq!(info.total_aquired_spladj_shares_in_period, pd(acquired));
    assert_eq!(info.buying_affiliates.len(), buyers.len());
    for b in buyers {
        assert!(info.buying_affiliates.contains(&Affiliate::from_strep(b)), "{}", b);
    }
    assert_eq!(info.active_affiliate_spladj_shares_at_eop.entries().len(), active.len());
    for (af, sh) in active {
        assert_eq!(
            info.active_affiliate_spladj_shares_at_eop.get(&Affiliate::from_strep(af)),
            Some(gez(sh)),
            "{}",
            af
        );
    }
}

fn sfl_info_value(
    all_eop: &str,
    acquired: &str,
    buyers: &[&str],
    active: &[(&str, &str)],
) -> SuperficialLossInfo {
    let mut b = AffiliateSet::new();
    for x in buyers {
        b.insert(&Affiliate::from_strep(x));
    }
    let mut a = AffiliateDecMap::new();
    for (x, sh) in active {
        a.insert(&Affiliate::from_strep(x), gez(sh));
    }
    SuperficialLossInfo {
        _first_date_in_period: mk_date(0),
        _last_date_in_period: mk_date(0),
        all_aff_spladj_shares_at_end_of_period: pd(all_eop),
        total_aquired_spladj_shares_in_period: pd(acquired),
        buying_affiliates: b,
        active_affiliate_spladj_shares_at_eop: a,
    }
}

fn check_ratio(
    res: &SflRatioResultResult,
    num: &str,
    den: &str,
    portions: &[(&str, &str, &str)],
    fewer: bool,
) {
    assert_eq!(res.sfl_ratio.numerator, pd(num));
    assert_eq!(res.sfl_ratio.denominator, pd(den));
    assert_eq!(res.acb_adjust_affiliate_ratios.len(), portions.len());
    for (af, n, d) in portions {
        let found = res
            .acb_adjust_affiliate_ratios
            .iter()
            .find(|(a, _)| *a == Affiliate::from_strep(af))
            .unwrap();
        assert_eq!(found.1.numerator, gez(n));
        assert_eq!(found.1.denominator, pd(d));
    }
    assert_eq!(res.fewer_remaining_shares_than_sfl_shares, fewer);
}

#[test]
fn test_get_superficial_loss_info_non_superficial() {
    // Case: Zero shares at end of period
    let statuses = sfl_status(&[("", "5"), ("B(R)", "10")]);
    let sell = sell_ignored_sfl(11, "7", "0.00001", "B(R)");
    let txs = vec![
        sfl_tx(10, A::Buy, "100", "1", "B(R)"),
        sfl_tx(10, A::Buy, "100", "1", ""),
        sell,
        sfl_tx(12, A::Buy, "1.2", "1", "B(R)"),
        sfl_tx(13, A::Sell, "0.7", "1", "B(R)"),
        sfl_tx(41, A::Sell, "5", "0.5", ""),
        sfl_tx(41, A::Sell, "3.5", "0.5", "B(R)"),
        sfl_tx(42, A::Buy, "100", "1", "B(R)"),
    ];
    let minfo = get_superficial_loss_info(2, &txs, &statuses).unwrap();
    assert!(!minfo.is_superficial());

    // Case: Sell is only tx, and sells all shares
    let statuses = sfl_status(&[("", "5")]);
    let sell = sell_ignored_sfl(11, "5", "0.0001", "");
    let txs = vec![sell];
    let minfo = get_superficial_loss_info(0, &txs, &statuses).unwrap();
    assert!(!minfo.is_superficial());

    // Case: No buys within period.
    let statuses = sfl_status(&[("", "5"), ("B(R)", "10")]);
    let sell = sell_ignored_sfl(41, "7", "0.0001", "B(R)");
    let txs = vec![
        sfl_tx(10, A::Buy, "100", "1", "B(R)"),
        sfl_tx(10, A::Buy, "100", "1", ""),
        sell,
        sfl_tx(42, A::Sell, "1", "1", "B(R)"),
        sfl_tx(72, A::Buy, "100", "1", "B(R)"),
    ];
    let minfo = get_superficial_loss_info(2, &txs, &statuses).unwrap();
    assert!(!minfo.is_superficial());
}

#[test]
fn test_get_superficial_loss_info_superficial_basic() {
    // Case: Sells only before, and tx at end of vector
    let statuses = sfl_status(&[("", "5"), ("B(R)", "10")]);
    let txs = vec![
        sfl_tx(0, A::Buy, "100", "1", ""),
        sfl_tx(1, A::Buy, "77", "1", ""),
        sfl_tx(1, A::Buy, "1", "1", ""),
        sfl_tx(31, A::Sell, "7", "10000", "B(R)"),
    ];
    let minfo = get_superficial_loss_info(3, &txs, &statuses).unwrap();
    check_sfl_info(&minfo, 31, "8", "78", &[""], &[("", "5"), ("B(R)", "3")]);

    // Case: Sells only after, and tx at start of vector
    let statuses = sfl_status(&[("B(R)", "10"), ("", "5")]);
    let txs = vec![
        sfl_tx(1, A::Sell, "7", "10000", "B(R)"),
        sfl_tx(31, A::Buy, "77", "1", ""),
        sfl_tx(31, A::Buy, "5", "1", "C"),
        sfl_tx(32, A::Buy, "33", "1", "B(R)"),
    ];
    let minfo = get_superficial_loss_info(0, &txs, &statuses).unwrap();
    check_sfl_info(&minfo, 1, "90", "82", &["", "C"], &[("", "82"), ("B(R)", "3"), ("C", "5")]);

    // Case: Sells before and after
    let statuses = sfl_status(&[("B(R)", "10"), ("", "5"), ("C", "7")]);
    let txs = vec![
        sfl_tx(15, A::Buy, "1", "1", "B(R)"),
        sfl_tx(15, A::Sell, "77", "1", ""),
        sfl_tx(40, A::Sell, "7", "10000", "B(R)"),
        sfl_tx(50, A::Buy, "77", "1", ""),
        sfl_tx(51, A::Sell, "5", "1", "C"),
        sfl_tx(52, A::Sfla, "5", "1", ""),
        sfl_tx(80, A::Buy, "1", "1", "C"),
    ];
    let minfo = get_superficial_loss_info(2, &txs, &statuses).unwrap();
    check_sfl_info(
        &minfo,
        40,
        "87",
        "78",
        &["", "B(R)"],
        &[("", "82"), ("B(R)", "3"), ("C", "2")],
    );
}

#[test]
fn test_get_superficial_loss_info_superficial_special() {
    // Case: All buying affiliates have zero shares at end
    let statuses = sfl_status(&[("B", "10"), ("", "1")]);
    let txs = vec![sfl_tx(10, A::Buy, "10", "1", "B"), sfl_tx(11, A::Sell, "10", "0.5", "B")];
    let minfo = get_superficial_loss_info(1, &txs, &statuses).unwrap();
    check_sfl_info(&minfo, 11, "1", "10", &["B"], &[("B", "0")]);

    // Case: sell all and repurchase some within period
    let statuses = sfl_status(&[("", "10")]);
    let txs = vec![
        sfl_tx(10, A::Sell, "10", "0.0001", ""),
        sfl_tx(11, A::Buy, "10", "1", ""),
        sfl_tx(12, A::Sell, "10", "1", ""),
        sfl_tx(13, A::Buy, "5", "1", ""),
    ];
    let minfo = get_superficial_loss_info(0, &txs, &statuses).unwrap();
    check_sfl_info(&minfo, 10, "5", "15", &[""], &[("", "5")]);
}

#[test]
fn test_get_superficial_loss_info_superficial_errors() {
    // Case: initial sell is too large
    let statuses = sfl_status(&[("", "10")]);
    let txs = vec![sfl_tx(10, A::Sell, "11", "0.0001", "")];
    let e = get_superficial_loss_info(0, &txs, &statuses).unwrap_err();
    assert_eq!(
        "latest share balance total for all affiliates (10) is less than sold shares (11)",
        e
    );

    // Case: initial sell is too much, and no status present
    let statuses = sfl_status(&[]);
    let txs = vec![sfl_tx(10, A::Sell, "11", "0.0001", "")];
    let e = get_superficial_loss_info(0, &txs, &statuses).unwrap_err();
    assert_eq!(
        "latest share balance total for all affiliates (0) is less than sold shares (11)",
        e
    );

    // Case: initial sell is too much, but not exceeding total shares
    let statuses = sfl_status(&[("B", "100")]);
    let txs = vec![sfl_tx(10, A::Sell, "11", "0.0001", "")];
    let e = get_superficial_loss_info(0, &txs, &statuses).unwrap_err();
    assert_eq!("latest share balance (0) for affiliate (Default) is less than sold shares (11)", e);

    // Case: Some sell after is too large (combined with buys, order dependent)
    let statuses = sfl_status(&[("", "10")]);
    let txs = vec![
        sfl_tx(10, A::Sell, "5", "0.0001", ""),
        sfl_tx(11, A::Buy, "3", "1", ""),
        sfl_tx(12, A::Buy, "100", "1", "B"),
        sfl_tx(13, A::Sell, "20", "2", ""),
    ];
    let e = get_superficial_loss_info(0, &txs, &statuses).unwrap_err();
    assert_eq!(
        "Share count for affiliate Default went below zero in 30-day period after sale (on 2017-01-14)",
        &e
    );

    // Case: Some sell after is too large, on other affiliate
    let statuses = sfl_status(&[("", "10")]);
    let txs = vec![
        sfl_tx(10, A::Sell, "5", "0.0001", ""),
        sfl_tx(11, A::Buy, "3", "1", "B"),
        sfl_tx(13, A::Sell, "4", "2", "B"),
    ];
    let e = get_superficial_loss_info(0, &txs, &statuses).unwrap_err();
    assert_eq!(
        "Share count for affiliate B went below zero in 30-day period after sale (on 2017-01-14)",
        &e
    );

    // Case: ... and goes below total for all affiliates
    let statuses = sfl_status(&[("", "10")]);
    let txs = vec![
        sfl_tx(10, A::Sell, "5", "0.0001", ""),
        sfl_tx(11, A::Buy, "3", "1", "B"),
        sfl_tx(13, A::Sell, "20", "2", "B"),
    ];
    let e = get_superficial_loss_info(0, &txs, &statuses).unwrap_err();
    assert_eq!(
        "Total share count went below zero in 30-day period after sale (on 2017-01-14)",
        &e
    );
}

#[test]
fn test_calc_superficial_loss_ratio_not_superficial() {
    let sell_tx = sfl_tx(10, A::Sell, "5", "1", "");
    let res = calc_superficial_loss_ratio(&sell_tx, MaybeSuperficialLossInfo::NotSuperficial())
        .unwrap();
    assert!(res.is_none());
}

#[test]
fn test_calc_superficial_loss_ratio_basic_ratio() {
    // min of sell shares (3), acquired (7), all at end (5)
    let sell_tx = sfl_tx(10, A::Sell, "3", "1", "");
    let sli = || sfl_info_value("5", "7", &[""], &[("", "6")]);
    let res = calc_superficial_loss_ratio(&sell_tx, MaybeSuperficialLossInfo::Superficial(sli()))
        .unwrap()
        .unwrap();
    check_ratio(&res, "3", "3", &[("", "6", "6")], false);

    // 6, 7, 5
    let sell_tx = sfl_tx(10, A::Sell, "6", "1", "");
    let res = calc_superficial_loss_ratio(&sell_tx, MaybeSuperficialLossInfo::Superficial(sli()))
        .unwrap()
        .unwrap();
    check_ratio(&res, "5", "6", &[("", "6", "6")], false);

    // 5, 4, 3
    let sell_tx = sfl_tx(10, A::Sell, "5", "1", "");
    let sli = sfl_info_value("3", "4", &[""], &[("", "6")]);
    let res = calc_superficial_loss_ratio(&sell_tx, MaybeSuperficialLossInfo::Superficial(sli))
        .unwrap()
        .unwrap();
    check_ratio(&res, "3", "5", &[("", "6", "6")], false);
}

#[test]
fn test_calc_superficial_loss_ratio_affiliate_ratios() {
    let sell_tx = sfl_tx(10, A::Sell, "3", "1", "");

    // Active affiliate with no buys
    let sli = sfl_info_value("5", "7", &[""], &[("", "6"), ("B", "10")]);
    let res = calc_superficial_loss_ratio(&sell_tx, MaybeSuperficialLossInfo::Superficial(sli))
        .unwrap()
        .unwrap();
    check_ratio(&res, "3", "3", &[("", "6", "6")], false);

    // Distributed ratios, including zero
    let sli = sfl_info_value("5", "7", &["", "B", "C"], &[("", "6"), ("B", "10"), ("C", "0")]);
    let res = calc_superficial_loss_ratio(&sell_tx, MaybeSuperficialLossInfo::Superficial(sli))
        .unwrap()
        .unwrap();
    check_ratio(&res, "3", "3", &[("", "6", "16"), ("B", "10", "16"), ("C", "0", "16")], false);

    // Low buyer shares: lower than sold shares, which is 3
    let sli = sfl_info_value("5", "7", &[""], &[("", "2")]);
    let res = calc_superficial_loss_ratio(&sell_tx, MaybeSuperficialLossInfo::Superficial(sli))
        .unwrap()
        .unwrap();
    check_ratio(&res, "3", "3", &[("", "2", "2")], true);

    // Zero denominator (all remaining shares are in non-active or sell-only AF)
    let sli = sfl_info_value("5", "7", &[""], &[("", "0")]);
    let res = calc_superficial_loss_ratio(&sell_tx, MaybeSuperficialLossInfo::Superficial(sli))
        .unwrap()
        .unwrap();
    check_ratio(&res, "3", "3", &[], true);
}

#[test]
fn test_calc_superficial_loss_ratio_with_stock_splits() {
    // Case: Split before SFL with preceding buys and sell
    let statuses = sfl_status(&[("", "328")]);
    let txs = vec![
        sfl_tx(0, A::Buy, "100", "1", ""),
        sfl_tx(1, A::Buy, "71", "1", ""),
        sfl_tx(1, A::Sell, "5", "1", ""),
        split_tx(3, "2-for-1", ""),
        sfl_tx(4, A::Buy, "1", "1", ""),
        sfl_tx(5, A::Sell, "5", "1", ""),
        sfl_tx(31, A::Sell, "7", "10000", ""),
    ];
    let minfo = get_superficial_loss_info(6, &txs, &statuses).unwrap();
    check_sfl_info(&minfo, 31, "321", "143", &[""], &[("", "321")]);

    // Case: Split before SFL where preceding sale would go below zero otherwise
    let statuses = sfl_status(&[("", "40")]);
    let txs = vec![
        sfl_tx(1, A::Buy, "100", "1", ""),
        split_tx(2, "2-for-1", ""),
        sfl_tx(3, A::Sell, "160", "1", ""),
        sfl_tx(31, A::Sell, "5", "10000", ""),
    ];
    let minfo = get_superficial_loss_info(3, &txs, &statuses).unwrap();
    check_sfl_info(&minfo, 31, "35", "200", &[""], &[("", "35")]);

    // Case: Split before SFL where preceding buy would put total below zero otherwise
    let statuses = sfl_status(&[("", "55")]);
    let txs = vec![
        sfl_tx(1, A::Buy, "10", "1", ""),
        sfl_tx(2, A::Buy, "100", "1", ""),
        split_tx(3, "1-for-2", ""),
        sfl_tx(31, A::Sell, "5", "10000", ""),
    ];
    let minfo = get_superficial_loss_info(3, &txs, &statuses).unwrap();
    check_sfl_info(&minfo, 31, "50", "55", &[""], &[("", "50")]);

    // Case: Split after SFL with followup buys
    let statuses = sfl_status(&[("", "100")]);
    let txs = vec![
        sfl_tx(0, A::Buy, "100", "1", ""),
        sfl_tx(31, A::Sell, "5", "10000", ""),
        sfl_tx(32, A::Buy, "10", "1", ""),
        sfl_tx(33, A::Sell, "5", "1", ""),
        split_tx(34, "2-for-1", ""),
        sfl_tx(35, A::Buy, "15", "1", ""),
        sfl_tx(36, A::Sell, "2", "1", ""),
    ];
    let minfo = get_superficial_loss_info(1, &txs, &statuses).unwrap();
    check_sfl_info(&minfo, 31, "106.5", "17.5", &[""], &[("", "106.5")]);

    // Case: Splits only (not superficial)
    let statuses = sfl_status(&[("", "40")]);
    let txs = vec![
        sfl_tx(0, A::Buy, "100", "1", ""),
        split_tx(3, "2-for-1", ""),
        split_tx(4, "1-for-5", ""),
        sfl_tx(31, A::Sell, "7", "10000", ""),
        split_tx(32, "3-for-1", ""),
        split_tx(32, "1-for-2", ""),
    ];
    let minfo = get_superficial_loss_info(3, &txs, &statuses).unwrap();
    assert!(!minfo.is_superficial());

    // Case: Split chaos before and after
    let statuses = sfl_status(&[("", "73.5")]);
    let txs = vec![
        sfl_tx(1, A::Buy, "40", "1", ""),
        split_tx(2, "3-for-1", ""),
        sfl_tx(3, A::Buy, "20", "1", ""),
        sfl_tx(4, A::Sell, "5", "1", ""),
        split_tx(5, "1-for-2", ""),
        sfl_tx(6, A::Buy, "10", "1", ""),
        sfl_tx(7, A::Sell, "4", "1", ""),
        sfl_tx(31, A::Sell, "6", "10000", ""),
        sfl_tx(40, A::Buy, "30", "1", ""),
        sfl_tx(41, A::Sell, "9", "1", ""),
        split_tx(42, "3-for-1", ""),
        sfl_tx(43, A::Buy, "15", "1", ""),
        sfl_tx(44, A::Sell, "11", "1", ""),
        split_tx(45, "1-for-2", ""),
        sfl_tx(46, A::Buy, "50", "1", ""),
        sfl_tx(47, A::Sell, "5", "1", ""),
    ];
    let minfo = get_superficial_loss_info(7, &txs, &statuses).unwrap();
    check_sfl_info(
        &minfo,
        31,
        "119.83333333333333333333333333",
        "148.33333333333333333333333333",
        &[""],
        &[("", "119.83333333333333333333333333")],
    );

    // Case: Multi-affiliate splits (or absence of splits)
    let statuses = sfl_status(&[("", "117"), ("(R)", "28")]);
    let txs = vec![
        sfl_tx(1, A::Buy, "40", "1", ""),
        sfl_tx(1, A::Sell, "1", "1", ""),
        sfl_tx(2, A::Buy, "30", "1", "(R)"),
        sfl_tx(2, A::Sell, "2", "1", "(R)"),
        split_tx(3, "3-for-1", ""),
        sfl_tx(31, A::Sell, "6", "10000", ""),
        split_tx(42, "2-for-1", "(R)"),
        sfl_tx(43, A::Buy, "50", "1", ""),
        sfl_tx(44, A::Sell, "4", "1", ""),
        sfl_tx(45, A::Buy, "60", "1", "(R)"),
        sfl_tx(46, A::Sell, "6", "1", "(R)"),
    ];
    let minfo = get_superficial_loss_info(5, &txs, &statuses).unwrap();
    check_sfl_info(&minfo, 31, "212", "230", &["", "(R)"], &[("", "157"), ("(R)", "55")]);
}

#[test]
fn test_find_all_affiliates() {
    let txs = vec![
        sfl_tx(10, A::Sell, "1", "1", ""),
        sfl_tx(10, A::Sell, "1", "1", ""),
        sfl_tx(10, A::Sell, "1", "1", "(R)"),
        // Not a valid sale in practice; it is only listed here.
        sfl_tx(10, A::Sell, "1", "1", "__global__"),
    ];
    let affs = find_all_non_global_affiliates(&txs);
    assert_eq!(affs, vec![Affiliate::default(), Affiliate::default_registered()]);
}

#[test]
fn test_split_by_security_keeps_every_tx() {
    let mk = |sec: &str, day: i32| {
        let mut t = sfl_tx(day, A::Buy, "1", "1", "");
        t.security = sec.to_string();
        t
    };
    let txs = vec![mk("B", 1), mk("A", 2), mk("B", 3), mk("C", 4), mk("A", 5)];
    let groups = split_txs_by_security(txs);
    let names: Vec<&str> = groups.iter().map(|g| g.0.as_str()).collect();
    assert_eq!(names, vec!["B", "A", "C"]);
    assert_eq!(groups.iter().map(|g| g.1.len()).sum::<usize>(), 5);
    assert_eq!(groups[0].1[1].trade_date, mk("B", 3).trade_date);
}

#[test]
fn test_total_is_sum_of_latest_balances() {
    let default_af = Affiliate::default();
    let af_b = Affiliate::from_strep("B");
    let mut statuses = AffiliatePortfolioSecurityStatuses::new(default_sec(), None);
    statuses.try_set_latest_post_status(&default_af, tpss_all("10", "10", Some("20")).x()).unwrap();
    statuses.try_set_latest_post_status(&af_b, tpss_all("5", "15", Some("10")).x()).unwrap();
    statuses.try_set_latest_post_status(&default_af, tpss_all("4", "9", Some("8")).x()).unwrap();
    let total = statuses.get_latest_post_status().all_affiliate_share_balance.get();
    let b = statuses.get_latest_post_status_for_affiliate(&af_b).unwrap().share_balance.get();
    let d = statuses.get_latest_post_status_for_affiliate(&default_af).unwrap().share_balance.get();
    assert!(total.value_eq(&b.checked_add(&d).unwrap()));
    assert_eq!(total.to_string(), "9");
    // A total that does not follow from the balances is refused.
    assert!(statuses.try_set_latest_post_status(&af_b, tpss_all("1", "9", Some("2")).x()).is_err());
}
