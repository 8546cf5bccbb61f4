use acb::portfolio::affiliate::Affiliate;
use acb::portfolio::currency::{Currency, CurrencyAndExchangeRate};
use acb::portfolio::tx::{
    BuyTxSpecifics, CsvTx, RocTxSpecifics, SFLInput, SellTxSpecifics, SflaTxSpecifics,
    SplitRatio, TotalAmount, TotalOrAmountPerShare, Tx, TxAction, TxActionSpecifics,
};
use acb::util::date::{parse_standard_date, Date};
use acb::util::decimal::{Dec, GreaterEqualZeroDecimal, PosDecimal};

fn dec(s: &str) -> Dec {
    Dec::parse(s).unwrap()
}

fn pos(d: Dec) -> PosDecimal {
    PosDecimal::try_from(d).unwrap()
}

fn pdec(s: &str) -> PosDecimal {
    pos(dec(s))
}

fn gez(d: Dec) -> GreaterEqualZeroDecimal {
    GreaterEqualZeroDecimal::try_from(d).unwrap()
}

fn split(pre: &str, post: &str, reverse_integer_only: bool) -> SplitRatio {
    SplitRatio { pre_split: pdec(pre), post_split: pdec(post), reverse_integer_only }
}

#[test]
#[should_panic]
fn test_bad_cad_rate() {
    // Must be 1.0
    CurrencyAndExchangeRate::try_new(Currency::cad(), pdec("1.3")).unwrap();
}

#[test]
#[should_panic]
fn test_zero_rate() {
    // The rate itself cannot be made.
    CurrencyAndExchangeRate::rq_new(Currency::usd(), pdec("0"));
}

#[test]
#[should_panic]
fn test_negative_rate() {
    // The rate itself cannot be made.
    CurrencyAndExchangeRate::rq_new(Currency::usd(), pdec("-1.0"));
}

#[test]
fn test_split_ratio() {
    // typical ratio
    let r = SplitRatio::parse("2-for-1").unwrap();
    assert_eq!(r, split("1", "2", false));
    assert_eq!(r.to_string(), "2-for-1");
    assert!(!r.is_reverse_split());

    // Padding/whitespace removal
    assert_eq!(r, SplitRatio::parse(" 2-for-1 ").unwrap());

    // Reverse split without decimals
    let r = SplitRatio::parse("1-for-2").unwrap();
    assert_eq!(r, split("2", "1", true));
    assert!(r.is_reverse_split());

    // Reverse split with decimals
    let r = SplitRatio::parse("1.0-for-2").unwrap();
    assert_eq!(r, split("2", "1", false));
    assert!(r.is_reverse_split());

    let r = SplitRatio::parse("1-for-2.0").unwrap();
    assert_eq!(r, split("2", "1", false));
    assert!(r.is_reverse_split());

    let r = SplitRatio::parse("1.5-for-2.5").unwrap();
    assert_eq!(r, split("2.5", "1.5", false));
    assert!(r.is_reverse_split());

    // 1:1
    assert!(!SplitRatio::parse("1-for-1").unwrap().is_reverse_split());

    // Format precision
    assert_eq!(SplitRatio::parse("2-for-1").unwrap().to_string_with_precision(2), "2.00-for-1.00");
    assert_eq!(SplitRatio::parse("2.0-for-1.0").unwrap().to_string(), "2-for-1");
    assert_eq!(SplitRatio::parse("1.00-for-2.00").unwrap().to_string(), "1.0-for-2.0");
    assert_eq!(SplitRatio::parse("2.1000-for-1.1000").unwrap().to_string(), "2.1000-for-1.1000");

    // Errors
    SplitRatio::parse("2:1").unwrap_err();
    SplitRatio::parse("-1-for-2").unwrap_err();
}

#[test]
fn test_split_ratio_factor() {
    assert_eq!(SplitRatio::parse("2-for-1").unwrap().pre_to_post_factor(), Some(pdec("2")));
    assert_eq!(SplitRatio::parse("1-for-4").unwrap().pre_to_post_factor(), Some(pdec("0.25")));
}

#[test]
fn test_get_sane_opt_amount_per_share() {
    let e = |s: &str| Err(s.to_string());
    let di = |i: i64| Ok(Some(Dec::new(i, 0)));

    let params: Vec<(Option<i64>, Option<i64>, Option<i64>, Result<Option<Dec>, String>)> = vec![
        // Shares,  per share, total,      result
        (None, None, None, Ok(None)),
        (
            None,
            None,
            Some(10),
            e("Unable to compute amount per share. 'total amount' specified, but 'shares' not found"),
        ),
        (None, Some(2), None, di(2)),
        (
            None,
            Some(2),
            Some(10),
            e("Both 'amount/share' and 'total amount' were specified. Only one may be specified"),
        ),
        (Some(2), None, None, Ok(None)),
        (Some(2), None, Some(10), di(5)),
        (Some(3), None, Some(10), Ok(Some(dec("3.3333333333333333333333333333")))),
        (Some(2), None, Some(0), di(0)),
        (
            Some(0),
            None,
            Some(10),
            e("Unable to compute amount per share. 'total amount' specified, but 'shares' is zero"),
        ),
        (Some(2), Some(5), None, di(5)),
        (
            Some(2),
            Some(5),
            Some(10),
            e("Both 'amount/share' and 'total amount' were specified. Only one may be specified"),
        ),
    ];

    let mut errs = vec![];
    for (shares, aps, total, exp_result) in params {
        let mut tx = CsvTx::default();
        tx.shares = shares.map(|i| Dec::new(i, 0));
        tx.amount_per_share = aps.map(|i| Dec::new(i, 0));
        tx.total_amount = total.map(|i| Dec::new(i, 0));

        let result = tx.get_sane_opt_amount_per_share();
        if result != exp_result {
            errs.push(format!(
                "shares: {:?}, aps: {:?}, total: {:?} -> {:?}. Was not {:?}",
                shares, aps, total, result, exp_result
            ));
        }
    }
    assert_eq!(errs.len(), 0, "Errors: {:#?}", errs);
}

fn tx_default() -> CsvTx {
    let mut c = CsvTx::default();
    c.security = Some("FOO".to_string());
    c.trade_date = Some(Date::min_date());
    c.settlement_date = Some(Date::min_date());
    c.action = Some(TxAction::Buy);
    c.shares = Some(dec("1"));
    c.amount_per_share = Some(dec("0"));
    c
}

fn doy_date(year: i32, day: i64) -> Date {
    Date::from_calendar_date(year, 1, 1).unwrap().saturating_add_days(day)
}

fn order_tx(settle_day: i64, read_index: u32) -> CsvTx {
    let mut c = tx_default();
    c.settlement_date = Some(doy_date(2024, settle_day));
    c.read_index = read_index;
    c
}

fn sort_csv(v: &mut Vec<CsvTx>) {
    for i in 1..v.len() {
        let mut j = i;
        while j > 0 && v[j].sorts_before(&v[j - 1]) {
            v.swap(j, j - 1);
            j -= 1;
        }
    }
}

fn sort_txs(v: &mut Vec<Tx>) {
    for i in 1..v.len() {
        let mut j = i;
        while j > 0 && v[j].sorts_before(&v[j - 1]) {
            v.swap(j, j - 1);
            j -= 1;
        }
    }
}

#[test]
fn test_tx_order() {
    let mut csv_txs = vec![
        order_tx(4, 2),
        order_tx(5, 1),
        order_tx(2, 4),
        order_tx(4, 3),
        order_tx(1, 5),
    ];
    let mut txs: Vec<Tx> = csv_txs.iter().map(|c| Tx::try_from(c.clone()).unwrap()).collect();

    let exp_csv_txs = vec![
        order_tx(1, 5),
        order_tx(2, 4),
        order_tx(4, 2),
        order_tx(4, 3),
        order_tx(5, 1),
    ];
    let exp_txs: Vec<Tx> = exp_csv_txs.iter().map(|c| Tx::try_from(c.clone()).unwrap()).collect();

    sort_csv(&mut csv_txs);
    assert_eq!(csv_txs, exp_csv_txs);

    // Tx should have the same order
    sort_txs(&mut txs);
    assert_eq!(txs, exp_txs);
}

fn fully_populated_csvtx(action: TxAction, use_total: bool) -> CsvTx {
    CsvTx {
        security: Some("FOO".to_string()),
        trade_date: Some(parse_standard_date("2022-10-20").unwrap()),
        settlement_date: Some(parse_standard_date("2022-10-21").unwrap()),
        action: Some(action),
        shares: Some(dec("123.1")),
        amount_per_share: if use_total { None } else { Some(dec("10.1")) },
        total_amount: if use_total {
            Some(dec("10.1").checked_mul(&dec("123.1")).unwrap())
        } else {
            None
        },
        commission: Some(dec("1.01")),
        tx_currency: Some(Currency::usd()),
        tx_curr_to_local_exchange_rate: Some(dec("1.21")),
        commission_currency: Some(Currency::new("EUR")),
        commission_curr_to_local_exchange_rate: Some(dec("2.01")),
        memo: Some("A memo".to_string()),
        affiliate: Some(Affiliate::default_registered()),
        // Ignored for buy
        specified_superficial_loss: Some(SFLInput::req_from_dec(dec("-2.5"), false)),
        // Ignored for anything but split
        stock_split_ratio: Some(SplitRatio::parse("2-for-1").unwrap()),
        read_index: 5,
    }
}

fn barebones_valid_sample_csvtx(action: TxAction) -> CsvTx {
    let mut c = CsvTx::default();
    c.security = Some("FOO".to_string());
    c.trade_date = Some(parse_standard_date("2022-10-20").unwrap());
    c.settlement_date = Some(parse_standard_date("2022-10-21").unwrap());
    c.action = Some(action);
    c.shares = Some(dec("123.1"));
    c.amount_per_share = Some(dec("10.1"));
    c.read_index = 5;
    c
}

fn with_specifics(base: &Tx, specs: TxActionSpecifics) -> Tx {
    Tx {
        security: base.security.clone(),
        trade_date: base.trade_date,
        settlement_date: base.settlement_date,
        action_specifics: specs,
        memo: base.memo.clone(),
        affiliate: base.affiliate.clone(),
        read_index: base.read_index,
    }
}

fn do_test_csvtx_to_tx_full(use_total_amount: bool) {
    let buy_csvtx = fully_populated_csvtx(TxAction::Buy, use_total_amount);
    let sell_csvtx = fully_populated_csvtx(TxAction::Sell, use_total_amount);
    let mut sfla_csvtx = fully_populated_csvtx(TxAction::Sfla, use_total_amount);
    sfla_csvtx.tx_curr_to_local_exchange_rate = None;
    sfla_csvtx.tx_currency = None;
    if use_total_amount {
        sfla_csvtx.shares = None;
    }
    let mut roc_csvtx = fully_populated_csvtx(TxAction::Roc, use_total_amount);
    roc_csvtx.shares = None;

    let rate = |c: &CsvTx| {
        CurrencyAndExchangeRate::rq_new(
            c.tx_currency.clone().unwrap(),
            pos(c.tx_curr_to_local_exchange_rate.unwrap()),
        )
    };
    let comm_rate = |c: &CsvTx| {
        Some(CurrencyAndExchangeRate::rq_new(
            c.commission_currency.clone().unwrap(),
            pos(c.commission_curr_to_local_exchange_rate.unwrap()),
        ))
    };

    let exp_buy_tx = Tx {
        security: buy_csvtx.security.clone().unwrap(),
        trade_date: buy_csvtx.trade_date.unwrap(),
        settlement_date: buy_csvtx.settlement_date.unwrap(),
        action_specifics: TxActionSpecifics::Buy(BuyTxSpecifics {
            shares: pos(buy_csvtx.shares.unwrap()),
            amount_per_share: gez(dec("10.1")),
            commission: gez(buy_csvtx.commission.unwrap()),
            tx_currency_and_rate: rate(&buy_csvtx),
            separate_commission_currency: comm_rate(&buy_csvtx),
        }),
        memo: buy_csvtx.memo.clone().unwrap(),
        affiliate: buy_csvtx.affiliate.clone().unwrap(),
        read_index: buy_csvtx.read_index,
    };

    let tx = Tx::try_from(buy_csvtx.clone()).unwrap();
    assert_eq!(tx, exp_buy_tx);
    // Going from Tx to CsvTx and back is stable.
    assert_eq!(Tx::try_from(tx.to_csvtx()).unwrap(), tx);

    let exp_sell_tx = with_specifics(
        &exp_buy_tx,
        TxActionSpecifics::Sell(SellTxSpecifics {
            shares: pos(sell_csvtx.shares.unwrap()),
            amount_per_share: gez(dec("10.1")),
            commission: gez(sell_csvtx.commission.unwrap()),
            tx_currency_and_rate: rate(&sell_csvtx),
            separate_commission_currency: comm_rate(&sell_csvtx),
            specified_superficial_loss: sell_csvtx.specified_superficial_loss.clone(),
        }),
    );
    let tx = Tx::try_from(sell_csvtx).unwrap();
    assert_eq!(tx, exp_sell_tx);
    assert_eq!(Tx::try_from(tx.to_csvtx()).unwrap(), tx);

    let exp_sfla_tx = with_specifics(
        &exp_buy_tx,
        if use_total_amount {
            TxActionSpecifics::Sfla(SflaTxSpecifics::from_total(pos(sfla_csvtx
                .total_amount
                .unwrap())))
        } else {
            TxActionSpecifics::Sfla(SflaTxSpecifics::from_per_share(
                pos(sfla_csvtx.shares.unwrap()),
                pos(sfla_csvtx.amount_per_share.unwrap()),
            ))
        },
    );
    let tx = Tx::try_from(sfla_csvtx).unwrap();
    assert_eq!(tx, exp_sfla_tx);
    assert_eq!(Tx::try_from(tx.to_csvtx()).unwrap(), tx);

    let exp_roc_tx = with_specifics(
        &exp_buy_tx,
        TxActionSpecifics::Roc(RocTxSpecifics {
            amount: if roc_csvtx.amount_per_share.is_some() {
                TotalOrAmountPerShare::AmountPerShare(gez(roc_csvtx.amount_per_share.unwrap()))
            } else {
                TotalOrAmountPerShare::Total(gez(roc_csvtx.total_amount.unwrap()))
            },
            tx_currency_and_rate: rate(&roc_csvtx),
        }),
    );
    let tx = Tx::try_from(roc_csvtx).unwrap();
    assert_eq!(tx, exp_roc_tx);
    assert_eq!(Tx::try_from(tx.to_csvtx()).unwrap(), tx);
}

#[test]
fn test_csvtx_to_tx_full_amt_per_share() {
    do_test_csvtx_to_tx_full(false);
}

#[test]
fn test_csvtx_to_tx_full_total_amt() {
    do_test_csvtx_to_tx_full(true);
}

#[test]
fn test_csvtx_to_tx_defaults_and_optionals() {
    let buy_csvtx = barebones_valid_sample_csvtx(TxAction::Buy);
    let exp_buy_tx = Tx {
        security: buy_csvtx.security.clone().unwrap(),
        trade_date: buy_csvtx.trade_date.unwrap(),
        settlement_date: buy_csvtx.settlement_date.unwrap(),
        action_specifics: TxActionSpecifics::Buy(BuyTxSpecifics {
            shares: pos(buy_csvtx.shares.unwrap()),
            amount_per_share: gez(buy_csvtx.amount_per_share.unwrap()),
            commission: gez(dec("0")),
            tx_currency_and_rate: CurrencyAndExchangeRate::default(),
            separate_commission_currency: None,
        }),
        memo: String::new(),
        affiliate: Affiliate::default(),
        read_index: buy_csvtx.read_index,
    };
    let tx = Tx::try_from(buy_csvtx).unwrap();
    assert_eq!(tx, exp_buy_tx);
    assert_eq!(Tx::try_from(tx.to_csvtx()).unwrap(), tx);

    let sell_csvtx = barebones_valid_sample_csvtx(TxAction::Sell);
    let exp_sell_tx = Tx {
        security: sell_csvtx.security.clone().unwrap(),
        trade_date: sell_csvtx.trade_date.unwrap(),
        settlement_date: sell_csvtx.settlement_date.unwrap(),
        action_specifics: TxActionSpecifics::Sell(SellTxSpecifics {
            shares: pos(sell_csvtx.shares.unwrap()),
            amount_per_share: gez(sell_csvtx.amount_per_share.unwrap()),
            commission: gez(dec("0")),
            tx_currency_and_rate: CurrencyAndExchangeRate::default(),
            separate_commission_currency: None,
            specified_superficial_loss: None,
        }),
        memo: String::new(),
        affiliate: Affiliate::default(),
        read_index: sell_csvtx.read_index,
    };
    let tx = Tx::try_from(sell_csvtx).unwrap();
    assert_eq!(tx, exp_sell_tx);
    assert_eq!(Tx::try_from(tx.to_csvtx()).unwrap(), tx);
}

#[test]
fn test_csvtx_to_tx_err() {
    // This could be one of any of the errors.
    let _ = Tx::try_from(CsvTx::default()).unwrap_err();

    // Missing security
    let mut buy_csvtx = barebones_valid_sample_csvtx(TxAction::Buy);
    buy_csvtx.security = None;
    assert_eq!(Tx::try_from(buy_csvtx).unwrap_err(), "\"security\" not found");

    // Missing trade date
    let mut buy_csvtx = barebones_valid_sample_csvtx(TxAction::Buy);
    buy_csvtx.trade_date = None;
    assert_eq!(Tx::try_from(buy_csvtx).unwrap_err(), "\"trade date\" not found");

    // Both total amount and amount/share
    let mut buy_csvtx = barebones_valid_sample_csvtx(TxAction::Buy);
    buy_csvtx.total_amount = Some(dec("5.0"));
    assert_eq!(
        Tx::try_from(buy_csvtx).unwrap_err(),
        "Both 'amount/share' and 'total amount' were specified. Only one may be specified"
    );

    // No action
    let mut buy_csvtx = barebones_valid_sample_csvtx(TxAction::Buy);
    buy_csvtx.action = None;
    assert_eq!(
        Tx::try_from(buy_csvtx).unwrap_err(),
        "\"action\" not specified. security: Some(\"FOO\"), trade date: Some(2022-10-20)"
    );

    // Currency but no exchange rate (and inverse)
    let mut buy_csvtx = barebones_valid_sample_csvtx(TxAction::Buy);
    buy_csvtx.tx_currency = Some(Currency::usd());
    assert_eq!(
        Tx::try_from(buy_csvtx).unwrap_err(),
        "\"currency\" specified but \"exchange rate\" not found"
    );

    let mut buy_csvtx = barebones_valid_sample_csvtx(TxAction::Buy);
    buy_csvtx.tx_curr_to_local_exchange_rate = Some(dec("1.2"));
    assert_eq!(
        Tx::try_from(buy_csvtx).unwrap_err(),
        "\"exchange rate\" specified but \"currency\" not found"
    );

    // CAD doesn't need a rate, and if it has one, it must be 1
    let mut buy_csvtx = barebones_valid_sample_csvtx(TxAction::Buy);
    buy_csvtx.tx_currency = Some(Currency::cad());
    let tx = Tx::try_from(buy_csvtx).unwrap();
    assert_eq!(tx.buy_specifics().unwrap().tx_currency_and_rate.currency, Currency::cad());
    assert_eq!(tx.buy_specifics().unwrap().tx_currency_and_rate.exchange_rate, pdec("1"));

    // Invalid default rate
    let mut buy_csvtx = barebones_valid_sample_csvtx(TxAction::Buy);
    buy_csvtx.tx_currency = Some(Currency::cad());
    buy_csvtx.tx_curr_to_local_exchange_rate = Some(dec("1.2"));
    assert_eq!(
        Tx::try_from(buy_csvtx).unwrap_err(),
        "Default currency (CAD) exchange rate was not 1 (was 1.2)"
    );

    // Commission currency but no rate
    let mut buy_csvtx = barebones_valid_sample_csvtx(TxAction::Buy);
    buy_csvtx.commission_currency = Some(Currency::usd());
    assert_eq!(
        Tx::try_from(buy_csvtx).unwrap_err(),
        "\"commission currency\" specified but \"commission exchange rate\" not found"
    );

    // Non-CAD SFLA
    let mut sfla_csvtx = barebones_valid_sample_csvtx(TxAction::Sfla);
    sfla_csvtx.tx_currency = Some(Currency::usd());
    sfla_csvtx.tx_curr_to_local_exchange_rate = Some(dec("1.5"));
    assert_eq!(Tx::try_from(sfla_csvtx).unwrap_err(), "SfLA currency must be CAD/default");

    // Invalid RoC, with specified shares
    let roc_csvtx = barebones_valid_sample_csvtx(TxAction::Roc);
    assert_eq!(
        Tx::try_from(roc_csvtx).unwrap_err(),
        "RoC should not specify shares (found 123.1). This amount is automatic (the current share balance)"
    );
}

#[test]
fn test_try_from_further_error_texts() {
    let mut c = barebones_valid_sample_csvtx(TxAction::Buy);
    c.settlement_date = None;
    assert_eq!(Tx::try_from(c).unwrap_err(), "\"settlement date\" not found");

    let mut c = barebones_valid_sample_csvtx(TxAction::Buy);
    c.security = Some(String::new());
    assert_eq!(Tx::try_from(c).unwrap_err(), "\"security\" was empty");

    // The action's problem is reported before a missing security.
    let mut c = barebones_valid_sample_csvtx(TxAction::Buy);
    c.security = None;
    c.shares = None;
    assert_eq!(Tx::try_from(c).unwrap_err(), "\"shares\" not found");

    let c = barebones_valid_sample_csvtx(TxAction::Split);
    assert_eq!(Tx::try_from(c).unwrap_err(), "Split \"split ratio\" not found");

    let mut c = barebones_valid_sample_csvtx(TxAction::Roc);
    c.shares = None;
    c.amount_per_share = None;
    assert_eq!(Tx::try_from(c).unwrap_err(), "RoC 'amount/share' or 'total amount' not found");

    let mut c = barebones_valid_sample_csvtx(TxAction::Roc);
    c.shares = None;
    c.amount_per_share = Some(dec("-1.5"));
    assert_eq!(
        Tx::try_from(c).unwrap_err(),
        "RoC \"amount/share\" must not be negative. Found -1.5"
    );

    let mut c = barebones_valid_sample_csvtx(TxAction::Sfla);
    c.shares = None;
    c.amount_per_share = None;
    c.total_amount = Some(dec("-2"));
    assert_eq!(Tx::try_from(c).unwrap_err(), "SfLA total amount must be positive (found -2)");

    let mut c = barebones_valid_sample_csvtx(TxAction::Sfla);
    c.shares = None;
    assert_eq!(
        Tx::try_from(c).unwrap_err(),
        "SfLA Unable to compute total amount. 'amount/share' specified, but 'shares' not found"
    );

    let mut c = barebones_valid_sample_csvtx(TxAction::Sfla);
    c.amount_per_share = Some(dec("0"));
    assert_eq!(Tx::try_from(c).unwrap_err(), "SfLA amount/share must be positive (found 0)");

    let mut c = barebones_valid_sample_csvtx(TxAction::Sell);
    c.shares = Some(dec("0"));
    assert_eq!(Tx::try_from(c).unwrap_err(), "Sell shares must be a positive value");
}

#[test]
fn test_read_transaction_round_trip() {
    for action in [TxAction::Buy, TxAction::Sell, TxAction::Roc, TxAction::Sfla, TxAction::Split] {
        let mut c = fully_populated_csvtx(action, false);
        if action == TxAction::Roc {
            c.shares = None;
        }
        if action == TxAction::Sfla {
            c.tx_currency = None;
            c.tx_curr_to_local_exchange_rate = None;
        }
        let t = Tx::try_from(c).unwrap();
        let back = Tx::try_from(t.to_csvtx()).unwrap();
        assert_eq!(back, t);
    }
}

#[test]
fn test_checked_total_amount() {
    let by_share = TotalAmount::from_per_share(dec("2"), dec("3.5"));
    assert_eq!(by_share.checked_total_amount().unwrap().to_string(), "7.0");
    let explicit = TotalAmount::from_total(dec("4.25"));
    assert_eq!(explicit.checked_total_amount().unwrap().to_string(), "4.25");
    let huge = TotalAmount::from_per_share(dec("79228162514264337593543950335"), dec("2"));
    assert!(huge.checked_total_amount().is_none());

    let pos_by_share = TotalAmount::from_per_share(pdec("3"), pdec("1.5"));
    assert_eq!(pos_by_share.checked_total_amount_pos().unwrap().get().to_string(), "4.5");
    let pos_huge = TotalAmount::from_per_share(pdec("79228162514264337593543950335"), pdec("2"));
    assert!(pos_huge.checked_total_amount_pos().is_none());
    let pos_tiny = TotalAmount::from_per_share(
        pdec("0.0000000000000001"),
        pdec("0.0000000000000001"),
    );
    assert!(pos_tiny.checked_total_amount_pos().is_none());
}
