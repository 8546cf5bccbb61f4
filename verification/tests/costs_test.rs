use acb::portfolio::affiliate::Affiliate;
use acb::portfolio::bookkeeping::costs::{
    calc_max_day_cost_per_sec, calc_total_costs, MaxSingleDayCosts,
};
use acb::portfolio::bookkeeping::delta_list::txs_to_delta_list;
use acb::portfolio::currency::{Currency, CurrencyAndExchangeRate};
use acb::portfolio::render::render_total_costs;
use acb::portfolio::tx::{
    CsvTx, RocTxSpecifics, TotalOrAmountPerShare, Tx, TxAction as A, TxActionSpecifics,
};
use acb::portfolio::txdelta::{PortfolioSecurityStatus, TxDelta};
use acb::util::date::parse_standard_date;
use acb::util::decimal::{Dec, GreaterEqualZeroDecimal};

fn d(s: &str) -> Dec {
    Dec::parse(s).unwrap()
}

fn gez(s: &str) -> GreaterEqualZeroDecimal {
    GreaterEqualZeroDecimal::try_from(d(s)).unwrap()
}

fn tx(sec: &str, settle: &str, act: A, shares: &str, price: &str, af: &str) -> Tx {
    let s = parse_standard_date(settle).unwrap();
    let mut c = CsvTx::default();
    c.security = Some(sec.to_string());
    c.trade_date = Some(s.saturating_add_days(-2));
    c.settlement_date = Some(s);
    c.action = Some(act);
    c.shares = Some(d(shares));
    c.amount_per_share = Some(d(price));
    c.tx_currency = Some(Currency::cad());
    c.tx_curr_to_local_exchange_rate = Some(d("1"));
    c.affiliate = Some(Affiliate::from_strep(af));
    Tx::try_from(c).unwrap()
}

fn deltas(txs: Vec<Tx>) -> Vec<TxDelta> {
    txs_to_delta_list(&txs).0.unwrap()
}

/// The deltas of two securities, SECA and XXXX, and one registered
/// transaction that is left out.
fn example_deltas() -> Vec<TxDelta> {
    let mut all = deltas(vec![
        tx("SECA", "2001-01-13", A::Buy, "1", "100", ""),
        tx("SECA", "2001-03-15", A::Sell, "1", "100", ""),
        tx("SECA", "2001-05-17", A::Buy, "2", "100", ""),
        tx("SECA", "2003-01-01", A::Sell, "2", "100", ""),
    ]);
    all.append(&mut deltas(vec![
        tx("XXXX", "2001-02-14", A::Buy, "9", "10", ""),
        tx("XXXX", "2001-04-16", A::Sell, "1", "10", ""),
        tx("XXXX", "2001-05-17", A::Sell, "1", "10", ""),
        tx("XXXX", "2003-01-02", A::Buy, "1", "10", "(R)"),
    ]));
    all
}

fn check_day(c: &MaxSingleDayCosts, day: &str, total: &str, seca: &str, xxxx: &str) {
    assert_eq!(c.day.to_string(), day);
    assert_eq!(c.total, gez(total));
    assert_eq!(c.sec_max_cost_for_day.len(), 2);
    for (sec, v) in &c.sec_max_cost_for_day {
        let exp = if sec == "SECA" { seca } else { xxxx };
        assert_eq!(*v, gez(exp), "{} on {}", sec, day);
    }
}

#[test]
fn test_calc_max_day_cost_per_sec() {
    let costs = calc_max_day_cost_per_sec(&vec![]).unwrap();
    assert!(costs.max_costs_by_day.is_empty());
    assert!(costs.security_set.is_empty());
    assert!(costs.ignored_delta_descs.is_empty());
}

#[test]
fn test_total_costs_example() {
    let costs = calc_total_costs(&example_deltas()).unwrap();
    assert_eq!(costs.total.len(), 6);
    check_day(&costs.total[0], "2001-01-13", "100", "100", "0");
    check_day(&costs.total[1], "2001-02-14", "190", "100", "90");
    check_day(&costs.total[2], "2001-03-15", "90", "0", "90");
    check_day(&costs.total[3], "2001-04-16", "80", "0", "80");
    check_day(&costs.total[4], "2001-05-17", "270", "200", "70");
    check_day(&costs.total[5], "2003-01-01", "70", "0", "70");
    assert_eq!(
        costs.ignored_deltas,
        vec!["2003-01-02 (XXXX) ignored transaction from registered affiliate".to_string()]
    );

    assert_eq!(costs.sorted_years(), vec![2001, 2003]);
    let year = |y: i32| &costs.yearly.iter().find(|p| p.0 == y).unwrap().1;
    check_day(year(2001), "2001-05-17", "270", "200", "70");
    check_day(year(2003), "2003-01-01", "70", "0", "70");

    let tables = render_total_costs(&costs, false, false);
    assert_eq!(tables.total.header, vec!["Date", "Total", "SECA", "XXXX"]);
    assert_eq!(tables.total.rows[1], vec!["2001-02-14", "$190.00", "$100.00", "$90.00"]);
    assert_eq!(tables.total.rows[4], vec!["2001-05-17", "$270.00", "$200.00", "$70.00"]);
    assert_eq!(tables.yearly.header, vec!["Year", "Date", "Total", "SECA", "XXXX"]);
    assert_eq!(
        tables.yearly.rows,
        vec![
            vec!["2001", "2001-05-17", "$270.00", "$200.00", "$70.00"],
            vec!["2003", "2003-01-01", "$70.00", "$0.00", "$70.00"],
        ]
    );
    assert_eq!(tables.yearly.notes, costs.ignored_deltas);
}

#[test]
fn test_costs_ignore_non_default_affiliate() {
    let ds = deltas(vec![
        tx("FOO", "2020-01-10", A::Buy, "2", "5", ""),
        tx("FOO", "2020-01-11", A::Buy, "3", "5", "Spouse"),
    ]);
    let costs = calc_total_costs(&ds).unwrap();
    assert_eq!(costs.total.len(), 1);
    assert_eq!(costs.total[0].total, gez("10"));
    assert_eq!(
        costs.ignored_deltas,
        vec!["2020-01-11 (FOO) ignored transaction from non-default affiliate Spouse".to_string()]
    );
}

#[test]
fn test_costs_unsorted_deltas_error() {
    let mut ds = deltas(vec![
        tx("FOO", "2020-01-10", A::Buy, "2", "5", ""),
        tx("FOO", "2020-02-10", A::Buy, "2", "5", ""),
    ]);
    ds.swap(0, 1);
    let err = match calc_total_costs(&ds) {
        Err(e) => e,
        Ok(_) => panic!("unsorted deltas were accepted"),
    };
    assert_eq!(err, "Deltas for FOO were not sorted by settlement date");
}

#[test]
fn test_single_day_costs_keep_the_highest() {
    let mut day = MaxSingleDayCosts::new(parse_standard_date("2020-01-01").unwrap());
    let foo = "FOO".to_string();
    let bar = "BAR".to_string();
    day.observe_new_cost(&foo, gez("10")).unwrap();
    day.observe_new_cost(&foo, gez("4")).unwrap();
    day.observe_new_cost(&bar, gez("3")).unwrap();
    day.observe_new_cost(&foo, gez("12")).unwrap();
    assert_eq!(day.cost_of(&foo), Some(gez("12")));
    assert_eq!(day.cost_of(&bar), Some(gez("3")));
    assert_eq!(day.cost_of(&"BAZ".to_string()), None);
    assert_eq!(day.total, gez("15"));
}

/// A delta that only carries a settlement date and a total ACB after it
/// (none for a registered affiliate).
fn cost_delta(sec: &str, settle: &str, total_acb: &str, af: &str) -> TxDelta {
    let acb = if total_acb.is_empty() { None } else { Some(gez(total_acb)) };
    TxDelta {
        tx: Tx {
            security: sec.to_string(),
            trade_date: parse_standard_date("1970-01-01").unwrap(),
            settlement_date: parse_standard_date(settle).unwrap(),
            action_specifics: TxActionSpecifics::Roc(RocTxSpecifics {
                amount: TotalOrAmountPerShare::AmountPerShare(gez("0")),
                tx_currency_and_rate: CurrencyAndExchangeRate::default(),
            }),
            memo: String::new(),
            affiliate: Affiliate::from_strep(af),
            read_index: 0,
        },
        pre_status: PortfolioSecurityStatus {
            security: sec.to_string(),
            share_balance: gez("0"),
            all_affiliate_share_balance: gez("0"),
            total_acb: Some(gez("0")),
        },
        post_status: PortfolioSecurityStatus {
            security: sec.to_string(),
            share_balance: gez("0"),
            all_affiliate_share_balance: gez("0"),
            total_acb: acb,
        },
        capital_gain: None,
        sfl: None,
    }
}

fn dollars(row: &[&str], from: usize) -> Vec<String> {
    row.iter()
        .enumerate()
        .map(|(i, c)| {
            if i >= from {
                format!("${}", d(c.trim()).to_string_with_precision(2))
            } else {
                c.to_string()
            }
        })
        .collect()
}

#[test]
fn test_render_total_costs() {
    let data = vec![
        ("SECA", "2001-01-13", "100", ""),
        ("XXXX", "2001-02-14", "90", ""),
        ("SECA", "2001-03-15", "0", ""),
        ("XXXX", "2001-04-16", "80", ""),
        ("SECA", "2001-05-17", "200", ""),
        ("XXXX", "2001-05-17", "70", ""),
        ("SECA", "2003-01-01", "0", ""),
        ("SECA", "2003-01-02", "150", ""),
        ("XXXX", "2003-01-02", "35", ""),
        ("TFSA", "2003-01-02", "", ""),
        ("SPSE", "2003-01-02", "100", "Spouse"),
        ("SECA", "2003-01-03", "0", ""),
    ];
    let mut by_security = data.clone();
    // Sorted by security, each security's deltas still by date.
    by_security.sort_by(|a, b| a.0.cmp(b.0).then(a.1.cmp(b.1)));

    for order in [data, by_security] {
        let deltas: Vec<TxDelta> =
            order.iter().map(|(s, day, acb, af)| cost_delta(s, day, acb, af)).collect();
        let costs = calc_total_costs(&deltas).unwrap();
        let tables = render_total_costs(&costs, false, false);

        let mut notes = vec![
            "2003-01-02 (TFSA) ignored transaction from registered affiliate".to_string(),
            "2003-01-02 (SPSE) ignored transaction from non-default affiliate Spouse".to_string(),
        ];
        notes.sort();

        assert_eq!(tables.total.header, vec!["Date", "Total", "SECA", "XXXX"]);
        let exp_rows: Vec<Vec<String>> = vec![
            dollars(&["2001-01-13", "100", "100", " 0"], 1),
            dollars(&["2001-02-14", "190", "100", "90"], 1),
            dollars(&["2001-03-15", " 90", "  0", "90"], 1),
            dollars(&["2001-04-16", " 80", "  0", "80"], 1),
            dollars(&["2001-05-17", "270", "200", "70"], 1),
            dollars(&["2003-01-01", " 70", "  0", "70"], 1),
            dollars(&["2003-01-02", "185", "150", "35"], 1),
            dollars(&["2003-01-03", " 35", "  0", "35"], 1),
        ];
        assert_eq!(tables.total.rows, exp_rows);
        let mut got_notes = tables.total.notes.clone();
        got_notes.sort();
        assert_eq!(got_notes, notes);

        assert_eq!(tables.yearly.header, vec!["Year", "Date", "Total", "SECA", "XXXX"]);
        let exp_year: Vec<Vec<String>> = vec![
            dollars(&["2001", "2001-05-17", "270", "200", "70"], 2),
            dollars(&["2003", "2003-01-02", "185", "150", "35"], 2),
        ];
        assert_eq!(tables.yearly.rows, exp_year);
        let mut got_notes = tables.yearly.notes.clone();
        got_notes.sort();
        assert_eq!(got_notes, notes);
    }
}

#[test]
fn test_checked_acb_delta() {
    let delta = cost_delta("FOO", "2020-01-01", "12.5", "");
    assert_eq!(delta.checked_acb_delta().unwrap().unwrap().to_string(), "12.5");
    assert_eq!(delta.acb_delta().unwrap().to_string(), "12.5");

    let registered = cost_delta("FOO", "2020-01-01", "", "(R)");
    assert_eq!(registered.checked_acb_delta(), Some(None));
}
