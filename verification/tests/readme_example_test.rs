use acb::portfolio::bookkeeping::delta_list::txs_to_delta_list;
use acb::portfolio::cumulative_gains::calc_security_cumulative_capital_gains;
use acb::portfolio::io::tx_csv::parse_tx_csv;
use acb::portfolio::misc::split_txs_by_security;
use acb::portfolio::tx::{Tx, TxAction};
use acb::util::decimal::{Dec, GreaterEqualZeroDecimal};

fn d(s: &str) -> Dec {
    Dec::parse(s).unwrap()
}

fn gez(s: &str) -> GreaterEqualZeroDecimal {
    GreaterEqualZeroDecimal::try_from(d(s)).unwrap()
}

/// The rows of the README's example whose exchange rates are all given.
const DEMO_CSV: &str = "security,trade date,settlement date,action,shares,amount/share,currency,exchange rate,commission,memo
BAR,2017-01-04,2017-01-06,Buy,5,50,,,2,
BAR,2017-01-06,2017-01-08,Sell,1,60,,,,
FOO,2018-02-05,2018-02-07,Buy,20,1.5,USD,1.2,1,
FOO,2018-02-06,2018-02-08,Sell,10,1.49,USD,1.2,,Sell to cover taxes (superficial loss)
";

#[test]
fn test_readme_example_acb_and_gains() {
    let (csv_txs, warnings) = parse_tx_csv("demo.csv", DEMO_CSV.as_bytes(), 0).unwrap();
    assert!(warnings.is_empty());
    let txs: Vec<Tx> = csv_txs.into_iter().map(|c| Tx::try_from(c).unwrap()).collect();
    let by_sec = split_txs_by_security(txs);
    assert_eq!(by_sec.len(), 2);
    assert_eq!(by_sec[0].0, "BAR");
    assert_eq!(by_sec[1].0, "FOO");

    // BAR: buy 5 at $50 with $2 commission, then sell 1 at $60.
    let bar = txs_to_delta_list(&by_sec[0].1).0.unwrap();
    assert_eq!(bar.len(), 2);
    assert_eq!(bar[0].post_status.total_acb, Some(gez("252.00")));
    assert_eq!(bar[0].post_status.share_balance, gez("5"));
    // Only sales realize gains.
    assert_eq!(bar[0].capital_gain, None);
    assert!(bar[0].sfl.is_none());
    assert_eq!(bar[1].capital_gain, Some(d("9.60")));
    assert_eq!(bar[1].post_status.total_acb, Some(gez("201.60")));
    assert_eq!(bar[1].post_status.share_balance, gez("4"));
    let bar_gains = calc_security_cumulative_capital_gains(&bar).unwrap();
    assert_eq!(bar_gains.capital_gains_total, d("9.60"));
    assert_eq!(bar_gains.capital_gains_years_totals, vec![(2017, d("9.60"))]);

    // FOO: the sale at a loss is followed by a purchase within 30 days, so the
    // loss is superficial and added back to the ACB.
    let foo = txs_to_delta_list(&by_sec[1].1).0.unwrap();
    assert_eq!(foo.len(), 3);
    assert_eq!(foo[0].post_status.total_acb, Some(gez("37.20")));
    assert_eq!(foo[1].capital_gain, Some(d("0")));
    assert_eq!(foo[1].sfl.as_ref().unwrap().superficial_loss, d("-0.72"));
    assert_eq!(foo[1].post_status.total_acb, Some(gez("18.60")));
    assert_eq!(foo[2].tx.action(), TxAction::Sfla);
    assert_eq!(foo[2].capital_gain, None);
    assert!(foo[2].sfl.is_none());
    assert_eq!(foo[2].post_status.total_acb, Some(gez("19.32")));
    assert_eq!(foo[2].post_status.share_balance, gez("10"));
}
