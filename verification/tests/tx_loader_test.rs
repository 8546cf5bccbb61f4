use acb::portfolio::currency::Currency;
use acb::portfolio::io::tx_loader::{apply_loaded_rates, needs_loaded_rate, rate_lookups};
use acb::portfolio::tx::CsvTx;
use acb::util::date::Date;
use acb::util::decimal::Dec;

fn d(s: &str) -> Dec {
    Dec::parse(s).unwrap()
}

fn day(doy: i64) -> Option<Date> {
    Some(Date::from_calendar_date(2024, 1, 1).unwrap().saturating_add_days(doy))
}

fn tx(
    curr: Option<Currency>,
    rate: Option<&str>,
    comm_curr: Option<Currency>,
    comm_rate: Option<&str>,
) -> CsvTx {
    let mut c = CsvTx::default();
    c.trade_date = day(11);
    c.tx_currency = curr;
    c.tx_curr_to_local_exchange_rate = rate.map(d);
    c.commission_currency = comm_curr;
    c.commission_curr_to_local_exchange_rate = comm_rate.map(d);
    c
}

#[test]
fn test_rate_lookups_decisions() {
    let usd = || Some(Currency::usd());
    let cad = || Some(Currency::cad());
    let cases = vec![
        (tx(usd(), None, usd(), None), (true, true)),
        (tx(cad(), None, cad(), None), (false, false)),
        (tx(None, None, None, None), (false, false)),
        (tx(usd(), None, cad(), None), (true, false)),
        (tx(None, None, usd(), None), (false, true)),
        (tx(usd(), Some("1.6"), usd(), None), (false, true)),
        (tx(usd(), None, usd(), Some("1.5")), (true, false)),
        (tx(usd(), Some("1.7"), usd(), Some("1.8")), (false, false)),
    ];
    for (c, (a, b)) in cases {
        let (date, x, y) = rate_lookups(&c).unwrap();
        assert_eq!(Some(date), day(11));
        assert_eq!((x, y), (a, b));
    }
}

#[test]
fn test_rate_lookups_errors() {
    assert_eq!(rate_lookups(&CsvTx::default()).unwrap_err(), "Tx has no trade date");
    let eur = Some(Currency::new("eur"));
    assert_eq!(
        rate_lookups(&tx(eur.clone(), None, None, None)).unwrap_err(),
        "Exchange rate error: Currency EUR does not support automatically loaded day rates. Rate must be provided."
    );
    assert_eq!(
        rate_lookups(&tx(None, None, eur.clone(), None)).unwrap_err(),
        "Commission exchange rate error: Currency EUR does not support automatically loaded day rates. Rate must be provided."
    );
    // A given rate needs no lookup, whatever the currency.
    assert_eq!(needs_loaded_rate(&eur, &Some(d("1.4"))), Ok(false));
}

#[test]
fn test_apply_loaded_rates() {
    let mut c = tx(Some(Currency::usd()), None, Some(Currency::usd()), Some("1.5"));
    apply_loaded_rates(&mut c, Some(d("1.2")), None);
    assert_eq!(c.tx_curr_to_local_exchange_rate, Some(d("1.2")));
    assert_eq!(c.commission_curr_to_local_exchange_rate, Some(d("1.5")));
}
