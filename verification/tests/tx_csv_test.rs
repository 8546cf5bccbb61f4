use acb::portfolio::affiliate::Affiliate;
use acb::portfolio::csv_common::CsvCol;
use acb::portfolio::currency::Currency;
use acb::portfolio::io::tx_csv::{parse_csv_action, parse_csv_superficial_loss, parse_tx_csv};
use acb::portfolio::tx::{CsvTx, SFLInput, TxAction};
use acb::util::date::parse_standard_date;
use acb::util::decimal::{Dec, LessEqualZeroDecimal};

fn dec(s: &str) -> Dec {
    Dec::parse(s).unwrap()
}

/// A test row: the value of each column, empty where unset.
#[derive(Default)]
struct Row {
    sec: &'static str,
    td: &'static str,
    sd: &'static str,
    a: &'static str,
    sh: &'static str,
    aps: &'static str,
    com: &'static str,
    cur: &'static str,
    fx: &'static str,
    c_cur: &'static str,
    c_fx: &'static str,
    sfl: &'static str,
    af: &'static str,
    m: &'static str,
}

fn modern_headers() -> Vec<&'static str> {
    vec![
        CsvCol::SECURITY,
        CsvCol::TRADE_DATE,
        CsvCol::SETTLEMENT_DATE,
        CsvCol::ACTION,
        CsvCol::SHARES,
        CsvCol::AMOUNT_PER_SHARE,
        CsvCol::COMMISSION,
        CsvCol::TX_CURR,
        CsvCol::TX_FX,
        CsvCol::COMMISSION_CURR,
        CsvCol::COMMISSION_FX,
        CsvCol::SUPERFICIAL_LOSS,
        CsvCol::AFFILIATE,
        CsvCol::MEMO,
    ]
}

impl Row {
    fn line(&self) -> String {
        [
            self.sec, self.td, self.sd, self.a, self.sh, self.aps, self.com, self.cur, self.fx,
            self.c_cur, self.c_fx, self.sfl, self.af, self.m,
        ]
        .join(",")
    }
}

fn modern_csv(rows: &[Row]) -> String {
    let lines: Vec<String> = rows.iter().map(|r| r.line()).collect();
    modern_headers().join(",") + "\n" + &lines.join("\n")
}

/// The file text for a header line of our own (kept as given, newline
/// included) and raw rows.
fn raw_csv(header_line: &str, rows: &[&str]) -> String {
    header_line.to_string() + "\n" + &rows.join("\n")
}

fn csvtx_at(read_index: u32) -> CsvTx {
    let mut c = CsvTx::default();
    c.read_index = read_index;
    c
}

#[test]
fn test_parse_sfl() {
    let sfl_ = |n: &str, f: bool| SFLInput {
        superficial_loss: LessEqualZeroDecimal::try_from(dec(n)).unwrap(),
        force: f,
    };

    assert_eq!(parse_csv_superficial_loss("0!").unwrap(), sfl_("0", true));
    assert_eq!(parse_csv_superficial_loss("-1.1!").unwrap(), sfl_("-1.1", true));
    assert_eq!(parse_csv_superficial_loss("0.0").unwrap(), sfl_("0", false));
    assert_eq!(parse_csv_superficial_loss("-1.1").unwrap(), sfl_("-1.1", false));

    assert_eq!(parse_csv_superficial_loss("").unwrap_err(), "Invalid number in superficial loss: ");
    assert_eq!(
        parse_csv_superficial_loss("sfsd").unwrap_err(),
        "Invalid number in superficial loss: sfsd"
    );
    assert_eq!(
        parse_csv_superficial_loss("1.1").unwrap_err(),
        "Invalid superficial loss 1.1: Was positive value"
    );
    assert_eq!(
        parse_csv_superficial_loss("1.1!").unwrap_err(),
        "Invalid superficial loss 1.1: Was positive value"
    );
    assert_eq!(
        parse_csv_superficial_loss("!-1.1").unwrap_err(),
        "Invalid number in superficial loss: !-1.1"
    );
}

#[test]
fn test_parse_csv_action_names() {
    assert_eq!(parse_csv_action("Buy"), Ok(TxAction::Buy));
    assert_eq!(parse_csv_action(" SELL "), Ok(TxAction::Sell));
    assert_eq!(parse_csv_action("roc"), Ok(TxAction::Roc));
    assert_eq!(parse_csv_action("SfLA"), Ok(TxAction::Sfla));
    assert_eq!(parse_csv_action("split"), Err("Invalid action 'split'".to_string()));
    assert_eq!(parse_csv_action("bla"), Err("Invalid action 'bla'".to_string()));
}

#[test]
fn test_double_settlement_date() {
    let content = raw_csv(
        "security,date,settlement date\n",
        &["FOO,2016-01-03,2016-01-05", "BAR,2016-01-03,2016-01-06"],
    );
    let err = parse_tx_csv("foo0.csv", content.as_bytes(), 0).unwrap_err();
    assert_eq!(err, "foo0.csv contains both 'settlement date' and 'date' (deprecated) columns");
}

#[test]
fn test_double_unknown_columns() {
    let content = raw_csv("blabla,security\n", &[",FOO", "lksjlksjdf,BAR"]);
    let (txs, warnings) = parse_tx_csv("foo0.csv", content.as_bytes(), 10).unwrap();

    let mut foo = csvtx_at(10);
    foo.security = Some("FOO".to_string());
    let mut bar = csvtx_at(11);
    bar.security = Some("BAR".to_string());
    assert_eq!(txs, vec![foo, bar]);
    assert_eq!(warnings, vec!["Warning: Unrecognized column in foo0.csv: blabla".to_string()]);
}

#[test]
fn test_parse_tx_csv_basic() {
    let content = modern_csv(&[
        Row {
            sec: "Foo ",
            td: "2020-11-11",
            sd: "2020-11-13",
            a: "Buy",
            sh: "123.1",
            aps: "10.1",
            com: "20.1",
            cur: "USD",
            fx: "1.3",
            c_cur: "usd",
            c_fx: "1.31",
            sfl: "-1.2!",
            af: "(R)",
            m: "A memo",
        },
        Row::default(),
        // Empty sec after trimming
        Row { sec: "   ", ..Default::default() },
        // Other action casing
        Row { a: "SFLA", ..Default::default() },
        Row { a: "sfla", ..Default::default() },
    ]);
    let (txs, warnings) = parse_tx_csv("foo0.csv", content.as_bytes(), 0).unwrap();
    assert!(warnings.is_empty());

    let mut first = csvtx_at(0);
    first.security = Some("Foo".to_string());
    first.trade_date = Some(parse_standard_date("2020-11-11").unwrap());
    first.settlement_date = Some(parse_standard_date("2020-11-13").unwrap());
    first.action = Some(TxAction::Buy);
    first.shares = Some(dec("123.1"));
    first.amount_per_share = Some(dec("10.1"));
    first.commission = Some(dec("20.1"));
    first.tx_currency = Some(Currency::usd());
    first.tx_curr_to_local_exchange_rate = Some(dec("1.3"));
    first.commission_currency = Some(Currency::usd());
    first.commission_curr_to_local_exchange_rate = Some(dec("1.31"));
    first.memo = Some("A memo".to_string());
    first.affiliate = Some(Affiliate::default_registered());
    first.specified_superficial_loss = Some(SFLInput::req_from_dec(dec("-1.2"), true));

    let mut sfla3 = csvtx_at(3);
    sfla3.action = Some(TxAction::Sfla);
    let mut sfla4 = csvtx_at(4);
    sfla4.action = Some(TxAction::Sfla);

    assert_eq!(txs, vec![first, csvtx_at(1), csvtx_at(2), sfla3, sfla4]);
}

fn parse_fatal_row(row: Row) -> String {
    let content = modern_csv(&[row]);
    parse_tx_csv("foo0.csv", content.as_bytes(), 0).unwrap_err()
}

#[test]
fn test_parse_tx_csv_fatal_errors() {
    // Illegal date
    let err = parse_fatal_row(Row { td: "2020-20-20", ..Default::default() });
    assert_eq!(err, "Error on row 2 of foo0.csv: Failed to parse trade date \"2020-20-20\": the 'month' component could not be parsed");
    let err = parse_fatal_row(Row { sd: "2020-20-20", ..Default::default() });
    assert_eq!(err, "Error on row 2 of foo0.csv: Failed to parse settlement date \"2020-20-20\": the 'month' component could not be parsed");
    // Invalid action
    let err = parse_fatal_row(Row { a: "bla", ..Default::default() });
    assert_eq!(err, "Error on row 2 of foo0.csv: Invalid action 'bla'");
    // Invalid decimal value
    let err = parse_fatal_row(Row { sh: "bla", ..Default::default() });
    assert_eq!(err, "Error on row 2 of foo0.csv: Failed to parse number for shares ('bla'): Invalid decimal: unknown character");
    // Invalid SFL
    let err = parse_fatal_row(Row { sfl: "1", ..Default::default() });
    assert_eq!(err, "Error on row 2 of foo0.csv: Invalid superficial loss 1: Was positive value");
}

#[test]
fn test_parse_tx_csv_error_names_later_row() {
    let content = modern_csv(&[Row::default(), Row { a: "bla", ..Default::default() }]);
    let err = parse_tx_csv("bar.csv", content.as_bytes(), 0).unwrap_err();
    assert_eq!(err, "Error on row 3 of bar.csv: Invalid action 'bla'");
}

#[test]
fn test_to_tx_csv_string() {
    let content = raw_csv(
        "security,trade date,settlement date,action,shares,amount/share,commission,currency,\
exchange rate,commission currency,commission exchange rate,superficial loss,affiliate,memo\n",
        &[
            "FOO,2016-01-03,2016-01-05,Sell,5,1.6,0,CAD,,CAD,,,Default,a memo",
            "BAR,2016-01-03,2016-01-06,Buy,7,1.7,1,USD,1.11,USD,1.11,,Default,a memo 2",
            "AA,2016-01-04,2016-01-07,Sell,1,1.7,1,USD,1.11,USD,1.11,-1.2,Default,M3",
            "BB,2016-01-05,2016-01-08,Sell,2,1.7,1,USD,1.11,USD,1.11,-1.3!,Default (R),M4",
            "CC,2016-01-08,2016-01-10,SfLA,2,1.3,0,CAD,,CAD,,,B,M5",
        ],
    );
    let (txs, _) = parse_tx_csv("foo0.csv", content.as_bytes(), 0).unwrap();
    assert_eq!(txs.len(), 5);
    assert_eq!(txs[3].specified_superficial_loss, Some(SFLInput::req_from_dec(dec("-1.3"), true)));
    assert_eq!(txs[4].action, Some(TxAction::Sfla));
    assert_eq!(txs[4].affiliate, Some(Affiliate::from_strep("B")));
}
