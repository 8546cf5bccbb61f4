//! Reading transactions from the CSV format: the header names the columns
//! (in any order and case), each row gives the values of one transaction.

use vstd::prelude::*;
use crate::portfolio::affiliate::{affiliate_from_strep, Affiliate};
use crate::portfolio::csv_common::CsvCol;
use crate::portfolio::currency::{currency_code, Currency};
use crate::portfolio::tx::{CsvTx, SFLInput, TxAction};
use crate::util::date::{parse_standard_date, standard_date_parse, standard_date_parse_error};
use crate::util::decimal::{decimal_display, decimal_parse, decimal_parse_error, Dec, LessEqualZeroDecimal};
use crate::util::text::{
    nat_digits,
    int_display, nat_to_string, str_eq, to_lowercase, trim, trim_spec, unicode_lowercase,
};

verus! {

/// The action a value names: its trimmed, lower-cased text is `buy`, `sell`,
/// `roc` or `sfla`.
pub open spec fn action_named(value: Seq<char>) -> Option<TxAction> {
    let v = unicode_lowercase(trim_spec(value));
    if v == "buy"@ {
        Some(TxAction::Buy)
    } else if v == "sell"@ {
        Some(TxAction::Sell)
    } else if v == "roc"@ {
        Some(TxAction::Roc)
    } else if v == "sfla"@ {
        Some(TxAction::Sfla)
    } else {
        None
    }
}

/// Parses the action column.
pub fn parse_csv_action(value: &str) -> (r: Result<TxAction, String>)
    ensures
        match action_named(value@) {
            Some(a) => r == Ok::<TxAction, String>(a),
            None => r is Err && r->Err_0@ == "Invalid action '"@ + value@ + "'"@,
        },
{
    let t = trim(value);
    let v = to_lowercase(t.as_str());
    proof {
        reveal_strlit("buy");
        reveal_strlit("sell");
        reveal_strlit("roc");
        reveal_strlit("sfla");
    }
    if str_eq(v.as_str(), "buy") {
        Ok(TxAction::Buy)
    } else if str_eq(v.as_str(), "sell") {
        Ok(TxAction::Sell)
    } else if str_eq(v.as_str(), "roc") {
        Ok(TxAction::Roc)
    } else if str_eq(v.as_str(), "sfla") {
        Ok(TxAction::Sfla)
    } else {
        let mut msg = String::from_str("Invalid action '");
        msg.append(value);
        msg.append("'");
        Err(msg)
    }
}

/// The number part of a superficial loss value: without a final `!`.
pub open spec fn sfl_number_text(value: Seq<char>) -> Seq<char> {
    if value.len() > 0 && value.last() == '!' {
        value.drop_last()
    } else {
        value
    }
}

/// The superficial loss a value gives, or the error text: a number that is
/// zero or negative, forced where followed by `!`.
pub open spec fn sfl_parse(value: Seq<char>) -> Result<(Dec, bool), Seq<char>> {
    let force = value.len() > 0 && value.last() == '!';
    let num = sfl_number_text(value);
    match decimal_parse(num) {
        None => Err("Invalid number in superficial loss: "@ + num),
        Some(d) => if d.mant() <= 0 {
            Ok((d, force))
        } else {
            Err("Invalid superficial loss "@ + decimal_display(d) + ": Was positive value"@)
        },
    }
}

/// Parses the superficial loss column.
pub fn parse_csv_superficial_loss(value: &str) -> (r: Result<SFLInput, String>)
    ensures
        match sfl_parse(value@) {
            Ok((d, force)) => r is Ok && r->Ok_0.superficial_loss@ == d && r->Ok_0.force == force,
            Err(e) => r is Err && r->Err_0@ == e,
        },
{
    let n = value.unicode_len();
    let force_flag = n > 0 && value.get_char(n - 1) == '!';
    let num_view: String = if force_flag {
        value.substring_char(0, n - 1).to_string()
    } else {
        value.to_string()
    };
    proof {
        if force_flag {
            assert(value@.subrange(0, n - 1) =~= value@.drop_last());
        }
    }
    match Dec::parse(num_view.as_str()) {
        Err(_) => {
            let mut msg = String::from_str("Invalid number in superficial loss: ");
            msg.append(num_view.as_str());
            Err(msg)
        },
        Ok(number) => match LessEqualZeroDecimal::try_from(number) {
            Ok(c) => Ok(SFLInput { superficial_loss: c, force: force_flag }),
            Err(_) => {
                let mut msg = String::from_str("Invalid superficial loss ");
                msg.append(number.to_string().as_str());
                msg.append(": Was positive value");
                Err(msg)
            },
        },
    }
}

/// A row's column names and values as text.
pub open spec fn pairs_view(v: Seq<(&str, String)>) -> Seq<(Seq<char>, Seq<char>)> {
    v.map_values(|p: (&str, String)| (p.0@, p.1@))
}

/// The value given for the column `key` in a row (the last where a column
/// name repeats).
pub open spec fn col_value(values: Seq<(Seq<char>, Seq<char>)>, key: Seq<char>) -> Option<Seq<char>>
    decreases values.len(),
{
    if values.len() == 0 {
        None
    } else if values.last().0 == key {
        Some(values.last().1)
    } else {
        col_value(values.drop_last(), key)
    }
}

pub open spec fn date_error(s: Seq<char>, label: Seq<char>) -> Option<Seq<char>> {
    match standard_date_parse(s) {
        Some(_) => None,
        None => Some(
            "Failed to parse "@ + label + " \""@ + s + "\": "@ + standard_date_parse_error(s),
        ),
    }
}

pub open spec fn number_error(s: Seq<char>, label: Seq<char>) -> Option<Seq<char>> {
    match decimal_parse(s) {
        Some(_) => None,
        None => Some(
            "Failed to parse number for "@ + label + " ('"@ + s + "'): "@ + decimal_parse_error(s),
        ),
    }
}

pub open spec fn date_field_error(values: Seq<(Seq<char>, Seq<char>)>, key: Seq<char>, label: Seq<char>) -> Option<
    Seq<char>,
> {
    match col_value(values, key) {
        Some(s) => date_error(s, label),
        None => None,
    }
}

pub open spec fn number_field_error(values: Seq<(Seq<char>, Seq<char>)>, key: Seq<char>) -> Option<Seq<char>> {
    match col_value(values, key) {
        Some(s) => number_error(s, key),
        None => None,
    }
}

pub open spec fn action_field_error(values: Seq<(Seq<char>, Seq<char>)>) -> Option<Seq<char>> {
    match col_value(values, CsvCol::ACTION@) {
        Some(s) => match action_named(s) {
            Some(_) => None,
            None => Some("Invalid action '"@ + s + "'"@),
        },
        None => None,
    }
}

pub open spec fn sfl_field_error(values: Seq<(Seq<char>, Seq<char>)>) -> Option<Seq<char>> {
    match col_value(values, CsvCol::SUPERFICIAL_LOSS@) {
        Some(s) => match sfl_parse(s) {
            Ok(_) => None,
            Err(e) => Some(e),
        },
        None => None,
    }
}

/// The errors of the columns of a row, in the order they are checked.
pub open spec fn row_field_errors(values: Seq<(Seq<char>, Seq<char>)>) -> Seq<Option<Seq<char>>> {
    seq![
        date_field_error(values, CsvCol::TRADE_DATE@, CsvCol::TRADE_DATE@),
        date_field_error(values, CsvCol::SETTLEMENT_DATE@, CsvCol::SETTLEMENT_DATE@),
        date_field_error(values, CsvCol::LEGACY_SETTLEMENT_DATE@, CsvCol::SETTLEMENT_DATE@),
        action_field_error(values),
        number_field_error(values, CsvCol::SHARES@),
        number_field_error(values, CsvCol::AMOUNT_PER_SHARE@),
        number_field_error(values, CsvCol::COMMISSION@),
        number_field_error(values, CsvCol::TX_FX@),
        number_field_error(values, CsvCol::COMMISSION_FX@),
        sfl_field_error(values),
    ]
}

/// The first error of a list.
pub open spec fn first_error(errs: Seq<Option<Seq<char>>>) -> Option<Seq<char>>
    decreases errs.len(),
{
    if errs.len() == 0 {
        None
    } else {
        match errs[0] {
            Some(e) => Some(e),
            None => first_error(errs.drop_first()),
        }
    }
}

pub open spec fn opt_dec_field(values: Seq<(Seq<char>, Seq<char>)>, key: Seq<char>) -> Option<Dec> {
    match col_value(values, key) {
        Some(s) => decimal_parse(s),
        None => None,
    }
}

pub open spec fn opt_date_field(values: Seq<(Seq<char>, Seq<char>)>, key: Seq<char>) -> Option<
    crate::util::date::Date,
> {
    match col_value(values, key) {
        Some(s) => standard_date_parse(s),
        None => None,
    }
}

/// `tx` holds the values of a row that has no error: each column parsed, the
/// deprecated settlement date used where the current one is missing.
pub open spec fn csvtx_read(values: Seq<(Seq<char>, Seq<char>)>, read_index: u32, tx: CsvTx) -> bool {
    &&& match col_value(values, CsvCol::SECURITY@) {
        Some(s) => tx.security is Some && tx.security->0@ == s,
        None => tx.security is None,
    }
    &&& tx.trade_date == opt_date_field(values, CsvCol::TRADE_DATE@)
    &&& tx.settlement_date == match opt_date_field(values, CsvCol::SETTLEMENT_DATE@) {
        Some(d) => Some(d),
        None => opt_date_field(values, CsvCol::LEGACY_SETTLEMENT_DATE@),
    }
    &&& tx.action == match col_value(values, CsvCol::ACTION@) {
        Some(s) => action_named(s),
        None => None,
    }
    &&& tx.shares == opt_dec_field(values, CsvCol::SHARES@)
    &&& tx.amount_per_share == opt_dec_field(values, CsvCol::AMOUNT_PER_SHARE@)
    &&& tx.total_amount is None
    &&& tx.commission == opt_dec_field(values, CsvCol::COMMISSION@)
    &&& match col_value(values, CsvCol::TX_CURR@) {
        Some(s) => tx.tx_currency is Some && tx.tx_currency->0@ == currency_code(s),
        None => tx.tx_currency is None,
    }
    &&& tx.tx_curr_to_local_exchange_rate == opt_dec_field(values, CsvCol::TX_FX@)
    &&& match col_value(values, CsvCol::COMMISSION_CURR@) {
        Some(s) => tx.commission_currency is Some && tx.commission_currency->0@ == currency_code(s),
        None => tx.commission_currency is None,
    }
    &&& tx.commission_curr_to_local_exchange_rate == opt_dec_field(values, CsvCol::COMMISSION_FX@)
    &&& match col_value(values, CsvCol::MEMO@) {
        Some(s) => tx.memo is Some && tx.memo->0@ == s,
        None => tx.memo is None,
    }
    &&& match col_value(values, CsvCol::AFFILIATE@) {
        Some(s) => tx.affiliate is Some && tx.affiliate->0@ == affiliate_from_strep(s),
        None => tx.affiliate is None,
    }
    &&& match col_value(values, CsvCol::SUPERFICIAL_LOSS@) {
        Some(s) => tx.specified_superficial_loss is Some && sfl_parse(s) == Ok::<
            (Dec, bool),
            Seq<char>,
        >(
            (
                tx.specified_superficial_loss->0.superficial_loss@,
                tx.specified_superficial_loss->0.force,
            ),
        ),
        None => tx.specified_superficial_loss is None,
    }
    &&& tx.stock_split_ratio is None
    &&& tx.read_index == read_index
}

/// The value given for the column `key` (see `col_value`).
fn col_value_exec(values: &Vec<(&'static str, String)>, key: &str) -> (r: Option<String>)
    ensures
        match col_value(pairs_view(values@), key@) {
            Some(v) => r is Some && r->0@ == v,
            None => r is None,
        },
{
    let ghost pv = pairs_view(values@);
    let mut k: usize = values.len();
    proof {
        assert(pv.subrange(0, k as int) =~= pv);
    }
    while k > 0
        invariant
            k <= values@.len(),
            pv == pairs_view(values@),
            col_value(pv, key@) == col_value(pv.subrange(0, k as int), key@),
        decreases k,
    {
        proof {
            assert(pv.subrange(0, k as int).drop_last() =~= pv.subrange(0, k - 1));
        }
        if str_eq(values[k - 1].0, key) {
            return Some(values[k - 1].1.clone());
        }
        k -= 1;
    }
    None
}

fn date_field(values: &Vec<(&'static str, String)>, key: &str, label: &str) -> (r: Result<
    Option<crate::util::date::Date>,
    String,
>)
    ensures
        match date_field_error(pairs_view(values@), key@, label@) {
            Some(e) => r is Err && r->Err_0@ == e,
            None => r == Ok::<Option<crate::util::date::Date>, String>(
                opt_date_field(pairs_view(values@), key@),
            ),
        },
{
    match col_value_exec(values, key) {
        None => Ok(None),
        Some(s) => match parse_standard_date(s.as_str()) {
            Ok(d) => Ok(Some(d)),
            Err(e) => {
                let mut msg = String::from_str("Failed to parse ");
                msg.append(label);
                msg.append(" \"");
                msg.append(s.as_str());
                msg.append("\": ");
                msg.append(e.as_str());
                Err(msg)
            },
        },
    }
}

fn number_field(values: &Vec<(&'static str, String)>, key: &str) -> (r: Result<Option<Dec>, String>)
    ensures
        match number_field_error(pairs_view(values@), key@) {
            Some(e) => r is Err && r->Err_0@ == e,
            None => r == Ok::<Option<Dec>, String>(opt_dec_field(pairs_view(values@), key@)),
        },
{
    match col_value_exec(values, key) {
        None => Ok(None),
        Some(s) => match Dec::parse(s.as_str()) {
            Ok(d) => Ok(Some(d)),
            Err(e) => {
                let mut msg = String::from_str("Failed to parse number for ");
                msg.append(key);
                msg.append(" ('");
                msg.append(s.as_str());
                msg.append("'): ");
                msg.append(e.as_str());
                Err(msg)
            },
        },
    }
}

/// The transaction a row's values give (column name and trimmed value, for
/// the recognized columns with a value), or the first error among its columns.
pub fn csvtx_from_csv_values(values: &Vec<(&'static str, String)>, read_index: u32) -> (r: Result<
    CsvTx,
    String,
>)
    ensures
        match first_error(row_field_errors(pairs_view(values@))) {
            Some(e) => r is Err && r->Err_0@ == e,
            None => r is Ok && csvtx_read(pairs_view(values@), read_index, r->Ok_0),
        },
{
    proof {
        reveal_with_fuel(first_error, 11);
    }
    let security = col_value_exec(values, CsvCol::SECURITY);
    let trade_date = match date_field(values, CsvCol::TRADE_DATE, CsvCol::TRADE_DATE) {
        Ok(d) => d,
        Err(e) => {
            return Err(e);
        },
    };
    let s_date = match date_field(values, CsvCol::SETTLEMENT_DATE, CsvCol::SETTLEMENT_DATE) {
        Ok(d) => d,
        Err(e) => {
            return Err(e);
        },
    };
    let legacy_s_date = match date_field(
        values,
        CsvCol::LEGACY_SETTLEMENT_DATE,
        CsvCol::SETTLEMENT_DATE,
    ) {
        Ok(d) => d,
        Err(e) => {
            return Err(e);
        },
    };
    let settlement_date = if s_date.is_some() {
        s_date
    } else {
        legacy_s_date
    };
    let action = match col_value_exec(values, CsvCol::ACTION) {
        Some(s) => match parse_csv_action(s.as_str()) {
            Ok(a) => Some(a),
            Err(e) => {
                return Err(e);
            },
        },
        None => None,
    };
    let shares = match number_field(values, CsvCol::SHARES) {
        Ok(d) => d,
        Err(e) => {
            return Err(e);
        },
    };
    let amount_per_share = match number_field(values, CsvCol::AMOUNT_PER_SHARE) {
        Ok(d) => d,
        Err(e) => {
            return Err(e);
        },
    };
    let commission = match number_field(values, CsvCol::COMMISSION) {
        Ok(d) => d,
        Err(e) => {
            return Err(e);
        },
    };
    let tx_currency = match col_value_exec(values, CsvCol::TX_CURR) {
        Some(s) => Some(Currency::new(s.as_str())),
        None => None,
    };
    let tx_fx = match number_field(values, CsvCol::TX_FX) {
        Ok(d) => d,
        Err(e) => {
            return Err(e);
        },
    };
    let commission_currency = match col_value_exec(values, CsvCol::COMMISSION_CURR) {
        Some(s) => Some(Currency::new(s.as_str())),
        None => None,
    };
    let commission_fx = match number_field(values, CsvCol::COMMISSION_FX) {
        Ok(d) => d,
        Err(e) => {
            return Err(e);
        },
    };
    let memo = col_value_exec(values, CsvCol::MEMO);
    let affiliate = match col_value_exec(values, CsvCol::AFFILIATE) {
        Some(s) => Some(Affiliate::from_strep(s.as_str())),
        None => None,
    };
    let sfl = match col_value_exec(values, CsvCol::SUPERFICIAL_LOSS) {
        Some(s) => match parse_csv_superficial_loss(s.as_str()) {
            Ok(x) => Some(x),
            Err(e) => {
                return Err(e);
            },
        },
        None => None,
    };
    Ok(
        CsvTx {
            security,
            trade_date,
            settlement_date,
            action,
            shares,
            amount_per_share,
            total_amount: None,
            commission,
            tx_currency,
            tx_curr_to_local_exchange_rate: tx_fx,
            commission_currency,
            commission_curr_to_local_exchange_rate: commission_fx,
            memo,
            affiliate,
            specified_superficial_loss: sfl,
            stock_split_ratio: None,
            read_index,
        },
    )
}

/// The header row that `csv` (with a header row, comma separated, `"` quoted)
/// reads from the text: its fields, or the error's message.
pub uninterp spec fn csv_headers(content: Seq<u8>) -> Result<Seq<Seq<char>>, Seq<char>>;

/// The records after the header row that `csv` reads from the text, up to
/// and including the first that it fails to read (as its error's message).
pub uninterp spec fn csv_records(content: Seq<u8>) -> Seq<Result<Seq<Seq<char>>, Seq<char>>>;

/// `csv::Reader::headers` on a reader of `content` with a header row.
/// Claims: the fields are those of `csv_headers`, a function of the text.
#[verifier::external_body]
fn csv_headers_call(content: &[u8]) -> (r: Result<Vec<String>, String>)
    ensures
        match csv_headers(content@) {
            Ok(h) => r is Ok && r->Ok_0@.map_values(|f: String| f@) == h,
            Err(e) => r is Err && r->Err_0@ == e,
        },
{
    let mut rdr = csv::ReaderBuilder::new().has_headers(true).from_reader(content);
    match rdr.headers() {
        Ok(h) => Ok(h.iter().map(|f| f.to_string()).collect()),
        Err(e) => Err(e.to_string()),
    }
}

/// `csv::Reader::records` on a reader of `content` with a header row, read
/// up to the first error. Claims: the records are those of `csv_records`, a
/// function of the text.
#[verifier::external_body]
fn csv_records_call(content: &[u8]) -> (r: Vec<Result<Vec<String>, String>>)
    ensures
        r@.len() == csv_records(content@).len(),
        forall|k: int|
            0 <= k < r@.len() ==> match csv_records(content@)[k] {
                Ok(fs) => (#[trigger] r@[k]) is Ok && r@[k]->Ok_0@.map_values(|f: String| f@) == fs,
                Err(e) => r@[k] is Err && r@[k]->Err_0@ == e,
            },
{
    let mut rdr = csv::ReaderBuilder::new().has_headers(true).from_reader(content);
    let mut out = Vec::new();
    for rec in rdr.records() {
        match rec {
            Ok(r) => out.push(Ok(r.iter().map(|f| f.to_string()).collect())),
            Err(e) => {
                out.push(Err(e.to_string()));
                break;
            },
        }
    }
    out
}

/// The column a header names: the recognized column whose name is the
/// lower-cased, trimmed header text.
pub open spec fn header_column(h: Seq<char>) -> Option<Seq<char>> {
    let name = trim_spec(unicode_lowercase(h));
    if CsvCol::all_cols().contains(name) {
        Some(name)
    } else {
        None
    }
}

pub open spec fn header_columns(hs: Seq<Seq<char>>) -> Seq<Option<Seq<char>>> {
    hs.map_values(|h: Seq<char>| header_column(h))
}

/// The warnings for the headers that name no column.
pub open spec fn header_warnings(desc: Seq<char>, hs: Seq<Seq<char>>) -> Seq<Seq<char>>
    decreases hs.len(),
{
    if hs.len() == 0 {
        Seq::empty()
    } else {
        header_warnings(desc, hs.drop_last()) + if header_column(hs.last()) is None {
            seq![
                "Warning: Unrecognized column in "@ + desc + ": "@ + trim_spec(
                    unicode_lowercase(hs.last()),
                ),
            ]
        } else {
            Seq::empty()
        }
    }
}

/// The recognized columns of a row that have a value: each column's name
/// with the trimmed value.
pub open spec fn row_pairs(cols: Seq<Option<Seq<char>>>, fields: Seq<Seq<char>>) -> Seq<
    (Seq<char>, Seq<char>),
>
    decreases fields.len(),
{
    if fields.len() == 0 {
        Seq::empty()
    } else {
        let i = fields.len() - 1;
        row_pairs(cols, fields.drop_last()) + if i < cols.len() && cols[i] is Some && trim_spec(
            fields[i],
        ).len() > 0 {
            seq![(cols[i]->0, trim_spec(fields[i]))]
        } else {
            Seq::empty()
        }
    }
}

pub open spec fn row_label(desc: Seq<char>, k: int) -> Seq<char> {
    int_display(k + 2) + " of "@ + desc
}

/// The error of the record at `k` (counting rows from 1 with the header).
pub open spec fn record_error(
    desc: Seq<char>,
    cols: Seq<Option<Seq<char>>>,
    rec: Result<Seq<Seq<char>>, Seq<char>>,
    k: int,
    initial: int,
) -> Option<Seq<char>> {
    match rec {
        Err(e) => Some(
            "Error reading rates csv record in "@ + desc + " at row "@ + int_display(k + 2) + ": "@
                + e,
        ),
        Ok(fields) => if initial + k > u32::MAX {
            Some("Too many rows in "@ + desc)
        } else {
            match first_error(row_field_errors(row_pairs(cols, fields))) {
                Some(e) => Some("Error on row "@ + row_label(desc, k) + ": "@ + e),
                None => None,
            }
        },
    }
}

pub open spec fn both_dates_error(desc: Seq<char>) -> Seq<char> {
    desc + " contains both 'settlement date' and 'date' (deprecated) columns"@
}

/// The transactions of a CSV text `content` named `desc`, read indices
/// counted from `initial`, or the error, and the warnings for unrecognized
/// columns.
pub open spec fn tx_csv_error(desc: Seq<char>, content: Seq<u8>, initial: int) -> Option<Seq<char>> {
    match csv_headers(content) {
        Err(e) => Some("Error in csv headers of "@ + desc + ": "@ + e),
        Ok(hs) => {
            let cols = header_columns(hs);
            if cols.contains(Some(CsvCol::SETTLEMENT_DATE@)) && cols.contains(
                Some(CsvCol::LEGACY_SETTLEMENT_DATE@),
            ) {
                Some(both_dates_error(desc))
            } else {
                first_error(
                    Seq::new(
                        csv_records(content).len(),
                        |k: int| record_error(desc, cols, csv_records(content)[k], k, initial),
                    ),
                )
            }
        },
    }
}

/// Reads the transactions of the CSV text `content` (the file `desc`): the
/// header row names the columns (unrecognized ones are skipped with a
/// warning), each further row is a transaction whose read index counts up
/// from `initial_global_read_index`. Fails on a malformed header or record,
/// on both the current and the deprecated settlement date column, and on a
/// value that does not parse (naming the row).
pub fn parse_tx_csv(desc: &str, content: &[u8], initial_global_read_index: u32) -> (r: Result<
    (Vec<CsvTx>, Vec<String>),
    String,
>)
    ensures
        match tx_csv_error(desc@, content@, initial_global_read_index as int) {
            Some(e) => r is Err && r->Err_0@ == e,
            None => r is Ok && ({
                let hs = csv_headers(content@)->Ok_0;
                let cols = header_columns(hs);
                let recs = csv_records(content@);
                let txs = r->Ok_0.0@;
                &&& r->Ok_0.1@.map_values(|w: String| w@) == header_warnings(desc@, hs)
                &&& txs.len() == recs.len()
                &&& forall|k: int|
                    0 <= k < txs.len() ==> csvtx_read(
                        row_pairs(cols, recs[k]->Ok_0),
                        (initial_global_read_index + k) as u32,
                        #[trigger] txs[k],
                    )
            }),
        },
{
    let headers = match csv_headers_call(content) {
        Ok(h) => h,
        Err(e) => {
            let mut msg = String::from_str("Error in csv headers of ");
            msg.append(desc);
            msg.append(": ");
            msg.append(e.as_str());
            return Err(msg);
        },
    };
    let ghost hs = headers@.map_values(|f: String| f@);
    let (cols, warnings, has_s, has_legacy) = read_header_columns(desc, &headers);
    if has_s && has_legacy {
        let mut msg = desc.to_string();
        msg.append(" contains both 'settlement date' and 'date' (deprecated) columns");
        proof {
            reveal_strlit(" contains both 'settlement date' and 'date' (deprecated) columns");
        }
        return Err(msg);
    }
    let ghost cv = cols_view(cols@);
    let recs = csv_records_call(content);
    let ghost rs = csv_records(content@);
    let ghost errs = Seq::new(
        rs.len(),
        |k: int| record_error(desc@, cv, rs[k], k, initial_global_read_index as int),
    );
    let mut txs: Vec<CsvTx> = Vec::new();
    let mut k: usize = 0;
    while k < recs.len()
        invariant
            k <= recs@.len(),
            recs@.len() == rs.len(),
            hs == headers@.map_values(|f: String| f@),
            csv_headers(content@) == Ok::<Seq<Seq<char>>, Seq<char>>(hs),
            cv == cols_view(cols@),
            cv == header_columns(hs),
            !(cv.contains(Some(CsvCol::SETTLEMENT_DATE@)) && cv.contains(
                Some(CsvCol::LEGACY_SETTLEMENT_DATE@),
            )),
            errs == Seq::new(
                rs.len(),
                |k: int| record_error(desc@, cv, rs[k], k, initial_global_read_index as int),
            ),
            rs == csv_records(content@),
            forall|q: int|
                0 <= q < recs@.len() ==> match rs[q] {
                    Ok(fs) => (#[trigger] recs@[q]) is Ok && recs@[q]->Ok_0@.map_values(
                        |f: String| f@,
                    ) == fs,
                    Err(e) => recs@[q] is Err && recs@[q]->Err_0@ == e,
                },
            forall|q: int| 0 <= q < k ==> (#[trigger] errs[q]) is None,
            txs@.len() == k,
            forall|q: int|
                0 <= q < k ==> csvtx_read(
                    row_pairs(cv, rs[q]->Ok_0),
                    (initial_global_read_index + q) as u32,
                    #[trigger] txs@[q],
                ),
        decreases recs@.len() - k,
    {
        let row_num = nat_to_string((k as u128) + 2);
        proof {
            assert(int_display(k + 2) == nat_digits((k + 2) as nat));
        }
        match &recs[k] {
            Err(e) => {
                let mut msg = String::from_str("Error reading rates csv record in ");
                msg.append(desc);
                msg.append(" at row ");
                msg.append(row_num.as_str());
                msg.append(": ");
                msg.append(e.as_str());
                proof {
                    assert(errs[k as int] == Some(msg@));
                    lemma_first_error_at(errs, k as int);
                }
                return Err(msg);
            },
            Ok(fields) => {
                if initial_global_read_index as u128 + k as u128 > u32::MAX as u128 {
                    let mut msg = String::from_str("Too many rows in ");
                    msg.append(desc);
                    proof {
                        assert(errs[k as int] == Some(msg@));
                        lemma_first_error_at(errs, k as int);
                    }
                    return Err(msg);
                }
                let idx: u32 = initial_global_read_index + k as u32;
                let values = row_values(&cols, fields);
                match csvtx_from_csv_values(&values, idx) {
                    Err(e) => {
                        let mut msg = String::from_str("Error on row ");
                        msg.append(row_num.as_str());
                        msg.append(" of ");
                        msg.append(desc);
                        msg.append(": ");
                        msg.append(e.as_str());
                        proof {
                            assert(errs[k as int] == Some(msg@));
                            lemma_first_error_at(errs, k as int);
                        }
                        return Err(msg);
                    },
                    Ok(tx) => {
                        proof {
                            assert(errs[k as int] is None);
                        }
                        txs.push(tx);
                    },
                }
            },
        }
        k += 1;
    }
    proof {
        lemma_first_error_none(errs);
    }
    Ok((txs, warnings))
}

proof fn lemma_first_error_at(errs: Seq<Option<Seq<char>>>, k: int)
    requires
        0 <= k < errs.len(),
        forall|q: int| 0 <= q < k ==> (#[trigger] errs[q]) is None,
        errs[k] is Some,
    ensures
        first_error(errs) == errs[k],
    decreases k,
{
    if k > 0 {
        let t = errs.drop_first();
        assert forall|q: int| 0 <= q < k - 1 implies (#[trigger] t[q]) is None by {
            assert(t[q] == errs[q + 1]);
        }
        lemma_first_error_at(t, k - 1);
    }
}

proof fn lemma_first_error_none(errs: Seq<Option<Seq<char>>>)
    requires
        forall|q: int| 0 <= q < errs.len() ==> (#[trigger] errs[q]) is None,
    ensures
        first_error(errs) is None,
    decreases errs.len(),
{
    if errs.len() > 0 {
        let t = errs.drop_first();
        assert forall|q: int| 0 <= q < t.len() implies (#[trigger] t[q]) is None by {
            assert(t[q] == errs[q + 1]);
        }
        lemma_first_error_none(t);
    }
}

pub open spec fn cols_view(cols: Seq<Option<&str>>) -> Seq<Option<Seq<char>>> {
    cols.map_values(
        |c: Option<&str>|
            match c {
                Some(s) => Some(s@),
                None => None,
            },
    )
}

/// The column each header names, the warnings for the others, and whether
/// the current and the deprecated settlement date columns are there.
fn read_header_columns(desc: &str, headers: &Vec<String>) -> (r: (
    Vec<Option<&'static str>>,
    Vec<String>,
    bool,
    bool,
))
    ensures
        cols_view(r.0@) == header_columns(headers@.map_values(|f: String| f@)),
        r.1@.map_values(|w: String| w@) == header_warnings(
            desc@,
            headers@.map_values(|f: String| f@),
        ),
        r.2 == header_columns(headers@.map_values(|f: String| f@)).contains(
            Some(CsvCol::SETTLEMENT_DATE@),
        ),
        r.3 == header_columns(headers@.map_values(|f: String| f@)).contains(
            Some(CsvCol::LEGACY_SETTLEMENT_DATE@),
        ),
{
    let ghost hs = headers@.map_values(|f: String| f@);
    let all = CsvCol::get_csv_cols();
    let mut cols: Vec<Option<&'static str>> = Vec::new();
    let mut warnings: Vec<String> = Vec::new();
    let mut has_s = false;
    let mut has_legacy = false;
    let mut i: usize = 0;
    while i < headers.len()
        invariant
            i <= headers@.len(),
            hs == headers@.map_values(|f: String| f@),
            all@.map_values(|s: &str| s@) == CsvCol::all_cols(),
            cols_view(cols@) == header_columns(hs.subrange(0, i as int)),
            warnings@.map_values(|w: String| w@) == header_warnings(desc@, hs.subrange(0, i as int)),
            has_s == header_columns(hs.subrange(0, i as int)).contains(
                Some(CsvCol::SETTLEMENT_DATE@),
            ),
            has_legacy == header_columns(hs.subrange(0, i as int)).contains(
                Some(CsvCol::LEGACY_SETTLEMENT_DATE@),
            ),
        decreases headers@.len() - i,
    {
        let lower = to_lowercase(headers[i].as_str());
        let name = trim(lower.as_str());
        let mut j: usize = 0;
        let mut found: Option<&'static str> = None;
        while j < all.len()
            invariant_except_break
                j <= all@.len(),
                all@.map_values(|s: &str| s@) == CsvCol::all_cols(),
                found is None,
                forall|q: int| 0 <= q < j ==> all@[q]@ != name@,
            ensures
                all@.map_values(|s: &str| s@) == CsvCol::all_cols(),
                match found {
                    Some(f) => f@ == name@ && CsvCol::all_cols().contains(name@),
                    None => !CsvCol::all_cols().contains(name@),
                },
            decreases all@.len() - j,
        {
            if str_eq(all[j], name.as_str()) {
                found = Some(all[j]);
                proof {
                    assert(CsvCol::all_cols()[j as int] == name@);
                }
                break;
            }
            j += 1;
        }
        proof {
            if found is None {
                assert forall|q: int| 0 <= q < CsvCol::all_cols().len() implies CsvCol::all_cols()[q]
                    != name@ by {
                    assert(CsvCol::all_cols()[q] == all@[q]@);
                }
            }
        }
        let ghost prev = hs.subrange(0, i as int);
        let ghost next = hs.subrange(0, i + 1);
        proof {
            assert(next.drop_last() =~= prev);
            assert(header_columns(next) =~= header_columns(prev).push(header_column(hs[i as int])));
        }
        let ghost old_warn = warnings@;
        match found {
            Some(f) => {
                if str_eq(f, CsvCol::SETTLEMENT_DATE) {
                    has_s = true;
                }
                if str_eq(f, CsvCol::LEGACY_SETTLEMENT_DATE) {
                    has_legacy = true;
                }
                cols.push(Some(f));
            },
            None => {
                let mut w = String::from_str("Warning: Unrecognized column in ");
                w.append(desc);
                w.append(": ");
                w.append(name.as_str());
                warnings.push(w);
                cols.push(None);
            },
        }
        proof {
            assert(cols_view(cols@) =~= header_columns(next));
            assert(warnings@.map_values(|w: String| w@) =~= header_warnings(desc@, next));
            let hc = header_columns(next);
            let hp = header_columns(prev);
            assert(hc.contains(Some(CsvCol::SETTLEMENT_DATE@)) == (hp.contains(
                Some(CsvCol::SETTLEMENT_DATE@),
            ) || hc.last() == Some(CsvCol::SETTLEMENT_DATE@))) by {
                if hc.contains(Some(CsvCol::SETTLEMENT_DATE@)) {
                    let q = choose|q: int| 0 <= q < hc.len() && hc[q] == Some(CsvCol::SETTLEMENT_DATE@);
                    if q < hp.len() {
                        assert(hp[q] == hc[q]);
                    }
                }
                if hp.contains(Some(CsvCol::SETTLEMENT_DATE@)) {
                    let q = choose|q: int| 0 <= q < hp.len() && hp[q] == Some(CsvCol::SETTLEMENT_DATE@);
                    assert(hc[q] == hp[q]);
                }
            }
            assert(hc.contains(Some(CsvCol::LEGACY_SETTLEMENT_DATE@)) == (hp.contains(
                Some(CsvCol::LEGACY_SETTLEMENT_DATE@),
            ) || hc.last() == Some(CsvCol::LEGACY_SETTLEMENT_DATE@))) by {
                if hc.contains(Some(CsvCol::LEGACY_SETTLEMENT_DATE@)) {
                    let q = choose|q: int|
                        0 <= q < hc.len() && hc[q] == Some(CsvCol::LEGACY_SETTLEMENT_DATE@);
                    if q < hp.len() {
                        assert(hp[q] == hc[q]);
                    }
                }
                if hp.contains(Some(CsvCol::LEGACY_SETTLEMENT_DATE@)) {
                    let q = choose|q: int|
                        0 <= q < hp.len() && hp[q] == Some(CsvCol::LEGACY_SETTLEMENT_DATE@);
                    assert(hc[q] == hp[q]);
                }
            }
        }
        i += 1;
    }
    proof {
        assert(hs.subrange(0, headers@.len() as int) =~= hs);
    }
    (cols, warnings, has_s, has_legacy)
}

/// The recognized columns of a row that have a value (see `row_pairs`).
fn row_values(cols: &Vec<Option<&'static str>>, fields: &Vec<String>) -> (r: Vec<(&'static str, String)>)
    ensures
        pairs_view(r@) == row_pairs(cols_view(cols@), fields@.map_values(|f: String| f@)),
{
    let ghost cv = cols_view(cols@);
    let ghost fv = fields@.map_values(|f: String| f@);
    let mut out: Vec<(&'static str, String)> = Vec::new();
    let mut i: usize = 0;
    while i < fields.len()
        invariant
            i <= fields@.len(),
            cv == cols_view(cols@),
            fv == fields@.map_values(|f: String| f@),
            pairs_view(out@) == row_pairs(cv, fv.subrange(0, i as int)),
        decreases fields@.len() - i,
    {
        let ghost prev = fv.subrange(0, i as int);
        let ghost next = fv.subrange(0, i + 1);
        proof {
            assert(next.drop_last() =~= prev);
        }
        let v = trim(fields[i].as_str());
        if i < cols.len() {
            match cols[i] {
                Some(c) => {
                    if !v.as_str().is_empty() {
                        out.push((c, v));
                        proof {
                            assert(pairs_view(out@) =~= row_pairs(cv, next));
                        }
                    } else {
                        proof {
                            assert(row_pairs(cv, next) =~= row_pairs(cv, prev));
                        }
                    }
                },
                None => {
                    proof {
                        assert(row_pairs(cv, next) =~= row_pairs(cv, prev));
                    }
                },
            }
        } else {
            proof {
                assert(row_pairs(cv, next) =~= row_pairs(cv, prev));
            }
        }
        i += 1;
    }
    proof {
        assert(fv.subrange(0, fields@.len() as int) =~= fv);
    }
    out
}

/// The settlement date of a row: a valid 'settlement date' value, or else
/// the deprecated 'date' column's value. A row of the legacy layout, with a
/// 'date' and no 'settlement date', is read with that date as its
/// settlement date; where both are given, 'settlement date' wins; where
/// neither is, the row has none.
pub proof fn law_legacy_date_is_settlement_date(
    values: Seq<(Seq<char>, Seq<char>)>,
    read_index: u32,
    tx: CsvTx,
)
    requires
        csvtx_read(values, read_index, tx),
    ensures
        opt_date_field(values, CsvCol::SETTLEMENT_DATE@) is None ==> tx.settlement_date
            == opt_date_field(values, CsvCol::LEGACY_SETTLEMENT_DATE@),
        opt_date_field(values, CsvCol::SETTLEMENT_DATE@) is Some ==> tx.settlement_date
            == opt_date_field(values, CsvCol::SETTLEMENT_DATE@),
        tx.settlement_date is Some <==> (opt_date_field(values, CsvCol::SETTLEMENT_DATE@) is Some
            || opt_date_field(values, CsvCol::LEGACY_SETTLEMENT_DATE@) is Some),
        tx.trade_date == opt_date_field(values, CsvCol::TRADE_DATE@),
{
}

} // verus!
