//! The column names of transaction CSV files.

use vstd::prelude::*;

verus! {

/// The column names of transaction CSV files.
pub struct CsvCol(());

impl CsvCol {
    pub const SECURITY: &'static str = "security";

    pub const TRADE_DATE: &'static str = "trade date";

    /// The deprecated name of the settlement date column.
    pub const LEGACY_SETTLEMENT_DATE: &'static str = "date";

    pub const SETTLEMENT_DATE: &'static str = "settlement date";

    pub const ACTION: &'static str = "action";

    pub const SHARES: &'static str = "shares";

    pub const AMOUNT_PER_SHARE: &'static str = "amount/share";

    pub const TOTAL_AMOUNT: &'static str = "total amount";

    pub const COMMISSION: &'static str = "commission";

    pub const TX_CURR: &'static str = "currency";

    pub const TX_FX: &'static str = "exchange rate";

    pub const COMMISSION_CURR: &'static str = "commission currency";

    pub const COMMISSION_FX: &'static str = "commission exchange rate";

    pub const SUPERFICIAL_LOSS: &'static str = "superficial loss";

    pub const SPLIT_RATIO: &'static str = "split ratio";

    pub const AFFILIATE: &'static str = "affiliate";

    pub const MEMO: &'static str = "memo";

    /// Every column name, the deprecated settlement date one included.
    pub open spec fn all_cols() -> Seq<Seq<char>> {
        seq![
            "security"@,
            "trade date"@,
            "date"@,
            "settlement date"@,
            "action"@,
            "shares"@,
            "amount/share"@,
            "total amount"@,
            "commission"@,
            "currency"@,
            "exchange rate"@,
            "commission currency"@,
            "commission exchange rate"@,
            "superficial loss"@,
            "split ratio"@,
            "affiliate"@,
            "memo"@,
        ]
    }

    /// The column names written on export, in order (no deprecated ones).
    pub open spec fn export_cols() -> Seq<Seq<char>> {
        seq![
            "security"@,
            "trade date"@,
            "settlement date"@,
            "action"@,
            "shares"@,
            "amount/share"@,
            "total amount"@,
            "commission"@,
            "currency"@,
            "exchange rate"@,
            "commission currency"@,
            "commission exchange rate"@,
            "superficial loss"@,
            "split ratio"@,
            "affiliate"@,
            "memo"@,
        ]
    }

    /// Every column name (each once), the deprecated one included.
    pub fn get_csv_cols() -> (r: Vec<&'static str>)
        ensures
            r@.map_values(|s: &str| s@) == Self::all_cols(),
    {
        let r = vec![
            CsvCol::SECURITY,
            CsvCol::TRADE_DATE,
            CsvCol::LEGACY_SETTLEMENT_DATE,
            CsvCol::SETTLEMENT_DATE,
            CsvCol::ACTION,
            CsvCol::SHARES,
            CsvCol::AMOUNT_PER_SHARE,
            CsvCol::TOTAL_AMOUNT,
            CsvCol::COMMISSION,
            CsvCol::TX_CURR,
            CsvCol::TX_FX,
            CsvCol::COMMISSION_CURR,
            CsvCol::COMMISSION_FX,
            CsvCol::SUPERFICIAL_LOSS,
            CsvCol::SPLIT_RATIO,
            CsvCol::AFFILIATE,
            CsvCol::MEMO,
        ];
        assert(r@.map_values(|s: &str| s@) =~= Self::all_cols());
        r
    }

    /// The column names written on export, in order.
    pub fn export_order_non_deprecated_cols() -> (r: [&'static str; 16])
        ensures
            r@.map_values(|s: &str| s@) == Self::export_cols(),
    {
        let r = [
            CsvCol::SECURITY,
            CsvCol::TRADE_DATE,
            CsvCol::SETTLEMENT_DATE,
            CsvCol::ACTION,
            CsvCol::SHARES,
            CsvCol::AMOUNT_PER_SHARE,
            CsvCol::TOTAL_AMOUNT,
            CsvCol::COMMISSION,
            CsvCol::TX_CURR,
            CsvCol::TX_FX,
            CsvCol::COMMISSION_CURR,
            CsvCol::COMMISSION_FX,
            CsvCol::SUPERFICIAL_LOSS,
            CsvCol::SPLIT_RATIO,
            CsvCol::AFFILIATE,
            CsvCol::MEMO,
        ];
        assert(r@.map_values(|s: &str| s@) =~= Self::export_cols());
        r
    }
}

} // verus!
