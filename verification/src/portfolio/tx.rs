//! Transactions: the flat form read from CSV files (`CsvTx`) and the checked
//! form the bookkeeping works on (`Tx`).

use vstd::prelude::*;
use crate::portfolio::currency::bad_default_rate_message;
use crate::portfolio::affiliate::{affiliate_from_strep, Affiliate};
use crate::portfolio::csv_common::CsvCol;
use crate::portfolio::currency::{consistent_rate, Currency, CurrencyAndExchangeRate};
use crate::util::date::{date_display, Date};
use crate::util::decimal::{
    decimal_checked_div, decimal_checked_mul, decimal_display, decimal_display_precision,
    decimal_parse_exact, same_value, value_lt, Dec, GreaterEqualZero, GreaterEqualZeroDecimal,
    LessEqualZero, LessEqualZeroDecimal, Pos, PosDecimal,
};
use crate::util::text::{debug_string, opt_str_debug, str_debug, regex_captures_call, regex_check_call, regex_first_captures,
    regex_is_match, regex_is_match_call, regex_pattern_valid};

verus! {

pub type Security = String;

/// What a transaction does.
#[derive(Copy, Clone, PartialEq, Eq, Hash, Debug, Structural)]
pub enum TxAction {
    Buy,
    Sell,
    /// Return of capital.
    Roc,
    /// Superficial loss ACB adjustment.
    Sfla,
    /// Stock split or reverse split.
    Split,
}

pub open spec fn action_pretty(a: TxAction) -> Seq<char> {
    match a {
        TxAction::Buy => "Buy"@,
        TxAction::Sell => "Sell"@,
        TxAction::Roc => "RoC"@,
        TxAction::Sfla => "SfLA"@,
        TxAction::Split => "Split"@,
    }
}

pub const BUY_WORD_PATTERN: &'static str = "\\b(buy|bought)\\b";

pub const SELL_WORD_PATTERN: &'static str = "\\b(sell|sold)\\b";

pub const ROC_WORD_PATTERN: &'static str = "\\b(roc)\\b";

pub const SFLA_WORD_PATTERN: &'static str = "\\b(sfla)\\b";

pub const SPLIT_WORD_PATTERN: &'static str = "\\b(split)\\b";

/// Whether a word pattern matches, ignoring case.
pub open spec fn word_matches(pattern: Seq<char>, text: Seq<char>) -> bool {
    regex_pattern_valid(pattern, true) && regex_is_match(pattern, true, text)
}

/// The action named by a word in a description (such as "Sold Short").
pub open spec fn action_from_words(text: Seq<char>) -> Option<TxAction> {
    if word_matches(BUY_WORD_PATTERN@, text) {
        Some(TxAction::Buy)
    } else if word_matches(SELL_WORD_PATTERN@, text) {
        Some(TxAction::Sell)
    } else if word_matches(ROC_WORD_PATTERN@, text) {
        Some(TxAction::Roc)
    } else if word_matches(SFLA_WORD_PATTERN@, text) {
        Some(TxAction::Sfla)
    } else if word_matches(SPLIT_WORD_PATTERN@, text) {
        Some(TxAction::Split)
    } else {
        None
    }
}

fn word_matches_exec(pattern: &str, text: &str) -> (r: bool)
    ensures
        r == word_matches(pattern@, text@),
{
    regex_check_call(pattern, true) && regex_is_match_call(pattern, true, text)
}

impl TxAction {
    pub fn pretty_str(&self) -> (r: &'static str)
        ensures
            r@ == action_pretty(*self),
    {
        match self {
            TxAction::Buy => "Buy",
            TxAction::Sell => "Sell",
            TxAction::Roc => "RoC",
            TxAction::Sfla => "SfLA",
            TxAction::Split => "Split",
        }
    }

    /// The action named by a word (any case) in `value`, such as "Sold Short".
    pub fn try_from_str(value: &str) -> (r: Result<TxAction, String>)
        ensures
            r is Ok <==> action_from_words(value@) is Some,
            r is Ok ==> r->Ok_0 == action_from_words(value@)->0,
            r is Err ==> r->Err_0@ == "Unable to parse action from '"@ + value@ + "'"@,
    {
        if word_matches_exec(BUY_WORD_PATTERN, value) {
            Ok(TxAction::Buy)
        } else if word_matches_exec(SELL_WORD_PATTERN, value) {
            Ok(TxAction::Sell)
        } else if word_matches_exec(ROC_WORD_PATTERN, value) {
            Ok(TxAction::Roc)
        } else if word_matches_exec(SFLA_WORD_PATTERN, value) {
            Ok(TxAction::Sfla)
        } else if word_matches_exec(SPLIT_WORD_PATTERN, value) {
            Ok(TxAction::Split)
        } else {
            let mut msg = "Unable to parse action from '".to_owned();
            msg.append(value);
            msg.append("'");
            Err(msg)
        }
    }
}

/// A superficial loss given by the user (zero or negative, in CAD), and
/// whether it is forced past the check against the computed one.
#[derive(PartialEq, Eq, Debug)]
pub struct SFLInput {
    pub superficial_loss: LessEqualZeroDecimal,
    pub force: bool,
}

impl SFLInput {
    /// From a value that is zero or negative.
    pub fn req_from_dec(v: Dec, force: bool) -> (r: SFLInput)
        requires
            v.mant() <= 0,
        ensures
            r.superficial_loss@ == v,
            r.force == force,
    {
        let loss = match LessEqualZeroDecimal::try_from(v) {
            Ok(l) => l,
            Err(_) => LessEqualZeroDecimal::zero(),
        };
        SFLInput { superficial_loss: loss, force }
    }
}

/// The ratio of a stock split: `post_split` shares for every `pre_split`.
/// `reverse_integer_only` (only for reverse splits written without decimals)
/// means the split must leave no fractional shares.
#[derive(PartialEq, Eq, Debug)]
pub struct SplitRatio {
    pub pre_split: PosDecimal,
    pub post_split: PosDecimal,
    pub reverse_integer_only: bool,
}

pub const SPLIT_RATIO_PATTERN: &'static str = "^\\s*([\\d\\.]+)-for-([\\d\\.]+)\\s*$";

pub const DECIMAL_DIGIT_PATTERN: &'static str = "\\.\\d";

/// The two numbers of an `N-for-M` text, if it has that form.
pub open spec fn split_ratio_parts(s: Seq<char>) -> Option<(Seq<char>, Seq<char>)> {
    if regex_pattern_valid(SPLIT_RATIO_PATTERN@, true) && regex_first_captures(
        SPLIT_RATIO_PATTERN@,
        true,
        s,
    ) is Some {
        let (_, groups, _) = regex_first_captures(SPLIT_RATIO_PATTERN@, true, s)->0;
        if groups.len() > 2 && groups[1] is Some && groups[2] is Some {
            Some((groups[1]->0, groups[2]->0))
        } else {
            None
        }
    } else {
        None
    }
}

/// The number after the shares in `N-for-M` (the N).
pub open spec fn split_post_text(s: Seq<char>) -> Seq<char> {
    let (a, _) = split_ratio_parts(s)->0;
    a
}

/// The number of shares before in `N-for-M` (the M).
pub open spec fn split_pre_text(s: Seq<char>) -> Seq<char> {
    let (_, b) = split_ratio_parts(s)->0;
    b
}

/// The text parses exactly as a positive number.
pub open spec fn parses_positive(s: Seq<char>) -> bool {
    decimal_parse_exact(s) is Some && decimal_parse_exact(s)->0.mant() > 0
}

/// Whether a number was written with a digit after a decimal point.
pub open spec fn has_decimals(s: Seq<char>) -> bool {
    regex_pattern_valid(DECIMAL_DIGIT_PATTERN@, false) && regex_is_match(DECIMAL_DIGIT_PATTERN@, false, s)
}

fn has_decimals_exec(s: &str) -> (r: bool)
    ensures
        r == has_decimals(s@),
{
    regex_check_call(DECIMAL_DIGIT_PATTERN, false) && regex_is_match_call(DECIMAL_DIGIT_PATTERN, false, s)
}

/// A positive number parsed exactly from `s`, or the error text.
fn parse_positive(s: &str) -> (r: Result<PosDecimal, String>)
    ensures
        r is Ok <==> (decimal_parse_exact(s@) is Some && decimal_parse_exact(s@)->0.mant() > 0),
        r is Ok ==> r->Ok_0@ == decimal_parse_exact(s@)->0,
{
    match Dec::parse_exact(s) {
        Ok(d) => PosDecimal::try_from(d),
        Err(e) => Err(e),
    }
}

impl SplitRatio {
    pub open spec fn spec_is_reverse(&self) -> bool {
        value_lt(self.post_split@, self.pre_split@)
    }

    /// Parses `N-for-M` (N shares after for every M before); the numbers may
    /// have decimals.
    pub fn parse(str_repr: &str) -> (r: Result<SplitRatio, String>)
        ensures
            r is Ok <==> ({
                &&& split_ratio_parts(str_repr@) is Some
                &&& parses_positive(split_post_text(str_repr@))
                &&& parses_positive(split_pre_text(str_repr@))
            }),
            r is Ok ==> ({
                let (post_s, pre_s) = split_ratio_parts(str_repr@)->0;
                let v = r->Ok_0;
                &&& v.post_split@ == decimal_parse_exact(post_s)->0
                &&& v.pre_split@ == decimal_parse_exact(pre_s)->0
                &&& v.reverse_integer_only == (v.spec_is_reverse() && !has_decimals(post_s)
                    && !has_decimals(pre_s))
            }),
            split_ratio_parts(str_repr@) is None ==> r is Err && r->Err_0@ == "\""@ + str_repr@
                + "\" does not match N-for-M split format"@,
    {
        let parts: Option<(String, String)> = if regex_check_call(SPLIT_RATIO_PATTERN, true) {
            match regex_captures_call(SPLIT_RATIO_PATTERN, true, str_repr) {
                Some((_, groups, _)) => {
                    if groups.len() > 2 {
                        match (&groups[1], &groups[2]) {
                            (Some(a), Some(b)) => Some((a.clone(), b.clone())),
                            _ => None,
                        }
                    } else {
                        None
                    }
                },
                None => None,
            }
        } else {
            None
        };
        match parts {
            Some((post_str, pre_str)) => {
                let post = parse_positive(post_str.as_str())?;
                let pre = parse_positive(pre_str.as_str())?;
                let reverse_integer_only = !has_decimals_exec(post_str.as_str())
                    && !has_decimals_exec(pre_str.as_str());
                let mut ratio = SplitRatio { pre_split: pre, post_split: post, reverse_integer_only };
                if !ratio.is_reverse_split() {
                    ratio.reverse_integer_only = false;
                }
                Ok(ratio)
            },
            None => {
                let mut msg = "\"".to_owned();
                msg.append(str_repr);
                msg.append("\" does not match N-for-M split format");
                Err(msg)
            },
        }
    }

    /// Fewer shares after than before.
    pub fn is_reverse_split(&self) -> (r: bool)
        ensures
            r == self.spec_is_reverse(),
    {
        self.post_split.get().lt(&self.pre_split.get())
    }

    /// Shares after per share before, or `None` where the quotient overflows
    /// or rounds to zero.
    pub fn pre_to_post_factor(&self) -> (r: Option<PosDecimal>)
        ensures
            r is Some <==> (decimal_checked_div(self.post_split@, self.pre_split@) is Some
                && decimal_checked_div(self.post_split@, self.pre_split@)->0.mant() != 0),
            r is Some ==> decimal_checked_div(self.post_split@, self.pre_split@) == Some(r->0@),
    {
        self.post_split.checked_div(self.pre_split)
    }

    /// `N-for-M` as it reads back to the same ratio: integers without
    /// decimals, except a reverse split that allows fractional shares, which
    /// keeps one decimal.
    pub fn to_string(&self) -> (r: String)
        ensures
            r@ == split_ratio_display(*self),
    {
        let post = self.post_split.get();
        let pre = self.pre_split.get();
        let (a, b) = if post.is_integer() && pre.is_integer() {
            if self.is_reverse_split() && !self.reverse_integer_only {
                (post.to_string_with_precision(1), pre.to_string_with_precision(1))
            } else {
                (post.to_string_with_precision(0), pre.to_string_with_precision(0))
            }
        } else {
            (post.to_string(), pre.to_string())
        };
        let mut s = a;
        s.append("-for-");
        s.append(b.as_str());
        s
    }

    /// `N-for-M` with `precision` digits after the point.
    pub fn to_string_with_precision(&self, precision: usize) -> (r: String)
        ensures
            r@ == decimal_display_precision(self.post_split@, precision as nat) + "-for-"@
                + decimal_display_precision(self.pre_split@, precision as nat),
    {
        let mut s = self.post_split.get().to_string_with_precision(precision);
        s.append("-for-");
        let b = self.pre_split.get().to_string_with_precision(precision);
        s.append(b.as_str());
        s
    }
}

pub open spec fn is_integer_value(d: Dec) -> bool {
    d.mant() % crate::util::decimal::pow10(d.scl()) == 0
}

pub open spec fn split_ratio_display(r: SplitRatio) -> Seq<char> {
    let post = r.post_split@;
    let pre = r.pre_split@;
    if is_integer_value(post) && is_integer_value(pre) {
        if r.spec_is_reverse() && !r.reverse_integer_only {
            decimal_display_precision(post, 1) + "-for-"@ + decimal_display_precision(pre, 1)
        } else {
            decimal_display_precision(post, 0) + "-for-"@ + decimal_display_precision(pre, 0)
        }
    } else {
        decimal_display(post) + "-for-"@ + decimal_display(pre)
    }
}

/// An amount given either in total or per share.
#[derive(Clone, PartialEq, Eq, Debug)]
pub enum TotalOrAmountPerShare<T> {
    Total(T),
    AmountPerShare(T),
}

#[derive(Clone, PartialEq, Eq, Debug)]
pub struct SharesAndAmount<T> {
    pub shares: T,
    pub amount_per_share: T,
}

/// A total amount, given directly or as shares times amount per share.
#[derive(Clone, PartialEq, Eq, Debug)]
pub enum TotalAmount<T> {
    ExplicitTotal(T),
    TotalByShare(SharesAndAmount<T>),
}

impl<T> TotalAmount<T> {
    pub fn from_per_share(shares: T, amount_per_share: T) -> (r: Self)
        ensures
            r == TotalAmount::TotalByShare(SharesAndAmount { shares, amount_per_share }),
    {
        TotalAmount::TotalByShare(SharesAndAmount { shares, amount_per_share })
    }

    pub fn from_total(total: T) -> (r: Self)
        ensures
            r == TotalAmount::<T>::ExplicitTotal(total),
    {
        TotalAmount::ExplicitTotal(total)
    }
}

impl TotalAmount<Dec> {
    /// The total: given, or shares times amount per share (which must not
    /// overflow).
    pub fn total_amount(&self) -> (r: Dec)
        requires
            self matches TotalAmount::TotalByShare(sa) ==> decimal_checked_mul(
                sa.shares,
                sa.amount_per_share,
            ) is Some,
        ensures
            self matches TotalAmount::ExplicitTotal(t) ==> r == t,
            self matches TotalAmount::TotalByShare(sa) ==> Some(r) == decimal_checked_mul(
                sa.shares,
                sa.amount_per_share,
            ),
    {
        match self {
            TotalAmount::ExplicitTotal(total) => *total,
            TotalAmount::TotalByShare(sa) => match sa.shares.checked_mul(&sa.amount_per_share) {
                Some(x) => x,
                None => Dec::zero(),
            },
        }
    }

    /// The total, or `None` where it is given per share and the product
    /// overflows.
    pub fn checked_total_amount(&self) -> (r: Option<Dec>)
        ensures
            self matches TotalAmount::ExplicitTotal(t) ==> r == Some(*t),
            self matches TotalAmount::TotalByShare(sa) ==> r == decimal_checked_mul(
                sa.shares,
                sa.amount_per_share,
            ),
    {
        match self {
            TotalAmount::ExplicitTotal(_) => Some(self.total_amount()),
            TotalAmount::TotalByShare(sa) => match sa.shares.checked_mul(&sa.amount_per_share) {
                Some(_) => Some(self.total_amount()),
                None => None,
            },
        }
    }
}

impl TotalAmount<PosDecimal> {
    /// The total: given, or shares times amount per share (which must neither
    /// overflow nor round to zero).
    pub fn total_amount_pos(&self) -> (r: PosDecimal)
        requires
            self matches TotalAmount::TotalByShare(sa) ==> (decimal_checked_mul(
                sa.shares@,
                sa.amount_per_share@,
            ) is Some && decimal_checked_mul(sa.shares@, sa.amount_per_share@)->0.mant() != 0),
        ensures
            self matches TotalAmount::ExplicitTotal(t) ==> r@ == t@,
            self matches TotalAmount::TotalByShare(sa) ==> Some(r@) == decimal_checked_mul(
                sa.shares@,
                sa.amount_per_share@,
            ),
    {
        match self {
            TotalAmount::ExplicitTotal(total) => *total,
            TotalAmount::TotalByShare(sa) => match sa.shares.checked_mul(sa.amount_per_share) {
                Some(x) => x,
                None => PosDecimal::one(),
            },
        }
    }

    /// The total, or `None` where it is given per share and the product
    /// overflows or rounds to zero.
    pub fn checked_total_amount_pos(&self) -> (r: Option<PosDecimal>)
        ensures
            self matches TotalAmount::ExplicitTotal(t) ==> r == Some(*t),
            self matches TotalAmount::TotalByShare(sa) ==> (r is Some <==> (decimal_checked_mul(
                sa.shares@,
                sa.amount_per_share@,
            ) is Some && decimal_checked_mul(sa.shares@, sa.amount_per_share@)->0.mant() != 0)),
            self matches TotalAmount::TotalByShare(sa) ==> (r is Some ==> Some(r->0@)
                == decimal_checked_mul(sa.shares@, sa.amount_per_share@)),
    {
        match self {
            TotalAmount::ExplicitTotal(t) => Some(*t),
            TotalAmount::TotalByShare(sa) => match sa.shares.checked_mul(sa.amount_per_share) {
                Some(_) => Some(self.total_amount_pos()),
                None => None,
            },
        }
    }
}


impl Clone for SFLInput {
    fn clone(&self) -> (r: Self)
        ensures
            r == *self,
    {
        SFLInput { superficial_loss: self.superficial_loss, force: self.force }
    }
}

impl Clone for SplitRatio {
    fn clone(&self) -> (r: Self)
        ensures
            r == *self,
    {
        SplitRatio {
            pre_split: self.pre_split,
            post_split: self.post_split,
            reverse_integer_only: self.reverse_integer_only,
        }
    }
}

/// A transaction as read from a CSV row: every field optional and
/// unchecked. Convert it to a `Tx` to process it.
#[derive(Clone, PartialEq, Eq, Debug)]
pub struct CsvTx {
    pub security: Option<Security>,
    pub trade_date: Option<Date>,
    pub settlement_date: Option<Date>,
    pub action: Option<TxAction>,
    pub shares: Option<Dec>,
    /// Exclusive with `total_amount`.
    pub amount_per_share: Option<Dec>,
    pub total_amount: Option<Dec>,
    pub commission: Option<Dec>,
    pub tx_currency: Option<Currency>,
    pub tx_curr_to_local_exchange_rate: Option<Dec>,
    pub commission_currency: Option<Currency>,
    pub commission_curr_to_local_exchange_rate: Option<Dec>,
    pub memo: Option<String>,
    pub affiliate: Option<Affiliate>,
    /// A superficial loss given by the user (zero or negative, in CAD).
    pub specified_superficial_loss: Option<SFLInput>,
    pub stock_split_ratio: Option<SplitRatio>,
    /// The order in which the row was read; breaks ties when sorting.
    pub read_index: u32,
}

pub open spec fn both_amounts_message() -> Seq<char> {
    "Both 'amount/share' and 'total amount' were specified. Only one may be specified"@
}

pub open spec fn no_amount_message() -> Seq<char> {
    "'amount/share' or 'total amount' not found"@
}

pub open spec fn aps_without_shares_message() -> Seq<char> {
    "Unable to compute amount per share. 'total amount' specified, but 'shares' not found"@
}

pub open spec fn aps_zero_shares_message() -> Seq<char> {
    "Unable to compute amount per share. 'total amount' specified, but 'shares' is zero"@
}

pub open spec fn aps_overflow_message() -> Seq<char> {
    "Unable to compute amount per share. The division overflowed"@
}

pub open spec fn total_without_shares_message() -> Seq<char> {
    "Unable to compute total amount. 'amount/share' specified, but 'shares' not found"@
}

/// Rows order by settlement date (a missing one first), then by the order
/// read.
pub open spec fn csvtx_order_lt(a: CsvTx, b: CsvTx) -> bool {
    match (a.settlement_date, b.settlement_date) {
        (None, Some(_)) => true,
        (Some(_), None) => false,
        (Some(x), Some(y)) => x.day_number() < y.day_number() || (x.day_number() == y.day_number()
            && a.read_index < b.read_index),
        (None, None) => a.read_index < b.read_index,
    }
}

impl CsvTx {
    /// Whether this row sorts before `other` (see `csvtx_order_lt`).
    pub fn sorts_before(&self, other: &CsvTx) -> (r: bool)
        ensures
            r == csvtx_order_lt(*self, *other),
    {
        match (&self.settlement_date, &other.settlement_date) {
            (None, Some(_)) => true,
            (Some(_), None) => false,
            (Some(x), Some(y)) => x.before(y) || (x.same_day(y) && self.read_index < other.read_index),
            (None, None) => self.read_index < other.read_index,
        }
    }

    /// A row with nothing filled in.
    pub fn default() -> (r: CsvTx)
        ensures
            r.security is None && r.trade_date is None && r.settlement_date is None,
            r.action is None && r.shares is None && r.amount_per_share is None,
            r.total_amount is None && r.commission is None && r.tx_currency is None,
            r.tx_curr_to_local_exchange_rate is None && r.commission_currency is None,
            r.commission_curr_to_local_exchange_rate is None && r.memo is None,
            r.affiliate is None && r.specified_superficial_loss is None,
            r.stock_split_ratio is None && r.read_index == 0,
    {
        CsvTx {
            security: None,
            trade_date: None,
            settlement_date: None,
            action: None,
            shares: None,
            amount_per_share: None,
            total_amount: None,
            commission: None,
            tx_currency: None,
            tx_curr_to_local_exchange_rate: None,
            commission_currency: None,
            commission_curr_to_local_exchange_rate: None,
            memo: None,
            affiliate: None,
            specified_superficial_loss: None,
            stock_split_ratio: None,
            read_index: 0,
        }
    }

    /// The amount given (total or per share), none, or an error where both are.
    pub fn get_opt_sane_total_or_amount_per_share(&self) -> (r: Result<
        Option<TotalOrAmountPerShare<Dec>>,
        String,
    >)
        ensures
            self.amount_per_share is Some && self.total_amount is Some ==> r is Err && r->Err_0@
                == both_amounts_message(),
            self.amount_per_share is None && self.total_amount is None ==> r == Ok::<
                Option<TotalOrAmountPerShare<Dec>>,
                String,
            >(None),
            self.amount_per_share is None && self.total_amount is Some ==> r == Ok::<
                Option<TotalOrAmountPerShare<Dec>>,
                String,
            >(Some(TotalOrAmountPerShare::Total(self.total_amount->0))),
            self.amount_per_share is Some && self.total_amount is None ==> r == Ok::<
                Option<TotalOrAmountPerShare<Dec>>,
                String,
            >(Some(TotalOrAmountPerShare::AmountPerShare(self.amount_per_share->0))),
    {
        match (self.amount_per_share, self.total_amount) {
            (None, None) => Ok(None),
            (Some(_), Some(_)) => Err(
                "Both 'amount/share' and 'total amount' were specified. Only one may be specified".to_owned(),
            ),
            (None, Some(total)) => Ok(Some(TotalOrAmountPerShare::Total(total))),
            (Some(aps), None) => Ok(Some(TotalOrAmountPerShare::AmountPerShare(aps))),
        }
    }

    /// The amount given (total or per share), or an error where neither or
    /// both are.
    pub fn get_sane_total_or_amount_per_share(&self) -> (r: Result<
        TotalOrAmountPerShare<Dec>,
        String,
    >)
        ensures
            self.amount_per_share is Some && self.total_amount is Some ==> r is Err && r->Err_0@
                == both_amounts_message(),
            self.amount_per_share is None && self.total_amount is None ==> r is Err && r->Err_0@
                == no_amount_message(),
            self.amount_per_share is None && self.total_amount is Some ==> r == Ok::<
                TotalOrAmountPerShare<Dec>,
                String,
            >(TotalOrAmountPerShare::Total(self.total_amount->0)),
            self.amount_per_share is Some && self.total_amount is None ==> r == Ok::<
                TotalOrAmountPerShare<Dec>,
                String,
            >(TotalOrAmountPerShare::AmountPerShare(self.amount_per_share->0)),
    {
        match self.get_opt_sane_total_or_amount_per_share()? {
            Some(v) => Ok(v),
            None => Err("'amount/share' or 'total amount' not found".to_owned()),
        }
    }

    /// The total amount (given, or from shares and the amount per share), none,
    /// or an error.
    pub fn get_sane_opt_total_amount(&self) -> (r: Result<Option<TotalAmount<Dec>>, String>)
        ensures
            self.amount_per_share is Some && self.total_amount is Some ==> r is Err && r->Err_0@
                == both_amounts_message(),
            self.amount_per_share is None && self.total_amount is None ==> r == Ok::<
                Option<TotalAmount<Dec>>,
                String,
            >(None),
            self.amount_per_share is None && self.total_amount is Some ==> r == Ok::<
                Option<TotalAmount<Dec>>,
                String,
            >(Some(TotalAmount::ExplicitTotal(self.total_amount->0))),
            self.amount_per_share is Some && self.total_amount is None && self.shares is None
                ==> r is Err && r->Err_0@ == total_without_shares_message(),
            self.amount_per_share is Some && self.total_amount is None && self.shares is Some
                ==> r == Ok::<Option<TotalAmount<Dec>>, String>(
                Some(
                    TotalAmount::TotalByShare(
                        SharesAndAmount {
                            shares: self.shares->0,
                            amount_per_share: self.amount_per_share->0,
                        },
                    ),
                ),
            ),
    {
        match self.get_opt_sane_total_or_amount_per_share()? {
            Some(TotalOrAmountPerShare::Total(total)) => Ok(Some(TotalAmount::ExplicitTotal(total))),
            Some(TotalOrAmountPerShare::AmountPerShare(aps)) => match self.shares {
                Some(shares) => Ok(Some(TotalAmount::from_per_share(shares, aps))),
                None => Err(
                    "Unable to compute total amount. 'amount/share' specified, but 'shares' not found".to_owned(),
                ),
            },
            None => Ok(None),
        }
    }

    /// The total amount, or an error where it is not given or cannot be found.
    pub fn get_sane_total_amount(&self) -> (r: Result<TotalAmount<Dec>, String>)
        ensures
            self.amount_per_share is Some && self.total_amount is Some ==> r is Err && r->Err_0@
                == both_amounts_message(),
            self.amount_per_share is None && self.total_amount is None ==> r is Err && r->Err_0@
                == no_amount_message(),
            self.amount_per_share is None && self.total_amount is Some ==> r == Ok::<
                TotalAmount<Dec>,
                String,
            >(TotalAmount::ExplicitTotal(self.total_amount->0)),
            self.amount_per_share is Some && self.total_amount is None && self.shares is None
                ==> r is Err && r->Err_0@ == total_without_shares_message(),
            self.amount_per_share is Some && self.total_amount is None && self.shares is Some
                ==> r == Ok::<TotalAmount<Dec>, String>(
                TotalAmount::TotalByShare(
                    SharesAndAmount {
                        shares: self.shares->0,
                        amount_per_share: self.amount_per_share->0,
                    },
                ),
            ),
    {
        match self.get_sane_opt_total_amount()? {
            Some(t) => Ok(t),
            None => Err("'amount/share' or 'total amount' not found".to_owned()),
        }
    }

    /// The amount per share (given, or the total divided by the shares), none,
    /// or an error.
    pub fn get_sane_opt_amount_per_share(&self) -> (r: Result<Option<Dec>, String>)
        ensures
            result_view(r) == opt_amount_per_share_spec(*self),
    {
        match self.get_opt_sane_total_or_amount_per_share()? {
            Some(TotalOrAmountPerShare::Total(total)) => match self.shares {
                None => Err(
                    "Unable to compute amount per share. 'total amount' specified, but 'shares' not found".to_owned(),
                ),
                Some(shares) => {
                    if shares.is_zero() {
                        Err(
                            "Unable to compute amount per share. 'total amount' specified, but 'shares' is zero".to_owned(),
                        )
                    } else {
                        match total.checked_div(&shares) {
                            Some(q) => Ok(Some(q)),
                            None => Err(
                                "Unable to compute amount per share. The division overflowed".to_owned(),
                            ),
                        }
                    }
                },
            },
            Some(TotalOrAmountPerShare::AmountPerShare(aps)) => Ok(Some(aps)),
            None => Ok(None),
        }
    }

    /// The amount per share, or an error where it is not given or cannot be
    /// found.
    pub fn get_sane_amount_per_share(&self) -> (r: Result<Dec, String>)
        ensures
            result_view(r) == amount_per_share_spec(*self),
    {
        match self.get_sane_opt_amount_per_share()? {
            Some(a) => Ok(a),
            None => Err("'amount/share' or 'total amount' not found".to_owned()),
        }
    }
}

/// A result with its error text as a sequence of characters.
pub open spec fn result_view<T>(r: Result<T, String>) -> Result<T, Seq<char>> {
    match r {
        Ok(v) => Ok(v),
        Err(e) => Err(e@),
    }
}

/// What `get_sane_opt_amount_per_share` gives for a row: the amount per
/// share given, the total divided by the shares, none, or the error text.
pub open spec fn opt_amount_per_share_spec(c: CsvTx) -> Result<Option<Dec>, Seq<char>> {
    match (c.amount_per_share, c.total_amount) {
        (None, None) => Ok(None),
        (Some(_), Some(_)) => Err((both_amounts_message())),
        (Some(aps), None) => Ok(Some(aps)),
        (None, Some(total)) => match c.shares {
            None => Err((aps_without_shares_message())),
            Some(shares) => if shares.mant() == 0 {
                Err((aps_zero_shares_message()))
            } else {
                match decimal_checked_div(total, shares) {
                    Some(q) => Ok(Some(q)),
                    None => Err((aps_overflow_message())),
                }
            },
        },
    }
}

/// What `get_sane_amount_per_share` gives for a row.
pub open spec fn amount_per_share_spec(c: CsvTx) -> Result<Dec, Seq<char>> {
    match opt_amount_per_share_spec(c) {
        Ok(Some(a)) => Ok(a),
        Ok(None) => Err((no_amount_message())),
        Err(e) => Err(e),
    }
}


/// The attributes common to buys and sells.
#[derive(PartialEq, Eq, Debug)]
pub struct BuyTxSpecifics {
    pub shares: PosDecimal,
    pub amount_per_share: GreaterEqualZeroDecimal,
    pub commission: GreaterEqualZeroDecimal,
    pub tx_currency_and_rate: CurrencyAndExchangeRate,
    pub separate_commission_currency: Option<CurrencyAndExchangeRate>,
}

pub type CommonBuySellAttrs = BuyTxSpecifics;

pub open spec fn rate_same(a: CurrencyAndExchangeRate, b: CurrencyAndExchangeRate) -> bool {
    a.currency@ == b.currency@ && a.exchange_rate@ == b.exchange_rate@
}

pub open spec fn opt_rate_same(
    a: Option<CurrencyAndExchangeRate>,
    b: Option<CurrencyAndExchangeRate>,
) -> bool {
    match (a, b) {
        (None, None) => true,
        (Some(x), Some(y)) => rate_same(x, y),
        _ => false,
    }
}

pub fn clone_rate(c: &CurrencyAndExchangeRate) -> (r: CurrencyAndExchangeRate)
    ensures
        rate_same(r, *c),
        r == *c,
{
    CurrencyAndExchangeRate { currency: c.currency.clone(), exchange_rate: c.exchange_rate }
}

pub fn clone_opt_rate(c: &Option<CurrencyAndExchangeRate>) -> (r: Option<CurrencyAndExchangeRate>)
    ensures
        opt_rate_same(r, *c),
        r == *c,
{
    match c {
        Some(x) => Some(clone_rate(x)),
        None => None,
    }
}

impl BuyTxSpecifics {
    pub open spec fn same(&self, other: &BuyTxSpecifics) -> bool {
        &&& self.shares@ == other.shares@
        &&& self.amount_per_share@ == other.amount_per_share@
        &&& self.commission@ == other.commission@
        &&& rate_same(self.tx_currency_and_rate, other.tx_currency_and_rate)
        &&& opt_rate_same(self.separate_commission_currency, other.separate_commission_currency)
    }

    pub fn from_common_buy_sell_attrs(common: CommonBuySellAttrs) -> (r: Self)
        ensures
            r == common,
    {
        common
    }

    pub fn common_buy_sell_attrs(&self) -> (r: CommonBuySellAttrs)
        ensures
            r.same(self),
            r == *self,
    {
        BuyTxSpecifics {
            shares: self.shares,
            amount_per_share: self.amount_per_share,
            commission: self.commission,
            tx_currency_and_rate: clone_rate(&self.tx_currency_and_rate),
            separate_commission_currency: clone_opt_rate(&self.separate_commission_currency),
        }
    }

    /// The commission's currency and rate: its own where given, else the
    /// transaction's.
    pub fn commission_currency_and_rate(&self) -> (r: &CurrencyAndExchangeRate)
        ensures
            *r == match self.separate_commission_currency {
                Some(c) => c,
                None => self.tx_currency_and_rate,
            },
    {
        match &self.separate_commission_currency {
            Some(c) => c,
            None => &self.tx_currency_and_rate,
        }
    }
}

#[derive(PartialEq, Eq, Debug)]
pub struct SellTxSpecifics {
    pub shares: PosDecimal,
    pub amount_per_share: GreaterEqualZeroDecimal,
    pub commission: GreaterEqualZeroDecimal,
    pub tx_currency_and_rate: CurrencyAndExchangeRate,
    pub separate_commission_currency: Option<CurrencyAndExchangeRate>,
    pub specified_superficial_loss: Option<SFLInput>,
}

impl SellTxSpecifics {
    pub open spec fn same(&self, other: &SellTxSpecifics) -> bool {
        &&& self.shares@ == other.shares@
        &&& self.amount_per_share@ == other.amount_per_share@
        &&& self.commission@ == other.commission@
        &&& rate_same(self.tx_currency_and_rate, other.tx_currency_and_rate)
        &&& opt_rate_same(self.separate_commission_currency, other.separate_commission_currency)
        &&& self.specified_superficial_loss == other.specified_superficial_loss
    }

    pub fn from_common_buy_sell_attrs(
        common: &CommonBuySellAttrs,
        specified_superficial_loss: Option<SFLInput>,
    ) -> (r: Self)
        ensures
            r.shares@ == common.shares@,
            r.amount_per_share@ == common.amount_per_share@,
            r.commission@ == common.commission@,
            rate_same(r.tx_currency_and_rate, common.tx_currency_and_rate),
            opt_rate_same(r.separate_commission_currency, common.separate_commission_currency),
            r.specified_superficial_loss == specified_superficial_loss,
    {
        SellTxSpecifics {
            shares: common.shares,
            amount_per_share: common.amount_per_share,
            commission: common.commission,
            tx_currency_and_rate: clone_rate(&common.tx_currency_and_rate),
            separate_commission_currency: clone_opt_rate(&common.separate_commission_currency),
            specified_superficial_loss,
        }
    }

    pub fn common_buy_sell_attrs(&self) -> (r: CommonBuySellAttrs)
        ensures
            r.shares@ == self.shares@,
            r.amount_per_share@ == self.amount_per_share@,
            r.commission@ == self.commission@,
            rate_same(r.tx_currency_and_rate, self.tx_currency_and_rate),
            opt_rate_same(r.separate_commission_currency, self.separate_commission_currency),
    {
        BuyTxSpecifics {
            shares: self.shares,
            amount_per_share: self.amount_per_share,
            commission: self.commission,
            tx_currency_and_rate: clone_rate(&self.tx_currency_and_rate),
            separate_commission_currency: clone_opt_rate(&self.separate_commission_currency),
        }
    }

    pub fn commission_currency_and_rate(&self) -> (r: &CurrencyAndExchangeRate)
        ensures
            *r == match self.separate_commission_currency {
                Some(c) => c,
                None => self.tx_currency_and_rate,
            },
    {
        match &self.separate_commission_currency {
            Some(c) => c,
            None => &self.tx_currency_and_rate,
        }
    }
}

/// A return of capital, in total or per held share.
#[derive(PartialEq, Eq, Debug)]
pub struct RocTxSpecifics {
    pub amount: TotalOrAmountPerShare<GreaterEqualZeroDecimal>,
    pub tx_currency_and_rate: CurrencyAndExchangeRate,
}

impl RocTxSpecifics {
    pub open spec fn same(&self, other: &RocTxSpecifics) -> bool {
        &&& self.amount == other.amount
        &&& rate_same(self.tx_currency_and_rate, other.tx_currency_and_rate)
    }

    pub fn amount_per_held_share(&self) -> (r: Option<GreaterEqualZeroDecimal>)
        ensures
            r == match self.amount {
                TotalOrAmountPerShare::Total(_) => None,
                TotalOrAmountPerShare::AmountPerShare(a) => Some(a),
            },
    {
        match &self.amount {
            TotalOrAmountPerShare::Total(_) => None,
            TotalOrAmountPerShare::AmountPerShare(a) => Some(*a),
        }
    }

    pub fn total_amount(&self) -> (r: Option<GreaterEqualZeroDecimal>)
        ensures
            r == match self.amount {
                TotalOrAmountPerShare::Total(t) => Some(t),
                TotalOrAmountPerShare::AmountPerShare(_) => None,
            },
    {
        match &self.amount {
            TotalOrAmountPerShare::Total(t) => Some(*t),
            TotalOrAmountPerShare::AmountPerShare(_) => None,
        }
    }
}

pub type TotalPosAmount = TotalAmount<PosDecimal>;

/// A superficial loss ACB adjustment (in CAD), in total or per share.
#[derive(PartialEq, Eq, Debug)]
pub struct SflaTxSpecifics {
    total: TotalPosAmount,
}

impl SflaTxSpecifics {
    pub closed spec fn amount(&self) -> TotalPosAmount {
        self.total
    }

    pub fn from_per_share(shares: PosDecimal, amount_per_share: PosDecimal) -> (r: Self)
        ensures
            r.amount() == TotalAmount::TotalByShare(SharesAndAmount { shares, amount_per_share }),
    {
        SflaTxSpecifics { total: TotalAmount::from_per_share(shares, amount_per_share) }
    }

    pub fn from_total(total: PosDecimal) -> (r: Self)
        ensures
            r.amount() == TotalAmount::<PosDecimal>::ExplicitTotal(total),
    {
        SflaTxSpecifics { total: TotalAmount::from_total(total) }
    }

    /// The adjustment, which (given per share) must neither overflow nor
    /// round to zero.
    pub fn total_amount(&self) -> (r: PosDecimal)
        requires
            self.amount() matches TotalAmount::TotalByShare(sa) ==> (decimal_checked_mul(
                sa.shares@,
                sa.amount_per_share@,
            ) is Some && decimal_checked_mul(sa.shares@, sa.amount_per_share@)->0.mant() != 0),
        ensures
            self.amount() matches TotalAmount::ExplicitTotal(t) ==> r@ == t@,
            self.amount() matches TotalAmount::TotalByShare(sa) ==> Some(r@)
                == decimal_checked_mul(sa.shares@, sa.amount_per_share@),
    {
        self.total.total_amount_pos()
    }

    /// The adjustment, or `None` where it is given per share and the product
    /// overflows or rounds to zero.
    pub fn checked_total_amount(&self) -> (r: Option<PosDecimal>)
        ensures
            self.amount() matches TotalAmount::ExplicitTotal(t) ==> r == Some(t),
            self.amount() matches TotalAmount::TotalByShare(sa) ==> (r is Some <==> (
            decimal_checked_mul(sa.shares@, sa.amount_per_share@) is Some && decimal_checked_mul(
                sa.shares@,
                sa.amount_per_share@,
            )->0.mant() != 0)),
            self.amount() matches TotalAmount::TotalByShare(sa) ==> (r is Some ==> Some(r->0@)
                == decimal_checked_mul(sa.shares@, sa.amount_per_share@)),
    {
        match &self.total {
            TotalAmount::ExplicitTotal(t) => Some(*t),
            TotalAmount::TotalByShare(sa) => sa.shares.checked_mul(sa.amount_per_share),
        }
    }

    pub fn explicit_total_amount(&self) -> (r: Option<PosDecimal>)
        ensures
            r == match self.amount() {
                TotalAmount::ExplicitTotal(t) => Some(t),
                TotalAmount::TotalByShare(_) => None,
            },
    {
        match &self.total {
            TotalAmount::ExplicitTotal(t) => Some(*t),
            TotalAmount::TotalByShare(_) => None,
        }
    }

    pub fn shares_affected(&self) -> (r: Option<PosDecimal>)
        ensures
            r == match self.amount() {
                TotalAmount::TotalByShare(sa) => Some(sa.shares),
                TotalAmount::ExplicitTotal(_) => None,
            },
    {
        match &self.total {
            TotalAmount::TotalByShare(sa) => Some(sa.shares),
            TotalAmount::ExplicitTotal(_) => None,
        }
    }

    pub fn amount_per_share(&self) -> (r: Option<PosDecimal>)
        ensures
            r == match self.amount() {
                TotalAmount::TotalByShare(sa) => Some(sa.amount_per_share),
                TotalAmount::ExplicitTotal(_) => None,
            },
    {
        match &self.total {
            TotalAmount::TotalByShare(sa) => Some(sa.amount_per_share),
            TotalAmount::ExplicitTotal(_) => None,
        }
    }

    pub fn clone_specs(&self) -> (r: Self)
        ensures
            r.amount() == self.amount(),
            r == *self,
    {
        match &self.total {
            TotalAmount::TotalByShare(sa) => SflaTxSpecifics::from_per_share(
                sa.shares,
                sa.amount_per_share,
            ),
            TotalAmount::ExplicitTotal(t) => SflaTxSpecifics::from_total(*t),
        }
    }
}

#[derive(PartialEq, Eq, Debug)]
pub struct SplitTxSpecifics {
    pub ratio: SplitRatio,
}

/// What a transaction does, with the attributes of that action.
#[derive(PartialEq, Eq, Debug)]
pub enum TxActionSpecifics {
    Buy(BuyTxSpecifics),
    Sell(SellTxSpecifics),
    Roc(RocTxSpecifics),
    Sfla(SflaTxSpecifics),
    Split(SplitTxSpecifics),
}

pub open spec fn specifics_action(s: TxActionSpecifics) -> TxAction {
    match s {
        TxActionSpecifics::Buy(_) => TxAction::Buy,
        TxActionSpecifics::Sell(_) => TxAction::Sell,
        TxActionSpecifics::Roc(_) => TxAction::Roc,
        TxActionSpecifics::Sfla(_) => TxAction::Sfla,
        TxActionSpecifics::Split(_) => TxAction::Split,
    }
}

/// Both describe the same action with the same attributes.
pub open spec fn specifics_same(a: TxActionSpecifics, b: TxActionSpecifics) -> bool {
    match (a, b) {
        (TxActionSpecifics::Buy(x), TxActionSpecifics::Buy(y)) => x.same(&y),
        (TxActionSpecifics::Sell(x), TxActionSpecifics::Sell(y)) => x.same(&y),
        (TxActionSpecifics::Roc(x), TxActionSpecifics::Roc(y)) => x.same(&y),
        (TxActionSpecifics::Sfla(x), TxActionSpecifics::Sfla(y)) => x.amount() == y.amount(),
        (TxActionSpecifics::Split(x), TxActionSpecifics::Split(y)) => x.ratio == y.ratio,
        _ => false,
    }
}

impl TxActionSpecifics {
    pub fn action(&self) -> (r: TxAction)
        ensures
            r == specifics_action(*self),
    {
        match self {
            TxActionSpecifics::Buy(_) => TxAction::Buy,
            TxActionSpecifics::Sell(_) => TxAction::Sell,
            TxActionSpecifics::Roc(_) => TxAction::Roc,
            TxActionSpecifics::Sfla(_) => TxAction::Sfla,
            TxActionSpecifics::Split(_) => TxAction::Split,
        }
    }

    pub fn clone_specs(&self) -> (r: Self)
        ensures
            specifics_same(r, *self),
            r == *self,
    {
        match self {
            TxActionSpecifics::Buy(b) => TxActionSpecifics::Buy(b.common_buy_sell_attrs()),
            TxActionSpecifics::Sell(s) => TxActionSpecifics::Sell(
                SellTxSpecifics {
                    shares: s.shares,
                    amount_per_share: s.amount_per_share,
                    commission: s.commission,
                    tx_currency_and_rate: clone_rate(&s.tx_currency_and_rate),
                    separate_commission_currency: clone_opt_rate(&s.separate_commission_currency),
                    specified_superficial_loss: match &s.specified_superficial_loss {
                        Some(l) => Some(l.clone()),
                        None => None,
                    },
                },
            ),
            TxActionSpecifics::Roc(r) => TxActionSpecifics::Roc(
                RocTxSpecifics {
                    amount: match &r.amount {
                        TotalOrAmountPerShare::Total(t) => TotalOrAmountPerShare::Total(*t),
                        TotalOrAmountPerShare::AmountPerShare(a) => TotalOrAmountPerShare::AmountPerShare(*a),
                    },
                    tx_currency_and_rate: clone_rate(&r.tx_currency_and_rate),
                },
            ),
            TxActionSpecifics::Sfla(s) => TxActionSpecifics::Sfla(s.clone_specs()),
            TxActionSpecifics::Split(s) => TxActionSpecifics::Split(
                SplitTxSpecifics { ratio: s.ratio.clone() },
            ),
        }
    }
}

/// A checked transaction on one security.
#[derive(PartialEq, Eq, Debug)]
pub struct Tx {
    pub security: Security,
    pub trade_date: Date,
    pub settlement_date: Date,
    pub action_specifics: TxActionSpecifics,
    pub memo: String,
    pub affiliate: Affiliate,
    /// The order in which it was read; breaks ties when sorting.
    pub read_index: u32,
}

/// Both transactions are the same (decimals compared as held, affiliates by
/// their data).
pub open spec fn tx_same(a: Tx, b: Tx) -> bool {
    &&& a.security@ == b.security@
    &&& a.trade_date == b.trade_date
    &&& a.settlement_date == b.settlement_date
    &&& specifics_same(a.action_specifics, b.action_specifics)
    &&& a.memo@ == b.memo@
    &&& a.affiliate@ == b.affiliate@
    &&& a.read_index == b.read_index
}

impl Tx {
    pub open spec fn spec_action(&self) -> TxAction {
        specifics_action(self.action_specifics)
    }

    pub fn action(&self) -> (r: TxAction)
        ensures
            r == self.spec_action(),
    {
        self.action_specifics.action()
    }

    pub fn buy_specifics(&self) -> (r: Result<&BuyTxSpecifics, ()>)
        ensures
            r is Ok <==> self.action_specifics is Buy,
            r is Ok ==> self.action_specifics == TxActionSpecifics::Buy(*r->Ok_0),
    {
        match &self.action_specifics {
            TxActionSpecifics::Buy(specs) => Ok(specs),
            _ => Err(()),
        }
    }

    pub fn sell_specifics(&self) -> (r: Result<&SellTxSpecifics, ()>)
        ensures
            r is Ok <==> self.action_specifics is Sell,
            r is Ok ==> self.action_specifics == TxActionSpecifics::Sell(*r->Ok_0),
    {
        match &self.action_specifics {
            TxActionSpecifics::Sell(specs) => Ok(specs),
            _ => Err(()),
        }
    }

    /// Orders by settlement date, then by read order.
    pub fn sorts_before(&self, other: &Tx) -> (r: bool)
        ensures
            r == tx_order_lt(*self, *other),
    {
        self.settlement_date.before(&other.settlement_date) || (
        self.settlement_date.same_day(&other.settlement_date) && self.read_index
            < other.read_index)
    }

    pub fn clone_tx(&self) -> (r: Tx)
        ensures
            tx_same(r, *self),
            r == *self,
    {
        Tx {
            security: self.security.clone(),
            trade_date: self.trade_date,
            settlement_date: self.settlement_date,
            action_specifics: self.action_specifics.clone_specs(),
            memo: self.memo.clone(),
            affiliate: self.affiliate.clone(),
            read_index: self.read_index,
        }
    }
}

/// Transactions order by settlement date, then by the order read.
pub open spec fn tx_order_lt(a: Tx, b: Tx) -> bool {
    a.settlement_date.day_number() < b.settlement_date.day_number() || (
    a.settlement_date.day_number() == b.settlement_date.day_number() && a.read_index
        < b.read_index)
}


/// Transactions and rows are ordered strictly and totally: by settlement
/// date, then by the order they were read in. No transaction sorts before
/// itself, two never sort before each other, the order is transitive, and of
/// two with different dates or read indexes one sorts first. Rows written from two
/// transactions are ordered as the transactions are.
pub proof fn law_tx_order_strict_total(a: Tx, b: Tx, c: Tx, ca: CsvTx, cb: CsvTx)
    requires
        csv_written(ca, a),
        csv_written(cb, b),
    ensures
        !tx_order_lt(a, a),
        tx_order_lt(a, b) ==> !tx_order_lt(b, a),
        tx_order_lt(a, b) && tx_order_lt(b, c) ==> tx_order_lt(a, c),
        (a.settlement_date.day_number() != b.settlement_date.day_number() || a.read_index
            != b.read_index) ==> tx_order_lt(a, b) || tx_order_lt(b, a),
        tx_order_lt(a, b) == csvtx_order_lt(ca, cb),
{
}

/// Rows are ordered strictly: none sorts before itself, two never sort
/// before each other, and the order is transitive.
pub proof fn law_csvtx_order_strict(a: CsvTx, b: CsvTx, c: CsvTx)
    ensures
        !csvtx_order_lt(a, a),
        csvtx_order_lt(a, b) ==> !csvtx_order_lt(b, a),
        csvtx_order_lt(a, b) && csvtx_order_lt(b, c) ==> csvtx_order_lt(a, c),
{
}

/// Whether a currency and rate pair given in a row is usable: neither, a
/// currency alone only where it is CAD, or a currency and a positive rate
/// (1 for CAD).
pub open spec fn rate_ok(curr: Option<Currency>, fx: Option<Dec>) -> bool {
    match (curr, fx) {
        (None, None) => true,
        (None, Some(_)) => false,
        (Some(c), None) => c@ == "CAD"@,
        (Some(c), Some(f)) => f.mant() > 0 && consistent_rate(c@, f),
    }
}

/// `r` is the pair read from a usable currency and rate.
pub open spec fn rate_read(
    r: Option<CurrencyAndExchangeRate>,
    curr: Option<Currency>,
    fx: Option<Dec>,
) -> bool {
    match (curr, fx) {
        (None, None) => r is None,
        (Some(c), None) => r is Some && r->0.currency@ == "CAD"@ && r->0.exchange_rate@
            == Dec::spec_new(1, 0),
        (Some(c), Some(f)) => r is Some && r->0.currency@ == c@ && r->0.exchange_rate@ == f,
        (None, Some(_)) => false,
    }
}

/// `r` is the pair read, with CAD at rate 1 where none is given.
pub open spec fn rate_read_or_default(
    r: CurrencyAndExchangeRate,
    curr: Option<Currency>,
    fx: Option<Dec>,
) -> bool {
    if curr is None && fx is None {
        r.currency@ == "CAD"@ && r.exchange_rate@ == Dec::spec_new(1, 0)
    } else {
        rate_read(Some(r), curr, fx)
    }
}

/// The message for a currency and rate pair that is not usable (see
/// `rate_ok`), naming the two columns.
pub open spec fn rate_error(
    curr_col: Seq<char>,
    curr: Option<Currency>,
    fx_col: Seq<char>,
    fx: Option<Dec>,
) -> Seq<char> {
    match (curr, fx) {
        (Some(_), None) => "\""@ + curr_col + "\" specified but \""@ + fx_col + "\" not found"@,
        (Some(c), Some(f)) => if f.mant() <= 0 {
            "\""@ + fx_col + "\" must be a positive value"@
        } else {
            bad_default_rate_message(f)
        },
        _ => "\""@ + fx_col + "\" specified but \""@ + curr_col + "\" not found"@,
    }
}

fn get_valid_exchange_rate(
    curr_col_name: &str,
    found_curr: &Option<Currency>,
    fx_col_name: &str,
    found_fx: &Option<Dec>,
) -> (r: Result<Option<CurrencyAndExchangeRate>, String>)
    ensures
        r is Ok <==> rate_ok(*found_curr, *found_fx),
        r is Ok ==> rate_read(r->Ok_0, *found_curr, *found_fx),
        r is Err ==> r->Err_0@ == rate_error(curr_col_name@, *found_curr, fx_col_name@, *found_fx),
{
    match found_curr {
        None => {
            if found_fx.is_none() {
                Ok(None)
            } else {
                let mut msg = "\"".to_owned();
                msg.append(fx_col_name);
                msg.append("\" specified but \"");
                msg.append(curr_col_name);
                msg.append("\" not found");
                Err(msg)
            }
        },
        Some(curr) => match found_fx {
            None => {
                if curr.is_default() {
                    Ok(Some(CurrencyAndExchangeRate::default()))
                } else {
                    let mut msg = "\"".to_owned();
                    msg.append(curr_col_name);
                    msg.append("\" specified but \"");
                    msg.append(fx_col_name);
                    msg.append("\" not found");
                    Err(msg)
                }
            },
            Some(rate) => {
                let pos = match PosDecimal::try_from(*rate) {
                    Ok(p) => p,
                    Err(_) => {
                        let mut msg = "\"".to_owned();
                        msg.append(fx_col_name);
                        msg.append("\" must be a positive value");
                        return Err(msg);
                    },
                };
                let pair = CurrencyAndExchangeRate::try_new(curr.clone(), pos)?;
                Ok(Some(pair))
            },
        },
    }
}

/// The commission given, or zero.
pub open spec fn commission_or_zero(c: CsvTx) -> Dec {
    match c.commission {
        Some(x) => x,
        None => Dec::spec_new(0, 0),
    }
}

/// A row's buy or sell attributes are usable.
pub open spec fn common_attrs_ok(c: CsvTx) -> bool {
    &&& c.shares is Some
    &&& amount_per_share_spec(c) is Ok
    &&& rate_ok(c.tx_currency, c.tx_curr_to_local_exchange_rate)
    &&& rate_ok(c.commission_currency, c.commission_curr_to_local_exchange_rate)
    &&& c.shares->0.mant() > 0
    &&& amount_per_share_spec(c)->Ok_0.mant() >= 0
    &&& commission_or_zero(c).mant() >= 0
}

/// `b` holds a row's buy or sell attributes.
pub open spec fn common_attrs_read(b: BuyTxSpecifics, c: CsvTx) -> bool {
    &&& b.shares@ == c.shares->0
    &&& b.amount_per_share@ == amount_per_share_spec(c)->Ok_0
    &&& b.commission@ == commission_or_zero(c)
    &&& rate_read_or_default(b.tx_currency_and_rate, c.tx_currency, c.tx_curr_to_local_exchange_rate)
    &&& rate_read(
        b.separate_commission_currency,
        c.commission_currency,
        c.commission_curr_to_local_exchange_rate,
    )
}

/// The message for a row whose buy or sell attributes are not usable: the
/// first problem found (`name` is the action's name).
pub open spec fn common_attrs_error(c: CsvTx, name: Seq<char>) -> Seq<char> {
    if c.shares is None {
        "\"shares\" not found"@
    } else if amount_per_share_spec(c) is Err {
        amount_per_share_spec(c)->Err_0
    } else if !rate_ok(c.tx_currency, c.tx_curr_to_local_exchange_rate) {
        rate_error("currency"@, c.tx_currency, "exchange rate"@, c.tx_curr_to_local_exchange_rate)
    } else if !rate_ok(c.commission_currency, c.commission_curr_to_local_exchange_rate) {
        rate_error(
            "commission currency"@,
            c.commission_currency,
            "commission exchange rate"@,
            c.commission_curr_to_local_exchange_rate,
        )
    } else if c.shares->0.mant() <= 0 {
        name + " shares must be a positive value"@
    } else if amount_per_share_spec(c)->Ok_0.mant() < 0 {
        name + " amount/share must not be negative"@
    } else {
        name + " comission must not be negative"@
    }
}

fn buy_or_sell_common_attrs_from_csv_tx(csv_tx: &CsvTx, buy_or_sell: &str) -> (r: Result<
    CommonBuySellAttrs,
    String,
>)
    ensures
        r is Ok <==> common_attrs_ok(*csv_tx),
        r is Ok ==> common_attrs_read(r->Ok_0, *csv_tx),
        r is Err ==> r->Err_0@ == common_attrs_error(*csv_tx, buy_or_sell@),
{
    let shares = match csv_tx.shares {
        Some(s) => s,
        None => {
            return Err("\"shares\" not found".to_owned());
        },
    };
    let amount_per_share = csv_tx.get_sane_amount_per_share()?;
    let commission = match csv_tx.commission {
        Some(c) => c,
        None => Dec::zero(),
    };
    let curr_and_rate = match get_valid_exchange_rate(
        CsvCol::TX_CURR,
        &csv_tx.tx_currency,
        CsvCol::TX_FX,
        &csv_tx.tx_curr_to_local_exchange_rate,
    )? {
        Some(c) => c,
        None => CurrencyAndExchangeRate::default(),
    };
    let comm_curr_and_rate = get_valid_exchange_rate(
        CsvCol::COMMISSION_CURR,
        &csv_tx.commission_currency,
        CsvCol::COMMISSION_FX,
        &csv_tx.commission_curr_to_local_exchange_rate,
    )?;
    let shares = match PosDecimal::try_from(shares) {
        Ok(s) => s,
        Err(_) => {
            let mut msg = buy_or_sell.to_owned();
            msg.append(" shares must be a positive value");
            return Err(msg);
        },
    };
    let amount_per_share = match GreaterEqualZeroDecimal::try_from(amount_per_share) {
        Ok(a) => a,
        Err(_) => {
            let mut msg = buy_or_sell.to_owned();
            msg.append(" amount/share must not be negative");
            return Err(msg);
        },
    };
    let commission = match GreaterEqualZeroDecimal::try_from(commission) {
        Ok(c) => c,
        Err(_) => {
            let mut msg = buy_or_sell.to_owned();
            msg.append(" comission must not be negative");
            return Err(msg);
        },
    };
    Ok(
        BuyTxSpecifics {
            shares,
            amount_per_share,
            commission,
            tx_currency_and_rate: curr_and_rate,
            separate_commission_currency: comm_curr_and_rate,
        },
    )
}

/// The amount of a row given in total or per share.
pub open spec fn total_or_aps_spec(c: CsvTx) -> Option<TotalOrAmountPerShare<Dec>> {
    match (c.amount_per_share, c.total_amount) {
        (None, Some(t)) => Some(TotalOrAmountPerShare::Total(t)),
        (Some(a), None) => Some(TotalOrAmountPerShare::AmountPerShare(a)),
        _ => None,
    }
}

pub open spec fn total_or_aps_value(a: TotalOrAmountPerShare<Dec>) -> Dec {
    match a {
        TotalOrAmountPerShare::Total(t) => t,
        TotalOrAmountPerShare::AmountPerShare(t) => t,
    }
}

pub open spec fn same_kind_and_value(
    g: TotalOrAmountPerShare<GreaterEqualZeroDecimal>,
    d: TotalOrAmountPerShare<Dec>,
) -> bool {
    match (g, d) {
        (TotalOrAmountPerShare::Total(x), TotalOrAmountPerShare::Total(y)) => x@ == y,
        (TotalOrAmountPerShare::AmountPerShare(x), TotalOrAmountPerShare::AmountPerShare(y)) => x@
            == y,
        _ => false,
    }
}

/// The message for a negative amount given in total or per share.
pub open spec fn negative_amount_message(name: Seq<char>, a: TotalOrAmountPerShare<Dec>) -> Seq<char> {
    match a {
        TotalOrAmountPerShare::Total(t) => name + " \""@ + CsvCol::TOTAL_AMOUNT@
            + "\" must not be negative. Found "@ + decimal_display(t),
        TotalOrAmountPerShare::AmountPerShare(t) => name + " \""@ + CsvCol::AMOUNT_PER_SHARE@
            + "\" must not be negative. Found "@ + decimal_display(t),
    }
}

fn total_or_amount_per_share_to_gez(amount: TotalOrAmountPerShare<Dec>, action_name: &str) -> (r:
    Result<TotalOrAmountPerShare<GreaterEqualZeroDecimal>, String>)
    ensures
        r is Ok <==> total_or_aps_value(amount).mant() >= 0,
        r is Ok ==> same_kind_and_value(r->Ok_0, amount),
        r is Err ==> r->Err_0@ == negative_amount_message(action_name@, amount),
{
    match amount {
        TotalOrAmountPerShare::Total(total) => match GreaterEqualZeroDecimal::try_from(total) {
            Ok(g) => Ok(TotalOrAmountPerShare::Total(g)),
            Err(_) => {
                let mut msg = action_name.to_owned();
                msg.append(" \"");
                msg.append(CsvCol::TOTAL_AMOUNT);
                msg.append("\" must not be negative. Found ");
                let shown = total.to_string();
                msg.append(shown.as_str());
                Err(msg)
            },
        },
        TotalOrAmountPerShare::AmountPerShare(aps) => match GreaterEqualZeroDecimal::try_from(aps) {
            Ok(g) => Ok(TotalOrAmountPerShare::AmountPerShare(g)),
            Err(_) => {
                let mut msg = action_name.to_owned();
                msg.append(" \"");
                msg.append(CsvCol::AMOUNT_PER_SHARE);
                msg.append("\" must not be negative. Found ");
                let shown = aps.to_string();
                msg.append(shown.as_str());
                Err(msg)
            },
        },
    }
}

/// A row's return of capital is usable.
pub open spec fn roc_ok(c: CsvTx) -> bool {
    &&& total_or_aps_spec(c) is Some
    &&& total_or_aps_value(total_or_aps_spec(c)->0).mant() >= 0
    &&& c.shares is None
    &&& rate_ok(c.tx_currency, c.tx_curr_to_local_exchange_rate)
}

/// The total amount of a row, as `get_sane_total_amount` reads it.
pub open spec fn total_amount_spec(c: CsvTx) -> Option<TotalAmount<Dec>> {
    match (c.amount_per_share, c.total_amount) {
        (None, Some(t)) => Some(TotalAmount::ExplicitTotal(t)),
        (Some(a), None) => match c.shares {
            Some(s) => Some(
                TotalAmount::TotalByShare(SharesAndAmount { shares: s, amount_per_share: a }),
            ),
            None => None,
        },
        _ => None,
    }
}

/// A row's superficial loss adjustment is usable: an amount, in CAD if a
/// currency is given, and positive.
pub open spec fn sfla_ok(c: CsvTx) -> bool {
    &&& total_amount_spec(c) is Some
    &&& rate_ok(c.tx_currency, c.tx_curr_to_local_exchange_rate)
    &&& (c.tx_currency is Some ==> c.tx_currency->0@ == "CAD"@)
    &&& match total_amount_spec(c)->0 {
        TotalAmount::ExplicitTotal(t) => t.mant() > 0,
        TotalAmount::TotalByShare(sa) => sa.shares.mant() > 0 && sa.amount_per_share.mant() > 0,
    }
}

/// The adjustment holds the row's amount.
pub open spec fn sfla_read(s: SflaTxSpecifics, c: CsvTx) -> bool {
    match (s.amount(), total_amount_spec(c)->0) {
        (TotalAmount::ExplicitTotal(x), TotalAmount::ExplicitTotal(y)) => x@ == y,
        (TotalAmount::TotalByShare(x), TotalAmount::TotalByShare(y)) => x.shares@ == y.shares
            && x.amount_per_share@ == y.amount_per_share,
        _ => false,
    }
}

/// The row's action is usable.
pub open spec fn action_ok(c: CsvTx) -> bool {
    match c.action {
        None => false,
        Some(TxAction::Buy) => common_attrs_ok(c),
        Some(TxAction::Sell) => common_attrs_ok(c),
        Some(TxAction::Roc) => roc_ok(c),
        Some(TxAction::Sfla) => sfla_ok(c),
        Some(TxAction::Split) => c.stock_split_ratio is Some,
    }
}

/// The specifics hold what the row gives for its action.
pub open spec fn action_read(s: TxActionSpecifics, c: CsvTx) -> bool {
    match (c.action, s) {
        (Some(TxAction::Buy), TxActionSpecifics::Buy(b)) => common_attrs_read(b, c),
        (Some(TxAction::Sell), TxActionSpecifics::Sell(b)) => {
            &&& b.shares@ == c.shares->0
            &&& b.amount_per_share@ == amount_per_share_spec(c)->Ok_0
            &&& b.commission@ == commission_or_zero(c)
            &&& rate_read_or_default(
                b.tx_currency_and_rate,
                c.tx_currency,
                c.tx_curr_to_local_exchange_rate,
            )
            &&& rate_read(
                b.separate_commission_currency,
                c.commission_currency,
                c.commission_curr_to_local_exchange_rate,
            )
            &&& b.specified_superficial_loss == c.specified_superficial_loss
        },
        (Some(TxAction::Roc), TxActionSpecifics::Roc(r)) => {
            &&& same_kind_and_value(r.amount, total_or_aps_spec(c)->0)
            &&& rate_read_or_default(
                r.tx_currency_and_rate,
                c.tx_currency,
                c.tx_curr_to_local_exchange_rate,
            )
        },
        (Some(TxAction::Sfla), TxActionSpecifics::Sfla(f)) => sfla_read(f, c),
        (Some(TxAction::Split), TxActionSpecifics::Split(p)) => p.ratio == c.stock_split_ratio->0,
        _ => false,
    }
}

/// A row converts to a transaction.
pub open spec fn csv_tx_ok(c: CsvTx) -> bool {
    &&& action_ok(c)
    &&& c.security is Some
    &&& c.trade_date is Some
    &&& c.settlement_date is Some
    &&& c.security->0@.len() > 0
}

/// `t` is the transaction a row converts to.
pub open spec fn tx_read(t: Tx, c: CsvTx) -> bool {
    &&& t.security@ == c.security->0@
    &&& t.trade_date == c.trade_date->0
    &&& t.settlement_date == c.settlement_date->0
    &&& action_read(t.action_specifics, c)
    &&& t.memo@ == match c.memo {
        Some(m) => m@,
        None => Seq::empty(),
    }
    &&& t.affiliate@ == match c.affiliate {
        Some(a) => a@,
        None => if c.action == Some(TxAction::Split) {
            affiliate_from_strep(global_affiliate_id())
        } else {
            affiliate_from_strep(""@)
        },
    }
    &&& t.read_index == c.read_index
}

/// The id the global affiliate is read from.
pub open spec fn global_affiliate_id() -> Seq<char> {
    "__global__"@
}

/// The message for a row without an action.
pub open spec fn no_action_message(c: CsvTx) -> Seq<char> {
    "\"action\" not specified. security: "@ + opt_str_debug(
        match c.security {
            Some(s) => Some(s@),
            None => None,
        },
    ) + ", trade date: "@ + match c.trade_date {
        Some(d) => "Some("@ + date_display(d.day_number()) + ")"@,
        None => "None"@,
    }
}

/// The message for a return of capital that cannot be read: the first
/// problem found.
pub open spec fn roc_error(c: CsvTx) -> Seq<char> {
    if total_or_aps_spec(c) is None {
        "RoC "@ + if c.amount_per_share is Some && c.total_amount is Some {
            both_amounts_message()
        } else {
            no_amount_message()
        }
    } else if total_or_aps_value(total_or_aps_spec(c)->0).mant() < 0 {
        negative_amount_message("RoC"@, total_or_aps_spec(c)->0)
    } else if c.shares is Some {
        "RoC should not specify shares (found "@ + decimal_display(c.shares->0)
            + "). This amount is automatic (the current share balance)"@
    } else {
        rate_error("currency"@, c.tx_currency, "exchange rate"@, c.tx_curr_to_local_exchange_rate)
    }
}

/// The message for a superficial loss adjustment that cannot be read: the
/// first problem found.
pub open spec fn sfla_error(c: CsvTx) -> Seq<char> {
    if total_amount_spec(c) is None {
        "SfLA "@ + if c.amount_per_share is Some && c.total_amount is Some {
            both_amounts_message()
        } else if c.amount_per_share is None && c.total_amount is None {
            no_amount_message()
        } else {
            total_without_shares_message()
        }
    } else if !rate_ok(c.tx_currency, c.tx_curr_to_local_exchange_rate) {
        rate_error("currency"@, c.tx_currency, "exchange rate"@, c.tx_curr_to_local_exchange_rate)
    } else if c.tx_currency is Some && c.tx_currency->0@ != "CAD"@ {
        "SfLA currency must be CAD/default"@
    } else {
        match total_amount_spec(c)->0 {
            TotalAmount::ExplicitTotal(t) => "SfLA total amount must be positive (found "@
                + decimal_display(t) + ")"@,
            TotalAmount::TotalByShare(sa) => if sa.shares.mant() <= 0 {
                "SfLA shares must be positive (found "@ + decimal_display(sa.shares) + ")"@
            } else {
                "SfLA amount/share must be positive (found "@ + decimal_display(
                    sa.amount_per_share,
                ) + ")"@
            },
        }
    }
}

/// The message for a row whose action cannot be read.
pub open spec fn action_error(c: CsvTx) -> Seq<char> {
    match c.action {
        None => no_action_message(c),
        Some(TxAction::Buy) => common_attrs_error(c, "Buy"@),
        Some(TxAction::Sell) => common_attrs_error(c, "Sell"@),
        Some(TxAction::Roc) => roc_error(c),
        Some(TxAction::Sfla) => sfla_error(c),
        Some(TxAction::Split) => "Split \"split ratio\" not found"@,
    }
}

/// The message for a row that does not convert to a transaction: the
/// action's problem first, then a missing security, trade date or
/// settlement date, then an empty security.
pub open spec fn try_from_error(c: CsvTx) -> Seq<char> {
    if !action_ok(c) {
        action_error(c)
    } else if c.security is None {
        "\"security\" not found"@
    } else if c.trade_date is None {
        "\"trade date\" not found"@
    } else if c.settlement_date is None {
        "\"settlement date\" not found"@
    } else {
        "\"security\" was empty"@
    }
}

fn not_found_err(col_name: &str) -> (r: String)
    ensures
        r@ == "\""@ + col_name@ + "\" not found"@,
{
    let mut msg = "\"".to_owned();
    msg.append(col_name);
    msg.append("\" not found");
    msg
}

impl Tx {
    /// The transaction a CSV row describes, or why it does not describe one.
    pub fn try_from(csv_tx: CsvTx) -> (r: Result<Tx, String>)
        ensures
            r is Ok <==> csv_tx_ok(csv_tx),
            r is Ok ==> tx_read(r->Ok_0, csv_tx),
            r is Ok ==> tx_wf(r->Ok_0),
            r is Err ==> r->Err_0@ == try_from_error(csv_tx),
    {
        let action = match csv_tx.action {
            Some(a) => a,
            None => {
                let mut msg = "\"action\" not specified. security: ".to_owned();
                match &csv_tx.security {
                    Some(s) => {
                        msg.append("Some(");
                        let shown = debug_string(s.as_str());
                        msg.append(shown.as_str());
                        msg.append(")");
                    },
                    None => {
                        msg.append("None");
                    },
                }
                msg.append(", trade date: ");
                match &csv_tx.trade_date {
                    Some(d) => {
                        msg.append("Some(");
                        let shown = d.to_string();
                        msg.append(shown.as_str());
                        msg.append(")");
                    },
                    None => {
                        msg.append("None");
                    },
                }
                return Err(msg);
            },
        };
        let act_specs = match action {
            TxAction::Buy => {
                let specs = BuyTxSpecifics::from_common_buy_sell_attrs(
                    buy_or_sell_common_attrs_from_csv_tx(&csv_tx, "Buy")?,
                );
                TxActionSpecifics::Buy(specs)
            },
            TxAction::Sell => {
                let common = buy_or_sell_common_attrs_from_csv_tx(&csv_tx, "Sell")?;
                let sfl = match &csv_tx.specified_superficial_loss {
                    Some(l) => Some(l.clone()),
                    None => None,
                };
                TxActionSpecifics::Sell(SellTxSpecifics::from_common_buy_sell_attrs(&common, sfl))
            },
            TxAction::Roc => {
                let amount_dec = match csv_tx.get_sane_total_or_amount_per_share() {
                    Ok(a) => a,
                    Err(e) => {
                        let mut msg = "RoC ".to_owned();
                        msg.append(e.as_str());
                        return Err(msg);
                    },
                };
                let amount = total_or_amount_per_share_to_gez(amount_dec, "RoC")?;
                if let Some(shares) = csv_tx.shares {
                    let mut msg = "RoC should not specify shares (found ".to_owned();
                    let shown = shares.to_string();
                    msg.append(shown.as_str());
                    msg.append(
                        "). This amount is automatic (the current share balance)",
                    );
                    return Err(msg);
                }
                let curr_and_rate = match get_valid_exchange_rate(
                    CsvCol::TX_CURR,
                    &csv_tx.tx_currency,
                    CsvCol::TX_FX,
                    &csv_tx.tx_curr_to_local_exchange_rate,
                )? {
                    Some(c) => c,
                    None => CurrencyAndExchangeRate::default(),
                };
                TxActionSpecifics::Roc(RocTxSpecifics { amount, tx_currency_and_rate: curr_and_rate })
            },
            TxAction::Sfla => {
                let amount = match csv_tx.get_sane_total_amount() {
                    Ok(a) => a,
                    Err(e) => {
                        let mut msg = "SfLA ".to_owned();
                        msg.append(e.as_str());
                        return Err(msg);
                    },
                };
                let maybe_curr_and_rate = get_valid_exchange_rate(
                    CsvCol::TX_CURR,
                    &csv_tx.tx_currency,
                    CsvCol::TX_FX,
                    &csv_tx.tx_curr_to_local_exchange_rate,
                )?;
                if let Some(curr_and_rate) = &maybe_curr_and_rate {
                    if !curr_and_rate.is_default() {
                        return Err("SfLA currency must be CAD/default".to_owned());
                    }
                }
                let sfla_specs = match amount {
                    TotalAmount::ExplicitTotal(total) => match PosDecimal::try_from(total) {
                        Ok(t) => SflaTxSpecifics::from_total(t),
                        Err(_) => {
                            let mut msg = "SfLA total amount must be positive (found ".to_owned();
                            let shown = total.to_string();
                            msg.append(shown.as_str());
                            msg.append(")");
                            return Err(msg);
                        },
                    },
                    TotalAmount::TotalByShare(sa) => {
                        let shares = match PosDecimal::try_from(sa.shares) {
                            Ok(t) => t,
                            Err(_) => {
                                let mut msg = "SfLA shares must be positive (found ".to_owned();
                                let shown = sa.shares.to_string();
                                msg.append(shown.as_str());
                                msg.append(")");
                                return Err(msg);
                            },
                        };
                        let aps = match PosDecimal::try_from(sa.amount_per_share) {
                            Ok(t) => t,
                            Err(_) => {
                                let mut msg = "SfLA amount/share must be positive (found ".to_owned();
                                let shown = sa.amount_per_share.to_string();
                                msg.append(shown.as_str());
                                msg.append(")");
                                return Err(msg);
                            },
                        };
                        SflaTxSpecifics::from_per_share(shares, aps)
                    },
                };
                TxActionSpecifics::Sfla(sfla_specs)
            },
            TxAction::Split => match &csv_tx.stock_split_ratio {
                Some(ratio) => TxActionSpecifics::Split(SplitTxSpecifics { ratio: ratio.clone() }),
                None => {
                    return Err("Split \"split ratio\" not found".to_owned());
                },
            },
        };
        let is_split = match action {
            TxAction::Split => true,
            _ => false,
        };
        let security = match &csv_tx.security {
            Some(s) => s.clone(),
            None => {
                proof {
                    reveal_strlit("\"");
                    reveal_strlit("security");
                    reveal_strlit("\" not found");
                    reveal_strlit("\"security\" not found");
                    assert("\""@ + "security"@ + "\" not found"@ =~= "\"security\" not found"@);
                }
                return Err(not_found_err(CsvCol::SECURITY));
            },
        };
        let trade_date = match csv_tx.trade_date {
            Some(d) => d,
            None => {
                proof {
                    reveal_strlit("\"");
                    reveal_strlit("trade date");
                    reveal_strlit("\" not found");
                    reveal_strlit("\"trade date\" not found");
                    assert("\""@ + "trade date"@ + "\" not found"@ =~= "\"trade date\" not found"@);
                }
                return Err(not_found_err(CsvCol::TRADE_DATE));
            },
        };
        let settlement_date = match csv_tx.settlement_date {
            Some(d) => d,
            None => {
                proof {
                    reveal_strlit("\"");
                    reveal_strlit("settlement date");
                    reveal_strlit("\" not found");
                    reveal_strlit("\"settlement date\" not found");
                    assert("\""@ + "settlement date"@ + "\" not found"@ =~= "\"settlement date\" not found"@);
                }
                return Err(not_found_err(CsvCol::SETTLEMENT_DATE));
            },
        };
        let memo = match &csv_tx.memo {
            Some(m) => m.clone(),
            None => String::new(),
        };
        let affiliate = match &csv_tx.affiliate {
            Some(a) => a.clone(),
            None => if is_split {
                Affiliate::global()
            } else {
                Affiliate::default()
            },
        };
        if security.as_str().is_empty() {
            return Err("\"security\" was empty".to_owned());
        }
        let tx = Tx {
            security,
            trade_date,
            settlement_date,
            action_specifics: act_specs,
            memo,
            affiliate,
            read_index: csv_tx.read_index,
        };
        proof {
            lemma_tx_read_wf(tx, csv_tx);
        }
        Ok(tx)
    }
}


/// The rate as written to a row: none for CAD.
pub open spec fn rate_written(r: CurrencyAndExchangeRate) -> Option<Dec> {
    if r.currency@ == "CAD"@ {
        None
    } else {
        Some(r.exchange_rate@)
    }
}

/// `c` holds the fields of a buy or sell's common attributes.
pub open spec fn common_attrs_written(c: CsvTx, b: BuyTxSpecifics) -> bool {
    &&& c.shares == Some(b.shares@)
    &&& c.amount_per_share == Some(b.amount_per_share@)
    &&& c.commission == Some(b.commission@)
    &&& c.tx_currency is Some && c.tx_currency->0@ == b.tx_currency_and_rate.currency@
    &&& c.tx_curr_to_local_exchange_rate == rate_written(b.tx_currency_and_rate)
    &&& match b.separate_commission_currency {
        Some(cr) => c.commission_currency is Some && c.commission_currency->0@ == cr.currency@
            && c.commission_curr_to_local_exchange_rate == rate_written(cr),
        None => c.commission_currency is None && c.commission_curr_to_local_exchange_rate is None,
    }
    &&& c.total_amount is None
    &&& c.stock_split_ratio is None
}

/// `c` is the row written for the action specifics `s`.
pub open spec fn action_written(c: CsvTx, s: TxActionSpecifics) -> bool {
    match s {
        TxActionSpecifics::Buy(b) => {
            &&& c.action == Some(TxAction::Buy)
            &&& common_attrs_written(c, b)
            &&& c.specified_superficial_loss is None
        },
        TxActionSpecifics::Sell(b) => {
            &&& c.action == Some(TxAction::Sell)
            &&& common_attrs_written(c, b.common_spec())
            &&& c.specified_superficial_loss == b.specified_superficial_loss
        },
        TxActionSpecifics::Roc(r) => {
            &&& c.action == Some(TxAction::Roc)
            &&& c.amount_per_share == match r.amount {
                TotalOrAmountPerShare::AmountPerShare(a) => Some(a@),
                TotalOrAmountPerShare::Total(_) => None,
            }
            &&& c.total_amount == match r.amount {
                TotalOrAmountPerShare::Total(t) => Some(t@),
                TotalOrAmountPerShare::AmountPerShare(_) => None,
            }
            &&& c.tx_currency is Some && c.tx_currency->0@ == r.tx_currency_and_rate.currency@
            &&& c.tx_curr_to_local_exchange_rate == rate_written(r.tx_currency_and_rate)
            &&& c.shares is None && c.commission is None
            &&& c.commission_currency is None && c.commission_curr_to_local_exchange_rate is None
            &&& c.specified_superficial_loss is None && c.stock_split_ratio is None
        },
        TxActionSpecifics::Sfla(f) => {
            &&& c.action == Some(TxAction::Sfla)
            &&& match f.amount() {
                TotalAmount::TotalByShare(sa) => c.shares == Some(sa.shares@)
                    && c.amount_per_share == Some(sa.amount_per_share@) && c.total_amount is None,
                TotalAmount::ExplicitTotal(t) => c.shares is None && c.amount_per_share is None
                    && c.total_amount == Some(t@),
            }
            &&& c.commission is None && c.tx_currency is None
            &&& c.tx_curr_to_local_exchange_rate is None
            &&& c.commission_currency is None && c.commission_curr_to_local_exchange_rate is None
            &&& c.specified_superficial_loss is None && c.stock_split_ratio is None
        },
        TxActionSpecifics::Split(p) => {
            &&& c.action == Some(TxAction::Split)
            &&& c.stock_split_ratio == Some(p.ratio)
            &&& c.shares is None && c.amount_per_share is None && c.total_amount is None
            &&& c.commission is None && c.tx_currency is None
            &&& c.tx_curr_to_local_exchange_rate is None
            &&& c.commission_currency is None && c.commission_curr_to_local_exchange_rate is None
            &&& c.specified_superficial_loss is None
        },
    }
}

/// `c` is the row written for the transaction `t`.
pub open spec fn csv_written(c: CsvTx, t: Tx) -> bool {
    &&& action_written(c, t.action_specifics)
    &&& c.security is Some && c.security->0@ == t.security@
    &&& c.trade_date == Some(t.trade_date)
    &&& c.settlement_date == Some(t.settlement_date)
    &&& c.memo is Some && c.memo->0@ == t.memo@
    &&& c.affiliate is Some && c.affiliate->0@ == t.affiliate@
    &&& c.read_index == t.read_index
}

impl SellTxSpecifics {
    /// The attributes a sell shares with a buy.
    pub open spec fn common_spec(&self) -> BuyTxSpecifics {
        BuyTxSpecifics {
            shares: self.shares,
            amount_per_share: self.amount_per_share,
            commission: self.commission,
            tx_currency_and_rate: self.tx_currency_and_rate,
            separate_commission_currency: self.separate_commission_currency,
        }
    }
}

fn rate_to_csv(r: &CurrencyAndExchangeRate) -> (res: Option<Dec>)
    ensures
        res == rate_written(*r),
{
    if r.is_default() {
        None
    } else {
        Some(r.exchange_rate.get())
    }
}

fn populate_buy_sell_common_attrs(tx: &mut CsvTx, c: &CommonBuySellAttrs)
    ensures
        final(tx).shares == Some(c.shares@),
        final(tx).amount_per_share == Some(c.amount_per_share@),
        final(tx).commission == Some(c.commission@),
        final(tx).tx_currency is Some && final(tx).tx_currency->0@
            == c.tx_currency_and_rate.currency@,
        final(tx).tx_curr_to_local_exchange_rate == rate_written(c.tx_currency_and_rate),
        match c.separate_commission_currency {
            Some(cr) => final(tx).commission_currency is Some && final(tx).commission_currency->0@
                == cr.currency@ && final(tx).commission_curr_to_local_exchange_rate
                == rate_written(cr),
            None => final(tx).commission_currency is None
                && final(tx).commission_curr_to_local_exchange_rate is None,
        },
        final(tx).security == old(tx).security,
        final(tx).trade_date == old(tx).trade_date,
        final(tx).settlement_date == old(tx).settlement_date,
        final(tx).action == old(tx).action,
        final(tx).total_amount == old(tx).total_amount,
        final(tx).memo == old(tx).memo,
        final(tx).affiliate == old(tx).affiliate,
        final(tx).specified_superficial_loss == old(tx).specified_superficial_loss,
        final(tx).stock_split_ratio == old(tx).stock_split_ratio,
        final(tx).read_index == old(tx).read_index,
{
    tx.shares = Some(c.shares.get());
    tx.amount_per_share = Some(c.amount_per_share.get());
    tx.commission = Some(c.commission.get());
    tx.tx_currency = Some(c.tx_currency_and_rate.currency.clone());
    tx.tx_curr_to_local_exchange_rate = rate_to_csv(&c.tx_currency_and_rate);
    match &c.separate_commission_currency {
        Some(cr) => {
            tx.commission_currency = Some(cr.currency.clone());
            tx.commission_curr_to_local_exchange_rate = rate_to_csv(cr);
        },
        None => {
            tx.commission_currency = None;
            tx.commission_curr_to_local_exchange_rate = None;
        },
    }
}

fn populate_csvtx_fields_from_action_specifics(specs: &TxActionSpecifics, tx: &mut CsvTx)
    requires
        old(tx).shares is None && old(tx).amount_per_share is None,
        old(tx).total_amount is None && old(tx).commission is None,
        old(tx).tx_currency is None && old(tx).tx_curr_to_local_exchange_rate is None,
        old(tx).commission_currency is None,
        old(tx).commission_curr_to_local_exchange_rate is None,
        old(tx).specified_superficial_loss is None && old(tx).stock_split_ratio is None,
    ensures
        action_written(*final(tx), *specs),
        final(tx).security == old(tx).security,
        final(tx).trade_date == old(tx).trade_date,
        final(tx).settlement_date == old(tx).settlement_date,
        final(tx).memo == old(tx).memo,
        final(tx).affiliate == old(tx).affiliate,
        final(tx).read_index == old(tx).read_index,
{
    match specs {
        TxActionSpecifics::Buy(s) => {
            tx.action = Some(TxAction::Buy);
            populate_buy_sell_common_attrs(tx, s);
        },
        TxActionSpecifics::Sell(s) => {
            tx.action = Some(TxAction::Sell);
            let common = s.common_buy_sell_attrs();
            populate_buy_sell_common_attrs(tx, &common);
            tx.specified_superficial_loss = match &s.specified_superficial_loss {
                Some(l) => Some(l.clone()),
                None => None,
            };
        },
        TxActionSpecifics::Roc(s) => {
            tx.action = Some(TxAction::Roc);
            tx.amount_per_share = match s.amount_per_held_share() {
                Some(v) => Some(v.get()),
                None => None,
            };
            tx.total_amount = match s.total_amount() {
                Some(v) => Some(v.get()),
                None => None,
            };
            tx.tx_currency = Some(s.tx_currency_and_rate.currency.clone());
            tx.tx_curr_to_local_exchange_rate = rate_to_csv(&s.tx_currency_and_rate);
        },
        TxActionSpecifics::Sfla(s) => {
            tx.action = Some(TxAction::Sfla);
            tx.shares = match s.shares_affected() {
                Some(v) => Some(v.get()),
                None => None,
            };
            tx.amount_per_share = match s.amount_per_share() {
                Some(v) => Some(v.get()),
                None => None,
            };
            tx.total_amount = match s.explicit_total_amount() {
                Some(v) => Some(v.get()),
                None => None,
            };
        },
        TxActionSpecifics::Split(s) => {
            tx.action = Some(TxAction::Split);
            tx.stock_split_ratio = Some(s.ratio.clone());
        },
    }
}

impl Tx {
    /// The CSV row for this transaction.
    pub fn to_csvtx(&self) -> (r: CsvTx)
        ensures
            csv_written(r, *self),
    {
        let mut csvtx = CsvTx::default();
        populate_csvtx_fields_from_action_specifics(&self.action_specifics, &mut csvtx);
        csvtx.security = Some(self.security.clone());
        csvtx.trade_date = Some(self.trade_date);
        csvtx.settlement_date = Some(self.settlement_date);
        csvtx.memo = Some(self.memo.clone());
        csvtx.affiliate = Some(self.affiliate.clone());
        csvtx.read_index = self.read_index;
        csvtx
    }
}

/// Two currency and rate pairs are the same currency at the same rate (the
/// rate compared by value).
pub open spec fn rate_equiv(a: CurrencyAndExchangeRate, b: CurrencyAndExchangeRate) -> bool {
    a.currency@ == b.currency@ && same_value(a.exchange_rate@, b.exchange_rate@)
}

pub open spec fn opt_rate_equiv(
    a: Option<CurrencyAndExchangeRate>,
    b: Option<CurrencyAndExchangeRate>,
) -> bool {
    match (a, b) {
        (None, None) => true,
        (Some(x), Some(y)) => rate_equiv(x, y),
        _ => false,
    }
}

/// Both describe the same action with the same attributes, exchange rates
/// compared by value.
pub open spec fn specifics_equiv(a: TxActionSpecifics, b: TxActionSpecifics) -> bool {
    match (a, b) {
        (TxActionSpecifics::Buy(x), TxActionSpecifics::Buy(y)) => {
            &&& x.shares@ == y.shares@
            &&& x.amount_per_share@ == y.amount_per_share@
            &&& x.commission@ == y.commission@
            &&& rate_equiv(x.tx_currency_and_rate, y.tx_currency_and_rate)
            &&& opt_rate_equiv(x.separate_commission_currency, y.separate_commission_currency)
        },
        (TxActionSpecifics::Sell(x), TxActionSpecifics::Sell(y)) => {
            &&& x.shares@ == y.shares@
            &&& x.amount_per_share@ == y.amount_per_share@
            &&& x.commission@ == y.commission@
            &&& rate_equiv(x.tx_currency_and_rate, y.tx_currency_and_rate)
            &&& opt_rate_equiv(x.separate_commission_currency, y.separate_commission_currency)
            &&& x.specified_superficial_loss == y.specified_superficial_loss
        },
        (TxActionSpecifics::Roc(x), TxActionSpecifics::Roc(y)) => {
            &&& roc_amount_same(x.amount, y.amount)
            &&& rate_equiv(x.tx_currency_and_rate, y.tx_currency_and_rate)
        },
        (TxActionSpecifics::Sfla(x), TxActionSpecifics::Sfla(y)) => match (x.amount(), y.amount()) {
            (TotalAmount::ExplicitTotal(p), TotalAmount::ExplicitTotal(q)) => p@ == q@,
            (TotalAmount::TotalByShare(p), TotalAmount::TotalByShare(q)) => p.shares@ == q.shares@
                && p.amount_per_share@ == q.amount_per_share@,
            _ => false,
        },
        (TxActionSpecifics::Split(x), TxActionSpecifics::Split(y)) => x.ratio == y.ratio,
        _ => false,
    }
}

/// Both amounts are given the same way, with the same value.
pub open spec fn roc_amount_same(
    a: TotalOrAmountPerShare<GreaterEqualZeroDecimal>,
    b: TotalOrAmountPerShare<GreaterEqualZeroDecimal>,
) -> bool {
    match (a, b) {
        (TotalOrAmountPerShare::Total(x), TotalOrAmountPerShare::Total(y)) => x@ == y@,
        (TotalOrAmountPerShare::AmountPerShare(x), TotalOrAmountPerShare::AmountPerShare(y)) => x@
            == y@,
        _ => false,
    }
}

/// Both transactions are the same, exchange rates compared by value. This is
/// `Tx`'s `==` (decimals compare by value there) or stronger: every other
/// field is compared as it is held.
pub open spec fn tx_equiv(a: Tx, b: Tx) -> bool {
    &&& a.security@ == b.security@
    &&& a.trade_date == b.trade_date
    &&& a.settlement_date == b.settlement_date
    &&& specifics_equiv(a.action_specifics, b.action_specifics)
    &&& a.memo@ == b.memo@
    &&& a.affiliate@ == b.affiliate@
    &&& a.read_index == b.read_index
}

/// A currency pair as a transaction holds it: a positive rate, 1 for CAD.
pub open spec fn rate_wf(r: CurrencyAndExchangeRate) -> bool {
    r.wf() && r.exchange_rate@.mant() > 0
}

pub open spec fn opt_rate_wf(r: Option<CurrencyAndExchangeRate>) -> bool {
    match r {
        Some(c) => rate_wf(c),
        None => true,
    }
}

/// A transaction as the conversion from a row makes them: a security,
/// positive shares and rates (CAD only at the rate 1), non-negative amounts
/// and positive adjustments. (The sign facts hold of every value of the
/// constrained decimal types; they are spelled out for ghost values.)
pub open spec fn tx_wf(t: Tx) -> bool {
    &&& t.security@.len() > 0
    &&& match t.action_specifics {
        TxActionSpecifics::Buy(b) => {
            &&& b.shares@.mant() > 0
            &&& b.amount_per_share@.mant() >= 0
            &&& b.commission@.mant() >= 0
            &&& rate_wf(b.tx_currency_and_rate)
            &&& opt_rate_wf(b.separate_commission_currency)
        },
        TxActionSpecifics::Sell(b) => {
            &&& b.shares@.mant() > 0
            &&& b.amount_per_share@.mant() >= 0
            &&& b.commission@.mant() >= 0
            &&& rate_wf(b.tx_currency_and_rate)
            &&& opt_rate_wf(b.separate_commission_currency)
        },
        TxActionSpecifics::Roc(r) => {
            &&& rate_wf(r.tx_currency_and_rate)
            &&& match r.amount {
                TotalOrAmountPerShare::Total(x) => x@.mant() >= 0,
                TotalOrAmountPerShare::AmountPerShare(x) => x@.mant() >= 0,
            }
        },
        TxActionSpecifics::Sfla(f) => match f.amount() {
            TotalAmount::ExplicitTotal(x) => x@.mant() > 0,
            TotalAmount::TotalByShare(sa) => sa.shares@.mant() > 0 && sa.amount_per_share@.mant()
                > 0,
        },
        _ => true,
    }
}

/// A pair read from a usable currency and rate is one a transaction may
/// hold.
proof fn lemma_rate_read_wf(r: CurrencyAndExchangeRate, curr: Option<Currency>, fx: Option<Dec>)
    requires
        rate_ok(curr, fx),
        rate_read_or_default(r, curr, fx),
    ensures
        rate_wf(r),
{
    crate::util::decimal::lemma_spec_new(1, 0);
    crate::util::decimal::lemma_pow10_pos(0);
}

proof fn lemma_opt_rate_read_wf(
    r: Option<CurrencyAndExchangeRate>,
    curr: Option<Currency>,
    fx: Option<Dec>,
)
    requires
        rate_ok(curr, fx),
        rate_read(r, curr, fx),
    ensures
        opt_rate_wf(r),
{
    if let Some(x) = r {
        lemma_rate_read_wf(x, curr, fx);
    }
}

/// A transaction read from a row is well formed.
proof fn lemma_tx_read_wf(t: Tx, c: CsvTx)
    requires
        csv_tx_ok(c),
        tx_read(t, c),
    ensures
        tx_wf(t),
{
    match t.action_specifics {
        TxActionSpecifics::Buy(b) => {
            lemma_rate_read_wf(b.tx_currency_and_rate, c.tx_currency, c.tx_curr_to_local_exchange_rate);
            lemma_opt_rate_read_wf(
                b.separate_commission_currency,
                c.commission_currency,
                c.commission_curr_to_local_exchange_rate,
            );
        },
        TxActionSpecifics::Sell(b) => {
            lemma_rate_read_wf(b.tx_currency_and_rate, c.tx_currency, c.tx_curr_to_local_exchange_rate);
            lemma_opt_rate_read_wf(
                b.separate_commission_currency,
                c.commission_currency,
                c.commission_curr_to_local_exchange_rate,
            );
        },
        TxActionSpecifics::Roc(r) => {
            lemma_rate_read_wf(r.tx_currency_and_rate, c.tx_currency, c.tx_curr_to_local_exchange_rate);
        },
        _ => {},
    }
}

proof fn lemma_rate_round_trip(orig: CurrencyAndExchangeRate, c: CsvTx, read: CurrencyAndExchangeRate)
    requires
        rate_wf(orig),
        c.tx_currency is Some && c.tx_currency->0@ == orig.currency@,
        c.tx_curr_to_local_exchange_rate == rate_written(orig),
        rate_read_or_default(read, c.tx_currency, c.tx_curr_to_local_exchange_rate),
    ensures
        rate_ok(c.tx_currency, c.tx_curr_to_local_exchange_rate),
        rate_equiv(read, orig),
{
    crate::util::decimal::lemma_pow10_pos(orig.exchange_rate@.scl());
}

/// Writing a transaction as a CSV row and reading the row back gives the
/// same transaction (exchange rates compared by value: CAD's rate of 1 reads
/// back as 1).
pub proof fn law_tx_csv_round_trip(t: Tx, c: CsvTx, back: Tx)
    requires
        tx_wf(t),
        csv_written(c, t),
        tx_read(back, c),
    ensures
        csv_tx_ok(c),
        tx_equiv(back, t),
{
    match t.action_specifics {
        TxActionSpecifics::Buy(b) => {
            if let TxActionSpecifics::Buy(x) = back.action_specifics {
                lemma_rate_round_trip(b.tx_currency_and_rate, c, x.tx_currency_and_rate);
                lemma_commission_round_trip(b.separate_commission_currency, c, x.separate_commission_currency);
            }
        },
        TxActionSpecifics::Sell(b) => {
            if let TxActionSpecifics::Sell(x) = back.action_specifics {
                lemma_rate_round_trip(b.tx_currency_and_rate, c, x.tx_currency_and_rate);
                lemma_commission_round_trip(b.separate_commission_currency, c, x.separate_commission_currency);
            }
        },
        TxActionSpecifics::Roc(r) => {
            if let TxActionSpecifics::Roc(x) = back.action_specifics {
                lemma_rate_round_trip(r.tx_currency_and_rate, c, x.tx_currency_and_rate);
            }
        },
        _ => {},
    }
}

/// For every action, `Tx::try_from(tx.to_csvtx())` gives `Ok(tx)` back for a
/// transaction `tx` that `Tx::try_from` read from a row `c`: the row that
/// `to_csvtx` writes (`csv_written`) converts (`csv_tx_ok`, so `try_from`
/// returns `Ok`), and the transaction read from it (`tx_read`) equals `tx`
/// (`tx_equiv`, which implies `==`).
pub proof fn law_read_transaction_round_trip(c: CsvTx, t: Tx, written: CsvTx, back: Tx)
    requires
        csv_tx_ok(c),
        tx_read(t, c),
        csv_written(written, t),
        tx_read(back, written),
    ensures
        csv_tx_ok(written),
        tx_equiv(back, t),
{
    lemma_tx_read_wf(t, c);
    law_tx_csv_round_trip(t, written, back);
}

proof fn lemma_commission_round_trip(
    orig: Option<CurrencyAndExchangeRate>,
    c: CsvTx,
    read: Option<CurrencyAndExchangeRate>,
)
    requires
        opt_rate_wf(orig),
        match orig {
            Some(cr) => c.commission_currency is Some && c.commission_currency->0@ == cr.currency@
                && c.commission_curr_to_local_exchange_rate == rate_written(cr),
            None => c.commission_currency is None && c.commission_curr_to_local_exchange_rate is None,
        },
        rate_read(read, c.commission_currency, c.commission_curr_to_local_exchange_rate),
    ensures
        rate_ok(c.commission_currency, c.commission_curr_to_local_exchange_rate),
        opt_rate_equiv(read, orig),
{
    if let Some(o) = orig {
        crate::util::decimal::lemma_pow10_pos(o.exchange_rate@.scl());
    }
}

} // verus!
