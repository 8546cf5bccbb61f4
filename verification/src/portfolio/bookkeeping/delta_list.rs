//! The ACB bookkeeping: from the transactions of one security to the holdings
//! before and after each of them, with capital gains and superficial losses.

use vstd::prelude::*;
use crate::portfolio::affiliate::{Affiliate, AffiliateView};
use crate::portfolio::bookkeeping::portfolio_status::{
    after_post_status, next_pre_status, post_status_fits, AffiliatePortfolioSecurityStatuses,
    StatusesView,
};
use crate::portfolio::bookkeeping::superficial_loss::{
    buyers_total, get_superficial_loss_ratio, overflow_message, sfl_info_spec, sfl_numerator,
    sfl_ratio_matches, sold_shares, split_factor, SflInfoView, SflRatioResultResult,
};
use crate::portfolio::currency::CurrencyAndExchangeRate;
use crate::portfolio::tx::{
    action_pretty, is_integer_value, tx_same, BuyTxSpecifics, SellTxSpecifics, SflaTxSpecifics,
    TotalAmount, TotalOrAmountPerShare, Tx, TxActionSpecifics,
};
use crate::portfolio::txdelta::{DeltaSflInfo, PortfolioSecurityStatus, StatusView, TxDelta};
use crate::util::date::date_display;
use crate::util::decimal::{
    decimal_checked_add, decimal_checked_div, decimal_checked_mul, decimal_checked_sub,
    decimal_display, decimal_display_precision, value_lt, Dec, GreaterEqualZeroDecimal,
    LessEqualZeroDecimal, NegDecimal, PosDecimal,
};
use crate::util::math::{effective_cent, maybe_round_to_effective_cent, PosDecimalRatio};
use crate::util::text::{chars_lt, lemma_chars_lt_order, str_lt};

verus! {

/// The numbers a transaction leaves its affiliate with.
pub struct DeltaNumbers {
    pub share_balance: Dec,
    pub all_affiliate_share_balance: Dec,
    pub total_acb: Option<Dec>,
    /// The capital gain (before any superficial loss is taken off).
    pub capital_gain: Option<Dec>,
}

pub open spec fn zero() -> Dec {
    Dec::spec_new(0, 0)
}

/// `a * b * c`, as `rust_decimal` computes it left to right.
pub open spec fn mul3(a: Dec, b: Dec, c: Dec) -> Option<Dec> {
    match decimal_checked_mul(a, b) {
        Some(x) => decimal_checked_mul(x, c),
        None => None,
    }
}

pub open spec fn rate_of(r: CurrencyAndExchangeRate) -> Dec {
    r.exchange_rate@
}

pub open spec fn commission_rate(
    tx_rate: CurrencyAndExchangeRate,
    separate: Option<CurrencyAndExchangeRate>,
) -> Dec {
    match separate {
        Some(c) => c.exchange_rate@,
        None => tx_rate.exchange_rate@,
    }
}

/// "In <action> transaction of <security> on <date>".
pub open spec fn tx_prefix(tx: Tx) -> Seq<char> {
    "In "@ + action_pretty(tx.spec_action()) + " transaction of "@ + tx.security@ + " on "@
        + date_display(tx.trade_date.day_number())
}

pub open spec fn delta_overflow_message(tx: Tx) -> Seq<char> {
    tx_prefix(tx) + " an amount overflowed"@
}

/// What is wrong with the status a transaction starts from, if anything.
pub open spec fn sanity_error(pre: StatusView, tx: Tx) -> Option<Seq<char>> {
    if value_lt(pre.all_affiliate_share_balance, pre.share_balance) {
        Some(
            tx_prefix(tx) + " the share balance across all affiliates ("@ + decimal_display(
                pre.all_affiliate_share_balance,
            ) + ") is lower than the share balance for the affiliate of the transaction ("@
                + decimal_display(pre.share_balance) + ")"@,
        )
    } else if tx.affiliate@.registered && pre.total_acb is Some {
        Some(tx_prefix(tx) + " found an ACB on a registered affiliate"@)
    } else if !tx.affiliate@.registered && pre.total_acb is None {
        Some(tx_prefix(tx) + " found an invalid ACB (none)"@)
    } else {
        None
    }
}

pub open spec fn buy_numbers(pre: StatusView, tx: Tx, b: BuyTxSpecifics) -> Result<
    DeltaNumbers,
    Seq<char>,
> {
    match (
        decimal_checked_add(pre.share_balance, b.shares@),
        decimal_checked_add(pre.all_affiliate_share_balance, b.shares@),
    ) {
        (Some(ns), Some(na)) => match pre.total_acb {
            None => Ok(
                DeltaNumbers {
                    share_balance: ns,
                    all_affiliate_share_balance: na,
                    total_acb: None,
                    capital_gain: None,
                },
            ),
            Some(old) => match (
                mul3(b.amount_per_share@, b.shares@, rate_of(b.tx_currency_and_rate)),
                decimal_checked_mul(
                    b.commission@,
                    commission_rate(b.tx_currency_and_rate, b.separate_commission_currency),
                ),
            ) {
                (Some(v), Some(c)) => match decimal_checked_add(v, c) {
                    Some(price) => match decimal_checked_add(old, price) {
                        Some(n) => Ok(
                            DeltaNumbers {
                                share_balance: ns,
                                all_affiliate_share_balance: na,
                                total_acb: Some(n),
                                capital_gain: None,
                            },
                        ),
                        None => Err(delta_overflow_message(tx)),
                    },
                    None => Err(delta_overflow_message(tx)),
                },
                _ => Err(delta_overflow_message(tx)),
            },
        },
        _ => Err(delta_overflow_message(tx)),
    }
}

pub open spec fn sell_more_than_holdings_message(tx: Tx, sold: Dec, held: Dec) -> Seq<char> {
    "Sell order on "@ + date_display(tx.trade_date.day_number()) + " of "@ + decimal_display(sold)
        + " shares of "@ + tx.security@ + " is more than the current holdings ("@
        + decimal_display(held) + ")"@
}

pub open spec fn sell_more_than_total_message(tx: Tx, sold: Dec, held: Dec) -> Seq<char> {
    "Sell order on "@ + date_display(tx.trade_date.day_number()) + " of "@ + decimal_display(sold)
        + " shares of "@ + tx.security@
        + " is more than the current total holdings across affiliates ("@ + decimal_display(held)
        + ")"@
}

/// The ACB per share: zero without shares.
pub open spec fn acb_per_share(acb: Dec, shares: Dec) -> Option<Dec> {
    if shares.mant() == 0 {
        Some(zero())
    } else {
        decimal_checked_div(acb, shares)
    }
}

pub open spec fn sell_numbers(pre: StatusView, tx: Tx, x: SellTxSpecifics) -> Result<
    DeltaNumbers,
    Seq<char>,
> {
    match decimal_checked_sub(pre.share_balance, x.shares@) {
        None => Err(delta_overflow_message(tx)),
        Some(ns) => if ns.mant() < 0 {
            Err(sell_more_than_holdings_message(tx, x.shares@, pre.share_balance))
        } else {
            match decimal_checked_sub(pre.all_affiliate_share_balance, x.shares@) {
                None => Err(delta_overflow_message(tx)),
                Some(na) => if na.mant() < 0 {
                    Err(
                        sell_more_than_total_message(
                            tx,
                            x.shares@,
                            pre.all_affiliate_share_balance,
                        ),
                    )
                } else {
                    match pre.total_acb {
                        None => Ok(
                            DeltaNumbers {
                                share_balance: ns,
                                all_affiliate_share_balance: na,
                                total_acb: None,
                                capital_gain: None,
                            },
                        ),
                        Some(acb) => match acb_per_share(acb, pre.share_balance) {
                            None => Err(delta_overflow_message(tx)),
                            Some(per) => match (
                                decimal_checked_mul(ns, per),
                                mul3(
                                    x.amount_per_share@,
                                    x.shares@,
                                    rate_of(x.tx_currency_and_rate),
                                ),
                                decimal_checked_mul(
                                    x.commission@,
                                    commission_rate(
                                        x.tx_currency_and_rate,
                                        x.separate_commission_currency,
                                    ),
                                ),
                                decimal_checked_mul(per, x.shares@),
                            ) {
                                (Some(nacb), Some(v), Some(c), Some(cost)) => match decimal_checked_sub(
                                    v,
                                    c,
                                ) {
                                    Some(payout) => match decimal_checked_sub(payout, cost) {
                                        Some(g) => Ok(
                                            DeltaNumbers {
                                                share_balance: ns,
                                                all_affiliate_share_balance: na,
                                                total_acb: Some(nacb),
                                                capital_gain: Some(g),
                                            },
                                        ),
                                        None => Err(delta_overflow_message(tx)),
                                    },
                                    None => Err(delta_overflow_message(tx)),
                                },
                                _ => Err(delta_overflow_message(tx)),
                            },
                        },
                    }
                },
            }
        },
    }
}

pub open spec fn registered_no_acb_message(tx: Tx, action: Seq<char>) -> Seq<char> {
    "Invalid "@ + action + " tx on "@ + date_display(tx.trade_date.day_number())
        + ": Registered affiliates do not have an ACB"@
}

pub open spec fn roc_numbers(
    pre: StatusView,
    tx: Tx,
    amount: TotalOrAmountPerShare<GreaterEqualZeroDecimal>,
    rate: CurrencyAndExchangeRate,
) -> Result<DeltaNumbers, Seq<char>> {
    match pre.total_acb {
        None => Err(registered_no_acb_message(tx, "RoC"@)),
        Some(old) => match (match amount {
            TotalOrAmountPerShare::Total(t) => decimal_checked_mul(t@, rate_of(rate)),
            TotalOrAmountPerShare::AmountPerShare(a) => mul3(
                a@,
                pre.share_balance,
                rate_of(rate),
            ),
        }) {
            None => Err(delta_overflow_message(tx)),
            Some(a) => match decimal_checked_sub(old, a) {
                None => Err(delta_overflow_message(tx)),
                Some(n) => if n.mant() < 0 {
                    Err(
                        "Invalid RoC tx on "@ + date_display(tx.trade_date.day_number())
                            + ": RoC ("@ + decimal_display(a) + ") exceeds the current ACB ("@
                            + decimal_display(old) + ")"@,
                    )
                } else {
                    Ok(
                        DeltaNumbers {
                            share_balance: pre.share_balance,
                            all_affiliate_share_balance: pre.all_affiliate_share_balance,
                            total_acb: Some(n),
                            capital_gain: None,
                        },
                    )
                },
            },
        },
    }
}

/// The total of a superficial loss adjustment, where it is positive.
pub open spec fn sfla_total(f: SflaTxSpecifics) -> Option<Dec> {
    match f.amount() {
        TotalAmount::ExplicitTotal(t) => Some(t@),
        TotalAmount::TotalByShare(sa) => match decimal_checked_mul(
            sa.shares@,
            sa.amount_per_share@,
        ) {
            Some(x) => if x.mant() != 0 {
                Some(x)
            } else {
                None
            },
            None => None,
        },
    }
}

pub open spec fn sfla_numbers(pre: StatusView, tx: Tx, f: SflaTxSpecifics) -> Result<
    DeltaNumbers,
    Seq<char>,
> {
    match pre.total_acb {
        None => Err(
            "Invalid SfLA tx on "@ + date_display(tx.trade_date.day_number())
                + ": Registered affiliates do not have an ACB to adjust"@,
        ),
        Some(old) => match sfla_total(f) {
            None => Err(delta_overflow_message(tx)),
            Some(t) => match decimal_checked_add(old, t) {
                Some(n) => Ok(
                    DeltaNumbers {
                        share_balance: pre.share_balance,
                        all_affiliate_share_balance: pre.all_affiliate_share_balance,
                        total_acb: Some(n),
                        capital_gain: None,
                    },
                ),
                None => Err(delta_overflow_message(tx)),
            },
        },
    }
}

pub open spec fn reverse_split_message(tx: Tx, shares: Dec) -> Seq<char> {
    let ratio = tx.action_specifics->Split_0.ratio;
    "Reverse stock split of "@ + tx.security@ + " on "@ + date_display(tx.trade_date.day_number())
        + " results in non-integer share balance of "@ + decimal_display(shares)
        + ". Resolve by either adding a sale of the odd-lot shares (immediately preceding the split), or specify the split ratio with decimal precision (i.e. \""@
        + decimal_display_precision(ratio.post_split@, 1) + "-for-"@ + decimal_display_precision(
        ratio.pre_split@,
        1,
    ) + "\" to enable fractional shares"@
}

pub open spec fn split_numbers(pre: StatusView, tx: Tx) -> Result<DeltaNumbers, Seq<char>> {
    let ratio = tx.action_specifics->Split_0.ratio;
    match split_factor(tx) {
        None => Err(delta_overflow_message(tx)),
        Some(f) => match decimal_checked_mul(pre.share_balance, f) {
            None => Err(delta_overflow_message(tx)),
            Some(ns) => match decimal_checked_sub(ns, pre.share_balance) {
                None => Err(delta_overflow_message(tx)),
                Some(diff) => match decimal_checked_add(pre.all_affiliate_share_balance, diff) {
                    None => Err(delta_overflow_message(tx)),
                    Some(na) => if na.mant() < 0 {
                        Err(
                            "Stock split on "@ + date_display(tx.trade_date.day_number())
                                + " caused all-affiliate share balance to become negative"@,
                        )
                    } else if ratio.spec_is_reverse() && ratio.reverse_integer_only
                        && !is_integer_value(ns) {
                        Err(reverse_split_message(tx, ns))
                    } else {
                        Ok(
                            DeltaNumbers {
                                share_balance: ns,
                                all_affiliate_share_balance: na,
                                total_acb: pre.total_acb,
                                capital_gain: None,
                            },
                        )
                    },
                },
            },
        },
    }
}

/// The numbers a transaction leaves its affiliate with, from the status it
/// starts from (before any superficial loss is taken off a sale).
pub open spec fn delta_numbers(pre: StatusView, tx: Tx) -> Result<DeltaNumbers, Seq<char>> {
    match sanity_error(pre, tx) {
        Some(e) => Err(e),
        None => match tx.action_specifics {
            TxActionSpecifics::Buy(b) => buy_numbers(pre, tx, b),
            TxActionSpecifics::Sell(x) => sell_numbers(pre, tx, x),
            TxActionSpecifics::Roc(r) => roc_numbers(pre, tx, r.amount, r.tx_currency_and_rate),
            TxActionSpecifics::Sfla(f) => sfla_numbers(pre, tx, f),
            TxActionSpecifics::Split(_) => split_numbers(pre, tx),
        },
    }
}

fn overflow_in(tx: &Tx) -> (r: String)
    ensures
        r@ == delta_overflow_message(*tx),
{
    let mut msg = prefix_of(tx);
    msg.append(" an amount overflowed");
    msg
}

fn prefix_of(tx: &Tx) -> (r: String)
    ensures
        r@ == tx_prefix(*tx),
{
    let mut msg = String::from_str("In ");
    msg.append(tx.action().pretty_str());
    msg.append(" transaction of ");
    msg.append(tx.security.as_str());
    msg.append(" on ");
    msg.append(tx.trade_date.to_string().as_str());
    msg
}

/// Checks the status a transaction starts from: the total share balance is
/// at least the affiliate's, and there is an ACB exactly where the affiliate
/// is not registered.
pub fn sanity_check_ptfs(pre_tx_status: &PortfolioSecurityStatus, tx: &Tx) -> (r: Result<(), String>)
    ensures
        r is Ok <==> sanity_error(pre_tx_status@, *tx) is None,
        r matches Err(e) ==> sanity_error(pre_tx_status@, *tx) == Some(e@),
{
    if pre_tx_status.all_affiliate_share_balance.get().lt(&pre_tx_status.share_balance.get()) {
        let mut msg = prefix_of(tx);
        msg.append(" the share balance across all affiliates (");
        msg.append(pre_tx_status.all_affiliate_share_balance.get().to_string().as_str());
        msg.append(") is lower than the share balance for the affiliate of the transaction (");
        msg.append(pre_tx_status.share_balance.get().to_string().as_str());
        msg.append(")");
        Err(msg)
    } else if tx.affiliate.registered() && pre_tx_status.total_acb.is_some() {
        let mut msg = prefix_of(tx);
        msg.append(" found an ACB on a registered affiliate");
        Err(msg)
    } else if !tx.affiliate.registered() && pre_tx_status.total_acb.is_none() {
        let mut msg = prefix_of(tx);
        msg.append(" found an invalid ACB (none)");
        Err(msg)
    } else {
        Ok(())
    }
}

fn mul3_exec(a: Dec, b: Dec, c: Dec) -> (r: Option<Dec>)
    ensures
        r == mul3(a, b, c),
        r is Some && a.mant() >= 0 && b.mant() >= 0 && c.mant() >= 0 ==> r->0.mant() >= 0,
{
    match a.checked_mul(&b) {
        Some(x) => x.checked_mul(&c),
        None => None,
    }
}

fn commission_rate_exec(
    tx_rate: &CurrencyAndExchangeRate,
    separate: &Option<CurrencyAndExchangeRate>,
) -> (r: Dec)
    ensures
        r == commission_rate(*tx_rate, *separate),
        r.mant() > 0,
{
    match separate {
        Some(c) => c.exchange_rate.get(),
        None => tx_rate.exchange_rate.get(),
    }
}

fn to_gez(d: Dec) -> (r: GreaterEqualZeroDecimal)
    requires
        d.mant() >= 0,
    ensures
        r@ == d,
{
    GreaterEqualZeroDecimal::try_from(d).unwrap()
}

fn buy_numbers_exec(pre: &PortfolioSecurityStatus, tx: &Tx, b: &BuyTxSpecifics) -> (r: Result<
    (GreaterEqualZeroDecimal, GreaterEqualZeroDecimal, Option<GreaterEqualZeroDecimal>),
    String,
>)
    ensures
        match buy_numbers(pre@, *tx, *b) {
            Ok(n) => r matches Ok((s, a, acb)) && s@ == n.share_balance
                && a@ == n.all_affiliate_share_balance && crate::portfolio::txdelta::opt_dec_view(acb)
                == n.total_acb,
            Err(e) => r matches Err(e2) && e2@ == e,
        },
{
    let ns = pre.share_balance.get().checked_add(&b.shares.get());
    let na = pre.all_affiliate_share_balance.get().checked_add(&b.shares.get());
    let (ns, na) = match (ns, na) {
        (Some(x), Some(y)) => (to_gez(x), to_gez(y)),
        _ => {
            return Err(overflow_in(tx));
        },
    };
    match pre.total_acb {
        None => Ok((ns, na, None)),
        Some(old) => {
            let v = mul3_exec(
                b.amount_per_share.get(),
                b.shares.get(),
                b.tx_currency_and_rate.exchange_rate.get(),
            );
            let c = b.commission.get().checked_mul(
                &commission_rate_exec(&b.tx_currency_and_rate, &b.separate_commission_currency),
            );
            let (v, c) = match (v, c) {
                (Some(v), Some(c)) => (v, c),
                _ => {
                    return Err(overflow_in(tx));
                },
            };
            let price = match v.checked_add(&c) {
                Some(p) => p,
                None => {
                    return Err(overflow_in(tx));
                },
            };
            match old.get().checked_add(&price) {
                Some(n) => Ok((ns, na, Some(to_gez(n)))),
                None => Err(overflow_in(tx)),
            }
        },
    }
}

/// The numbers as exec values: share balance, total share balance, ACB and
/// capital gain.
pub type NumbersExec = (
    GreaterEqualZeroDecimal,
    GreaterEqualZeroDecimal,
    Option<GreaterEqualZeroDecimal>,
    Option<Dec>,
);

pub open spec fn numbers_match(r: NumbersExec, n: DeltaNumbers) -> bool {
    &&& r.0@ == n.share_balance
    &&& r.1@ == n.all_affiliate_share_balance
    &&& crate::portfolio::txdelta::opt_dec_view(r.2) == n.total_acb
    &&& r.3 == n.capital_gain
}

pub open spec fn numbers_result_match(
    r: Result<NumbersExec, String>,
    n: Result<DeltaNumbers, Seq<char>>,
) -> bool {
    match n {
        Ok(n) => r matches Ok(x) && numbers_match(x, n),
        Err(e) => r matches Err(e2) && e2@ == e,
    }
}

fn sell_numbers_exec(pre: &PortfolioSecurityStatus, tx: &Tx, x: &SellTxSpecifics) -> (r: Result<
    NumbersExec,
    String,
>)
    ensures
        numbers_result_match(r, sell_numbers(pre@, *tx, *x)),
{
    let sold = x.shares.get();
    let ns = match pre.share_balance.get().checked_sub(&sold) {
        Some(v) => v,
        None => {
            return Err(overflow_in(tx));
        },
    };
    if ns.is_negative() {
        let mut msg = String::from_str("Sell order on ");
        msg.append(tx.trade_date.to_string().as_str());
        msg.append(" of ");
        msg.append(sold.to_string().as_str());
        msg.append(" shares of ");
        msg.append(tx.security.as_str());
        msg.append(" is more than the current holdings (");
        msg.append(pre.share_balance.get().to_string().as_str());
        msg.append(")");
        return Err(msg);
    }
    let na = match pre.all_affiliate_share_balance.get().checked_sub(&sold) {
        Some(v) => v,
        None => {
            return Err(overflow_in(tx));
        },
    };
    if na.is_negative() {
        let mut msg = String::from_str("Sell order on ");
        msg.append(tx.trade_date.to_string().as_str());
        msg.append(" of ");
        msg.append(sold.to_string().as_str());
        msg.append(" shares of ");
        msg.append(tx.security.as_str());
        msg.append(" is more than the current total holdings across affiliates (");
        msg.append(pre.all_affiliate_share_balance.get().to_string().as_str());
        msg.append(")");
        return Err(msg);
    }
    let acb = match pre.total_acb {
        None => {
            return Ok((to_gez(ns), to_gez(na), None, None));
        },
        Some(a) => a.get(),
    };
    let shares = pre.share_balance.get();
    let per = if shares.is_zero() {
        Dec::zero()
    } else {
        match acb.checked_div(&shares) {
            Some(p) => p,
            None => {
                return Err(overflow_in(tx));
            },
        }
    };
    let nacb = ns.checked_mul(&per);
    let v = mul3_exec(x.amount_per_share.get(), sold, x.tx_currency_and_rate.exchange_rate.get());
    let c = x.commission.get().checked_mul(
        &commission_rate_exec(&x.tx_currency_and_rate, &x.separate_commission_currency),
    );
    let cost = per.checked_mul(&sold);
    let (nacb, v, c, cost) = match (nacb, v, c, cost) {
        (Some(a), Some(b), Some(c), Some(d)) => (a, b, c, d),
        _ => {
            return Err(overflow_in(tx));
        },
    };
    let payout = match v.checked_sub(&c) {
        Some(p) => p,
        None => {
            return Err(overflow_in(tx));
        },
    };
    match payout.checked_sub(&cost) {
        Some(g) => Ok((to_gez(ns), to_gez(na), Some(to_gez(nacb)), Some(g))),
        None => Err(overflow_in(tx)),
    }
}

fn no_acb_error(tx: &Tx, action: &str) -> (r: String)
    ensures
        r@ == registered_no_acb_message(*tx, action@),
{
    let mut msg = String::from_str("Invalid ");
    msg.append(action);
    msg.append(" tx on ");
    msg.append(tx.trade_date.to_string().as_str());
    msg.append(": Registered affiliates do not have an ACB");
    msg
}

fn roc_numbers_exec(
    pre: &PortfolioSecurityStatus,
    tx: &Tx,
    amount: &TotalOrAmountPerShare<GreaterEqualZeroDecimal>,
    rate: &CurrencyAndExchangeRate,
) -> (r: Result<NumbersExec, String>)
    ensures
        numbers_result_match(r, roc_numbers(pre@, *tx, *amount, *rate)),
{
    let old = match pre.total_acb {
        None => {
            return Err(no_acb_error(tx, "RoC"));
        },
        Some(a) => a.get(),
    };
    let a = match amount {
        TotalOrAmountPerShare::Total(t) => t.get().checked_mul(&rate.exchange_rate.get()),
        TotalOrAmountPerShare::AmountPerShare(aps) => mul3_exec(
            aps.get(),
            pre.share_balance.get(),
            rate.exchange_rate.get(),
        ),
    };
    let a = match a {
        Some(a) => a,
        None => {
            return Err(overflow_in(tx));
        },
    };
    let n = match old.checked_sub(&a) {
        Some(n) => n,
        None => {
            return Err(overflow_in(tx));
        },
    };
    if n.is_negative() {
        let mut msg = String::from_str("Invalid RoC tx on ");
        msg.append(tx.trade_date.to_string().as_str());
        msg.append(": RoC (");
        msg.append(a.to_string().as_str());
        msg.append(") exceeds the current ACB (");
        msg.append(old.to_string().as_str());
        msg.append(")");
        return Err(msg);
    }
    Ok((pre.share_balance, pre.all_affiliate_share_balance, Some(to_gez(n)), None))
}

fn sfla_numbers_exec(pre: &PortfolioSecurityStatus, tx: &Tx, f: &SflaTxSpecifics) -> (r: Result<
    NumbersExec,
    String,
>)
    ensures
        numbers_result_match(r, sfla_numbers(pre@, *tx, *f)),
{
    let old = match pre.total_acb {
        None => {
            let mut msg = String::from_str("Invalid SfLA tx on ");
            msg.append(tx.trade_date.to_string().as_str());
            msg.append(": Registered affiliates do not have an ACB to adjust");
            return Err(msg);
        },
        Some(a) => a.get(),
    };
    let t = match f.checked_total_amount() {
        Some(t) => t.get(),
        None => {
            return Err(overflow_in(tx));
        },
    };
    match old.checked_add(&t) {
        Some(n) => Ok((pre.share_balance, pre.all_affiliate_share_balance, Some(to_gez(n)), None)),
        None => Err(overflow_in(tx)),
    }
}

fn split_numbers_exec(pre: &PortfolioSecurityStatus, tx: &Tx) -> (r: Result<NumbersExec, String>)
    requires
        tx.action_specifics is Split,
    ensures
        numbers_result_match(r, split_numbers(pre@, *tx)),
{
    let ratio = match &tx.action_specifics {
        TxActionSpecifics::Split(sp) => &sp.ratio,
        _ => {
            return Err(overflow_in(tx));
        },
    };
    let f = match ratio.pre_to_post_factor() {
        Some(f) => f.get(),
        None => {
            return Err(overflow_in(tx));
        },
    };
    let ns = match pre.share_balance.get().checked_mul(&f) {
        Some(n) => n,
        None => {
            return Err(overflow_in(tx));
        },
    };
    let diff = match ns.checked_sub(&pre.share_balance.get()) {
        Some(d) => d,
        None => {
            return Err(overflow_in(tx));
        },
    };
    let na = match pre.all_affiliate_share_balance.get().checked_add(&diff) {
        Some(n) => n,
        None => {
            return Err(overflow_in(tx));
        },
    };
    if na.is_negative() {
        let mut msg = String::from_str("Stock split on ");
        msg.append(tx.trade_date.to_string().as_str());
        msg.append(" caused all-affiliate share balance to become negative");
        return Err(msg);
    }
    if ratio.is_reverse_split() && ratio.reverse_integer_only && !ns.is_integer() {
        let mut msg = String::from_str("Reverse stock split of ");
        msg.append(tx.security.as_str());
        msg.append(" on ");
        msg.append(tx.trade_date.to_string().as_str());
        msg.append(" results in non-integer share balance of ");
        msg.append(ns.to_string().as_str());
        msg.append(
            ". Resolve by either adding a sale of the odd-lot shares (immediately preceding the split), or specify the split ratio with decimal precision (i.e. \"",
        );
        msg.append(ratio.post_split.get().to_string_with_precision(1).as_str());
        msg.append("-for-");
        msg.append(ratio.pre_split.get().to_string_with_precision(1).as_str());
        msg.append("\" to enable fractional shares");
        return Err(msg);
    }
    Ok((to_gez(ns), to_gez(na), pre.total_acb, None))
}

/// The numbers a transaction leaves its affiliate with (see `delta_numbers`).
pub fn delta_numbers_exec(pre: &PortfolioSecurityStatus, tx: &Tx) -> (r: Result<NumbersExec, String>)
    ensures
        numbers_result_match(r, delta_numbers(pre@, *tx)),
{
    match sanity_check_ptfs(pre, tx) {
        Ok(()) => {},
        Err(e) => {
            return Err(e);
        },
    }
    match &tx.action_specifics {
        TxActionSpecifics::Buy(b) => {
            let r = buy_numbers_exec(pre, tx, b);
            match r {
                Ok((s, a, acb)) => Ok((s, a, acb, None)),
                Err(e) => Err(e),
            }
        },
        TxActionSpecifics::Sell(x) => sell_numbers_exec(pre, tx, x),
        TxActionSpecifics::Roc(r) => roc_numbers_exec(pre, tx, &r.amount, &r.tx_currency_and_rate),
        TxActionSpecifics::Sfla(f) => sfla_numbers_exec(pre, tx, f),
        TxActionSpecifics::Split(_) => split_numbers_exec(pre, tx),
    }
}

pub open spec fn sfl_arith_message() -> Seq<char> {
    "Superficial loss amount could not be computed"@
}

/// The superficial loss a scan result implies for a capital loss: the loss
/// times the ratio, rounded to an effective cent (zero where the loss is not
/// superficial); `None` where that cannot be computed.
pub open spec fn sfl_calculated(m: Option<SflInfoView>, sold: Dec, cap_loss: Dec) -> Option<Dec> {
    match m {
        None => Some(zero()),
        Some(v) => match decimal_checked_div(sfl_numerator(sold, v), sold) {
            Some(q) => if q.mant() != 0 {
                match decimal_checked_mul(cap_loss, q) {
                    Some(p) => if p.mant() != 0 && effective_cent(p).mant() <= 0 {
                        Some(effective_cent(p))
                    } else {
                        None
                    },
                    None => None,
                }
            } else {
                None
            },
            None => None,
        },
    }
}

/// The largest difference allowed between a given superficial loss and the
/// computed one: 0.001.
pub open spec fn max_sfl_diff() -> Dec {
    Dec::spec_new(1, 3)
}

pub open spec fn sfl_mismatch_message(tx: Tx, specified: Dec, calc: Dec) -> Seq<char> {
    "Sell order on "@ + date_display(tx.trade_date.day_number()) + " of "@ + tx.security@
        + ": superficial loss was specified, but the difference between the specified value ("@
        + decimal_display(specified) + ") and the computed value ("@ + decimal_display(calc)
        + ") is greater than the max allowed discrepancy (0.001).\nTo force this SFL value, append an '!' to the value"@
}

pub open spec fn err_is(r: Result<Option<(DeltaSflInfo, Vec<Tx>)>, String>, e: Seq<char>) -> bool {
    r matches Err(e2) && e2@ == e
}

/// The outcome where the superficial loss was given with the sale.
pub open spec fn specified_sfl_outcome(
    tx: Tx,
    sold: Dec,
    specified: Dec,
    force: bool,
    calc: Dec,
    cap_loss: Dec,
    r: Result<Option<(DeltaSflInfo, Vec<Tx>)>, String>,
) -> bool {
    let diff = decimal_checked_sub(calc, specified);
    if !force && diff is None {
        err_is(r, sfl_arith_message())
    } else if !force && value_lt(max_sfl_diff(), diff->0.abs_spec()) {
        err_is(r, sfl_mismatch_message(tx, specified, calc))
    } else if specified.mant() == 0 {
        r matches Ok(None)
    } else {
        match decimal_checked_div(specified, cap_loss) {
            Some(q) => if q.mant() == 0 {
                err_is(r, sfl_arith_message())
            } else {
                match decimal_checked_mul(q, sold) {
                    Some(n) => if n.mant() == 0 {
                        err_is(r, sfl_arith_message())
                    } else {
                        r matches Ok(Some((info, adj))) && {
                            &&& info.superficial_loss == specified
                            &&& info.ratio.numerator@ == n
                            &&& info.ratio.denominator@ == sold
                            &&& !info.potentially_over_applied
                            &&& adj@.len() == 0
                        }
                    },
                    None => err_is(r, sfl_arith_message()),
                }
            },
            None => err_is(r, sfl_arith_message()),
        }
    }
}

/// A buying affiliate gets an automatic adjustment: the buyers hold shares,
/// it holds some, and it is not registered.
pub open spec fn buyer_qualifies(v: SflInfoView, total: Dec, i: int) -> bool {
    &&& total.mant() > 0
    &&& v.active[v.buyers[i].id].mant() != 0
    &&& !v.buyers[i].registered
}

/// The adjustment of an affiliate holding `num` of the buyers' `total`
/// shares, and its percentage of the loss; `None` where they cannot be
/// computed.
pub open spec fn sfla_parts(calc: Dec, num: Dec, total: Dec) -> Option<(Dec, Dec)> {
    match decimal_checked_div(num, total) {
        Some(q) => if q.mant() == 0 {
            None
        } else {
            match (
                decimal_checked_mul(Dec::spec_new(-1, 0), calc),
                decimal_checked_mul(q, Dec::spec_new(100, 0)),
            ) {
                (Some(p), Some(pct)) => if p.mant() == 0 {
                    None
                } else {
                    match decimal_checked_mul(p, q) {
                        Some(a) => if a.mant() != 0 {
                            Some((a, pct))
                        } else {
                            None
                        },
                        None => None,
                    }
                },
                _ => None,
            }
        },
        None => None,
    }
}

pub open spec fn sfla_memo(pct: Dec, num: Dec, total: Dec, sfl_num: Dec, sold: Dec) -> Seq<char> {
    "Automatic SfL ACB adjustment. "@ + decimal_display_precision(pct, 2) + "% ("@
        + decimal_display(num) + seq!['/'] + decimal_display(total) + ") of SfL, which was "@
        + decimal_display(sfl_num) + seq!['/'] + decimal_display(sold) + " of sale shares."@
}

/// `t` is the automatic adjustment for buyer `i` after the sale `sale`.
pub open spec fn auto_sfla_tx(
    sale: Tx,
    v: SflInfoView,
    i: int,
    sold: Dec,
    calc: Dec,
    total: Dec,
    t: Tx,
) -> bool {
    let num = v.active[v.buyers[i].id];
    let parts = sfla_parts(calc, num, total)->0;
    &&& sfla_parts(calc, num, total) is Some
    &&& t.security@ == sale.security@
    &&& t.trade_date == sale.trade_date
    &&& t.settlement_date == sale.settlement_date
    &&& t.action_specifics matches TxActionSpecifics::Sfla(f) && f.amount() matches TotalAmount::TotalByShare(sa)
        && sa.shares@ == Dec::spec_new(1, 0) && sa.amount_per_share@ == parts.0
    &&& t.memo@ == sfla_memo(parts.1, num, total, sfl_numerator(sold, v), sold)
    &&& t.affiliate@ == v.buyers[i]
    &&& t.read_index == sale.read_index
}

/// `adj` holds the adjustments for the buyers at `order`: exactly the
/// qualifying ones, in order of affiliate id.
pub open spec fn adjust_txs_in_order(
    sale: Tx,
    v: SflInfoView,
    sold: Dec,
    calc: Dec,
    total: Dec,
    adj: Seq<Tx>,
    order: Seq<int>,
) -> bool {
    &&& order.len() == adj.len()
    &&& forall|m: int|
        0 <= m < order.len() ==> {
            &&& 0 <= #[trigger] order[m] < v.buyers.len()
            &&& buyer_qualifies(v, total, order[m])
            &&& auto_sfla_tx(sale, v, order[m], sold, calc, total, adj[m])
        }
    &&& forall|i: int|
        0 <= i < v.buyers.len() && #[trigger] buyer_qualifies(v, total, i) ==> order.contains(i)
    &&& forall|m1: int, m2: int|
        0 <= m1 < m2 < order.len() ==> chars_lt(
            v.buyers[#[trigger] order[m1]].id,
            v.buyers[#[trigger] order[m2]].id,
        )
}

/// The automatic adjustments: one for each qualifying buyer, in order of
/// affiliate id.
pub open spec fn auto_adjust_txs(
    sale: Tx,
    v: SflInfoView,
    sold: Dec,
    calc: Dec,
    total: Dec,
    adj: Seq<Tx>,
) -> bool {
    exists|order: Seq<int>| #[trigger] adjust_txs_in_order(sale, v, sold, calc, total, adj, order)
}

/// The outcome of an automatically detected superficial loss.
pub open spec fn auto_sfl_outcome(
    sale: Tx,
    v: SflInfoView,
    sold: Dec,
    calc: Dec,
    total: Dec,
    r: Result<Option<(DeltaSflInfo, Vec<Tx>)>, String>,
) -> bool {
    if calc.mant() == 0 {
        err_is(r, sfl_arith_message())
    } else if !(forall|i: int|
        0 <= i < v.buyers.len() && #[trigger] buyer_qualifies(v, total, i) ==> sfla_parts(
            calc,
            v.active[v.buyers[i].id],
            total,
        ) is Some) {
        err_is(r, sfl_arith_message())
    } else {
        r matches Ok(Some((info, adj))) && {
            &&& info.superficial_loss == calc
            &&& info.ratio.numerator@ == sfl_numerator(sold, v)
            &&& info.ratio.denominator@ == sold
            &&& info.potentially_over_applied == value_lt(total, sfl_numerator(sold, v))
            &&& auto_adjust_txs(sale, v, sold, calc, total, adj@)
        }
    }
}

/// The superficial loss of the sale at `idx` with capital loss `cap_loss`:
/// the one given with the sale (checked against the computed one unless
/// forced), or the computed one with automatic adjustments for the buying
/// affiliates; `None` where there is none.
pub open spec fn delta_sfl_outcome(
    idx: int,
    txs: Seq<Tx>,
    s: StatusesView,
    cap_loss: Dec,
    r: Result<Option<(DeltaSflInfo, Vec<Tx>)>, String>,
) -> bool {
    let tx = txs[idx];
    let x = tx.action_specifics->Sell_0;
    let sold = x.shares@;
    match sfl_info_spec(idx, txs, s) {
        Err(e) => err_is(r, e),
        Ok(m) => if m matches Some(v) && buyers_total(v.buyers, v.active) is None {
            err_is(r, overflow_message())
        } else {
            match sfl_calculated(m, sold, cap_loss) {
                None => err_is(r, sfl_arith_message()),
                Some(calc) => match x.specified_superficial_loss {
                    Some(sp) => specified_sfl_outcome(
                        tx,
                        sold,
                        sp.superficial_loss@,
                        sp.force,
                        calc,
                        cap_loss,
                        r,
                    ),
                    None => match m {
                        None => r matches Ok(None),
                        Some(v) => auto_sfl_outcome(
                            tx,
                            v,
                            sold,
                            calc,
                            buyers_total(v.buyers, v.active)->0,
                            r,
                        ),
                    },
                },
            }
        },
    }
}

pub open spec fn portion_qualifies(p: (Affiliate, crate::util::math::GezDecimalRatio)) -> bool {
    p.1.numerator@.mant() != 0 && !p.0@.registered
}

/// The indices of the qualifying portions, in order of affiliate id.
fn qualifying_order(portions: &Vec<(Affiliate, crate::util::math::GezDecimalRatio)>) -> (r: Vec<
    usize,
>)
    requires
        forall|i: int, j: int|
            0 <= i < j < portions@.len() ==> portions@[i].0@.id != portions@[j].0@.id,
    ensures
        forall|m: int|
            0 <= m < r@.len() ==> #[trigger] r@[m] < portions@.len() && portion_qualifies(
                portions@[r@[m] as int],
            ),
        forall|i: int|
            0 <= i < portions@.len() && portion_qualifies(#[trigger] portions@[i])
                ==> exists|m: int| 0 <= m < r@.len() && r@[m] as int == i,
        forall|m1: int, m2: int|
            0 <= m1 < m2 < r@.len() ==> chars_lt(
                portions@[#[trigger] r@[m1] as int].0@.id,
                portions@[#[trigger] r@[m2] as int].0@.id,
            ),
{
    let ghost ids = portions@.map_values(|p: (Affiliate, crate::util::math::GezDecimalRatio)| p.0@.id);
    let mut out: Vec<usize> = Vec::new();
    let mut i: usize = 0;
    while i < portions.len()
        invariant
            i <= portions@.len(),
            ids == portions@.map_values(|p: (Affiliate, crate::util::math::GezDecimalRatio)| p.0@.id),
            forall|a: int, b: int| 0 <= a < b < portions@.len() ==> ids[a] != ids[b],
            forall|m: int|
                0 <= m < out@.len() ==> #[trigger] out@[m] < i && portion_qualifies(
                    portions@[out@[m] as int],
                ),
            forall|j: int|
                0 <= j < i && portion_qualifies(#[trigger] portions@[j]) ==> exists|m: int|
                    0 <= m < out@.len() && out@[m] as int == j,
            forall|m1: int, m2: int|
                0 <= m1 < m2 < out@.len() ==> chars_lt(
                    ids[#[trigger] out@[m1] as int],
                    ids[#[trigger] out@[m2] as int],
                ),
        decreases portions@.len() - i,
    {
        let qualifies = !portions[i].1.numerator.get().is_zero() && !portions[i].0.registered();
        if qualifies {
            let id_i = portions[i].0.id();
            let mut p: usize = 0;
            while p < out.len()
                invariant_except_break
                    p <= out@.len(),
                    i < portions@.len(),
                    id_i@ == ids[i as int],
                    ids == portions@.map_values(
                        |p: (Affiliate, crate::util::math::GezDecimalRatio)| p.0@.id,
                    ),
                    forall|m: int| 0 <= m < out@.len() ==> #[trigger] out@[m] < i,
                    forall|m: int| 0 <= m < p ==> !chars_lt(ids[i as int], ids[#[trigger] out@[m] as int]),
                ensures
                    p <= out@.len(),
                    p < out@.len() ==> chars_lt(ids[i as int], ids[out@[p as int] as int]),
                    forall|m: int| 0 <= m < p ==> !chars_lt(ids[i as int], ids[#[trigger] out@[m] as int]),
                decreases out@.len() - p,
            {
                assert(ids[out@[p as int] as int] == portions@[out@[p as int] as int].0@.id);
                if str_lt(id_i, portions[out[p]].0.id()) {
                    break;
                }
                p += 1;
            }
            let ghost old_out = out@;
            proof {
                assert forall|m: int| 0 <= m < p implies chars_lt(
                    ids[#[trigger] old_out[m] as int],
                    ids[i as int],
                ) by {
                    lemma_chars_lt_order(ids[old_out[m] as int], ids[i as int], ids[i as int]);
                    assert(old_out[m] < i);
                }
                assert forall|m: int| p <= m < old_out.len() implies chars_lt(
                    ids[i as int],
                    ids[#[trigger] old_out[m] as int],
                ) by {
                    if m > p {
                        lemma_chars_lt_order(
                            ids[i as int],
                            ids[old_out[p as int] as int],
                            ids[old_out[m] as int],
                        );
                    }
                }
            }
            out.insert(p, i);
            proof {
                assert forall|m1: int, m2: int|
                    0 <= m1 < m2 < out@.len() implies chars_lt(
                    ids[#[trigger] out@[m1] as int],
                    ids[#[trigger] out@[m2] as int],
                ) by {
                    if m2 < p {
                        assert(out@[m1] == old_out[m1]);
                        assert(out@[m2] == old_out[m2]);
                    } else if m2 == p {
                        assert(out@[m1] == old_out[m1]);
                    } else if m1 < p {
                        assert(out@[m1] == old_out[m1]);
                        assert(out@[m2] == old_out[m2 - 1]);
                        lemma_chars_lt_order(
                            ids[old_out[m1] as int],
                            ids[i as int],
                            ids[old_out[m2 - 1] as int],
                        );
                    } else if m1 == p {
                        assert(out@[m2] == old_out[m2 - 1]);
                    } else {
                        assert(out@[m1] == old_out[m1 - 1]);
                        assert(out@[m2] == old_out[m2 - 1]);
                    }
                }
                assert forall|j: int|
                    0 <= j < i + 1 && portion_qualifies(#[trigger] portions@[j]) implies exists|m: int|
                    0 <= m < out@.len() && out@[m] as int == j by {
                    if j < i {
                        let m = choose|m: int| 0 <= m < old_out.len() && old_out[m] as int == j;
                        if m < p {
                            assert(out@[m] == old_out[m]);
                        } else {
                            assert(out@[m + 1] == old_out[m]);
                        }
                    } else {
                        assert(out@[p as int] == i);
                    }
                }
                assert forall|m: int| 0 <= m < out@.len() implies #[trigger] out@[m] < i + 1
                    && portion_qualifies(portions@[out@[m] as int]) by {
                    if m < p {
                        assert(out@[m] == old_out[m]);
                    } else if m > p {
                        assert(out@[m] == old_out[m - 1]);
                    }
                }
            }
        }
        i += 1;
    }
    out
}

fn sfl_arith_error() -> (r: String)
    ensures
        r@ == sfl_arith_message(),
{
    String::from_str("Superficial loss amount could not be computed")
}

fn sfla_parts_exec(calc: NegDecimal, ratio: &crate::util::math::GezDecimalRatio) -> (r: Option<
    (PosDecimal, Dec),
>)
    ensures
        r is Some <==> sfla_parts(calc@, ratio.numerator@, ratio.denominator@) is Some,
        r matches Some((a, pct)) ==> sfla_parts(calc@, ratio.numerator@, ratio.denominator@)
            == Some((a@, pct)),
{
    let q = match ratio.numerator.get().checked_div(&ratio.denominator.get()) {
        Some(q) => q,
        None => {
            return None;
        },
    };
    if q.is_zero() {
        return None;
    }
    let q_pos = PosDecimal::try_from(q).unwrap();
    let hundred = Dec::new(100, 0);
    let p = NegDecimal::neg_1().checked_mul_neg(calc);
    let pct = q.checked_mul(&hundred);
    let (p, pct) = match (p, pct) {
        (Some(p), Some(pct)) => (p, pct),
        _ => {
            return None;
        },
    };
    match p.checked_mul(q_pos) {
        Some(a) => Some((a, pct)),
        None => None,
    }
}

/// The automatic adjustments for the qualifying buyers, in order of affiliate
/// id; `None` where one cannot be computed.
fn auto_adjustments(
    tx: &Tx,
    res: &SflRatioResultResult,
    calc_neg: NegDecimal,
    Ghost(v): Ghost<SflInfoView>,
    Ghost(total): Ghost<Dec>,
    Ghost(sold): Ghost<Dec>,
) -> (r: Option<Vec<Tx>>)
    requires
        sfl_ratio_matches(sold, v, total, *res),
        crate::portfolio::bookkeeping::affiliate_map::view_ids(v.buyers).no_duplicates(),
    ensures
        r is Some <==> forall|i: int|
            0 <= i < v.buyers.len() && #[trigger] buyer_qualifies(v, total, i) ==> sfla_parts(
                calc_neg@,
                v.active[v.buyers[i].id],
                total,
            ) is Some,
        r matches Some(adj) ==> auto_adjust_txs(*tx, v, sold, calc_neg@, total, adj@),
{
    let portions = &res.acb_adjust_affiliate_ratios;
    proof {
        assert forall|i: int, j: int|
            0 <= i < j < portions@.len() implies portions@[i].0@.id != portions@[j].0@.id by {
            assert(crate::portfolio::bookkeeping::affiliate_map::view_ids(v.buyers)[i]
                == v.buyers[i].id);
            assert(crate::portfolio::bookkeeping::affiliate_map::view_ids(v.buyers)[j]
                == v.buyers[j].id);
        }
    }
    let order = qualifying_order(portions);
    let ghost calc = calc_neg@;
    let ghost sfl_num = sfl_numerator(sold, v);
    let mut adj: Vec<Tx> = Vec::new();
    let mut m: usize = 0;
    while m < order.len()
        invariant
            m <= order@.len(),
            adj@.len() == m,
            portions == &res.acb_adjust_affiliate_ratios,
            sfl_ratio_matches(sold, v, total, *res),
            calc_neg@ == calc,
            sfl_num == sfl_numerator(sold, v),
            forall|k: int|
                0 <= k < order@.len() ==> #[trigger] order@[k] < portions@.len()
                    && portion_qualifies(portions@[order@[k] as int]),
            forall|k: int|
                0 <= k < m ==> auto_sfla_tx(
                    *tx,
                    v,
                    order@[k] as int,
                    sold,
                    calc,
                    total,
                    #[trigger] adj@[k],
                ),
        decreases order@.len() - m,
    {
        let k = order[m];
        let af = &portions[k].0;
        let ratio = &portions[k].1;
        proof {
            assert(portions@[k as int].0@ == v.buyers[k as int]);
        }
        let (amount, pct) = match sfla_parts_exec(calc_neg, ratio) {
            Some(x) => x,
            None => {
                proof {
                    assert(buyer_qualifies(v, total, k as int));
                }
                return None;
            },
        };
        let mut memo = String::from_str("Automatic SfL ACB adjustment. ");
        memo.append(pct.to_string_with_precision(2).as_str());
        memo.append("% (");
        memo.append(ratio.to_string().as_str());
        memo.append(") of SfL, which was ");
        memo.append(res.sfl_ratio.to_string().as_str());
        memo.append(" of sale shares.");
        proof {
            assert(memo@ =~= sfla_memo(pct, v.active[v.buyers[k as int].id], total, sfl_num, sold));
        }
        let t = Tx {
            security: tx.security.clone(),
            trade_date: tx.trade_date,
            settlement_date: tx.settlement_date,
            action_specifics: TxActionSpecifics::Sfla(
                SflaTxSpecifics::from_per_share(PosDecimal::one(), amount),
            ),
            memo,
            affiliate: af.clone(),
            read_index: tx.read_index,
        };
        adj.push(t);
        m += 1;
    }
    proof {
        let ord = order@.map_values(|x: usize| x as int);
        assert forall|i: int|
            0 <= i < v.buyers.len() && #[trigger] buyer_qualifies(v, total, i) implies ord.contains(
            i,
        ) by {
            assert(portion_qualifies(portions@[i]));
            let mm = choose|mm: int| 0 <= mm < order@.len() && order@[mm] as int == i;
            assert(ord[mm] == i);
        }
        assert forall|mm: int| 0 <= mm < ord.len() implies {
            &&& 0 <= #[trigger] ord[mm] < v.buyers.len()
            &&& buyer_qualifies(v, total, ord[mm])
            &&& auto_sfla_tx(*tx, v, ord[mm], sold, calc, total, adj@[mm])
        } by {
            assert(ord[mm] == order@[mm] as int);
            assert(portions@[order@[mm] as int].0@ == v.buyers[ord[mm]]);
        }
        assert forall|m1: int, m2: int| 0 <= m1 < m2 < ord.len() implies chars_lt(
            v.buyers[#[trigger] ord[m1]].id,
            v.buyers[#[trigger] ord[m2]].id,
        ) by {
            assert(ord[m1] == order@[m1] as int);
            assert(ord[m2] == order@[m2] as int);
            assert(portions@[order@[m1] as int].0@ == v.buyers[ord[m1]]);
            assert(portions@[order@[m2] as int].0@ == v.buyers[ord[m2]]);
        }
        assert forall|i: int|
            0 <= i < v.buyers.len() && #[trigger] buyer_qualifies(v, total, i) implies sfla_parts(
            calc,
            v.active[v.buyers[i].id],
            total,
        ) is Some by {
            assert(ord.contains(i));
            let mm = choose|mm: int| 0 <= mm < ord.len() && ord[mm] == i;
            assert(auto_sfla_tx(*tx, v, ord[mm], sold, calc, total, adj@[mm]));
        }
        assert(adjust_txs_in_order(*tx, v, sold, calc, total, adj@, ord));
    }
    Some(adj)
}

/// The superficial loss of the sale at `idx` (whose capital loss is
/// `cap_loss`), with the automatic adjustments it calls for (see
/// `delta_sfl_outcome`). The caller takes the loss off the capital gain.
pub fn get_delta_superficial_loss_info(
    idx: usize,
    txs: &Vec<Tx>,
    ptf_statuses: &AffiliatePortfolioSecurityStatuses,
    cap_loss: NegDecimal,
) -> (r: Result<Option<(DeltaSflInfo, Vec<Tx>)>, String>)
    requires
        idx < txs@.len(),
        txs@[idx as int].action_specifics is Sell,
    ensures
        delta_sfl_outcome(idx as int, txs@, ptf_statuses@, cap_loss@, r),
{
    let tx = &txs[idx];
    let sell = match &tx.action_specifics {
        TxActionSpecifics::Sell(x) => x,
        _ => {
            return Err(sfl_arith_error());
        },
    };
    let m_sfl = match get_superficial_loss_ratio(idx, txs, ptf_statuses) {
        Ok(m) => m,
        Err(e) => {
            return Err(e);
        },
    };
    proof {
        crate::portfolio::bookkeeping::superficial_loss::law_superficial_loss_has_buyers(
            idx as int,
            txs@,
            ptf_statuses@,
        );
    }
    let sold = sell.shares;
    let calc: Dec = match &m_sfl {
        None => Dec::zero(),
        Some(res) => {
            let q = match res.sfl_ratio.to_posdecimal() {
                Some(q) => q,
                None => {
                    return Err(sfl_arith_error());
                },
            };
            let p = match cap_loss.checked_mul_pos(q) {
                Some(p) => p,
                None => {
                    return Err(sfl_arith_error());
                },
            };
            let e = maybe_round_to_effective_cent(p.get());
            if e.is_positive() {
                return Err(sfl_arith_error());
            }
            e
        },
    };
    match &sell.specified_superficial_loss {
        Some(sp) => {
            let specified = sp.superficial_loss.get();
            if !sp.force {
                let diff = match calc.checked_sub(&specified) {
                    Some(d) => d,
                    None => {
                        return Err(sfl_arith_error());
                    },
                };
                let max_diff = Dec::new(1, 3);
                if max_diff.lt(&diff.abs()) {
                    let mut msg = String::from_str("Sell order on ");
                    msg.append(tx.trade_date.to_string().as_str());
                    msg.append(" of ");
                    msg.append(tx.security.as_str());
                    msg.append(
                        ": superficial loss was specified, but the difference between the specified value (",
                    );
                    msg.append(specified.to_string().as_str());
                    msg.append(") and the computed value (");
                    msg.append(calc.to_string().as_str());
                    msg.append(
                        ") is greater than the max allowed discrepancy (0.001).\nTo force this SFL value, append an '!' to the value",
                    );
                    return Err(msg);
                }
            }
            if specified.is_zero() {
                return Ok(None);
            }
            let spec_loss = NegDecimal::try_from(specified).unwrap();
            let q = match spec_loss.checked_div_neg(cap_loss) {
                Some(q) => q,
                None => {
                    return Err(sfl_arith_error());
                },
            };
            let n = match q.checked_mul(sold) {
                Some(n) => n,
                None => {
                    return Err(sfl_arith_error());
                },
            };
            Ok(
                Some(
                    (
                        DeltaSflInfo {
                            superficial_loss: specified,
                            ratio: PosDecimalRatio { numerator: n, denominator: sold },
                            potentially_over_applied: false,
                        },
                        Vec::new(),
                    ),
                ),
            )
        },
        None => {
            let res = match m_sfl {
                None => {
                    return Ok(None);
                },
                Some(res) => res,
            };
            let ghost v = sfl_info_spec(idx as int, txs@, ptf_statuses@)->Ok_0->0;
            let ghost total = buyers_total(v.buyers, v.active)->0;
            if calc.is_zero() {
                return Err(sfl_arith_error());
            }
            let calc_neg = NegDecimal::try_from(calc).unwrap();
            let adj = match auto_adjustments(tx, &res, calc_neg, Ghost(v), Ghost(total), Ghost(sold@)) {
                Some(adj) => adj,
                None => {
                    return Err(sfl_arith_error());
                },
            };
            Ok(
                Some(
                    (
                        DeltaSflInfo {
                            superficial_loss: calc,
                            ratio: res.sfl_ratio,
                            potentially_over_applied: res.fewer_remaining_shares_than_sfl_shares,
                        },
                        adj,
                    ),
                ),
            )
        },
    }
}

/// The status a transaction leaves its affiliate in.
pub open spec fn post_view(pre: StatusView, n: DeltaNumbers) -> StatusView {
    StatusView {
        security: pre.security,
        share_balance: n.share_balance,
        all_affiliate_share_balance: n.all_affiliate_share_balance,
        total_acb: n.total_acb,
    }
}

/// The delta holds the transaction, the status it started from and the one
/// it left.
pub open spec fn delta_fields(d: TxDelta, tx: Tx, pre: StatusView, n: DeltaNumbers) -> bool {
    &&& tx_same(d.tx, tx)
    &&& d.pre_status@ == pre
    &&& d.post_status@ == post_view(pre, n)
}

pub open spec fn no_loss_message(tx: Tx) -> Seq<char> {
    "Sell order on "@ + date_display(tx.trade_date.day_number()) + " of "@ + tx.security@
        + ": superficial loss was specified, but there is no capital loss"@
}

/// What the computation of the delta of the transaction at `idx` gives, from
/// the tracker `s`: an error, or the delta and any automatic adjustments to
/// process right after it.
pub open spec fn delta_outcome(
    idx: int,
    txs: Seq<Tx>,
    s: StatusesView,
    r: Result<(TxDelta, Option<Vec<Tx>>), String>,
) -> bool {
    let tx = txs[idx];
    let pre = next_pre_status(s, tx.affiliate@);
    match delta_numbers(pre, tx) {
        Err(e) => r matches Err(e2) && e2@ == e,
        Ok(n) => if tx.action_specifics is Sell && n.capital_gain is Some && n.capital_gain->0.mant()
            < 0 {
            let g = n.capital_gain->0;
            match r {
                Ok((d, inj)) => {
                    &&& delta_fields(d, tx, pre, n)
                    &&& match d.sfl {
                        None => {
                            &&& delta_sfl_outcome(idx, txs, s, g, Ok(None))
                            &&& inj is None
                            &&& d.capital_gain == Some(g)
                        },
                        Some(info) => {
                            &&& inj is Some
                            &&& delta_sfl_outcome(idx, txs, s, g, Ok(Some((info, inj->0))))
                            &&& decimal_checked_sub(g, info.superficial_loss) is Some
                            &&& d.capital_gain == decimal_checked_sub(g, info.superficial_loss)
                        },
                    }
                },
                Err(e) => delta_sfl_outcome(idx, txs, s, g, Err(e)) || (e@ == delta_overflow_message(
                    tx,
                ) && exists|info: DeltaSflInfo, adj: Vec<Tx>|
                    delta_sfl_outcome(idx, txs, s, g, Ok(Some((info, adj))))
                        && decimal_checked_sub(g, info.superficial_loss) is None),
            }
        } else if tx.action_specifics matches TxActionSpecifics::Sell(x) && n.capital_gain is Some
            && x.specified_superficial_loss is Some {
            r matches Err(e2) && e2@ == no_loss_message(tx)
        } else {
            r matches Ok((d, inj)) && {
                &&& delta_fields(d, tx, pre, n)
                &&& d.capital_gain == n.capital_gain
                &&& d.sfl is None
                &&& inj is None
            }
        },
    }
}

/// The delta of the transaction at `idx`, from the status its affiliate
/// starts from, and any superficial loss adjustments to process right after
/// it (see `delta_outcome`).
pub fn delta_for_tx(idx: usize, txs: &Vec<Tx>, ptf_statuses: &AffiliatePortfolioSecurityStatuses) -> (r:
    Result<(TxDelta, Option<Vec<Tx>>), String>)
    requires
        idx < txs@.len(),
    ensures
        delta_outcome(idx as int, txs@, ptf_statuses@, r),
{
    let tx = &txs[idx];
    let pre = ptf_statuses.get_next_pre_status(&tx.affiliate);
    let (share, all, acb, gain) = match delta_numbers_exec(&pre, tx) {
        Ok(n) => n,
        Err(e) => {
            return Err(e);
        },
    };
    let ghost n = delta_numbers(pre@, *tx)->Ok_0;
    let new_status = PortfolioSecurityStatus {
        security: pre.security.clone(),
        share_balance: share,
        all_affiliate_share_balance: all,
        total_acb: acb,
    };
    let mut capital_gain = gain;
    let mut sfl: Option<DeltaSflInfo> = None;
    let mut inject: Option<Vec<Tx>> = None;
    match &tx.action_specifics {
        TxActionSpecifics::Sell(x) => {
            match gain {
                Some(g) => {
                    if g.is_negative() {
                        let cap_loss = NegDecimal::try_from(g).unwrap();
                        let o = get_delta_superficial_loss_info(idx, txs, ptf_statuses, cap_loss);
                        match o {
                            Err(e) => {
                                return Err(e);
                            },
                            Ok(None) => {},
                            Ok(Some((info, adj))) => {
                                let ghost info_g = info;
                                let ghost adj_g = adj;
                                match g.checked_sub(&info.superficial_loss) {
                                    Some(ng) => {
                                        capital_gain = Some(ng);
                                    },
                                    None => {
                                        proof {
                                            assert(delta_sfl_outcome(
                                                idx as int,
                                                txs@,
                                                ptf_statuses@,
                                                g,
                                                Ok(Some((info_g, adj_g))),
                                            ));
                                        }
                                        return Err(overflow_in(tx));
                                    },
                                }
                                sfl = Some(info);
                                inject = Some(adj);
                            },
                        }
                    } else if x.specified_superficial_loss.is_some() {
                        let mut msg = String::from_str("Sell order on ");
                        msg.append(tx.trade_date.to_string().as_str());
                        msg.append(" of ");
                        msg.append(tx.security.as_str());
                        msg.append(": superficial loss was specified, but there is no capital loss");
                        return Err(msg);
                    }
                },
                None => {},
            }
        },
        _ => {},
    }
    let delta = TxDelta {
        tx: tx.clone_tx(),
        pre_status: pre,
        post_status: new_status,
        capital_gain,
        sfl,
    };
    Ok((delta, inject))
}

/// The tracker a list of transactions of `security` starts from.
pub open spec fn initial_statuses(security: Seq<char>) -> StatusesView {
    StatusesView {
        security,
        by_affiliate: Map::empty(),
        all_affiliates_share_balance: zero(),
        latest_affiliate: Affiliate::default_view(),
    }
}

/// `txs` with `new` inserted right after position `i`.
pub open spec fn insert_after(txs: Seq<Tx>, i: int, new: Seq<Tx>) -> Seq<Tx> {
    txs.subrange(0, i + 1) + new + txs.subrange(i + 1, txs.len() as int)
}

pub open spec fn next_list(txs: Seq<Tx>, i: int, inj: Option<Vec<Tx>>) -> Seq<Tx> {
    match inj {
        Some(v) => insert_after(txs, i, v@),
        None => txs,
    }
}

/// `deltas` are the first deltas of `txs0`: the delta at `i` was computed
/// from the list of transactions as it stood then (`lists[i]`, with the
/// automatic adjustments of earlier sales inserted) and the tracker as it
/// stood then (`states[i]`), and recorded its post status.
pub open spec fn delta_trace(
    txs0: Seq<Tx>,
    deltas: Seq<TxDelta>,
    lists: Seq<Seq<Tx>>,
    states: Seq<StatusesView>,
    injs: Seq<Option<Vec<Tx>>>,
) -> bool {
    let n = deltas.len();
    &&& lists.len() == n + 1
    &&& states.len() == n + 1
    &&& injs.len() == n
    &&& lists[0] == txs0
    &&& txs0.len() > 0 ==> states[0] == initial_statuses(txs0[0].security@)
    &&& forall|i: int|
        0 <= i < n ==> {
            &&& i < lists[i].len()
            &&& delta_outcome(i, lists[i], states[i], Ok((#[trigger] deltas[i], injs[i])))
            &&& lists[i + 1] == next_list(lists[i], i, injs[i])
            &&& post_status_fits(states[i], lists[i][i].affiliate@, deltas[i].post_status@)
            &&& states[i + 1] == after_post_status(
                states[i],
                lists[i][i].affiliate@,
                deltas[i].post_status@,
            )
        }
}

/// The deltas computed before an error, and the error.
#[derive(Debug)]
pub struct TxDeltaListError {
    pub partial_deltas: Vec<TxDelta>,
    pub err_msg: String,
}

impl TxDeltaListError {
    pub fn new(partial_deltas: Vec<TxDelta>, err_msg: String) -> (r: Self)
        ensures
            r.partial_deltas == partial_deltas,
            r.err_msg == err_msg,
    {
        TxDeltaListError { partial_deltas, err_msg }
    }
}

/// All the deltas, or those computed before an error.
#[derive(Debug)]
pub struct DeltaListResult(pub Result<Vec<TxDelta>, TxDeltaListError>);

impl DeltaListResult {
    pub fn deltas_or_partial_deltas(&self) -> (r: &Vec<TxDelta>)
        ensures
            match self.0 {
                Ok(d) => *r == d,
                Err(e) => *r == e.partial_deltas,
            },
    {
        match &self.0 {
            Ok(d) => d,
            Err(e) => &e.partial_deltas,
        }
    }

    pub fn unwrap_full_deltas(self) -> (r: Vec<TxDelta>)
        requires
            self.0 is Ok,
        ensures
            self.0 == Ok::<Vec<TxDelta>, TxDeltaListError>(r),
    {
        match self.0 {
            Ok(d) => d,
            Err(e) => e.partial_deltas,
        }
    }
}

/// The outcome of the list computation (see `txs_to_delta_list`).
pub open spec fn delta_list_outcome(txs: Seq<Tx>, r: DeltaListResult) -> bool {
    match r.0 {
        Ok(ds) => exists|lists: Seq<Seq<Tx>>, states: Seq<StatusesView>, injs: Seq<Option<Vec<Tx>>>|
            #[trigger] delta_trace(txs, ds@, lists, states, injs) && ds@.len() == lists.last().len(),
        Err(e) => exists|
            lists: Seq<Seq<Tx>>,
            states: Seq<StatusesView>,
            injs: Seq<Option<Vec<Tx>>>,
        |
            #[trigger] delta_trace(txs, e.partial_deltas@, lists, states, injs) && {
                let n = e.partial_deltas@.len() as int;
                &&& n < lists.last().len()
                &&& (delta_outcome(n, lists.last(), states.last(), Err(e.err_msg)) || exists|
                    d: TxDelta,
                    inj: Option<Vec<Tx>>,
                |
                    delta_outcome(n, lists.last(), states.last(), Ok((d, inj)))
                        && !post_status_fits(
                        states.last(),
                        lists.last()[n].affiliate@,
                        d.post_status@,
                    ))
            },
    }
}

fn copy_txs(txs: &Vec<Tx>) -> (r: Vec<Tx>)
    ensures
        r@ == txs@,
{
    let mut out: Vec<Tx> = Vec::new();
    let mut j: usize = 0;
    while j < txs.len()
        invariant
            j <= txs@.len(),
            out@ == txs@.subrange(0, j as int),
        decreases txs@.len() - j,
    {
        out.push(txs[j].clone_tx());
        j += 1;
        assert(out@ =~= txs@.subrange(0, j as int));
    }
    assert(txs@.subrange(0, txs@.len() as int) =~= txs@);
    out
}

/// Inserts `new` into `txs` right after position `i`.
fn insert_txs_after(txs: &mut Vec<Tx>, i: usize, new: Vec<Tx>)
    requires
        i < old(txs)@.len(),
    ensures
        final(txs)@ == insert_after(old(txs)@, i as int, new@),
{
    let ghost orig = old(txs)@;
    let ghost all_new = new@;
    let len0 = txs.len();
    let mut new = new;
    proof {
        assert(txs@ =~= orig.subrange(0, i + 1) + all_new.subrange(new@.len() as int, all_new.len() as int)
            + orig.subrange(i + 1, orig.len() as int));
    }
    while new.len() > 0
        invariant
            i < orig.len(),
            orig.len() == len0,
            new@ == all_new.subrange(0, new@.len() as int),
            new@.len() <= all_new.len(),
            txs@ == orig.subrange(0, i + 1) + all_new.subrange(new@.len() as int, all_new.len() as int)
                + orig.subrange(i + 1, orig.len() as int),
        decreases new@.len(),
    {
        let t = new.pop().unwrap();
        let ghost k = new@.len() as int;
        txs.insert(i + 1, t);
        proof {
            assert(new@ =~= all_new.subrange(0, k));
            assert(txs@ =~= orig.subrange(0, i + 1) + all_new.subrange(k, all_new.len() as int)
                + orig.subrange(i + 1, orig.len() as int));
        }
    }
    proof {
        assert(all_new.subrange(0, all_new.len() as int) =~= all_new);
    }
}

/// The number of sales in `s`.
pub open spec fn sell_count(s: Seq<Tx>) -> nat
    decreases s.len(),
{
    if s.len() == 0 {
        0
    } else {
        (if s[0].action_specifics is Sell {
            1nat
        } else {
            0nat
        }) + sell_count(s.drop_first())
    }
}

proof fn lemma_sell_count_add(a: Seq<Tx>, b: Seq<Tx>)
    ensures
        sell_count(a + b) == sell_count(a) + sell_count(b),
    decreases a.len(),
{
    if a.len() > 0 {
        assert((a + b).drop_first() =~= a.drop_first() + b);
        lemma_sell_count_add(a.drop_first(), b);
    } else {
        assert(a + b =~= b);
    }
}

proof fn lemma_sell_count_none(a: Seq<Tx>)
    requires
        forall|k: int| 0 <= k < a.len() ==> (#[trigger] a[k]).action_specifics is Sfla,
    ensures
        sell_count(a) == 0,
    decreases a.len(),
{
    if a.len() > 0 {
        assert forall|k: int| 0 <= k < a.drop_first().len() implies (
        #[trigger] a.drop_first()[k]).action_specifics is Sfla by {
            assert(a.drop_first()[k] == a[k + 1]);
        }
        lemma_sell_count_none(a.drop_first());
    }
}

/// Only a sale brings adjustments to process after it, and they are all
/// superficial loss adjustments.
proof fn lemma_injected_are_adjustments(
    idx: int,
    txs: Seq<Tx>,
    s: StatusesView,
    d: TxDelta,
    inj: Option<Vec<Tx>>,
)
    requires
        0 <= idx < txs.len(),
        delta_outcome(idx, txs, s, Ok((d, inj))),
    ensures
        inj is Some ==> txs[idx].action_specifics is Sell,
        inj matches Some(v) ==> forall|k: int|
            0 <= k < v@.len() ==> (#[trigger] v@[k]).action_specifics is Sfla,
{
    let tx = txs[idx];
    let pre = next_pre_status(s, tx.affiliate@);
    if let Some(v) = inj {
        let n = delta_numbers(pre, tx)->Ok_0;
        let g = n.capital_gain->0;
        let info = d.sfl->0;
        let r = Ok::<Option<(DeltaSflInfo, Vec<Tx>)>, String>(Some((info, v)));
        assert(delta_sfl_outcome(idx, txs, s, g, r));
        let x = tx.action_specifics->Sell_0;
        let sold = x.shares@;
        let m = sfl_info_spec(idx, txs, s)->Ok_0;
        let calc = sfl_calculated(m, sold, g)->0;
        if x.specified_superficial_loss is None {
            let vi = m->0;
            let total = buyers_total(vi.buyers, vi.active)->0;
            assert(auto_sfl_outcome(tx, vi, sold, calc, total, r));
            assert(auto_adjust_txs(tx, vi, sold, calc, total, v@));
            let order = choose|order: Seq<int>|
                adjust_txs_in_order(tx, vi, sold, calc, total, v@, order);
            assert forall|k: int| 0 <= k < v@.len() implies (#[trigger] v@[k]).action_specifics is Sfla by {
                assert(auto_sfla_tx(tx, vi, order[k], sold, calc, total, v@[k]));
            }
        }
    }
}

/// The deltas of a list of transactions of one security, in order: each
/// transaction is applied to the status its affiliate starts from, its post
/// status is recorded, and the automatic superficial loss adjustments of a
/// sale are processed right after it. Stops at the first error, keeping the
/// deltas computed before it (see `delta_list_outcome`).
pub fn txs_to_delta_list(txs: &Vec<Tx>) -> (r: DeltaListResult)
    ensures
        txs@.len() == 0 ==> (r.0 matches Ok(ds) && ds@.len() == 0),
        delta_list_outcome(txs@, r),
{
    let mut deltas: Vec<TxDelta> = Vec::new();
    if txs.len() == 0 {
        let ghost lists = seq![txs@];
        let ghost states = seq![initial_statuses(Seq::empty())];
        let ghost injs = Seq::<Option<Vec<Tx>>>::empty();
        let ghost dv = deltas@;
        let r = DeltaListResult(Ok(deltas));
        proof {
            assert(lists.last() == txs@);
            assert(delta_trace(txs@, dv, lists, states, injs) && dv.len() == lists.last().len());
            assert(r.0->Ok_0@ == dv);
        }
        return r;
    }
    let mut active = copy_txs(txs);
    let mut statuses = AffiliatePortfolioSecurityStatuses::new(txs[0].security.clone(), None);
    let ghost mut lists: Seq<Seq<Tx>> = seq![txs@];
    let ghost mut states: Seq<StatusesView> = seq![statuses@];
    let ghost mut injs: Seq<Option<Vec<Tx>>> = Seq::empty();
    assert(statuses@ == initial_statuses(txs@[0].security@));
    let mut i: usize = 0;
    while i < active.len()
        invariant
            txs@.len() > 0,
            i == deltas@.len(),
            i <= active@.len(),
            delta_trace(txs@, deltas@, lists, states, injs),
            lists.last() == active@,
            states.last() == statuses@,
        decreases sell_count(active@.skip(i as int)), active@.len() - i,
    {
        let ghost statuses_before = statuses@;
        let res = delta_for_tx(i, &active, &statuses);
        let (delta, inj) = match res {
            Ok(x) => x,
            Err(e) => {
                let ghost ee = e;
                proof {
                    assert(delta_trace(txs@, deltas@, lists, states, injs));
                }
                let r = DeltaListResult(Err(TxDeltaListError::new(deltas, e)));
                proof {
                    let rp = r.0->Err_0.partial_deltas;
                    assert(rp@ == deltas@);
                    assert(delta_trace(txs@, rp@, lists, states, injs));
                }
                assert(delta_list_outcome(txs@, r));
                return r;
            },
        };
        let af = active[i].affiliate.clone();
        match statuses.try_set_latest_post_status(&af, delta.post_status.clone_status()) {
            Ok(()) => {},
            Err(e) => {
                proof {
                    assert(delta_outcome(i as int, lists.last(), states.last(), Ok((delta, inj))));
                    assert(delta_trace(txs@, deltas@, lists, states, injs));
                }
                let r = DeltaListResult(Err(TxDeltaListError::new(deltas, e)));
                proof {
                    let rp = r.0->Err_0.partial_deltas;
                    assert(delta_trace(txs@, rp@, lists, states, injs));
                    assert(delta_outcome(
                        rp@.len() as int,
                        lists.last(),
                        states.last(),
                        Ok((delta, inj)),
                    ) && !post_status_fits(
                        states.last(),
                        lists.last()[rp@.len() as int].affiliate@,
                        delta.post_status@,
                    ));
                }
                assert(delta_list_outcome(txs@, r));
                return r;
            },
        }
        let ghost old_active = active@;
        proof {
            lemma_injected_are_adjustments(i as int, old_active, statuses_before, delta, inj);
            assert(old_active.skip(i as int) =~= seq![old_active[i as int]] + old_active.skip(
                i + 1,
            ));
            lemma_sell_count_add(seq![old_active[i as int]], old_active.skip(i + 1));
            assert(seq![old_active[i as int]].drop_first() =~= Seq::<Tx>::empty());
            injs = injs.push(inj);
            states = states.push(statuses@);
        }
        deltas.push(delta);
        match inj {
            Some(new_txs) => {
                let ghost nv = new_txs@;
                insert_txs_after(&mut active, i, new_txs);
                proof {
                    assert(active@.skip(i + 1) =~= nv + old_active.skip(i + 1));
                    lemma_sell_count_add(nv, old_active.skip(i + 1));
                    lemma_sell_count_none(nv);
                }
            },
            None => {},
        }
        proof {
            lists = lists.push(active@);
            let n = deltas@.len() as int;
            assert forall|j: int| 0 <= j < n implies {
                &&& j < lists[j].len()
                &&& delta_outcome(j, lists[j], states[j], Ok((#[trigger] deltas@[j], injs[j])))
                &&& lists[j + 1] == next_list(lists[j], j, injs[j])
                &&& post_status_fits(states[j], lists[j][j].affiliate@, deltas@[j].post_status@)
                &&& states[j + 1] == after_post_status(
                    states[j],
                    lists[j][j].affiliate@,
                    deltas@[j].post_status@,
                )
            } by {
                if j == n - 1 {
                    assert(lists[j] == old_active);
                }
            }
        }
        i += 1;
    }
    proof {
        assert(delta_trace(txs@, deltas@, lists, states, injs));
    }
    let ghost dv = deltas@;
    assert(i >= active@.len());
    assert(dv.len() == i);
    assert(lists.last() == active@);
    let r = DeltaListResult(Ok(deltas));
    proof {
        assert(delta_trace(txs@, dv, lists, states, injs));
        assert(dv.len() == lists.last().len());
        assert(r.0->Ok_0@ == dv);
    }
    r
}

proof fn lemma_delta_outcome_fields(
    idx: int,
    txs: Seq<Tx>,
    s: StatusesView,
    d: TxDelta,
    inj: Option<Vec<Tx>>,
)
    requires
        delta_outcome(idx, txs, s, Ok((d, inj))),
    ensures
        delta_numbers(next_pre_status(s, txs[idx].affiliate@), txs[idx]) is Ok,
        delta_fields(
            d,
            txs[idx],
            next_pre_status(s, txs[idx].affiliate@),
            delta_numbers(next_pre_status(s, txs[idx].affiliate@), txs[idx])->Ok_0,
        ),
{
}

/// Along the deltas of a list, holdings carry over: a transaction starts from
/// the status the previous one left when both are of the same affiliate, and
/// always from the share balance across all affiliates the previous one left.
pub proof fn law_delta_list_continuity(
    txs0: Seq<Tx>,
    deltas: Seq<TxDelta>,
    lists: Seq<Seq<Tx>>,
    states: Seq<StatusesView>,
    injs: Seq<Option<Vec<Tx>>>,
    i: int,
)
    requires
        delta_trace(txs0, deltas, lists, states, injs),
        0 <= i < deltas.len() - 1,
    ensures
        deltas[i + 1].tx.affiliate@.id == deltas[i].tx.affiliate@.id ==> deltas[i
            + 1].pre_status@ == deltas[i].post_status@,
        crate::util::decimal::same_value(
            deltas[i + 1].pre_status@.all_affiliate_share_balance,
            deltas[i].post_status@.all_affiliate_share_balance,
        ),
{
    let d0 = deltas[i];
    let d1 = deltas[i + 1];
    assert(delta_outcome(i, lists[i], states[i], Ok((d0, injs[i]))));
    assert(delta_outcome(i + 1, lists[i + 1], states[i + 1], Ok((d1, injs[i + 1]))));
    lemma_delta_outcome_fields(i, lists[i], states[i], d0, injs[i]);
    lemma_delta_outcome_fields(i + 1, lists[i + 1], states[i + 1], d1, injs[i + 1]);
    let af = lists[i][i].affiliate@;
    let v = d0.post_status@;
    assert(post_status_fits(states[i], af, v));
    assert(states[i + 1] == after_post_status(states[i], af, v));
    crate::portfolio::bookkeeping::portfolio_status::law_next_pre_status_has_current_total(
        states[i + 1],
        lists[i + 1][i + 1].affiliate@,
    );
    if d1.tx.affiliate@.id == d0.tx.affiliate@.id {
        assert(lists[i + 1][i + 1].affiliate@.id == af.id);
    }
}

proof fn lemma_only_sells_have_gains(pre: StatusView, tx: Tx)
    requires
        delta_numbers(pre, tx) is Ok,
        !(tx.action_specifics is Sell),
    ensures
        delta_numbers(pre, tx)->Ok_0.capital_gain is None,
{
}

/// Only sales realize a capital gain or loss, and only sales carry a
/// superficial loss: every other delta of a list has neither.
pub proof fn law_only_sales_realize_gains(
    txs0: Seq<Tx>,
    deltas: Seq<TxDelta>,
    lists: Seq<Seq<Tx>>,
    states: Seq<StatusesView>,
    injs: Seq<Option<Vec<Tx>>>,
    i: int,
)
    requires
        delta_trace(txs0, deltas, lists, states, injs),
        0 <= i < deltas.len(),
    ensures
        deltas[i].capital_gain is Some ==> deltas[i].tx.action_specifics is Sell,
        deltas[i].sfl is Some ==> deltas[i].tx.action_specifics is Sell,
{
    let d = deltas[i];
    let tx = lists[i][i];
    assert(delta_outcome(i, lists[i], states[i], Ok((d, injs[i]))));
    lemma_delta_outcome_fields(i, lists[i], states[i], d, injs[i]);
    let pre = next_pre_status(states[i], tx.affiliate@);
    if !(tx.action_specifics is Sell) {
        lemma_only_sells_have_gains(pre, tx);
    }
    assert(tx_same(d.tx, tx));
}

proof fn lemma_registered_numbers(pre: StatusView, tx: Tx)
    requires
        delta_numbers(pre, tx) is Ok,
        tx.affiliate@.registered,
    ensures
        pre.total_acb is None,
        delta_numbers(pre, tx)->Ok_0.capital_gain is None,
        delta_numbers(pre, tx)->Ok_0.total_acb is None,
{
}

/// Registered affiliates (RRSPs, TFSAs and the like) hold no ACB and realize
/// no capital gains: each of their deltas has no ACB before or after and no
/// gain or superficial loss, while every other affiliate's delta has an ACB.
pub proof fn law_registered_have_no_acb_or_gains(
    txs0: Seq<Tx>,
    deltas: Seq<TxDelta>,
    lists: Seq<Seq<Tx>>,
    states: Seq<StatusesView>,
    injs: Seq<Option<Vec<Tx>>>,
    i: int,
)
    requires
        delta_trace(txs0, deltas, lists, states, injs),
        0 <= i < deltas.len(),
    ensures
        deltas[i].tx.affiliate@.registered ==> {
            &&& deltas[i].pre_status.total_acb is None
            &&& deltas[i].post_status.total_acb is None
            &&& deltas[i].capital_gain is None
            &&& deltas[i].sfl is None
        },
        !deltas[i].tx.affiliate@.registered ==> deltas[i].pre_status.total_acb is Some
            && deltas[i].post_status.total_acb is Some,
{
    let d = deltas[i];
    let tx = lists[i][i];
    assert(delta_outcome(i, lists[i], states[i], Ok((d, injs[i]))));
    lemma_delta_outcome_fields(i, lists[i], states[i], d, injs[i]);
    let pre = next_pre_status(states[i], tx.affiliate@);
    assert(tx_same(d.tx, tx));
    assert(post_status_fits(states[i], tx.affiliate@, d.post_status@));
    if tx.affiliate@.registered {
        lemma_registered_numbers(pre, tx);
    }
}

} // verus!
