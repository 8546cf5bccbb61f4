//! Which exchange rates of transactions read from CSV must be looked up.
//!
//! Only USD to CAD rates can be looked up (by day); the lookup itself is not
//! part of this library: its caller performs it and hands the rates back.

use vstd::prelude::*;
use crate::portfolio::currency::Currency;
use crate::portfolio::tx::CsvTx;
use crate::util::date::Date;
use crate::util::decimal::Dec;

verus! {

/// The code of a currency, where one is given.
pub open spec fn opt_code(c: Option<Currency>) -> Option<Seq<char>> {
    match c {
        Some(x) => Some(x@),
        None => None,
    }
}

/// What is to be done for one currency and the rate given with it: nothing
/// (`Ok(false)`: a rate is given, or the currency is CAD or unset), a USD
/// rate to look up (`Ok(true)`), or an error for any other currency.
pub open spec fn rate_lookup_spec(curr: Option<Seq<char>>, provided: bool) -> Result<bool, Seq<char>> {
    if provided {
        Ok(false)
    } else {
        match curr {
            None => Ok(false),
            Some(c) => if c == "CAD"@ {
                Ok(false)
            } else if c == "USD"@ {
                Ok(true)
            } else {
                Err(
                    "Currency "@ + c
                        + " does not support automatically loaded day rates. Rate must be provided."@,
                )
            },
        }
    }
}

/// Whether the day rate of `curr` must be looked up, given the rate read with
/// it (see `rate_lookup_spec`).
pub fn needs_loaded_rate(curr: &Option<Currency>, provided_rate: &Option<Dec>) -> (r: Result<
    bool,
    String,
>)
    ensures
        r matches Ok(b) ==> rate_lookup_spec(opt_code(*curr), provided_rate is Some)
            == Ok::<bool, Seq<char>>(b),
        r matches Err(e) ==> rate_lookup_spec(opt_code(*curr), provided_rate is Some)
            == Err::<bool, Seq<char>>(e@),
{
    if provided_rate.is_some() {
        return Ok(false);
    }
    match curr {
        None => Ok(false),
        Some(c) => {
            if c.is_default() {
                return Ok(false);
            }
            let usd = Currency::usd();
            if c.same_as(&usd) {
                return Ok(true);
            }
            let mut msg = String::from_str("Currency ");
            msg.append(c.as_str());
            msg.append(" does not support automatically loaded day rates. Rate must be provided.");
            Err(msg)
        },
    }
}

/// The rates to look up for one transaction: the day (its trade date), and
/// whether its own and its commission's USD rates are wanted. Fails where
/// the trade date is missing or a currency's rate cannot be looked up, with
/// the messages the loader gives.
pub fn rate_lookups(tx: &CsvTx) -> (r: Result<(Date, bool, bool), String>)
    ensures
        tx.trade_date is None ==> (r matches Err(e) && e@ == "Tx has no trade date"@),
        tx.trade_date matches Some(d) ==> {
            let a = rate_lookup_spec(
                opt_code(tx.tx_currency),
                tx.tx_curr_to_local_exchange_rate is Some,
            );
            let b = rate_lookup_spec(
                opt_code(tx.commission_currency),
                tx.commission_curr_to_local_exchange_rate is Some,
            );
            match (a, b) {
                (Err(e), _) => (r matches Err(m) && m@ == "Exchange rate error: "@ + e),
                (Ok(_), Err(e)) => (r matches Err(m) && m@ == "Commission exchange rate error: "@ + e),
                (Ok(x), Ok(y)) => r == Ok::<(Date, bool, bool), String>((d, x, y)),
            }
        },
{
    let d = match tx.trade_date {
        Some(d) => d,
        None => {
            return Err(String::from_str("Tx has no trade date"));
        },
    };
    let a = match needs_loaded_rate(&tx.tx_currency, &tx.tx_curr_to_local_exchange_rate) {
        Ok(a) => a,
        Err(e) => {
            let mut m = String::from_str("Exchange rate error: ");
            m.append(e.as_str());
            return Err(m);
        },
    };
    let b = match needs_loaded_rate(
        &tx.commission_currency,
        &tx.commission_curr_to_local_exchange_rate,
    ) {
        Ok(b) => b,
        Err(e) => {
            let mut m = String::from_str("Commission exchange rate error: ");
            m.append(e.as_str());
            return Err(m);
        },
    };
    Ok((d, a, b))
}

/// Fills in the rates that were looked up; the others are left as read.
pub fn apply_loaded_rates(tx: &mut CsvTx, tx_rate: Option<Dec>, commission_rate: Option<Dec>)
    ensures
        final(tx).tx_curr_to_local_exchange_rate == (match tx_rate {
            Some(r) => Some(r),
            None => old(tx).tx_curr_to_local_exchange_rate,
        }),
        final(tx).commission_curr_to_local_exchange_rate == (match commission_rate {
            Some(r) => Some(r),
            None => old(tx).commission_curr_to_local_exchange_rate,
        }),
        final(tx).trade_date == old(tx).trade_date,
        final(tx).settlement_date == old(tx).settlement_date,
        final(tx).shares == old(tx).shares,
        final(tx).amount_per_share == old(tx).amount_per_share,
        final(tx).read_index == old(tx).read_index,
{
    if let Some(r) = tx_rate {
        tx.tx_curr_to_local_exchange_rate = Some(r);
    }
    if let Some(r) = commission_rate {
        tx.commission_curr_to_local_exchange_rate = Some(r);
    }
}

} // verus!
