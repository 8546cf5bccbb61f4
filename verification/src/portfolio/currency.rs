//! Currencies and exchange rates to the local currency (CAD).

use vstd::prelude::*;
use crate::util::decimal::{same_value, Dec, Pos, PosDecimal, decimal_display};
use crate::util::text::{
    all_ascii, ascii_upper, lemma_ascii_upper_twice, str_eq, to_uppercase, unicode_uppercase,
};

verus! {

/// The code of a currency named by `s`: its upper case, where that is not
/// CAD or USD upper-cased once more; an empty name is CAD.
pub open spec fn currency_code(s: Seq<char>) -> Seq<char> {
    let upper = unicode_uppercase(s);
    if upper.len() == 0 || upper == "CAD"@ {
        "CAD"@
    } else if upper == "USD"@ {
        "USD"@
    } else {
        unicode_uppercase(upper)
    }
}

/// A currency, by its upper-case code.
#[derive(Debug)]
pub struct Currency {
    code: String,
}

impl View for Currency {
    type V = Seq<char>;

    closed spec fn view(&self) -> Seq<char> {
        self.code@
    }
}

impl Currency {
    /// The currency named by `s`, in any case; an empty name is CAD.
    pub fn new(s: &str) -> (r: Currency)
        ensures
            r@ == currency_code(s@),
            r@.len() > 0,
            all_ascii(s@) && s@.len() > 0 ==> r@ == ascii_upper(s@),
    {
        proof {
            reveal_strlit("CAD");
            reveal_strlit("USD");
        }
        let upper = to_uppercase(s);
        if upper.as_str().is_empty() || str_eq(upper.as_str(), "CAD") {
            Currency::default()
        } else if str_eq(upper.as_str(), "USD") {
            Currency::usd()
        } else {
            proof {
                if all_ascii(s@) {
                    lemma_ascii_upper_twice(s@);
                }
            }
            Currency { code: to_uppercase(upper.as_str()) }
        }
    }

    pub fn cad() -> (r: Currency)
        ensures
            r@ == "CAD"@,
    {
        Currency { code: "CAD".to_owned() }
    }

    pub fn usd() -> (r: Currency)
        ensures
            r@ == "USD"@,
    {
        Currency { code: "USD".to_owned() }
    }

    /// The local currency, CAD.
    pub fn default() -> (r: Currency)
        ensures
            r@ == "CAD"@,
    {
        Currency::cad()
    }

    pub fn is_default(&self) -> (r: bool)
        ensures
            r == (self@ == "CAD"@),
    {
        let d = Currency::default();
        self.code == d.code
    }

    pub fn as_str(&self) -> (r: &str)
        ensures
            r@ == self@,
    {
        self.code.as_str()
    }

    /// The code, as displayed.
    pub fn to_string(&self) -> (r: String)
        ensures
            r@ == self@,
    {
        self.code.clone()
    }

    pub fn same_as(&self, other: &Currency) -> (r: bool)
        ensures
            r == (self@ == other@),
    {
        self.code == other.code
    }
}

impl Clone for Currency {
    fn clone(&self) -> (r: Currency)
        ensures
            r@ == self@,
            r == *self,
    {
        Currency { code: self.code.clone() }
    }
}

impl PartialEq for Currency {
    fn eq(&self, other: &Currency) -> (r: bool) {
        self.same_as(other)
    }
}

impl vstd::std_specs::cmp::PartialEqSpecImpl for Currency {
    open spec fn obeys_eq_spec() -> bool {
        true
    }

    open spec fn eq_spec(&self, other: &Currency) -> bool {
        self@ == other@
    }
}

impl Eq for Currency {
}

/// Two currencies are equal exactly when their codes are, and the text and
/// displayed form of a currency are its code (`as_str` and `to_string` give
/// the view, `==` compares the views).
pub proof fn law_currency_equal_by_code(a: Currency, b: Currency)
    ensures
        vstd::std_specs::cmp::PartialEqSpec::eq_spec(&a, &b) == (a@ == b@),
        vstd::std_specs::cmp::PartialEqSpec::eq_spec(&a, &b)
            == vstd::std_specs::cmp::PartialEqSpec::eq_spec(&b, &a),
        vstd::std_specs::cmp::PartialEqSpec::eq_spec(&a, &a),
{
}

/// A currency and its rate to CAD. The rate of CAD itself is 1.
#[derive(Clone, Debug, PartialEq, Eq)]
pub struct CurrencyAndExchangeRate {
    pub currency: Currency,
    pub exchange_rate: PosDecimal,
}

/// A currency and rate pair is consistent: CAD has the rate 1.
pub open spec fn consistent_rate(currency: Seq<char>, rate: Dec) -> bool {
    currency == "CAD"@ ==> same_value(rate, Dec::spec_new(1, 0))
}

/// The message for a CAD rate other than 1.
pub open spec fn bad_default_rate_message(rate: Dec) -> Seq<char> {
    "Default currency (CAD) exchange rate was not 1 (was "@ + decimal_display(rate) + ")"@
}

impl CurrencyAndExchangeRate {
    pub open spec fn wf(&self) -> bool {
        consistent_rate(self.currency@, self.exchange_rate@)
    }

    /// The pair, or an error where CAD is given a rate other than 1.
    pub fn try_new(c: Currency, r: PosDecimal) -> (res: Result<Self, String>)
        ensures
            res is Ok <==> consistent_rate(c@, r@),
            res is Ok ==> res->Ok_0.currency@ == c@ && res->Ok_0.exchange_rate@ == r@,
            res is Err ==> res->Err_0@ == bad_default_rate_message(r@),
    {
        let one = Dec::one();
        if c.is_default() && !r.get().value_eq(&one) {
            let mut msg = "Default currency (CAD) exchange rate was not 1 (was ".to_owned();
            let shown = r.get().to_string();
            msg.append(shown.as_str());
            msg.append(")");
            return Err(msg);
        }
        Ok(CurrencyAndExchangeRate { currency: c, exchange_rate: r })
    }

    /// The pair, which must be consistent.
    pub fn rq_new(c: Currency, r: PosDecimal) -> (res: Self)
        requires
            consistent_rate(c@, r@),
        ensures
            res.currency@ == c@,
            res.exchange_rate@ == r@,
    {
        let c2 = c.clone();
        match CurrencyAndExchangeRate::try_new(c, r) {
            Ok(v) => v,
            Err(_) => CurrencyAndExchangeRate { currency: c2, exchange_rate: r },
        }
    }

    /// CAD at the rate 1.
    pub fn cad() -> (res: Self)
        ensures
            res.currency@ == "CAD"@,
            res.exchange_rate@ == Dec::spec_new(1, 0),
            res.wf(),
    {
        proof {
            crate::util::decimal::lemma_spec_new(1, 0);
        }
        CurrencyAndExchangeRate::rq_new(Currency::cad(), PosDecimal::one())
    }

    /// The local currency: CAD at the rate 1.
    pub fn default() -> (res: Self)
        ensures
            res.currency@ == "CAD"@,
            res.exchange_rate@ == Dec::spec_new(1, 0),
            res.wf(),
    {
        Self::cad()
    }

    pub fn is_default(&self) -> (r: bool)
        ensures
            r == (self.currency@ == "CAD"@),
    {
        self.currency.is_default()
    }
}

} // verus!
