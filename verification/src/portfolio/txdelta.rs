//! The holdings of a security before and after a transaction.

use vstd::prelude::*;
use crate::portfolio::tx::{tx_same, Tx};
use crate::util::decimal::{
    decimal_checked_div, decimal_checked_sub, Dec, GreaterEqualZeroDecimal,
};
use crate::util::math::PosDecimalRatio;

verus! {

/// The holdings of one affiliate in one security.
#[derive(PartialEq, Eq, Debug)]
pub struct PortfolioSecurityStatus {
    pub security: String,
    pub share_balance: GreaterEqualZeroDecimal,
    /// The shares held across all affiliates.
    pub all_affiliate_share_balance: GreaterEqualZeroDecimal,
    /// The total ACB; `None` for registered affiliates, which have none.
    pub total_acb: Option<GreaterEqualZeroDecimal>,
}

/// What a status holds, as plain values.
pub struct StatusView {
    pub security: Seq<char>,
    pub share_balance: Dec,
    pub all_affiliate_share_balance: Dec,
    pub total_acb: Option<Dec>,
}

impl View for PortfolioSecurityStatus {
    type V = StatusView;

    open spec fn view(&self) -> StatusView {
        StatusView {
            security: self.security@,
            share_balance: self.share_balance@,
            all_affiliate_share_balance: self.all_affiliate_share_balance@,
            total_acb: opt_dec_view(self.total_acb),
        }
    }
}

/// Both statuses hold the same values.
pub open spec fn status_same(a: PortfolioSecurityStatus, b: PortfolioSecurityStatus) -> bool {
    &&& a.security@ == b.security@
    &&& a.share_balance@ == b.share_balance@
    &&& a.all_affiliate_share_balance@ == b.all_affiliate_share_balance@
    &&& opt_dec_view(a.total_acb) == opt_dec_view(b.total_acb)
}

/// The number of an optional non-negative decimal.
pub open spec fn opt_dec_view(o: Option<GreaterEqualZeroDecimal>) -> Option<Dec> {
    match o {
        Some(d) => Some(d@),
        None => None,
    }
}

/// The ACB per share: none without an ACB, zero without shares.
pub open spec fn per_share_acb_spec(s: PortfolioSecurityStatus) -> Option<Option<Dec>> {
    match s.total_acb {
        None => Some(None),
        Some(acb) => if s.share_balance@.mant() == 0 {
            Some(Some(Dec::spec_new(0, 0)))
        } else {
            match decimal_checked_div(acb@, s.share_balance@) {
                Some(q) => Some(Some(q)),
                None => None,
            }
        },
    }
}

impl PortfolioSecurityStatus {
    pub fn clone_status(&self) -> (r: PortfolioSecurityStatus)
        ensures
            status_same(r, *self),
            r@ == self@,
            r.share_balance == self.share_balance,
            r.all_affiliate_share_balance == self.all_affiliate_share_balance,
            r.total_acb == self.total_acb,
    {
        PortfolioSecurityStatus {
            security: self.security.clone(),
            share_balance: self.share_balance,
            all_affiliate_share_balance: self.all_affiliate_share_balance,
            total_acb: self.total_acb,
        }
    }

    /// The ACB per share: `None` without an ACB, zero without shares, and the
    /// total divided by the shares otherwise (where that does not overflow).
    pub fn per_share_acb(&self) -> (r: Option<Dec>)
        requires
            per_share_acb_spec(*self) is Some,
        ensures
            Some(r) == per_share_acb_spec(*self),
    {
        self.checked_per_share_acb().unwrap_or(None)
    }

    /// The ACB per share, or `None` where the division overflows.
    pub fn checked_per_share_acb(&self) -> (r: Option<Option<Dec>>)
        ensures
            r == per_share_acb_spec(*self),
    {
        match self.total_acb {
            None => Some(None),
            Some(acb) => {
                let sb = self.share_balance.get();
                if sb.is_zero() {
                    Some(Some(Dec::zero()))
                } else {
                    match acb.get().checked_div(&sb) {
                        Some(q) => Some(Some(q)),
                        None => None,
                    }
                }
            },
        }
    }
}

/// The superficial loss found on a sale.
#[derive(PartialEq, Eq, Debug)]
pub struct DeltaSflInfo {
    /// The loss denied, in CAD (negative).
    pub superficial_loss: Dec,
    /// Reacquired shares that suffered the loss over the shares sold.
    pub ratio: PosDecimalRatio,
    /// Fewer shares remained with the buyers than shares suffered the loss.
    pub potentially_over_applied: bool,
}

/// A transaction and the holdings of its affiliate before and after it.
#[derive(PartialEq, Eq, Debug)]
pub struct TxDelta {
    pub tx: Tx,
    pub pre_status: PortfolioSecurityStatus,
    pub post_status: PortfolioSecurityStatus,
    pub capital_gain: Option<Dec>,
    pub sfl: Option<DeltaSflInfo>,
}

impl TxDelta {
    /// The change of the total ACB, where both statuses have one.
    pub fn acb_delta(&self) -> (r: Option<Dec>)
        requires
            self.pre_status.total_acb is Some && self.post_status.total_acb is Some
                ==> decimal_checked_sub(
                self.post_status.total_acb->0@,
                self.pre_status.total_acb->0@,
            ) is Some,
        ensures
            self.pre_status.total_acb is None || self.post_status.total_acb is None ==> r is None,
            self.pre_status.total_acb is Some && self.post_status.total_acb is Some ==> r
                == decimal_checked_sub(
                self.post_status.total_acb->0@,
                self.pre_status.total_acb->0@,
            ),
    {
        match (self.pre_status.total_acb, self.post_status.total_acb) {
            (Some(pre), Some(post)) => post.get().checked_sub(&pre.get()),
            _ => None,
        }
    }

    /// `Some` of the change of the total ACB (see `acb_delta`), or `None`
    /// where both statuses have one and the difference overflows.
    pub fn checked_acb_delta(&self) -> (r: Option<Option<Dec>>)
        ensures
            self.pre_status.total_acb is None || self.post_status.total_acb is None ==> r
                == Some(None::<Dec>),
            self.pre_status.total_acb is Some && self.post_status.total_acb is Some ==> (match r {
                Some(d) => d is Some && d == decimal_checked_sub(
                    self.post_status.total_acb->0@,
                    self.pre_status.total_acb->0@,
                ),
                None => decimal_checked_sub(
                    self.post_status.total_acb->0@,
                    self.pre_status.total_acb->0@,
                ) is None,
            }),
    {
        match (self.pre_status.total_acb, self.post_status.total_acb) {
            (Some(pre), Some(post)) => match post.get().checked_sub(&pre.get()) {
                Some(_) => Some(self.acb_delta()),
                None => None,
            },
            _ => Some(self.acb_delta()),
        }
    }

    /// The sale's loss was (at least partly) superficial.
    pub fn is_superficial_loss(&self) -> (r: bool)
        ensures
            r == (self.sfl is Some && self.sfl->0.superficial_loss.mant() != 0),
    {
        match &self.sfl {
            Some(sfl) => !sfl.superficial_loss.is_zero(),
            None => false,
        }
    }
}

} // verus!
