//! Detection of superficial losses: a sale at a loss with shares bought within
//! 30 days before or after it, and still held at the end of that period.
//!
//! Share counts are split adjusted: brought to the terms of the sale, across
//! the splits of the period.

use vstd::prelude::*;
use crate::portfolio::affiliate::Affiliate;
use crate::portfolio::affiliate::AffiliateView;
use crate::portfolio::bookkeeping::affiliate_map::{
    affiliate_views, ids_insert, view_ids, AffiliateDecMap, AffiliateSet,
};
use crate::portfolio::bookkeeping::portfolio_status::{
    latest_post_status, AffiliatePortfolioSecurityStatuses, StatusesView,
};
use crate::portfolio::tx::{Tx, TxActionSpecifics};
use crate::util::date::{clamp_day, date_display, Date};
use crate::util::decimal::{
    decimal_checked_add, decimal_checked_div, decimal_checked_mul, decimal_checked_sub,
    decimal_display, is_min_index, value_lt, constrained_min, ConstrainedDecimal, Dec,
    GreaterEqualZero, GreaterEqualZeroDecimal, Pos, PosDecimal,
};
use crate::util::math::{GezDecimalRatio, PosDecimalRatio};

verus! {

/// The first day of the period around a sale settled on `settlement_date`.
pub fn get_first_day_in_superficial_loss_period(settlement_date: Date) -> (r: Date)
    ensures
        r.day_number() == clamp_day(settlement_date.day_number() - 30),
{
    settlement_date.saturating_add_days(-30)
}

/// The last day of the period around a sale settled on `settlement_date`.
pub fn get_last_day_in_superficial_loss_period(settlement_date: Date) -> (r: Date)
    ensures
        r.day_number() == clamp_day(settlement_date.day_number() + 30),
{
    settlement_date.saturating_add_days(30)
}

/// The running state of the scan around a sale.
pub struct SflScan {
    /// Shares across all affiliates at the end of the period.
    pub all_eop: Dec,
    /// Shares bought in the period (not net of sales).
    pub acquired: Dec,
    /// Affiliates that bought in the period, in order of first purchase seen.
    pub buyers: Seq<AffiliateView>,
    /// Shares at the end of the period of each affiliate seen.
    pub active: Map<Seq<char>, Dec>,
    /// The split adjustment of each affiliate (1 where none).
    pub adj: Map<Seq<char>, Dec>,
}

/// What the scan found on a superficial loss.
pub struct SflInfoView {
    pub first_day: int,
    pub last_day: int,
    pub all_eop: Dec,
    pub acquired: Dec,
    pub buyers: Seq<AffiliateView>,
    pub active: Map<Seq<char>, Dec>,
}

pub open spec fn zero_dec() -> Dec {
    Dec::spec_new(0, 0)
}

pub open spec fn one_dec() -> Dec {
    Dec::spec_new(1, 0)
}

/// The shares an affiliate held after its last recorded status.
pub open spec fn recorded_shares(s: StatusesView, id: Seq<char>) -> Dec {
    if s.by_affiliate.dom().contains(id) {
        s.by_affiliate[id].share_balance
    } else {
        zero_dec()
    }
}

pub open spec fn adj_of(st: SflScan, id: Seq<char>) -> Dec {
    if st.adj.dom().contains(id) {
        st.adj[id]
    } else {
        one_dec()
    }
}

pub open spec fn active_of(st: SflScan, s: StatusesView, id: Seq<char>) -> Dec {
    if st.active.dom().contains(id) {
        st.active[id]
    } else {
        recorded_shares(s, id)
    }
}

/// Shares after per share before, where the quotient is a positive number.
pub open spec fn split_factor(tx: Tx) -> Option<Dec> {
    match tx.action_specifics {
        TxActionSpecifics::Split(sp) => match decimal_checked_div(
            sp.ratio.post_split@,
            sp.ratio.pre_split@,
        ) {
            Some(f) => if f.mant() != 0 {
                Some(f)
            } else {
                None
            },
            None => None,
        },
        _ => None,
    }
}

pub open spec fn overflow_message() -> Seq<char> {
    "Share count overflowed in the superficial loss period"@
}

pub open spec fn total_below_zero_message(tx: Tx) -> Seq<char> {
    "Total share count went below zero in 30-day period after sale (on "@ + date_display(
        tx.trade_date.day_number(),
    ) + ")"@
}

pub open spec fn affiliate_below_zero_message(tx: Tx) -> Seq<char> {
    "Share count for affiliate "@ + tx.affiliate@.name
        + " went below zero in 30-day period after sale (on "@ + date_display(
        tx.trade_date.day_number(),
    ) + ")"@
}

/// One transaction after the sale, within the period.
pub open spec fn sfl_after_step(st: SflScan, s: StatusesView, tx: Tx) -> Result<SflScan, Seq<char>> {
    let id = tx.affiliate@.id;
    match tx.action_specifics {
        TxActionSpecifics::Buy(b) => match decimal_checked_mul(b.shares@, adj_of(st, id)) {
            Some(q) => match (
                decimal_checked_add(st.all_eop, q),
                decimal_checked_add(active_of(st, s, id), q),
                decimal_checked_add(st.acquired, q),
            ) {
                (Some(all), Some(act), Some(acq)) => Ok(
                    SflScan {
                        all_eop: all,
                        acquired: acq,
                        buyers: ids_insert(st.buyers, tx.affiliate@),
                        active: st.active.insert(id, act),
                        adj: st.adj,
                    },
                ),
                _ => Err(overflow_message()),
            },
            None => Err(overflow_message()),
        },
        TxActionSpecifics::Sell(x) => match decimal_checked_mul(x.shares@, adj_of(st, id)) {
            Some(q) => match decimal_checked_sub(st.all_eop, q) {
                Some(all) => if all.mant() < 0 {
                    Err(total_below_zero_message(tx))
                } else {
                    match decimal_checked_sub(active_of(st, s, id), q) {
                        Some(act) => if act.mant() < 0 {
                            Err(affiliate_below_zero_message(tx))
                        } else {
                            Ok(SflScan { all_eop: all, active: st.active.insert(id, act), ..st })
                        },
                        None => Err(overflow_message()),
                    }
                },
                None => Err(overflow_message()),
            },
            None => Err(overflow_message()),
        },
        TxActionSpecifics::Split(_) => match split_factor(tx) {
            Some(f) => match decimal_checked_div(adj_of(st, id), f) {
                Some(n) => if n.mant() != 0 {
                    Ok(SflScan { adj: st.adj.insert(id, n), ..st })
                } else {
                    Err(overflow_message())
                },
                None => Err(overflow_message()),
            },
            None => Err(overflow_message()),
        },
        _ => Ok(st),
    }
}

/// One transaction before the sale, within the period.
pub open spec fn sfl_before_step(st: SflScan, s: StatusesView, tx: Tx) -> Result<SflScan, Seq<char>> {
    let id = tx.affiliate@.id;
    match tx.action_specifics {
        TxActionSpecifics::Buy(b) => match decimal_checked_mul(b.shares@, adj_of(st, id)) {
            Some(q) => if q.mant() == 0 {
                Err(overflow_message())
            } else {
                match decimal_checked_add(st.acquired, q) {
                    Some(acq) => Ok(
                        SflScan {
                            acquired: acq,
                            buyers: ids_insert(st.buyers, tx.affiliate@),
                            active: if st.active.dom().contains(id) {
                                st.active
                            } else {
                                st.active.insert(id, recorded_shares(s, id))
                            },
                            ..st
                        },
                    ),
                    None => Err(overflow_message()),
                }
            },
            None => Err(overflow_message()),
        },
        TxActionSpecifics::Split(_) => match split_factor(tx) {
            Some(f) => match decimal_checked_mul(adj_of(st, id), f) {
                Some(n) => if n.mant() != 0 {
                    Ok(SflScan { adj: st.adj.insert(id, n), ..st })
                } else {
                    Err(overflow_message())
                },
                None => Err(overflow_message()),
            },
            None => Err(overflow_message()),
        },
        _ => Ok(st),
    }
}

/// The transactions `lo..hi` after the sale, in order.
pub open spec fn sfl_after_fold(
    txs: Seq<Tx>,
    s: StatusesView,
    lo: int,
    hi: int,
    init: SflScan,
) -> Result<SflScan, Seq<char>>
    decreases hi - lo,
{
    if hi <= lo {
        Ok(init)
    } else {
        match sfl_after_fold(txs, s, lo, hi - 1, init) {
            Ok(st) => sfl_after_step(st, s, txs[hi - 1]),
            Err(e) => Err(e),
        }
    }
}

/// The transactions `lo..hi` before the sale, from the latest back.
pub open spec fn sfl_before_fold(
    txs: Seq<Tx>,
    s: StatusesView,
    lo: int,
    hi: int,
    init: SflScan,
) -> Result<SflScan, Seq<char>>
    decreases hi - lo,
{
    if hi <= lo {
        Ok(init)
    } else {
        match sfl_before_fold(txs, s, lo + 1, hi, init) {
            Ok(st) => sfl_before_step(st, s, txs[lo]),
            Err(e) => Err(e),
        }
    }
}

/// The first transaction from `j` on settled after `last_day` (or the end).
pub open spec fn window_end(txs: Seq<Tx>, j: int, last_day: int) -> int
    decreases txs.len() - j,
{
    if j >= txs.len() {
        txs.len() as int
    } else if txs[j].settlement_date.day_number() > last_day {
        j
    } else {
        window_end(txs, j + 1, last_day)
    }
}

/// Going back from `j`, where the transactions settled on or after
/// `first_day` begin.
pub open spec fn window_start(txs: Seq<Tx>, j: int, first_day: int) -> int
    decreases j,
{
    if j <= 0 {
        0
    } else if txs[j - 1].settlement_date.day_number() < first_day {
        j
    } else {
        window_start(txs, j - 1, first_day)
    }
}

pub open spec fn total_less_than_sold_message(total: Dec, sold: Dec) -> Seq<char> {
    "latest share balance total for all affiliates ("@ + decimal_display(total)
        + ") is less than sold shares ("@ + decimal_display(sold) + ")"@
}

pub open spec fn affiliate_less_than_sold_message(shares: Dec, name: Seq<char>, sold: Dec) -> Seq<
    char,
> {
    "latest share balance ("@ + decimal_display(shares) + ") for affiliate ("@ + name
        + ") is less than sold shares ("@ + decimal_display(sold) + ")"@
}

/// The sold shares of a sale.
pub open spec fn sold_shares(tx: Tx) -> Dec {
    match tx.action_specifics {
        TxActionSpecifics::Sell(x) => x.shares@,
        _ => zero_dec(),
    }
}

/// The scan state just after the sale, before any other transaction.
pub open spec fn sfl_initial_scan(idx: int, txs: Seq<Tx>, s: StatusesView) -> Result<
    SflScan,
    Seq<char>,
> {
    let tx = txs[idx];
    let sold = sold_shares(tx);
    let total = latest_post_status(s).all_affiliate_share_balance;
    let id = tx.affiliate@.id;
    match decimal_checked_sub(total, sold) {
        Some(all_after) => if all_after.mant() < 0 {
            Err(total_less_than_sold_message(total, sold))
        } else {
            match decimal_checked_sub(recorded_shares(s, id), sold) {
                Some(af_after) => if af_after.mant() < 0 {
                    Err(
                        affiliate_less_than_sold_message(
                            recorded_shares(s, id),
                            tx.affiliate@.name,
                            sold,
                        ),
                    )
                } else {
                    Ok(
                        SflScan {
                            all_eop: all_after,
                            acquired: zero_dec(),
                            buyers: Seq::empty(),
                            active: Map::empty().insert(id, af_after),
                            adj: Map::empty(),
                        },
                    )
                },
                None => Err(overflow_message()),
            }
        },
        None => Err(overflow_message()),
    }
}

/// What the scan around the sale at `idx` finds: an error, no superficial
/// loss (`None`: no shares left at the end of the period, or none bought in
/// it), or what the loss calculation needs.
pub open spec fn sfl_info_spec(idx: int, txs: Seq<Tx>, s: StatusesView) -> Result<
    Option<SflInfoView>,
    Seq<char>,
> {
    let tx = txs[idx];
    let first_day = clamp_day(tx.settlement_date.day_number() - 30);
    let last_day = clamp_day(tx.settlement_date.day_number() + 30);
    match sfl_initial_scan(idx, txs, s) {
        Err(e) => Err(e),
        Ok(init) => match sfl_after_fold(
            txs,
            s,
            idx + 1,
            window_end(txs, idx + 1, last_day),
            init,
        ) {
            Err(e) => Err(e),
            Ok(after) => if after.all_eop.mant() <= 0 {
                Ok(None)
            } else {
                match sfl_before_fold(
                    txs,
                    s,
                    window_start(txs, idx, first_day),
                    idx,
                    SflScan { adj: Map::empty(), ..after },
                ) {
                    Err(e) => Err(e),
                    Ok(before) => if before.acquired.mant() > 0 {
                        Ok(
                            Some(
                                SflInfoView {
                                    first_day,
                                    last_day,
                                    all_eop: after.all_eop,
                                    acquired: before.acquired,
                                    buyers: before.buyers,
                                    active: before.active,
                                },
                            ),
                        )
                    } else {
                        Ok(None)
                    },
                }
            },
        },
    }
}

/// What the superficial loss calculation needs. Share counts are split
/// adjusted to the time of the sale.
#[derive(Debug)]
pub struct SuperficialLossInfo {
    pub _first_date_in_period: Date,
    pub _last_date_in_period: Date,
    pub all_aff_spladj_shares_at_end_of_period: PosDecimal,
    /// Shares bought in the period (not net of sales).
    pub total_aquired_spladj_shares_in_period: PosDecimal,
    pub buying_affiliates: AffiliateSet,
    /// The shares at the end of the period of each affiliate active in it (a
    /// superset of the buyers: sellers are tracked too).
    pub active_affiliate_spladj_shares_at_eop: AffiliateDecMap<GreaterEqualZero>,
}

impl SuperficialLossInfo {
    pub open spec fn view(&self) -> SflInfoView {
        SflInfoView {
            first_day: self._first_date_in_period.day_number(),
            last_day: self._last_date_in_period.day_number(),
            all_eop: self.all_aff_spladj_shares_at_end_of_period@,
            acquired: self.total_aquired_spladj_shares_in_period@,
            buyers: self.buying_affiliates@,
            active: self.active_affiliate_spladj_shares_at_eop@,
        }
    }

    /// The shares at the end of the period of the buying affiliates, summed
    /// in the order they are listed; `None` on overflow. This may be zero
    /// where the remaining shares are all with affiliates that did not buy.
    pub fn checked_buying_affiliate_total(&self) -> (r: Option<GreaterEqualZeroDecimal>)
        ensures
            r is Some <==> buyers_total(self@.buyers, self@.active) is Some,
            r is Some ==> buyers_total(self@.buyers, self@.active) == Some(r->0@),
    {
        let afs = self.buying_affiliates.affiliates();
        let mut total = GreaterEqualZeroDecimal::zero();
        let mut i: usize = 0;
        proof {
            assert(self@.buyers.subrange(0, 0) =~= Seq::<AffiliateView>::empty());
        }
        while i < afs.len()
            invariant
                i <= afs@.len(),
                affiliate_views(afs@) == self@.buyers,
                buyers_total(self@.buyers.subrange(0, i as int), self@.active) == Some(total@),
            decreases afs@.len() - i,
        {
            let v = match self.active_affiliate_spladj_shares_at_eop.get(&afs[i]) {
                Some(v) => v,
                None => GreaterEqualZeroDecimal::zero(),
            };
            proof {
                let sub = self@.buyers.subrange(0, i + 1);
                assert(sub.drop_last() =~= self@.buyers.subrange(0, i as int));
                assert(sub.last() == afs@[i as int]@);
            }
            match total.checked_add(v) {
                Some(t) => {
                    total = t;
                },
                None => {
                    proof {
                        lemma_buyers_total_prefix_none(self@.buyers, self@.active, i + 1);
                    }
                    return None;
                },
            }
            i += 1;
        }
        proof {
            assert(self@.buyers.subrange(0, afs@.len() as int) =~= self@.buyers);
        }
        Some(total)
    }

    pub fn buying_affiliate_split_adjusted_shares_at_eop_total(&self) -> (r: GreaterEqualZeroDecimal)
        requires
            buyers_total(self@.buyers, self@.active) is Some,
        ensures
            buyers_total(self@.buyers, self@.active) == Some(r@),
    {
        self.checked_buying_affiliate_total().unwrap()
    }
}

proof fn lemma_buyers_total_prefix_none(ids: Seq<AffiliateView>, active: Map<Seq<char>, Dec>, k: int)
    requires
        0 <= k <= ids.len(),
        buyers_total(ids.subrange(0, k), active) is None,
    ensures
        buyers_total(ids, active) is None,
    decreases ids.len() - k,
{
    if k < ids.len() {
        let sub = ids.subrange(0, k + 1);
        assert(sub.drop_last() =~= ids.subrange(0, k));
        lemma_buyers_total_prefix_none(ids, active, k + 1);
    } else {
        assert(ids.subrange(0, k) =~= ids);
    }
}

/// The shares at the end of the period of `id`, or zero.
pub open spec fn active_or_zero(active: Map<Seq<char>, Dec>, id: Seq<char>) -> Dec {
    if active.dom().contains(id) {
        active[id]
    } else {
        zero_dec()
    }
}

/// The sum of the shares of `afs` at the end of the period, in order.
pub open spec fn buyers_total(afs: Seq<AffiliateView>, active: Map<Seq<char>, Dec>) -> Option<Dec>
    decreases afs.len(),
{
    if afs.len() == 0 {
        Some(zero_dec())
    } else {
        match buyers_total(afs.drop_last(), active) {
            Some(t) => decimal_checked_add(t, active_or_zero(active, afs.last().id)),
            None => None,
        }
    }
}

/// Either what the superficial loss calculation needs, or that the loss is
/// not superficial.
#[derive(Debug)]
pub enum MaybeSuperficialLossInfo {
    Superficial(SuperficialLossInfo),
    NotSuperficial(),
}

impl MaybeSuperficialLossInfo {
    pub open spec fn view(&self) -> Option<SflInfoView> {
        match self {
            MaybeSuperficialLossInfo::Superficial(i) => Some(i@),
            MaybeSuperficialLossInfo::NotSuperficial() => None,
        }
    }

    pub fn is_superficial(&self) -> (r: bool)
        ensures
            r == self@ is Some,
    {
        match self {
            MaybeSuperficialLossInfo::Superficial(_) => true,
            MaybeSuperficialLossInfo::NotSuperficial() => false,
        }
    }

    pub fn info(&self) -> (r: Result<&SuperficialLossInfo, ()>)
        ensures
            r is Ok <==> self@ is Some,
            r matches Ok(i) ==> Some(i@) == self@,
    {
        match self {
            MaybeSuperficialLossInfo::Superficial(i) => Ok(i),
            MaybeSuperficialLossInfo::NotSuperficial() => Err(()),
        }
    }
}

/// The exec scan state and its view.
struct ScanState {
    all_eop: GreaterEqualZeroDecimal,
    acquired: GreaterEqualZeroDecimal,
    buyers: AffiliateSet,
    active: AffiliateDecMap<GreaterEqualZero>,
    adj: AffiliateDecMap<Pos>,
}

impl ScanState {
    spec fn view(&self) -> SflScan {
        SflScan {
            all_eop: self.all_eop@,
            acquired: self.acquired@,
            buyers: self.buyers@,
            active: self.active@,
            adj: self.adj@,
        }
    }
}

fn recorded_shares_of(s: &AffiliatePortfolioSecurityStatuses, af: &Affiliate) -> (r:
    GreaterEqualZeroDecimal)
    ensures
        r@ == recorded_shares(s@, af@.id),
{
    match s.get_latest_post_status_for_affiliate(af) {
        Some(st) => st.share_balance,
        None => GreaterEqualZeroDecimal::zero(),
    }
}

fn adj_for(st: &ScanState, af: &Affiliate) -> (r: PosDecimal)
    ensures
        r@ == adj_of(st@, af@.id),
{
    match st.adj.get(af) {
        Some(a) => a,
        None => PosDecimal::one(),
    }
}

fn active_for(st: &ScanState, s: &AffiliatePortfolioSecurityStatuses, af: &Affiliate) -> (r:
    GreaterEqualZeroDecimal)
    ensures
        r@ == active_of(st@, s@, af@.id),
{
    match st.active.get(af) {
        Some(a) => a,
        None => recorded_shares_of(s, af),
    }
}

fn overflow_error() -> (r: String)
    ensures
        r@ == overflow_message(),
{
    String::from_str("Share count overflowed in the superficial loss period")
}

/// Shares after per share before of a split, where positive.
fn split_factor_of(tx: &Tx) -> (r: Option<PosDecimal>)
    ensures
        r is Some <==> split_factor(*tx) is Some,
        r is Some ==> split_factor(*tx) == Some(r->0@),
{
    match &tx.action_specifics {
        TxActionSpecifics::Split(sp) => sp.ratio.pre_to_post_factor(),
        _ => None,
    }
}

fn after_step(st: &mut ScanState, s: &AffiliatePortfolioSecurityStatuses, tx: &Tx) -> (r: Result<
    (),
    String,
>)
    ensures
        r is Ok <==> sfl_after_step(old(st)@, s@, *tx) is Ok,
        r is Ok ==> sfl_after_step(old(st)@, s@, *tx) == Ok::<SflScan, Seq<char>>(final(st)@),
        r matches Err(e) ==> sfl_after_step(old(st)@, s@, *tx) == Err::<SflScan, Seq<char>>(e@),
{
    let af = &tx.affiliate;
    let adj = adj_for(st, af);
    match &tx.action_specifics {
        TxActionSpecifics::Buy(b) => {
            let q = match b.shares.get().checked_mul(&adj.get()) {
                Some(q) => q,
                None => {
                    return Err(overflow_error());
                },
            };
            let old_act = active_for(st, s, af);
            let all = st.all_eop.get().checked_add(&q);
            let act = old_act.get().checked_add(&q);
            let acq = st.acquired.get().checked_add(&q);
            match (all, act, acq) {
                (Some(all), Some(act), Some(acq)) => {
                    st.all_eop = GreaterEqualZeroDecimal::try_from(all).unwrap();
                    st.active.insert(af, GreaterEqualZeroDecimal::try_from(act).unwrap());
                    st.acquired = GreaterEqualZeroDecimal::try_from(acq).unwrap();
                    st.buyers.insert(af);
                    Ok(())
                },
                _ => Err(overflow_error()),
            }
        },
        TxActionSpecifics::Sell(x) => {
            let q = match x.shares.get().checked_mul(&adj.get()) {
                Some(q) => q,
                None => {
                    return Err(overflow_error());
                },
            };
            let all = match st.all_eop.get().checked_sub(&q) {
                Some(a) => a,
                None => {
                    return Err(overflow_error());
                },
            };
            if all.is_negative() {
                let mut msg = String::from_str(
                    "Total share count went below zero in 30-day period after sale (on ",
                );
                msg.append(tx.trade_date.to_string().as_str());
                msg.append(")");
                return Err(msg);
            }
            let old_act = active_for(st, s, af);
            let act = match old_act.get().checked_sub(&q) {
                Some(a) => a,
                None => {
                    return Err(overflow_error());
                },
            };
            if act.is_negative() {
                let mut msg = String::from_str("Share count for affiliate ");
                msg.append(af.name());
                msg.append(" went below zero in 30-day period after sale (on ");
                msg.append(tx.trade_date.to_string().as_str());
                msg.append(")");
                return Err(msg);
            }
            st.all_eop = GreaterEqualZeroDecimal::try_from(all).unwrap();
            st.active.insert(af, GreaterEqualZeroDecimal::try_from(act).unwrap());
            Ok(())
        },
        TxActionSpecifics::Split(_) => {
            let f = match split_factor_of(tx) {
                Some(f) => f,
                None => {
                    return Err(overflow_error());
                },
            };
            match adj.checked_div(f) {
                Some(n) => {
                    st.adj.insert(af, n);
                    Ok(())
                },
                None => Err(overflow_error()),
            }
        },
        _ => Ok(()),
    }
}

fn before_step(st: &mut ScanState, s: &AffiliatePortfolioSecurityStatuses, tx: &Tx) -> (r: Result<
    (),
    String,
>)
    ensures
        r is Ok <==> sfl_before_step(old(st)@, s@, *tx) is Ok,
        r is Ok ==> sfl_before_step(old(st)@, s@, *tx) == Ok::<SflScan, Seq<char>>(final(st)@),
        r matches Err(e) ==> sfl_before_step(old(st)@, s@, *tx) == Err::<SflScan, Seq<char>>(e@),
{
    let af = &tx.affiliate;
    let adj = adj_for(st, af);
    match &tx.action_specifics {
        TxActionSpecifics::Buy(b) => {
            let q = match b.shares.checked_mul(adj) {
                Some(q) => q,
                None => {
                    return Err(overflow_error());
                },
            };
            let acq = match st.acquired.get().checked_add(&q.get()) {
                Some(a) => a,
                None => {
                    return Err(overflow_error());
                },
            };
            st.acquired = GreaterEqualZeroDecimal::try_from(acq).unwrap();
            st.buyers.insert(af);
            if !st.active.contains(af) {
                let v = recorded_shares_of(s, af);
                st.active.insert(af, v);
            }
            Ok(())
        },
        TxActionSpecifics::Split(_) => {
            let f = match split_factor_of(tx) {
                Some(f) => f,
                None => {
                    return Err(overflow_error());
                },
            };
            match adj.checked_mul(f) {
                Some(n) => {
                    st.adj.insert(af, n);
                    Ok(())
                },
                None => Err(overflow_error()),
            }
        },
        _ => Ok(()),
    }
}

proof fn lemma_after_fold_err(
    txs: Seq<Tx>,
    s: StatusesView,
    lo: int,
    k: int,
    hi: int,
    init: SflScan,
    e: Seq<char>,
)
    requires
        k <= hi,
        sfl_after_fold(txs, s, lo, k, init) == Err::<SflScan, Seq<char>>(e),
    ensures
        sfl_after_fold(txs, s, lo, hi, init) == Err::<SflScan, Seq<char>>(e),
    decreases hi - k,
{
    if k < hi {
        lemma_after_fold_err(txs, s, lo, k, hi - 1, init, e);
    }
}

proof fn lemma_before_fold_err(
    txs: Seq<Tx>,
    s: StatusesView,
    lo: int,
    k: int,
    hi: int,
    init: SflScan,
    e: Seq<char>,
)
    requires
        lo <= k,
        sfl_before_fold(txs, s, k, hi, init) == Err::<SflScan, Seq<char>>(e),
    ensures
        sfl_before_fold(txs, s, lo, hi, init) == Err::<SflScan, Seq<char>>(e),
    decreases k - lo,
{
    if lo < k {
        lemma_before_fold_err(txs, s, lo + 1, k, hi, init, e);
        if lo >= hi {
            assert(false);
        }
    }
}

proof fn lemma_window_end_at_least(txs: Seq<Tx>, j: int, last_day: int)
    ensures
        window_end(txs, j, last_day) >= j || j > txs.len(),
    decreases txs.len() - j,
{
    if j < txs.len() && txs[j].settlement_date.day_number() <= last_day {
        lemma_window_end_at_least(txs, j + 1, last_day);
    }
}

proof fn lemma_window_start_at_most(txs: Seq<Tx>, j: int, first_day: int)
    ensures
        window_start(txs, j, first_day) <= j || j < 0,
    decreases j,
{
    if j > 0 && txs[j - 1].settlement_date.day_number() >= first_day {
        lemma_window_start_at_most(txs, j - 1, first_day);
    }
}

proof fn lemma_window_end_step(txs: Seq<Tx>, j: int, last_day: int)
    requires
        0 <= j < txs.len(),
        txs[j].settlement_date.day_number() <= last_day,
    ensures
        window_end(txs, j, last_day) == window_end(txs, j + 1, last_day),
{
}

/// Scans the transactions around the sale at `idx` for a superficial loss:
/// whether shares were bought within 30 days before or after it and shares
/// remain at the end of that period, and what the calculation needs. Neither
/// whether the sale is a loss nor a loss given with it is looked at.
pub fn get_superficial_loss_info(
    idx: usize,
    txs: &Vec<Tx>,
    ptf_statuses: &AffiliatePortfolioSecurityStatuses,
) -> (r: Result<MaybeSuperficialLossInfo, String>)
    requires
        idx < txs@.len(),
        txs@[idx as int].action_specifics is Sell,
    ensures
        r matches Ok(m) ==> sfl_info_spec(idx as int, txs@, ptf_statuses@) == Ok::<
            Option<SflInfoView>,
            Seq<char>,
        >(m@),
        r matches Err(e) ==> sfl_info_spec(idx as int, txs@, ptf_statuses@) == Err::<
            Option<SflInfoView>,
            Seq<char>,
        >(e@),
{
    let tx = &txs[idx];
    let sold = match &tx.action_specifics {
        TxActionSpecifics::Sell(x) => x.shares.get(),
        _ => {
            return Err(overflow_error());
        },
    };
    let first_bad_buy_date = get_first_day_in_superficial_loss_period(tx.settlement_date);
    let last_bad_buy_date = get_last_day_in_superficial_loss_period(tx.settlement_date);
    let latest = ptf_statuses.get_latest_post_status();
    let total = latest.all_affiliate_share_balance.get();
    let all_after = match total.checked_sub(&sold) {
        Some(a) => a,
        None => {
            return Err(overflow_error());
        },
    };
    if all_after.is_negative() {
        let mut msg = String::from_str("latest share balance total for all affiliates (");
        msg.append(total.to_string().as_str());
        msg.append(") is less than sold shares (");
        msg.append(sold.to_string().as_str());
        msg.append(")");
        return Err(msg);
    }
    let af_before = recorded_shares_of(ptf_statuses, &tx.affiliate).get();
    let af_after = match af_before.checked_sub(&sold) {
        Some(a) => a,
        None => {
            return Err(overflow_error());
        },
    };
    if af_after.is_negative() {
        let mut msg = String::from_str("latest share balance (");
        msg.append(af_before.to_string().as_str());
        msg.append(") for affiliate (");
        msg.append(tx.affiliate.name());
        msg.append(") is less than sold shares (");
        msg.append(sold.to_string().as_str());
        msg.append(")");
        return Err(msg);
    }
    let mut active = AffiliateDecMap::new();
    active.insert(&tx.affiliate, GreaterEqualZeroDecimal::try_from(af_after).unwrap());
    let mut st = ScanState {
        all_eop: GreaterEqualZeroDecimal::try_from(all_after).unwrap(),
        acquired: GreaterEqualZeroDecimal::zero(),
        buyers: AffiliateSet::new(),
        active,
        adj: AffiliateDecMap::new(),
    };
    let ghost init = st@;
    let ghost last_day = last_bad_buy_date.day_number();
    assert(sfl_initial_scan(idx as int, txs@, ptf_statuses@) == Ok::<SflScan, Seq<char>>(init));
    let n = txs.len();
    let mut i: usize = idx + 1;
    while i < n
        invariant_except_break
            n == txs@.len(),
            last_day == last_bad_buy_date.day_number(),
            last_day == clamp_day(txs@[idx as int].settlement_date.day_number() + 30),
            sfl_initial_scan(idx as int, txs@, ptf_statuses@) == Ok::<SflScan, Seq<char>>(init),
            idx < i <= txs@.len(),
            window_end(txs@, idx + 1, last_day) == window_end(txs@, i as int, last_day),
            sfl_after_fold(txs@, ptf_statuses@, idx + 1, i as int, init) == Ok::<
                SflScan,
                Seq<char>,
            >(st@),
        ensures
            idx < i <= txs@.len(),
            window_end(txs@, idx + 1, last_day) == i,
            sfl_after_fold(txs@, ptf_statuses@, idx + 1, i as int, init) == Ok::<
                SflScan,
                Seq<char>,
            >(st@),
        decreases txs@.len() - i,
    {
        let after_tx = &txs[i];
        if last_bad_buy_date.before(&after_tx.settlement_date) {
            break;
        }
        proof {
            lemma_window_end_step(txs@, i as int, last_day);
        }
        let ghost before_step_st = st@;
        let res = after_step(&mut st, ptf_statuses, after_tx);
        match res {
            Ok(()) => {},
            Err(e) => {
                proof {
                    assert(sfl_after_fold(txs@, ptf_statuses@, idx + 1, i + 1, init) == Err::<
                        SflScan,
                        Seq<char>,
                    >(e@));
                    lemma_window_end_at_least(txs@, i + 1, last_day);
                    lemma_after_fold_err(
                        txs@,
                        ptf_statuses@,
                        idx + 1,
                        i + 1,
                        window_end(txs@, idx + 1, last_day),
                        init,
                        e@,
                    );
                }
                return Err(e);
            },
        }
        i += 1;
    }
    if st.all_eop.get().is_zero() {
        return Ok(MaybeSuperficialLossInfo::NotSuperficial());
    }
    let all_eop = PosDecimal::try_from(st.all_eop.get()).unwrap();
    let ghost after = st@;
    st.adj = AffiliateDecMap::new();
    let ghost binit = st@;
    assert(binit == SflScan { adj: Map::empty(), ..after });
    let ghost first_day = first_bad_buy_date.day_number();
    let mut j: usize = idx;
    while j > 0
        invariant_except_break
            idx < txs@.len(),
            first_day == first_bad_buy_date.day_number(),
            first_day == clamp_day(txs@[idx as int].settlement_date.day_number() - 30),
            last_day == clamp_day(txs@[idx as int].settlement_date.day_number() + 30),
            sfl_initial_scan(idx as int, txs@, ptf_statuses@) == Ok::<SflScan, Seq<char>>(init),
            sfl_after_fold(txs@, ptf_statuses@, idx + 1, window_end(txs@, idx + 1, last_day), init)
                == Ok::<SflScan, Seq<char>>(after),
            after.all_eop.mant() > 0,
            binit == (SflScan { adj: Map::empty(), ..after }),
            j <= idx,
            window_start(txs@, idx as int, first_day) == window_start(txs@, j as int, first_day),
            sfl_before_fold(txs@, ptf_statuses@, j as int, idx as int, binit) == Ok::<
                SflScan,
                Seq<char>,
            >(st@),
        ensures
            j <= idx,
            window_start(txs@, idx as int, first_day) == j,
            sfl_before_fold(txs@, ptf_statuses@, j as int, idx as int, binit) == Ok::<
                SflScan,
                Seq<char>,
            >(st@),
        decreases j,
    {
        let before_tx = &txs[j - 1];
        if before_tx.settlement_date.before(&first_bad_buy_date) {
            break;
        }
        let res = before_step(&mut st, ptf_statuses, before_tx);
        match res {
            Ok(()) => {},
            Err(e) => {
                proof {
                    assert(sfl_before_fold(txs@, ptf_statuses@, j - 1, idx as int, binit) == Err::<
                        SflScan,
                        Seq<char>,
                    >(e@));
                    assert(window_start(txs@, j as int, first_day) == window_start(
                        txs@,
                        j - 1,
                        first_day,
                    ));
                    lemma_window_start_at_most(txs@, j - 1, first_day);
                    lemma_before_fold_err(
                        txs@,
                        ptf_statuses@,
                        window_start(txs@, idx as int, first_day),
                        j - 1,
                        idx as int,
                        binit,
                        e@,
                    );
                }
                return Err(e);
            },
        }
        j -= 1;
    }
    if st.acquired.get().is_zero() {
        return Ok(MaybeSuperficialLossInfo::NotSuperficial());
    }
    let acquired = PosDecimal::try_from(st.acquired.get()).unwrap();
    Ok(
        MaybeSuperficialLossInfo::Superficial(
            SuperficialLossInfo {
                _first_date_in_period: first_bad_buy_date,
                _last_date_in_period: last_bad_buy_date,
                all_aff_spladj_shares_at_end_of_period: all_eop,
                total_aquired_spladj_shares_in_period: acquired,
                buying_affiliates: st.buyers,
                active_affiliate_spladj_shares_at_eop: st.active,
            },
        ),
    )
}

/// The scan keeps every buyer among the active affiliates, and has no shares
/// acquired without a buyer.
pub open spec fn scan_consistent(st: SflScan) -> bool {
    &&& view_ids(st.buyers).no_duplicates()
    &&& forall|i: int| 0 <= i < st.buyers.len() ==> st.active.dom().contains(#[trigger] st.buyers[i].id)
    &&& st.buyers.len() == 0 ==> st.acquired.mant() == 0
}

proof fn lemma_after_step_consistent(st: SflScan, s: StatusesView, tx: Tx)
    requires
        scan_consistent(st),
        sfl_after_step(st, s, tx) is Ok,
    ensures
        scan_consistent(sfl_after_step(st, s, tx)->Ok_0),
{
    let id = tx.affiliate@.id;
    let r = sfl_after_step(st, s, tx)->Ok_0;
    if tx.action_specifics is Buy {
        assert forall|i: int| 0 <= i < r.buyers.len() implies r.active.dom().contains(
            #[trigger] r.buyers[i].id,
        ) by {
            if !view_ids(st.buyers).contains(id) && i == st.buyers.len() {
            } else {
                assert(r.buyers[i] == st.buyers[i]);
            }
        }
        if !view_ids(st.buyers).contains(id) {
            let ids = view_ids(r.buyers);
            assert(ids =~= view_ids(st.buyers).push(id));
            assert forall|i: int, j: int|
                0 <= i < ids.len() && 0 <= j < ids.len() && i != j implies ids[i] != ids[j] by {
                if i < st.buyers.len() && j < st.buyers.len() {
                    assert(ids[i] == view_ids(st.buyers)[i]);
                    assert(ids[j] == view_ids(st.buyers)[j]);
                } else if i == st.buyers.len() {
                    assert(ids[j] == view_ids(st.buyers)[j]);
                } else {
                    assert(ids[i] == view_ids(st.buyers)[i]);
                }
            }
        }
    }
}

proof fn lemma_before_step_consistent(st: SflScan, s: StatusesView, tx: Tx)
    requires
        scan_consistent(st),
        sfl_before_step(st, s, tx) is Ok,
    ensures
        scan_consistent(sfl_before_step(st, s, tx)->Ok_0),
{
    let id = tx.affiliate@.id;
    let r = sfl_before_step(st, s, tx)->Ok_0;
    if tx.action_specifics is Buy {
        assert forall|i: int| 0 <= i < r.buyers.len() implies r.active.dom().contains(
            #[trigger] r.buyers[i].id,
        ) by {
            if !view_ids(st.buyers).contains(id) && i == st.buyers.len() {
            } else {
                assert(r.buyers[i] == st.buyers[i]);
            }
        }
        if !view_ids(st.buyers).contains(id) {
            let ids = view_ids(r.buyers);
            assert(ids =~= view_ids(st.buyers).push(id));
            assert forall|i: int, j: int|
                0 <= i < ids.len() && 0 <= j < ids.len() && i != j implies ids[i] != ids[j] by {
                if i < st.buyers.len() && j < st.buyers.len() {
                    assert(ids[i] == view_ids(st.buyers)[i]);
                    assert(ids[j] == view_ids(st.buyers)[j]);
                } else if i == st.buyers.len() {
                    assert(ids[j] == view_ids(st.buyers)[j]);
                } else {
                    assert(ids[i] == view_ids(st.buyers)[i]);
                }
            }
        }
    }
}

proof fn lemma_after_fold_consistent(txs: Seq<Tx>, s: StatusesView, lo: int, hi: int, init: SflScan)
    requires
        scan_consistent(init),
        sfl_after_fold(txs, s, lo, hi, init) is Ok,
    ensures
        scan_consistent(sfl_after_fold(txs, s, lo, hi, init)->Ok_0),
    decreases hi - lo,
{
    if hi > lo {
        lemma_after_fold_consistent(txs, s, lo, hi - 1, init);
        lemma_after_step_consistent(sfl_after_fold(txs, s, lo, hi - 1, init)->Ok_0, s, txs[hi - 1]);
    }
}

proof fn lemma_before_fold_consistent(txs: Seq<Tx>, s: StatusesView, lo: int, hi: int, init: SflScan)
    requires
        scan_consistent(init),
        sfl_before_fold(txs, s, lo, hi, init) is Ok,
    ensures
        scan_consistent(sfl_before_fold(txs, s, lo, hi, init)->Ok_0),
    decreases hi - lo,
{
    if hi > lo {
        lemma_before_fold_consistent(txs, s, lo + 1, hi, init);
        lemma_before_step_consistent(sfl_before_fold(txs, s, lo + 1, hi, init)->Ok_0, s, txs[lo]);
    }
}

/// A superficial loss found by the scan always has a buying affiliate, each
/// listed once, and every buying affiliate has a share count at the end of
/// the period.
pub proof fn law_superficial_loss_has_buyers(idx: int, txs: Seq<Tx>, s: StatusesView)
    requires
        0 <= idx < txs.len(),
    ensures
        sfl_info_spec(idx, txs, s) matches Ok(Some(v)) ==> {
            &&& v.buyers.len() > 0
            &&& view_ids(v.buyers).no_duplicates()
            &&& forall|i: int| 0 <= i < v.buyers.len() ==> v.active.dom().contains(#[trigger] v.buyers[i].id)
        },
{
    let tx = txs[idx];
    let first_day = clamp_day(tx.settlement_date.day_number() - 30);
    let last_day = clamp_day(tx.settlement_date.day_number() + 30);
    if let Ok(init) = sfl_initial_scan(idx, txs, s) {
        crate::util::decimal::lemma_spec_new(0, 0);
        let hi = window_end(txs, idx + 1, last_day);
        if let Ok(after) = sfl_after_fold(txs, s, idx + 1, hi, init) {
            lemma_after_fold_consistent(txs, s, idx + 1, hi, init);
            let binit = SflScan { adj: Map::empty(), ..after };
            let lo = window_start(txs, idx, first_day);
            if sfl_before_fold(txs, s, lo, idx, binit) is Ok {
                lemma_before_fold_consistent(txs, s, lo, idx, binit);
            }
        }
    }
}

/// The superficial loss ratio of a sale and how the loss is shared among the
/// buying affiliates.
#[derive(Debug)]
pub struct SflRatioResultResult {
    /// min(sold, bought in the period, held at its end) / sold.
    pub sfl_ratio: PosDecimalRatio,
    /// For each buying affiliate (in the order found), its shares at the end
    /// of the period over those of all buying affiliates; empty where the
    /// buyers hold none.
    pub acb_adjust_affiliate_ratios: Vec<(Affiliate, GezDecimalRatio)>,
    /// The buyers hold fewer shares at the end of the period than suffered
    /// the loss, so the loss may be over-applied.
    pub fewer_remaining_shares_than_sfl_shares: bool,
}

/// The shares that suffered the loss: the least of the shares sold, bought in
/// the period and held at its end (the first of equals).
pub open spec fn sfl_numerator(sold: Dec, info: SflInfoView) -> Dec {
    let candidates = seq![sold, info.acquired, info.all_eop];
    candidates[choose|k: int| is_min_index(candidates, k)]
}

/// The shares that suffered a superficial loss are at most the shares sold,
/// the shares bought in the period and those held at its end; so the
/// superficial part of a loss is never more than the whole loss.
pub proof fn law_sfl_shares_at_most_sold(sold: Dec, info: SflInfoView)
    ensures
        !value_lt(sold, sfl_numerator(sold, info)),
        !value_lt(info.acquired, sfl_numerator(sold, info)),
        !value_lt(info.all_eop, sfl_numerator(sold, info)),
{
    let candidates = seq![sold, info.acquired, info.all_eop];
    crate::util::decimal::lemma_min_index_exists(candidates);
    let k = choose|k: int| is_min_index(candidates, k);
    assert(!value_lt(candidates[0], candidates[k]));
    assert(!value_lt(candidates[1], candidates[k]));
    assert(!value_lt(candidates[2], candidates[k]));
}

proof fn lemma_min_index_unique(ds: Seq<Dec>, k1: int, k2: int)
    requires
        is_min_index(ds, k1),
        is_min_index(ds, k2),
    ensures
        k1 == k2,
{
    if k1 < k2 {
        assert(value_lt(ds[k2], ds[k1]));
    } else if k2 < k1 {
        assert(value_lt(ds[k1], ds[k2]));
    }
}

/// `res` is the ratio result for a sale of `sold` shares with scan result
/// `info`, given the buyers' total `total`.
pub open spec fn sfl_ratio_matches(sold: Dec, info: SflInfoView, total: Dec, res: SflRatioResultResult) -> bool {
    let portions = res.acb_adjust_affiliate_ratios@;
    &&& res.sfl_ratio.denominator@ == sold
    &&& res.sfl_ratio.numerator@ == sfl_numerator(sold, info)
    &&& total.mant() > 0 ==> {
        &&& portions.len() == info.buyers.len()
        &&& forall|i: int|
            0 <= i < portions.len() ==> {
                &&& (#[trigger] portions[i]).0@ == info.buyers[i]
                &&& portions[i].1.numerator@ == info.active[info.buyers[i].id]
                &&& portions[i].1.denominator@ == total
            }
    }
    &&& total.mant() <= 0 ==> portions.len() == 0
    &&& res.fewer_remaining_shares_than_sfl_shares == value_lt(total, res.sfl_ratio.numerator@)
}

/// The superficial part of a loss, as the ratio
/// `min(sold, bought in the period, held at its end) / sold`, and how the
/// adjustment is shared among the buying affiliates (by their shares left at
/// the end of the period); `None` where the loss is not superficial.
pub fn calc_superficial_loss_ratio(sell_tx: &Tx, msli: MaybeSuperficialLossInfo) -> (r: Result<
    Option<SflRatioResultResult>,
    String,
>)
    requires
        sell_tx.action_specifics is Sell,
        msli@ matches Some(info) ==> {
            &&& info.buyers.len() > 0
            &&& forall|i: int|
                0 <= i < info.buyers.len() ==> info.active.dom().contains(#[trigger] info.buyers[i].id)
        },
    ensures
        msli@ is None ==> r matches Ok(None),
        msli@ matches Some(info) ==> {
            &&& r is Err <==> buyers_total(info.buyers, info.active) is None
            &&& r matches Err(e) ==> e@ == overflow_message()
            &&& r matches Ok(res) ==> res matches Some(res) && sfl_ratio_matches(
                sold_shares(*sell_tx),
                info,
                buyers_total(info.buyers, info.active)->0,
                res,
            )
        },
{
    let sli = match msli {
        MaybeSuperficialLossInfo::Superficial(i) => i,
        MaybeSuperficialLossInfo::NotSuperficial() => {
            return Ok(None);
        },
    };
    let sell_shares = match &sell_tx.action_specifics {
        TxActionSpecifics::Sell(x) => x.shares,
        _ => {
            return Ok(None);
        },
    };
    let candidates = [
        sell_shares,
        sli.total_aquired_spladj_shares_in_period,
        sli.all_aff_spladj_shares_at_end_of_period,
    ];
    let numerator = constrained_min(&candidates);
    proof {
        let vals = candidates@.map_values(|c: PosDecimal| c@);
        let cands = seq![sold_shares(*sell_tx), sli@.acquired, sli@.all_eop];
        assert(vals =~= cands);
        let k0 = choose|k: int| is_min_index(vals, k) && numerator@ == candidates@[k]@;
        let k1 = choose|k: int| is_min_index(cands, k);
        lemma_min_index_unique(cands, k0, k1);
    }
    let ratio = PosDecimalRatio { numerator, denominator: sell_shares };
    let total = match sli.checked_buying_affiliate_total() {
        Some(t) => t,
        None => {
            return Err(overflow_error());
        },
    };
    let mut portions: Vec<(Affiliate, GezDecimalRatio)> = Vec::new();
    if total.get().is_positive() {
        let denominator = PosDecimal::try_from(total.get()).unwrap();
        let afs = sli.buying_affiliates.affiliates();
        let mut i: usize = 0;
        while i < afs.len()
            invariant
                i <= afs@.len(),
                affiliate_views(afs@) == sli@.buyers,
                forall|j: int|
                    0 <= j < sli@.buyers.len() ==> sli@.active.dom().contains(#[trigger] sli@.buyers[j].id),
                denominator@ == total@,
                portions@.len() == i,
                forall|j: int|
                    0 <= j < i ==> {
                        &&& (#[trigger] portions@[j]).0@ == sli@.buyers[j]
                        &&& portions@[j].1.numerator@ == sli@.active[sli@.buyers[j].id]
                        &&& portions@[j].1.denominator@ == total@
                    },
            decreases afs@.len() - i,
        {
            assert(sli@.buyers[i as int] == afs@[i as int]@);
            let shares = sli.active_affiliate_spladj_shares_at_eop.get(&afs[i]).unwrap();
            portions.push((afs[i].clone(), GezDecimalRatio { numerator: shares, denominator }));
            i += 1;
        }
    }
    let fewer = total.get().lt(&ratio.numerator.get());
    Ok(
        Some(
            SflRatioResultResult {
                sfl_ratio: ratio,
                acb_adjust_affiliate_ratios: portions,
                fewer_remaining_shares_than_sfl_shares: fewer,
            },
        ),
    )
}

/// The superficial loss ratio of the sale at `idx` (see
/// `calc_superficial_loss_ratio`), from the scan around it.
pub fn get_superficial_loss_ratio(
    idx: usize,
    txs: &Vec<Tx>,
    ptf_statuses: &AffiliatePortfolioSecurityStatuses,
) -> (r: Result<Option<SflRatioResultResult>, String>)
    requires
        idx < txs@.len(),
        txs@[idx as int].action_specifics is Sell,
    ensures
        ({
            let info = sfl_info_spec(idx as int, txs@, ptf_statuses@);
            match info {
                Err(e) => r matches Err(e2) && e2@ == e,
                Ok(None) => r matches Ok(None),
                Ok(Some(v)) => match buyers_total(v.buyers, v.active) {
                    None => r matches Err(e2) && e2@ == overflow_message(),
                    Some(total) => r matches Ok(Some(res)) && sfl_ratio_matches(
                        sold_shares(txs@[idx as int]),
                        v,
                        total,
                        res,
                    ),
                },
            }
        }),
{
    proof {
        law_superficial_loss_has_buyers(idx as int, txs@, ptf_statuses@);
    }
    let msli = get_superficial_loss_info(idx, txs, ptf_statuses)?;
    calc_superficial_loss_ratio(&txs[idx], msli)
}

} // verus!
