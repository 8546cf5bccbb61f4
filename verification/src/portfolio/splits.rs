//! Expanding transactions given for the global affiliate (splits and per
//! share distributions) into one transaction per affiliate.

use vstd::prelude::*;
use crate::portfolio::affiliate::{Affiliate, AffiliateView, GLOBAL_AF_ID};
use crate::portfolio::misc::{find_all_non_global_affiliates, non_global_affiliates};
use crate::portfolio::tx::{action_pretty, TotalOrAmountPerShare, Tx, TxAction, TxActionSpecifics};
use crate::util::date::date_display;

verus! {

pub open spec fn trade_day(t: Tx) -> int {
    t.trade_date.day_number()
}

pub open spec fn is_global_af(t: Tx) -> bool {
    t.affiliate@.id == GLOBAL_AF_ID@
}

/// Going back from `i`, a non-global transaction of `action` within a day of
/// `target` (the search stops at the first one more than a day away).
pub open spec fn conflict_before(txs: Seq<Tx>, target: int, i: int, action: TxAction) -> bool
    decreases i,
{
    if i <= 0 || i > txs.len() {
        false
    } else if target - trade_day(txs[i - 1]) > 1 {
        false
    } else if txs[i - 1].spec_action() == action && !is_global_af(txs[i - 1]) {
        true
    } else {
        conflict_before(txs, target, i - 1, action)
    }
}

/// Going forward from `j`, the same.
pub open spec fn conflict_after(txs: Seq<Tx>, target: int, j: int, action: TxAction) -> bool
    decreases txs.len() - j,
{
    if j < 0 || j >= txs.len() {
        false
    } else if trade_day(txs[j]) - target > 1 {
        false
    } else if txs[j].spec_action() == action && !is_global_af(txs[j]) {
        true
    } else {
        conflict_after(txs, target, j + 1, action)
    }
}

/// A non-global transaction of `action` surrounds the one at `idx` within a
/// day.
pub open spec fn has_conflict(txs: Seq<Tx>, idx: int, action: TxAction) -> bool {
    conflict_before(txs, trade_day(txs[idx]), idx, action) || conflict_after(
        txs,
        trade_day(txs[idx]),
        idx + 1,
        action,
    )
}

/// Whether a non-global transaction of `action` is within a day of the one at
/// `idx`, scanning back and then forward until one more than a day away.
pub fn has_non_global_conflicting_surrounding_tx(txs: &Vec<Tx>, idx: usize, tx_action: TxAction) -> (r:
    bool)
    requires
        idx < txs@.len(),
    ensures
        r == has_conflict(txs@, idx as int, tx_action),
{
    let n = txs.len();
    let target = txs[idx].trade_date.to_julian_day();
    let mut i: usize = idx;
    let mut back = false;
    while i > 0
        invariant_except_break
            !back,
            n == txs@.len(),
            i <= idx < txs@.len(),
            target == trade_day(txs@[idx as int]),
            conflict_before(txs@, target as int, idx as int, tx_action) == conflict_before(
                txs@,
                target as int,
                i as int,
                tx_action,
            ),
        ensures
            n == txs@.len(),
            back == conflict_before(txs@, target as int, idx as int, tx_action),
        decreases i,
    {
        let tx = &txs[i - 1];
        let d = tx.trade_date.to_julian_day();
        if (target as i64) - (d as i64) > 1 {
            break;
        }
        if tx.action() == tx_action && !tx.affiliate.is_global() {
            back = true;
            break;
        }
        i -= 1;
    }
    if back {
        return true;
    }
    let mut j: usize = idx + 1;
    while j < txs.len()
        invariant
            !back,
            !conflict_before(txs@, target as int, idx as int, tx_action),
            idx < j <= txs@.len(),
            target == trade_day(txs@[idx as int]),
            conflict_after(txs@, target as int, idx + 1, tx_action) == conflict_after(
                txs@,
                target as int,
                j as int,
                tx_action,
            ),
        decreases txs@.len() - j,
    {
        let tx = &txs[j];
        let d = tx.trade_date.to_julian_day();
        if (d as i64) - (target as i64) > 1 {
            return false;
        }
        if tx.action() == tx_action && !tx.affiliate.is_global() {
            return true;
        }
        j += 1;
    }
    false
}

/// A return of capital given per held share.
pub open spec fn is_per_share_dist_spec(t: Tx) -> bool {
    t.action_specifics matches TxActionSpecifics::Roc(r) && r.amount is AmountPerShare
}

pub fn is_per_share_dist(tx: &Tx) -> (r: bool)
    ensures
        r == is_per_share_dist_spec(*tx),
{
    match &tx.action_specifics {
        TxActionSpecifics::Roc(d) => d.amount_per_held_share().is_some(),
        _ => false,
    }
}

/// A split or per share distribution given for the global affiliate.
pub open spec fn is_global_candidate(t: Tx) -> bool {
    is_global_af(t) && (t.action_specifics is Split || is_per_share_dist_spec(t))
}

/// The first global candidate from `i` on that has a conflict.
pub open spec fn first_conflict(txs: Seq<Tx>, i: int) -> Option<int>
    decreases txs.len() - i,
{
    if i < 0 || i >= txs.len() {
        None
    } else if is_global_candidate(txs[i]) && has_conflict(txs, i, txs[i].spec_action()) {
        Some(i)
    } else {
        first_conflict(txs, i + 1)
    }
}

pub open spec fn conflict_message(t: Tx) -> Seq<char> {
    "Found non-global "@ + action_pretty(t.spec_action()) + " of "@ + t.security@
        + " near global "@ + action_pretty(t.spec_action()) + " on "@ + date_display(
        trade_day(t),
    ) + ". This likely indicates duplicate entries. Manually specify Default if this is intentional."@
}

/// The affiliates a global candidate is given to: all non-global ones for a
/// split, the non-registered ones for a distribution, or the default one
/// where there are none.
pub open spec fn expansion_affiliates(txs: Seq<Tx>, t: Tx) -> Seq<AffiliateView> {
    let all = non_global_affiliates(txs).map_values(|a: Affiliate| a@);
    let base = if t.action_specifics is Split {
        all
    } else {
        all.filter(|a: AffiliateView| !a.registered)
    };
    if base.len() == 0 {
        seq![Affiliate::default_view()]
    } else {
        base
    }
}

/// Each transaction of the result, as a transaction of the input and the
/// affiliate it is given to (`None`: unchanged).
pub open spec fn expansion(txs: Seq<Tx>, prefix: Seq<Tx>) -> Seq<(Tx, Option<AffiliateView>)>
    decreases prefix.len(),
{
    if prefix.len() == 0 {
        Seq::empty()
    } else {
        let t = prefix.last();
        expansion(txs, prefix.drop_last()) + if is_global_candidate(t) {
            expansion_affiliates(txs, t).map_values(|a: AffiliateView| (t, Some(a)))
        } else {
            seq![(t, None::<AffiliateView>)]
        }
    }
}

/// `out` is the expansion `e`: unchanged transactions as they were, and
/// copies with only the affiliate replaced.
pub open spec fn matches_expansion(out: Seq<Tx>, e: Seq<(Tx, Option<AffiliateView>)>) -> bool {
    &&& out.len() == e.len()
    &&& forall|k: int|
        0 <= k < out.len() ==> match (#[trigger] e[k]).1 {
            None => out[k] == e[k].0,
            Some(a) => out[k] == (Tx { affiliate: out[k].affiliate, ..e[k].0 }) && out[k].affiliate@
                == a,
        }
}

/// `t` given to the affiliate `a`.
pub open spec fn with_affiliate(t: Tx, a: Affiliate) -> Tx {
    Tx { affiliate: a, ..t }
}

fn expansion_list(txs: &Vec<Tx>, afs: &Vec<Affiliate>, tx: &Tx) -> (r: Vec<Affiliate>)
    requires
        afs@ == non_global_affiliates(txs@),
    ensures
        r@.map_values(|a: Affiliate| a@) == expansion_affiliates(txs@, *tx),
{
    let ghost all = non_global_affiliates(txs@).map_values(|a: Affiliate| a@);
    let is_split = match &tx.action_specifics {
        TxActionSpecifics::Split(_) => true,
        _ => false,
    };
    let mut out: Vec<Affiliate> = Vec::new();
    let mut i: usize = 0;
    let ghost pred = |a: AffiliateView| !a.registered;
    while i < afs.len()
        invariant
            i <= afs@.len(),
            afs@ == non_global_affiliates(txs@),
            all == afs@.map_values(|a: Affiliate| a@),
            is_split == tx.action_specifics is Split,
            pred == (|a: AffiliateView| !a.registered),
            is_split ==> out@.map_values(|a: Affiliate| a@) == all.subrange(0, i as int),
            !is_split ==> out@.map_values(|a: Affiliate| a@) == all.subrange(0, i as int).filter(pred),
        decreases afs@.len() - i,
    {
        proof {
            assert(all.subrange(0, i + 1) =~= all.subrange(0, i as int).push(all[i as int]));
            all.subrange(0, i as int).lemma_filter_push(all[i as int], pred);
            assert(all[i as int] == afs@[i as int]@);
        }
        if is_split || !afs[i].registered() {
            let ghost old_out = out@;
            out.push(afs[i].clone());
            proof {
                assert(out@.map_values(|a: Affiliate| a@) =~= old_out.map_values(|a: Affiliate| a@).push(
                    all[i as int],
                ));
            }
        }
        i += 1;
    }
    proof {
        assert(all.subrange(0, afs@.len() as int) =~= all);
    }
    if out.len() == 0 {
        out.push(Affiliate::default());
        proof {
            assert(out@.map_values(|a: Affiliate| a@) =~= seq![Affiliate::default_view()]);
        }
    }
    out
}

/// Replaces each split and per share distribution of the global affiliate in
/// the (sorted) transactions of one security with one copy per affiliate
/// (see `expansion_affiliates`), in place. Fails, leaving the transactions
/// as they were, where such a transaction has a non-global one of the same
/// action within a day: that most likely means duplicate entries.
pub fn replace_global_security_txs(sorted_security_txs: &mut Vec<Tx>) -> (r: Result<(), String>)
    ensures
        first_conflict(old(sorted_security_txs)@, 0) matches Some(i) ==> {
            &&& r matches Err(e) && e@ == conflict_message(old(sorted_security_txs)@[i])
            &&& final(sorted_security_txs)@ == old(sorted_security_txs)@
        },
        first_conflict(old(sorted_security_txs)@, 0) is None ==> {
            &&& r is Ok
            &&& matches_expansion(
                final(sorted_security_txs)@,
                expansion(old(sorted_security_txs)@, old(sorted_security_txs)@),
            )
        },
{
    let ghost orig = sorted_security_txs@;
    let n = sorted_security_txs.len();
    let mut i: usize = 0;
    while i < n
        invariant
            n == orig.len(),
            sorted_security_txs@ == orig,
            i <= n,
            first_conflict(orig, 0) == first_conflict(orig, i as int),
        decreases n - i,
    {
        let tx = &sorted_security_txs[i];
        let global = tx.affiliate.is_global();
        let is_split = match &tx.action_specifics {
            TxActionSpecifics::Split(_) => true,
            _ => false,
        };
        if global && (is_split || is_per_share_dist(tx)) {
            let action = tx.action();
            if has_non_global_conflicting_surrounding_tx(sorted_security_txs, i, action) {
                let mut msg = String::from_str("Found non-global ");
                msg.append(action.pretty_str());
                msg.append(" of ");
                msg.append(tx.security.as_str());
                msg.append(" near global ");
                msg.append(action.pretty_str());
                msg.append(" on ");
                msg.append(tx.trade_date.to_string().as_str());
                msg.append(
                    ". This likely indicates duplicate entries. Manually specify Default if this is intentional.",
                );
                return Err(msg);
            }
        }
        i += 1;
    }
    let afs = find_all_non_global_affiliates(sorted_security_txs);
    let mut old_txs: Vec<Tx> = Vec::new();
    std::mem::swap(&mut old_txs, sorted_security_txs);
    let mut out: Vec<Tx> = Vec::new();
    let mut j: usize = 0;
    proof {
        assert(orig.subrange(0, 0) =~= Seq::<Tx>::empty());
    }
    while j < old_txs.len()
        invariant
            old_txs@ == orig,
            afs@ == non_global_affiliates(orig),
            j <= orig.len(),
            matches_expansion(out@, expansion(orig, orig.subrange(0, j as int))),
        decreases orig.len() - j,
    {
        let ghost prefix = orig.subrange(0, j + 1);
        proof {
            assert(prefix.drop_last() =~= orig.subrange(0, j as int));
        }
        let tx = &old_txs[j];
        let global = tx.affiliate.is_global();
        let is_split = match &tx.action_specifics {
            TxActionSpecifics::Split(_) => true,
            _ => false,
        };
        let ghost before = expansion(orig, orig.subrange(0, j as int));
        let ghost old_out = out@;
        if global && (is_split || is_per_share_dist(tx)) {
            let list = expansion_list(&old_txs, &afs, tx);
            let ghost piece = expansion_affiliates(orig, *tx).map_values(
                |a: AffiliateView| (*tx, Some(a)),
            );
            let mut k: usize = 0;
            while k < list.len()
                invariant
                    k <= list@.len(),
                    old_out.len() == before.len(),
                    list@.map_values(|a: Affiliate| a@) == expansion_affiliates(orig, *tx),
                    piece == expansion_affiliates(orig, *tx).map_values(
                        |a: AffiliateView| (*tx, Some(a)),
                    ),
                    out@.len() == old_out.len() + k,
                    forall|m: int| 0 <= m < old_out.len() ==> out@[m] == old_out[m],
                    forall|q: int|
                        old_out.len() <= q < out@.len() ==> #[trigger] out@[q] == with_affiliate(
                            *tx,
                            list@[q - old_out.len()],
                        ),
                decreases list@.len() - k,
            {
                let mut copy = tx.clone_tx();
                copy.affiliate = list[k].clone();
                let ghost c = copy;
                let ghost before_push = out@;
                out.push(copy);
                proof {
                    assert(out@[old_out.len() + k] == c);
                    assert(c.affiliate == list@[k as int]);
                    assert(c == with_affiliate(*tx, list@[k as int]));
                    assert forall|m: int| 0 <= m < old_out.len() implies out@[m] == old_out[m] by {
                        assert(out@[m] == before_push[m]);
                    }
                    assert forall|q: int| old_out.len() <= q < out@.len() implies #[trigger] out@[q]
                        == with_affiliate(*tx, list@[q - old_out.len()]) by {
                        if q < out@.len() - 1 {
                            assert(out@[q] == before_push[q]);
                        }
                    }
                }
                k += 1;
            }
            proof {
                let e = before + piece;
                assert(expansion(orig, prefix) == e);
                assert forall|m: int| 0 <= m < out@.len() implies match (#[trigger] e[m]).1 {
                    None => out@[m] == e[m].0,
                    Some(a) => out@[m] == (Tx { affiliate: out@[m].affiliate, ..e[m].0 })
                        && out@[m].affiliate@ == a,
                } by {
                    if m < old_out.len() {
                        assert(e[m] == before[m]);
                    } else {
                        let q = m - old_out.len();
                        assert(e[m] == piece[q]);
                        assert(list@.map_values(|a: Affiliate| a@)[q] == list@[q]@);
                        assert(out@[m] == with_affiliate(*tx, list@[q]));
                    }
                }
            }
        } else {
            out.push(tx.clone_tx());
            proof {
                let e = before + seq![(*tx, None::<AffiliateView>)];
                assert(expansion(orig, prefix) == e);
                assert forall|m: int| 0 <= m < out@.len() implies match (#[trigger] e[m]).1 {
                    None => out@[m] == e[m].0,
                    Some(a) => out@[m] == (Tx { affiliate: out@[m].affiliate, ..e[m].0 })
                        && out@[m].affiliate@ == a,
                } by {
                    if m < old_out.len() {
                        assert(e[m] == before[m]);
                    }
                }
            }
        }
        j += 1;
    }
    proof {
        assert(orig.subrange(0, orig.len() as int) =~= orig);
    }
    *sorted_security_txs = out;
    Ok(())
}

} // verus!
