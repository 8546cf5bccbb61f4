//! Summaries: a few transactions that stand for the history of a security up
//! to a date, with the transactions that cannot be summarized kept as they
//! were.

use vstd::prelude::*;
use crate::portfolio::bookkeeping::superficial_loss::{
    get_first_day_in_superficial_loss_period, get_last_day_in_superficial_loss_period,
};
use crate::portfolio::affiliate::{Affiliate, AffiliateView};
use crate::portfolio::currency::CurrencyAndExchangeRate;
use crate::portfolio::tx::{
    clone_opt_rate, clone_rate, BuyTxSpecifics, SFLInput, SellTxSpecifics, Tx, TxActionSpecifics,
};
use crate::portfolio::txdelta::TxDelta;
use crate::util::date::{calendar_date, clamp_day, date_display, date_year, today_local, Date};
use crate::util::decimal::{
    decimal_checked_add, decimal_checked_div, decimal_checked_mul, Dec, GreaterEqualZeroDecimal,
    PosDecimal,
};
use crate::util::text::{chars_lt, int_display, int_to_string, str_lt};

verus! {

pub open spec fn settle_day(d: TxDelta) -> int {
    d.tx.settlement_date.day_number()
}

pub open spec fn is_sfl_delta(d: TxDelta) -> bool {
    d.sfl is Some && d.sfl->0.superficial_loss.mant() != 0
}

/// The index of the first delta from `i` on settled after `latest` (the
/// length where there is none).
pub open spec fn first_settled_after(ds: Seq<TxDelta>, latest: int, i: nat) -> nat
    decreases ds.len() - i,
{
    if i >= ds.len() {
        ds.len()
    } else if settle_day(ds[i as int]) > latest {
        i
    } else {
        first_settled_after(ds, latest, i + 1)
    }
}

/// The index of the first superficial loss from `i` on.
pub open spec fn first_sfl_from(ds: Seq<TxDelta>, i: nat) -> Option<nat>
    decreases ds.len() - i,
{
    if i >= ds.len() {
        None
    } else if is_sfl_delta(ds[i as int]) {
        Some(i)
    } else {
        first_sfl_from(ds, i + 1)
    }
}

/// Going back from `i`: the first delta settled before `period_start`, where
/// each superficial loss met on the way moves `period_start` to the start of
/// its own period.
pub open spec fn last_settled_before(ds: Seq<TxDelta>, i: int, period_start: int) -> Option<nat>
    decreases i + 1,
{
    if i < 0 || i >= ds.len() {
        None
    } else if settle_day(ds[i]) < period_start {
        Some(i as nat)
    } else {
        last_settled_before(
            ds,
            i - 1,
            if is_sfl_delta(ds[i]) {
                clamp_day(settle_day(ds[i]) - 30)
            } else {
                period_start
            },
        )
    }
}

/// The deltas that a summary up to `latest` covers.
pub struct SummaryRanges {
    /// The last delta settled on or before the summary date.
    pub latest_delta_in_summary_range_idx: usize,
    /// The last delta that no later superficial loss can depend on.
    pub latest_summarizable_delta_idx: Option<usize>,
}

/// `None` where no delta settles on or before `latest`; else the last one
/// that does, and the last that can be summarized: where a superficial loss
/// after the range has a period reaching back into it, the last delta settled
/// before that period (and before the period of every superficial loss met
/// going back).
pub open spec fn summary_ranges_spec(ds: Seq<TxDelta>, latest: int) -> Option<(nat, Option<nat>)> {
    let end = first_settled_after(ds, latest, 0);
    if end == 0 {
        None
    } else {
        let last_in = (end - 1) as nat;
        match first_sfl_from(ds, last_in + 1) {
            Some(k) => {
                let period_start = clamp_day(settle_day(ds[k as int]) - 30);
                if settle_day(ds[last_in as int]) >= period_start {
                    Some((last_in, last_settled_before(ds, last_in as int, period_start)))
                } else {
                    Some((last_in, Some(last_in)))
                }
            },
            None => Some((last_in, Some(last_in))),
        }
    }
}

proof fn lemma_first_settled_after_bounds(ds: Seq<TxDelta>, latest: int, i: nat)
    requires
        i <= ds.len(),
    ensures
        i <= first_settled_after(ds, latest, i) <= ds.len(),
        forall|j: int|
            i <= j < first_settled_after(ds, latest, i) ==> settle_day(#[trigger] ds[j]) <= latest,
    decreases ds.len() - i,
{
    if i < ds.len() && settle_day(ds[i as int]) <= latest {
        lemma_first_settled_after_bounds(ds, latest, i + 1);
    }
}

proof fn lemma_first_sfl_from_bounds(ds: Seq<TxDelta>, i: nat)
    ensures
        first_sfl_from(ds, i) matches Some(k) ==> i <= k < ds.len() && is_sfl_delta(ds[k as int]),
    decreases ds.len() - i,
{
    if i < ds.len() && !is_sfl_delta(ds[i as int]) {
        lemma_first_sfl_from_bounds(ds, i + 1);
    }
}

proof fn lemma_last_settled_before_bounds(ds: Seq<TxDelta>, i: int, period_start: int)
    ensures
        last_settled_before(ds, i, period_start) matches Some(k) ==> k <= i && k < ds.len(),
    decreases i + 1,
{
    if 0 <= i < ds.len() && settle_day(ds[i]) >= period_start {
        lemma_last_settled_before_bounds(
            ds,
            i - 1,
            if is_sfl_delta(ds[i]) {
                clamp_day(settle_day(ds[i]) - 30)
            } else {
                period_start
            },
        );
    }
}

/// Which deltas a summary up to `latest_date` can cover (see
/// `summary_ranges_spec`).
pub fn get_summary_range_delta_indicies(latest_date: Date, deltas: &Vec<TxDelta>) -> (r: Option<
    SummaryRanges,
>)
    ensures
        r matches Some(sr) ==> summary_ranges_spec(deltas@, latest_date.day_number()) == Some(
            (
                sr.latest_delta_in_summary_range_idx as nat,
                match sr.latest_summarizable_delta_idx {
                    Some(x) => Some(x as nat),
                    None => None::<nat>,
                },
            ),
        ),
        r is None <==> summary_ranges_spec(deltas@, latest_date.day_number()) is None,
        r matches Some(sr) ==> sr.latest_delta_in_summary_range_idx < deltas@.len(),
        r matches Some(sr) ==> (sr.latest_summarizable_delta_idx matches Some(x) ==> x
            <= sr.latest_delta_in_summary_range_idx),
{
    let ghost ds = deltas@;
    let ghost latest = latest_date.day_number();
    let n = deltas.len();
    let mut end: usize = 0;
    while end < n
        invariant_except_break
            ds == deltas@,
            latest == latest_date.day_number(),
            n == ds.len(),
            end <= n,
            first_settled_after(ds, latest, 0) == first_settled_after(ds, latest, end as nat),
        ensures
            end <= n,
            first_settled_after(ds, latest, 0) == end,
        decreases n - end,
    {
        if latest_date.before(&deltas[end].tx.settlement_date) {
            break;
        }
        end += 1;
    }
    if end == 0 {
        return None;
    }
    let last_in = end - 1;
    let latest_in_summary_date = deltas[last_in].tx.settlement_date;
    let mut overlaps = false;
    let mut period_start: Date = latest_in_summary_date;
    let mut k: usize = end;
    while k < n
        invariant_except_break
            ds == deltas@,
            latest == latest_date.day_number(),
            n == ds.len(),
            end <= k <= n,
            last_in == end - 1,
            latest_in_summary_date == ds[last_in as int].tx.settlement_date,
            !overlaps,
            first_sfl_from(ds, end as nat) == first_sfl_from(ds, k as nat),
        ensures
            k <= n,
            match first_sfl_from(ds, end as nat) {
                Some(j) => overlaps == (settle_day(ds[last_in as int]) >= clamp_day(
                    settle_day(ds[j as int]) - 30,
                )) && period_start.day_number() == clamp_day(settle_day(ds[j as int]) - 30),
                None => !overlaps,
            },
        decreases n - k,
    {
        if deltas[k].is_superficial_loss() {
            period_start = get_first_day_in_superficial_loss_period(deltas[k].tx.settlement_date);
            overlaps = !latest_in_summary_date.before(&period_start);
            break;
        }
        k += 1;
    }
    if !overlaps {
        return Some(
            SummaryRanges {
                latest_delta_in_summary_range_idx: last_in,
                latest_summarizable_delta_idx: Some(last_in),
            },
        );
    }
    let ghost start0 = period_start.day_number();
    let mut i: usize = end;
    let mut found: Option<usize> = None;
    while i > 0
        invariant_except_break
            ds == deltas@,
            latest == latest_date.day_number(),
            n == ds.len(),
            i <= end <= n,
            last_in == end - 1,
            found is None,
            last_settled_before(ds, last_in as int, start0) == last_settled_before(
                ds,
                i - 1,
                period_start.day_number(),
            ),
        ensures
            last_settled_before(ds, last_in as int, start0) == match found {
                Some(x) => Some(x as nat),
                None => None::<nat>,
            },
            found matches Some(x) ==> x <= last_in,
        decreases i,
    {
        let d = &deltas[i - 1];
        if d.tx.settlement_date.before(&period_start) {
            found = Some(i - 1);
            break;
        }
        if d.is_superficial_loss() {
            period_start = get_first_day_in_superficial_loss_period(d.tx.settlement_date);
        }
        i -= 1;
    }
    Some(
        SummaryRanges {
            latest_delta_in_summary_range_idx: last_in,
            latest_summarizable_delta_idx: found,
        },
    )
}

/// The warning where the summarized affiliate holds no shares.
pub const SHARE_BALANCE_ZERO_WARNING: &'static str =
    "Share balance at the end of the summarized period was zero";

/// The error where a summary amount does not fit a decimal, or a summary date
/// is out of the supported range.
pub const SUMMARY_OVERFLOW_ERROR: &'static str = "Summary amount or date out of range";

pub open spec fn zero_dec() -> Dec {
    Dec::spec_new(0, 0)
}

/// `t` is a summary buy of `shares` at `aps` a share, on `day`, in CAD with no
/// commission.
pub open spec fn is_summary_buy(
    t: Tx,
    security: Seq<char>,
    day: int,
    shares: Dec,
    aps: Dec,
    memo: Seq<char>,
    af: AffiliateView,
) -> bool {
    &&& t.security@ == security
    &&& t.trade_date.day_number() == day
    &&& t.settlement_date.day_number() == day
    &&& t.action_specifics matches TxActionSpecifics::Buy(b) && {
        &&& b.shares@ == shares
        &&& b.amount_per_share@ == aps
        &&& b.commission@ == zero_dec()
        &&& b.tx_currency_and_rate.currency@ == "CAD"@
        &&& b.tx_currency_and_rate.exchange_rate@ == Dec::spec_new(1, 0)
        &&& b.separate_commission_currency is None
    }
    &&& t.memo@ == memo
    &&& t.affiliate@ == af
    &&& t.read_index == 0
}

/// `t` is a summary sale of one share at `aps`, with `commission`, on `day`.
pub open spec fn is_summary_sell(
    t: Tx,
    security: Seq<char>,
    day: int,
    aps: Dec,
    commission: Dec,
    memo: Seq<char>,
    af: AffiliateView,
) -> bool {
    &&& t.security@ == security
    &&& t.trade_date.day_number() == day
    &&& t.settlement_date.day_number() == day
    &&& t.action_specifics matches TxActionSpecifics::Sell(b) && {
        &&& b.shares@ == Dec::spec_new(1, 0)
        &&& b.amount_per_share@ == aps
        &&& b.commission@ == commission
        &&& b.tx_currency_and_rate.currency@ == "CAD"@
        &&& b.tx_currency_and_rate.exchange_rate@ == Dec::spec_new(1, 0)
        &&& b.separate_commission_currency is None
        &&& b.specified_superficial_loss is None
    }
    &&& t.memo@ == memo
    &&& t.affiliate@ == af
    &&& t.read_index == 0
}

/// The ACB a share after the delta at `idx`: `None` without an ACB, zero
/// without shares, else the total over the shares (`None` inside where that
/// overflows).
pub open spec fn acb_per_share_after(d: TxDelta) -> Option<Option<Dec>> {
    match d.post_status.total_acb {
        None => None,
        Some(a) => if d.post_status.share_balance@.mant() > 0 {
            Some(decimal_checked_div(a@, d.post_status.share_balance@))
        } else {
            Some(Some(zero_dec()))
        },
    }
}

/// The simple summary fails: the ACB a share overflows.
pub open spec fn simple_fails(d: TxDelta) -> bool {
    d.post_status.share_balance@.mant() > 0 && acb_per_share_after(d) == Some(None::<Dec>)
}

/// The simple summary of `af` after `d`: one buy of the shares held at their
/// ACB a share, or a warning where none are held.
pub open spec fn simple_ok(af: AffiliateView, d: TxDelta, txs: Seq<Tx>, warns: Seq<String>) -> bool {
    let sb = d.post_status.share_balance@;
    if sb.mant() > 0 {
        &&& warns.len() == 0
        &&& txs.len() == 1
        &&& is_summary_buy(
            txs[0],
            d.tx.security@,
            d.tx.settlement_date.day_number(),
            sb,
            match acb_per_share_after(d) {
                Some(Some(aps)) => aps,
                _ => zero_dec(),
            },
            "Summary"@,
            af,
        )
    } else {
        txs.len() == 0 && warns.len() == 1 && warns[0]@ == SHARE_BALANCE_ZERO_WARNING@
    }
}

fn buy_tx(
    security: &String,
    date: Date,
    shares: PosDecimal,
    aps: GreaterEqualZeroDecimal,
    memo: &str,
    af: &Affiliate,
) -> (r: Tx)
    ensures
        is_summary_buy(r, security@, date.day_number(), shares@, aps@, memo@, af@),
{
    Tx {
        security: security.clone(),
        trade_date: date,
        settlement_date: date,
        action_specifics: TxActionSpecifics::Buy(
            BuyTxSpecifics {
                shares,
                amount_per_share: aps,
                commission: GreaterEqualZeroDecimal::zero(),
                tx_currency_and_rate: CurrencyAndExchangeRate::default(),
                separate_commission_currency: None,
            },
        ),
        memo: memo.to_string(),
        affiliate: af.clone(),
        read_index: 0,
    }
}

/// One buy of the shares held after the delta at `idx`, at their ACB a
/// share, on its settlement date; or no transaction and a warning where no
/// shares are held. Fails where the ACB a share overflows.
pub fn make_simple_summary_txs(
    af: &Affiliate,
    deltas: &Vec<TxDelta>,
    latest_summarizable_delta_idx: usize,
) -> (r: Result<(Vec<Tx>, Vec<String>), String>)
    requires
        latest_summarizable_delta_idx < deltas@.len(),
    ensures
        r is Err <==> simple_fails(deltas@[latest_summarizable_delta_idx as int]),
        r is Err ==> r->Err_0@ == SUMMARY_OVERFLOW_ERROR@,
        r is Ok ==> simple_ok(
            af@,
            deltas@[latest_summarizable_delta_idx as int],
            r->Ok_0.0@,
            r->Ok_0.1@,
        ),
{
    let d = &deltas[latest_summarizable_delta_idx];
    let tx = &d.tx;
    let post = &d.post_status;
    match PosDecimal::try_from(post.share_balance.get()) {
        Ok(share_balance) => {
            let aps = match post.total_acb {
                Some(total_acb) => match total_acb.checked_div(share_balance) {
                    Some(x) => x,
                    None => {
                        return Err(SUMMARY_OVERFLOW_ERROR.to_string());
                    },
                },
                None => GreaterEqualZeroDecimal::zero(),
            };
            let summary_tx = buy_tx(
                &tx.security,
                tx.settlement_date,
                share_balance,
                aps,
                "Summary",
                af,
            );
            Ok((vec![summary_tx], Vec::new()))
        },
        Err(_) => Ok((Vec::new(), vec![SHARE_BALANCE_ZERO_WARNING.to_string()])),
    }
}

pub open spec fn gain_of(d: TxDelta) -> Dec {
    match d.capital_gain {
        Some(g) => g,
        None => zero_dec(),
    }
}

pub open spec fn delta_year(d: TxDelta) -> i32 {
    date_year(settle_day(d))
}

/// Where the year `y` stands in the list (-1: absent).
pub open spec fn year_pos(s: Seq<(i32, Dec)>, y: i32) -> int
    decreases s.len(),
{
    if s.len() == 0 {
        -1
    } else if s.last().0 == y {
        s.len() - 1
    } else {
        year_pos(s.drop_last(), y)
    }
}

/// `g` added to the year's total (started at zero); `None` on overflow.
pub open spec fn add_gain(s: Seq<(i32, Dec)>, y: i32, g: Dec) -> Option<Seq<(i32, Dec)>> {
    let k = year_pos(s, y);
    if k < 0 {
        match decimal_checked_add(zero_dec(), g) {
            Some(t) => Some(s.push((y, t))),
            None => None,
        }
    } else {
        match decimal_checked_add(s[k].1, g) {
            Some(t) => Some(s.update(k, (y, t))),
            None => None,
        }
    }
}

/// The yearly totals of the non-zero gains of `af` in the first `n` deltas,
/// years in the order first met; `None` where a total overflows.
pub open spec fn gains_upto(ds: Seq<TxDelta>, af: AffiliateView, n: nat) -> Option<
    Seq<(i32, Dec)>,
>
    decreases n,
{
    if n == 0 {
        Some(Seq::empty())
    } else {
        match gains_upto(ds, af, (n - 1) as nat) {
            None => None,
            Some(s) => {
                let d = ds[n - 1];
                if d.tx.affiliate@.id == af.id && gain_of(d).mant() != 0 {
                    add_gain(s, delta_year(d), gain_of(d))
                } else {
                    Some(s)
                }
            },
        }
    }
}

/// `p` put before the first entry of a later year.
pub open spec fn insert_year(s: Seq<(i32, Dec)>, p: (i32, Dec)) -> Seq<(i32, Dec)>
    decreases s.len(),
{
    if s.len() == 0 {
        seq![p]
    } else if p.0 < s[0].0 {
        seq![p] + s
    } else {
        seq![s[0]] + insert_year(s.drop_first(), p)
    }
}

/// The entries ordered by year (a stable insertion sort).
pub open spec fn sort_years(s: Seq<(i32, Dec)>) -> Seq<(i32, Dec)>
    decreases s.len(),
{
    if s.len() == 0 {
        s
    } else {
        insert_year(sort_years(s.drop_last()), s.last())
    }
}

/// The last of the first `n` deltas of `af` settled in the year `y`.
pub open spec fn last_in_year(ds: Seq<TxDelta>, af: AffiliateView, n: int, y: i32) -> Option<nat>
    decreases n,
{
    if n <= 0 || n > ds.len() {
        None
    } else if ds[n - 1].tx.affiliate@.id == af.id && delta_year(ds[n - 1]) == y {
        Some((n - 1) as nat)
    } else {
        last_in_year(ds, af, n - 1, y)
    }
}

/// The gain and the loss that a year's total stands for: a negative total is
/// a loss of its magnitude (`None`: the sign change overflows).
pub open spec fn gain_and_loss(g: Dec) -> Option<(Dec, Dec)> {
    if g.mant() < 0 {
        match decimal_checked_mul(g, Dec::spec_new(-1, 0)) {
            Some(l) => Some((zero_dec(), l)),
            None => None,
        }
    } else {
        Some((g, zero_dec()))
    }
}

/// The amount a share of the summary sale of a year: the base ACB a share
/// plus the gain (zero without an ACB); `None` on overflow.
pub open spec fn sale_amount(base: Option<Dec>, gain: Dec) -> Option<Dec> {
    match base {
        Some(aps) => decimal_checked_add(aps, gain),
        None => Some(zero_dec()),
    }
}

pub open spec fn gain_memo(y: i32) -> Seq<char> {
    int_display(y as int) + " gain summary (sell)"@
}

proof fn lemma_year_pos_bounds(s: Seq<(i32, Dec)>, y: i32)
    ensures
        -1 <= year_pos(s, y) < s.len(),
        year_pos(s, y) >= 0 ==> s[year_pos(s, y)].0 == y,
        year_pos(s, y) < 0 ==> forall|j: int| 0 <= j < s.len() ==> s[j].0 != y,
    decreases s.len(),
{
    if s.len() > 0 && s.last().0 != y {
        lemma_year_pos_bounds(s.drop_last(), y);
        assert forall|j: int| 0 <= j < s.len() - 1 implies s[j] == s.drop_last()[j] by {}
    }
}

proof fn lemma_gains_have_deltas(ds: Seq<TxDelta>, af: AffiliateView, n: nat)
    requires
        n <= ds.len(),
    ensures
        gains_upto(ds, af, n) matches Some(s) ==> forall|k: int|
            0 <= k < s.len() ==> (#[trigger] last_in_year(ds, af, n as int, s[k].0)) is Some,
    decreases n,
{
    if n > 0 {
        lemma_gains_have_deltas(ds, af, (n - 1) as nat);
        match gains_upto(ds, af, (n - 1) as nat) {
            None => {},
            Some(s0) => {
                let d = ds[n - 1];
                lemma_year_pos_bounds(s0, delta_year(d));
                if let Some(s) = gains_upto(ds, af, n) {
                    assert forall|k: int| 0 <= k < s.len() implies (#[trigger] last_in_year(
                        ds,
                        af,
                        n as int,
                        s[k].0,
                    )) is Some by {
                        if s[k].0 != delta_year(d) || d.tx.affiliate@.id != af.id {
                            if k < s0.len() {
                                assert(s[k].0 == s0[k].0);
                                assert(last_in_year(ds, af, n - 1, s0[k].0) is Some);
                            }
                        }
                    }
                }
            },
        }
    }
}

proof fn lemma_gains_none_stays(ds: Seq<TxDelta>, af: AffiliateView, m: nat, n: nat)
    requires
        m <= n,
        gains_upto(ds, af, m) is None,
    ensures
        gains_upto(ds, af, n) is None,
    decreases n,
{
    if n > m {
        lemma_gains_none_stays(ds, af, m, (n - 1) as nat);
    }
}

proof fn lemma_insert_year_at(s: Seq<(i32, Dec)>, p: (i32, Dec), pos: int)
    requires
        0 <= pos <= s.len(),
        forall|j: int| 0 <= j < pos ==> !(p.0 < #[trigger] s[j].0),
        pos < s.len() ==> p.0 < s[pos].0,
    ensures
        insert_year(s, p) == s.insert(pos, p),
    decreases s.len(),
{
    if s.len() == 0 {
        assert(s.insert(pos, p) =~= seq![p]);
    } else if pos == 0 {
        assert(s.insert(pos, p) =~= seq![p] + s);
    } else {
        let t = s.drop_first();
        assert forall|j: int| 0 <= j < pos - 1 implies !(p.0 < #[trigger] t[j].0) by {
            assert(t[j] == s[j + 1]);
        }
        lemma_insert_year_at(t, p, pos - 1);
        assert(s.insert(pos, p) =~= seq![s[0]] + t.insert(pos - 1, p));
    }
}

/// The yearly totals of the gains of `af` over the deltas up to `n`.
fn collect_gains(af: &Affiliate, deltas: &Vec<TxDelta>, n: usize) -> (r: Option<Vec<(i32, Dec)>>)
    requires
        n <= deltas@.len(),
    ensures
        match gains_upto(deltas@, af@, n as nat) {
            Some(s) => r is Some && r->0@ == s,
            None => r is None,
        },
{
    let mut gains: Vec<(i32, Dec)> = Vec::new();
    let mut i: usize = 0;
    while i < n
        invariant
            i <= n <= deltas@.len(),
            gains_upto(deltas@, af@, i as nat) == Some(gains@),
        decreases n - i,
    {
        let d = &deltas[i];
        let g = match d.capital_gain {
            Some(g) => g,
            None => Dec::zero(),
        };
        if d.tx.affiliate == *af && !g.is_zero() {
            let year = d.tx.settlement_date.year();
            let mut k: usize = gains.len();
            let mut pos: Option<usize> = None;
            proof {
                assert(gains@.subrange(0, gains@.len() as int) =~= gains@);
            }
            while k > 0
                invariant_except_break
                    k <= gains@.len(),
                    pos is None,
                    year_pos(gains@, year) == year_pos(gains@.subrange(0, k as int), year),
                ensures
                    match pos {
                        Some(p) => year_pos(gains@, year) == p,
                        None => year_pos(gains@, year) == -1,
                    },
                decreases k,
            {
                proof {
                    assert(gains@.subrange(0, k as int).drop_last() =~= gains@.subrange(
                        0,
                        k - 1,
                    ));
                }
                if gains[k - 1].0 == year {
                    pos = Some(k - 1);
                    break;
                }
                k -= 1;
            }
            proof {
                lemma_year_pos_bounds(gains@, year);
            }
            match pos {
                Some(p) => {
                    let prev = gains[p].1;
                    match prev.checked_add(&g) {
                        Some(t) => {
                            gains.set(p, (year, t));
                        },
                        None => {
                            proof {
                                lemma_gains_none_stays(deltas@, af@, (i + 1) as nat, n as nat);
                            }
                            return None;
                        },
                    }
                },
                None => {
                    let z = Dec::zero();
                    match z.checked_add(&g) {
                        Some(t) => {
                            gains.push((year, t));
                        },
                        None => {
                            proof {
                                lemma_gains_none_stays(deltas@, af@, (i + 1) as nat, n as nat);
                            }
                            return None;
                        },
                    }
                },
            }
        }
        i += 1;
    }
    Some(gains)
}

/// The totals ordered by year.
fn sort_gains(gains: &Vec<(i32, Dec)>) -> (r: Vec<(i32, Dec)>)
    ensures
        r@ == sort_years(gains@),
{
    let mut out: Vec<(i32, Dec)> = Vec::new();
    let mut i: usize = 0;
    while i < gains.len()
        invariant
            i <= gains@.len(),
            out@ == sort_years(gains@.subrange(0, i as int)),
        decreases gains@.len() - i,
    {
        let p = gains[i];
        let mut pos: usize = 0;
        while pos < out.len() && !(p.0 < out[pos].0)
            invariant
                pos <= out@.len(),
                forall|j: int| 0 <= j < pos ==> !(p.0 < #[trigger] out@[j].0),
            decreases out@.len() - pos,
        {
            pos += 1;
        }
        proof {
            lemma_insert_year_at(out@, p, pos as int);
            assert(gains@.subrange(0, i + 1).drop_last() =~= gains@.subrange(0, i as int));
        }
        out.insert(pos, p);
        i += 1;
    }
    proof {
        assert(gains@.subrange(0, gains@.len() as int) =~= gains@);
    }
    out
}

/// The last delta of `af` up to `n` settled in the year `y`.
fn find_last_in_year(af: &Affiliate, deltas: &Vec<TxDelta>, n: usize, y: i32) -> (r: Option<usize>)
    requires
        n <= deltas@.len(),
    ensures
        r matches Some(j) ==> j < n && last_in_year(deltas@, af@, n as int, y) == Some(j as nat),
        r is None <==> last_in_year(deltas@, af@, n as int, y) is None,
{
    let mut k: usize = n;
    while k > 0
        invariant
            k <= n <= deltas@.len(),
            last_in_year(deltas@, af@, n as int, y) == last_in_year(deltas@, af@, k as int, y),
        decreases k,
    {
        let d = &deltas[k - 1];
        if d.tx.affiliate == *af && d.tx.settlement_date.year() == y {
            return Some(k - 1);
        }
        k -= 1;
    }
    None
}

fn sell_tx(
    security: &String,
    date: Date,
    aps: GreaterEqualZeroDecimal,
    commission: GreaterEqualZeroDecimal,
    memo: String,
    af: &Affiliate,
) -> (r: Tx)
    ensures
        is_summary_sell(r, security@, date.day_number(), aps@, commission@, memo@, af@),
{
    Tx {
        security: security.clone(),
        trade_date: date,
        settlement_date: date,
        action_specifics: TxActionSpecifics::Sell(
            SellTxSpecifics {
                shares: PosDecimal::one(),
                amount_per_share: aps,
                commission,
                tx_currency_and_rate: CurrencyAndExchangeRate::default(),
                separate_commission_currency: None,
                specified_superficial_loss: None,
            },
        ),
        memo,
        affiliate: af.clone(),
        read_index: 0,
    }
}

/// The yearly gains that the annual summary of `af` sells: none for a
/// registered affiliate.
pub open spec fn annual_gains(ds: Seq<TxDelta>, af: AffiliateView, idx: nat) -> Option<
    Seq<(i32, Dec)>,
> {
    if af.registered {
        Some(Seq::empty())
    } else {
        gains_upto(ds, af, idx + 1)
    }
}

/// The ACB a share that the base buy carries (`None`: no ACB is tracked).
pub open spec fn base_of(d: TxDelta) -> Option<Dec> {
    match acb_per_share_after(d) {
        Some(Some(x)) => Some(x),
        _ => None,
    }
}

/// The shares of the base buy: those held plus one for each year sold.
pub open spec fn base_buy_shares(d: TxDelta, years: nat) -> Option<Dec> {
    decimal_checked_add(d.post_status.share_balance@, Dec::spec_new(years as int, 0))
}

/// January 1 of the year before the first delta's.
pub open spec fn base_buy_date(ds: Seq<TxDelta>) -> Option<Date> {
    if date_year(settle_day(ds[0])) > i32::MIN {
        calendar_date(date_year(settle_day(ds[0])) - 1, 1, 1)
    } else {
        None
    }
}

/// January 1 of the year of the last delta of `af` in the year `y`.
pub open spec fn sale_date(ds: Seq<TxDelta>, af: AffiliateView, idx: nat, y: i32) -> Option<Date> {
    match last_in_year(ds, af, idx + 1int, y) {
        Some(j) => calendar_date(date_year(settle_day(ds[j as int])) as int, 1, 1),
        None => None,
    }
}

pub open spec fn sale_fits(
    ds: Seq<TxDelta>,
    af: AffiliateView,
    idx: nat,
    base: Option<Dec>,
    p: (i32, Dec),
) -> bool {
    &&& gain_and_loss(p.1) is Some
    &&& sale_amount(base, (gain_and_loss(p.1)->0).0) is Some
    &&& sale_date(ds, af, idx, p.0) is Some
}

/// Some amount or date of the annual summary is out of range.
pub open spec fn annual_fails(ds: Seq<TxDelta>, af: AffiliateView, idx: nat) -> bool {
    match annual_gains(ds, af, idx) {
        None => true,
        Some(gains) => {
            let d = ds[idx as int];
            ||| acb_per_share_after(d) == Some(None::<Dec>)
            ||| base_buy_shares(d, gains.len()) is None
            ||| (base_buy_shares(d, gains.len())->0.mant() > 0 && base_buy_date(ds) is None)
            ||| exists|k: int|
                0 <= k < gains.len() && !sale_fits(
                    ds,
                    af,
                    idx,
                    base_of(d),
                    #[trigger] sort_years(gains)[k],
                )
        },
    }
}

/// The annual summary of `af` up to the delta at `idx` (see
/// `make_annual_gains_summary_txs`).
pub open spec fn annual_ok(
    af: AffiliateView,
    ds: Seq<TxDelta>,
    idx: nat,
    txs: Seq<Tx>,
    warns: Seq<String>,
) -> bool {
    let d = ds[idx as int];
    let gains = annual_gains(ds, af, idx)->0;
    let sorted = sort_years(gains);
    let nb = base_buy_shares(d, gains.len())->0;
    let off: int = if nb.mant() > 0 {
        1
    } else {
        0
    };
    &&& (d.post_status.total_acb is Some && d.post_status.share_balance@.mant() == 0)
        ==> warns.len() == 1 && warns[0]@ == SHARE_BALANCE_ZERO_WARNING@
    &&& !(d.post_status.total_acb is Some && d.post_status.share_balance@.mant() == 0)
        ==> warns.len() == 0
    &&& txs.len() == off + sorted.len()
    &&& off == 1 ==> is_summary_buy(
        txs[0],
        d.tx.security@,
        base_buy_date(ds)->0.day_number(),
        nb,
        match base_of(d) {
            Some(x) => x,
            None => zero_dec(),
        },
        "Summary base (buy)"@,
        af,
    )
    &&& forall|k: int|
        #![trigger sorted[k]]
        0 <= k < sorted.len() ==> {
            let p = sorted[k];
            let gl = gain_and_loss(p.1)->0;
            let j = last_in_year(ds, af, idx + 1int, p.0)->0;
            is_summary_sell(
                txs[off + k],
                ds[j as int].tx.security@,
                sale_date(ds, af, idx, p.0)->0.day_number(),
                sale_amount(base_of(d), gl.0)->0,
                gl.1,
                gain_memo(p.0),
                af,
            )
        }
}

proof fn lemma_insert_year_len(s: Seq<(i32, Dec)>, p: (i32, Dec))
    ensures
        insert_year(s, p).len() == s.len() + 1,
    decreases s.len(),
{
    if s.len() > 0 && !(p.0 < s[0].0) {
        lemma_insert_year_len(s.drop_first(), p);
    }
}

proof fn lemma_insert_year_elems(s: Seq<(i32, Dec)>, p: (i32, Dec))
    ensures
        forall|i: int|
            0 <= i < insert_year(s, p).len() ==> #[trigger] insert_year(s, p)[i] == p || exists|
                j: int,
            |
                0 <= j < s.len() && s[j] == insert_year(s, p)[i],
    decreases s.len(),
{
    lemma_insert_year_len(s, p);
    if s.len() > 0 && !(p.0 < s[0].0) {
        let t = s.drop_first();
        lemma_insert_year_elems(t, p);
        lemma_insert_year_len(t, p);
        assert forall|i: int| 0 <= i < insert_year(s, p).len() implies #[trigger] insert_year(
            s,
            p,
        )[i] == p || exists|j: int| 0 <= j < s.len() && s[j] == insert_year(s, p)[i] by {
            if i == 0 {
                assert(s[0] == insert_year(s, p)[i]);
            } else {
                let x = insert_year(t, p)[i - 1];
                assert(insert_year(s, p)[i] == x);
                if x != p {
                    let j = choose|j: int| 0 <= j < t.len() && t[j] == x;
                    assert(s[j + 1] == x);
                }
            }
        }
    } else if s.len() > 0 {
        assert forall|i: int| 0 <= i < insert_year(s, p).len() implies #[trigger] insert_year(
            s,
            p,
        )[i] == p || exists|j: int| 0 <= j < s.len() && s[j] == insert_year(s, p)[i] by {
            if i > 0 {
                assert(s[i - 1] == insert_year(s, p)[i]);
            }
        }
    }
}

proof fn lemma_sort_years_elems(s: Seq<(i32, Dec)>)
    ensures
        forall|i: int|
            0 <= i < sort_years(s).len() ==> exists|j: int|
                0 <= j < s.len() && s[j] == #[trigger] sort_years(s)[i],
    decreases s.len(),
{
    if s.len() > 0 {
        let t = s.drop_last();
        lemma_sort_years_elems(t);
        lemma_insert_year_elems(sort_years(t), s.last());
        assert forall|i: int| 0 <= i < sort_years(s).len() implies exists|j: int|
            0 <= j < s.len() && s[j] == #[trigger] sort_years(s)[i] by {
            let x = sort_years(s)[i];
            assert(insert_year(sort_years(t), s.last())[i] == x);
            if x == s.last() {
                assert(s[s.len() - 1] == x);
            } else {
                let k = choose|k: int| 0 <= k < sort_years(t).len() && sort_years(t)[k] == x;
                let j = choose|j: int| 0 <= j < t.len() && t[j] == sort_years(t)[k];
                assert(s[j] == x);
            }
        }
    }
}

proof fn lemma_sort_years_len(s: Seq<(i32, Dec)>)
    ensures
        sort_years(s).len() == s.len(),
    decreases s.len(),
{
    if s.len() > 0 {
        lemma_sort_years_len(s.drop_last());
        lemma_insert_year_len(sort_years(s.drop_last()), s.last());
    }
}

/// The summary of the gains of `af` up to the delta at `idx`, year by year: a
/// base buy (on January 1 of the year before the first delta's) of the shares
/// held plus one a year, at the ACB a share, then for each year with gains,
/// in order, the sale of one share (on January 1 of that year) at the ACB a
/// share plus the year's gain, a loss given as commission. A registered
/// affiliate gets only the base buy. Warns where no shares are held; fails
/// where an amount or a date is out of range.
pub fn make_annual_gains_summary_txs(
    af: &Affiliate,
    deltas: &Vec<TxDelta>,
    latest_summarizable_delta_idx: usize,
) -> (r: Result<(Vec<Tx>, Vec<String>), String>)
    requires
        latest_summarizable_delta_idx < deltas@.len(),
    ensures
        r is Err <==> annual_fails(deltas@, af@, latest_summarizable_delta_idx as nat),
        r is Err ==> r->Err_0@ == SUMMARY_OVERFLOW_ERROR@,
        r is Ok ==> annual_ok(
            af@,
            deltas@,
            latest_summarizable_delta_idx as nat,
            r->Ok_0.0@,
            r->Ok_0.1@,
        ),
{
    let ghost ds = deltas@;
    let ghost idx = latest_summarizable_delta_idx as nat;
    let len = deltas.len();
    let n = latest_summarizable_delta_idx + 1;
    let gains: Vec<(i32, Dec)> = if af.registered() {
        Vec::new()
    } else {
        match collect_gains(af, deltas, n) {
            Some(g) => g,
            None => {
                return Err(SUMMARY_OVERFLOW_ERROR.to_string());
            },
        }
    };
    let sorted = sort_gains(&gains);
    proof {
        lemma_sort_years_len(gains@);
        lemma_sort_years_elems(gains@);
        if !af@.registered {
            lemma_gains_have_deltas(ds, af@, idx + 1);
        }
    }
    let first_year = deltas[0].tx.settlement_date.year();
    let d = &deltas[latest_summarizable_delta_idx];
    let post = &d.post_status;
    let mut warnings: Vec<String> = Vec::new();
    let base: Option<GreaterEqualZeroDecimal> = match post.total_acb {
        Some(total_acb) => match PosDecimal::try_from(post.share_balance.get()) {
            Ok(shares) => match total_acb.checked_div(shares) {
                Some(x) => Some(x),
                None => {
                    return Err(SUMMARY_OVERFLOW_ERROR.to_string());
                },
            },
            Err(_) => {
                warnings.push(SHARE_BALANCE_ZERO_WARNING.to_string());
                Some(GreaterEqualZeroDecimal::zero())
            },
        },
        None => None,
    };
    let years = GreaterEqualZeroDecimal::try_from(Dec::from_u64(sorted.len() as u64));
    let n_base = match years {
        Ok(y) => match post.share_balance.checked_add(y) {
            Some(x) => x,
            None => {
                return Err(SUMMARY_OVERFLOW_ERROR.to_string());
            },
        },
        Err(_) => {
            return Err(SUMMARY_OVERFLOW_ERROR.to_string());
        },
    };
    let mut txs: Vec<Tx> = Vec::new();
    if let Ok(n_base_shares) = PosDecimal::try_from(n_base.get()) {
        let y = match first_year.checked_sub(1) {
            Some(y) => y,
            None => {
                return Err(SUMMARY_OVERFLOW_ERROR.to_string());
            },
        };
        let dt = match Date::from_calendar_date(y, 1, 1) {
            Some(dt) => dt,
            None => {
                return Err(SUMMARY_OVERFLOW_ERROR.to_string());
            },
        };
        let aps = match base {
            Some(aps) => aps,
            None => GreaterEqualZeroDecimal::zero(),
        };
        txs.push(buy_tx(&d.tx.security, dt, n_base_shares, aps, "Summary base (buy)", af));
    }
    let ghost off: int = txs@.len() as int;
    let ghost d0 = ds[idx as int];
    let ghost buy0 = if off == 1 {
        txs@[0]
    } else {
        d.tx
    };
    let mut k: usize = 0;
    while k < sorted.len()
        invariant
            ds == deltas@,
            idx == latest_summarizable_delta_idx,
            n == idx + 1,
            idx < ds.len(),
            d0 == ds[idx as int],
            *d == d0,
            sorted@ == sort_years(gains@),
            annual_gains(ds, af@, idx) == Some(gains@),
            forall|q: int|
                0 <= q < gains@.len() ==> (#[trigger] last_in_year(ds, af@, idx + 1int, gains@[q].0))
                    is Some,
            sorted@.len() == gains@.len(),
            forall|i: int|
                0 <= i < sorted@.len() ==> exists|j: int|
                    0 <= j < gains@.len() && gains@[j] == #[trigger] sorted@[i],
            k <= sorted@.len(),
            txs@.len() == off + k,
            off == 0 || off == 1,
            off == 1 ==> txs@[0] == buy0,
            match base {
                Some(b) => base_of(d0) == Some(b@),
                None => base_of(d0) is None,
            },
            forall|q: int|
                0 <= q < k ==> sale_fits(ds, af@, idx, base_of(d0), #[trigger] sorted@[q]),
            forall|q: int|
                #![trigger sorted@[q]]
                0 <= q < k ==> {
                    let p = sorted@[q];
                    let gl = gain_and_loss(p.1)->0;
                    let j = last_in_year(ds, af@, idx + 1int, p.0)->0;
                    is_summary_sell(
                        txs@[off + q],
                        ds[j as int].tx.security@,
                        sale_date(ds, af@, idx, p.0)->0.day_number(),
                        sale_amount(base_of(d0), gl.0)->0,
                        gl.1,
                        gain_memo(p.0),
                        af@,
                    )
                },
        decreases sorted@.len() - k,
    {
        let (year, g) = sorted[k];
        let ghost p = sorted@[k as int];
        proof {
            let q = choose|q: int| 0 <= q < gains@.len() && gains@[q] == sorted@[k as int];
            assert(last_in_year(ds, af@, idx + 1int, gains@[q].0) is Some);
        }
        let gl: Option<(Dec, Dec)> = if g.is_negative() {
            match g.checked_mul(&Dec::new(-1, 0)) {
                Some(l) => Some((Dec::zero(), l)),
                None => None,
            }
        } else {
            Some((g, Dec::zero()))
        };
        let (gain, loss) = match gl {
            Some(x) => x,
            None => {
                proof {
                    assert(!sale_fits(ds, af@, idx, base_of(d0), sort_years(gains@)[k as int]));
                }
                return Err(SUMMARY_OVERFLOW_ERROR.to_string());
            },
        };
        proof {
            assert(p == (year, g));
            assert(gain_and_loss(p.1) == Some((gain, loss)));
        }
        let gain_gez = match GreaterEqualZeroDecimal::try_from(gain) {
            Ok(x) => x,
            Err(_) => {
                proof {
                    assert(false);
                }
                return Err(SUMMARY_OVERFLOW_ERROR.to_string());
            },
        };
        let loss_gez = match GreaterEqualZeroDecimal::try_from(loss) {
            Ok(x) => x,
            Err(_) => {
                proof {
                    assert(false);
                }
                return Err(SUMMARY_OVERFLOW_ERROR.to_string());
            },
        };
        let j = match find_last_in_year(af, deltas, n, year) {
            Some(j) => j,
            None => {
                proof {
                    assert(false);
                }
                return Err(SUMMARY_OVERFLOW_ERROR.to_string());
            },
        };
        let tx_j = &deltas[j].tx;
        let dt = match Date::from_calendar_date(tx_j.settlement_date.year(), 1, 1) {
            Some(dt) => dt,
            None => {
                proof {
                    assert(!sale_fits(ds, af@, idx, base_of(d0), sort_years(gains@)[k as int]));
                }
                return Err(SUMMARY_OVERFLOW_ERROR.to_string());
            },
        };
        let amount = match base {
            Some(aps) => match aps.checked_add(gain_gez) {
                Some(x) => x,
                None => {
                    proof {
                        assert(sale_amount(base_of(d0), gain) is None);
                        assert(!sale_fits(ds, af@, idx, base_of(d0), sort_years(gains@)[k as int]));
                    }
                    return Err(SUMMARY_OVERFLOW_ERROR.to_string());
                },
            },
            None => GreaterEqualZeroDecimal::zero(),
        };
        let mut memo = int_to_string(year as i64);
        memo.append(" gain summary (sell)");
        let t = sell_tx(&tx_j.security, dt, amount, loss_gez, memo, af);
        let ghost before = txs@;
        txs.push(t);
        proof {
            assert(sale_fits(ds, af@, idx, base_of(d0), p));
            assert forall|q: int|
                #![trigger sorted@[q]]
                0 <= q < k + 1 implies {
                    let p = sorted@[q];
                    let gl = gain_and_loss(p.1)->0;
                    let j = last_in_year(ds, af@, idx + 1int, p.0)->0;
                    is_summary_sell(
                        txs@[off + q],
                        ds[j as int].tx.security@,
                        sale_date(ds, af@, idx, p.0)->0.day_number(),
                        sale_amount(base_of(d0), gl.0)->0,
                        gl.1,
                        gain_memo(p.0),
                        af@,
                    )
                } by {
                if q < k {
                    assert(txs@[off + q] == before[off + q]);
                }
            }
        }
        k += 1;
    }
    proof {
        assert forall|q: int| 0 <= q < gains@.len() implies sale_fits(
            ds,
            af@,
            idx,
            base_of(d0),
            #[trigger] sort_years(gains@)[q],
        ) by {
            assert(sorted@[q] == sort_years(gains@)[q]);
        }
    }
    Ok((txs, warnings))
}

/// The warning where no delta settles by the summary date.
pub const NO_SUMMARY_RANGE_WARNING: &'static str = "No transactions in the summary period";

/// The warning where the summary date is too recent for the summary to be final.
pub const SUMMARY_TOO_RECENT_WARNING: &'static str =
    "The current date is such that new TXs could potentially alter how the summary is created. You should wait 60 days after your latest transaction within the summary period to generate the summary";

/// Whether the affiliate with the id `id` has a delta among those at `idxs`.
pub open spec fn id_seen(ds: Seq<TxDelta>, idxs: Seq<usize>, id: Seq<char>) -> bool
    decreases idxs.len(),
{
    if idxs.len() == 0 {
        false
    } else if ds[idxs.last() as int].tx.affiliate@.id == id {
        true
    } else {
        id_seen(ds, idxs.drop_last(), id)
    }
}

/// Going back from `i`, the index of the last delta of each affiliate, in the
/// order met.
pub open spec fn last_delta_idxs(ds: Seq<TxDelta>, i: int, acc: Seq<usize>) -> Seq<usize>
    decreases i + 1,
{
    if i < 0 || i >= ds.len() {
        acc
    } else {
        last_delta_idxs(
            ds,
            i - 1,
            if id_seen(ds, acc, ds[i].tx.affiliate@.id) {
                acc
            } else {
                acc.push(i as usize)
            },
        )
    }
}

pub open spec fn af_id(ds: Seq<TxDelta>, i: usize) -> Seq<char> {
    ds[i as int].tx.affiliate@.id
}

/// `x` put before the first index whose affiliate id orders after its own.
pub open spec fn insert_by_id(ds: Seq<TxDelta>, s: Seq<usize>, x: usize) -> Seq<usize>
    decreases s.len(),
{
    if s.len() == 0 {
        seq![x]
    } else if chars_lt(af_id(ds, x), af_id(ds, s[0])) {
        seq![x] + s
    } else {
        seq![s[0]] + insert_by_id(ds, s.drop_first(), x)
    }
}

/// The indices ordered by affiliate id (a stable insertion sort).
pub open spec fn sort_by_id(ds: Seq<TxDelta>, s: Seq<usize>) -> Seq<usize>
    decreases s.len(),
{
    if s.len() == 0 {
        s
    } else {
        insert_by_id(ds, sort_by_id(ds, s.drop_last()), s.last())
    }
}

/// The last summarizable delta of each affiliate, ordered by affiliate id.
pub open spec fn summary_affiliates(ds: Seq<TxDelta>, last: Option<nat>) -> Seq<usize> {
    match last {
        Some(l) => sort_by_id(ds, last_delta_idxs(ds, l as int, Seq::empty())),
        None => Seq::empty(),
    }
}

/// The summary of one affiliate fails.
pub open spec fn block_fails(split: bool, ds: Seq<TxDelta>, j: nat) -> bool {
    if split {
        annual_fails(ds, ds[j as int].tx.affiliate@, j)
    } else {
        simple_fails(ds[j as int])
    }
}

/// `txs` and `warns` are the summary of the affiliate of the delta at `j`.
pub open spec fn block_ok(
    split: bool,
    ds: Seq<TxDelta>,
    j: nat,
    txs: Seq<Tx>,
    warns: Seq<String>,
) -> bool {
    if split {
        annual_ok(ds[j as int].tx.affiliate@, ds, j, txs, warns)
    } else {
        simple_ok(ds[j as int].tx.affiliate@, ds[j as int], txs, warns)
    }
}

pub open spec fn flatten(blocks: Seq<Seq<Tx>>) -> Seq<Tx>
    decreases blocks.len(),
{
    if blocks.len() == 0 {
        Seq::empty()
    } else {
        flatten(blocks.drop_last()) + blocks.last()
    }
}

/// `t` put before the first transaction settled after it.
pub open spec fn insert_by_settle(s: Seq<Tx>, t: Tx) -> Seq<Tx>
    decreases s.len(),
{
    if s.len() == 0 {
        seq![t]
    } else if t.settlement_date.day_number() < s[0].settlement_date.day_number() {
        seq![t] + s
    } else {
        seq![s[0]] + insert_by_settle(s.drop_first(), t)
    }
}

/// The transactions ordered by settlement date (a stable insertion sort).
pub open spec fn sort_by_settle(s: Seq<Tx>) -> Seq<Tx>
    decreases s.len(),
{
    if s.len() == 0 {
        s
    } else {
        insert_by_settle(sort_by_settle(s.drop_last()), s.last())
    }
}

/// The first delta that a summary does not cover.
pub open spec fn unsummarized_start(last: Option<nat>) -> nat {
    match last {
        Some(l) => l + 1,
        None => 0,
    }
}

/// `t` is the transaction of `d` kept past the summary: where `d` has a
/// superficial loss, the sale now specifies it (not forced).
pub open spec fn kept_tx(t: Tx, d: TxDelta) -> bool {
    match d.sfl {
        None => t == d.tx,
        Some(sfl) => {
            &&& t == Tx { action_specifics: t.action_specifics, ..d.tx }
            &&& d.tx.action_specifics matches TxActionSpecifics::Sell(s0)
            &&& t.action_specifics matches TxActionSpecifics::Sell(s)
            &&& s == SellTxSpecifics { specified_superficial_loss: s.specified_superficial_loss, ..s0 }
            &&& s.specified_superficial_loss matches Some(i)
            &&& i.superficial_loss@ == sfl.superficial_loss
            &&& !i.force
        },
    }
}

/// Deltas kept past the summary have specifiable superficial losses: on sales,
/// and not positive.
pub open spec fn kept_sfls_specifiable(ds: Seq<TxDelta>, latest: int) -> bool {
    summary_ranges_spec(ds, latest) matches Some((a, last)) ==> forall|i: int|
        unsummarized_start(last) <= i <= a ==> ((#[trigger] ds[i]).sfl is Some ==> (
        ds[i].tx.action_specifics is Sell && ds[i].sfl->0.superficial_loss.mant() <= 0))
}

pub open spec fn conflict_warning(first: TxDelta, last: TxDelta) -> Seq<char> {
    "Some transactions to be summarized (between "@ + date_display(
        first.tx.trade_date.day_number(),
    ) + " and "@ + date_display(last.tx.trade_date.day_number())
        + ") could not be due to superficial-loss conflicts"@
}

/// The warnings of a summary: the zero share balance warning where any
/// affiliate's summary gave it, the conflict warning where deltas are kept
/// past the summary, and the warning that it is too early where `today` is
/// within 60 days of the last delta in the range.
pub open spec fn summary_warnings(
    ds: Seq<TxDelta>,
    a: nat,
    last: Option<nat>,
    today: int,
    any_zero: bool,
) -> Seq<Seq<char>> {
    let start = unsummarized_start(last);
    (if any_zero {
        seq![SHARE_BALANCE_ZERO_WARNING@]
    } else {
        Seq::empty()
    }) + (if start <= a {
        seq![conflict_warning(ds[start as int], ds[a as int])]
    } else {
        Seq::empty()
    }) + (if today <= clamp_day(clamp_day(settle_day(ds[a as int]) + 30) + 30) {
        seq![SUMMARY_TOO_RECENT_WARNING@]
    } else {
        Seq::empty()
    })
}

/// `txs` and `warns` are the summary made of the per-affiliate summaries
/// `blocks` and `bwarns` (see `summary_ok`).
pub open spec fn summary_parts_ok(
    ds: Seq<TxDelta>,
    a: nat,
    last: Option<nat>,
    split: bool,
    today: int,
    txs: Seq<Tx>,
    warns: Seq<String>,
    blocks: Seq<Seq<Tx>>,
    bwarns: Seq<Seq<String>>,
) -> bool {
    let afs = summary_affiliates(ds, last);
    let start = unsummarized_start(last);
    let merged = flatten(blocks);
    &&& blocks.len() == afs.len()
    &&& bwarns.len() == afs.len()
    &&& forall|k: int|
        0 <= k < afs.len() ==> block_ok(split, ds, afs[k] as nat, #[trigger] blocks[k], bwarns[k])
    &&& txs.len() == merged.len() + (a + 1 - start)
    &&& txs.subrange(0, merged.len() as int) == sort_by_settle(merged)
    &&& forall|q: int|
        0 <= q < a + 1 - start ==> kept_tx(#[trigger] txs[merged.len() + q], ds[start + q])
    &&& warns.map_values(|w: String| w@) == summary_warnings(
        ds,
        a,
        last,
        today,
        exists|k: int| 0 <= k < bwarns.len() && #[trigger] bwarns[k].len() > 0,
    )
}

/// The summary up to the range `a`, `last` is `txs` and `warns`: the
/// summaries of the affiliates (`summary_affiliates`) merged in settlement
/// order, then the deltas past the last summarizable one, kept.
pub open spec fn summary_ok(
    ds: Seq<TxDelta>,
    a: nat,
    last: Option<nat>,
    split: bool,
    today: int,
    txs: Seq<Tx>,
    warns: Seq<String>,
) -> bool {
    exists|blocks: Seq<Seq<Tx>>, bwarns: Seq<Seq<String>>|
        #[trigger] summary_parts_ok(ds, a, last, split, today, txs, warns, blocks, bwarns)
}

proof fn lemma_last_delta_idxs_bounded(ds: Seq<TxDelta>, i: int, acc: Seq<usize>, l: int)
    requires
        i <= l < ds.len(),
        forall|k: int| 0 <= k < acc.len() ==> acc[k] <= l,
    ensures
        forall|k: int|
            0 <= k < last_delta_idxs(ds, i, acc).len() ==> #[trigger] last_delta_idxs(
                ds,
                i,
                acc,
            )[k] <= l,
    decreases i + 1,
{
    if 0 <= i < ds.len() {
        let next = if id_seen(ds, acc, ds[i].tx.affiliate@.id) {
            acc
        } else {
            acc.push(i as usize)
        };
        assert forall|k: int| 0 <= k < next.len() implies next[k] <= l by {
            if k < acc.len() {
                assert(next[k] == acc[k]);
            }
        }
        lemma_last_delta_idxs_bounded(ds, i - 1, next, l);
        assert(last_delta_idxs(ds, i, acc) == last_delta_idxs(ds, i - 1, next));
    }
}

proof fn lemma_insert_by_id_bounded(ds: Seq<TxDelta>, s: Seq<usize>, x: usize, n: int)
    requires
        x < n,
        forall|k: int| 0 <= k < s.len() ==> s[k] < n,
    ensures
        insert_by_id(ds, s, x).len() == s.len() + 1,
        forall|k: int|
            0 <= k < insert_by_id(ds, s, x).len() ==> #[trigger] insert_by_id(ds, s, x)[k] < n,
    decreases s.len(),
{
    if s.len() > 0 && !chars_lt(af_id(ds, x), af_id(ds, s[0])) {
        lemma_insert_by_id_bounded(ds, s.drop_first(), x, n);
        assert forall|k: int| 0 <= k < insert_by_id(ds, s, x).len() implies #[trigger] insert_by_id(
            ds,
            s,
            x,
        )[k] < n by {
            if k > 0 {
                assert(insert_by_id(ds, s, x)[k] == insert_by_id(ds, s.drop_first(), x)[k - 1]);
            }
        }
    }
}

proof fn lemma_sort_by_id_bounded(ds: Seq<TxDelta>, s: Seq<usize>, n: int)
    requires
        forall|k: int| 0 <= k < s.len() ==> s[k] < n,
    ensures
        sort_by_id(ds, s).len() == s.len(),
        forall|k: int| 0 <= k < sort_by_id(ds, s).len() ==> #[trigger] sort_by_id(ds, s)[k] < n,
    decreases s.len(),
{
    if s.len() > 0 {
        lemma_sort_by_id_bounded(ds, s.drop_last(), n);
        lemma_insert_by_id_bounded(ds, sort_by_id(ds, s.drop_last()), s.last(), n);
    }
}

proof fn lemma_insert_by_id_at(ds: Seq<TxDelta>, s: Seq<usize>, x: usize, pos: int)
    requires
        0 <= pos <= s.len(),
        forall|j: int| 0 <= j < pos ==> !chars_lt(af_id(ds, x), af_id(ds, #[trigger] s[j])),
        pos < s.len() ==> chars_lt(af_id(ds, x), af_id(ds, s[pos])),
    ensures
        insert_by_id(ds, s, x) == s.insert(pos, x),
    decreases s.len(),
{
    if s.len() == 0 {
        assert(s.insert(pos, x) =~= seq![x]);
    } else if pos == 0 {
        assert(s.insert(pos, x) =~= seq![x] + s);
    } else {
        let t = s.drop_first();
        assert forall|j: int| 0 <= j < pos - 1 implies !chars_lt(
            af_id(ds, x),
            af_id(ds, #[trigger] t[j]),
        ) by {
            assert(t[j] == s[j + 1]);
        }
        lemma_insert_by_id_at(ds, t, x, pos - 1);
        assert(s.insert(pos, x) =~= seq![s[0]] + t.insert(pos - 1, x));
    }
}

proof fn lemma_insert_by_settle_at(s: Seq<Tx>, t: Tx, pos: int)
    requires
        0 <= pos <= s.len(),
        forall|j: int|
            0 <= j < pos ==> !(t.settlement_date.day_number() < (
            #[trigger] s[j]).settlement_date.day_number()),
        pos < s.len() ==> t.settlement_date.day_number() < s[pos].settlement_date.day_number(),
    ensures
        insert_by_settle(s, t) == s.insert(pos, t),
    decreases s.len(),
{
    if s.len() == 0 {
        assert(s.insert(pos, t) =~= seq![t]);
    } else if pos == 0 {
        assert(s.insert(pos, t) =~= seq![t] + s);
    } else {
        let u = s.drop_first();
        assert forall|j: int|
            0 <= j < pos - 1 implies !(t.settlement_date.day_number() < (
            #[trigger] u[j]).settlement_date.day_number()) by {
            assert(u[j] == s[j + 1]);
        }
        lemma_insert_by_settle_at(u, t, pos - 1);
        assert(s.insert(pos, t) =~= seq![s[0]] + u.insert(pos - 1, t));
    }
}

fn id_seen_exec(deltas: &Vec<TxDelta>, idxs: &Vec<usize>, af: &Affiliate) -> (r: bool)
    requires
        forall|k: int| 0 <= k < idxs@.len() ==> idxs@[k] < deltas@.len(),
    ensures
        r == id_seen(deltas@, idxs@, af@.id),
{
    let mut k: usize = idxs.len();
    proof {
        assert(idxs@.subrange(0, k as int) =~= idxs@);
    }
    while k > 0
        invariant
            k <= idxs@.len(),
            forall|q: int| 0 <= q < idxs@.len() ==> idxs@[q] < deltas@.len(),
            id_seen(deltas@, idxs@, af@.id) == id_seen(
                deltas@,
                idxs@.subrange(0, k as int),
                af@.id,
            ),
        decreases k,
    {
        proof {
            assert(idxs@.subrange(0, k as int).drop_last() =~= idxs@.subrange(0, k - 1));
        }
        if deltas[idxs[k - 1]].tx.affiliate == *af {
            return true;
        }
        k -= 1;
    }
    false
}

/// The index of the last delta of each affiliate up to `l`, in the order
/// met going back.
fn collect_last_idxs(deltas: &Vec<TxDelta>, l: usize) -> (r: Vec<usize>)
    requires
        l < deltas@.len(),
    ensures
        r@ == last_delta_idxs(deltas@, l as int, Seq::empty()),
        forall|k: int| 0 <= k < r@.len() ==> r@[k] <= l,
{
    let mut acc: Vec<usize> = Vec::new();
    let n = deltas.len();
    let mut i: usize = l + 1;
    while i > 0
        invariant
            i <= l + 1,
            l < deltas@.len(),
            forall|k: int| 0 <= k < acc@.len() ==> acc@[k] <= l,
            last_delta_idxs(deltas@, l as int, Seq::empty()) == last_delta_idxs(
                deltas@,
                i - 1,
                acc@,
            ),
        decreases i,
    {
        let j = i - 1;
        let seen = id_seen_exec(deltas, &acc, &deltas[j].tx.affiliate);
        if !seen {
            acc.push(j);
        }
        i -= 1;
    }
    acc
}

/// The indices ordered by the id of their delta's affiliate.
fn sort_idxs_by_id(deltas: &Vec<TxDelta>, idxs: &Vec<usize>) -> (r: Vec<usize>)
    requires
        forall|k: int| 0 <= k < idxs@.len() ==> idxs@[k] < deltas@.len(),
    ensures
        r@ == sort_by_id(deltas@, idxs@),
{
    let mut out: Vec<usize> = Vec::new();
    let mut i: usize = 0;
    while i < idxs.len()
        invariant
            i <= idxs@.len(),
            forall|k: int| 0 <= k < idxs@.len() ==> idxs@[k] < deltas@.len(),
            out@ == sort_by_id(deltas@, idxs@.subrange(0, i as int)),
            forall|k: int| 0 <= k < out@.len() ==> out@[k] < deltas@.len(),
        decreases idxs@.len() - i,
    {
        let x = idxs[i];
        let mut pos: usize = 0;
        while pos < out.len() && !str_lt(
            deltas[x].tx.affiliate.id(),
            deltas[out[pos]].tx.affiliate.id(),
        )
            invariant
                pos <= out@.len(),
                x < deltas@.len(),
                forall|k: int| 0 <= k < out@.len() ==> out@[k] < deltas@.len(),
                forall|j: int|
                    0 <= j < pos ==> !chars_lt(af_id(deltas@, x), af_id(deltas@, #[trigger] out@[j])),
            decreases out@.len() - pos,
        {
            pos += 1;
        }
        proof {
            lemma_insert_by_id_at(deltas@, out@, x, pos as int);
            lemma_insert_by_id_bounded(deltas@, out@, x, deltas@.len() as int);
            assert(idxs@.subrange(0, i + 1).drop_last() =~= idxs@.subrange(0, i as int));
        }
        out.insert(pos, x);
        i += 1;
    }
    proof {
        assert(idxs@.subrange(0, idxs@.len() as int) =~= idxs@);
    }
    out
}

/// The transactions ordered by settlement date, earlier ones first among
/// those of a day.
fn sort_txs_by_settle(txs: &Vec<Tx>) -> (r: Vec<Tx>)
    ensures
        r@ == sort_by_settle(txs@),
{
    let mut out: Vec<Tx> = Vec::new();
    let mut i: usize = 0;
    while i < txs.len()
        invariant
            i <= txs@.len(),
            out@ == sort_by_settle(txs@.subrange(0, i as int)),
        decreases txs@.len() - i,
    {
        let t = txs[i].clone_tx();
        let mut pos: usize = 0;
        while pos < out.len() && !t.settlement_date.before(&out[pos].settlement_date)
            invariant
                pos <= out@.len(),
                forall|j: int|
                    0 <= j < pos ==> !(t.settlement_date.day_number() < (
                    #[trigger] out@[j]).settlement_date.day_number()),
            decreases out@.len() - pos,
        {
            pos += 1;
        }
        proof {
            lemma_insert_by_settle_at(out@, t, pos as int);
            assert(txs@.subrange(0, i + 1).drop_last() =~= txs@.subrange(0, i as int));
        }
        out.insert(pos, t);
        i += 1;
    }
    proof {
        assert(txs@.subrange(0, txs@.len() as int) =~= txs@);
    }
    out
}

/// The transaction of `d` kept past a summary (see `kept_tx`).
fn kept(d: &TxDelta) -> (r: Tx)
    requires
        d.sfl is Some ==> d.tx.action_specifics is Sell && d.sfl->0.superficial_loss.mant() <= 0,
    ensures
        kept_tx(r, *d),
{
    match &d.sfl {
        None => d.tx.clone_tx(),
        Some(sfl) => match &d.tx.action_specifics {
            TxActionSpecifics::Sell(s0) => {
                let specs = SellTxSpecifics {
                    shares: s0.shares,
                    amount_per_share: s0.amount_per_share,
                    commission: s0.commission,
                    tx_currency_and_rate: clone_rate(&s0.tx_currency_and_rate),
                    separate_commission_currency: clone_opt_rate(&s0.separate_commission_currency),
                    specified_superficial_loss: Some(
                        SFLInput::req_from_dec(sfl.superficial_loss, false),
                    ),
                };
                let base = d.tx.clone_tx();
                Tx {
                    security: base.security,
                    trade_date: base.trade_date,
                    settlement_date: base.settlement_date,
                    action_specifics: TxActionSpecifics::Sell(specs),
                    memo: base.memo,
                    affiliate: base.affiliate,
                    read_index: base.read_index,
                }
            },
            _ => {
                proof {
                    assert(false);
                }
                d.tx.clone_tx()
            },
        },
    }
}

/// `txs` and `warns` are a summary of `ds` up to the day `latest` (see
/// `make_summary_txs_as_of`).
pub open spec fn summary_result_ok(
    ds: Seq<TxDelta>,
    latest: int,
    split: bool,
    today: int,
    txs: Seq<Tx>,
    warns: Seq<String>,
) -> bool {
    match summary_ranges_spec(ds, latest) {
        None => txs.len() == 0 && warns.map_values(|w: String| w@) == seq![
            NO_SUMMARY_RANGE_WARNING@,
        ],
        Some((a, last)) => summary_ok(ds, a, last, split, today, txs, warns),
    }
}

/// The summary of `ds` up to the day `latest` fails.
pub open spec fn summary_fails(ds: Seq<TxDelta>, latest: int, split: bool) -> bool {
    match summary_ranges_spec(ds, latest) {
        None => false,
        Some((a, last)) => exists|k: int|
            0 <= k < summary_affiliates(ds, last).len() && block_fails(
                split,
                ds,
                #[trigger] summary_affiliates(ds, last)[k] as nat,
            ),
    }
}

proof fn lemma_insert_by_settle_len(s: Seq<Tx>, t: Tx)
    ensures
        insert_by_settle(s, t).len() == s.len() + 1,
    decreases s.len(),
{
    if s.len() > 0 && !(t.settlement_date.day_number() < s[0].settlement_date.day_number()) {
        lemma_insert_by_settle_len(s.drop_first(), t);
    }
}

proof fn lemma_sort_by_settle_len(s: Seq<Tx>)
    ensures
        sort_by_settle(s).len() == s.len(),
    decreases s.len(),
{
    if s.len() > 0 {
        lemma_sort_by_settle_len(s.drop_last());
        lemma_insert_by_settle_len(sort_by_settle(s.drop_last()), s.last());
    }
}

/// The summary of the deltas of one security up to `latest_date`, as of the
/// day `today`: for each affiliate with summarizable deltas (ordered by id), a
/// simple summary (`make_simple_summary_txs`) or one year by year
/// (`make_annual_gains_summary_txs`), merged in settlement order; then the
/// deltas in the range that cannot be summarized without changing a later
/// superficial loss, kept with their superficial losses specified. Warns where
/// nothing is in the range, where deltas are kept, and where `today` is within
/// 60 days of the last delta in the range (a later transaction could still
/// change the summary). Fails where an affiliate's summary fails.
pub fn make_summary_txs_as_of(
    latest_date: Date,
    deltas: &Vec<TxDelta>,
    split_annual_gains: bool,
    today: Date,
) -> (r: Result<(Vec<Tx>, Vec<String>), String>)
    requires
        kept_sfls_specifiable(deltas@, latest_date.day_number()),
    ensures
        r is Err <==> summary_fails(deltas@, latest_date.day_number(), split_annual_gains),
        r is Err ==> r->Err_0@ == SUMMARY_OVERFLOW_ERROR@,
        r is Ok ==> summary_result_ok(
            deltas@,
            latest_date.day_number(),
            split_annual_gains,
            today.day_number(),
            r->Ok_0.0@,
            r->Ok_0.1@,
        ),
{
    let ghost ds = deltas@;
    let ranges = match get_summary_range_delta_indicies(latest_date, deltas) {
        Some(r) => r,
        None => {
            let w = vec![NO_SUMMARY_RANGE_WARNING.to_string()];
            proof {
                assert(w@.map_values(|w: String| w@) =~= seq![NO_SUMMARY_RANGE_WARNING@]);
            }
            return Ok((Vec::new(), w));
        },
    };
    let a = ranges.latest_delta_in_summary_range_idx;
    let last = ranges.latest_summarizable_delta_idx;
    let ghost lastn: Option<nat> = match last {
        Some(x) => Some(x as nat),
        None => None,
    };
    let afs: Vec<usize> = match last {
        Some(l) => {
            let idxs = collect_last_idxs(deltas, l);
            proof {
                lemma_sort_by_id_bounded(deltas@, idxs@, deltas@.len() as int);
            }
            sort_idxs_by_id(deltas, &idxs)
        },
        None => Vec::new(),
    };
    proof {
        lemma_sort_by_id_bounded(
            ds,
            match last {
                Some(l) => last_delta_idxs(ds, l as int, Seq::empty()),
                None => Seq::empty(),
            },
            ds.len() as int,
        );
        match last {
            Some(l) => {
                lemma_last_delta_idxs_bounded(ds, l as int, Seq::empty(), l as int);
                lemma_sort_by_id_bounded(
                    ds,
                    last_delta_idxs(ds, l as int, Seq::empty()),
                    ds.len() as int,
                );
            },
            None => {},
        }
        assert(afs@ == summary_affiliates(ds, lastn));
    }
    let mut merged: Vec<Tx> = Vec::new();
    let ghost mut blocks: Seq<Seq<Tx>> = Seq::empty();
    let ghost mut bwarns: Seq<Seq<String>> = Seq::empty();
    let mut any_zero = false;
    let mut k: usize = 0;
    while k < afs.len()
        invariant
            ds == deltas@,
            summary_ranges_spec(ds, latest_date.day_number()) == Some((a as nat, lastn)),
            afs@ == summary_affiliates(ds, lastn),
            forall|q: int| 0 <= q < afs@.len() ==> afs@[q] < ds.len(),
            k <= afs@.len(),
            blocks.len() == k,
            bwarns.len() == k,
            merged@ == flatten(blocks),
            forall|q: int|
                0 <= q < k ==> block_ok(
                    split_annual_gains,
                    ds,
                    afs@[q] as nat,
                    #[trigger] blocks[q],
                    bwarns[q],
                ),
            forall|q: int|
                0 <= q < k ==> !block_fails(split_annual_gains, ds, #[trigger] afs@[q] as nat),
            any_zero == exists|q: int| 0 <= q < k && #[trigger] bwarns[q].len() > 0,
        decreases afs@.len() - k,
    {
        let j = afs[k];
        let af = deltas[j].tx.affiliate.clone();
        let res = if split_annual_gains {
            make_annual_gains_summary_txs(&af, deltas, j)
        } else {
            make_simple_summary_txs(&af, deltas, j)
        };
        match res {
            Err(e) => {
                proof {
                    assert(block_fails(split_annual_gains, ds, afs@[k as int] as nat));
                    assert(summary_affiliates(ds, lastn)[k as int] == afs@[k as int]);
                }
                return Err(e);
            },
            Ok((txs, warns)) => {
                let ghost old_blocks = blocks;
                let ghost old_bwarns = bwarns;
                proof {
                    blocks = blocks.push(txs@);
                    bwarns = bwarns.push(warns@);
                    assert(blocks.drop_last() =~= old_blocks);
                    assert(block_ok(split_annual_gains, ds, afs@[k as int] as nat, txs@, warns@));
                    assert forall|q: int|
                        0 <= q < k + 1 implies block_ok(
                        split_annual_gains,
                        ds,
                        afs@[q] as nat,
                        #[trigger] blocks[q],
                        bwarns[q],
                    ) by {
                        if q < k {
                            assert(blocks[q] == old_blocks[q]);
                            assert(bwarns[q] == old_bwarns[q]);
                        }
                    }
                }
                if warns.len() > 0 {
                    any_zero = true;
                }
                proof {
                    if any_zero {
                        if warns@.len() > 0 {
                            assert(bwarns[k as int].len() > 0);
                        } else {
                            let q = choose|q: int| 0 <= q < k && #[trigger] old_bwarns[q].len() > 0;
                            assert(bwarns[q] == old_bwarns[q]);
                        }
                    } else {
                        assert forall|q: int| 0 <= q < k + 1 implies !(#[trigger] bwarns[q].len()
                            > 0) by {
                            if q < k {
                                assert(bwarns[q] == old_bwarns[q]);
                            }
                        }
                    }
                }
                let ghost before = merged@;
                let mut t: usize = 0;
                while t < txs.len()
                    invariant
                        t <= txs@.len(),
                        merged@ == before + txs@.subrange(0, t as int),
                    decreases txs@.len() - t,
                {
                    merged.push(txs[t].clone_tx());
                    proof {
                        assert(before + txs@.subrange(0, t + 1) =~= (before + txs@.subrange(
                            0,
                            t as int,
                        )).push(txs@[t as int]));
                    }
                    t += 1;
                }
                proof {
                    assert(txs@.subrange(0, txs@.len() as int) =~= txs@);
                }
            },
        }
        k += 1;
    }
    let mut out = sort_txs_by_settle(&merged);
    proof {
        lemma_sort_by_settle_len(merged@);
    }
    let ghost sorted = out@;
    let ghost mlen = out@.len();
    let n = deltas.len();
    let start = match last {
        Some(l) => l + 1,
        None => 0,
    };
    let mut i = start;
    while i <= a
        invariant
            ds == deltas@,
            start <= i <= a + 1,
            a < ds.len(),
            n == ds.len(),
            start == unsummarized_start(lastn),
            summary_ranges_spec(ds, latest_date.day_number()) == Some((a as nat, lastn)),
            kept_sfls_specifiable(ds, latest_date.day_number()),
            out@.len() == mlen + (i - start),
            out@.subrange(0, mlen as int) == sorted,
            forall|q: int| 0 <= q < i - start ==> kept_tx(#[trigger] out@[mlen + q], ds[start + q]),
        decreases a + 1 - i,
    {
        let ghost before = out@;
        let t = kept(&deltas[i]);
        out.push(t);
        proof {
            assert(out@.subrange(0, mlen as int) =~= before.subrange(0, mlen as int));
            assert forall|q: int|
                0 <= q < i + 1 - start implies kept_tx(#[trigger] out@[mlen + q], ds[start + q]) by {
                if q < i - start {
                    assert(out@[mlen + q] == before[mlen + q]);
                }
            }
        }
        i += 1;
    }
    let mut warnings: Vec<String> = Vec::new();
    if any_zero {
        warnings.push(SHARE_BALANCE_ZERO_WARNING.to_string());
    }
    let ghost w1 = warnings@.map_values(|w: String| w@);
    if start <= a {
        let mut msg = String::from_str("Some transactions to be summarized (between ");
        msg.append(deltas[start].tx.trade_date.to_string().as_str());
        msg.append(" and ");
        msg.append(deltas[a].tx.trade_date.to_string().as_str());
        msg.append(") could not be due to superficial-loss conflicts");
        proof {
            assert(msg@ == conflict_warning(ds[start as int], ds[a as int]));
        }
        warnings.push(msg);
    }
    let ghost w2 = warnings@.map_values(|w: String| w@);
    let last_affecting_day = get_last_day_in_superficial_loss_period(
        get_last_day_in_superficial_loss_period(deltas[a].tx.settlement_date),
    );
    if !last_affecting_day.before(&today) {
        warnings.push(SUMMARY_TOO_RECENT_WARNING.to_string());
    }
    proof {
        let any = exists|q: int| 0 <= q < bwarns.len() && #[trigger] bwarns[q].len() > 0;
        assert(any == any_zero);
        assert(w1 =~= (if any_zero {
            seq![SHARE_BALANCE_ZERO_WARNING@]
        } else {
            Seq::<Seq<char>>::empty()
        }));
        assert(warnings@.map_values(|w: String| w@) =~= summary_warnings(
            ds,
            a as nat,
            lastn,
            today.day_number(),
            any,
        ));
        assert(summary_parts_ok(
            ds,
            a as nat,
            lastn,
            split_annual_gains,
            today.day_number(),
            out@,
            warnings@,
            blocks,
            bwarns,
        ));
    }
    Ok((out, warnings))
}

/// The summary as of today (see `make_summary_txs_as_of`; the day is read
/// from the local clock, so nothing more is said of it).
pub fn make_summary_txs(latest_date: Date, deltas: &Vec<TxDelta>, split_annual_gains: bool) -> (r:
    Result<(Vec<Tx>, Vec<String>), String>)
    requires
        kept_sfls_specifiable(deltas@, latest_date.day_number()),
    ensures
        r is Err <==> summary_fails(deltas@, latest_date.day_number(), split_annual_gains),
        r is Err ==> r->Err_0@ == SUMMARY_OVERFLOW_ERROR@,
        r is Ok ==> exists|today: int|
            #[trigger] summary_result_ok(
                deltas@,
                latest_date.day_number(),
                split_annual_gains,
                today,
                r->Ok_0.0@,
                r->Ok_0.1@,
            ),
{
    let today = today_local();
    make_summary_txs_as_of(latest_date, deltas, split_annual_gains, today)
}

/// The summaries of several securities, with the securities that gave each
/// warning.
pub struct CollectedSummaryData {
    pub txs: Vec<Tx>,
    /// Each warning (in the order first given) with the securities whose
    /// summaries gave it.
    pub warnings: Vec<(String, Vec<String>)>,
}

pub open spec fn entry_name(entries: Seq<(String, Vec<TxDelta>)>, i: usize) -> Seq<char> {
    entries[i as int].0@
}

/// `x` put before the first index whose security orders after its own.
pub open spec fn insert_by_name(entries: Seq<(String, Vec<TxDelta>)>, s: Seq<usize>, x: usize) -> Seq<
    usize,
>
    decreases s.len(),
{
    if s.len() == 0 {
        seq![x]
    } else if chars_lt(entry_name(entries, x), entry_name(entries, s[0])) {
        seq![x] + s
    } else {
        seq![s[0]] + insert_by_name(entries, s.drop_first(), x)
    }
}

/// The indices `0..n` ordered by security (a stable insertion sort).
pub open spec fn sort_by_name(entries: Seq<(String, Vec<TxDelta>)>, n: nat) -> Seq<usize>
    decreases n,
{
    if n == 0 {
        Seq::empty()
    } else {
        insert_by_name(entries, sort_by_name(entries, (n - 1) as nat), (n - 1) as usize)
    }
}

pub type WarningGroups = Seq<(Seq<char>, Seq<Seq<char>>)>;

/// Where the warning `w` stands among the groups (-1: absent).
pub open spec fn warning_pos(g: WarningGroups, w: Seq<char>) -> int
    decreases g.len(),
{
    if g.len() == 0 {
        -1
    } else if g.last().0 == w {
        g.len() - 1
    } else {
        warning_pos(g.drop_last(), w)
    }
}

/// `name` added to the group of the warning `w` (a new group where there is
/// none).
pub open spec fn add_warning(g: WarningGroups, w: Seq<char>, name: Seq<char>) -> WarningGroups {
    let k = warning_pos(g, w);
    if k < 0 {
        g.push((w, seq![name]))
    } else {
        g.update(k, (w, g[k].1.push(name)))
    }
}

pub open spec fn add_warnings(g: WarningGroups, ws: Seq<Seq<char>>, name: Seq<char>) -> WarningGroups
    decreases ws.len(),
{
    if ws.len() == 0 {
        g
    } else {
        add_warning(add_warnings(g, ws.drop_last(), name), ws.last(), name)
    }
}

/// The warnings of the securities `names` grouped by warning.
pub open spec fn group_warnings(names: Seq<Seq<char>>, warns: Seq<Seq<Seq<char>>>) -> WarningGroups
    decreases names.len(),
{
    if names.len() == 0 || warns.len() == 0 {
        Seq::empty()
    } else {
        add_warnings(
            group_warnings(names.drop_last(), warns.drop_last()),
            warns.last(),
            names.last(),
        )
    }
}

pub open spec fn groups_view(w: Seq<(String, Vec<String>)>) -> WarningGroups {
    w.map_values(|p: (String, Vec<String>)| (p.0@, p.1@.map_values(|s: String| s@)))
}

pub open spec fn flatten_results(res: Seq<(Seq<Tx>, Seq<String>)>) -> Seq<Tx>
    decreases res.len(),
{
    if res.len() == 0 {
        Seq::empty()
    } else {
        flatten_results(res.drop_last()) + res.last().0
    }
}

/// `txs` and `warnings` are made of the summaries `res` of the securities in
/// the order `order`.
pub open spec fn aggregate_parts_ok(
    entries: Seq<(String, Vec<TxDelta>)>,
    order: Seq<usize>,
    latest: int,
    split: bool,
    today: int,
    res: Seq<(Seq<Tx>, Seq<String>)>,
    txs: Seq<Tx>,
    warnings: WarningGroups,
) -> bool {
    &&& res.len() == order.len()
    &&& forall|k: int|
        0 <= k < res.len() ==> summary_result_ok(
            entries[order[k] as int].1@,
            latest,
            split,
            today,
            (#[trigger] res[k]).0,
            res[k].1,
        )
    &&& txs == flatten_results(res)
    &&& warnings == group_warnings(
        order.map_values(|i: usize| entries[i as int].0@),
        res.map_values(|r: (Seq<Tx>, Seq<String>)| r.1.map_values(|s: String| s@)),
    )
}

/// `data` holds the summaries of the securities of `entries`, in the order
/// of the securities, with their warnings grouped.
pub open spec fn aggregate_ok(
    entries: Seq<(String, Vec<TxDelta>)>,
    latest: int,
    split: bool,
    today: int,
    data: CollectedSummaryData,
) -> bool {
    exists|res: Seq<(Seq<Tx>, Seq<String>)>|
        #[trigger] aggregate_parts_ok(
            entries,
            sort_by_name(entries, entries.len()),
            latest,
            split,
            today,
            res,
            data.txs@,
            groups_view(data.warnings@),
        )
}

proof fn lemma_insert_by_name_at(entries: Seq<(String, Vec<TxDelta>)>, s: Seq<usize>, x: usize, pos: int)
    requires
        0 <= pos <= s.len(),
        forall|j: int|
            0 <= j < pos ==> !chars_lt(entry_name(entries, x), entry_name(entries, #[trigger] s[j])),
        pos < s.len() ==> chars_lt(entry_name(entries, x), entry_name(entries, s[pos])),
    ensures
        insert_by_name(entries, s, x) == s.insert(pos, x),
    decreases s.len(),
{
    if s.len() == 0 {
        assert(s.insert(pos, x) =~= seq![x]);
    } else if pos == 0 {
        assert(s.insert(pos, x) =~= seq![x] + s);
    } else {
        let t = s.drop_first();
        assert forall|j: int| 0 <= j < pos - 1 implies !chars_lt(
            entry_name(entries, x),
            entry_name(entries, #[trigger] t[j]),
        ) by {
            assert(t[j] == s[j + 1]);
        }
        lemma_insert_by_name_at(entries, t, x, pos - 1);
        assert(s.insert(pos, x) =~= seq![s[0]] + t.insert(pos - 1, x));
    }
}

proof fn lemma_insert_by_name_bounded(
    entries: Seq<(String, Vec<TxDelta>)>,
    s: Seq<usize>,
    x: usize,
    n: int,
)
    requires
        x < n,
        forall|k: int| 0 <= k < s.len() ==> s[k] < n,
    ensures
        forall|k: int|
            0 <= k < insert_by_name(entries, s, x).len() ==> #[trigger] insert_by_name(
                entries,
                s,
                x,
            )[k] < n,
    decreases s.len(),
{
    if s.len() > 0 && !chars_lt(entry_name(entries, x), entry_name(entries, s[0])) {
        lemma_insert_by_name_bounded(entries, s.drop_first(), x, n);
        assert forall|k: int|
            0 <= k < insert_by_name(entries, s, x).len() implies #[trigger] insert_by_name(
            entries,
            s,
            x,
        )[k] < n by {
            if k > 0 {
                assert(insert_by_name(entries, s, x)[k] == insert_by_name(
                    entries,
                    s.drop_first(),
                    x,
                )[k - 1]);
            }
        }
    }
}

proof fn lemma_insert_by_name_has(entries: Seq<(String, Vec<TxDelta>)>, s: Seq<usize>, x: usize)
    ensures
        insert_by_name(entries, s, x).contains(x),
        forall|y: usize| s.contains(y) ==> insert_by_name(entries, s, x).contains(y),
    decreases s.len(),
{
    let r = insert_by_name(entries, s, x);
    if s.len() == 0 {
        assert(r[0] == x);
    } else if chars_lt(entry_name(entries, x), entry_name(entries, s[0])) {
        assert(r[0] == x);
        assert forall|y: usize| s.contains(y) implies r.contains(y) by {
            let j = choose|j: int| 0 <= j < s.len() && s[j] == y;
            assert(r[j + 1] == y);
        }
    } else {
        let t = s.drop_first();
        lemma_insert_by_name_has(entries, t, x);
        let rt = insert_by_name(entries, t, x);
        let j0 = choose|j: int| 0 <= j < rt.len() && rt[j] == x;
        assert(r[j0 + 1] == x);
        assert forall|y: usize| s.contains(y) implies r.contains(y) by {
            let j = choose|j: int| 0 <= j < s.len() && s[j] == y;
            if j == 0 {
                assert(r[0] == y);
            } else {
                assert(t[j - 1] == y);
                assert(t.contains(y));
                let i = choose|i: int| 0 <= i < rt.len() && rt[i] == y;
                assert(r[i + 1] == y);
            }
        }
    }
}

proof fn lemma_sort_by_name_has_all(entries: Seq<(String, Vec<TxDelta>)>, n: nat)
    requires
        n <= usize::MAX,
    ensures
        forall|i: usize| i < n ==> #[trigger] sort_by_name(entries, n).contains(i),
    decreases n,
{
    if n > 0 {
        let prev = sort_by_name(entries, (n - 1) as nat);
        lemma_sort_by_name_has_all(entries, (n - 1) as nat);
        lemma_insert_by_name_has(entries, prev, (n - 1) as usize);
        assert(sort_by_name(entries, n) == insert_by_name(entries, prev, (n - 1) as usize));
        assert forall|i: usize| i < n implies #[trigger] sort_by_name(entries, n).contains(i) by {
            if i < n - 1 {
                assert(prev.contains(i));
            }
        }
    }
}

/// The indices of the entries ordered by security.
fn sort_entries_by_name(entries: &Vec<(String, Vec<TxDelta>)>) -> (r: Vec<usize>)
    ensures
        r@ == sort_by_name(entries@, entries@.len()),
        forall|k: int| 0 <= k < r@.len() ==> r@[k] < entries@.len(),
{
    let mut out: Vec<usize> = Vec::new();
    let mut i: usize = 0;
    while i < entries.len()
        invariant
            i <= entries@.len(),
            out@ == sort_by_name(entries@, i as nat),
            forall|k: int| 0 <= k < out@.len() ==> out@[k] < i,
        decreases entries@.len() - i,
    {
        let mut pos: usize = 0;
        while pos < out.len() && !str_lt(entries[i].0.as_str(), entries[out[pos]].0.as_str())
            invariant
                pos <= out@.len(),
                i < entries@.len(),
                forall|k: int| 0 <= k < out@.len() ==> out@[k] < i,
                forall|j: int|
                    0 <= j < pos ==> !chars_lt(
                        entry_name(entries@, i),
                        entry_name(entries@, #[trigger] out@[j]),
                    ),
            decreases out@.len() - pos,
        {
            pos += 1;
        }
        proof {
            lemma_insert_by_name_at(entries@, out@, i, pos as int);
            assert forall|k: int| 0 <= k < out@.len() implies out@[k] < i + 1 by {}
            lemma_insert_by_name_bounded(entries@, out@, i, i + 1);
        }
        out.insert(pos, i);
        i += 1;
    }
    out
}

/// Adds `name` to the group of the warning `w`.
fn add_warning_exec(groups: &mut Vec<(String, Vec<String>)>, w: &String, name: &String)
    ensures
        groups_view(final(groups)@) == add_warning(groups_view(old(groups)@), w@, name@),
{
    let ghost g0 = groups_view(groups@);
    let mut k: usize = groups.len();
    let mut pos: Option<usize> = None;
    proof {
        assert(g0.subrange(0, k as int) =~= g0);
    }
    while k > 0
        invariant_except_break
            k <= groups@.len(),
            g0 == groups_view(groups@),
            pos is None,
            warning_pos(g0, w@) == warning_pos(g0.subrange(0, k as int), w@),
        ensures
            g0 == groups_view(groups@),
            match pos {
                Some(p) => warning_pos(g0, w@) == p && p < groups@.len(),
                None => warning_pos(g0, w@) == -1,
            },
        decreases k,
    {
        proof {
            assert(g0.subrange(0, k as int).drop_last() =~= g0.subrange(0, k - 1));
        }
        if str_eq_string(&groups[k - 1].0, w) {
            pos = Some(k - 1);
            break;
        }
        k -= 1;
    }
    match pos {
        Some(p) => {
            proof {
                lemma_warning_pos_bounds(g0, w@);
            }
            let ghost old_groups = groups@;
            let mut entry = groups.remove(p);
            let ghost e0 = entry;
            let nm = name.clone();
            entry.1.push(nm);
            groups.insert(p, entry);
            proof {
                let gv = groups_view(groups@);
                let target = g0.update(p as int, (w@, g0[p as int].1.push(name@)));
                assert(entry.1@.map_values(|s: String| s@) =~= e0.1@.map_values(|s: String| s@).push(
                    name@,
                ));
                assert(gv.len() == target.len());
                assert forall|j: int| 0 <= j < gv.len() implies gv[j] == target[j] by {
                    if j != p {
                        assert(groups@[j] == old_groups[j]);
                    }
                }
                assert(gv =~= target);
            }
        },
        None => {
            let ghost old_groups = groups@;
            groups.push((w.clone(), vec![name.clone()]));
            proof {
                let gv = groups_view(groups@);
                let target = g0.push((w@, seq![name@]));
                assert(groups@[old_groups.len() as int].1@.map_values(|s: String| s@) =~= seq![
                    name@,
                ]);
                assert forall|j: int| 0 <= j < gv.len() implies gv[j] == target[j] by {
                    if j < old_groups.len() {
                        assert(groups@[j] == old_groups[j]);
                    }
                }
                assert(gv =~= target);
            }
        },
    }
}

proof fn lemma_warning_pos_bounds(g: WarningGroups, w: Seq<char>)
    ensures
        -1 <= warning_pos(g, w) < g.len(),
        warning_pos(g, w) >= 0 ==> g[warning_pos(g, w)].0 == w,
    decreases g.len(),
{
    if g.len() > 0 && g.last().0 != w {
        lemma_warning_pos_bounds(g.drop_last(), w);
    }
}

fn str_eq_string(a: &String, b: &String) -> (r: bool)
    ensures
        r == (a@ == b@),
{
    crate::util::text::str_eq(a.as_str(), b.as_str())
}

/// The summaries of the securities of `deltas_by_sec` (each as
/// `make_summary_txs_as_of` makes it), in the order of the securities, with
/// their warnings grouped. Fails where a security's summary fails.
pub fn make_aggregate_summary_txs_as_of(
    latest_date: Date,
    deltas_by_sec: &Vec<(String, Vec<TxDelta>)>,
    split_annual_gains: bool,
    today: Date,
) -> (r: Result<CollectedSummaryData, String>)
    requires
        forall|k: int|
            0 <= k < deltas_by_sec@.len() ==> kept_sfls_specifiable(
                (#[trigger] deltas_by_sec@[k]).1@,
                latest_date.day_number(),
            ),
    ensures
        r is Err <==> exists|k: int|
            0 <= k < deltas_by_sec@.len() && summary_fails(
                (#[trigger] deltas_by_sec@[k]).1@,
                latest_date.day_number(),
                split_annual_gains,
            ),
        r is Err ==> r->Err_0@ == SUMMARY_OVERFLOW_ERROR@,
        r is Ok ==> aggregate_ok(
            deltas_by_sec@,
            latest_date.day_number(),
            split_annual_gains,
            today.day_number(),
            r->Ok_0,
        ),
{
    let ghost es = deltas_by_sec@;
    let ghost latest = latest_date.day_number();
    let ghost td = today.day_number();
    let n = deltas_by_sec.len();
    let order = sort_entries_by_name(deltas_by_sec);
    proof {
        lemma_sort_by_name_has_all(es, es.len());
    }
    let ghost names = order@.map_values(|i: usize| es[i as int].0@);
    let mut txs: Vec<Tx> = Vec::new();
    let mut groups: Vec<(String, Vec<String>)> = Vec::new();
    let ghost mut res: Seq<(Seq<Tx>, Seq<String>)> = Seq::empty();
    let mut k: usize = 0;
    while k < order.len()
        invariant
            es == deltas_by_sec@,
            latest == latest_date.day_number(),
            td == today.day_number(),
            order@ == sort_by_name(es, es.len()),
            names == order@.map_values(|i: usize| es[i as int].0@),
            forall|q: int| 0 <= q < order@.len() ==> order@[q] < es.len(),
            forall|q: int|
                0 <= q < es.len() ==> kept_sfls_specifiable(
                    (#[trigger] es[q]).1@,
                    latest,
                ),
            k <= order@.len(),
            res.len() == k,
            forall|q: int|
                0 <= q < k ==> summary_result_ok(
                    es[order@[q] as int].1@,
                    latest,
                    split_annual_gains,
                    td,
                    (#[trigger] res[q]).0,
                    res[q].1,
                ),
            forall|q: int|
                0 <= q < k ==> !summary_fails(
                    es[(#[trigger] order@[q]) as int].1@,
                    latest,
                    split_annual_gains,
                ),
            txs@ == flatten_results(res),
            groups_view(groups@) == group_warnings(
                names.subrange(0, k as int),
                res.map_values(|r: (Seq<Tx>, Seq<String>)| r.1.map_values(|s: String| s@)),
            ),
        decreases order@.len() - k,
    {
        let i = order[k];
        let entry = &deltas_by_sec[i];
        match make_summary_txs_as_of(latest_date, &entry.1, split_annual_gains, today) {
            Err(e) => {
                proof {
                    assert(summary_fails(es[i as int].1@, latest, split_annual_gains));
                }
                return Err(e);
            },
            Ok((stxs, swarns)) => {
                let ghost before_txs = txs@;
                let mut t: usize = 0;
                while t < stxs.len()
                    invariant
                        t <= stxs@.len(),
                        txs@ == before_txs + stxs@.subrange(0, t as int),
                    decreases stxs@.len() - t,
                {
                    txs.push(stxs[t].clone_tx());
                    proof {
                        assert(before_txs + stxs@.subrange(0, t + 1) =~= (before_txs
                            + stxs@.subrange(0, t as int)).push(stxs@[t as int]));
                    }
                    t += 1;
                }
                let ghost g0 = groups_view(groups@);
                let ghost wv = swarns@.map_values(|s: String| s@);
                let mut u: usize = 0;
                proof {
                    assert(wv.subrange(0, 0) =~= Seq::<Seq<char>>::empty());
                }
                while u < swarns.len()
                    invariant
                        u <= swarns@.len(),
                        wv == swarns@.map_values(|s: String| s@),
                        groups_view(groups@) == add_warnings(g0, wv.subrange(0, u as int), entry.0@),
                    decreases swarns@.len() - u,
                {
                    add_warning_exec(&mut groups, &swarns[u], &entry.0);
                    proof {
                        assert(wv.subrange(0, u + 1).drop_last() =~= wv.subrange(0, u as int));
                    }
                    u += 1;
                }
                let ghost old_res = res;
                proof {
                    res = res.push((stxs@, swarns@));
                    assert(res.drop_last() =~= old_res);
                    assert(txs@ =~= flatten_results(res)) by {
                        assert(stxs@.subrange(0, stxs@.len() as int) =~= stxs@);
                    }
                    assert(wv.subrange(0, wv.len() as int) =~= wv);
                    let rw = res.map_values(|r: (Seq<Tx>, Seq<String>)| r.1.map_values(|s: String| s@));
                    let orw = old_res.map_values(
                        |r: (Seq<Tx>, Seq<String>)| r.1.map_values(|s: String| s@),
                    );
                    assert(rw.drop_last() =~= orw);
                    assert(names.subrange(0, k + 1).drop_last() =~= names.subrange(0, k as int));
                    assert forall|q: int|
                        0 <= q < k + 1 implies summary_result_ok(
                        es[order@[q] as int].1@,
                        latest,
                        split_annual_gains,
                        td,
                        (#[trigger] res[q]).0,
                        res[q].1,
                    ) by {
                        if q < k {
                            assert(res[q] == old_res[q]);
                        }
                    }
                }
            },
        }
        k += 1;
    }
    proof {
        assert(names.subrange(0, k as int) =~= names);
        assert forall|q: int| 0 <= q < es.len() implies !summary_fails(
            (#[trigger] es[q]).1@,
            latest,
            split_annual_gains,
        ) by {
            assert(order@.contains(q as usize));
            let j = choose|j: int| 0 <= j < order@.len() && order@[j] == q as usize;
            assert(!summary_fails(es[order@[j] as int].1@, latest, split_annual_gains));
        }
        assert(aggregate_parts_ok(
            deltas_by_sec@,
            sort_by_name(deltas_by_sec@, deltas_by_sec@.len()),
            latest_date.day_number(),
            split_annual_gains,
            today.day_number(),
            res,
            txs@,
            groups_view(groups@),
        ));
    }
    let result = CollectedSummaryData { txs, warnings: groups };
    proof {
        assert(aggregate_parts_ok(
            deltas_by_sec@,
            sort_by_name(deltas_by_sec@, deltas_by_sec@.len()),
            latest_date.day_number(),
            split_annual_gains,
            today.day_number(),
            res,
            result.txs@,
            groups_view(result.warnings@),
        ));
        assert(aggregate_ok(deltas_by_sec@, latest_date.day_number(), split_annual_gains, today.day_number(), result));
    }
    Ok(result)
}

/// The summaries as of today (see `make_aggregate_summary_txs_as_of`; the day
/// is read from the local clock, so nothing more is said of it).
pub fn make_aggregate_summary_txs(
    latest_date: Date,
    deltas_by_sec: &Vec<(String, Vec<TxDelta>)>,
    split_annual_gains: bool,
) -> (r: Result<CollectedSummaryData, String>)
    requires
        forall|k: int|
            0 <= k < deltas_by_sec@.len() ==> kept_sfls_specifiable(
                (#[trigger] deltas_by_sec@[k]).1@,
                latest_date.day_number(),
            ),
    ensures
        r is Err <==> exists|k: int|
            0 <= k < deltas_by_sec@.len() && summary_fails(
                (#[trigger] deltas_by_sec@[k]).1@,
                latest_date.day_number(),
                split_annual_gains,
            ),
        r is Err ==> r->Err_0@ == SUMMARY_OVERFLOW_ERROR@,
        r is Ok ==> exists|today: int|
            #[trigger] aggregate_ok(
                deltas_by_sec@,
                latest_date.day_number(),
                split_annual_gains,
                today,
                r->Ok_0,
            ),
{
    let today = today_local();
    make_aggregate_summary_txs_as_of(latest_date, deltas_by_sec, split_annual_gains, today)
}

/// How many transactions the first `k` summaries hold together.
pub open spec fn summary_counts_upto(res: Seq<(Seq<Tx>, Seq<String>)>, k: nat) -> nat
    decreases k,
{
    if k == 0 {
        0
    } else {
        summary_counts_upto(res, (k - 1) as nat) + res[k - 1].0.len()
    }
}

/// The flattened summaries are every summary, one after the other: as many
/// transactions as all summaries hold, the `k`-th summary standing after the
/// transactions of those before it.
pub proof fn law_flatten_concatenates(res: Seq<(Seq<Tx>, Seq<String>)>)
    ensures
        flatten_results(res).len() == summary_counts_upto(res, res.len()),
        forall|k: int, i: int|
            0 <= k < res.len() && 0 <= i < res[k].0.len() ==> flatten_results(res)[summary_counts_upto(
                res,
                k as nat,
            ) + i] == #[trigger] res[k].0[i],
    decreases res.len(),
{
    if res.len() > 0 {
        let d = res.drop_last();
        law_flatten_concatenates(d);
        assert forall|k: int| 0 <= k <= d.len() implies #[trigger] summary_counts_upto(d, k as nat)
            == summary_counts_upto(res, k as nat) by {
            lemma_counts_prefix(res, d, k as nat);
        }
        assert forall|k: int, i: int|
            0 <= k < res.len() && 0 <= i < res[k].0.len() implies flatten_results(
                res,
            )[summary_counts_upto(res, k as nat) + i] == #[trigger] res[k].0[i] by {
            if k < d.len() {
                assert(d[k] == res[k]);
                lemma_counts_le(d, k as nat + 1, d.len());
            }
        }
    }
}

proof fn lemma_counts_prefix(res: Seq<(Seq<Tx>, Seq<String>)>, d: Seq<(Seq<Tx>, Seq<String>)>, k: nat)
    requires
        res.len() > 0,
        d == res.drop_last(),
        k <= d.len(),
    ensures
        summary_counts_upto(d, k) == summary_counts_upto(res, k),
    decreases k,
{
    if k > 0 {
        lemma_counts_prefix(res, d, (k - 1) as nat);
        assert(d[k - 1] == res[k - 1]);
    }
}

proof fn lemma_counts_le(res: Seq<(Seq<Tx>, Seq<String>)>, a: nat, b: nat)
    requires
        a <= b <= res.len(),
    ensures
        summary_counts_upto(res, a) <= summary_counts_upto(res, b),
    decreases b,
{
    if a < b {
        lemma_counts_le(res, a, (b - 1) as nat);
    }
}

/// The aggregate summary holds every security's summary, one after the
/// other in the order of the securities' names: its transactions number as
/// many as all the securities' summaries together, and each security's
/// summary (the one its own deltas give) stands in it whole.
pub proof fn law_aggregate_summary_concatenates(
    entries: Seq<(String, Vec<TxDelta>)>,
    latest: int,
    split: bool,
    today: int,
    data: CollectedSummaryData,
)
    requires
        aggregate_ok(entries, latest, split, today, data),
    ensures
        exists|res: Seq<(Seq<Tx>, Seq<String>)>|
            {
                &&& res.len() == sort_by_name(entries, entries.len()).len()
                &&& forall|k: int|
                    0 <= k < res.len() ==> summary_result_ok(
                        entries[sort_by_name(entries, entries.len())[k] as int].1@,
                        latest,
                        split,
                        today,
                        (#[trigger] res[k]).0,
                        res[k].1,
                    )
                &&& data.txs@.len() == summary_counts_upto(res, res.len())
                &&& forall|k: int, i: int|
                    0 <= k < res.len() && 0 <= i < res[k].0.len() ==> data.txs@[summary_counts_upto(
                        res,
                        k as nat,
                    ) + i] == #[trigger] res[k].0[i]
            },
{
    let res = choose|res: Seq<(Seq<Tx>, Seq<String>)>|
        #[trigger] aggregate_parts_ok(
            entries,
            sort_by_name(entries, entries.len()),
            latest,
            split,
            today,
            res,
            data.txs@,
            groups_view(data.warnings@),
        );
    law_flatten_concatenates(res);
}

} // verus!
