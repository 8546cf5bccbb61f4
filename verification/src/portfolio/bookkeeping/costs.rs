//! The total cost (ACB) of the portfolio over time: for each day with a
//! settlement, the highest ACB of each security that day, and their total;
//! and for each year, the day with the highest total.

use vstd::prelude::*;
use crate::portfolio::txdelta::TxDelta;
use crate::util::date::{date_display, date_year, Date};
use crate::util::decimal::{
    decimal_checked_add, decimal_checked_sub, value_lt, Dec, GreaterEqualZeroDecimal,
};
use crate::util::text::{starts_with_spec, str_eq};

verus! {

/// The ACB of each held security on one day (by settlement date), and their
/// total.
pub struct MaxSingleDayCosts {
    pub day: Date,
    pub total: GreaterEqualZeroDecimal,
    /// Each security (once) with its highest ACB that day.
    pub sec_max_cost_for_day: Vec<(String, GreaterEqualZeroDecimal)>,
}

/// A day's costs as values.
pub struct DayCostsView {
    pub day: int,
    pub total: Dec,
    pub costs: Seq<(Seq<char>, Dec)>,
}

pub open spec fn costs_view(m: Seq<(String, GreaterEqualZeroDecimal)>) -> Seq<(Seq<char>, Dec)> {
    m.map_values(|p: (String, GreaterEqualZeroDecimal)| (p.0@, p.1@))
}

impl View for MaxSingleDayCosts {
    type V = DayCostsView;

    open spec fn view(&self) -> DayCostsView {
        DayCostsView {
            day: self.day.day_number(),
            total: self.total@,
            costs: costs_view(self.sec_max_cost_for_day@),
        }
    }
}

pub open spec fn zero_cost() -> Dec {
    Dec::spec_new(0, 0)
}

/// Where the security `sec` stands in the list (-1: absent).
pub open spec fn cost_pos(m: Seq<(Seq<char>, Dec)>, sec: Seq<char>) -> int
    decreases m.len(),
{
    if m.len() == 0 {
        -1
    } else if m.last().0 == sec {
        m.len() - 1
    } else {
        cost_pos(m.drop_last(), sec)
    }
}

/// The cost recorded for `sec`.
pub open spec fn cost_of(m: Seq<(Seq<char>, Dec)>, sec: Seq<char>) -> Option<Dec> {
    let k = cost_pos(m, sec);
    if k < 0 {
        None
    } else {
        Some(m[k].1)
    }
}

/// The list with the cost of `sec` set to `v`.
pub open spec fn cost_set(m: Seq<(Seq<char>, Dec)>, sec: Seq<char>, v: Dec) -> Seq<(Seq<char>, Dec)> {
    let k = cost_pos(m, sec);
    if k < 0 {
        m.push((sec, v))
    } else {
        m.update(k, (sec, v))
    }
}

/// The larger of two costs (the new one where they are equal), as `max`
/// picks it.
pub open spec fn cost_max(old: Dec, new: Dec) -> Dec {
    if value_lt(new, old) {
        old
    } else {
        new
    }
}

/// The day's costs after a cost of `new` is seen for `sec`: the security's
/// cost becomes the larger of its old one (zero where none) and `new`, and
/// the total moves by the difference. `None` where the total overflows or
/// would turn negative.
pub open spec fn observe_spec(v: DayCostsView, sec: Seq<char>, new: Dec) -> Option<DayCostsView> {
    let old = match cost_of(v.costs, sec) {
        Some(c) => c,
        None => zero_cost(),
    };
    let cur = cost_max(old, new);
    match decimal_checked_sub(v.total, old) {
        None => None,
        Some(t1) => match decimal_checked_add(t1, cur) {
            None => None,
            Some(t2) => if t2.mant() >= 0 {
                Some(DayCostsView { day: v.day, total: t2, costs: cost_set(v.costs, sec, cur) })
            } else {
                None
            },
        },
    }
}

/// The error where a day's total overflows or turns negative.
pub const COSTS_TOTAL_ERROR: &'static str = "Total cost overflowed or was negative";

proof fn lemma_cost_pos_bounds(m: Seq<(Seq<char>, Dec)>, sec: Seq<char>)
    ensures
        -1 <= cost_pos(m, sec) < m.len(),
        cost_pos(m, sec) >= 0 ==> m[cost_pos(m, sec)].0 == sec,
    decreases m.len(),
{
    if m.len() > 0 && m.last().0 != sec {
        lemma_cost_pos_bounds(m.drop_last(), sec);
    }
}

/// Where `sec` stands among the costs (see `cost_pos`).
fn find_cost(m: &Vec<(String, GreaterEqualZeroDecimal)>, sec: &String) -> (r: Option<usize>)
    ensures
        match r {
            Some(k) => cost_pos(costs_view(m@), sec@) == k && k < m@.len(),
            None => cost_pos(costs_view(m@), sec@) == -1,
        },
{
    let ghost cv = costs_view(m@);
    let mut k: usize = m.len();
    proof {
        assert(cv.subrange(0, k as int) =~= cv);
    }
    while k > 0
        invariant
            k <= m@.len(),
            cv == costs_view(m@),
            cost_pos(cv, sec@) == cost_pos(cv.subrange(0, k as int), sec@),
        decreases k,
    {
        proof {
            assert(cv.subrange(0, k as int).drop_last() =~= cv.subrange(0, k - 1));
        }
        if str_eq(m[k - 1].0.as_str(), sec.as_str()) {
            return Some(k - 1);
        }
        k -= 1;
    }
    None
}

impl MaxSingleDayCosts {
    /// No costs yet on the day `d`.
    pub fn new(d: Date) -> (r: Self)
        ensures
            r@ == (DayCostsView { day: d.day_number(), total: zero_cost(), costs: Seq::empty() }),
    {
        let r = MaxSingleDayCosts {
            day: d,
            total: GreaterEqualZeroDecimal::zero(),
            sec_max_cost_for_day: Vec::new(),
        };
        proof {
            assert(costs_view(r.sec_max_cost_for_day@) =~= Seq::empty());
        }
        r
    }

    /// Records a cost of `new_cost` seen for `sec` (see `observe_spec`); on an
    /// error the costs are left as they were.
    pub fn observe_new_cost(&mut self, sec: &String, new_cost: GreaterEqualZeroDecimal) -> (r: Result<
        (),
        String,
    >)
        ensures
            match observe_spec(old(self)@, sec@, new_cost@) {
                Some(v) => r is Ok && final(self)@ == v,
                None => r is Err && r->Err_0@ == COSTS_TOTAL_ERROR@ && final(self)@ == old(self)@,
            },
    {
        let ghost v0 = self@;
        let pos = find_cost(&self.sec_max_cost_for_day, sec);
        let old_cost = match pos {
            Some(k) => self.sec_max_cost_for_day[k].1,
            None => GreaterEqualZeroDecimal::zero(),
        };
        let cur = if new_cost.get().lt(&old_cost.get()) {
            old_cost
        } else {
            new_cost
        };
        let t1 = match self.total.get().checked_sub(&old_cost.get()) {
            Some(x) => x,
            None => {
                return Err(COSTS_TOTAL_ERROR.to_string());
            },
        };
        let t2 = match t1.checked_add(&cur.get()) {
            Some(x) => x,
            None => {
                return Err(COSTS_TOTAL_ERROR.to_string());
            },
        };
        let total = match GreaterEqualZeroDecimal::try_from(t2) {
            Ok(t) => t,
            Err(_) => {
                return Err(COSTS_TOTAL_ERROR.to_string());
            },
        };
        let ghost m0 = self.sec_max_cost_for_day@;
        match pos {
            Some(k) => {
                self.sec_max_cost_for_day.set(k, (sec.clone(), cur));
                proof {
                    assert(costs_view(self.sec_max_cost_for_day@) =~= costs_view(m0).update(
                        k as int,
                        (sec@, cur@),
                    ));
                }
            },
            None => {
                self.sec_max_cost_for_day.push((sec.clone(), cur));
                proof {
                    assert(costs_view(self.sec_max_cost_for_day@) =~= costs_view(m0).push(
                        (sec@, cur@),
                    ));
                }
            },
        }
        self.total = total;
        Ok(())
    }

    /// The cost recorded for `sec`.
    pub fn cost_of(&self, sec: &String) -> (r: Option<GreaterEqualZeroDecimal>)
        ensures
            match cost_of(self@.costs, sec@) {
                Some(c) => r is Some && r->0@ == c,
                None => r is None,
            },
    {
        match find_cost(&self.sec_max_cost_for_day, sec) {
            Some(k) => Some(self.sec_max_cost_for_day[k].1),
            None => None,
        }
    }
}

/// What a scan of the deltas has gathered: each day's costs (days in the
/// order first seen), the securities seen, the notes on the deltas left out,
/// and each security's first day and the cost before its first delta.
pub struct CostsScan {
    pub days: Seq<DayCostsView>,
    pub secs: Seq<Seq<char>>,
    pub ignored: Seq<Seq<char>>,
    pub first: Seq<(Seq<char>, int, Dec)>,
}

pub open spec fn day_pos(days: Seq<DayCostsView>, day: int) -> int
    decreases days.len(),
{
    if days.len() == 0 {
        -1
    } else if days.last().day == day {
        days.len() - 1
    } else {
        day_pos(days.drop_last(), day)
    }
}

pub open spec fn first_pos(first: Seq<(Seq<char>, int, Dec)>, sec: Seq<char>) -> int
    decreases first.len(),
{
    if first.len() == 0 {
        -1
    } else if first.last().0 == sec {
        first.len() - 1
    } else {
        first_pos(first.drop_last(), sec)
    }
}

pub open spec fn registered_note(d: TxDelta) -> Seq<char> {
    date_display(d.tx.settlement_date.day_number()) + " ("@ + d.post_status.security@
        + ") ignored transaction from registered affiliate"@
}

pub open spec fn non_default_note(d: TxDelta) -> Seq<char> {
    date_display(d.tx.settlement_date.day_number()) + " ("@ + d.post_status.security@
        + ") ignored transaction from non-default affiliate "@ + d.tx.affiliate@.name
}

pub open spec fn no_acb_error(sec: Seq<char>) -> Seq<char> {
    "Deltas for "@ + sec + " have no ACB before their first"@
}

pub open spec fn unsorted_error(sec: Seq<char>) -> Seq<char> {
    "Deltas for "@ + sec + " were not sorted by settlement date"@
}

/// One delta scanned: a delta without an ACB (a registered affiliate) or of
/// an affiliate other than the default one is left out with a note; else its
/// security's cost that day is the highest seen. Fails where a total is out
/// of range, where the security's first delta has no ACB before it, and
/// where a security's deltas are not in settlement order.
pub open spec fn scan_step(s: CostsScan, d: TxDelta) -> Result<CostsScan, Seq<char>> {
    let day = d.tx.settlement_date.day_number();
    let sec = d.post_status.security@;
    match d.post_status.total_acb {
        None => Ok(CostsScan { ignored: s.ignored.push(registered_note(d)), ..s }),
        Some(acb) => if !starts_with_spec(d.tx.affiliate@.id, "default"@) {
            Ok(CostsScan { ignored: s.ignored.push(non_default_note(d)), ..s })
        } else {
            let secs = if s.secs.contains(sec) {
                s.secs
            } else {
                s.secs.push(sec)
            };
            let k = day_pos(s.days, day);
            let dv = if k < 0 {
                DayCostsView { day, total: zero_cost(), costs: Seq::empty() }
            } else {
                s.days[k]
            };
            match observe_spec(dv, sec, acb@) {
                None => Err(COSTS_TOTAL_ERROR@),
                Some(dv2) => {
                    let days = if k < 0 {
                        s.days.push(dv2)
                    } else {
                        s.days.update(k, dv2)
                    };
                    let fk = first_pos(s.first, sec);
                    if fk < 0 {
                        match d.pre_status.total_acb {
                            None => Err(no_acb_error(sec)),
                            Some(p) => Ok(
                                CostsScan {
                                    days,
                                    secs,
                                    ignored: s.ignored,
                                    first: s.first.push((sec, day, p@)),
                                },
                            ),
                        }
                    } else if s.first[fk].1 > day {
                        Err(unsorted_error(sec))
                    } else {
                        Ok(CostsScan { days, secs, ignored: s.ignored, first: s.first })
                    }
                },
            }
        },
    }
}

/// The scan of the first `n` deltas.
pub open spec fn scan_deltas(ds: Seq<TxDelta>, n: nat) -> Result<CostsScan, Seq<char>>
    decreases n,
{
    if n == 0 {
        Ok(CostsScan { days: Seq::empty(), secs: Seq::empty(), ignored: Seq::empty(), first: Seq::empty() })
    } else {
        match scan_deltas(ds, (n - 1) as nat) {
            Err(e) => Err(e),
            Ok(s) => scan_step(s, ds[n - 1]),
        }
    }
}

proof fn lemma_scan_err_stays(ds: Seq<TxDelta>, m: nat, n: nat)
    requires
        m <= n,
        scan_deltas(ds, m) is Err,
    ensures
        scan_deltas(ds, n) == scan_deltas(ds, m),
    decreases n,
{
    if n > m {
        lemma_scan_err_stays(ds, m, (n - 1) as nat);
    }
}

proof fn lemma_day_pos_bounds(days: Seq<DayCostsView>, day: int)
    ensures
        -1 <= day_pos(days, day) < days.len(),
        day_pos(days, day) >= 0 ==> days[day_pos(days, day)].day == day,
    decreases days.len(),
{
    if days.len() > 0 && days.last().day != day {
        lemma_day_pos_bounds(days.drop_last(), day);
    }
}

proof fn lemma_first_pos_bounds(first: Seq<(Seq<char>, int, Dec)>, sec: Seq<char>)
    ensures
        -1 <= first_pos(first, sec) < first.len(),
        first_pos(first, sec) >= 0 ==> first[first_pos(first, sec)].0 == sec,
    decreases first.len(),
{
    if first.len() > 0 && first.last().0 != sec {
        lemma_first_pos_bounds(first.drop_last(), sec);
    }
}

pub open spec fn days_view(v: Seq<MaxSingleDayCosts>) -> Seq<DayCostsView> {
    v.map_values(|c: MaxSingleDayCosts| c@)
}

pub open spec fn strings_view(v: Seq<String>) -> Seq<Seq<char>> {
    v.map_values(|s: String| s@)
}

pub open spec fn first_view(v: Seq<(String, Date, GreaterEqualZeroDecimal)>) -> Seq<
    (Seq<char>, int, Dec),
> {
    v.map_values(|f: (String, Date, GreaterEqualZeroDecimal)| (f.0@, f.1.day_number(), f.2@))
}

fn find_day(days: &Vec<MaxSingleDayCosts>, day: Date) -> (r: Option<usize>)
    ensures
        match r {
            Some(k) => day_pos(days_view(days@), day.day_number()) == k && k < days@.len(),
            None => day_pos(days_view(days@), day.day_number()) == -1,
        },
{
    let ghost dv = days_view(days@);
    let mut k: usize = days.len();
    proof {
        assert(dv.subrange(0, k as int) =~= dv);
    }
    while k > 0
        invariant
            k <= days@.len(),
            dv == days_view(days@),
            day_pos(dv, day.day_number()) == day_pos(dv.subrange(0, k as int), day.day_number()),
        decreases k,
    {
        proof {
            assert(dv.subrange(0, k as int).drop_last() =~= dv.subrange(0, k - 1));
        }
        if days[k - 1].day.same_day(&day) {
            return Some(k - 1);
        }
        k -= 1;
    }
    None
}

fn find_first(first: &Vec<(String, Date, GreaterEqualZeroDecimal)>, sec: &String) -> (r: Option<
    usize,
>)
    ensures
        match r {
            Some(k) => first_pos(first_view(first@), sec@) == k && k < first@.len(),
            None => first_pos(first_view(first@), sec@) == -1,
        },
{
    let ghost fv = first_view(first@);
    let mut k: usize = first.len();
    proof {
        assert(fv.subrange(0, k as int) =~= fv);
    }
    while k > 0
        invariant
            k <= first@.len(),
            fv == first_view(first@),
            first_pos(fv, sec@) == first_pos(fv.subrange(0, k as int), sec@),
        decreases k,
    {
        proof {
            assert(fv.subrange(0, k as int).drop_last() =~= fv.subrange(0, k - 1));
        }
        if str_eq(first[k - 1].0.as_str(), sec.as_str()) {
            return Some(k - 1);
        }
        k -= 1;
    }
    None
}

fn contains_string(v: &Vec<String>, s: &String) -> (r: bool)
    ensures
        r == strings_view(v@).contains(s@),
{
    let mut k: usize = 0;
    while k < v.len()
        invariant
            k <= v@.len(),
            forall|q: int| 0 <= q < k ==> v@[q]@ != s@,
        decreases v@.len() - k,
    {
        if str_eq(v[k].as_str(), s.as_str()) {
            proof {
                assert(strings_view(v@)[k as int] == s@);
            }
            return true;
        }
        k += 1;
    }
    proof {
        assert forall|q: int| 0 <= q < strings_view(v@).len() implies strings_view(v@)[q] != s@ by {
            assert(strings_view(v@)[q] == v@[q]@);
        }
    }
    false
}

/// The scan of all the deltas (see `scan_deltas`).
fn scan_all(all_deltas: &Vec<TxDelta>) -> (r: Result<
    (Vec<MaxSingleDayCosts>, Vec<String>, Vec<String>, Vec<(String, Date, GreaterEqualZeroDecimal)>),
    String,
>)
    ensures
        match scan_deltas(all_deltas@, all_deltas@.len()) {
            Err(e) => r is Err && r->Err_0@ == e,
            Ok(s) => r is Ok && days_view(r->Ok_0.0@) == s.days && strings_view(r->Ok_0.1@) == s.secs
                && strings_view(r->Ok_0.2@) == s.ignored && first_view(r->Ok_0.3@) == s.first,
        },
{
    let ghost ds = all_deltas@;
    let mut days: Vec<MaxSingleDayCosts> = Vec::new();
    let mut secs: Vec<String> = Vec::new();
    let mut ignored: Vec<String> = Vec::new();
    let mut first: Vec<(String, Date, GreaterEqualZeroDecimal)> = Vec::new();
    let mut i: usize = 0;
    proof {
        assert(days_view(days@) =~= Seq::empty());
        assert(strings_view(secs@) =~= Seq::empty());
        assert(strings_view(ignored@) =~= Seq::empty());
        assert(first_view(first@) =~= Seq::empty());
    }
    while i < all_deltas.len()
        invariant
            ds == all_deltas@,
            i <= ds.len(),
            scan_deltas(ds, i as nat) == Ok::<CostsScan, Seq<char>>(
                CostsScan {
                    days: days_view(days@),
                    secs: strings_view(secs@),
                    ignored: strings_view(ignored@),
                    first: first_view(first@),
                },
            ),
        decreases ds.len() - i,
    {
        let d = &all_deltas[i];
        let sec = &d.post_status.security;
        let ghost s0 = CostsScan {
            days: days_view(days@),
            secs: strings_view(secs@),
            ignored: strings_view(ignored@),
            first: first_view(first@),
        };
        let ghost res = scan_step(s0, *d);
        proof {
            assert(ds[i as int] == *d);
            assert(scan_deltas(ds, (i + 1) as nat) == res);
        }
        match d.post_status.total_acb {
            None => {
                let mut note = d.tx.settlement_date.to_string();
                note.append(" (");
                note.append(sec.as_str());
                note.append(") ignored transaction from registered affiliate");
                let ghost old_ignored = ignored@;
                ignored.push(note);
                proof {
                    assert(strings_view(ignored@) =~= strings_view(old_ignored).push(
                        registered_note(*d),
                    ));
                }
            },
            Some(acb) => {
                if !d.tx.affiliate.is_default() {
                    let mut note = d.tx.settlement_date.to_string();
                    note.append(" (");
                    note.append(sec.as_str());
                    note.append(") ignored transaction from non-default affiliate ");
                    note.append(d.tx.affiliate.name());
                    let ghost old_ignored = ignored@;
                    ignored.push(note);
                    proof {
                        assert(strings_view(ignored@) =~= strings_view(old_ignored).push(
                            non_default_note(*d),
                        ));
                    }
                } else {
                    if !contains_string(&secs, sec) {
                        let ghost old_secs = secs@;
                        secs.push(sec.clone());
                        proof {
                            assert(strings_view(secs@) =~= strings_view(old_secs).push(sec@));
                        }
                    }
                    let day = d.tx.settlement_date;
                    let ghost old_days = days@;
                    match find_day(&days, day) {
                        Some(k) => {
                            let mut dc = days.remove(k);
                            proof {
                                assert(dc@ == days_view(old_days)[k as int]);
                            }
                            match dc.observe_new_cost(sec, acb) {
                                Ok(()) => {},
                                Err(e) => {
                                    proof {
                                        lemma_scan_err_stays(ds, (i + 1) as nat, ds.len());
                                    }
                                    return Err(e);
                                },
                            }
                            days.insert(k, dc);
                            proof {
                                assert(days_view(days@) =~= days_view(old_days).update(
                                    k as int,
                                    dc@,
                                ));
                            }
                        },
                        None => {
                            let mut dc = MaxSingleDayCosts::new(day);
                            match dc.observe_new_cost(sec, acb) {
                                Ok(()) => {},
                                Err(e) => {
                                    proof {
                                        lemma_scan_err_stays(ds, (i + 1) as nat, ds.len());
                                    }
                                    return Err(e);
                                },
                            }
                            days.push(dc);
                            proof {
                                assert(days_view(days@) =~= days_view(old_days).push(dc@));
                            }
                        },
                    }
                    match find_first(&first, sec) {
                        None => match d.pre_status.total_acb {
                            None => {
                                let mut msg = String::from_str("Deltas for ");
                                msg.append(sec.as_str());
                                msg.append(" have no ACB before their first");
                                proof {
                                    lemma_scan_err_stays(ds, (i + 1) as nat, ds.len());
                                }
                                return Err(msg);
                            },
                            Some(p) => {
                                let ghost old_first = first@;
                                first.push((sec.clone(), day, p));
                                proof {
                                    assert(first_view(first@) =~= first_view(old_first).push(
                                        (sec@, day.day_number(), p@),
                                    ));
                                }
                            },
                        },
                        Some(fk) => {
                            if day.before(&first[fk].1) {
                                let mut msg = String::from_str("Deltas for ");
                                msg.append(sec.as_str());
                                msg.append(" were not sorted by settlement date");
                                proof {
                                    lemma_scan_err_stays(ds, (i + 1) as nat, ds.len());
                                }
                                return Err(msg);
                            }
                        },
                    }
                }
            },
        }
        i += 1;
    }
    Ok((days, secs, ignored, first))
}

/// `d` put before the first day after it.
pub open spec fn insert_day(s: Seq<DayCostsView>, d: DayCostsView) -> Seq<DayCostsView>
    decreases s.len(),
{
    if s.len() == 0 {
        seq![d]
    } else if d.day < s[0].day {
        seq![d] + s
    } else {
        seq![s[0]] + insert_day(s.drop_first(), d)
    }
}

/// The days in order (an insertion sort).
pub open spec fn sort_days(s: Seq<DayCostsView>) -> Seq<DayCostsView>
    decreases s.len(),
{
    if s.len() == 0 {
        s
    } else {
        insert_day(sort_days(s.drop_last()), s.last())
    }
}

/// The cost of `sec` before its first delta (zero where none is known).
pub open spec fn first_cost(first: Seq<(Seq<char>, int, Dec)>, sec: Seq<char>) -> Dec {
    let k = first_pos(first, sec);
    if k < 0 {
        zero_cost()
    } else {
        first[k].2
    }
}

/// The day's costs completed for the securities `secs`, in order: a security
/// without a cost that day takes its last cost on an earlier day (its cost
/// before its first delta where there is none). `last` holds each
/// security's last cost and is updated. `None` where a total is out of range.
pub open spec fn fill_day(
    dv: DayCostsView,
    secs: Seq<Seq<char>>,
    last: Seq<(Seq<char>, Dec)>,
    first: Seq<(Seq<char>, int, Dec)>,
) -> Option<(DayCostsView, Seq<(Seq<char>, Dec)>)>
    decreases secs.len(),
{
    if secs.len() == 0 {
        Some((dv, last))
    } else {
        match fill_day(dv, secs.drop_last(), last, first) {
            None => None,
            Some((dv1, last1)) => {
                let sec = secs.last();
                let v = match cost_of(dv1.costs, sec) {
                    Some(c) => c,
                    None => match cost_of(last1, sec) {
                        Some(c) => c,
                        None => first_cost(first, sec),
                    },
                };
                let last2 = cost_set(last1, sec, v);
                if cost_of(dv1.costs, sec) is Some {
                    Some((dv1, last2))
                } else {
                    match observe_spec(dv1, sec, v) {
                        Some(dv2) => Some((dv2, last2)),
                        None => None,
                    }
                }
            },
        }
    }
}

/// The first `n` days completed in turn (see `fill_day`).
pub open spec fn fill_days(
    days: Seq<DayCostsView>,
    secs: Seq<Seq<char>>,
    first: Seq<(Seq<char>, int, Dec)>,
    n: nat,
) -> Option<(Seq<DayCostsView>, Seq<(Seq<char>, Dec)>)>
    decreases n,
{
    if n == 0 {
        Some((Seq::empty(), Seq::empty()))
    } else {
        match fill_days(days, secs, first, (n - 1) as nat) {
            None => None,
            Some((out, last)) => match fill_day(days[n - 1], secs, last, first) {
                None => None,
                Some((dv, last2)) => Some((out.push(dv), last2)),
            },
        }
    }
}

proof fn lemma_insert_day_at(s: Seq<DayCostsView>, d: DayCostsView, pos: int)
    requires
        0 <= pos <= s.len(),
        forall|j: int| 0 <= j < pos ==> !(d.day < (#[trigger] s[j]).day),
        pos < s.len() ==> d.day < s[pos].day,
    ensures
        insert_day(s, d) == s.insert(pos, d),
    decreases s.len(),
{
    if s.len() == 0 {
        assert(s.insert(pos, d) =~= seq![d]);
    } else if pos == 0 {
        assert(s.insert(pos, d) =~= seq![d] + s);
    } else {
        let t = s.drop_first();
        assert forall|j: int| 0 <= j < pos - 1 implies !(d.day < (#[trigger] t[j]).day) by {
            assert(t[j] == s[j + 1]);
        }
        lemma_insert_day_at(t, d, pos - 1);
        assert(s.insert(pos, d) =~= seq![s[0]] + t.insert(pos - 1, d));
    }
}

proof fn lemma_fill_days_none_stays(
    days: Seq<DayCostsView>,
    secs: Seq<Seq<char>>,
    first: Seq<(Seq<char>, int, Dec)>,
    m: nat,
    n: nat,
)
    requires
        m <= n,
        fill_days(days, secs, first, m) is None,
    ensures
        fill_days(days, secs, first, n) is None,
    decreases n,
{
    if n > m {
        lemma_fill_days_none_stays(days, secs, first, m, (n - 1) as nat);
    }
}

/// The days ordered by date.
fn sort_day_costs(days: Vec<MaxSingleDayCosts>) -> (r: Vec<MaxSingleDayCosts>)
    ensures
        days_view(r@) == sort_days(days_view(days@)),
{
    let ghost orig = days_view(days@);
    let mut rest = days;
    let mut out: Vec<MaxSingleDayCosts> = Vec::new();
    let ghost mut i: int = 0;
    proof {
        assert(days_view(rest@) =~= orig.subrange(0, orig.len() as int));
        assert(orig.subrange(0, 0) =~= Seq::<DayCostsView>::empty());
        assert(days_view(out@) =~= Seq::<DayCostsView>::empty());
    }
    while rest.len() > 0
        invariant
            0 <= i <= orig.len(),
            days_view(rest@) == orig.subrange(i, orig.len() as int),
            days_view(out@) == sort_days(orig.subrange(0, i)),
        decreases rest@.len(),
    {
        let ghost rv = days_view(rest@);
        let ghost old_rest = rest@;
        let d = rest.remove(0);
        proof {
            assert(rv.len() == orig.len() - i);
            assert(rv.len() > 0);
            assert(d@ == rv[0]);
            assert(rv[0] == orig[i]);
            assert forall|j: int| 0 <= j < days_view(rest@).len() implies days_view(rest@)[j]
                == orig.subrange(i + 1, orig.len() as int)[j] by {
                assert(rest@[j] == old_rest[j + 1]);
                assert(rv[j + 1] == orig[i + 1 + j]);
            }
            assert(days_view(rest@) =~= orig.subrange(i + 1, orig.len() as int));
        }
        let mut pos: usize = 0;
        while pos < out.len() && !d.day.before(&out[pos].day)
            invariant
                pos <= out@.len(),
                forall|j: int|
                    0 <= j < pos ==> !(d@.day < (#[trigger] days_view(out@)[j]).day),
            decreases out@.len() - pos,
        {
            proof {
                assert(days_view(out@)[pos as int] == out@[pos as int]@);
            }
            pos += 1;
        }
        let ghost ov = days_view(out@);
        proof {
            if pos < out@.len() {
                assert(ov[pos as int] == out@[pos as int]@);
            }
            lemma_insert_day_at(ov, d@, pos as int);
            assert(orig.subrange(0, i + 1).drop_last() =~= orig.subrange(0, i));
        }
        out.insert(pos, d);
        proof {
            assert(days_view(out@) =~= ov.insert(pos as int, d@));
            i = i + 1;
        }
    }
    proof {
        assert(orig.subrange(0, i) =~= orig);
    }
    out
}

/// Completes the day's costs for the securities `secs` (see `fill_day`).
fn fill_day_exec(
    dc: &mut MaxSingleDayCosts,
    secs: &Vec<String>,
    last: &mut Vec<(String, GreaterEqualZeroDecimal)>,
    first: &Vec<(String, Date, GreaterEqualZeroDecimal)>,
) -> (r: Result<(), String>)
    ensures
        match fill_day(old(dc)@, strings_view(secs@), costs_view(old(last)@), first_view(first@)) {
            Some((dv, l)) => r is Ok && final(dc)@ == dv && costs_view(final(last)@) == l,
            None => r is Err && r->Err_0@ == COSTS_TOTAL_ERROR@,
        },
{
    let ghost dv0 = dc@;
    let ghost l0 = costs_view(last@);
    let ghost sv = strings_view(secs@);
    let ghost fv = first_view(first@);
    let mut t: usize = 0;
    proof {
        assert(sv.subrange(0, 0) =~= Seq::<Seq<char>>::empty());
    }
    while t < secs.len()
        invariant
            t <= secs@.len(),
            sv == strings_view(secs@),
            fv == first_view(first@),
            dv0 == old(dc)@,
            l0 == costs_view(old(last)@),
            fill_day(dv0, sv.subrange(0, t as int), l0, fv) == Some((dc@, costs_view(last@))),
        decreases secs@.len() - t,
    {
        let sec = &secs[t];
        let ghost dc_before = dc@;
        let ghost last_before = costs_view(last@);
        let ghost prefix = sv.subrange(0, t + 1);
        proof {
            assert(prefix.drop_last() =~= sv.subrange(0, t as int));
            assert(prefix.last() == sec@);
        }
        let have = dc.cost_of(sec);
        let v = match have {
            Some(c) => c,
            None => match find_cost(last, sec) {
                Some(k) => last[k].1,
                None => match find_first(first, sec) {
                    Some(fk) => first[fk].2,
                    None => GreaterEqualZeroDecimal::zero(),
                },
            },
        };
        proof {
            lemma_cost_pos_bounds(costs_view(last@), sec@);
            lemma_first_pos_bounds(fv, sec@);
        }
        let ghost lv = costs_view(last@);
        match find_cost(last, sec) {
            Some(k) => {
                last.set(k, (sec.clone(), v));
                proof {
                    assert(costs_view(last@) =~= lv.update(k as int, (sec@, v@)));
                }
            },
            None => {
                last.push((sec.clone(), v));
                proof {
                    assert(costs_view(last@) =~= lv.push((sec@, v@)));
                }
            },
        }
        if have.is_none() {
            match dc.observe_new_cost(sec, v) {
                Ok(()) => {},
                Err(e) => {
                    proof {
                        assert(cost_of(dc_before.costs, sec@) is None);
                        let v_spec = match cost_of(last_before, sec@) {
                            Some(c) => c,
                            None => first_cost(fv, sec@),
                        };
                        assert(v@ == v_spec);
                        assert(observe_spec(dc_before, sec@, v_spec) is None);
                        assert(fill_day(dv0, prefix, l0, fv) is None);
                        lemma_fill_day_none_stays(dv0, sv, l0, fv, (t + 1) as nat);
                        assert(fill_day(dv0, sv, l0, fv) is None);
                        assert(e@ == COSTS_TOTAL_ERROR@);
                    }
                    return Err(e);
                },
            }
        }
        t += 1;
    }
    proof {
        assert(sv.subrange(0, secs@.len() as int) =~= sv);
    }
    Ok(())
}

proof fn lemma_fill_day_none_stays(
    dv: DayCostsView,
    secs: Seq<Seq<char>>,
    last: Seq<(Seq<char>, Dec)>,
    first: Seq<(Seq<char>, int, Dec)>,
    m: nat,
)
    requires
        m <= secs.len(),
        fill_day(dv, secs.subrange(0, m as int), last, first) is None,
    ensures
        fill_day(dv, secs, last, first) is None,
    decreases secs.len() - m,
{
    if m < secs.len() {
        assert(secs.subrange(0, m + 1int).drop_last() =~= secs.subrange(0, m as int));
        lemma_fill_day_none_stays(dv, secs, last, first, m + 1);
    } else {
        assert(secs.subrange(0, m as int) =~= secs);
    }
}

/// Each day's costs (in date order, each completed for every security), the
/// securities, and the notes on the deltas left out.
pub struct MaxDayCosts {
    pub max_costs_by_day: Vec<MaxSingleDayCosts>,
    pub security_set: Vec<String>,
    pub ignored_delta_descs: Vec<String>,
}

proof fn lemma_insert_day_len(s: Seq<DayCostsView>, d: DayCostsView)
    ensures
        insert_day(s, d).len() == s.len() + 1,
    decreases s.len(),
{
    if s.len() > 0 && !(d.day < s[0].day) {
        lemma_insert_day_len(s.drop_first(), d);
    }
}

proof fn lemma_sort_days_len(s: Seq<DayCostsView>)
    ensures
        sort_days(s).len() == s.len(),
    decreases s.len(),
{
    if s.len() > 0 {
        lemma_sort_days_len(s.drop_last());
        lemma_insert_day_len(sort_days(s.drop_last()), s.last());
    }
}

/// The costs of each day with a delta (see `scan_deltas` and `fill_days`):
/// the days in date order, completed for every security.
pub open spec fn max_day_costs_spec(ds: Seq<TxDelta>) -> Result<
    (Seq<DayCostsView>, Seq<Seq<char>>, Seq<Seq<char>>),
    Seq<char>,
> {
    match scan_deltas(ds, ds.len()) {
        Err(e) => Err(e),
        Ok(s) => {
            let sorted = sort_days(s.days);
            match fill_days(sorted, s.secs, s.first, sorted.len()) {
                None => Err(COSTS_TOTAL_ERROR@),
                Some((days, _)) => Ok((days, s.secs, s.ignored)),
            }
        },
    }
}

/// The highest ACB of each security on each day with a delta (by settlement
/// date) and their total, over the deltas of the default affiliate (others
/// are noted and left out). A security without a delta on a day carries its
/// last cost. The deltas of a security must be in settlement order; fails
/// otherwise, and where a total is out of range.
pub fn calc_max_day_cost_per_sec(all_deltas: &Vec<TxDelta>) -> (r: Result<MaxDayCosts, String>)
    ensures
        match max_day_costs_spec(all_deltas@) {
            Err(e) => r is Err && r->Err_0@ == e,
            Ok((days, secs, ignored)) => r is Ok && days_view(r->Ok_0.max_costs_by_day@) == days
                && strings_view(r->Ok_0.security_set@) == secs && strings_view(
                r->Ok_0.ignored_delta_descs@,
            ) == ignored,
        },
{
    let (days, secs, ignored, first) = match scan_all(all_deltas) {
        Ok(x) => x,
        Err(e) => {
            return Err(e);
        },
    };
    let ghost sv = strings_view(secs@);
    let ghost fv = first_view(first@);
    let ghost sc = CostsScan {
        days: days_view(days@),
        secs: sv,
        ignored: strings_view(ignored@),
        first: fv,
    };
    let mut rest = sort_day_costs(days);
    let ghost sorted = days_view(rest@);
    proof {
        lemma_sort_days_len(days_view(days@));
    }
    let mut filled: Vec<MaxSingleDayCosts> = Vec::new();
    let mut last: Vec<(String, GreaterEqualZeroDecimal)> = Vec::new();
    let ghost mut i: int = 0;
    proof {
        assert(days_view(filled@) =~= Seq::<DayCostsView>::empty());
        assert(costs_view(last@) =~= Seq::<(Seq<char>, Dec)>::empty());
        assert(days_view(rest@) =~= sorted.subrange(0, sorted.len() as int));
    }
    while rest.len() > 0
        invariant
            0 <= i <= sorted.len(),
            scan_deltas(all_deltas@, all_deltas@.len()) == Ok::<CostsScan, Seq<char>>(sc),
            sorted == sort_days(sc.days),
            sc.secs == sv,
            sc.first == fv,
            sc.ignored == strings_view(ignored@),
            sv == strings_view(secs@),
            fv == first_view(first@),
            days_view(rest@) == sorted.subrange(i, sorted.len() as int),
            fill_days(sorted, sv, fv, i as nat) == Some((days_view(filled@), costs_view(last@))),
        decreases rest@.len(),
    {
        let ghost rv = days_view(rest@);
        let ghost old_rest = rest@;
        let mut dc = rest.remove(0);
        proof {
            assert(rv.len() == sorted.len() - i);
            assert(dc@ == rv[0]);
            assert(rv[0] == sorted[i]);
            assert forall|j: int| 0 <= j < days_view(rest@).len() implies days_view(rest@)[j]
                == sorted.subrange(i + 1, sorted.len() as int)[j] by {
                assert(rest@[j] == old_rest[j + 1]);
                assert(rv[j + 1] == sorted[i + 1 + j]);
            }
            assert(days_view(rest@) =~= sorted.subrange(i + 1, sorted.len() as int));
        }
        match fill_day_exec(&mut dc, &secs, &mut last, &first) {
            Ok(()) => {},
            Err(e) => {
                proof {
                    lemma_fill_days_none_stays(sorted, sv, fv, (i + 1) as nat, sorted.len());
                }
                return Err(e);
            },
        }
        let ghost old_filled = filled@;
        filled.push(dc);
        proof {
            assert(days_view(filled@) =~= days_view(old_filled).push(dc@));
            i = i + 1;
        }
    }
    Ok(MaxDayCosts { max_costs_by_day: filled, security_set: secs, ignored_delta_descs: ignored })
}

/// A copy of the day's costs.
pub fn clone_day_costs(c: &MaxSingleDayCosts) -> (r: MaxSingleDayCosts)
    ensures
        r@ == c@,
{
    let mut costs: Vec<(String, GreaterEqualZeroDecimal)> = Vec::new();
    let mut k: usize = 0;
    while k < c.sec_max_cost_for_day.len()
        invariant
            k <= c.sec_max_cost_for_day@.len(),
            costs_view(costs@) == costs_view(c.sec_max_cost_for_day@).subrange(0, k as int),
        decreases c.sec_max_cost_for_day@.len() - k,
    {
        let ghost before = costs@;
        let name = c.sec_max_cost_for_day[k].0.clone();
        let v = c.sec_max_cost_for_day[k].1;
        proof {
            assert(name@ == c.sec_max_cost_for_day@[k as int].0@);
            assert(v@ == c.sec_max_cost_for_day@[k as int].1@);
        }
        costs.push((name, v));
        proof {
            let cv = costs_view(c.sec_max_cost_for_day@);
            assert(costs_view(before).len() == before.len());
            assert(before.len() == k);
            assert(costs@ == before.push((name, v)));
            assert forall|j: int| 0 <= j < k + 1 implies costs_view(costs@)[j] == cv.subrange(
                0,
                k + 1,
            )[j] by {
                if j < k {
                    assert(costs@[j] == before[j]);
                    assert(costs_view(before)[j] == cv.subrange(0, k as int)[j]);
                }
            }
            assert(costs_view(costs@) =~= costs_view(c.sec_max_cost_for_day@).subrange(0, k + 1));
        }
        k += 1;
    }
    proof {
        assert(costs_view(c.sec_max_cost_for_day@).subrange(0, k as int) =~= costs_view(
            c.sec_max_cost_for_day@,
        ));
    }
    MaxSingleDayCosts { day: c.day, total: c.total, sec_max_cost_for_day: costs }
}

/// Every security has a cost on the day.
pub open spec fn day_has_all(d: DayCostsView, secs: Seq<Seq<char>>) -> bool {
    forall|k: int| 0 <= k < secs.len() ==> (#[trigger] cost_of(d.costs, secs[k])) is Some
}

/// The costs are complete: every day (and each year's day) has a cost for
/// every security.
pub open spec fn costs_complete(c: Costs) -> bool {
    let secs = strings_view(c.security_set@);
    &&& forall|i: int| 0 <= i < c.total@.len() ==> day_has_all((#[trigger] c.total@[i])@, secs)
    &&& forall|i: int| 0 <= i < c.yearly@.len() ==> day_has_all((#[trigger] c.yearly@[i]).1@, secs)
}

/// Where the year `y` stands among the entries (-1: absent).
pub open spec fn year_entry_pos(s: Seq<(i32, DayCostsView)>, y: i32) -> int
    decreases s.len(),
{
    if s.len() == 0 {
        -1
    } else if s.last().0 == y {
        s.len() - 1
    } else {
        year_entry_pos(s.drop_last(), y)
    }
}

/// Going through the first `n` days: for each year, the first day with the
/// highest total.
pub open spec fn yearly_max(days: Seq<DayCostsView>, n: nat) -> Seq<(i32, DayCostsView)>
    decreases n,
{
    if n == 0 {
        Seq::empty()
    } else {
        let s = yearly_max(days, (n - 1) as nat);
        let d = days[n - 1];
        let y = date_year(d.day);
        let k = year_entry_pos(s, y);
        if k < 0 {
            s.push((y, d))
        } else if value_lt(s[k].1.total, d.total) {
            s.update(k, (y, d))
        } else {
            s
        }
    }
}

pub open spec fn yearly_view(v: Seq<(i32, MaxSingleDayCosts)>) -> Seq<(i32, DayCostsView)> {
    v.map_values(|p: (i32, MaxSingleDayCosts)| (p.0, p.1@))
}

proof fn lemma_year_entry_pos_bounds(s: Seq<(i32, DayCostsView)>, y: i32)
    ensures
        -1 <= year_entry_pos(s, y) < s.len(),
    decreases s.len(),
{
    if s.len() > 0 && s.last().0 != y {
        lemma_year_entry_pos_bounds(s.drop_last(), y);
    }
}

/// For each year, the first day with the highest total (see `yearly_max`).
pub fn calc_yearly_max_cost_day(max_day_costs: &MaxDayCosts) -> (r: Vec<(i32, MaxSingleDayCosts)>)
    ensures
        yearly_view(r@) == yearly_max(
            days_view(max_day_costs.max_costs_by_day@),
            max_day_costs.max_costs_by_day@.len(),
        ),
{
    let days = &max_day_costs.max_costs_by_day;
    let ghost dv = days_view(days@);
    let mut out: Vec<(i32, MaxSingleDayCosts)> = Vec::new();
    let mut i: usize = 0;
    proof {
        assert(yearly_view(out@) =~= Seq::<(i32, DayCostsView)>::empty());
    }
    while i < days.len()
        invariant
            i <= days@.len(),
            dv == days_view(days@),
            yearly_view(out@) == yearly_max(dv, i as nat),
        decreases days@.len() - i,
    {
        let d = &days[i];
        let y = d.day.year();
        let ghost yv = yearly_view(out@);
        let mut k: usize = out.len();
        let mut pos: Option<usize> = None;
        proof {
            assert(yv.subrange(0, k as int) =~= yv);
        }
        while k > 0
            invariant_except_break
                k <= out@.len(),
                yv == yearly_view(out@),
                pos is None,
                year_entry_pos(yv, y) == year_entry_pos(yv.subrange(0, k as int), y),
            ensures
                yv == yearly_view(out@),
                match pos {
                    Some(p) => year_entry_pos(yv, y) == p && p < out@.len(),
                    None => year_entry_pos(yv, y) == -1,
                },
            decreases k,
        {
            proof {
                assert(yv.subrange(0, k as int).drop_last() =~= yv.subrange(0, k - 1));
            }
            if out[k - 1].0 == y {
                pos = Some(k - 1);
                break;
            }
            k -= 1;
        }
        proof {
            assert(dv[i as int] == d@);
        }
        match pos {
            None => {
                out.push((y, clone_day_costs(d)));
                proof {
                    assert(yearly_view(out@) =~= yv.push((y, d@)));
                }
            },
            Some(p) => {
                if out[p].1.total.get().lt(&d.total.get()) {
                    out.set(p, (y, clone_day_costs(d)));
                    proof {
                        assert(yearly_view(out@) =~= yv.update(p as int, (y, d@)));
                    }
                }
            },
        }
        i += 1;
    }
    out
}

/// The costs of the portfolio: each day's (in date order), each year's
/// highest, the securities, and the notes on the deltas left out.
pub struct Costs {
    pub security_set: Vec<String>,
    pub total: Vec<MaxSingleDayCosts>,
    pub yearly: Vec<(i32, MaxSingleDayCosts)>,
    pub ignored_deltas: Vec<String>,
}

/// `x` put before the first larger year.
pub open spec fn insert_int(s: Seq<i32>, x: i32) -> Seq<i32>
    decreases s.len(),
{
    if s.len() == 0 {
        seq![x]
    } else if x < s[0] {
        seq![x] + s
    } else {
        seq![s[0]] + insert_int(s.drop_first(), x)
    }
}

pub open spec fn sort_ints(s: Seq<i32>) -> Seq<i32>
    decreases s.len(),
{
    if s.len() == 0 {
        s
    } else {
        insert_int(sort_ints(s.drop_last()), s.last())
    }
}

pub proof fn lemma_insert_int_at(s: Seq<i32>, x: i32, pos: int)
    requires
        0 <= pos <= s.len(),
        forall|j: int| 0 <= j < pos ==> !(x < #[trigger] s[j]),
        pos < s.len() ==> x < s[pos],
    ensures
        insert_int(s, x) == s.insert(pos, x),
    decreases s.len(),
{
    if s.len() == 0 {
        assert(s.insert(pos, x) =~= seq![x]);
    } else if pos == 0 {
        assert(s.insert(pos, x) =~= seq![x] + s);
    } else {
        let t = s.drop_first();
        assert forall|j: int| 0 <= j < pos - 1 implies !(x < #[trigger] t[j]) by {
            assert(t[j] == s[j + 1]);
        }
        lemma_insert_int_at(t, x, pos - 1);
        assert(s.insert(pos, x) =~= seq![s[0]] + t.insert(pos - 1, x));
    }
}

impl Costs {
    /// The years with costs, in order.
    pub fn sorted_years(&self) -> (r: Vec<i32>)
        ensures
            r@ == sort_ints(self.yearly@.map_values(|p: (i32, MaxSingleDayCosts)| p.0)),
    {
        let ghost ys = self.yearly@.map_values(|p: (i32, MaxSingleDayCosts)| p.0);
        let mut out: Vec<i32> = Vec::new();
        let mut i: usize = 0;
        while i < self.yearly.len()
            invariant
                i <= self.yearly@.len(),
                ys == self.yearly@.map_values(|p: (i32, MaxSingleDayCosts)| p.0),
                out@ == sort_ints(ys.subrange(0, i as int)),
            decreases self.yearly@.len() - i,
        {
            let y = self.yearly[i].0;
            let mut pos: usize = 0;
            while pos < out.len() && !(y < out[pos])
                invariant
                    pos <= out@.len(),
                    forall|j: int| 0 <= j < pos ==> !(y < #[trigger] out@[j]),
                decreases out@.len() - pos,
            {
                pos += 1;
            }
            proof {
                lemma_insert_int_at(out@, y, pos as int);
                assert(ys.subrange(0, i + 1).drop_last() =~= ys.subrange(0, i as int));
                assert(ys[i as int] == y);
            }
            out.insert(pos, y);
            i += 1;
        }
        proof {
            assert(ys.subrange(0, i as int) =~= ys);
        }
        out
    }
}

/// The costs of the portfolio (see `calc_max_day_cost_per_sec` and
/// `calc_yearly_max_cost_day`).
pub fn calc_total_costs(all_deltas: &Vec<TxDelta>) -> (r: Result<Costs, String>)
    ensures
        match max_day_costs_spec(all_deltas@) {
            Err(e) => r is Err && r->Err_0@ == e,
            Ok((days, secs, ignored)) => r is Ok && days_view(r->Ok_0.total@) == days
                && yearly_view(r->Ok_0.yearly@) == yearly_max(days, days.len())
                && strings_view(r->Ok_0.security_set@) == secs && strings_view(
                r->Ok_0.ignored_deltas@,
            ) == ignored,
        },
        r is Ok ==> costs_complete(r->Ok_0),
{
    proof {
        if let Ok(s) = scan_deltas(all_deltas@, all_deltas@.len()) {
            let sorted = sort_days(s.days);
            lemma_fill_days_complete(sorted, s.secs, s.first, sorted.len());
            if let Some((days, _)) = fill_days(sorted, s.secs, s.first, sorted.len()) {
                lemma_yearly_max_from_days(days, days.len());
            }
        }
    }
    let max_day_costs = match calc_max_day_cost_per_sec(all_deltas) {
        Ok(m) => m,
        Err(e) => {
            return Err(e);
        },
    };
    let yearly = calc_yearly_max_cost_day(&max_day_costs);
    let r = Costs {
        security_set: max_day_costs.security_set,
        total: max_day_costs.max_costs_by_day,
        yearly,
        ignored_deltas: max_day_costs.ignored_delta_descs,
    };
    proof {
        let secs = strings_view(r.security_set@);
        let days = days_view(r.total@);
        assert forall|i: int| 0 <= i < r.total@.len() implies day_has_all(
            (#[trigger] r.total@[i])@,
            secs,
        ) by {
            assert(days[i] == r.total@[i]@);
            assert forall|k: int| 0 <= k < secs.len() implies (#[trigger] cost_of(
                r.total@[i]@.costs,
                secs[k],
            )) is Some by {
                assert(cost_of(days[i].costs, secs[k]) is Some);
            }
        }
        assert forall|i: int| 0 <= i < r.yearly@.len() implies day_has_all(
            (#[trigger] r.yearly@[i]).1@,
            secs,
        ) by {
            let yv = yearly_view(r.yearly@);
            assert(yv[i].1 == r.yearly@[i].1@);
            let j = choose|j: int| 0 <= j < days.len() && days[j] == (#[trigger] yearly_max(days, days.len())[i]).1;
            assert forall|k: int| 0 <= k < secs.len() implies (#[trigger] cost_of(
                r.yearly@[i].1@.costs,
                secs[k],
            )) is Some by {
                assert(cost_of(days[j].costs, secs[k]) is Some);
            }
        }
    }
    Ok(r)
}

proof fn lemma_cost_pos_update_same_key(m: Seq<(Seq<char>, Dec)>, k: int, v: Dec, x: Seq<char>)
    requires
        0 <= k < m.len(),
    ensures
        cost_pos(m.update(k, (m[k].0, v)), x) == cost_pos(m, x),
    decreases m.len(),
{
    let u = m.update(k, (m[k].0, v));
    if k == m.len() - 1 {
        assert(u.drop_last() =~= m.drop_last());
    } else {
        lemma_cost_pos_update_same_key(m.drop_last(), k, v, x);
        assert(u.drop_last() =~= m.drop_last().update(k, (m[k].0, v)));
    }
}

proof fn lemma_cost_set_keeps(m: Seq<(Seq<char>, Dec)>, sec: Seq<char>, v: Dec, x: Seq<char>)
    requires
        cost_of(m, x) is Some || x == sec,
    ensures
        cost_of(cost_set(m, sec, v), x) is Some,
{
    lemma_cost_pos_bounds(m, sec);
    lemma_cost_pos_bounds(m, x);
    let k = cost_pos(m, sec);
    if k < 0 {
        let p = m.push((sec, v));
        assert(p.drop_last() =~= m);
        lemma_cost_pos_bounds(p, x);
    } else {
        assert(m[k].0 == sec);
        lemma_cost_pos_update_same_key(m, k, v, x);
        lemma_cost_pos_bounds(m.update(k, (m[k].0, v)), x);
    }
}

/// A completed day has a cost for every security completed.
proof fn lemma_fill_day_complete(
    dv: DayCostsView,
    secs: Seq<Seq<char>>,
    last: Seq<(Seq<char>, Dec)>,
    first: Seq<(Seq<char>, int, Dec)>,
)
    ensures
        fill_day(dv, secs, last, first) matches Some((d, _)) ==> (forall|k: int|
            0 <= k < secs.len() ==> (#[trigger] cost_of(d.costs, secs[k])) is Some),
    decreases secs.len(),
{
    if secs.len() > 0 {
        lemma_fill_day_complete(dv, secs.drop_last(), last, first);
        match fill_day(dv, secs.drop_last(), last, first) {
            None => {},
            Some((dv1, last1)) => {
                let sec = secs.last();
                if let Some((d, _)) = fill_day(dv, secs, last, first) {
                    assert forall|k: int| 0 <= k < secs.len() implies (#[trigger] cost_of(
                        d.costs,
                        secs[k],
                    )) is Some by {
                        if cost_of(dv1.costs, sec) is None {
                            let v = match cost_of(last1, sec) {
                                Some(c) => c,
                                None => first_cost(first, sec),
                            };
                            let old = match cost_of(dv1.costs, sec) {
                                Some(c) => c,
                                None => zero_cost(),
                            };
                            if k < secs.len() - 1 {
                                assert(secs.drop_last()[k] == secs[k]);
                                lemma_cost_set_keeps(dv1.costs, sec, cost_max(old, v), secs[k]);
                            } else {
                                lemma_cost_set_keeps(dv1.costs, sec, cost_max(old, v), secs[k]);
                            }
                        } else {
                            if k < secs.len() - 1 {
                                assert(secs.drop_last()[k] == secs[k]);
                            }
                        }
                    }
                }
            },
        }
    }
}

proof fn lemma_fill_days_complete(
    days: Seq<DayCostsView>,
    secs: Seq<Seq<char>>,
    first: Seq<(Seq<char>, int, Dec)>,
    n: nat,
)
    ensures
        fill_days(days, secs, first, n) matches Some((out, _)) ==> forall|i: int, k: int|
            0 <= i < out.len() && 0 <= k < secs.len() ==> (#[trigger] cost_of(
                out[i].costs,
                secs[k],
            )) is Some,
    decreases n,
{
    if n > 0 {
        lemma_fill_days_complete(days, secs, first, (n - 1) as nat);
        match fill_days(days, secs, first, (n - 1) as nat) {
            None => {},
            Some((out0, last)) => {
                lemma_fill_day_complete(days[n - 1], secs, last, first);
                if let Some((out, _)) = fill_days(days, secs, first, n) {
                    assert forall|i: int, k: int|
                        0 <= i < out.len() && 0 <= k < secs.len() implies (#[trigger] cost_of(
                        out[i].costs,
                        secs[k],
                    )) is Some by {
                        if i < out0.len() {
                            assert(out[i] == out0[i]);
                        }
                    }
                }
            },
        }
    }
}

/// Every entry kept for a year is one of the days.
proof fn lemma_yearly_max_from_days(days: Seq<DayCostsView>, n: nat)
    requires
        n <= days.len(),
    ensures
        forall|i: int|
            0 <= i < yearly_max(days, n).len() ==> exists|j: int|
                0 <= j < days.len() && days[j] == (#[trigger] yearly_max(days, n)[i]).1,
    decreases n,
{
    if n > 0 {
        lemma_yearly_max_from_days(days, (n - 1) as nat);
        let s = yearly_max(days, (n - 1) as nat);
        let d = days[n - 1];
        let y = date_year(d.day);
        lemma_year_entry_pos_bounds(s, y);
        assert forall|i: int| 0 <= i < yearly_max(days, n).len() implies exists|j: int|
            0 <= j < days.len() && days[j] == (#[trigger] yearly_max(days, n)[i]).1 by {
            let r = yearly_max(days, n);
            if r[i].1 == d {
                assert(days[n - 1] == r[i].1);
            } else {
                assert(r[i] == s[i]);
                let j = choose|j: int| 0 <= j < days.len() && days[j] == (#[trigger] s[i]).1;
                assert(days[j] == r[i].1);
            }
        }
    }
}

} // verus!
