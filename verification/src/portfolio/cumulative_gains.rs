//! Capital gains added up: in total and by year.

use vstd::prelude::*;
use crate::portfolio::summary::{add_gain, delta_year, year_pos, zero_dec};
use crate::portfolio::txdelta::TxDelta;
use crate::util::decimal::{
    decimal_checked_add, is_sum, lemma_spec_new, lemma_units_of_sum, scale_ok, units, Dec,
};

verus! {

/// The capital gains in total and for each year (years in the order first
/// met, each once).
pub struct CumulativeCapitalGains {
    pub capital_gains_total: Dec,
    pub capital_gains_years_totals: Vec<(i32, Dec)>,
}

/// The error where a sum of gains overflows.
pub const GAINS_OVERFLOW_ERROR: &'static str = "Capital gains total overflowed";

pub open spec fn zero_gain() -> Dec {
    Dec::spec_new(0, 0)
}

/// The total and the yearly totals of the capital gains of the first `n`
/// deltas (a year's total started at zero); `None` where a sum overflows.
pub open spec fn gains_fold(ds: Seq<TxDelta>, n: nat) -> Option<(Dec, Seq<(i32, Dec)>)>
    decreases n,
{
    if n == 0 {
        Some((zero_gain(), Seq::empty()))
    } else {
        match gains_fold(ds, (n - 1) as nat) {
            None => None,
            Some((t, ys)) => match ds[n - 1].capital_gain {
                None => Some((t, ys)),
                Some(g) => match decimal_checked_add(t, g) {
                    None => None,
                    Some(t2) => match add_gain(ys, delta_year(ds[n - 1]), g) {
                        None => None,
                        Some(ys2) => Some((t2, ys2)),
                    },
                },
            },
        }
    }
}

/// The yearly totals with the totals `ys` of another list added in.
pub open spec fn add_gains(acc: Seq<(i32, Dec)>, ys: Seq<(i32, Dec)>) -> Option<Seq<(i32, Dec)>>
    decreases ys.len(),
{
    if ys.len() == 0 {
        Some(acc)
    } else {
        match add_gains(acc, ys.drop_last()) {
            None => None,
            Some(a) => add_gain(a, ys.last().0, ys.last().1),
        }
    }
}

/// The gains of the first `n` securities added up.
pub open spec fn sum_gains(gs: Seq<(String, CumulativeCapitalGains)>, n: nat) -> Option<
    (Dec, Seq<(i32, Dec)>),
>
    decreases n,
{
    if n == 0 {
        Some((zero_gain(), Seq::empty()))
    } else {
        match sum_gains(gs, (n - 1) as nat) {
            None => None,
            Some((t, ys)) => {
                let g = gs[n - 1].1;
                match decimal_checked_add(t, g.capital_gains_total) {
                    None => None,
                    Some(t2) => match add_gains(ys, g.capital_gains_years_totals@) {
                        None => None,
                        Some(ys2) => Some((t2, ys2)),
                    },
                }
            },
        }
    }
}

proof fn lemma_year_pos_bounds(s: Seq<(i32, Dec)>, y: i32)
    ensures
        -1 <= year_pos(s, y) < s.len(),
    decreases s.len(),
{
    if s.len() > 0 && s.last().0 != y {
        lemma_year_pos_bounds(s.drop_last(), y);
    }
}

/// Adds `g` to the total of the year `y` (see `add_gain`); `false`, leaving
/// the totals as they were, where the sum overflows.
fn add_year_gain(ys: &mut Vec<(i32, Dec)>, y: i32, g: Dec) -> (r: bool)
    ensures
        match add_gain(old(ys)@, y, g) {
            Some(s) => r && final(ys)@ == s,
            None => !r && final(ys)@ == old(ys)@,
        },
{
    let ghost s0 = ys@;
    let mut k: usize = ys.len();
    let mut pos: Option<usize> = None;
    proof {
        assert(s0.subrange(0, k as int) =~= s0);
    }
    while k > 0
        invariant_except_break
            k <= ys@.len(),
            s0 == ys@,
            pos is None,
            year_pos(s0, y) == year_pos(s0.subrange(0, k as int), y),
        ensures
            s0 == ys@,
            match pos {
                Some(p) => year_pos(s0, y) == p,
                None => year_pos(s0, y) == -1,
            },
        decreases k,
    {
        proof {
            assert(s0.subrange(0, k as int).drop_last() =~= s0.subrange(0, k - 1));
        }
        if ys[k - 1].0 == y {
            pos = Some(k - 1);
            break;
        }
        k -= 1;
    }
    proof {
        lemma_year_pos_bounds(s0, y);
    }
    match pos {
        Some(p) => match ys[p].1.checked_add(&g) {
            Some(t) => {
                ys.set(p, (y, t));
                true
            },
            None => false,
        },
        None => match Dec::zero().checked_add(&g) {
            Some(t) => {
                ys.push((y, t));
                true
            },
            None => false,
        },
    }
}

impl CumulativeCapitalGains {
    /// The years with gains, in order.
    pub fn capital_gains_year_totals_keys_sorted(&self) -> (r: Vec<i32>)
        ensures
            r@ == crate::portfolio::bookkeeping::costs::sort_ints(
                self.capital_gains_years_totals@.map_values(|p: (i32, Dec)| p.0),
            ),
    {
        let ghost ys = self.capital_gains_years_totals@.map_values(|p: (i32, Dec)| p.0);
        let mut out: Vec<i32> = Vec::new();
        let mut i: usize = 0;
        while i < self.capital_gains_years_totals.len()
            invariant
                i <= self.capital_gains_years_totals@.len(),
                ys == self.capital_gains_years_totals@.map_values(|p: (i32, Dec)| p.0),
                out@ == crate::portfolio::bookkeeping::costs::sort_ints(ys.subrange(0, i as int)),
            decreases self.capital_gains_years_totals@.len() - i,
        {
            let y = self.capital_gains_years_totals[i].0;
            let mut pos: usize = 0;
            while pos < out.len() && !(y < out[pos])
                invariant
                    pos <= out@.len(),
                    forall|j: int| 0 <= j < pos ==> !(y < #[trigger] out@[j]),
                decreases out@.len() - pos,
            {
                pos += 1;
            }
            proof {
                crate::portfolio::bookkeeping::costs::lemma_insert_int_at(out@, y, pos as int);
                assert(ys.subrange(0, i + 1).drop_last() =~= ys.subrange(0, i as int));
                assert(ys[i as int] == y);
            }
            out.insert(pos, y);
            i += 1;
        }
        proof {
            assert(ys.subrange(0, i as int) =~= ys);
        }
        out
    }

    /// The total of the year `y` (zero where it has none).
    pub fn year_total(&self, y: i32) -> (r: Dec)
        ensures
            year_pos(self.capital_gains_years_totals@, y) < 0 ==> r == zero_gain(),
            year_pos(self.capital_gains_years_totals@, y) >= 0 ==> r
                == self.capital_gains_years_totals@[year_pos(
                self.capital_gains_years_totals@,
                y,
            )].1,
    {
        let ghost s0 = self.capital_gains_years_totals@;
        let mut k: usize = self.capital_gains_years_totals.len();
        proof {
            assert(s0.subrange(0, k as int) =~= s0);
            lemma_year_pos_bounds(s0, y);
        }
        while k > 0
            invariant
                k <= s0.len(),
                s0 == self.capital_gains_years_totals@,
                year_pos(s0, y) == year_pos(s0.subrange(0, k as int), y),
            decreases k,
        {
            proof {
                assert(s0.subrange(0, k as int).drop_last() =~= s0.subrange(0, k - 1));
            }
            if self.capital_gains_years_totals[k - 1].0 == y {
                return self.capital_gains_years_totals[k - 1].1;
            }
            k -= 1;
        }
        Dec::zero()
    }
}

/// The capital gains of the deltas of one security, in total and by
/// settlement year. Fails where a sum overflows.
pub fn calc_security_cumulative_capital_gains(deltas: &Vec<TxDelta>) -> (r: Result<
    CumulativeCapitalGains,
    String,
>)
    ensures
        match gains_fold(deltas@, deltas@.len()) {
            None => r is Err && r->Err_0@ == GAINS_OVERFLOW_ERROR@,
            Some((t, ys)) => r is Ok && r->Ok_0.capital_gains_total == t
                && r->Ok_0.capital_gains_years_totals@ == ys,
        },
{
    let mut total = Dec::zero();
    let mut years: Vec<(i32, Dec)> = Vec::new();
    let mut i: usize = 0;
    while i < deltas.len()
        invariant
            i <= deltas@.len(),
            gains_fold(deltas@, i as nat) == Some((total, years@)),
        decreases deltas@.len() - i,
    {
        let d = &deltas[i];
        if let Some(g) = d.capital_gain {
            match total.checked_add(&g) {
                Some(t) => {
                    total = t;
                },
                None => {
                    proof {
                        lemma_gains_fold_none_stays(deltas@, (i + 1) as nat, deltas@.len());
                    }
                    return Err(GAINS_OVERFLOW_ERROR.to_string());
                },
            }
            if !add_year_gain(&mut years, d.tx.settlement_date.year(), g) {
                proof {
                    lemma_gains_fold_none_stays(deltas@, (i + 1) as nat, deltas@.len());
                }
                return Err(GAINS_OVERFLOW_ERROR.to_string());
            }
        }
        i += 1;
    }
    Ok(CumulativeCapitalGains { capital_gains_total: total, capital_gains_years_totals: years })
}

proof fn lemma_gains_fold_none_stays(ds: Seq<TxDelta>, m: nat, n: nat)
    requires
        m <= n,
        gains_fold(ds, m) is None,
    ensures
        gains_fold(ds, n) is None,
    decreases n,
{
    if n > m {
        lemma_gains_fold_none_stays(ds, m, (n - 1) as nat);
    }
}

proof fn lemma_sum_gains_none_stays(gs: Seq<(String, CumulativeCapitalGains)>, m: nat, n: nat)
    requires
        m <= n,
        sum_gains(gs, m) is None,
    ensures
        sum_gains(gs, n) is None,
    decreases n,
{
    if n > m {
        lemma_sum_gains_none_stays(gs, m, (n - 1) as nat);
    }
}

proof fn lemma_add_gains_none_stays(acc: Seq<(i32, Dec)>, ys: Seq<(i32, Dec)>, m: nat)
    requires
        m <= ys.len(),
        add_gains(acc, ys.subrange(0, m as int)) is None,
    ensures
        add_gains(acc, ys) is None,
    decreases ys.len() - m,
{
    if m < ys.len() {
        assert(ys.subrange(0, m + 1int).drop_last() =~= ys.subrange(0, m as int));
        lemma_add_gains_none_stays(acc, ys, m + 1);
    } else {
        assert(ys.subrange(0, m as int) =~= ys);
    }
}

/// The capital gains of several securities added up: in total and by year.
/// Fails where a sum overflows.
pub fn calc_cumulative_capital_gains(sec_gains: &Vec<(String, CumulativeCapitalGains)>) -> (r: Result<
    CumulativeCapitalGains,
    String,
>)
    ensures
        match sum_gains(sec_gains@, sec_gains@.len()) {
            None => r is Err && r->Err_0@ == GAINS_OVERFLOW_ERROR@,
            Some((t, ys)) => r is Ok && r->Ok_0.capital_gains_total == t
                && r->Ok_0.capital_gains_years_totals@ == ys,
        },
{
    let mut total = Dec::zero();
    let mut years: Vec<(i32, Dec)> = Vec::new();
    let mut i: usize = 0;
    while i < sec_gains.len()
        invariant
            i <= sec_gains@.len(),
            sum_gains(sec_gains@, i as nat) == Some((total, years@)),
        decreases sec_gains@.len() - i,
    {
        let g = &sec_gains[i].1;
        let ghost t_prev = total;
        match total.checked_add(&g.capital_gains_total) {
            Some(t) => {
                total = t;
            },
            None => {
                proof {
                    lemma_sum_gains_none_stays(sec_gains@, (i + 1) as nat, sec_gains@.len());
                }
                return Err(GAINS_OVERFLOW_ERROR.to_string());
            },
        }
        let ghost acc0 = years@;
        let ghost gys = g.capital_gains_years_totals@;
        let mut j: usize = 0;
        proof {
            assert(gys.subrange(0, 0) =~= Seq::<(i32, Dec)>::empty());
        }
        while j < g.capital_gains_years_totals.len()
            invariant
                j <= gys.len(),
                i < sec_gains@.len(),
                *g == sec_gains@[i as int].1,
                sum_gains(sec_gains@, i as nat) == Some((t_prev, acc0)),
                decimal_checked_add(t_prev, g.capital_gains_total) == Some(total),
                gys == g.capital_gains_years_totals@,
                add_gains(acc0, gys.subrange(0, j as int)) == Some(years@),
            decreases gys.len() - j,
        {
            let (y, v) = g.capital_gains_years_totals[j];
            proof {
                assert(gys.subrange(0, j + 1).drop_last() =~= gys.subrange(0, j as int));
            }
            if !add_year_gain(&mut years, y, v) {
                proof {
                    lemma_add_gains_none_stays(acc0, gys, (j + 1) as nat);
                    lemma_sum_gains_none_stays(sec_gains@, (i + 1) as nat, sec_gains@.len());
                }
                return Err(GAINS_OVERFLOW_ERROR.to_string());
            }
            j += 1;
        }
        proof {
            assert(gys.subrange(0, gys.len() as int) =~= gys);
        }
        i += 1;
    }
    Ok(CumulativeCapitalGains { capital_gains_total: total, capital_gains_years_totals: years })
}


// ---------------------------------------------------------------------------
// What the totals are worth: where no addition rounds, a total is the sum of
// what was added.

/// The total of a result of `gains_fold` or `sum_gains`.
pub open spec fn totals_total(r: Option<(Dec, Seq<(i32, Dec)>)>) -> Dec {
    match r {
        Some((t, _)) => t,
        None => zero_gain(),
    }
}

/// The yearly totals of a result of `gains_fold` or `sum_gains`.
pub open spec fn totals_years(r: Option<(Dec, Seq<(i32, Dec)>)>) -> Seq<(i32, Dec)> {
    match r {
        Some((_, ys)) => ys,
        None => Seq::empty(),
    }
}

/// `rust_decimal` adds `a` and `b` exactly (at a scale a decimal holds).
pub open spec fn add_exact(a: Dec, b: Dec) -> bool {
    &&& decimal_checked_add(a, b) is Some
    &&& is_sum(decimal_checked_add(a, b)->0, a, b)
    &&& scale_ok(decimal_checked_add(a, b)->0)
}

/// The total of the year `y` among yearly totals, in units (zero where the
/// year has none).
pub open spec fn year_units(s: Seq<(i32, Dec)>, y: i32) -> int {
    if year_pos(s, y) >= 0 {
        units(s[year_pos(s, y)].1)
    } else {
        0
    }
}

/// The sum, in units, of all yearly totals.
pub open spec fn years_units_sum(s: Seq<(i32, Dec)>) -> int
    decreases s.len(),
{
    if s.len() == 0 {
        0
    } else {
        years_units_sum(s.drop_last()) + units(s.last().1)
    }
}

/// Every yearly total is at a scale a decimal holds.
pub open spec fn years_scale_ok(s: Seq<(i32, Dec)>) -> bool {
    forall|i: int| 0 <= i < s.len() ==> scale_ok(#[trigger] s[i].1)
}

/// Adding `g` to the total of the year `y` is exact.
pub open spec fn year_add_exact(s: Seq<(i32, Dec)>, y: i32, g: Dec) -> bool {
    if year_pos(s, y) < 0 {
        add_exact(zero_dec(), g)
    } else {
        add_exact(s[year_pos(s, y)].1, g)
    }
}

/// The sum, in units, of the capital gains of the first `n` deltas: gains
/// and losses alike, a delta without a gain counting zero.
pub open spec fn gains_units_upto(ds: Seq<TxDelta>, n: nat) -> int
    decreases n,
{
    if n == 0 {
        0
    } else {
        gains_units_upto(ds, (n - 1) as nat) + match ds[n - 1].capital_gain {
            Some(g) => units(g),
            None => 0,
        }
    }
}

/// The sum, in units, of the capital gains of those of the first `n` deltas
/// that settle in the year `y`.
pub open spec fn year_gains_units_upto(ds: Seq<TxDelta>, n: nat, y: i32) -> int
    decreases n,
{
    if n == 0 {
        0
    } else {
        year_gains_units_upto(ds, (n - 1) as nat, y) + match ds[n - 1].capital_gain {
            Some(g) => if delta_year(ds[n - 1]) == y {
                units(g)
            } else {
                0
            },
            None => 0,
        }
    }
}

/// No addition of the first `n` deltas' gains rounds: each gain is added
/// exactly to the running total and to its year's running total.
pub open spec fn gains_adds_exact(ds: Seq<TxDelta>, n: nat) -> bool
    decreases n,
{
    if n == 0 {
        true
    } else {
        &&& gains_adds_exact(ds, (n - 1) as nat)
        &&& match (gains_fold(ds, (n - 1) as nat), ds[n - 1].capital_gain) {
            (Some((t, ys)), Some(g)) => {
                &&& scale_ok(g)
                &&& add_exact(t, g)
                &&& year_add_exact(ys, delta_year(ds[n - 1]), g)
            },
            _ => true,
        }
    }
}

proof fn lemma_year_pos_found(s: Seq<(i32, Dec)>, y: i32)
    ensures
        year_pos(s, y) >= 0 ==> s[year_pos(s, y)].0 == y,
        year_pos(s, y) < s.len(),
    decreases s.len(),
{
    if s.len() > 0 && s.last().0 != y {
        lemma_year_pos_found(s.drop_last(), y);
    }
}

proof fn lemma_year_pos_push(s: Seq<(i32, Dec)>, y: i32, t: Dec, y2: i32)
    ensures
        year_pos(s.push((y, t)), y2) == if y2 == y {
            s.len() as int
        } else {
            year_pos(s, y2)
        },
{
    assert(s.push((y, t)).drop_last() =~= s);
}

proof fn lemma_year_pos_update(s: Seq<(i32, Dec)>, y: i32, t: Dec, y2: i32)
    requires
        year_pos(s, y) >= 0,
    ensures
        year_pos(s.update(year_pos(s, y), (y, t)), y2) == year_pos(s, y2),
    decreases s.len(),
{
    let k = year_pos(s, y);
    let s2 = s.update(k, (y, t));
    lemma_year_pos_found(s, y);
    if s.last().0 == y {
        assert(s2.drop_last() =~= s.drop_last());
    } else {
        assert(s2.last() == s.last());
        assert(s2.drop_last() =~= s.drop_last().update(k, (y, t)));
        lemma_year_pos_update(s.drop_last(), y, t, y2);
    }
}

proof fn lemma_years_sum_update(s: Seq<(i32, Dec)>, k: int, e: (i32, Dec))
    requires
        0 <= k < s.len(),
    ensures
        years_units_sum(s.update(k, e)) == years_units_sum(s) - units(s[k].1) + units(e.1),
    decreases s.len(),
{
    let s2 = s.update(k, e);
    if k == s.len() - 1 {
        assert(s2.drop_last() =~= s.drop_last());
    } else {
        assert(s2.drop_last() =~= s.drop_last().update(k, e));
        lemma_years_sum_update(s.drop_last(), k, e);
    }
}

/// An exact addition of `g` to the year `y` adds `g` to that year, and to
/// the sum of the years, and to no other year.
proof fn lemma_add_gain_exact(s: Seq<(i32, Dec)>, y: i32, g: Dec)
    requires
        years_scale_ok(s),
        scale_ok(g),
        year_add_exact(s, y, g),
    ensures
        add_gain(s, y, g) is Some,
        years_scale_ok(add_gain(s, y, g)->0),
        forall|y2: i32|
            #[trigger] year_units(add_gain(s, y, g)->0, y2) == year_units(s, y2) + if y2 == y {
                units(g)
            } else {
                0
            },
        years_units_sum(add_gain(s, y, g)->0) == years_units_sum(s) + units(g),
{
    lemma_spec_new(0, 0);
    lemma_year_pos_found(s, y);
    let k = year_pos(s, y);
    if k < 0 {
        let t = decimal_checked_add(zero_dec(), g)->0;
        lemma_units_of_sum(t, zero_dec(), g);
        let s2 = s.push((y, t));
        assert(s2.drop_last() =~= s);
        assert forall|i: int| 0 <= i < s2.len() implies scale_ok(#[trigger] s2[i].1) by {
            if i < s.len() {
                assert(s2[i] == s[i]);
            }
        }
        assert forall|y2: i32| #[trigger] year_units(s2, y2) == year_units(s, y2) + if y2 == y {
            units(g)
        } else {
            0
        } by {
            lemma_year_pos_push(s, y, t, y2);
            if y2 != y && year_pos(s, y2) >= 0 {
                lemma_year_pos_found(s, y2);
                assert(s2[year_pos(s, y2)] == s[year_pos(s, y2)]);
            }
        }
    } else {
        let t = decimal_checked_add(s[k].1, g)->0;
        lemma_units_of_sum(t, s[k].1, g);
        let s2 = s.update(k, (y, t));
        assert forall|i: int| 0 <= i < s2.len() implies scale_ok(#[trigger] s2[i].1) by {
            if i != k {
                assert(s2[i] == s[i]);
            }
        }
        assert forall|y2: i32| #[trigger] year_units(s2, y2) == year_units(s, y2) + if y2 == y {
            units(g)
        } else {
            0
        } by {
            lemma_year_pos_update(s, y, t, y2);
            lemma_year_pos_found(s, y2);
        }
        lemma_years_sum_update(s, k, (y, t));
    }
}

/// The capital gains of a security add up, losses included: where no
/// addition rounds, the total is the sum of every delta's capital gain, the
/// total of each year is the sum of the gains of the deltas settled in that
/// year, and the total is the sum of the yearly totals.
pub proof fn law_security_gains_add_up(ds: Seq<TxDelta>, n: nat)
    requires
        n <= ds.len(),
        gains_adds_exact(ds, n),
    ensures
        gains_fold(ds, n) is Some,
        units(totals_total(gains_fold(ds, n))) == gains_units_upto(ds, n),
        forall|y: i32|
            #[trigger] year_units(totals_years(gains_fold(ds, n)), y) == year_gains_units_upto(ds, n, y),
        years_units_sum(totals_years(gains_fold(ds, n))) == gains_units_upto(ds, n),
        scale_ok(totals_total(gains_fold(ds, n))),
        years_scale_ok(totals_years(gains_fold(ds, n))),
    decreases n,
{
    lemma_spec_new(0, 0);
    if n == 0 {
        let e = Seq::<(i32, Dec)>::empty();
        assert forall|y: i32| #[trigger] year_units(e, y) == year_gains_units_upto(ds, 0, y) by {}
    } else {
        law_security_gains_add_up(ds, (n - 1) as nat);
        let (t, ys) = gains_fold(ds, (n - 1) as nat)->0;
        match ds[n - 1].capital_gain {
            None => {
                assert forall|y: i32| #[trigger] year_units(ys, y) == year_gains_units_upto(
                    ds,
                    n,
                    y,
                ) by {
                    assert(year_units(ys, y) == year_gains_units_upto(ds, (n - 1) as nat, y));
                }
            },
            Some(g) => {
                let yr = delta_year(ds[n - 1]);
                lemma_units_of_sum(decimal_checked_add(t, g)->0, t, g);
                lemma_add_gain_exact(ys, yr, g);
                let ys2 = add_gain(ys, yr, g)->0;
                assert forall|y: i32| #[trigger] year_units(ys2, y) == year_gains_units_upto(
                    ds,
                    n,
                    y,
                ) by {
                    assert(year_units(ys, y) == year_gains_units_upto(ds, (n - 1) as nat, y));
                    assert(year_units(ys2, y) == year_units(ys, y) + if y == yr {
                        units(g)
                    } else {
                        0
                    });
                }
            },
        }
    }
}

/// The sum, in units, of the totals of the first `n` securities.
pub open spec fn securities_units_upto(gs: Seq<(String, CumulativeCapitalGains)>, n: nat) -> int
    decreases n,
{
    if n == 0 {
        0
    } else {
        securities_units_upto(gs, (n - 1) as nat) + units(gs[n - 1].1.capital_gains_total)
    }
}

/// Adding the yearly totals `ys` into `acc` is exact at every step.
pub open spec fn add_gains_exact(acc: Seq<(i32, Dec)>, ys: Seq<(i32, Dec)>) -> bool
    decreases ys.len(),
{
    if ys.len() == 0 {
        true
    } else {
        &&& add_gains_exact(acc, ys.drop_last())
        &&& match add_gains(acc, ys.drop_last()) {
            Some(a) => year_add_exact(a, ys.last().0, ys.last().1),
            None => true,
        }
    }
}

/// No addition of the first `n` securities' totals rounds: each total is
/// added exactly to the running total, and each yearly total exactly to its
/// year.
pub open spec fn sum_gains_exact(gs: Seq<(String, CumulativeCapitalGains)>, n: nat) -> bool
    decreases n,
{
    if n == 0 {
        true
    } else {
        &&& sum_gains_exact(gs, (n - 1) as nat)
        &&& scale_ok(gs[n - 1].1.capital_gains_total)
        &&& years_scale_ok(gs[n - 1].1.capital_gains_years_totals@)
        &&& match sum_gains(gs, (n - 1) as nat) {
            Some((t, ys)) => add_exact(t, gs[n - 1].1.capital_gains_total) && add_gains_exact(
                ys,
                gs[n - 1].1.capital_gains_years_totals@,
            ),
            None => true,
        }
    }
}

/// Exactly merging yearly totals adds their sum.
proof fn lemma_add_gains_exact(acc: Seq<(i32, Dec)>, ys: Seq<(i32, Dec)>)
    requires
        years_scale_ok(acc),
        years_scale_ok(ys),
        add_gains_exact(acc, ys),
    ensures
        add_gains(acc, ys) is Some,
        years_scale_ok(add_gains(acc, ys)->0),
        years_units_sum(add_gains(acc, ys)->0) == years_units_sum(acc) + years_units_sum(ys),
    decreases ys.len(),
{
    if ys.len() > 0 {
        let d = ys.drop_last();
        assert forall|i: int| 0 <= i < d.len() implies scale_ok(#[trigger] d[i].1) by {
            assert(d[i] == ys[i]);
        }
        lemma_add_gains_exact(acc, d);
        assert(scale_ok(ys[ys.len() - 1].1));
        lemma_add_gain_exact(add_gains(acc, d)->0, ys.last().0, ys.last().1);
    }
}

/// The capital gains of several securities add up, losses included: where
/// no addition rounds, the overall total is the sum of the securities'
/// totals; and where each security's total is the sum of its yearly totals,
/// the overall total is the sum of the merged yearly totals.
pub proof fn law_all_gains_add_up(gs: Seq<(String, CumulativeCapitalGains)>, n: nat)
    requires
        n <= gs.len(),
        sum_gains_exact(gs, n),
    ensures
        sum_gains(gs, n) is Some,
        units(totals_total(sum_gains(gs, n))) == securities_units_upto(gs, n),
        scale_ok(totals_total(sum_gains(gs, n))),
        years_scale_ok(totals_years(sum_gains(gs, n))),
        (forall|i: int|
            0 <= i < n ==> units((#[trigger] gs[i]).1.capital_gains_total) == years_units_sum(
                gs[i].1.capital_gains_years_totals@,
            )) ==> years_units_sum(totals_years(sum_gains(gs, n))) == units(totals_total(sum_gains(gs, n))),
    decreases n,
{
    lemma_spec_new(0, 0);
    if n > 0 {
        law_all_gains_add_up(gs, (n - 1) as nat);
        let (t, ys) = sum_gains(gs, (n - 1) as nat)->0;
        let g = gs[n - 1].1;
        lemma_units_of_sum(decimal_checked_add(t, g.capital_gains_total)->0, t, g.capital_gains_total);
        lemma_add_gains_exact(ys, g.capital_gains_years_totals@);
    }
}
/// The sum, in units, of the entries of the year `y` in a list of yearly
/// totals.
pub open spec fn list_year_units(ys: Seq<(i32, Dec)>, y: i32) -> int
    decreases ys.len(),
{
    if ys.len() == 0 {
        0
    } else {
        list_year_units(ys.drop_last(), y) + if ys.last().0 == y {
            units(ys.last().1)
        } else {
            0
        }
    }
}

/// The sum, in units, of the year `y`'s totals of the first `n` securities.
pub open spec fn securities_year_units_upto(
    gs: Seq<(String, CumulativeCapitalGains)>,
    n: nat,
    y: i32,
) -> int
    decreases n,
{
    if n == 0 {
        0
    } else {
        securities_year_units_upto(gs, (n - 1) as nat, y) + list_year_units(
            gs[n - 1].1.capital_gains_years_totals@,
            y,
        )
    }
}

/// Exactly merging yearly totals adds each year's entries to that year.
proof fn lemma_add_gains_years(acc: Seq<(i32, Dec)>, ys: Seq<(i32, Dec)>, y: i32)
    requires
        years_scale_ok(acc),
        years_scale_ok(ys),
        add_gains_exact(acc, ys),
    ensures
        add_gains(acc, ys) is Some,
        year_units(add_gains(acc, ys)->0, y) == year_units(acc, y) + list_year_units(ys, y),
    decreases ys.len(),
{
    lemma_add_gains_exact(acc, ys);
    if ys.len() > 0 {
        let d = ys.drop_last();
        assert forall|i: int| 0 <= i < d.len() implies scale_ok(#[trigger] d[i].1) by {
            assert(d[i] == ys[i]);
        }
        lemma_add_gains_years(acc, d, y);
        lemma_add_gains_exact(acc, d);
        assert(scale_ok(ys[ys.len() - 1].1));
        lemma_add_gain_exact(add_gains(acc, d)->0, ys.last().0, ys.last().1);
        assert(year_units(add_gains(acc, ys)->0, y) == year_units(add_gains(acc, d)->0, y) + if y
            == ys.last().0 {
            units(ys.last().1)
        } else {
            0
        });
    }
}

/// Each year's merged total is the sum of that year's totals of all the
/// securities, losses included, where no addition rounds.
pub proof fn law_all_gains_years_add_up(gs: Seq<(String, CumulativeCapitalGains)>, n: nat, y: i32)
    requires
        n <= gs.len(),
        sum_gains_exact(gs, n),
    ensures
        sum_gains(gs, n) is Some,
        year_units(totals_years(sum_gains(gs, n)), y) == securities_year_units_upto(gs, n, y),
    decreases n,
{
    law_all_gains_add_up(gs, n);
    if n > 0 {
        law_all_gains_years_add_up(gs, (n - 1) as nat, y);
        law_all_gains_add_up(gs, (n - 1) as nat);
        let (t, ys) = sum_gains(gs, (n - 1) as nat)->0;
        lemma_add_gains_years(ys, gs[n - 1].1.capital_gains_years_totals@, y);
    }
}

} // verus!
