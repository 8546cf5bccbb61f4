//! The latest holdings of each affiliate in one security.

use vstd::prelude::*;
use crate::portfolio::affiliate::{Affiliate, AffiliateView};
use crate::portfolio::txdelta::{PortfolioSecurityStatus, StatusView};
use crate::util::decimal::{
    decimal_checked_add, decimal_checked_sub, difference_fits, is_difference, is_sum, same_value,
    scale_ok, sum_fits, units, Dec, GreaterEqualZeroDecimal,
};
use crate::util::text::str_eq;

verus! {

/// What the tracker holds: the last status of each affiliate (by id), the
/// share balance across all affiliates after the latest status, and the
/// affiliate of the latest status.
pub struct StatusesView {
    pub security: Seq<char>,
    pub by_affiliate: Map<Seq<char>, StatusView>,
    pub all_affiliates_share_balance: Dec,
    pub latest_affiliate: AffiliateView,
}

/// The map from affiliate id to status that a list of entries stands for
/// (a later entry for an id replaces an earlier one).
pub open spec fn entries_map(entries: Seq<(Seq<char>, StatusView)>) -> Map<Seq<char>, StatusView>
    decreases entries.len(),
{
    if entries.len() == 0 {
        Map::empty()
    } else {
        entries_map(entries.drop_last()).insert(entries.last().0, entries.last().1)
    }
}

/// The zero status of an affiliate that has none yet: no shares, and a zero
/// ACB unless the affiliate is registered.
pub open spec fn default_status(security: Seq<char>, af: AffiliateView, all_shares: Dec) -> StatusView {
    StatusView {
        security,
        share_balance: Dec::spec_new(0, 0),
        all_affiliate_share_balance: all_shares,
        total_acb: if af.registered {
            None
        } else {
            Some(Dec::spec_new(0, 0))
        },
    }
}

/// The last status of an affiliate, or its zero status.
pub open spec fn last_or_default(s: StatusesView, af: AffiliateView) -> StatusView {
    if s.by_affiliate.dom().contains(af.id) {
        s.by_affiliate[af.id]
    } else {
        default_status(s.security, af, Dec::spec_new(0, 0))
    }
}

/// The status that the latest affiliate was left in.
pub open spec fn latest_post_status(s: StatusesView) -> StatusView {
    last_or_default(s, s.latest_affiliate)
}

/// The status an affiliate starts its next transaction from: its last status,
/// with the share balance across all affiliates brought up to date.
pub open spec fn next_pre_status(s: StatusesView, af: AffiliateView) -> StatusView {
    let last = last_or_default(s, af);
    if same_value(last.all_affiliate_share_balance, s.all_affiliates_share_balance) {
        last
    } else {
        StatusView { all_affiliate_share_balance: s.all_affiliates_share_balance, ..last }
    }
}

/// The share balance across all affiliates that a new status of `af` with
/// `shares` implies: `shares + latest total - af's last shares`, as
/// `rust_decimal` computes it.
pub open spec fn expected_all_shares(s: StatusesView, af: AffiliateView, shares: Dec) -> Option<Dec> {
    let last_shares = if s.by_affiliate.dom().contains(af.id) {
        s.by_affiliate[af.id].share_balance
    } else {
        Dec::spec_new(0, 0)
    };
    match decimal_checked_add(shares, s.all_affiliates_share_balance) {
        Some(x) => decimal_checked_sub(x, last_shares),
        None => None,
    }
}

/// A new status of `af` fits the tracker: it has an ACB exactly when `af` is
/// not registered, and its total share balance follows from its own.
pub open spec fn post_status_fits(s: StatusesView, af: AffiliateView, v: StatusView) -> bool {
    &&& af.registered == (v.total_acb is None)
    &&& expected_all_shares(s, af, v.share_balance) is Some
    &&& same_value(expected_all_shares(s, af, v.share_balance)->0, v.all_affiliate_share_balance)
}

/// The tracker after recording `v` as the latest status of `af`.
pub open spec fn after_post_status(s: StatusesView, af: AffiliateView, v: StatusView) -> StatusesView {
    StatusesView {
        security: s.security,
        by_affiliate: s.by_affiliate.insert(af.id, v),
        all_affiliates_share_balance: v.all_affiliate_share_balance,
        latest_affiliate: af,
    }
}

/// Tracks the most recent status of each affiliate in one security, and the
/// share balance across all affiliates. Statuses are recorded one after the
/// other with `set_latest_post_status`.
pub struct AffiliatePortfolioSecurityStatuses {
    last_post_status_for_affiliate: Vec<(Affiliate, PortfolioSecurityStatus)>,
    security: String,
    latest_all_affiliates_share_balance: GreaterEqualZeroDecimal,
    latest_affiliate: Affiliate,
}

pub open spec fn entry_views(entries: Seq<(Affiliate, PortfolioSecurityStatus)>) -> Seq<
    (Seq<char>, StatusView),
> {
    entries.map_values(|e: (Affiliate, PortfolioSecurityStatus)| (e.0@.id, e.1@))
}

proof fn lemma_entries_map_push(entries: Seq<(Seq<char>, StatusView)>, e: (Seq<char>, StatusView))
    ensures
        entries_map(entries.push(e)) == entries_map(entries).insert(e.0, e.1),
{
    assert(entries.push(e).drop_last() =~= entries);
}

proof fn lemma_entries_map_update(
    entries: Seq<(Seq<char>, StatusView)>,
    i: int,
    e: (Seq<char>, StatusView),
)
    requires
        0 <= i < entries.len(),
        entries[i].0 == e.0,
        forall|j: int| i < j < entries.len() ==> entries[j].0 != e.0,
    ensures
        entries_map(entries.update(i, e)) == entries_map(entries).insert(e.0, e.1),
    decreases entries.len(),
{
    let u = entries.update(i, e);
    if i == entries.len() - 1 {
        assert(u.drop_last() =~= entries.drop_last());
        assert(entries_map(u) =~= entries_map(entries).insert(e.0, e.1));
    } else {
        assert(u.drop_last() =~= entries.drop_last().update(i, e));
        lemma_entries_map_update(entries.drop_last(), i, e);
        assert(u.last() == entries.last());
        assert(entries.last().0 != e.0);
        assert(entries_map(u) =~= entries_map(entries).insert(e.0, e.1));
    }
}

proof fn lemma_entries_map_has(entries: Seq<(Seq<char>, StatusView)>, i: int)
    requires
        0 <= i < entries.len(),
        forall|j: int| i < j < entries.len() ==> entries[j].0 != entries[i].0,
    ensures
        entries_map(entries).dom().contains(entries[i].0),
        entries_map(entries)[entries[i].0] == entries[i].1,
    decreases entries.len(),
{
    if i < entries.len() - 1 {
        lemma_entries_map_has(entries.drop_last(), i);
    }
}

proof fn lemma_entries_map_dom(entries: Seq<(Seq<char>, StatusView)>, j: int)
    requires
        0 <= j < entries.len(),
    ensures
        entries_map(entries).dom().contains(entries[j].0),
    decreases entries.len(),
{
    if j < entries.len() - 1 {
        lemma_entries_map_dom(entries.drop_last(), j);
    }
}

proof fn lemma_entries_map_lacks(entries: Seq<(Seq<char>, StatusView)>, id: Seq<char>)
    requires
        forall|j: int| 0 <= j < entries.len() ==> entries[j].0 != id,
    ensures
        !entries_map(entries).dom().contains(id),
    decreases entries.len(),
{
    if entries.len() > 0 {
        lemma_entries_map_lacks(entries.drop_last(), id);
    }
}

impl AffiliatePortfolioSecurityStatuses {
    /// What the tracker holds.
    pub closed spec fn view(&self) -> StatusesView {
        StatusesView {
            security: self.security@,
            by_affiliate: entries_map(entry_views(self.last_post_status_for_affiliate@)),
            all_affiliates_share_balance: self.latest_all_affiliates_share_balance@,
            latest_affiliate: self.latest_affiliate@,
        }
    }

    /// Each affiliate has at most one entry.
    #[verifier::type_invariant]
    spec fn ids_unique(&self) -> bool {
        forall|i: int, j: int|
            0 <= i < j < self.last_post_status_for_affiliate@.len()
                ==> #[trigger] self.last_post_status_for_affiliate@[i].0@.id
                != #[trigger] self.last_post_status_for_affiliate@[j].0@.id
    }

    /// A tracker for `security`. An initial status belongs to the default
    /// affiliate; it must have an ACB and hold all the shares there are.
    pub fn new(security: String, initial_default_aff_status: Option<PortfolioSecurityStatus>) -> (r:
        Self)
        requires
            initial_default_aff_status matches Some(init) ==> {
                &&& init.total_acb is Some
                &&& same_value(init.share_balance@, init.all_affiliate_share_balance@)
            },
        ensures
            r@.security == security@,
            r@.latest_affiliate == Affiliate::default_view(),
            initial_default_aff_status is None ==> {
                &&& r@.by_affiliate == Map::<Seq<char>, StatusView>::empty()
                &&& r@.all_affiliates_share_balance == Dec::spec_new(0, 0)
            },
            initial_default_aff_status matches Some(init) ==> {
                &&& r@.by_affiliate == Map::<Seq<char>, StatusView>::empty().insert(
                    Affiliate::default_view().id,
                    init@,
                )
                &&& r@.all_affiliates_share_balance == init.all_affiliate_share_balance@
            },
    {
        let mut entries: Vec<(Affiliate, PortfolioSecurityStatus)> = Vec::new();
        let mut all = GreaterEqualZeroDecimal::zero();
        match initial_default_aff_status {
            Some(init) => {
                all = init.all_affiliate_share_balance;
                entries.push((Affiliate::default(), init));
                proof {
                    lemma_entries_map_push(Seq::empty(), entry_views(entries@)[0]);
                    assert(entry_views(entries@) =~= Seq::<(Seq<char>, StatusView)>::empty().push(
                        entry_views(entries@)[0],
                    ));
                }
            },
            None => {
                proof {
                    assert(entry_views(entries@) =~= Seq::<(Seq<char>, StatusView)>::empty());
                }
            },
        }
        AffiliatePortfolioSecurityStatuses {
            last_post_status_for_affiliate: entries,
            security,
            latest_all_affiliates_share_balance: all,
            latest_affiliate: Affiliate::default(),
        }
    }

    /// The index of the entry of the affiliate with this id.
    fn entry_index(&self, af: &Affiliate) -> (r: Option<usize>)
        ensures
            r is None ==> !self@.by_affiliate.dom().contains(af@.id),
            r matches Some(i) ==> {
                &&& i < self.last_post_status_for_affiliate@.len()
                &&& self.last_post_status_for_affiliate@[i as int].0@.id == af@.id
                &&& self@.by_affiliate.dom().contains(af@.id)
                &&& self@.by_affiliate[af@.id] == self.last_post_status_for_affiliate@[i as int].1@
            },
    {
        proof {
            use_type_invariant(self);
        }
        let ghost ev = entry_views(self.last_post_status_for_affiliate@);
        let mut i: usize = 0;
        while i < self.last_post_status_for_affiliate.len()
            invariant
                i <= self.last_post_status_for_affiliate@.len(),
                ev == entry_views(self.last_post_status_for_affiliate@),
                forall|j: int| 0 <= j < i ==> ev[j].0 != af@.id,
            decreases self.last_post_status_for_affiliate@.len() - i,
        {
            if str_eq(self.last_post_status_for_affiliate[i].0.id(), af.id()) {
                proof {
                    use_type_invariant(self);
                    assert forall|j: int| i < j < ev.len() implies ev[j].0 != ev[i as int].0 by {
                        assert(self.last_post_status_for_affiliate@[i as int].0@.id
                            != self.last_post_status_for_affiliate@[j].0@.id);
                    }
                    lemma_entries_map_has(ev, i as int);
                }
                return Some(i);
            }
            i += 1;
        }
        proof {
            lemma_entries_map_lacks(ev, af@.id);
        }
        None
    }

    /// The last status recorded for the affiliate, if any.
    pub fn get_latest_post_status_for_affiliate(&self, af: &Affiliate) -> (r: Option<
        &PortfolioSecurityStatus,
    >)
        ensures
            r is Some <==> self@.by_affiliate.dom().contains(af@.id),
            r matches Some(st) ==> st@ == self@.by_affiliate[af@.id],
    {
        match self.entry_index(af) {
            Some(i) => Some(&self.last_post_status_for_affiliate[i].1),
            None => None,
        }
    }

    fn make_default_portfolio_security_status(&self, af: &Affiliate) -> (r: PortfolioSecurityStatus)
        ensures
            r@ == default_status(self@.security, af@, Dec::spec_new(0, 0)),
    {
        let zero = GreaterEqualZeroDecimal::zero();
        PortfolioSecurityStatus {
            security: self.security.clone(),
            share_balance: zero,
            all_affiliate_share_balance: zero,
            total_acb: if af.registered() {
                None
            } else {
                Some(zero)
            },
        }
    }

    /// The status the latest affiliate was left in (its zero status where none
    /// was recorded yet).
    pub fn get_latest_post_status(&self) -> (r: PortfolioSecurityStatus)
        ensures
            r@ == latest_post_status(self@),
    {
        match self.get_latest_post_status_for_affiliate(&self.latest_affiliate) {
            Some(s) => s.clone_status(),
            None => self.make_default_portfolio_security_status(&self.latest_affiliate),
        }
    }

    /// Records `v` as the latest status of `af`. `v` must fit (see
    /// `post_status_fits`); `try_set_latest_post_status` checks that first.
    pub fn set_latest_post_status(&mut self, af: &Affiliate, v: PortfolioSecurityStatus)
        requires
            post_status_fits(old(self)@, af@, v@),
        ensures
            final(self)@ == after_post_status(old(self)@, af@, v@),
    {
        proof {
            use_type_invariant(&*self);
        }
        let ghost old_entries = entry_views(self.last_post_status_for_affiliate@);
        let ghost old_list = self.last_post_status_for_affiliate@;
        let all = v.all_affiliate_share_balance;
        let idx = self.entry_index(af);
        let ghost e = (af@.id, v@);
        match idx {
            Some(i) => {
                let mut entries = Vec::new();
                std::mem::swap(&mut entries, &mut self.last_post_status_for_affiliate);
                entries.set(i, (af.clone(), v));
                proof {
                    assert(entry_views(entries@) =~= old_entries.update(i as int, e));
                    assert forall|j: int| i < j < old_entries.len() implies old_entries[j].0
                        != e.0 by {
                        assert(old_list[i as int].0@.id != old_list[j].0@.id);
                    }
                    lemma_entries_map_update(old_entries, i as int, e);
                    assert forall|a: int, b: int|
                        0 <= a < b < entries@.len() implies #[trigger] entries@[a].0@.id
                        != #[trigger] entries@[b].0@.id by {
                        assert(old_list[a].0@.id != old_list[b].0@.id);
                    }
                }
                self.last_post_status_for_affiliate = entries;
            },
            None => {
                let mut entries = Vec::new();
                std::mem::swap(&mut entries, &mut self.last_post_status_for_affiliate);
                entries.push((af.clone(), v));
                proof {
                    assert(entry_views(entries@) =~= old_entries.push(e));
                    lemma_entries_map_push(old_entries, e);
                    assert forall|a: int, b: int|
                        0 <= a < b < entries@.len() implies #[trigger] entries@[a].0@.id
                        != #[trigger] entries@[b].0@.id by {
                        if b < old_list.len() {
                            assert(old_list[a].0@.id != old_list[b].0@.id);
                        } else {
                            lemma_entries_map_dom(old_entries, a);
                            assert(old_entries[a].0 != af@.id);
                        }
                    }
                }
                self.last_post_status_for_affiliate = entries;
            },
        }
        self.latest_all_affiliates_share_balance = all;
        self.latest_affiliate = af.clone();
    }

    /// Records `v` as the latest status of `af` where it fits; otherwise
    /// leaves the tracker as it was and says why.
    pub fn try_set_latest_post_status(&mut self, af: &Affiliate, v: PortfolioSecurityStatus) -> (r:
        Result<(), String>)
        ensures
            r is Ok <==> post_status_fits(old(self)@, af@, v@),
            r is Ok ==> final(self)@ == after_post_status(old(self)@, af@, v@),
            r is Err ==> final(self)@ == old(self)@,
            r is Ok && total_step_fits(old(self)@, af@, v@) ==> total_step_exact(
                old(self)@,
                af@,
                v@,
            ),
    {
        let registered_mismatch = af.registered() != v.total_acb.is_none();
        if registered_mismatch {
            let mut msg = String::from_str("In security ");
            msg.append(self.security.as_str());
            msg.append(", af ");
            msg.append(af.name());
            msg.append(", total_acb has bad value");
            return Err(msg);
        }
        let last_shares = match self.get_latest_post_status_for_affiliate(af) {
            Some(st) => st.share_balance.get(),
            None => GreaterEqualZeroDecimal::zero().get(),
        };
        let expected = match v.share_balance.get().checked_add(
            &self.latest_all_affiliates_share_balance.get(),
        ) {
            Some(x) => x.checked_sub(&last_shares),
            None => None,
        };
        let fits = match expected {
            Some(e) => e.value_eq(&v.all_affiliate_share_balance.get()),
            None => false,
        };
        if !fits {
            let mut msg = String::from_str("In security ");
            msg.append(self.security.as_str());
            msg.append(", af ");
            msg.append(af.name());
            msg.append(", v.all_affiliate_share_balance (");
            msg.append(v.all_affiliate_share_balance.get().to_string().as_str());
            msg.append(") does not follow from the share balance (");
            msg.append(v.share_balance.get().to_string().as_str());
            msg.append(")");
            return Err(msg);
        }
        self.set_latest_post_status(af, v);
        Ok(())
    }

    /// The status `af` starts its next transaction from: its last status (or
    /// zero status), with the share balance across all affiliates brought up
    /// to date where another affiliate moved it since.
    pub fn get_next_pre_status(&self, af: &Affiliate) -> (r: PortfolioSecurityStatus)
        ensures
            r@ == next_pre_status(self@, af@),
    {
        let last = match self.get_latest_post_status_for_affiliate(af) {
            Some(s) => s.clone_status(),
            None => self.make_default_portfolio_security_status(af),
        };
        if last.all_affiliate_share_balance.get().value_eq(
            &self.latest_all_affiliates_share_balance.get(),
        ) {
            last
        } else {
            PortfolioSecurityStatus {
                all_affiliate_share_balance: self.latest_all_affiliates_share_balance,
                ..last
            }
        }
    }

    pub fn security(&self) -> (r: &str)
        ensures
            r@ == self@.security,
    {
        self.security.as_str()
    }
}

/// After a status is recorded for an affiliate, it is that affiliate's last
/// status and the latest status, and every other affiliate keeps its own.
pub proof fn law_recorded_status_is_latest(
    s: StatusesView,
    af: AffiliateView,
    other: AffiliateView,
    v: StatusView,
)
    requires
        post_status_fits(s, af, v),
    ensures
        after_post_status(s, af, v).by_affiliate[af.id] == v,
        latest_post_status(after_post_status(s, af, v)) == v,
        other.id != af.id ==> last_or_default(after_post_status(s, af, v), other)
            == last_or_default(s, other),
{
}

/// The next status of the affiliate that was recorded last is the status it
/// was left in.
pub proof fn law_next_pre_status_continues_latest(s: StatusesView, af: AffiliateView, v: StatusView)
    requires
        post_status_fits(s, af, v),
    ensures
        next_pre_status(after_post_status(s, af, v), af) == v,
{
}

/// The next status of any affiliate carries the current share balance across
/// all affiliates (in value).
pub proof fn law_next_pre_status_has_current_total(s: StatusesView, af: AffiliateView)
    ensures
        same_value(
            next_pre_status(s, af).all_affiliate_share_balance,
            s.all_affiliates_share_balance,
        ),
        next_pre_status(s, af).share_balance == last_or_default(s, af).share_balance,
        next_pre_status(s, af).total_acb == last_or_default(s, af).total_acb,
{
}


/// Adds an affiliate's share balance (in units) to a running total.
pub open spec fn add_balance(m: Map<Seq<char>, StatusView>) -> spec_fn(int, Seq<char>) -> int {
    |acc: int, k: Seq<char>| acc + units(m[k].share_balance)
}

/// The sum, in units, of the share balances of the affiliates with ids in
/// `keys`.
pub open spec fn balances_over(keys: Set<Seq<char>>, m: Map<Seq<char>, StatusView>) -> int {
    keys.fold(0int, add_balance(m))
}

/// The sum, in units, of the latest share balances of all affiliates.
pub open spec fn balances_sum(m: Map<Seq<char>, StatusView>) -> int {
    balances_over(m.dom(), m)
}

/// The tracker's share balance across all affiliates is the sum of each
/// affiliate's latest share balance (all of them at scales a decimal holds).
pub open spec fn total_is_sum(s: StatusesView) -> bool {
    &&& s.by_affiliate.dom().finite()
    &&& forall|k: Seq<char>| #[trigger]
        s.by_affiliate.dom().contains(k) ==> scale_ok(s.by_affiliate[k].share_balance)
    &&& scale_ok(s.all_affiliates_share_balance)
    &&& units(s.all_affiliates_share_balance) == balances_sum(s.by_affiliate)
}

/// `rust_decimal` computes the new total for recording `v` exactly: the sum
/// and the difference in `expected_all_shares` are exact, at scales a decimal
/// holds.
pub open spec fn total_step_exact(s: StatusesView, af: AffiliateView, v: StatusView) -> bool {
    let x = decimal_checked_add(v.share_balance, s.all_affiliates_share_balance);
    let y = expected_all_shares(s, af, v.share_balance);
    &&& x is Some && scale_ok(x->0)
    &&& is_sum(x->0, v.share_balance, s.all_affiliates_share_balance)
    &&& y is Some && scale_ok(y->0)
    &&& is_difference(y->0, x->0, last_or_default(s, af).share_balance)
}

/// The sum and the difference that give the new total for recording `v`
/// fit without rounding.
pub open spec fn total_step_fits(s: StatusesView, af: AffiliateView, v: StatusView) -> bool {
    &&& sum_fits(v.share_balance, s.all_affiliates_share_balance)
    &&& difference_fits(
        decimal_checked_add(v.share_balance, s.all_affiliates_share_balance)->0,
        last_or_default(s, af).share_balance,
    )
}

proof fn lemma_add_balance_commutes(m: Map<Seq<char>, StatusView>)
    ensures
        vstd::set::fold::is_fun_commutative(add_balance(m)),
{
    assert forall|a1: Seq<char>, a2: Seq<char>, b: int| #[trigger]
        add_balance(m)(add_balance(m)(b, a2), a1) == add_balance(m)(add_balance(m)(b, a1), a2) by {
    }
}

/// Two maps that agree on the balances of `keys` sum them alike.
proof fn lemma_balances_agree(
    keys: Set<Seq<char>>,
    m1: Map<Seq<char>, StatusView>,
    m2: Map<Seq<char>, StatusView>,
)
    requires
        keys.finite(),
        forall|k: Seq<char>| #[trigger]
            keys.contains(k) ==> m1[k].share_balance == m2[k].share_balance,
    ensures
        balances_over(keys, m1) == balances_over(keys, m2),
    decreases keys.len(),
{
    lemma_add_balance_commutes(m1);
    lemma_add_balance_commutes(m2);
    if keys.len() == 0 {
        assert(keys =~= Set::empty());
        vstd::set::fold::lemma_fold_empty(0int, add_balance(m1));
        vstd::set::fold::lemma_fold_empty(0int, add_balance(m2));
    } else {
        let a = keys.choose();
        let rest = keys.remove(a);
        assert(rest.insert(a) =~= keys);
        lemma_balances_agree(rest, m1, m2);
        vstd::set::fold::lemma_fold_insert(rest, 0int, add_balance(m1), a);
        vstd::set::fold::lemma_fold_insert(rest, 0int, add_balance(m2), a);
    }
}

/// Replacing or adding an affiliate's status changes the sum by the change
/// of its balance.
proof fn lemma_balances_after_insert(m: Map<Seq<char>, StatusView>, k: Seq<char>, v: StatusView)
    requires
        m.dom().finite(),
    ensures
        balances_sum(m.insert(k, v)) == balances_sum(m) - (if m.dom().contains(k) {
            units(m[k].share_balance)
        } else {
            0
        }) + units(v.share_balance),
{
    let m2 = m.insert(k, v);
    lemma_add_balance_commutes(m);
    lemma_add_balance_commutes(m2);
    if m.dom().contains(k) {
        let rest = m.dom().remove(k);
        assert(rest.insert(k) =~= m.dom());
        assert(m2.dom() =~= m.dom());
        lemma_balances_agree(rest, m, m2);
        vstd::set::fold::lemma_fold_insert(rest, 0int, add_balance(m), k);
        vstd::set::fold::lemma_fold_insert(rest, 0int, add_balance(m2), k);
    } else {
        assert(m2.dom() =~= m.dom().insert(k));
        lemma_balances_agree(m.dom(), m, m2);
        vstd::set::fold::lemma_fold_insert(m.dom(), 0int, add_balance(m2), k);
    }
}

/// Recording statuses keeps the share balance across all affiliates equal to
/// the sum of each affiliate's latest share balance (in value): where that
/// holds, recording a status that fits, with `rust_decimal` computing the new
/// total exactly, keeps it.
pub proof fn law_total_stays_sum_of_latest_balances(s: StatusesView, af: AffiliateView, v: StatusView)
    requires
        total_is_sum(s),
        post_status_fits(s, af, v),
        total_step_exact(s, af, v),
        scale_ok(v.share_balance),
        scale_ok(v.all_affiliate_share_balance),
    ensures
        total_is_sum(after_post_status(s, af, v)),
{
    let m = s.by_affiliate;
    let x = decimal_checked_add(v.share_balance, s.all_affiliates_share_balance)->0;
    let y = expected_all_shares(s, af, v.share_balance)->0;
    let last = last_or_default(s, af).share_balance;
    crate::util::decimal::lemma_spec_new(0, 0);
    crate::util::decimal::lemma_units_of_sum(x, v.share_balance, s.all_affiliates_share_balance);
    crate::util::decimal::lemma_units_of_difference(y, x, last);
    crate::util::decimal::lemma_units_of_same_value(y, v.all_affiliate_share_balance);
    lemma_balances_after_insert(m, af.id, v);
    let after = after_post_status(s, af, v);
    assert(after.by_affiliate.dom() =~= m.dom().insert(af.id));
    assert forall|k: Seq<char>| #[trigger] after.by_affiliate.dom().contains(k) implies scale_ok(
        after.by_affiliate[k].share_balance,
    ) by {
        if k != af.id {
            assert(m.dom().contains(k));
        }
    }
}

/// A new tracker's share balance across all affiliates is the sum of its
/// affiliates' balances: none, or the initial status, which holds all the
/// shares there are.
pub proof fn law_new_tracker_total_is_sum(s: StatusesView, init: Option<StatusView>)
    requires
        init matches Some(i) ==> {
            &&& s.by_affiliate == Map::<Seq<char>, StatusView>::empty().insert(
                Affiliate::default_view().id,
                i,
            )
            &&& s.all_affiliates_share_balance == i.all_affiliate_share_balance
            &&& same_value(i.share_balance, i.all_affiliate_share_balance)
            &&& scale_ok(i.share_balance) && scale_ok(i.all_affiliate_share_balance)
        },
        init is None ==> {
            &&& s.by_affiliate == Map::<Seq<char>, StatusView>::empty()
            &&& s.all_affiliates_share_balance == Dec::spec_new(0, 0)
        },
    ensures
        total_is_sum(s),
{
    crate::util::decimal::lemma_spec_new(0, 0);
    let e = Map::<Seq<char>, StatusView>::empty();
    assert(e.dom() =~= Set::empty());
    vstd::set::fold::lemma_fold_empty(0int, add_balance(e));
    match init {
        Some(i) => {
            crate::util::decimal::lemma_units_of_same_value(i.share_balance, i.all_affiliate_share_balance);
            lemma_balances_after_insert(e, Affiliate::default_view().id, i);
            assert(s.by_affiliate.dom() =~= Set::empty().insert(Affiliate::default_view().id));
        },
        None => {},
    }
}

/// What recording a status does, over every state of the tracker.
/// `set_latest_post_status(af, v)` requires what the original asserts
/// (`post_status_fits`: an ACB exactly for an unregistered affiliate, and
/// the new total share balance equal to `v`'s balance plus the old total less
/// `af`'s last balance). Afterwards `get_latest_post_status_for_affiliate(af)`
/// gives `v`, `get_latest_post_status()` gives `v`, every other affiliate
/// keeps its latest status, and where the total was the sum of every
/// affiliate's latest balance it stays so (with `rust_decimal` computing the
/// new total exactly).
pub proof fn law_set_latest_post_status(
    s: StatusesView,
    af: AffiliateView,
    other: AffiliateView,
    v: StatusView,
)
    requires
        post_status_fits(s, af, v),
    ensures
        after_post_status(s, af, v).by_affiliate.dom().contains(af.id),
        after_post_status(s, af, v).by_affiliate[af.id] == v,
        latest_post_status(after_post_status(s, af, v)) == v,
        other.id != af.id ==> (after_post_status(s, af, v).by_affiliate.dom().contains(other.id)
            == s.by_affiliate.dom().contains(other.id)),
        other.id != af.id && s.by_affiliate.dom().contains(other.id) ==> after_post_status(
            s,
            af,
            v,
        ).by_affiliate[other.id] == s.by_affiliate[other.id],
        total_is_sum(s) && total_step_exact(s, af, v) && scale_ok(v.share_balance) && scale_ok(
            v.all_affiliate_share_balance,
        ) ==> total_is_sum(after_post_status(s, af, v)),
{
    if total_is_sum(s) && total_step_exact(s, af, v) && scale_ok(v.share_balance) && scale_ok(
        v.all_affiliate_share_balance,
    ) {
        law_total_stays_sum_of_latest_balances(s, af, v);
    }
}

} // verus!
