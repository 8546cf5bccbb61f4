//! Small collections keyed by affiliate id: a set of affiliates, and a map
//! from affiliate to a constrained decimal.

use vstd::prelude::*;
use crate::portfolio::affiliate::{Affiliate, AffiliateView};
use crate::util::decimal::{ConstrainedDecimal, Dec, DecConstraint};
use crate::util::text::str_eq;

verus! {

/// The map a list of `(key, value)` entries stands for; a later entry for a
/// key replaces an earlier one.
pub open spec fn assoc_map<V>(entries: Seq<(Seq<char>, V)>) -> Map<Seq<char>, V>
    decreases entries.len(),
{
    if entries.len() == 0 {
        Map::empty()
    } else {
        assoc_map(entries.drop_last()).insert(entries.last().0, entries.last().1)
    }
}

proof fn lemma_assoc_push<V>(entries: Seq<(Seq<char>, V)>, e: (Seq<char>, V))
    ensures
        assoc_map(entries.push(e)) == assoc_map(entries).insert(e.0, e.1),
{
    assert(entries.push(e).drop_last() =~= entries);
}

proof fn lemma_assoc_update<V>(entries: Seq<(Seq<char>, V)>, i: int, e: (Seq<char>, V))
    requires
        0 <= i < entries.len(),
        entries[i].0 == e.0,
        forall|j: int| i < j < entries.len() ==> entries[j].0 != e.0,
    ensures
        assoc_map(entries.update(i, e)) == assoc_map(entries).insert(e.0, e.1),
    decreases entries.len(),
{
    let u = entries.update(i, e);
    if i == entries.len() - 1 {
        assert(u.drop_last() =~= entries.drop_last());
        assert(assoc_map(u) =~= assoc_map(entries).insert(e.0, e.1));
    } else {
        assert(u.drop_last() =~= entries.drop_last().update(i, e));
        lemma_assoc_update(entries.drop_last(), i, e);
        assert(u.last() == entries.last());
        assert(assoc_map(u) =~= assoc_map(entries).insert(e.0, e.1));
    }
}

proof fn lemma_assoc_has<V>(entries: Seq<(Seq<char>, V)>, i: int)
    requires
        0 <= i < entries.len(),
        forall|j: int| i < j < entries.len() ==> entries[j].0 != entries[i].0,
    ensures
        assoc_map(entries).dom().contains(entries[i].0),
        assoc_map(entries)[entries[i].0] == entries[i].1,
    decreases entries.len(),
{
    if i < entries.len() - 1 {
        lemma_assoc_has(entries.drop_last(), i);
    }
}

proof fn lemma_assoc_dom<V>(entries: Seq<(Seq<char>, V)>, j: int)
    requires
        0 <= j < entries.len(),
    ensures
        assoc_map(entries).dom().contains(entries[j].0),
    decreases entries.len(),
{
    if j < entries.len() - 1 {
        lemma_assoc_dom(entries.drop_last(), j);
    }
}

proof fn lemma_assoc_dom_only<V>(entries: Seq<(Seq<char>, V)>, id: Seq<char>)
    requires
        assoc_map(entries).dom().contains(id),
    ensures
        exists|j: int| 0 <= j < entries.len() && entries[j].0 == id,
    decreases entries.len(),
{
    if entries.last().0 != id {
        lemma_assoc_dom_only(entries.drop_last(), id);
        let j = choose|j: int| 0 <= j < entries.len() - 1 && entries.drop_last()[j].0 == id;
        assert(entries[j].0 == id);
    } else {
        assert(entries[entries.len() - 1].0 == id);
    }
}

proof fn lemma_assoc_lacks<V>(entries: Seq<(Seq<char>, V)>, id: Seq<char>)
    requires
        forall|j: int| 0 <= j < entries.len() ==> entries[j].0 != id,
    ensures
        !assoc_map(entries).dom().contains(id),
    decreases entries.len(),
{
    if entries.len() > 0 {
        lemma_assoc_lacks(entries.drop_last(), id);
    }
}

/// A map from affiliate (by id) to a constrained decimal.
#[derive(Debug)]
pub struct AffiliateDecMap<C: DecConstraint> {
    entries: Vec<(Affiliate, ConstrainedDecimal<C>)>,
}

pub open spec fn dec_entry_views<C: DecConstraint>(
    entries: Seq<(Affiliate, ConstrainedDecimal<C>)>,
) -> Seq<(Seq<char>, Dec)> {
    entries.map_values(|e: (Affiliate, ConstrainedDecimal<C>)| (e.0@.id, e.1@))
}

impl<C: DecConstraint> AffiliateDecMap<C> {
    /// The numbers by affiliate id.
    pub closed spec fn view(&self) -> Map<Seq<char>, Dec> {
        assoc_map(dec_entry_views(self.entries@))
    }

    #[verifier::type_invariant]
    spec fn ids_unique(&self) -> bool {
        forall|i: int, j: int|
            0 <= i < j < self.entries@.len() ==> #[trigger] self.entries@[i].0@.id
                != #[trigger] self.entries@[j].0@.id
    }

    pub fn new() -> (r: Self)
        ensures
            r@ == Map::<Seq<char>, Dec>::empty(),
    {
        let r = AffiliateDecMap { entries: Vec::new() };
        assert(dec_entry_views(r.entries@) =~= Seq::<(Seq<char>, Dec)>::empty());
        r
    }

    fn index_of(&self, af: &Affiliate) -> (r: Option<usize>)
        ensures
            r is None ==> !self@.dom().contains(af@.id),
            r matches Some(i) ==> {
                &&& i < self.entries@.len()
                &&& self.entries@[i as int].0@.id == af@.id
                &&& self@.dom().contains(af@.id)
                &&& self@[af@.id] == self.entries@[i as int].1@
            },
    {
        let ghost ev = dec_entry_views(self.entries@);
        let mut i: usize = 0;
        while i < self.entries.len()
            invariant
                i <= self.entries@.len(),
                ev == dec_entry_views(self.entries@),
                forall|j: int| 0 <= j < i ==> ev[j].0 != af@.id,
            decreases self.entries@.len() - i,
        {
            if str_eq(self.entries[i].0.id(), af.id()) {
                proof {
                    use_type_invariant(self);
                    assert forall|j: int| i < j < ev.len() implies ev[j].0 != ev[i as int].0 by {
                        assert(self.entries@[i as int].0@.id != self.entries@[j].0@.id);
                    }
                    lemma_assoc_has(ev, i as int);
                }
                return Some(i);
            }
            i += 1;
        }
        proof {
            lemma_assoc_lacks(ev, af@.id);
        }
        None
    }

    /// The number for `af`, if any.
    pub fn get(&self, af: &Affiliate) -> (r: Option<ConstrainedDecimal<C>>)
        ensures
            r is Some <==> self@.dom().contains(af@.id),
            r matches Some(v) ==> v@ == self@[af@.id],
    {
        match self.index_of(af) {
            Some(i) => Some(self.entries[i].1),
            None => None,
        }
    }

    pub fn contains(&self, af: &Affiliate) -> (r: bool)
        ensures
            r == self@.dom().contains(af@.id),
    {
        self.index_of(af).is_some()
    }

    /// Sets the number for `af`.
    pub fn insert(&mut self, af: &Affiliate, v: ConstrainedDecimal<C>)
        ensures
            final(self)@ == old(self)@.insert(af@.id, v@),
    {
        proof {
            use_type_invariant(&*self);
        }
        let ghost old_ev = dec_entry_views(self.entries@);
        let ghost old_list = self.entries@;
        let ghost e = (af@.id, v@);
        let idx = self.index_of(af);
        let mut entries = Vec::new();
        std::mem::swap(&mut entries, &mut self.entries);
        match idx {
            Some(i) => {
                entries.set(i, (af.clone(), v));
                proof {
                    assert(dec_entry_views(entries@) =~= old_ev.update(i as int, e));
                    assert forall|j: int| i < j < old_ev.len() implies old_ev[j].0 != e.0 by {
                        assert(old_list[i as int].0@.id != old_list[j].0@.id);
                    }
                    lemma_assoc_update(old_ev, i as int, e);
                    assert forall|a: int, b: int|
                        0 <= a < b < entries@.len() implies #[trigger] entries@[a].0@.id
                        != #[trigger] entries@[b].0@.id by {
                        assert(old_list[a].0@.id != old_list[b].0@.id);
                    }
                }
            },
            None => {
                entries.push((af.clone(), v));
                proof {
                    assert(dec_entry_views(entries@) =~= old_ev.push(e));
                    lemma_assoc_push(old_ev, e);
                    assert forall|a: int, b: int|
                        0 <= a < b < entries@.len() implies #[trigger] entries@[a].0@.id
                        != #[trigger] entries@[b].0@.id by {
                        if b < old_list.len() {
                            assert(old_list[a].0@.id != old_list[b].0@.id);
                        } else {
                            lemma_assoc_dom(old_ev, a);
                        }
                    }
                }
            },
        }
        self.entries = entries;
    }

    /// The affiliates with a number, once each, with their numbers.
    pub fn entries(&self) -> (r: &Vec<(Affiliate, ConstrainedDecimal<C>)>)
        ensures
            forall|i: int, j: int| 0 <= i < j < r@.len() ==> r@[i].0@.id != r@[j].0@.id,
            forall|i: int|
                0 <= i < r@.len() ==> self@.dom().contains(#[trigger] r@[i].0@.id) && self@[r@[i].0@.id]
                    == r@[i].1@,
            forall|id: Seq<char>|
                self@.dom().contains(id) ==> exists|i: int| 0 <= i < r@.len() && #[trigger] r@[i].0@.id == id,
    {
        proof {
            use_type_invariant(self);
            let ev = dec_entry_views(self.entries@);
            assert forall|i: int| 0 <= i < self.entries@.len() implies self@.dom().contains(
                #[trigger] self.entries@[i].0@.id,
            ) && self@[self.entries@[i].0@.id] == self.entries@[i].1@ by {
                assert forall|j: int| i < j < ev.len() implies ev[j].0 != ev[i].0 by {
                    assert(self.entries@[i].0@.id != self.entries@[j].0@.id);
                }
                lemma_assoc_has(ev, i);
            }
            assert forall|id: Seq<char>| self@.dom().contains(id) implies exists|i: int|
                0 <= i < self.entries@.len() && #[trigger] self.entries@[i].0@.id == id by {
                lemma_assoc_dom_only(ev, id);
                let j = choose|j: int| 0 <= j < ev.len() && ev[j].0 == id;
                assert(self.entries@[j].0@.id == id);
            }
        }
        &self.entries
    }
}

/// A set of affiliates (by id), in the order they were first added.
#[derive(Debug)]
pub struct AffiliateSet {
    afs: Vec<Affiliate>,
}

/// The ids of a list of affiliates.
pub open spec fn view_ids(views: Seq<AffiliateView>) -> Seq<Seq<char>> {
    views.map_values(|a: AffiliateView| a.id)
}

/// `views` with `v` added at the end where no affiliate with its id is there
/// yet.
pub open spec fn ids_insert(views: Seq<AffiliateView>, v: AffiliateView) -> Seq<AffiliateView> {
    if view_ids(views).contains(v.id) {
        views
    } else {
        views.push(v)
    }
}

pub open spec fn affiliate_views(afs: Seq<Affiliate>) -> Seq<AffiliateView> {
    afs.map_values(|a: Affiliate| a@)
}

impl AffiliateSet {
    /// The affiliates, in the order they were first added.
    pub closed spec fn view(&self) -> Seq<AffiliateView> {
        affiliate_views(self.afs@)
    }

    #[verifier::type_invariant]
    spec fn ids_unique(&self) -> bool {
        forall|i: int, j: int|
            0 <= i < j < self.afs@.len() ==> #[trigger] self.afs@[i]@.id != #[trigger] self.afs@[j]@.id
    }

    pub fn new() -> (r: Self)
        ensures
            r@ == Seq::<AffiliateView>::empty(),
    {
        let r = AffiliateSet { afs: Vec::new() };
        assert(affiliate_views(r.afs@) =~= Seq::<AffiliateView>::empty());
        r
    }

    pub fn contains(&self, af: &Affiliate) -> (r: bool)
        ensures
            r == view_ids(self@).contains(af@.id),
    {
        let ghost ids = view_ids(affiliate_views(self.afs@));
        let mut i: usize = 0;
        while i < self.afs.len()
            invariant
                i <= self.afs@.len(),
                ids == view_ids(affiliate_views(self.afs@)),
                forall|j: int| 0 <= j < i ==> ids[j] != af@.id,
            decreases self.afs@.len() - i,
        {
            if str_eq(self.afs[i].id(), af.id()) {
                assert(ids[i as int] == af@.id);
                return true;
            }
            i += 1;
        }
        false
    }

    /// Adds `af` where no affiliate with its id is there yet.
    pub fn insert(&mut self, af: &Affiliate)
        ensures
            final(self)@ == ids_insert(old(self)@, af@),
    {
        if !self.contains(af) {
            proof {
                use_type_invariant(&*self);
            }
            let ghost old_afs = self.afs@;
            let mut afs = Vec::new();
            std::mem::swap(&mut afs, &mut self.afs);
            afs.push(af.clone());
            proof {
                let old_views = affiliate_views(old_afs);
                assert(affiliate_views(afs@) =~= old_views.push(af@));
                assert forall|a: int, b: int|
                    0 <= a < b < afs@.len() implies #[trigger] afs@[a]@.id != #[trigger] afs@[b]@.id by {
                    if b < old_afs.len() {
                        assert(old_afs[a]@.id != old_afs[b]@.id);
                    } else {
                        assert(view_ids(old_views)[a] == old_afs[a]@.id);
                    }
                }
            }
            self.afs = afs;
        }
    }

    /// The affiliates, once each, in the order they were first added.
    pub fn affiliates(&self) -> (r: &Vec<Affiliate>)
        ensures
            affiliate_views(r@) == self@,
            view_ids(self@).no_duplicates(),
    {
        proof {
            use_type_invariant(self);
            let ids = view_ids(affiliate_views(self.afs@));
            assert forall|i: int, j: int|
                0 <= i < ids.len() && 0 <= j < ids.len() && i != j implies ids[i] != ids[j] by {
                if i < j {
                    assert(self.afs@[i]@.id != self.afs@[j]@.id);
                } else {
                    assert(self.afs@[j]@.id != self.afs@[i]@.id);
                }
            }
        }
        &self.afs
    }

    pub fn len(&self) -> (r: usize)
        ensures
            r == self@.len(),
    {
        self.afs.len()
    }
}

} // verus!
