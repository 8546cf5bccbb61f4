//! Grouping transactions by security and collecting their affiliates.

use vstd::prelude::*;
use crate::portfolio::affiliate::{Affiliate, GLOBAL_AF_ID};
use crate::portfolio::tx::Tx;
use crate::util::text::str_eq;

verus! {

/// The non-global affiliates of `txs`, once each (by id), in order of first
/// appearance.
pub open spec fn non_global_affiliates(txs: Seq<Tx>) -> Seq<Affiliate>
    decreases txs.len(),
{
    if txs.len() == 0 {
        Seq::empty()
    } else {
        let prev = non_global_affiliates(txs.drop_last());
        let af = txs.last().affiliate;
        if af@.id == GLOBAL_AF_ID@ || prev.map_values(|a: Affiliate| a@.id).contains(af@.id) {
            prev
        } else {
            prev.push(af)
        }
    }
}

fn ids_contain(afs: &Vec<Affiliate>, af: &Affiliate) -> (r: bool)
    ensures
        r == afs@.map_values(|a: Affiliate| a@.id).contains(af@.id),
{
    let ghost ids = afs@.map_values(|a: Affiliate| a@.id);
    let mut i: usize = 0;
    while i < afs.len()
        invariant
            i <= afs@.len(),
            ids == afs@.map_values(|a: Affiliate| a@.id),
            forall|j: int| 0 <= j < i ==> ids[j] != af@.id,
        decreases afs@.len() - i,
    {
        if str_eq(afs[i].id(), af.id()) {
            assert(ids[i as int] == af@.id);
            return true;
        }
        i += 1;
    }
    false
}

/// The non-global affiliates of the transactions, once each, in order of
/// first appearance.
pub fn find_all_non_global_affiliates(txs: &Vec<Tx>) -> (r: Vec<Affiliate>)
    ensures
        r@ == non_global_affiliates(txs@),
{
    let mut afs: Vec<Affiliate> = Vec::new();
    let mut i: usize = 0;
    while i < txs.len()
        invariant
            i <= txs@.len(),
            afs@ == non_global_affiliates(txs@.subrange(0, i as int)),
        decreases txs@.len() - i,
    {
        proof {
            assert(txs@.subrange(0, i + 1).drop_last() =~= txs@.subrange(0, i as int));
        }
        let af = &txs[i].affiliate;
        if !af.is_global() && !ids_contain(&afs, af) {
            afs.push(af.clone());
        }
        i += 1;
    }
    proof {
        assert(txs@.subrange(0, txs@.len() as int) =~= txs@);
    }
    afs
}

/// The securities of `txs`, once each, in order of first appearance.
pub open spec fn securities_of(txs: Seq<Tx>) -> Seq<Seq<char>>
    decreases txs.len(),
{
    if txs.len() == 0 {
        Seq::empty()
    } else {
        let prev = securities_of(txs.drop_last());
        if prev.contains(txs.last().security@) {
            prev
        } else {
            prev.push(txs.last().security@)
        }
    }
}

/// Whether a transaction is of security `sec`.
pub open spec fn has_security(sec: Seq<char>) -> spec_fn(Tx) -> bool {
    |t: Tx| t.security@ == sec
}

/// The transactions of security `sec`, in order.
pub open spec fn txs_of_security(txs: Seq<Tx>, sec: Seq<char>) -> Seq<Tx> {
    txs.filter(has_security(sec))
}

/// The transactions grouped by security: one group per security, in order of
/// first appearance, each with its transactions in order.
pub fn split_txs_by_security(all_txs: Vec<Tx>) -> (r: Vec<(String, Vec<Tx>)>)
    ensures
        r@.map_values(|g: (String, Vec<Tx>)| g.0@) == securities_of(all_txs@),
        forall|k: int|
            0 <= k < r@.len() ==> (#[trigger] r@[k]).1@ == txs_of_security(all_txs@, r@[k].0@),
{
    let ghost orig = all_txs@;
    let mut groups: Vec<(String, Vec<Tx>)> = Vec::new();
    let mut rest = all_txs;
    let mut i: usize = 0;
    let n = rest.len();
    proof {
        assert(orig.subrange(0, 0) =~= Seq::<Tx>::empty());
        assert(groups@.map_values(|g: (String, Vec<Tx>)| g.0@) =~= securities_of(Seq::empty()));
    }
    while rest.len() > 0
        invariant
            n == orig.len(),
            i + rest@.len() == n,
            rest@ == orig.subrange(i as int, n as int),
            groups@.map_values(|g: (String, Vec<Tx>)| g.0@) == securities_of(orig.subrange(0, i as int)),
            forall|k: int|
                0 <= k < groups@.len() ==> (#[trigger] groups@[k]).1@ == txs_of_security(
                    orig.subrange(0, i as int),
                    groups@[k].0@,
                ),
        decreases rest@.len(),
    {
        let tx = rest.remove(0);
        let ghost pre = orig.subrange(0, i as int);
        let ghost post = orig.subrange(0, i + 1);
        proof {
            assert(tx == orig[i as int]);
            assert(post.drop_last() =~= pre);
            assert(post =~= pre.push(tx));
            assert forall|s: Seq<char>| #[trigger] txs_of_security(post, s) == if tx.security@ == s {
                txs_of_security(pre, s).push(tx)
            } else {
                txs_of_security(pre, s)
            } by {
                pre.lemma_filter_push(tx, has_security(s));
            }
        }
        let ghost names = groups@.map_values(|g: (String, Vec<Tx>)| g.0@);
        let mut k: usize = 0;
        while k < groups.len()
            invariant_except_break
                k <= groups@.len(),
                names == groups@.map_values(|g: (String, Vec<Tx>)| g.0@),
                forall|j: int| 0 <= j < k ==> names[j] != tx.security@,
            ensures
                k <= groups@.len(),
                names == groups@.map_values(|g: (String, Vec<Tx>)| g.0@),
                forall|j: int| 0 <= j < k ==> names[j] != tx.security@,
                k < groups@.len() ==> names[k as int] == tx.security@,
            decreases groups@.len() - k,
        {
            if str_eq(groups[k].0.as_str(), tx.security.as_str()) {
                break;
            }
            k += 1;
        }
        if k < groups.len() {
            let ghost old_groups = groups@;
            let mut g = groups.remove(k);
            proof {
                assert(names[k as int] == tx.security@);
            }
            g.1.push(tx);
            groups.insert(k, g);
            proof {
                assert(groups@ =~= old_groups.update(k as int, groups@[k as int]));
                assert(groups@.map_values(|g: (String, Vec<Tx>)| g.0@) =~= names);
                assert(names.contains(tx.security@));
                assert forall|j: int| 0 <= j < groups@.len() implies (#[trigger] groups@[j]).1@
                    == txs_of_security(post, groups@[j].0@) by {
                    if j != k {
                        assert(groups@[j] == old_groups[j]);
                        // distinct names
                        assert(names[j] != names[k as int]) by {
                            lemma_securities_distinct(pre, j, k as int);
                        }
                    }
                }
            }
        } else {
            let ghost old_groups = groups@;
            let sec = tx.security.clone();
            let mut v: Vec<Tx> = Vec::new();
            v.push(tx);
            groups.push((sec, v));
            proof {
                assert(!names.contains(tx.security@));
                assert(groups@.map_values(|g: (String, Vec<Tx>)| g.0@) =~= names.push(tx.security@));
                assert forall|j: int| 0 <= j < groups@.len() implies (#[trigger] groups@[j]).1@
                    == txs_of_security(post, groups@[j].0@) by {
                    if j < old_groups.len() {
                        assert(groups@[j] == old_groups[j]);
                        assert(names[j] != tx.security@);
                    } else {
                        assert(txs_of_security(pre, tx.security@) =~= Seq::<Tx>::empty()) by {
                            lemma_no_security_no_txs(pre, tx.security@);
                        }
                        assert(groups@[j].1@ =~= seq![tx]);
                    }
                }
            }
        }
        i += 1;
        proof {
            assert(rest@ =~= orig.subrange(i as int, n as int));
        }
    }
    proof {
        assert(orig.subrange(0, n as int) =~= orig);
    }
    groups
}

proof fn lemma_securities_distinct(txs: Seq<Tx>, a: int, b: int)
    requires
        0 <= a < securities_of(txs).len(),
        0 <= b < securities_of(txs).len(),
        a != b,
    ensures
        securities_of(txs)[a] != securities_of(txs)[b],
    decreases txs.len(),
{
    let prev = securities_of(txs.drop_last());
    if txs.len() > 0 && securities_of(txs) != prev {
        let n = prev.len() as int;
        if a < n && b < n {
            lemma_securities_distinct(txs.drop_last(), a, b);
        }
    } else if txs.len() > 0 {
        lemma_securities_distinct(txs.drop_last(), a, b);
    }
}

proof fn lemma_no_security_no_txs(txs: Seq<Tx>, sec: Seq<char>)
    requires
        !securities_of(txs).contains(sec),
    ensures
        txs_of_security(txs, sec) == Seq::<Tx>::empty(),
    decreases txs.len(),
{
    let f = has_security(sec);
    if txs.len() == 0 {
        reveal(Seq::filter);
        assert(txs.filter(f) =~= Seq::<Tx>::empty());
    } else {
        let init = txs.drop_last();
        let prev = securities_of(init);
        if prev.contains(sec) {
            let k = choose|k: int| 0 <= k < prev.len() && prev[k] == sec;
            assert(securities_of(txs)[k] == sec);
        }
        lemma_no_security_no_txs(init, sec);
        assert(txs.last().security@ != sec) by {
            if txs.last().security@ == sec {
                assert(securities_of(txs) == prev.push(sec));
                assert(securities_of(txs)[prev.len() as int] == sec);
            }
        }
        assert(txs =~= init.push(txs.last()));
        init.lemma_filter_push(txs.last(), f);
        assert(init.filter(f) == Seq::<Tx>::empty());
        assert(txs.filter(f) == init.push(txs.last()).filter(f));
    }
}

/// The number of transactions in the groups of the securities `secs`.
pub open spec fn group_sizes(txs: Seq<Tx>, secs: Seq<Seq<char>>) -> nat
    decreases secs.len(),
{
    if secs.len() == 0 {
        0
    } else {
        group_sizes(txs, secs.drop_last()) + txs_of_security(txs, secs.last()).len()
    }
}

proof fn lemma_securities_no_duplicates(txs: Seq<Tx>)
    ensures
        securities_of(txs).no_duplicates(),
{
    let secs = securities_of(txs);
    assert forall|a: int, b: int| 0 <= a < secs.len() && 0 <= b < secs.len() && a != b implies secs[a]
        != secs[b] by {
        lemma_securities_distinct(txs, a, b);
    }
}

proof fn lemma_group_sizes_step(init: Seq<Tx>, t: Tx, secs: Seq<Seq<char>>)
    requires
        secs.no_duplicates(),
    ensures
        group_sizes(init.push(t), secs) == group_sizes(init, secs) + if secs.contains(t.security@) {
            1int
        } else {
            0int
        },
    decreases secs.len(),
{
    if secs.len() > 0 {
        let rest = secs.drop_last();
        let sec = secs.last();
        assert(rest.no_duplicates()) by {
            assert forall|a: int, b: int| 0 <= a < rest.len() && 0 <= b < rest.len() && a != b
                implies rest[a] != rest[b] by {
                assert(rest[a] == secs[a] && rest[b] == secs[b]);
            }
        }
        lemma_group_sizes_step(init, t, rest);
        init.lemma_filter_push(t, has_security(sec));
        assert(secs =~= rest.push(sec));
        if rest.contains(t.security@) {
            let q = choose|q: int| 0 <= q < rest.len() && rest[q] == t.security@;
            assert(secs[q] == rest[q]);
            assert(sec != t.security@) by {
                assert(secs[secs.len() - 1] == sec);
            }
        }
        if secs.contains(t.security@) && !rest.contains(t.security@) {
            let q = choose|q: int| 0 <= q < secs.len() && secs[q] == t.security@;
            if q < rest.len() {
                assert(rest[q] == secs[q]);
            }
        }
    }
}

/// Grouping by security loses and repeats no transaction: the groups of all
/// the securities together hold exactly as many transactions as were given
/// (each group holding those of its security, see `split_txs_by_security`).
pub proof fn law_split_keeps_every_tx(txs: Seq<Tx>)
    ensures
        group_sizes(txs, securities_of(txs)) == txs.len(),
    decreases txs.len(),
{
    if txs.len() > 0 {
        let init = txs.drop_last();
        let t = txs.last();
        let prev = securities_of(init);
        law_split_keeps_every_tx(init);
        lemma_securities_no_duplicates(init);
        assert(txs =~= init.push(t));
        lemma_group_sizes_step(init, t, prev);
        if !prev.contains(t.security@) {
            let f = has_security(t.security@);
            lemma_no_security_no_txs(init, t.security@);
            init.lemma_filter_push(t, f);
            assert(securities_of(txs) == prev.push(t.security@));
            assert(prev.push(t.security@).drop_last() =~= prev);
            assert(txs_of_security(txs, t.security@) =~= seq![t]);
        }
    }
}

} // verus!
