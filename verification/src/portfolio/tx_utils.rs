//! Following security renames through a rename table.

use vstd::prelude::*;
use crate::portfolio::tx::CsvTx;
use crate::util::text::{join, join_spec, opt_string_view, str_eq};

verus! {

/// A rename table as plain pairs `(from, to)`; where a symbol occurs as `from`
/// twice, the later pair is the one that counts, as a later insert replaces an
/// earlier one in a map. Every list of pairs is therefore a usable table, and
/// none needs its symbols to be distinct.
pub open spec fn renames_view(renames: Seq<(String, String)>) -> Seq<(Seq<char>, Seq<char>)> {
    renames.map_values(|p: (String, String)| (p.0@, p.1@))
}

/// What `sym` is renamed to, if anything (the last pair for it wins).
pub open spec fn rename_lookup(renames: Seq<(Seq<char>, Seq<char>)>, sym: Seq<char>) -> Option<
    Seq<char>,
>
    decreases renames.len(),
{
    if renames.len() == 0 {
        None
    } else if renames.last().0 == sym {
        Some(renames.last().1)
    } else {
        rename_lookup(renames.drop_last(), sym)
    }
}

/// The symbols reached from the end of `chain` by following renames, at most
/// `fuel` more hops, stopping before a symbol that was already visited.
pub open spec fn rename_chain_from(
    renames: Seq<(Seq<char>, Seq<char>)>,
    chain: Seq<Seq<char>>,
    fuel: nat,
) -> Seq<Seq<char>>
    decreases fuel,
{
    if fuel == 0 {
        chain
    } else {
        match rename_lookup(renames, chain.last()) {
            None => chain,
            Some(next) => if chain.contains(next) {
                chain
            } else {
                rename_chain_from(renames, chain.push(next), (fuel - 1) as nat)
            },
        }
    }
}

/// The symbols visited when resolving `sym`, starting with `sym` itself.
pub open spec fn rename_chain(renames: Seq<(Seq<char>, Seq<char>)>, sym: Seq<char>) -> Seq<
    Seq<char>,
> {
    rename_chain_from(renames, seq![sym], renames.len())
}

pub open spec fn aka_separator() -> Seq<char> {
    " AKA "@
}

/// Where following renames from `sym` ends, and the hops taken.
#[derive(Debug, Clone, PartialEq, Eq)]
pub struct RenameChain {
    /// The final symbol after every hop.
    pub resolved: String,
    /// The visited symbols joined with " AKA ", from `sym` to the final one.
    pub chain_repr: String,
}

proof fn lemma_lookup_is_value(renames: Seq<(Seq<char>, Seq<char>)>, sym: Seq<char>)
    requires
        rename_lookup(renames, sym) is Some,
    ensures
        renames.map_values(|p: (Seq<char>, Seq<char>)| p.1).contains(
            rename_lookup(renames, sym)->0,
        ),
    decreases renames.len(),
{
    let vals = renames.map_values(|p: (Seq<char>, Seq<char>)| p.1);
    if renames.last().0 == sym {
        assert(vals[renames.len() - 1] == renames.last().1);
    } else {
        lemma_lookup_is_value(renames.drop_last(), sym);
        let v = rename_lookup(renames, sym)->0;
        let sub = renames.drop_last().map_values(|p: (Seq<char>, Seq<char>)| p.1);
        let k = choose|k: int| 0 <= k < sub.len() && sub[k] == v;
        assert(vals[k] == v);
    }
}

/// A chain of distinct symbols whose hops are all renamed-to values is
/// followed until the next hop is missing or already visited.
proof fn lemma_chain_stops(
    renames: Seq<(Seq<char>, Seq<char>)>,
    chain: Seq<Seq<char>>,
    fuel: nat,
)
    requires
        chain.len() >= 1,
        chain.no_duplicates(),
        chain.len() + fuel == renames.len() + 1,
        forall|i: int|
            1 <= i < chain.len() ==> renames.map_values(|p: (Seq<char>, Seq<char>)| p.1).contains(
                #[trigger] chain[i],
            ),
    ensures
        ({
            let c = rename_chain_from(renames, chain, fuel);
            &&& c.len() >= 1
            &&& c[0] == chain[0]
            &&& rename_lookup(renames, c.last()) is None || c.contains(
                rename_lookup(renames, c.last())->0,
            )
        }),
    decreases fuel,
{
    let vals = renames.map_values(|p: (Seq<char>, Seq<char>)| p.1);
    if fuel == 0 {
        if let Some(v) = rename_lookup(renames, chain.last()) {
            if !chain.contains(v) {
                lemma_lookup_is_value(renames, chain.last());
                let tail = chain.drop_first().push(v);
                assert(tail.no_duplicates()) by {
                    assert forall|i: int, j: int|
                        0 <= i < tail.len() && 0 <= j < tail.len() && i != j implies tail[i]
                        != tail[j] by {
                        if i < tail.len() - 1 && j < tail.len() - 1 {
                            assert(tail[i] == chain[i + 1]);
                            assert(tail[j] == chain[j + 1]);
                        } else if i == tail.len() - 1 {
                            assert(tail[j] == chain[j + 1]);
                        } else {
                            assert(tail[i] == chain[i + 1]);
                        }
                    }
                }
                tail.unique_seq_to_set();
                vals.lemma_cardinality_of_set();
                assert(tail.to_set().subset_of(vals.to_set())) by {
                    assert forall|x| tail.to_set().contains(x) implies vals.to_set().contains(
                        x,
                    ) by {
                        let i = choose|i: int| 0 <= i < tail.len() && tail[i] == x;
                        if i < tail.len() - 1 {
                            assert(tail[i] == chain[i + 1]);
                        }
                    }
                }
                vstd::set_lib::lemma_len_subset(tail.to_set(), vals.to_set());
                assert(false);
            }
        }
    } else {
        match rename_lookup(renames, chain.last()) {
            None => {},
            Some(next) => {
                if !chain.contains(next) {
                    lemma_lookup_is_value(renames, chain.last());
                    let longer = chain.push(next);
                    assert(longer.no_duplicates()) by {
                        assert forall|i: int, j: int|
                            0 <= i < longer.len() && 0 <= j < longer.len() && i != j implies longer[i]
                            != longer[j] by {
                            if i < chain.len() && j < chain.len() {
                                assert(longer[i] == chain[i]);
                                assert(longer[j] == chain[j]);
                            } else if i == chain.len() {
                                assert(longer[j] == chain[j]);
                            } else {
                                assert(longer[i] == chain[i]);
                            }
                        }
                    }
                    assert forall|i: int| 1 <= i < longer.len() implies vals.contains(
                        #[trigger] longer[i],
                    ) by {
                        if i < chain.len() {
                            assert(longer[i] == chain[i]);
                        }
                    }
                    lemma_chain_stops(renames, longer, (fuel - 1) as nat);
                }
            },
        }
    }
}

/// Following renames from a symbol that has one stops only where the next hop
/// has no rename or leads back to a symbol already visited.
pub proof fn law_rename_resolution_stops(renames: Seq<(Seq<char>, Seq<char>)>, sym: Seq<char>)
    ensures
        ({
            let c = rename_chain(renames, sym);
            &&& c.len() >= 1
            &&& c[0] == sym
            &&& rename_lookup(renames, c.last()) is None || c.contains(
                rename_lookup(renames, c.last())->0,
            )
        }),
{
    let chain = seq![sym];
    assert(chain.no_duplicates());
    lemma_chain_stops(renames, chain, renames.len());
}

/// The index of the last pair renaming `sym`.
fn find_rename(renames: &Vec<(String, String)>, sym: &str) -> (r: Option<usize>)
    ensures
        rename_lookup(renames_view(renames@), sym@) is None <==> r is None,
        r matches Some(i) ==> i < renames@.len() && rename_lookup(renames_view(renames@), sym@)
            == Some(renames@[i as int].1@),
{
    let ghost rv = renames_view(renames@);
    let mut i: usize = renames.len();
    proof {
        assert(rv.subrange(0, i as int) =~= rv);
    }
    while i > 0
        invariant
            i <= renames@.len(),
            rv == renames_view(renames@),
            rename_lookup(rv, sym@) == rename_lookup(rv.subrange(0, i as int), sym@),
        decreases i,
    {
        let ghost sub = rv.subrange(0, i as int);
        proof {
            assert(sub.drop_last() =~= rv.subrange(0, i - 1));
            assert(sub.last() == (renames@[i - 1].0@, renames@[i - 1].1@));
        }
        if str_eq(renames[i - 1].0.as_str(), sym) {
            return Some(i - 1);
        }
        i -= 1;
    }
    proof {
        assert(rv.subrange(0, 0).len() == 0);
    }
    None
}

/// Whether `sym` is among `chain`.
fn chain_contains(chain: &Vec<String>, sym: &str) -> (r: bool)
    ensures
        r == chain@.map_values(|x: String| x@).contains(sym@),
{
    let ghost cv = chain@.map_values(|x: String| x@);
    let mut i: usize = 0;
    while i < chain.len()
        invariant
            i <= chain@.len(),
            cv == chain@.map_values(|x: String| x@),
            forall|j: int| 0 <= j < i ==> cv[j] != sym@,
        decreases chain@.len() - i,
    {
        if str_eq(chain[i].as_str(), sym) {
            assert(cv[i as int] == sym@);
            return true;
        }
        i += 1;
    }
    false
}

/// Follows the renames from `sym`: `None` where `sym` has none; otherwise the
/// final symbol and the visited symbols joined with " AKA ". A hop that would
/// revisit a symbol ends the chain before it.
pub fn resolve_rename(sym: &str, renames: &Vec<(String, String)>) -> (r: Option<RenameChain>)
    ensures
        r is None <==> rename_lookup(renames_view(renames@), sym@) is None,
        r matches Some(rc) ==> {
            let c = rename_chain(renames_view(renames@), sym@);
            &&& rc.resolved@ == c.last()
            &&& rc.chain_repr@ == join_spec(c, aka_separator())
        },
{
    let ghost rv = renames_view(renames@);
    if find_rename(renames, sym).is_none() {
        return None;
    }
    let mut chain: Vec<String> = Vec::new();
    chain.push(sym.to_string());
    let mut fuel: usize = renames.len();
    proof {
        assert(chain@.map_values(|x: String| x@) =~= seq![sym@]);
    }
    while fuel > 0
        invariant_except_break
            chain@.len() >= 1,
            rv == renames_view(renames@),
            rename_chain_from(rv, chain@.map_values(|x: String| x@), fuel as nat) == rename_chain(
                rv,
                sym@,
            ),
        ensures
            chain@.len() >= 1,
            chain@.map_values(|x: String| x@) == rename_chain(rv, sym@),
        decreases fuel,
    {
        let ghost cv = chain@.map_values(|x: String| x@);
        let last = chain.len() - 1;
        assert(cv.last() == chain@[last as int]@);
        match find_rename(renames, chain[last].as_str()) {
            None => {
                break;
            },
            Some(k) => {
                let next = renames[k].1.clone();
                if chain_contains(&chain, next.as_str()) {
                    break;
                }
                chain.push(next);
                proof {
                    assert(chain@.map_values(|x: String| x@) =~= cv.push(renames@[k as int].1@));
                }
                fuel -= 1;
            },
        }
    }
    let last = chain.len() - 1;
    let resolved = chain[last].clone();
    proof {
        reveal_strlit(" AKA ");
    }
    let chain_repr = join(&chain, " AKA ");
    Some(RenameChain { resolved, chain_repr })
}

/// The memo after a rename: the chain appended after " ; ", or the chain
/// alone where there was no memo or an empty one.
pub open spec fn renamed_memo(memo: Option<Seq<char>>, chain_repr: Seq<char>) -> Seq<char> {
    match memo {
        Some(m) => if m.len() > 0 {
            m + " ; "@ + chain_repr
        } else {
            chain_repr
        },
        None => chain_repr,
    }
}

/// Renames the transaction's security where the table has a rename for it,
/// noting the chain in the memo; otherwise leaves it unchanged.
pub fn apply_security_rename(tx: &mut CsvTx, renames: &Vec<(String, String)>)
    ensures
        ({
            let rv = renames_view(renames@);
            match old(tx).security {
                Some(sec) => if rename_lookup(rv, sec@) is Some {
                    let c = rename_chain(rv, sec@);
                    &&& opt_string_view(final(tx).security) == Some(c.last())
                    &&& opt_string_view(final(tx).memo) == Some(
                        renamed_memo(opt_string_view(old(tx).memo), join_spec(c, aka_separator())),
                    )
                } else {
                    &&& opt_string_view(final(tx).security) == Some(sec@)
                    &&& opt_string_view(final(tx).memo) == opt_string_view(old(tx).memo)
                },
                None => {
                    &&& final(tx).security is None
                    &&& opt_string_view(final(tx).memo) == opt_string_view(old(tx).memo)
                },
            }
        }),
        final(tx).trade_date == old(tx).trade_date,
        final(tx).settlement_date == old(tx).settlement_date,
        final(tx).action == old(tx).action,
        final(tx).shares == old(tx).shares,
        final(tx).amount_per_share == old(tx).amount_per_share,
        final(tx).total_amount == old(tx).total_amount,
        final(tx).commission == old(tx).commission,
        final(tx).tx_curr_to_local_exchange_rate == old(tx).tx_curr_to_local_exchange_rate,
        final(tx).commission_curr_to_local_exchange_rate == old(
            tx,
        ).commission_curr_to_local_exchange_rate,
        final(tx).read_index == old(tx).read_index,
{
    let sec = match tx.security.take() {
        Some(s) => s,
        None => {
            return;
        },
    };
    match resolve_rename(sec.as_str(), renames) {
        Some(rc) => {
            let old_memo = tx.memo.take();
            proof {
                reveal_strlit(" ; ");
            }
            let new_memo = match old_memo {
                Some(m) => {
                    if m.unicode_len() > 0 {
                        let mut m2 = m;
                        m2.append(" ; ");
                        m2.append(rc.chain_repr.as_str());
                        m2
                    } else {
                        rc.chain_repr
                    }
                },
                None => rc.chain_repr,
            };
            tx.memo = Some(new_memo);
            tx.security = Some(rc.resolved);
        },
        None => {
            tx.security = Some(sec);
        },
    }
}

} // verus!
