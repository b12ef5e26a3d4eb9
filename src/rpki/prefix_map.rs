//! The prefix trie of `ipnet_trie`, holding for each stored network the
//! index of its record list.

use crate::prefix::{key_covers, IpPrefix};
use ipnet_trie::IpnetTrie;
use vstd::prelude::*;

verus! {

#[verifier::external_type_specification]
#[verifier::external_body]
#[verifier::reject_recursive_types(T)]
pub struct ExIpnetTrie<T>(IpnetTrie<T>);

/// What a trie holds: for each stored network key, its value.
pub uninterp spec fn slots_of(t: IpnetTrie<usize>) -> Map<(bool, u128, u8), usize>;

/// Relies on `IpnetTrie::new`: an empty trie.
#[verifier::external_body]
pub(crate) fn slots_new() -> (r: IpnetTrie<usize>)
    ensures
        slots_of(r) =~= Map::empty(),
{
    IpnetTrie::new()
}

/// Relies on `IpnetTrie::exact_match`: the value stored under exactly this
/// network.
#[verifier::external_body]
pub(crate) fn slots_exact(t: &IpnetTrie<usize>, p: &IpPrefix) -> (r: Option<usize>)
    ensures
        r == (if slots_of(*t).contains_key(p.key()) {
            Some(slots_of(*t)[p.key()])
        } else {
            None::<usize>
        }),
{
    t.exact_match(p.to_ipnet()).copied()
}

/// Relies on `IpnetTrie::insert`: stores the value under the network,
/// replacing the one stored there before.
#[verifier::external_body]
pub(crate) fn slots_insert(t: &mut IpnetTrie<usize>, p: &IpPrefix, v: usize)
    ensures
        slots_of(*final(t)) == slots_of(*old(t)).insert(p.key(), v),
{
    t.insert(p.to_ipnet(), v);
}

/// Relies on `IpnetTrie::matches`: the entries under the shortest stored
/// network that holds the query, each node once. Each returned entry is
/// stored, no network comes twice, and every
/// stored network that holds the query is among them, except one of length
/// zero: the trie's root is not searched unless it is the query itself.
#[verifier::external_body]
pub(crate) fn slots_matches(t: &IpnetTrie<usize>, q: &IpPrefix) -> (r: Vec<(bool, u128, u8, usize)>)
    ensures
        forall|i: int|
            0 <= i < r@.len() ==> {
                let e = #[trigger] r@[i];
                slots_of(*t).contains_key((e.0, e.1, e.2)) && slots_of(*t)[(e.0, e.1, e.2)] == e.3
            },
        forall|i: int, j: int|
            0 <= i < r@.len() && 0 <= j < r@.len() && i != j ==> (#[trigger] r@[i].0, r@[i].1, r@[i].2)
                != (#[trigger] r@[j].0, r@[j].1, r@[j].2),
        forall|k: (bool, u128, u8)|
            #[trigger] slots_of(*t).contains_key(k) && k.2 > 0 && key_covers(k, q.key()) ==> exists|i: int|
                0 <= i < r@.len() && (r@[i].0, r@[i].1, r@[i].2) == k,
{
    t.matches(&q.to_ipnet()).into_iter().map(|(n, v)| match n {
        ipnet::IpNet::V4(a) => (false, u32::from(a.addr()) as u128, a.prefix_len(), *v),
        ipnet::IpNet::V6(a) => (true, u128::from(a.addr()), a.prefix_len(), *v),
    }).collect()
}

/// Relies on `IpnetTrie::is_empty`: true when no network is stored.
#[verifier::external_body]
pub(crate) fn slots_is_empty(t: &IpnetTrie<usize>) -> (r: bool)
    ensures
        r == (slots_of(*t).dom() =~= Set::empty()),
{
    t.is_empty()
}

} // verus!
