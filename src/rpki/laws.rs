//! Properties of the trie and of validation that hold across calls.

use crate::prefix::IpPrefix;
use crate::rpki::{in_force, same_authorisation, Roa, RpkiTrie, RpkiValidation};
use vstd::prelude::*;

verus! {

/// Inserting the same record twice into an empty trie keeps exactly one
/// record: the first insertion reports a new network, the second does not.
pub proof fn law_insert_twice_keeps_one(
    t0: RpkiTrie,
    t1: RpkiTrie,
    t2: RpkiTrie,
    roa: Roa,
    r1: bool,
    r2: bool,
)
    requires
        t0.wf(),
        t0.slots() == Map::<(bool, u128, u8), usize>::empty(),
        t0.held() == Set::<Roa>::empty(),
        t0.insert_roa_post(roa, t1, r1),
        t1.insert_roa_post(roa, t2, r2),
    ensures
        r1,
        !r2,
        t2.held() == set![roa],
        t2.list_at(roa.prefix.key()) == seq![roa],
{
    assert(!(exists|x: Roa| #[trigger] t0.held().contains(x) && same_authorisation(x, roa)));
    assert(t1.held() == set![roa]);
    assert(t1.held().contains(roa) && same_authorisation(roa, roa));
    assert(t2.held() =~= set![roa]);
    let k = roa.prefix.key();
    assert(t1.list_at(k) == seq![roa]);
    assert(same_authorisation(t1.list_at(k)[0], roa));
}

/// A record whose family differs from the query's never matches it.
pub proof fn law_family_isolation(t: RpkiTrie, r: Roa, q: IpPrefix)
    requires
        r.prefix.spec_v6() != q.spec_v6(),
    ensures
        !t.matching(r, q),
{
}

/// Two records for one network with different origins are both kept, both
/// origins validate, and a third origin is invalid.
pub proof fn law_records_share_a_network(
    t0: RpkiTrie,
    t1: RpkiTrie,
    t2: RpkiTrie,
    a: Roa,
    b: Roa,
    ra: bool,
    rb: bool,
    q: IpPrefix,
    other: u32,
)
    requires
        t0.wf(),
        t0.held() == Set::<Roa>::empty(),
        t0.insert_roa_post(a, t1, ra),
        t1.insert_roa_post(b, t2, rb),
        a.prefix.key() == b.prefix.key(),
        a.asn != b.asn,
        a.prefix.covers(q),
        a.max_length >= q.spec_len(),
        b.max_length >= q.spec_len(),
        other != a.asn,
        other != b.asn,
    ensures
        t2.holds(a),
        t2.holds(b),
        t2.validation_outcome(q, a.asn) == RpkiValidation::Valid,
        t2.validation_outcome(q, b.asn) == RpkiValidation::Valid,
        t2.validation_outcome(q, other) == RpkiValidation::Invalid,
{
    assert(!(exists|x: Roa| #[trigger] t0.held().contains(x) && same_authorisation(x, a)));
    assert(t1.held() == set![a]);
    assert(!(exists|x: Roa| #[trigger] t1.held().contains(x) && same_authorisation(x, b)));
    assert(t2.held() == set![a].insert(b));
    assert(t2.held().contains(a));
    assert(t2.held().contains(b));
    assert(b.prefix.covers(q));
    assert(t2.matching(a, q));
    assert(t2.matching(b, q));
    assert forall|x: Roa| t2.matching(x, q) implies x.asn != other by {
        assert(t2.held().contains(x));
    }
}

/// For a trie whose only record for the query is for the queried origin: a
/// record that expired before the query time leaves the outcome unknown,
/// while the same record without validity bounds makes it valid.
pub proof fn law_expired_record_is_unknown(
    expired: RpkiTrie,
    open: RpkiTrie,
    r1: Roa,
    r2: Roa,
    q: IpPrefix,
    asn: u32,
    now: i64,
)
    requires
        expired.held() == set![r1],
        open.held() == set![r2],
        r1.asn == asn,
        r1.prefix.covers(q),
        r1.max_length >= q.spec_len(),
        r1.not_after matches Some(na) && na < now,
        r2.prefix == r1.prefix,
        r2.asn == r1.asn,
        r2.max_length == r1.max_length,
        r2.not_before is None,
        r2.not_after is None,
    ensures
        expired.expiry_outcome(q, asn, now) == RpkiValidation::Unknown,
        open.expiry_outcome(q, asn, now) == RpkiValidation::Valid,
{
    assert(expired.held().contains(r1));
    assert(expired.matching(r1, q));
    assert forall|x: Roa| expired.matching(x, q) && x.asn == asn implies !in_force(x, now) by {
        assert(expired.held().contains(x));
    }
    assert(open.held().contains(r2));
    assert(open.matching(r2, q));
    assert(in_force(r2, now));
}

} // verus!
