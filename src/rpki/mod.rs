//! Route origin authorisations, the trie that holds them and the validation
//! of announced routes against them.

pub mod laws;
pub mod prefix_map;
pub mod rpki_client;
pub mod sources;

use crate::prefix::{
    canonical_key, family_width, ipnet_from_text, lemma_family_sizes, network_of, IpPrefix,
};
use crate::text::{lowercase_of, same_text, to_lowercase};
use crate::time::{now_unix_seconds, timestamp_in_range, utc_representable, Date};
use ipnet_trie::IpnetTrie;
use prefix_map::{slots_exact, slots_insert, slots_is_empty, slots_matches, slots_new, slots_of};
use rpki_client::{RpkiClientAspaEntry, RpkiClientData, RpkiClientRoaEntry};
use vstd::arithmetic::div_mod::lemma_basic_div;
use vstd::arithmetic::power2::{lemma_pow2_pos, pow2};
use vstd::prelude::*;

verus! {

/// Regional Internet Registry.
#[derive(Clone, Copy, Debug, PartialEq, Eq, Structural)]
pub enum Rir {
    AFRINIC,
    APNIC,
    ARIN,
    LACNIC,
    RIPENCC,
}

/// The registry named by a trust anchor tag, in any letter case.
pub open spec fn rir_from_text(s: Seq<char>) -> Option<Rir> {
    rir_from_lowercase(lowercase_of(s))
}

/// The registry named by a lower-case trust anchor tag.
pub open spec fn rir_from_lowercase(l: Seq<char>) -> Option<Rir> {
    if l == "afrinic"@ {
        Some(Rir::AFRINIC)
    } else if l == "apnic"@ {
        Some(Rir::APNIC)
    } else if l == "arin"@ {
        Some(Rir::ARIN)
    } else if l == "lacnic"@ {
        Some(Rir::LACNIC)
    } else if l == "ripe"@ {
        Some(Rir::RIPENCC)
    } else {
        None
    }
}

impl Rir {
    /// Reads a registry from its tag (`afrinic`, `apnic`, `arin`, `lacnic`,
    /// `ripe`), in any letter case.
    pub fn from_text(s: &str) -> (r: Option<Rir>)
        ensures
            r == rir_from_text(s@),
    {
        let lower = to_lowercase(s);
        Rir::from_lowercase(lower.as_str())
    }

    /// Reads a registry from its tag already in lower case.
    pub fn from_lowercase(l: &str) -> (r: Option<Rir>)
        ensures
            r == rir_from_lowercase(l@),
    {
        if same_text(l, "afrinic") {
            Some(Rir::AFRINIC)
        } else if same_text(l, "apnic") {
            Some(Rir::APNIC)
        } else if same_text(l, "arin") {
            Some(Rir::ARIN)
        } else if same_text(l, "lacnic") {
            Some(Rir::LACNIC)
        } else if same_text(l, "ripe") {
            Some(Rir::RIPENCC)
        } else {
            None
        }
    }

    /// The registry's name in capitals.
    pub fn name(&self) -> (r: &'static str)
        ensures
            r@ == rir_name(*self),
    {
        match self {
            Rir::AFRINIC => "AFRINIC",
            Rir::APNIC => "APNIC",
            Rir::ARIN => "ARIN",
            Rir::LACNIC => "LACNIC",
            Rir::RIPENCC => "RIPENCC",
        }
    }

    /// The root of the registry's archive on the RIPE NCC FTP server.
    pub fn to_ripe_ftp_root_url(&self) -> (r: String)
        ensures
            r@ == ripe_root_url(*self),
    {
        let s = match self {
            Rir::AFRINIC => "https://ftp.ripe.net/rpki/afrinic.tal",
            Rir::APNIC => "https://ftp.ripe.net/rpki/apnic.tal",
            Rir::ARIN => "https://ftp.ripe.net/rpki/arin.tal",
            Rir::LACNIC => "https://ftp.ripe.net/rpki/lacnic.tal",
            Rir::RIPENCC => "https://ftp.ripe.net/rpki/ripencc.tal",
        };
        String::from_str(s)
    }
}

pub open spec fn rir_name(r: Rir) -> Seq<char> {
    match r {
        Rir::AFRINIC => "AFRINIC"@,
        Rir::APNIC => "APNIC"@,
        Rir::ARIN => "ARIN"@,
        Rir::LACNIC => "LACNIC"@,
        Rir::RIPENCC => "RIPENCC"@,
    }
}

pub open spec fn ripe_root_url(r: Rir) -> Seq<char> {
    match r {
        Rir::AFRINIC => "https://ftp.ripe.net/rpki/afrinic.tal"@,
        Rir::APNIC => "https://ftp.ripe.net/rpki/apnic.tal"@,
        Rir::ARIN => "https://ftp.ripe.net/rpki/arin.tal"@,
        Rir::LACNIC => "https://ftp.ripe.net/rpki/lacnic.tal"@,
        Rir::RIPENCC => "https://ftp.ripe.net/rpki/ripencc.tal"@,
    }
}

/// The instant an expiry field stands for: none when it is zero (the field
/// was absent) or when it lies outside the range `chrono` can represent.
pub open spec fn expiry_time(x: u64) -> Option<i64> {
    if x != 0 && x <= i64::MAX && utc_representable(x as int) {
        Some(x as i64)
    } else {
        None
    }
}

/// The instant a signed expiry field stands for: none when it is zero (the
/// field was absent) or outside the range `chrono` can represent.
pub open spec fn signed_expiry_time(x: i64) -> Option<i64> {
    if x != 0 && utc_representable(x as int) {
        Some(x)
    } else {
        None
    }
}

/// Converts an unsigned expiry field to an instant.
pub fn expiry_from_u64(x: u64) -> (r: Option<i64>)
    ensures
        r == expiry_time(x),
{
    if x == 0 || x > 0x7FFF_FFFF_FFFF_FFFF {
        return None;
    }
    let s = x as i64;
    if timestamp_in_range(s) {
        Some(s)
    } else {
        None
    }
}

/// Converts a signed expiry field to an instant.
pub fn expiry_from_i64(x: i64) -> (r: Option<i64>)
    ensures
        r == signed_expiry_time(x),
{
    if x != 0 && timestamp_in_range(x) {
        Some(x)
    } else {
        None
    }
}

/// `r` is the record made from entry `e`, whose network text parses.
pub open spec fn roa_from_entry(e: RpkiClientRoaEntry, r: Roa) -> bool {
    &&& ipnet_from_text(e.prefix@) matches Some(t)
    &&& r.prefix.key() == (t.0, network_of(t.0, t.1 as nat, t.2 as nat) as u128, t.2)
    &&& r.asn == e.asn
    &&& r.max_length == e.max_length
    &&& r.rir == rir_from_text(e.ta@)
    &&& r.not_before is None
    &&& r.not_after == expiry_time(e.expires)
}

/// `a` is the authorisation made from entry `e`.
pub open spec fn aspa_from_entry(e: RpkiClientAspaEntry, a: Aspa) -> bool {
    &&& a.customer_asn == e.customer_asid
    &&& a.providers@ == e.providers@
    &&& a.expires == signed_expiry_time(e.expires)
}

/// Some authorisation in `s` is for customer `c`.
pub open spec fn has_customer(s: Seq<Aspa>, c: u32) -> bool {
    exists|j: int| 0 <= j < s.len() && #[trigger] s[j].customer_asn == c
}

/// The records after inserting, in order, those of `rs` that are present.
pub open spec fn insert_all(held: Set<Roa>, rs: Seq<Option<Roa>>) -> Set<Roa>
    decreases rs.len(),
{
    if rs.len() == 0 {
        held
    } else {
        let h = insert_all(held, rs.drop_last());
        match rs.last() {
            Some(r) => insert_effect(h, r),
            None => h,
        }
    }
}

/// What folding document `data` into a trie that held `held` and the
/// provider authorisations `aspas` yields: records whose network text parses
/// are inserted in order; a provider authorisation is appended only for a
/// customer not present yet, the first of each customer winning.
pub open spec fn merge_post(
    held: Set<Roa>,
    aspas: Seq<Aspa>,
    data: &RpkiClientData,
    post: RpkiTrie,
) -> bool {
    &&& post.wf()
    &&& exists|rs: Seq<Option<Roa>>|
        {
            &&& rs.len() == data.roas@.len()
            &&& forall|i: int|
                0 <= i < rs.len() ==> ((#[trigger] rs[i] is None) <==> ipnet_from_text(
                    data.roas@[i].prefix@,
                ) is None)
            &&& forall|i: int|
                0 <= i < rs.len() ==> (#[trigger] rs[i] matches Some(r) ==> roa_from_entry(
                    data.roas@[i],
                    r,
                ))
            &&& post.held() == insert_all(held, rs)
        }
    &&& aspas_appended(aspas, data.aspas@, post.spec_aspas())
}

/// Entry `i` of `es` is the first one for its customer and that customer
/// has no authorisation in `old`.
pub open spec fn new_first_customer(old: Seq<Aspa>, es: Seq<RpkiClientAspaEntry>, i: int) -> bool {
    &&& !has_customer(old, es[i].customer_asid)
    &&& forall|i2: int| 0 <= i2 < i ==> #[trigger] es[i2].customer_asid != es[i].customer_asid
}

/// `post` is `old` followed by the authorisations made from the entries of
/// `es` that are the first for a customer not in `old`, in the order of
/// `es`.
pub open spec fn aspas_appended(old: Seq<Aspa>, es: Seq<RpkiClientAspaEntry>, post: Seq<Aspa>) -> bool {
    exists|idx: Seq<int>| #[trigger] appended_at(old, es, post, idx)
}

/// `idx` lists, in increasing order, the entries whose authorisations
/// follow `old` in `post`.
pub open spec fn appended_at(
    old: Seq<Aspa>,
    es: Seq<RpkiClientAspaEntry>,
    post: Seq<Aspa>,
    idx: Seq<int>,
) -> bool {
    &&& post.len() == old.len() + idx.len()
    &&& post.take(old.len() as int) == old
    &&& forall|m: int|
        0 <= m < idx.len() ==> 0 <= #[trigger] idx[m] < es.len() && aspa_from_entry(
            es[idx[m]],
            post[old.len() + m],
        )
    &&& forall|m1: int, m2: int| 0 <= m1 < m2 < idx.len() ==> idx[m1] < idx[m2]
    &&& forall|i: int|
        0 <= i < es.len() ==> ((exists|m: int| 0 <= m < idx.len() && idx[m] == i)
            <==> #[trigger] new_first_customer(old, es, i))
}

/// Outcome of validating an announced route.
#[derive(Clone, Copy, Debug, PartialEq, Eq, Structural)]
pub enum RpkiValidation {
    /// Some record authorises the origin.
    Valid,
    /// Records exist for the route, none for this origin.
    Invalid,
    /// No record speaks for the route, or the origin's records are not in force.
    Unknown,
}

impl RpkiValidation {
    /// The outcome in lower case: `valid`, `invalid` or `unknown`.
    pub fn name(&self) -> (r: &'static str)
        ensures
            r@ == (match *self {
                RpkiValidation::Valid => "valid"@,
                RpkiValidation::Invalid => "invalid"@,
                RpkiValidation::Unknown => "unknown"@,
            }),
    {
        match self {
            RpkiValidation::Valid => "valid",
            RpkiValidation::Invalid => "invalid",
            RpkiValidation::Unknown => "unknown",
        }
    }
}

/// A validated Route Origin Authorisation. Times are Unix seconds.
#[derive(Clone, Copy, Debug, PartialEq, Eq)]
pub struct Roa {
    pub prefix: IpPrefix,
    pub asn: u32,
    pub max_length: u8,
    pub rir: Option<Rir>,
    pub not_before: Option<i64>,
    pub not_after: Option<i64>,
}

/// A validated AS Provider Authorisation. `expires` is in Unix seconds.
#[derive(Clone, Debug, PartialEq, Eq)]
pub struct Aspa {
    pub customer_asn: u32,
    pub providers: Vec<u32>,
    pub expires: Option<i64>,
}

/// Two records are the same authorisation: same network, origin and
/// maximum length.
pub open spec fn same_authorisation(a: Roa, b: Roa) -> bool {
    a.prefix.key() == b.prefix.key() && a.asn == b.asn && a.max_length == b.max_length
}

/// The set of records after inserting `roa`: unchanged when an equal
/// authorisation is already held.
pub open spec fn insert_effect(held: Set<Roa>, roa: Roa) -> Set<Roa> {
    if exists|x: Roa| #[trigger] held.contains(x) && same_authorisation(x, roa) {
        held
    } else {
        held.insert(roa)
    }
}

/// The record's validity window contains time `t`; an absent bound does not
/// limit that side.
pub open spec fn in_force(r: Roa, t: i64) -> bool {
    &&& (r.not_before matches Some(nb) ==> nb <= t)
    &&& (r.not_after matches Some(na) ==> t <= na)
}

/// The records kept under a network after inserting `roa` there: the list
/// `[roa]` for a new network, the list unchanged when it holds the same
/// authorisation, and otherwise the list with `roa` appended.
pub open spec fn inserted_list(list: Seq<Roa>, present: bool, roa: Roa) -> Seq<Roa> {
    if !present {
        seq![roa]
    } else if exists|m: int| 0 <= m < list.len() && same_authorisation(#[trigger] list[m], roa) {
        list
    } else {
        list.push(roa)
    }
}

/// A canonical key of length zero is its family's whole address space.
proof fn lemma_root_key(k: (bool, u128, u8))
    requires
        canonical_key(k),
        k.2 == 0,
    ensures
        k.1 == 0,
{
    let w = family_width(k.0);
    lemma_pow2_pos(w);
    lemma_basic_div(k.1 as int, pow2(w) as int);
    assert((w - 0) as nat == w);
    assert(network_of(k.0, k.1 as nat, 0) == (k.1 as nat / pow2(w)) * pow2(w));
}

/// The whole address space of a family holds every network of it.
proof fn lemma_root_covers(q: (bool, u128, u8))
    requires
        canonical_key(q),
    ensures
        network_of(q.0, q.1 as nat, 0) == 0,
{
    let w = family_width(q.0);
    lemma_pow2_pos(w);
    lemma_basic_div(q.1 as int, pow2(w) as int);
    assert((w - 0) as nat == w);
}

proof fn lemma_concat_contains<A>(a: Seq<A>, b: Seq<A>, x: A)
    ensures
        (a + b).contains(x) <==> (a.contains(x) || b.contains(x)),
{
    if a.contains(x) {
        let i = a.index_of(x);
        assert((a + b)[i] == x);
    }
    if b.contains(x) {
        let i = b.index_of(x);
        assert((a + b)[a.len() + i] == x);
    }
    if (a + b).contains(x) {
        let i = (a + b).index_of(x);
        if i < a.len() {
            assert(a[i] == x);
        } else {
            assert(b[i - a.len()] == x);
        }
    }
}

proof fn lemma_push_no_duplicates<A>(s: Seq<A>, a: A)
    requires
        s.no_duplicates(),
        !s.contains(a),
    ensures
        s.push(a).no_duplicates(),
{
    assert forall|i: int, j: int|
        0 <= i < s.push(a).len() && 0 <= j < s.push(a).len() && i != j implies s.push(a)[i] != s.push(
            a,
        )[j] by {
        if i == s.len() {
            assert(s[j] == s.push(a)[j]);
        } else if j == s.len() {
            assert(s[i] == s.push(a)[i]);
        }
    }
}

proof fn lemma_concat_no_duplicates<A>(a: Seq<A>, b: Seq<A>)
    requires
        a.no_duplicates(),
        b.no_duplicates(),
        forall|x: A| !(a.contains(x) && b.contains(x)),
    ensures
        (a + b).no_duplicates(),
{
    assert forall|i: int, j: int|
        0 <= i < (a + b).len() && 0 <= j < (a + b).len() && i != j implies (a + b)[i] != (a + b)[j] by {
        if i < a.len() && j >= a.len() {
            assert(a.contains((a + b)[i]));
            assert(b[j - a.len()] == (a + b)[j]);
            assert(b.contains((a + b)[j]));
        } else if j < a.len() && i >= a.len() {
            assert(a.contains((a + b)[j]));
            assert(b[i - a.len()] == (a + b)[i]);
            assert(b.contains((a + b)[i]));
        } else if i >= a.len() && j >= a.len() {
            assert(b[i - a.len()] == (a + b)[i]);
            assert(b[j - a.len()] == (a + b)[j]);
        }
    }
}

proof fn lemma_push_contains<A>(s: Seq<A>, a: A, x: A)
    ensures
        s.push(a).contains(x) <==> (s.contains(x) || x == a),
{
    if s.contains(x) {
        let i = s.index_of(x);
        assert(s.push(a)[i] == x);
    }
    if x == a {
        assert(s.push(a)[s.len() as int] == x);
    }
    if s.push(a).contains(x) && x != a {
        let i = s.push(a).index_of(x);
        assert(s[i] == x);
    }
}

/// The records, keyed by their exact network, and the provider
/// authorisations. The prefix trie maps each stored network to the index
/// of its record list in `lists`, so that a list can grow without a
/// mutable borrow into the trie.
pub struct RpkiTrie {
    trie: IpnetTrie<usize>,
    lists: Vec<Vec<Roa>>,
    aspas: Vec<Aspa>,
    date: Option<Date>,
}


/// Appends to `aspas` the authorisations of `entries` whose customer is not
/// present yet, the first of each customer winning, in the entries' order.
fn merge_aspas(aspas: &mut Vec<Aspa>, entries: &Vec<RpkiClientAspaEntry>)
    ensures
        aspas_appended(old(aspas)@, entries@, final(aspas)@),
{
    let ghost old_aspas = aspas@;
    let ghost es = entries@;
    let ghost mut idx: Seq<int> = Seq::empty();
    let mut i: usize = 0;
    assert(aspas@.take(old_aspas.len() as int) =~= old_aspas);
    while i < entries.len()
        invariant
            i <= es.len(),
            es == entries@,
            aspas@.len() == old_aspas.len() + idx.len(),
            aspas@.take(old_aspas.len() as int) == old_aspas,
            forall|m: int|
                0 <= m < idx.len() ==> 0 <= #[trigger] idx[m] < i && aspa_from_entry(
                    es[idx[m]],
                    aspas@[old_aspas.len() + m],
                ),
            forall|m1: int, m2: int| 0 <= m1 < m2 < idx.len() ==> idx[m1] < idx[m2],
            forall|k: int|
                0 <= k < i ==> ((exists|m: int| 0 <= m < idx.len() && idx[m] == k)
                    <==> #[trigger] new_first_customer(old_aspas, es, k)),
            forall|c: u32|
                #[trigger] has_customer(aspas@, c) <==> (has_customer(old_aspas, c) || exists|k: int|
                    0 <= k < i && es[k].customer_asid == c),
        decreases es.len() - i,
    {
        let e = &entries[i];
        let mut seen = false;
        let mut j: usize = 0;
        let ghost snapshot = aspas@;
        #[verifier::loop_isolation(false)]
        while j < aspas.len()
            invariant
                aspas@ == snapshot,
                j <= aspas@.len(),
                seen <==> exists|m: int| 0 <= m < j && #[trigger] aspas@[m].customer_asn == e.customer_asid,
            decreases aspas@.len() - j,
        {
            if aspas[j].customer_asn == e.customer_asid {
                seen = true;
            }
            j = j + 1;
        }
        let ghost c = e.customer_asid;
        proof {
            assert(seen == has_customer(aspas@, c));
            if !seen {
                assert forall|k2: int| 0 <= k2 < i implies #[trigger] es[k2].customer_asid != c by {
                    if es[k2].customer_asid == c {
                        assert(has_customer(aspas@, c));
                    }
                }
                assert(new_first_customer(old_aspas, es, i as int));
            } else {
                if !has_customer(old_aspas, c) {
                    let k = choose|k: int| 0 <= k < i && es[k].customer_asid == c;
                    assert(es[k].customer_asid == es[i as int].customer_asid);
                }
                assert(!new_first_customer(old_aspas, es, i as int));
            }
        }
        let ghost before = aspas@;
        let ghost idx0 = idx;
        if !seen {
            let expires = expiry_from_i64(e.expires);
            let a = Aspa { customer_asn: e.customer_asid, providers: e.providers.clone(), expires };
            aspas.push(a);
            proof {
                idx = idx.push(i as int);
                assert(aspa_from_entry(es[i as int], aspas@[(old_aspas.len() + idx0.len()) as int]));
            }
        }
        proof {
            let now = aspas@;
            if !seen {
                assert(now.take(before.len() as int) =~= before);
                assert(now.take(old_aspas.len() as int) =~= old_aspas) by {
                    assert(before.take(old_aspas.len() as int) == old_aspas);
                }
                assert forall|m: int| 0 <= m < idx.len() implies 0 <= #[trigger] idx[m] < i + 1
                    && aspa_from_entry(es[idx[m]], now[old_aspas.len() + m]) by {
                    if m < idx0.len() {
                        assert(idx[m] == idx0[m]);
                        assert(now[old_aspas.len() + m] == before[old_aspas.len() + m]);
                    }
                }
                assert forall|cc: u32| #[trigger] has_customer(now, cc) <==> (has_customer(old_aspas, cc)
                    || exists|k: int| 0 <= k < i + 1 && es[k].customer_asid == cc) by {
                    if has_customer(now, cc) {
                        let m = choose|m: int| 0 <= m < now.len() && #[trigger] now[m].customer_asn == cc;
                        if m < before.len() {
                            assert(before[m] == now[m]);
                            assert(has_customer(before, cc));
                        } else {
                            assert(es[i as int].customer_asid == cc);
                        }
                    }
                    if has_customer(before, cc) {
                        let m = choose|m: int| 0 <= m < before.len() && #[trigger] before[m].customer_asn == cc;
                        assert(now[m] == before[m]);
                    }
                    if cc == c {
                        assert(now[before.len() as int].customer_asn == cc);
                    }
                    if exists|k: int| 0 <= k < i + 1 && es[k].customer_asid == cc {
                        let k = choose|k: int| 0 <= k < i + 1 && es[k].customer_asid == cc;
                        if k < i {
                            assert(has_customer(before, cc));
                        }
                    }
                }
            } else {
                assert forall|cc: u32| #[trigger] has_customer(now, cc) <==> (has_customer(old_aspas, cc)
                    || exists|k: int| 0 <= k < i + 1 && es[k].customer_asid == cc) by {
                    if exists|k: int| 0 <= k < i + 1 && es[k].customer_asid == cc {
                        let k = choose|k: int| 0 <= k < i + 1 && es[k].customer_asid == cc;
                        if k < i {
                            assert(has_customer(before, cc));
                        } else {
                            assert(cc == c);
                        }
                    }
                }
            }
            assert forall|k: int|
                0 <= k < i + 1 implies ((exists|m: int| 0 <= m < idx.len() && idx[m] == k)
                    <==> #[trigger] new_first_customer(old_aspas, es, k)) by {
                if k < i {
                    if exists|m: int| 0 <= m < idx0.len() && idx0[m] == k {
                        let m = choose|m: int| 0 <= m < idx0.len() && idx0[m] == k;
                        assert(idx[m] == idx0[m]);
                    }
                    if exists|m: int| 0 <= m < idx.len() && idx[m] == k {
                        let m = choose|m: int| 0 <= m < idx.len() && idx[m] == k;
                        if m < idx0.len() {
                            assert(idx0[m] == idx[m]);
                        }
                    }
                } else {
                    if !seen {
                        assert(idx[idx0.len() as int] == k);
                    } else {
                        assert(idx == idx0);
                    }
                }
            }
        }
        i = i + 1;
    }
    assert(appended_at(old_aspas, es, aspas@, idx));
}

impl RpkiTrie {
    /// The index of the record list of each stored network.
    pub closed spec fn slots(self) -> Map<(bool, u128, u8), usize> {
        slots_of(self.trie)
    }

    /// The records stored under exactly network `k`.
    pub closed spec fn list_at(self, k: (bool, u128, u8)) -> Seq<Roa> {
        self.lists@[self.slots()[k] as int]@
    }

    pub closed spec fn wf(self) -> bool {
        &&& forall|k| #[trigger]
            self.slots().contains_key(k) ==> self.slots()[k] < self.lists@.len() && canonical_key(k)
        &&& forall|k1, k2|
            #[trigger] self.slots().contains_key(k1) && #[trigger] self.slots().contains_key(k2)
                && self.slots()[k1] == self.slots()[k2] ==> k1 == k2
        &&& forall|k, j: int|
            #[trigger] self.slots().contains_key(k) && 0 <= j < self.list_at(k).len()
                ==> #[trigger] self.list_at(k)[j].prefix.key() == k
        &&& forall|k| #[trigger] self.slots().contains_key(k) ==> self.list_at(k).no_duplicates()
    }

    /// The trie holds this record.
    pub open spec fn holds(self, r: Roa) -> bool {
        self.slots().contains_key(r.prefix.key()) && self.list_at(r.prefix.key()).contains(r)
    }

    /// Every record the trie holds.
    pub open spec fn held(self) -> Set<Roa> {
        Set::new(|r: Roa| self.holds(r))
    }

    /// The provider authorisations, in the order they were taken in.
    pub closed spec fn spec_aspas(self) -> Seq<Aspa> {
        self.aspas@
    }

    /// What inserting `roa` into this trie yields: `post` and the returned
    /// flag `r`, true when the network was not stored before.
    pub open spec fn insert_roa_post(self, roa: Roa, post: RpkiTrie, r: bool) -> bool {
        &&& post.wf()
        &&& r == !self.slots().contains_key(roa.prefix.key())
        &&& post.held() == insert_effect(self.held(), roa)
        &&& post.slots().dom() == self.slots().dom().insert(roa.prefix.key())
        &&& post.list_at(roa.prefix.key()) == inserted_list(
            self.list_at(roa.prefix.key()),
            self.slots().contains_key(roa.prefix.key()),
            roa,
        )
        &&& forall|k|
            #[trigger] post.slots().contains_key(k) && k != roa.prefix.key() ==> post.list_at(k)
                == self.list_at(k)
        &&& post.spec_aspas() == self.spec_aspas()
        &&& post.spec_date() == self.spec_date()
    }

    /// The trie holds `r`, whose network holds `q` and whose maximum length
    /// admits `q`'s length.
    pub open spec fn matching(self, r: Roa, q: IpPrefix) -> bool {
        self.holds(r) && r.prefix.covers(q) && r.max_length >= q.spec_len()
    }

    /// Validation of origin `asn` for `q`, ignoring validity windows.
    pub open spec fn validation_outcome(self, q: IpPrefix, asn: u32) -> RpkiValidation {
        if !exists|r: Roa| #[trigger] self.matching(r, q) {
            RpkiValidation::Unknown
        } else if exists|r: Roa| #[trigger] self.matching(r, q) && r.asn == asn {
            RpkiValidation::Valid
        } else {
            RpkiValidation::Invalid
        }
    }

    /// Validation of origin `asn` for `q` at time `t`: records of the origin
    /// that are not in force at `t` make the outcome unknown, not invalid.
    pub open spec fn expiry_outcome(self, q: IpPrefix, asn: u32, t: i64) -> RpkiValidation {
        if !exists|r: Roa| #[trigger] self.matching(r, q) {
            RpkiValidation::Unknown
        } else if exists|r: Roa| #[trigger] self.matching(r, q) && r.asn == asn && in_force(r, t) {
            RpkiValidation::Valid
        } else if exists|r: Roa| #[trigger] self.matching(r, q) && r.asn == asn {
            RpkiValidation::Unknown
        } else {
            RpkiValidation::Invalid
        }
    }

    /// The date of the snapshot the data came from, if any.
    pub closed spec fn spec_date(self) -> Option<Date> {
        self.date
    }

    /// An empty trie for data of the given date.
    pub fn new(date: Option<Date>) -> (r: RpkiTrie)
        ensures
            r.wf(),
            r.held() == Set::<Roa>::empty(),
            r.slots() == Map::<(bool, u128, u8), usize>::empty(),
            r.spec_aspas() == Seq::<Aspa>::empty(),
            r.spec_date() == date,
    {
        let r = RpkiTrie { trie: slots_new(), lists: Vec::new(), aspas: Vec::new(), date };
        assert(r.held() =~= Set::<Roa>::empty());
        r
    }

    /// Inserts one record. Returns true when its network was not stored
    /// before; a record equal in network, origin and maximum length to one
    /// already held is dropped.
    pub fn insert_roa(&mut self, roa: Roa) -> (r: bool)
        requires
            old(self).wf(),
        ensures
            old(self).insert_roa_post(roa, *final(self), r),
    {
        let _ = roa.prefix.key_of();
        let ghost old_self = *self;
        let ghost k = roa.prefix.key();
        match slots_exact(&self.trie, &roa.prefix) {
            Some(i) => {
                let mut dup = false;
                let mut j: usize = 0;
                while j < self.lists[i].len()
                    invariant
                        i < self.lists@.len(),
                        0 <= j <= self.lists@[i as int]@.len(),
                        *self == old_self,
                        old_self.wf(),
                        old_self.slots().contains_key(k),
                        old_self.slots()[k] == i,
                        k == roa.prefix.key(),
                        dup <==> exists|m: int|
                            0 <= m < j && same_authorisation(
                                #[trigger] self.lists@[i as int]@[m],
                                roa,
                            ),
                    decreases self.lists@[i as int]@.len() - j,
                {
                    let e = self.lists[i][j];
                    assert(self.lists@[i as int]@ == old_self.list_at(k));
                    assert(old_self.list_at(k)[j as int].prefix.key() == k);
                    if e.asn == roa.asn && e.max_length == roa.max_length {
                        dup = true;
                    }
                    j = j + 1;
                }
                proof {
                    assert forall|x: Roa| #[trigger]
                        old_self.held().contains(x) && same_authorisation(x, roa) implies dup by {
                        let m = old_self.list_at(k).index_of(x);
                        assert(old_self.list_at(k)[m] == x);
                    }
                    if dup {
                        let m = choose|m: int|
                            0 <= m < j && same_authorisation(
                                #[trigger] self.lists@[i as int]@[m],
                                roa,
                            );
                        assert(old_self.held().contains(self.lists@[i as int]@[m]));
                    }
                }
                proof {
                    assert(self.lists@[i as int]@ == old_self.list_at(k));
                    if !dup {
                        assert forall|m: int| 0 <= m < old_self.list_at(k).len() implies
                            #[trigger] old_self.list_at(k)[m] != roa by {
                            assert(!same_authorisation(self.lists@[i as int]@[m], roa));
                        }
                    }
                }
                if !dup {
                    let mut lst = self.lists[i].clone();
                    lst.push(roa);
                    self.lists.set(i, lst);
                    proof {
                        assert(self.slots() == old_self.slots());
                        assert(self.list_at(k) =~= old_self.list_at(k).push(roa));
                        assert(self.list_at(k).no_duplicates()) by {
                            assert forall|a: int, b: int|
                                0 <= a < self.list_at(k).len() && 0 <= b < self.list_at(k).len() && a != b
                                    implies self.list_at(k)[a] != self.list_at(k)[b] by {
                                if a < old_self.list_at(k).len() && b < old_self.list_at(k).len() {
                                    assert(old_self.list_at(k).no_duplicates());
                                }
                            }
                        }
                        assert forall|k2| #[trigger] self.slots().contains_key(k2) implies self.list_at(
                            k2,
                        ).no_duplicates() by {
                            if k2 != k {
                                assert(self.slots()[k2] != self.slots()[k]);
                                assert(self.list_at(k2) == old_self.list_at(k2));
                            }
                        }
                        assert forall|k2, jj: int|
                            #[trigger] self.slots().contains_key(k2) && 0 <= jj < self.list_at(k2).len()
                                implies #[trigger] self.list_at(k2)[jj].prefix.key() == k2 by {
                            if self.slots()[k2] == i {
                                assert(k2 == k);
                                if jj < old_self.list_at(k).len() {
                                    assert(self.list_at(k2)[jj] == old_self.list_at(k)[jj]);
                                }
                            } else {
                                assert(self.list_at(k2) == old_self.list_at(k2));
                            }
                        }
                        assert forall|k2| #[trigger]
                            self.slots().contains_key(k2) implies self.list_at(k2) == (if k2 == k {
                            old_self.list_at(k).push(roa)
                        } else {
                            old_self.list_at(k2)
                        }) by {
                            if k2 == k {
                                assert(self.list_at(k2) =~= old_self.list_at(k).push(roa));
                            }
                        }
                        assert(self.held() =~= old_self.held().insert(roa)) by {
                            assert forall|x: Roa| self.held().contains(x) implies old_self.held().insert(roa).contains(x) by {
                                if x.prefix.key() == k && x != roa {
                                    let m = self.list_at(k).index_of(x);
                                    assert(old_self.list_at(k)[m] == x);
                                }
                            }
                            assert forall|x: Roa| old_self.held().insert(roa).contains(x) implies self.held().contains(x) by {
                                if x == roa {
                                    assert(self.list_at(k).last() == roa);
                                } else if x.prefix.key() == k {
                                    let m = old_self.list_at(k).index_of(x);
                                    assert(self.list_at(k)[m] == x);
                                }
                            }
                        }
                    }
                }
                proof {
                    assert(self.slots().dom() =~= old_self.slots().dom().insert(k));
                    if dup {
                        assert(*self == old_self);
                        let m = choose|m: int|
                            0 <= m < j && same_authorisation(
                                #[trigger] self.lists@[i as int]@[m],
                                roa,
                            );
                        assert(same_authorisation(old_self.list_at(k)[m], roa));
                    } else {
                        assert forall|k2|
                            #[trigger] self.slots().contains_key(k2) && k2 != k implies self.list_at(k2)
                                == old_self.list_at(k2) by {
                            assert(self.slots()[k2] != self.slots()[k]);
                        }
                        assert(!(exists|m: int|
                            0 <= m < old_self.list_at(k).len() && same_authorisation(
                                #[trigger] old_self.list_at(k)[m],
                                roa,
                            )));
                        assert(self.list_at(k) == old_self.list_at(k).push(roa));
                    }
                    assert(self.list_at(k) == inserted_list(old_self.list_at(k), true, roa));
                }
                false
            },
            None => {
                let idx = self.lists.len();
                let lst = vec![roa];
                self.lists.push(lst);
                slots_insert(&mut self.trie, &roa.prefix, idx);
                proof {
                    assert forall|k2, jj: int|
                        #[trigger] self.slots().contains_key(k2) && 0 <= jj < self.list_at(k2).len()
                            implies #[trigger] self.list_at(k2)[jj].prefix.key() == k2 by {
                        if k2 != k {
                            assert(old_self.slots().contains_key(k2));
                            assert(self.list_at(k2) == old_self.list_at(k2));
                        } else {
                            assert(self.list_at(k2) =~= seq![roa]);
                        }
                    }
                    assert forall|k1, k2|
                        #[trigger] self.slots().contains_key(k1) && #[trigger] self.slots().contains_key(k2)
                            && self.slots()[k1] == self.slots()[k2] implies k1 == k2 by {
                        if k1 != k {
                            assert(old_self.slots().contains_key(k1));
                        }
                        if k2 != k {
                            assert(old_self.slots().contains_key(k2));
                        }
                    }
                    assert forall|k2| #[trigger]
                        self.slots().contains_key(k2) implies self.list_at(k2) == (if k2 == k {
                        seq![roa]
                    } else {
                        old_self.list_at(k2)
                    }) by {
                        if k2 != k {
                            assert(old_self.slots().contains_key(k2));
                        }
                    }
                    assert forall|k2| #[trigger] self.slots().contains_key(k2) implies self.list_at(
                        k2,
                    ).no_duplicates() by {
                        if k2 != k {
                            assert(old_self.slots().contains_key(k2));
                        } else {
                            assert(self.list_at(k2) =~= seq![roa]);
                        }
                    }
                    assert forall|x: Roa| #[trigger]
                        old_self.held().contains(x) implies !same_authorisation(x, roa) by {}
                    assert(self.held() =~= old_self.held().insert(roa)) by {
                        assert forall|x: Roa| self.held().contains(x) implies old_self.held().insert(roa).contains(x) by {
                            if x.prefix.key() == k {
                                assert(self.list_at(k) =~= seq![roa]);
                            }
                        }
                        assert forall|x: Roa| old_self.held().insert(roa).contains(x) implies self.held().contains(x) by {
                            if x == roa {
                                assert(self.list_at(k)[0] == roa);
                            }
                        }
                    }
                    assert(self.slots().dom() =~= old_self.slots().dom().insert(k));
                    assert(self.list_at(k) =~= seq![roa]);
                    assert(self.list_at(k) == inserted_list(old_self.list_at(k), false, roa));
                    assert forall|k2|
                        #[trigger] self.slots().contains_key(k2) && k2 != k implies self.list_at(k2)
                            == old_self.list_at(k2) by {
                        assert(old_self.slots().contains_key(k2));
                    }
                }
                true
            },
        }
    }

    /// The records stored under the whole address space of `prefix`'s
    /// family that admit its length.
    fn root_records(&self, prefix: &IpPrefix) -> (r: Vec<Roa>)
        requires
            self.wf(),
        ensures
            forall|x: Roa|
                r@.contains(x) <==> (self.holds(x) && x.prefix.key() == (prefix.spec_v6(), 0u128, 0u8)
                    && x.max_length >= prefix.spec_len()),
            r@.no_duplicates(),
    {
        let mut all: Vec<Roa> = Vec::new();
        assert(all@.no_duplicates());
        let v6 = prefix.is_v6();
        proof {
            lemma_family_sizes();
            lemma_pow2_pos(family_width(v6));
            lemma_basic_div(0, pow2(family_width(v6)) as int);
            assert((family_width(v6) - 0) as nat == family_width(v6));
            assert(network_of(v6, 0, 0) == 0);
        }
        let root = match IpPrefix::new(v6, 0, 0) {
            Some(r) => r,
            None => {
                return all;
            },
        };
        assert(root.key() == (v6, 0u128, 0u8));
        match slots_exact(&self.trie, &root) {
            Some(idx) => {
                let rk = root.key_of();
                let mut j: usize = 0;
                while j < self.lists[idx].len()
                    invariant
                        self.wf(),
                        self.slots().contains_key(rk),
                        self.slots()[rk] == idx,
                        rk == (v6, 0u128, 0u8),
                        v6 == prefix.spec_v6(),
                        idx < self.lists@.len(),
                        0 <= j <= self.list_at(rk).len(),
                        all@.no_duplicates(),
                        forall|x: Roa|
                            all@.contains(x) <==> (x.prefix.key() == rk && self.list_at(rk).subrange(
                                0,
                                j as int,
                            ).contains(x) && x.max_length >= prefix.spec_len()),
                    decreases self.list_at(rk).len() - j,
                {
                    let roa = self.lists[idx][j];
                    assert(roa == self.list_at(rk)[j as int]);
                    assert(roa.prefix.key() == rk);
                    let ghost before = all@;
                    let take = roa.max_length >= prefix.prefix_len();
                    proof {
                        assert(self.list_at(rk).no_duplicates());
                        if before.contains(roa) {
                            let m = self.list_at(rk).subrange(0, j as int).index_of(roa);
                            assert(self.list_at(rk)[m] == roa);
                        }
                    }
                    if take {
                        all.push(roa);
                        proof {
                            lemma_push_no_duplicates(before, roa);
                        }
                    }
                    let ghost s0 = self.list_at(rk).subrange(0, j as int);
                    j = j + 1;
                    proof {
                        let s1 = self.list_at(rk).subrange(0, j as int);
                        assert(s1 =~= s0.push(roa));
                        assert forall|x: Roa| all@.contains(x) <==> (x.prefix.key() == rk
                                && self.list_at(rk).subrange(0, j as int).contains(x)
                                && x.max_length >= prefix.spec_len()) by {
                            lemma_push_contains(s0, roa, x);
                            if take {
                                lemma_push_contains(before, roa, x);
                            }
                        }
                    }
                }
                proof {
                    assert(self.list_at(rk).subrange(0, j as int) =~= self.list_at(rk));
                }
            },
            None => {},
        }
        all
    }

    /// Every record whose network holds `prefix` and whose maximum length
    /// admits `prefix`'s length.
    pub fn lookup_by_prefix(&self, prefix: &IpPrefix) -> (r: Vec<Roa>)
        requires
            self.wf(),
        ensures
            forall|x: Roa| r@.contains(x) <==> self.matching(x, *prefix),
            r@.no_duplicates(),
    {
        let ms = slots_matches(&self.trie, prefix);
        let mut all: Vec<Roa> = Vec::new();
        assert(all@.no_duplicates());
        let ghost mut done: Set<(bool, u128, u8)> = Set::empty();
        let mut i: usize = 0;
        while i < ms.len()
            invariant
                self.wf(),
                0 <= i <= ms@.len(),
                forall|j: int|
                    0 <= j < ms@.len() ==> {
                        let e = #[trigger] ms@[j];
                        self.slots().contains_key((e.0, e.1, e.2)) && self.slots()[(e.0, e.1, e.2)]
                            == e.3
                    },
                forall|j: int|
                    0 <= j < i && ms@[j].2 > 0 ==> done.contains((ms@[j].0, ms@[j].1, ms@[j].2)),
                forall|x: Roa|
                    all@.contains(x) <==> (done.contains(x.prefix.key()) && self.matching(
                        x,
                        *prefix,
                    )),
                all@.no_duplicates(),
                forall|x: (bool, u128, u8)| done.contains(x) ==> x.2 > 0,
                forall|j: int|
                    i <= j < ms@.len() ==> !done.contains((#[trigger] ms@[j].0, ms@[j].1, ms@[j].2)),
                forall|a: int, b: int|
                    0 <= a < ms@.len() && 0 <= b < ms@.len() && a != b ==> (#[trigger] ms@[a].0, ms@[a].1,
                    ms@[a].2) != (#[trigger] ms@[b].0, ms@[b].1, ms@[b].2),
            decreases ms@.len() - i,
        {
            let e = ms[i];
            let ghost kk = (e.0, e.1, e.2);
            assert(self.slots().contains_key(kk));
            assert(canonical_key(kk));
            // A record of the whole address space is collected below, since
            // the trie's search may not report it.
            if e.2 == 0 {
                i = i + 1;
                continue;
            }
            match IpPrefix::new(e.0, e.1, e.2) {
                Some(p) => {
                    assert(p.key() == kk);
                    let idx = e.3;
                    if p.contains(prefix) {
                        let mut j: usize = 0;
                        let ghost all0 = all@;
                        while j < self.lists[idx].len()
                            invariant
                                self.wf(),
                                self.slots().contains_key(kk),
                                self.slots()[kk] == idx,
                                idx < self.lists@.len(),
                                p.key() == kk,
                                p.covers(*prefix),
                                0 <= j <= self.list_at(kk).len(),
                                !done.contains(kk),
                                all@.no_duplicates(),
                                forall|x: Roa|
                                    all@.contains(x) <==> ((done.contains(x.prefix.key())
                                        && self.matching(x, *prefix)) || (x.prefix.key() == kk
                                        && self.list_at(kk).subrange(0, j as int).contains(x)
                                        && x.max_length >= prefix.spec_len())),
                            decreases self.list_at(kk).len() - j,
                        {
                            let roa = self.lists[idx][j];
                            assert(roa == self.list_at(kk)[j as int]);
                            assert(roa.prefix.key() == kk);
                            let ghost before = all@;
                            let take = roa.max_length >= prefix.prefix_len();
                            proof {
                                assert(self.list_at(kk).no_duplicates());
                                if before.contains(roa) {
                                    let m = self.list_at(kk).subrange(0, j as int).index_of(roa);
                                    assert(self.list_at(kk)[m] == roa);
                                }
                                assert(!before.contains(roa));
                            }
                            if take {
                                all.push(roa);
                                proof {
                                    lemma_push_no_duplicates(before, roa);
                                }
                            }
                            let ghost s0 = self.list_at(kk).subrange(0, j as int);
                            j = j + 1;
                            proof {
                                let s1 = self.list_at(kk).subrange(0, j as int);
                                assert(s1 =~= s0.push(roa));
                                assert forall|x: Roa| all@.contains(x) <==> ((done.contains(x.prefix.key())
                                        && self.matching(x, *prefix)) || (x.prefix.key() == kk
                                        && self.list_at(kk).subrange(0, j as int).contains(x)
                                        && x.max_length >= prefix.spec_len())) by {
                                    lemma_push_contains(s0, roa, x);
                                    if take {
                                        lemma_push_contains(before, roa, x);
                                    }
                                }
                            }
                        }
                        proof {
                            assert(self.list_at(kk).subrange(0, j as int) =~= self.list_at(kk));
                            assert forall|x: Roa| all@.contains(x) <==> (done.insert(kk).contains(x.prefix.key())
                                && self.matching(x, *prefix)) by {
                                if x.prefix.key() == kk && self.list_at(kk).contains(x) {
                                    assert(self.holds(x));
                                }
                            }
                        }
                    } else {
                        proof {
                            assert forall|x: Roa| all@.contains(x) <==> (done.insert(kk).contains(x.prefix.key())
                                && self.matching(x, *prefix)) by {
                                if x.prefix.key() == kk {
                                    assert(!x.prefix.covers(*prefix));
                                }
                            }
                        }
                    }
                    proof {
                        done = done.insert(kk);
                        assert forall|j2: int|
                            i + 1 <= j2 < ms@.len() implies !done.contains(
                                (#[trigger] ms@[j2].0, ms@[j2].1, ms@[j2].2),
                            ) by {
                            assert((ms@[j2].0, ms@[j2].1, ms@[j2].2) != (ms@[i as int].0, ms@[i as int].1,
                            ms@[i as int].2));
                        }
                    }
                },
                None => {
                    // Stored keys are canonical, so the network is rebuilt.
                    assert(false);
                },
            }
            i = i + 1;
        }
        proof {
            assert forall|x: Roa| self.matching(x, *prefix) && x.prefix.spec_len() > 0 implies done.contains(
                x.prefix.key(),
            ) by {
                let k = x.prefix.key();
                assert(slots_of(self.trie).contains_key(k));
                let j = choose|j: int| 0 <= j < ms@.len() && (ms@[j].0, ms@[j].1, ms@[j].2) == k;
            }
        }
        let mut extra = self.root_records(prefix);
        let ghost part = all@;
        let ghost rest = extra@;
        proof {
            assert forall|x: Roa| !(part.contains(x) && rest.contains(x)) by {
                if part.contains(x) && rest.contains(x) {
                    assert(done.contains(x.prefix.key()));
                }
            }
            lemma_concat_no_duplicates(part, rest);
        }
        all.append(&mut extra);
        let qk = prefix.key_of();
        proof {
            assert forall|x: Roa| all@.contains(x) <==> self.matching(x, *prefix) by {
                lemma_concat_contains(part, rest, x);
                let k = x.prefix.key();
                if self.matching(x, *prefix) {
                    if x.prefix.spec_len() == 0 {
                        assert(self.slots().contains_key(k));
                        assert(canonical_key(k));
                        lemma_root_key(k);
                        assert(k == (prefix.spec_v6(), 0u128, 0u8));
                        assert(rest.contains(x));
                    } else {
                        assert(done.contains(k));
                        assert(part.contains(x));
                    }
                }
                if rest.contains(x) {
                    lemma_root_covers(qk);
                    assert(crate::prefix::key_covers(k, qk));
                    assert(self.matching(x, *prefix));
                }
                if part.contains(x) {
                    assert(self.matching(x, *prefix));
                }
            }
        }
        all
    }

    /// Validates origin `asn` for `prefix`: unknown when no record holds the
    /// route, valid when one of them is for `asn`, invalid otherwise.
    pub fn validate(&self, prefix: &IpPrefix, asn: u32) -> (r: RpkiValidation)
        requires
            self.wf(),
        ensures
            r == self.validation_outcome(*prefix, asn),
    {
        let matches = self.lookup_by_prefix(prefix);
        if matches.len() == 0 {
            proof {
                assert forall|x: Roa| !self.matching(x, *prefix) by {
                    if self.matching(x, *prefix) {
                        assert(matches@.contains(x));
                    }
                }
            }
            return RpkiValidation::Unknown;
        }
        assert(self.matching(matches@[0], *prefix));
        let mut i: usize = 0;
        while i < matches.len()
            invariant
                0 <= i <= matches@.len(),
                forall|x: Roa| matches@.contains(x) <==> self.matching(x, *prefix),
                forall|j: int| 0 <= j < i ==> #[trigger] matches@[j].asn != asn,
            decreases matches@.len() - i,
        {
            let roa = matches[i];
            assert(matches@.contains(roa));
            if roa.asn == asn && roa.max_length >= prefix.prefix_len() {
                return RpkiValidation::Valid;
            }
            i = i + 1;
        }
        proof {
            assert forall|x: Roa| self.matching(x, *prefix) implies x.asn != asn by {
                let j = matches@.index_of(x);
                assert(matches@[j] == x);
            }
        }
        RpkiValidation::Invalid
    }

    /// Validates origin `asn` for `prefix` at `check_time` (now when absent):
    /// unknown when no record holds the route, valid when a record for
    /// `asn` is in force, unknown when records for `asn` exist but none is in
    /// force, invalid when no record is for `asn`.
    pub fn validate_check_expiry(&self, prefix: &IpPrefix, asn: u32, check_time: Option<i64>) -> (r:
        RpkiValidation)
        requires
            self.wf(),
        ensures
            check_time matches Some(t) ==> r == self.expiry_outcome(*prefix, asn, t),
            exists|t: i64| r == self.expiry_outcome(*prefix, asn, t),
    {
        let matches = self.lookup_by_prefix(prefix);
        if matches.len() == 0 {
            proof {
                assert forall|x: Roa| !self.matching(x, *prefix) by {
                    if self.matching(x, *prefix) {
                        assert(matches@.contains(x));
                    }
                }
                assert(RpkiValidation::Unknown == self.expiry_outcome(*prefix, asn, 0));
            }
            return RpkiValidation::Unknown;
        }
        assert(self.matching(matches@[0], *prefix));
        let t = match check_time {
            Some(t) => t,
            None => now_unix_seconds(),
        };
        let mut found = false;
        let mut i: usize = 0;
        while i < matches.len()
            invariant
                0 <= i <= matches@.len(),
                check_time matches Some(ct) ==> ct == t,
                forall|x: Roa| matches@.contains(x) <==> self.matching(x, *prefix),
                forall|j: int|
                    0 <= j < i ==> !(#[trigger] matches@[j].asn == asn && in_force(matches@[j], t)),
                found <==> exists|j: int| 0 <= j < i && #[trigger] matches@[j].asn == asn,
            decreases matches@.len() - i,
        {
            let roa = matches[i];
            assert(matches@.contains(roa));
            if roa.asn == asn && roa.max_length >= prefix.prefix_len() {
                found = true;
                let after_start = match roa.not_before {
                    Some(nb) => t >= nb,
                    None => true,
                };
                let before_end = match roa.not_after {
                    Some(na) => t <= na,
                    None => true,
                };
                if after_start && before_end {
                    assert(in_force(roa, t) && self.matching(roa, *prefix));
                    assert(RpkiValidation::Valid == self.expiry_outcome(*prefix, asn, t));
                    return RpkiValidation::Valid;
                }
            }
            i = i + 1;
        }
        proof {
            assert forall|x: Roa| self.matching(x, *prefix) && x.asn == asn implies !in_force(x, t) by {
                let j = matches@.index_of(x);
                assert(matches@[j] == x);
            }
            if found {
                let j = choose|j: int| 0 <= j < i && #[trigger] matches@[j].asn == asn;
                assert(matches@.contains(matches@[j]));
            } else {
                assert forall|x: Roa| self.matching(x, *prefix) implies x.asn != asn by {
                    let j = matches@.index_of(x);
                    assert(matches@[j] == x);
                }
            }
        }
        let r = if found {
            RpkiValidation::Unknown
        } else {
            RpkiValidation::Invalid
        };
        assert(r == self.expiry_outcome(*prefix, asn, t));
        r
    }

    /// A trie holding the records of one normalised document.
    pub fn from_rpki_client_data(data: &RpkiClientData, date: Option<Date>) -> (r: RpkiTrie)
        ensures
            r.spec_date() == date,
            merge_post(Set::empty(), Seq::empty(), data, r),
    {
        let mut trie = RpkiTrie::new(date);
        trie.merge_rpki_client_data(data);
        trie
    }

    /// Inserts records in order, each as `insert_roa` does.
    pub fn insert_roas(&mut self, roas: Vec<Roa>)
        requires
            old(self).wf(),
        ensures
            final(self).wf(),
            final(self).held() == insert_all(old(self).held(), roas@.map_values(|r: Roa| Some(r))),
            final(self).spec_aspas() == old(self).spec_aspas(),
            final(self).spec_date() == old(self).spec_date(),
    {
        let ghost old_held = self.held();
        let mut i: usize = 0;
        while i < roas.len()
            invariant
                self.wf(),
                i <= roas@.len(),
                self.held() == insert_all(old_held, roas@.take(i as int).map_values(|r: Roa| Some(r))),
                self.spec_aspas() == old(self).spec_aspas(),
                self.spec_date() == old(self).spec_date(),
            decreases roas@.len() - i,
        {
            self.insert_roa(roas[i]);
            proof {
                let s1 = roas@.take(i + 1).map_values(|r: Roa| Some(r));
                let s0 = roas@.take(i as int).map_values(|r: Roa| Some(r));
                assert(s1.drop_last() =~= s0);
                assert(s1.last() == Some(roas@[i as int]));
            }
            i = i + 1;
        }
        assert(roas@.take(roas@.len() as int) =~= roas@);
    }

    /// Whether any record is held.
    pub fn is_loaded(&self) -> (r: bool)
        ensures
            r == !(self.slots().dom() =~= Set::empty()),
    {
        !slots_is_empty(&self.trie)
    }

    /// A short description of whether data is loaded.
    pub fn loading_status(&self) -> (r: &'static str)
        ensures
            r@ == (if self.slots().dom() =~= Set::empty() {
                "RPKI data not loaded"@
            } else {
                "RPKI data loaded"@
            }),
    {
        if self.is_loaded() {
            "RPKI data loaded"
        } else {
            "RPKI data not loaded"
        }
    }

    /// The provider authorisations.
    pub fn aspas(&self) -> (r: &Vec<Aspa>)
        ensures
            r@ == self.spec_aspas(),
    {
        &self.aspas
    }

    /// The date of the snapshot the data came from, if any.
    pub fn date(&self) -> (r: Option<Date>)
        ensures
            r == self.spec_date(),
    {
        self.date
    }

    /// Folds a normalised document into the trie. Records whose network text
    /// does not parse are skipped; a provider authorisation for a customer
    /// already present is ignored (the first one stays).
    pub fn merge_rpki_client_data(&mut self, data: &RpkiClientData)
        requires
            old(self).wf(),
        ensures
            final(self).spec_date() == old(self).spec_date(),
            merge_post(old(self).held(), old(self).spec_aspas(), data, *final(self)),
    {
        let ghost old_held = self.held();
        let ghost mut rs: Seq<Option<Roa>> = Seq::empty();
        let mut i: usize = 0;
        while i < data.roas.len()
            invariant
                self.wf(),
                self.spec_date() == old(self).spec_date(),
                self.spec_aspas() == old(self).spec_aspas(),
                i <= data.roas@.len(),
                rs.len() == i,
                forall|j: int|
                    0 <= j < i ==> ((#[trigger] rs[j] is None) <==> ipnet_from_text(
                        data.roas@[j].prefix@,
                    ) is None),
                forall|j: int|
                    0 <= j < i ==> (#[trigger] rs[j] matches Some(r) ==> roa_from_entry(
                        data.roas@[j],
                        r,
                    )),
                self.held() == insert_all(old_held, rs),
            decreases data.roas@.len() - i,
        {
            let e = &data.roas[i];
            let ghost before = rs;
            match IpPrefix::parse(e.prefix.as_str()) {
                Some(prefix) => {
                    let rir = Rir::from_text(e.ta.as_str());
                    let not_after = expiry_from_u64(e.expires);
                    let roa = Roa {
                        prefix,
                        asn: e.asn,
                        max_length: e.max_length,
                        rir,
                        not_before: None,
                        not_after,
                    };
                    self.insert_roa(roa);
                    proof {
                        rs = rs.push(Some(roa));
                        assert(rs.drop_last() == before);
                    }
                },
                None => {
                    proof {
                        rs = rs.push(None);
                        assert(rs.drop_last() == before);
                    }
                },
            }
            i = i + 1;
        }
        assert(self.wf());
        let ghost pre = *self;
        merge_aspas(&mut self.aspas, &data.aspas);
        assert(self.trie == pre.trie);
        assert(self.lists == pre.lists);
        assert(self.slots() == pre.slots());
        assert(forall|k| #[trigger] self.list_at(k) == pre.list_at(k));
        assert(self.held() =~= pre.held());
        assert(self.held() == insert_all(old_held, rs));
        assert(exists|rs: Seq<Option<Roa>>|
            {
                &&& rs.len() == data.roas@.len()
                &&& forall|i: int|
                    0 <= i < rs.len() ==> ((#[trigger] rs[i] is None) <==> ipnet_from_text(
                        data.roas@[i].prefix@,
                    ) is None)
                &&& forall|i: int|
                    0 <= i < rs.len() ==> (#[trigger] rs[i] matches Some(r) ==> roa_from_entry(
                        data.roas@[i],
                        r,
                    ))
                &&& self.held() == insert_all(old_held, rs)
            });
    }
}

} // verus!
