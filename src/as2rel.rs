//! AS-level relationships inferred from BGP data, per address family.

use vstd::prelude::*;

verus! {

/// How the first AS of a pair relates to the second.
#[derive(Clone, Copy, Debug, PartialEq, Eq, Hash, Structural)]
pub enum AsRelationship {
    ProviderCustomer,
    CustomerProvider,
    PeerPeer,
}

impl AsRelationship {
    /// Reads the relationship code of the data files: `-1` and `1` are
    /// provider to customer, `0` is peering.
    pub fn from_code(code: i8) -> (r: Option<AsRelationship>)
        ensures
            r == (if code == -1 || code == 1 {
                Some(AsRelationship::ProviderCustomer)
            } else if code == 0 {
                Some(AsRelationship::PeerPeer)
            } else {
                None
            }),
    {
        if code == -1 || code == 1 {
            Some(AsRelationship::ProviderCustomer)
        } else if code == 0 {
            Some(AsRelationship::PeerPeer)
        } else {
            None
        }
    }

    /// The short code used when writing a relationship out.
    pub fn code(&self) -> (r: &'static str)
        ensures
            r@ == (match *self {
                AsRelationship::ProviderCustomer => "pc"@,
                AsRelationship::CustomerProvider => "cp"@,
                AsRelationship::PeerPeer => "pp"@,
            }),
    {
        match self {
            AsRelationship::ProviderCustomer => "pc",
            AsRelationship::CustomerProvider => "cp",
            AsRelationship::PeerPeer => "pp",
        }
    }
}

/// One inferred relationship between two AS numbers.
#[derive(Clone, Copy, Debug)]
pub struct As2relEntry {
    pub asn1: u32,
    pub asn2: u32,
    pub paths_count: u32,
    pub peers_count: u32,
    pub rel: AsRelationship,
}

/// The relationship seen from the other side.
pub open spec fn flipped(r: AsRelationship) -> AsRelationship {
    match r {
        AsRelationship::ProviderCustomer => AsRelationship::CustomerProvider,
        AsRelationship::CustomerProvider => AsRelationship::ProviderCustomer,
        AsRelationship::PeerPeer => AsRelationship::PeerPeer,
    }
}

/// The entry seen from the other side.
pub open spec fn reversed(e: As2relEntry) -> As2relEntry {
    As2relEntry {
        asn1: e.asn2,
        asn2: e.asn1,
        paths_count: e.paths_count,
        peers_count: e.peers_count,
        rel: flipped(e.rel),
    }
}

/// Two entries are the same relationship: same pair, same kind.
pub open spec fn same_relationship(a: As2relEntry, b: As2relEntry) -> bool {
    a.asn1 == b.asn1 && a.asn2 == b.asn2 && a.rel == b.rel
}

/// The table after adding `e`, unless the same relationship is there.
pub open spec fn add_relationship(s: Seq<As2relEntry>, e: As2relEntry) -> Seq<As2relEntry> {
    if exists|i: int| 0 <= i < s.len() && same_relationship(#[trigger] s[i], e) {
        s
    } else {
        s.push(e)
    }
}

/// The table built from a list of entries, each added in both directions.
pub open spec fn relationship_table(es: Seq<As2relEntry>) -> Seq<As2relEntry>
    decreases es.len(),
{
    if es.len() == 0 {
        Seq::empty()
    } else {
        let t = relationship_table(es.drop_last());
        add_relationship(add_relationship(t, es.last()), reversed(es.last()))
    }
}

/// The largest peer count of a list, zero when empty.
pub open spec fn max_peers(es: Seq<As2relEntry>) -> u32
    decreases es.len(),
{
    if es.len() == 0 {
        0
    } else {
        let m = max_peers(es.drop_last());
        if es.last().peers_count > m {
            es.last().peers_count
        } else {
            m
        }
    }
}

/// The entries of a table for the ordered pair `(asn1, asn2)`.
pub open spec fn pair_filter(asn1: u32, asn2: u32) -> spec_fn(As2relEntry) -> bool {
    |e: As2relEntry| e.asn1 == asn1 && e.asn2 == asn2
}

impl As2relEntry {
    /// The entry seen from the other side.
    pub fn reverse(&self) -> (r: As2relEntry)
        ensures
            r == reversed(*self),
    {
        As2relEntry {
            asn1: self.asn2,
            asn2: self.asn1,
            paths_count: self.paths_count,
            peers_count: self.peers_count,
            rel: match self.rel {
                AsRelationship::ProviderCustomer => AsRelationship::CustomerProvider,
                AsRelationship::CustomerProvider => AsRelationship::ProviderCustomer,
                AsRelationship::PeerPeer => AsRelationship::PeerPeer,
            },
        }
    }
}

/// What a lookup reports of one relationship.
#[derive(Clone, Copy, Debug)]
pub struct As2relBgpkitData {
    pub rel: AsRelationship,
    pub peers_count: u32,
    pub max_peer_count: u32,
}

pub open spec fn data_of(e: As2relEntry, max: u32) -> As2relBgpkitData {
    As2relBgpkitData { rel: e.rel, peers_count: e.peers_count, max_peer_count: max }
}

/// The relationships of both address families.
pub struct As2relBgpkit {
    v4_rels: Vec<As2relEntry>,
    v6_rels: Vec<As2relEntry>,
    v4_max_peer_count: u32,
    v6_max_peer_count: u32,
}

/// Adds `e` to `table` unless the same relationship is there.
fn add_entry(table: &mut Vec<As2relEntry>, e: As2relEntry)
    ensures
        final(table)@ == add_relationship(old(table)@, e),
{
    let mut i: usize = 0;
    while i < table.len()
        invariant
            table@ == old(table)@,
            i <= table@.len(),
            forall|j: int| 0 <= j < i ==> !same_relationship(#[trigger] table@[j], e),
        decreases table@.len() - i,
    {
        let x = table[i];
        if x.asn1 == e.asn1 && x.asn2 == e.asn2 && x.rel == e.rel {
            return;
        }
        i = i + 1;
    }
    table.push(e);
}

/// The table of a list of entries and their largest peer count.
fn build_table(es: &Vec<As2relEntry>) -> (r: (Vec<As2relEntry>, u32))
    ensures
        r.0@ == relationship_table(es@),
        r.1 == max_peers(es@),
{
    let mut table: Vec<As2relEntry> = Vec::new();
    let mut max: u32 = 0;
    let mut i: usize = 0;
    while i < es.len()
        invariant
            i <= es@.len(),
            table@ == relationship_table(es@.take(i as int)),
            max == max_peers(es@.take(i as int)),
        decreases es@.len() - i,
    {
        let e = es[i];
        add_entry(&mut table, e);
        add_entry(&mut table, e.reverse());
        if e.peers_count > max {
            max = e.peers_count;
        }
        proof {
            assert(es@.take(i + 1).drop_last() =~= es@.take(i as int));
            assert(es@.take(i + 1).last() == e);
        }
        i = i + 1;
    }
    assert(es@.take(es@.len() as int) =~= es@);
    (table, max)
}

/// The data of the entries of `table` for the pair, in table order.
fn pair_entries(table: &Vec<As2relEntry>, asn1: u32, asn2: u32, max: u32) -> (r: Vec<
    As2relBgpkitData,
>)
    ensures
        r@ == table@.filter(pair_filter(asn1, asn2)).map_values(|e: As2relEntry| data_of(e, max)),
{
    let mut found: Vec<As2relBgpkitData> = Vec::new();
    let mut i: usize = 0;
    while i < table.len()
        invariant
            i <= table@.len(),
            found@ == table@.take(i as int).filter(pair_filter(asn1, asn2)).map_values(
                |e: As2relEntry| data_of(e, max),
            ),
        decreases table@.len() - i,
    {
        let e = table[i];
        let ghost before = found@;
        if e.asn1 == asn1 && e.asn2 == asn2 {
            found.push(As2relBgpkitData { rel: e.rel, peers_count: e.peers_count, max_peer_count: max });
        }
        proof {
            let t1 = table@.take(i + 1);
            assert(t1.drop_last() =~= table@.take(i as int));
            assert(t1.last() == e);
            reveal(Seq::filter);
            let p = pair_filter(asn1, asn2);
            assert(t1.filter(p) == (if p(t1.last()) {
                t1.drop_last().filter(p).push(t1.last())
            } else {
                t1.drop_last().filter(p)
            }));
            assert(found@ =~= t1.filter(p).map_values(|e: As2relEntry| data_of(e, max)));
        }
        i = i + 1;
    }
    assert(table@.take(table@.len() as int) =~= table@);
    found
}

impl As2relBgpkit {
    /// The table of each family, every entry also added from the other
    /// side; an entry equal in pair and kind to one already there is
    /// dropped.
    pub closed spec fn v4_table(self) -> Seq<As2relEntry> {
        self.v4_rels@
    }

    pub closed spec fn v6_table(self) -> Seq<As2relEntry> {
        self.v6_rels@
    }

    pub closed spec fn v4_max(self) -> u32 {
        self.v4_max_peer_count
    }

    pub closed spec fn v6_max(self) -> u32 {
        self.v6_max_peer_count
    }

    /// Builds the tables from the entries of each family.
    pub fn new(v4: &Vec<As2relEntry>, v6: &Vec<As2relEntry>) -> (r: As2relBgpkit)
        ensures
            r.v4_table() == relationship_table(v4@),
            r.v6_table() == relationship_table(v6@),
            r.v4_max() == max_peers(v4@),
            r.v6_max() == max_peers(v6@),
    {
        let (v4_rels, v4_max_peer_count) = build_table(v4);
        let (v6_rels, v6_max_peer_count) = build_table(v6);
        As2relBgpkit { v4_rels, v6_rels, v4_max_peer_count, v6_max_peer_count }
    }

    /// The relationships of `asn1` to `asn2`, IPv4 then IPv6, each with the
    /// family's largest peer count.
    pub fn lookup_pair(&self, asn1: u32, asn2: u32) -> (r: (Vec<As2relBgpkitData>, Vec<As2relBgpkitData>))
        ensures
            r.0@ == self.v4_table().filter(pair_filter(asn1, asn2)).map_values(
                |e: As2relEntry| data_of(e, self.v4_max()),
            ),
            r.1@ == self.v6_table().filter(pair_filter(asn1, asn2)).map_values(
                |e: As2relEntry| data_of(e, self.v6_max()),
            ),
    {
        let v4 = pair_entries(&self.v4_rels, asn1, asn2, self.v4_max_peer_count);
        let v6 = pair_entries(&self.v6_rels, asn1, asn2, self.v6_max_peer_count);
        (v4, v6)
    }

    /// Whether any relationship is held.
    pub fn is_loaded(&self) -> (r: bool)
        ensures
            r == (self.v4_table().len() > 0 || self.v6_table().len() > 0),
    {
        self.v4_rels.len() > 0 || self.v6_rels.len() > 0
    }
}

} // verus!
