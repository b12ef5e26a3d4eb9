//! Network records from PeeringDB, one per AS number.

use vstd::prelude::*;

verus! {

/// What is kept of a PeeringDB network for its AS number.
#[derive(Clone, Debug)]
pub struct PeeringdbData {
    pub asn: u32,
    pub name: Option<String>,
    pub name_long: Option<String>,
    pub aka: Option<String>,
    pub irr_as_set: Option<String>,
    pub website: Option<String>,
}

/// A network record as PeeringDB lists it.
#[derive(Clone, Debug)]
pub struct PeeringdbNet {
    pub id: u32,
    pub name: Option<String>,
    pub name_long: Option<String>,
    pub aka: Option<String>,
    pub asn: Option<u32>,
    pub org_id: Option<u32>,
    pub irr_as_set: Option<String>,
    pub website: Option<String>,
    pub notes: Option<String>,
    pub fac_count: Option<usize>,
    pub ix_count: Option<u32>,
    pub policy_contracts: Option<String>,
    pub policy_general: Option<String>,
    pub policy_locations: Option<String>,
    pub policy_ratio: Option<bool>,
    pub policy_url: Option<String>,
    pub info_ipv6: Option<bool>,
    pub info_multicast: Option<bool>,
    pub info_never_via_route_servers: Option<bool>,
    pub info_prefixes4: Option<u32>,
    pub info_prefixes6: Option<u32>,
    pub info_ratio: Option<String>,
    pub info_scope: Option<String>,
    pub info_traffic: Option<String>,
    pub info_type: Option<String>,
    pub info_types: Option<Vec<String>>,
    pub info_unicast: Option<bool>,
    pub rir_status: Option<String>,
    pub status: Option<String>,
    pub status_dashboard: Option<String>,
    pub created: Option<String>,
    pub updated: Option<String>,
    pub route_server: Option<String>,
    pub looking_glass: Option<String>,
}

pub open spec fn text_view(s: Option<String>) -> Option<Seq<char>> {
    match s {
        Some(t) => Some(t@),
        None => None,
    }
}

/// A PeeringDB record as plain values.
pub struct PeeringdbDataView {
    pub asn: u32,
    pub name: Option<Seq<char>>,
    pub name_long: Option<Seq<char>>,
    pub aka: Option<Seq<char>>,
    pub irr_as_set: Option<Seq<char>>,
    pub website: Option<Seq<char>>,
}

impl View for PeeringdbData {
    type V = PeeringdbDataView;

    open spec fn view(&self) -> PeeringdbDataView {
        PeeringdbDataView {
            asn: self.asn,
            name: text_view(self.name),
            name_long: text_view(self.name_long),
            aka: text_view(self.aka),
            irr_as_set: text_view(self.irr_as_set),
            website: text_view(self.website),
        }
    }
}

/// A copy of an optional text.
pub fn copy_text(s: &Option<String>) -> (r: Option<String>)
    ensures
        text_view(r) == text_view(*s),
{
    match s {
        Some(t) => Some(t.clone()),
        None => None,
    }
}

impl PeeringdbData {
    /// A copy of this record.
    pub fn copy(&self) -> (r: PeeringdbData)
        ensures
            r@ == self@,
            r.asn == self.asn,
    {
        PeeringdbData {
            asn: self.asn,
            name: copy_text(&self.name),
            name_long: copy_text(&self.name_long),
            aka: copy_text(&self.aka),
            irr_as_set: copy_text(&self.irr_as_set),
            website: copy_text(&self.website),
        }
    }
}

/// The record kept for a network with AS number `asn`.
pub open spec fn view_of_net(n: PeeringdbNet, asn: u32) -> PeeringdbDataView {
    PeeringdbDataView {
        asn,
        name: text_view(n.name),
        name_long: text_view(n.name_long),
        aka: text_view(n.aka),
        irr_as_set: text_view(n.irr_as_set),
        website: text_view(n.website),
    }
}

/// The records after adding `d`, unless its AS number has a record.
pub open spec fn add_record(s: Seq<PeeringdbDataView>, d: PeeringdbDataView) -> Seq<PeeringdbDataView> {
    if exists|i: int| 0 <= i < s.len() && #[trigger] s[i].asn == d.asn {
        s
    } else {
        s.push(d)
    }
}

/// The records of a list of networks: those with an AS number, the first
/// one of each AS number.
pub open spec fn records_of_nets(nets: Seq<PeeringdbNet>) -> Seq<PeeringdbDataView>
    decreases nets.len(),
{
    if nets.len() == 0 {
        Seq::empty()
    } else {
        let s = records_of_nets(nets.drop_last());
        match nets.last().asn {
            Some(asn) => add_record(s, view_of_net(nets.last(), asn)),
            None => s,
        }
    }
}

/// The records of a list, the first one of each AS number.
pub open spec fn records_of_list(list: Seq<PeeringdbDataView>) -> Seq<PeeringdbDataView>
    decreases list.len(),
{
    if list.len() == 0 {
        Seq::empty()
    } else {
        add_record(records_of_list(list.drop_last()), list.last())
    }
}

/// The records by AS number.
#[derive(Clone, Debug)]
pub struct Peeringdb {
    records: Vec<PeeringdbData>,
}

impl Peeringdb {
    /// The records, in the order they are kept.
    pub closed spec fn entries(self) -> Seq<PeeringdbDataView> {
        self.records@.map_values(|d: PeeringdbData| d@)
    }

    /// The AS numbers, in the order their records are kept.
    pub open spec fn asns(self) -> Seq<u32> {
        self.entries().map_values(|d: PeeringdbDataView| d.asn)
    }

    pub closed spec fn wf(self) -> bool {
        forall|i: int, j: int|
            0 <= i < self.records@.len() && 0 <= j < self.records@.len() && i != j
                ==> #[trigger] self.records@[i].asn != #[trigger] self.records@[j].asn
    }

    /// Adds a record unless its AS number has one.
    fn add_first(&mut self, d: PeeringdbData)
        requires
            old(self).wf(),
        ensures
            final(self).wf(),
            final(self).entries() == add_record(old(self).entries(), d@),
    {
        let mut j: usize = 0;
        while j < self.records.len()
            invariant
                *self == *old(self),
                old(self).wf(),
                j <= self.records@.len(),
                forall|m: int| 0 <= m < j ==> #[trigger] self.records@[m].asn != d.asn,
            decreases self.records@.len() - j,
        {
            if self.records[j].asn == d.asn {
                assert(self.entries()[j as int].asn == d.asn);
                return;
            }
            j = j + 1;
        }
        let ghost pre = self.entries();
        proof {
            assert forall|m: int| 0 <= m < pre.len() implies #[trigger] pre[m].asn != d.asn by {
                assert(pre[m] == self.records@[m]@);
            }
        }
        self.records.push(d);
        assert(self.entries() =~= pre.push(d@));
    }

    /// The records of the networks that have an AS number; for an AS
    /// number listed more than once the first network is kept.
    pub fn new(nets: &Vec<PeeringdbNet>) -> (r: Peeringdb)
        ensures
            r.wf(),
            r.entries() == records_of_nets(nets@),
    {
        let mut r = Peeringdb { records: Vec::new() };
        assert(r.entries() =~= Seq::<PeeringdbDataView>::empty());
        let mut i: usize = 0;
        while i < nets.len()
            invariant
                r.wf(),
                i <= nets@.len(),
                r.entries() == records_of_nets(nets@.take(i as int)),
            decreases nets@.len() - i,
        {
            let n = &nets[i];
            proof {
                assert(nets@.take(i + 1).drop_last() =~= nets@.take(i as int));
                assert(nets@.take(i + 1).last() == *n);
            }
            match n.asn {
                Some(asn) => {
                    let d = PeeringdbData {
                        asn,
                        name: copy_text(&n.name),
                        name_long: copy_text(&n.name_long),
                        aka: copy_text(&n.aka),
                        irr_as_set: copy_text(&n.irr_as_set),
                        website: copy_text(&n.website),
                    };
                    assert(d@ == view_of_net(*n, asn));
                    r.add_first(d);
                },
                None => {},
            }
            i = i + 1;
        }
        assert(nets@.take(nets@.len() as int) =~= nets@);
        r
    }

    /// The records given, one per AS number: of records sharing an AS
    /// number, the first.
    pub fn from_records(list: &Vec<PeeringdbData>) -> (r: Peeringdb)
        ensures
            r.wf(),
            r.entries() == records_of_list(list@.map_values(|d: PeeringdbData| d@)),
    {
        let ghost all = list@.map_values(|d: PeeringdbData| d@);
        let mut r = Peeringdb { records: Vec::new() };
        assert(r.entries() =~= Seq::<PeeringdbDataView>::empty());
        let mut i: usize = 0;
        while i < list.len()
            invariant
                r.wf(),
                all == list@.map_values(|d: PeeringdbData| d@),
                i <= list@.len(),
                r.entries() == records_of_list(all.take(i as int)),
            decreases list@.len() - i,
        {
            let d = &list[i];
            let c = PeeringdbData {
                asn: d.asn,
                name: copy_text(&d.name),
                name_long: copy_text(&d.name_long),
                aka: copy_text(&d.aka),
                irr_as_set: copy_text(&d.irr_as_set),
                website: copy_text(&d.website),
            };
            proof {
                assert(all.take(i + 1).drop_last() =~= all.take(i as int));
                assert(all.take(i + 1).last() == d@);
            }
            r.add_first(c);
            i = i + 1;
        }
        assert(all.take(list@.len() as int) =~= all);
        r
    }

    /// The record of an AS number.
    pub fn get_data(&self, asn: u32) -> (r: Option<&PeeringdbData>)
        ensures
            r is None <==> !self.asns().contains(asn),
            r matches Some(d) ==> d.asn == asn && self.entries().contains(d@),
    {
        let mut i: usize = 0;
        while i < self.records.len()
            invariant
                i <= self.records@.len(),
                forall|j: int| 0 <= j < i ==> #[trigger] self.records@[j].asn != asn,
            decreases self.records@.len() - i,
        {
            if self.records[i].asn == asn {
                assert(self.entries()[i as int] == self.records@[i as int]@);
                assert(self.asns()[i as int] == asn);
                return Some(&self.records[i]);
            }
            i = i + 1;
        }
        proof {
            assert forall|j: int| 0 <= j < self.asns().len() implies #[trigger] self.asns()[j] != asn by {
                assert(self.asns()[j] == self.records@[j].asn);
            }
        }
        None
    }

    /// Every AS number that has a record.
    pub fn get_all_asns(&self) -> (r: Vec<u32>)
        ensures
            r@ == self.asns(),
    {
        let mut all: Vec<u32> = Vec::new();
        let mut i: usize = 0;
        while i < self.records.len()
            invariant
                i <= self.records@.len(),
                all@ == self.asns().take(i as int),
            decreases self.records@.len() - i,
        {
            all.push(self.records[i].asn);
            assert(all@ =~= self.asns().take(i + 1));
            i = i + 1;
        }
        assert(self.asns().take(self.records@.len() as int) =~= self.asns());
        all
    }

    /// Whether an AS number has a record.
    pub fn contains(&self, asn: u32) -> (r: bool)
        ensures
            r == self.asns().contains(asn),
    {
        self.get_data(asn).is_some()
    }

    /// The number of records.
    pub fn len(&self) -> (r: usize)
        ensures
            r == self.asns().len(),
    {
        self.records.len()
    }

    /// Whether there is no record.
    pub fn is_empty(&self) -> (r: bool)
        ensures
            r == (self.asns().len() == 0),
    {
        self.records.len() == 0
    }
}

} // verus!
