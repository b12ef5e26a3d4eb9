//! Route collectors of the RouteViews and RIPE RIS projects, and the peers
//! that feed them. Times are Unix seconds.

use crate::time::Date;
use crate::text::same_text;
use vstd::prelude::*;

verus! {

/// The project a collector belongs to.
#[derive(Clone, Copy, Debug, PartialEq, Eq, Structural)]
pub enum MrtCollectorProject {
    RouteViews,
    RipeRis,
}

impl MrtCollectorProject {
    /// The project's short name: `routeviews` or `riperis`.
    pub fn name(&self) -> (r: &'static str)
        ensures
            r@ == (match *self {
                MrtCollectorProject::RouteViews => "routeviews"@,
                MrtCollectorProject::RipeRis => "riperis"@,
            }),
    {
        match self {
            MrtCollectorProject::RouteViews => "routeviews",
            MrtCollectorProject::RipeRis => "riperis",
        }
    }
}

/// One route collector.
#[derive(Clone, Debug, PartialEq, Eq)]
pub struct MrtCollector {
    pub name: String,
    pub project: MrtCollectorProject,
    pub data_url: String,
    pub activated_on: i64,
    pub deactivated_on: Option<i64>,
    pub country: String,
}

/// The address of a peer: its family and value.
#[derive(Clone, Copy, Debug, PartialEq, Eq, Structural)]
pub struct PeerAddress {
    pub v6: bool,
    pub addr: u128,
}

/// One peer of a collector, with the size of what it sends.
#[derive(Clone, Debug, PartialEq, Eq)]
pub struct MrtCollectorPeer {
    pub date: Date,
    pub ip: PeerAddress,
    pub asn: u32,
    pub collector: String,
    pub num_v4_pfxs: u32,
    pub num_v6_pfxs: u32,
    pub num_connected_asns: u32,
}

/// The number of IPv4 prefixes from which a peer counts as a full feed.
pub const FULL_FEED_V4: u32 = 700000;

/// The number of IPv6 prefixes from which a peer counts as a full feed.
pub const FULL_FEED_V6: u32 = 100000;

/// The peer sends a full IPv4 or IPv6 table.
pub open spec fn full_feed(p: MrtCollectorPeer) -> bool {
    p.num_v4_pfxs >= FULL_FEED_V4 || p.num_v6_pfxs >= FULL_FEED_V6
}

impl MrtCollectorPeer {
    /// Sends a full IPv4 table.
    pub fn is_full_feed_v4(&self) -> (r: bool)
        ensures
            r == (self.num_v4_pfxs >= FULL_FEED_V4),
    {
        self.num_v4_pfxs >= FULL_FEED_V4
    }

    /// Sends a full IPv6 table.
    pub fn is_full_feed_v6(&self) -> (r: bool)
        ensures
            r == (self.num_v6_pfxs >= FULL_FEED_V6),
    {
        self.num_v6_pfxs >= FULL_FEED_V6
    }

    /// Sends a full IPv4 or IPv6 table.
    pub fn is_full_feed(&self) -> (r: bool)
        ensures
            r == full_feed(*self),
    {
        self.is_full_feed_v4() || self.is_full_feed_v6()
    }

    /// A copy of this record.
    pub fn copy(&self) -> (r: MrtCollectorPeer)
        ensures
            r == *self,
    {
        MrtCollectorPeer {
            date: self.date,
            ip: self.ip,
            asn: self.asn,
            collector: self.collector.clone(),
            num_v4_pfxs: self.num_v4_pfxs,
            num_v6_pfxs: self.num_v6_pfxs,
            num_connected_asns: self.num_connected_asns,
        }
    }
}

impl MrtCollector {
    /// A copy of this record.
    pub fn copy(&self) -> (r: MrtCollector)
        ensures
            r == *self,
    {
        MrtCollector {
            name: self.name.clone(),
            project: self.project,
            data_url: self.data_url.clone(),
            activated_on: self.activated_on,
            deactivated_on: self.deactivated_on,
            country: self.country.clone(),
        }
    }

    /// A RouteViews collector from its listing: the aggregate entry
    /// `route-views` is no collector; `route-views2` keeps its data at the
    /// archive's root, every other one under its name.
    pub fn from_routeviews(name: &str, country: &str, installed: i64, removed: Option<i64>) -> (r:
        Option<MrtCollector>)
        ensures
            r is None <==> name@ == "route-views"@,
            r matches Some(c) ==> {
                &&& c.name@ == name@
                &&& c.project == MrtCollectorProject::RouteViews
                &&& c.data_url@ == (if name@ == "route-views2"@ {
                    "http://archive.routeviews.org/bgpdata"@
                } else {
                    "http://archive.routeviews.org/"@ + name@ + "/bgpdata"@
                })
                &&& c.activated_on == installed
                &&& c.deactivated_on == removed
                &&& c.country@ == country@
            },
    {
        if same_text(name, "route-views") {
            return None;
        }
        let data_url = if same_text(name, "route-views2") {
            String::from_str("http://archive.routeviews.org/bgpdata")
        } else {
            let mut u = String::from_str("http://archive.routeviews.org/");
            u.append(name);
            u.append("/bgpdata");
            u
        };
        Some(
            MrtCollector {
                name: String::from_str(name),
                project: MrtCollectorProject::RouteViews,
                data_url,
                activated_on: installed,
                deactivated_on: removed,
                country: String::from_str(country),
            },
        )
    }

    /// A RIPE RIS collector from its lower-case name and country; its data
    /// lies under its name on the RIS archive.
    pub fn from_ris(name: &str, country: &str, activated_on: i64, deactivated_on: Option<i64>) -> (r:
        MrtCollector)
        ensures
            r.name@ == name@,
            r.project == MrtCollectorProject::RipeRis,
            r.data_url@ == "https://data.ris.ripe.net/"@ + name@,
            r.activated_on == activated_on,
            r.deactivated_on == deactivated_on,
            r.country@ == country@,
    {
        let mut data_url = String::from_str("https://data.ris.ripe.net/");
        data_url.append(name);
        MrtCollector {
            name: String::from_str(name),
            project: MrtCollectorProject::RipeRis,
            data_url,
            activated_on,
            deactivated_on,
            country: String::from_str(country),
        }
    }
}

/// A copy of a list of collectors.
pub fn copy_collectors(v: &Vec<MrtCollector>) -> (r: Vec<MrtCollector>)
    ensures
        r@ == v@,
{
    let mut r: Vec<MrtCollector> = Vec::new();
    let mut i: usize = 0;
    while i < v.len()
        invariant
            i <= v@.len(),
            r@ == v@.take(i as int),
        decreases v@.len() - i,
    {
        r.push(v[i].copy());
        assert(r@ =~= v@.take(i + 1));
        i = i + 1;
    }
    assert(v@.take(v@.len() as int) =~= v@);
    r
}

/// The first collector with this name.
pub fn find_by_name(v: &Vec<MrtCollector>, name: &str) -> (r: Option<MrtCollector>)
    ensures
        r is None <==> forall|i: int| 0 <= i < v@.len() ==> #[trigger] v@[i].name@ != name@,
        r matches Some(c) ==> exists|i: int|
            0 <= i < v@.len() && c == v@[i] && #[trigger] v@[i].name@ == name@ && forall|i2: int|
                0 <= i2 < i ==> v@[i2].name@ != name@,
{
    let mut i: usize = 0;
    while i < v.len()
        invariant
            i <= v@.len(),
            forall|j: int| 0 <= j < i ==> #[trigger] v@[j].name@ != name@,
        decreases v@.len() - i,
    {
        if same_text(v[i].name.as_str(), name) {
            return Some(v[i].copy());
        }
        i = i + 1;
    }
    None
}

/// The test of a collector's country against `country`.
pub open spec fn country_filter(country: Seq<char>) -> spec_fn(MrtCollector) -> bool {
    |c: MrtCollector| c.country@ == country
}

/// The collectors of a country, in order.
pub fn filter_by_country(v: &Vec<MrtCollector>, country: &str) -> (r: Vec<MrtCollector>)
    ensures
        r@ == v@.filter(country_filter(country@)),
{
    let mut r: Vec<MrtCollector> = Vec::new();
    let mut i: usize = 0;
    while i < v.len()
        invariant
            i <= v@.len(),
            r@ == v@.take(i as int).filter(country_filter(country@)),
        decreases v@.len() - i,
    {
        let hit = same_text(v[i].country.as_str(), country);
        if hit {
            r.push(v[i].copy());
        }
        proof {
            let t1 = v@.take(i + 1);
            assert(t1.drop_last() =~= v@.take(i as int));
            reveal(Seq::filter);
            assert(country_filter(country@)(t1.last()) == hit);
        }
        i = i + 1;
    }
    assert(v@.take(v@.len() as int) =~= v@);
    r
}

/// A copy of a list of peers.
pub fn copy_peers(v: &Vec<MrtCollectorPeer>) -> (r: Vec<MrtCollectorPeer>)
    ensures
        r@ == v@,
{
    let mut r: Vec<MrtCollectorPeer> = Vec::new();
    let mut i: usize = 0;
    while i < v.len()
        invariant
            i <= v@.len(),
            r@ == v@.take(i as int),
        decreases v@.len() - i,
    {
        r.push(v[i].copy());
        assert(r@ =~= v@.take(i + 1));
        i = i + 1;
    }
    assert(v@.take(v@.len() as int) =~= v@);
    r
}

/// The test `full_feed`.
pub open spec fn full_feed_filter() -> spec_fn(MrtCollectorPeer) -> bool {
    |p: MrtCollectorPeer| full_feed(p)
}

/// The peers that send a full table, in order.
pub fn full_feed_peers(v: &Vec<MrtCollectorPeer>) -> (r: Vec<MrtCollectorPeer>)
    ensures
        r@ == v@.filter(full_feed_filter()),
{
    let mut r: Vec<MrtCollectorPeer> = Vec::new();
    let mut i: usize = 0;
    while i < v.len()
        invariant
            i <= v@.len(),
            r@ == v@.take(i as int).filter(full_feed_filter()),
        decreases v@.len() - i,
    {
        let hit = v[i].is_full_feed();
        if hit {
            r.push(v[i].copy());
        }
        proof {
            let t1 = v@.take(i + 1);
            assert(t1.drop_last() =~= v@.take(i as int));
            reveal(Seq::filter);
            assert(full_feed_filter()(t1.last()) == hit);
        }
        i = i + 1;
    }
    assert(v@.take(v@.len() as int) =~= v@);
    r
}

} // verus!
