//! The holder of every loaded data set and the queries over them. Data is
//! fetched and read by the caller and handed over whole; a reload builds a
//! fresh value and replaces the old one.

use crate::as2rel::{As2relBgpkit, As2relBgpkitData, As2relEntry, data_of, pair_filter};
use crate::asinfo::as2org::As2org;
use crate::asinfo::peeringdb::Peeringdb;
use crate::asinfo::sibling_orgs::SiblingOrgsUtils;
use crate::asinfo::{siblings_of, AsInfoUtils};
use crate::bogons::{prefix_key_of_text, Bogons};
use crate::countries::{country_views, name_filter, Countries, Country};
use crate::errors::{BgpkitCommonsError, Module};
use crate::mrt_collectors::{
    copy_collectors, copy_peers, country_filter, filter_by_country, find_by_name, full_feed_filter,
    full_feed_peers, MrtCollector, MrtCollectorPeer,
};
use crate::prefix::IpPrefix;
use crate::rpki::rpki_client::RpkiClientData;
use crate::rpki::{merge_post, Roa, RpkiTrie, RpkiValidation};
use crate::time::Date;
use vstd::prelude::*;

verus! {

/// Every data set, each absent until loaded.
pub struct BgpkitCommons {
    countries: Option<Countries>,
    rpki_trie: Option<RpkiTrie>,
    bogons: Option<Bogons>,
    as2rel: Option<As2relBgpkit>,
    asinfo: Option<AsInfoUtils>,
    mrt_collectors: Option<Vec<MrtCollector>>,
    mrt_collector_peers: Option<Vec<MrtCollectorPeer>>,
}

/// A trie built by folding documents, in order, into an empty trie of the
/// given date.
pub open spec fn built_from_documents(t: RpkiTrie, docs: Seq<RpkiClientData>, date: Option<Date>) -> bool {
    &&& t.spec_date() == date
    &&& exists|ts: Seq<RpkiTrie>|
        {
            &&& ts.len() == docs.len() + 1
            &&& ts[0].held() == Set::<Roa>::empty()
            &&& ts[0].spec_aspas() == Seq::<crate::rpki::Aspa>::empty()
            &&& forall|i: int|
                0 <= i < docs.len() ==> merge_post(
                    #[trigger] ts[i].held(),
                    ts[i].spec_aspas(),
                    &docs[i],
                    ts[i + 1],
                )
            &&& ts[docs.len() as int] == t
        }
}

impl BgpkitCommons {
    pub closed spec fn spec_countries(self) -> Option<Countries> {
        self.countries
    }

    pub closed spec fn spec_rpki(self) -> Option<RpkiTrie> {
        self.rpki_trie
    }

    pub closed spec fn spec_bogons(self) -> Option<Bogons> {
        self.bogons
    }

    pub closed spec fn spec_as2rel(self) -> Option<As2relBgpkit> {
        self.as2rel
    }

    pub closed spec fn spec_asinfo(self) -> Option<AsInfoUtils> {
        self.asinfo
    }

    pub closed spec fn spec_mrt_collectors(self) -> Option<Seq<MrtCollector>> {
        match self.mrt_collectors {
            Some(v) => Some(v@),
            None => None,
        }
    }

    pub closed spec fn spec_mrt_collector_peers(self) -> Option<Seq<MrtCollectorPeer>> {
        match self.mrt_collector_peers {
            Some(v) => Some(v@),
            None => None,
        }
    }

    pub closed spec fn wf(self) -> bool {
        &&& (self.countries matches Some(c) ==> c.wf())
        &&& (self.rpki_trie matches Some(t) ==> t.wf())
        &&& (self.asinfo matches Some(a) ==> a.wf())
    }

    /// Whether a data set has been loaded (it may still be empty).
    pub fn has_module(&self, module: Module) -> (r: bool)
        ensures
            r == (match module {
                Module::Countries => self.spec_countries() is Some,
                Module::Rpki => self.spec_rpki() is Some,
                Module::Bogons => self.spec_bogons() is Some,
                Module::Asinfo => self.spec_asinfo() is Some,
                Module::As2rel => self.spec_as2rel() is Some,
                Module::MrtCollectors => self.spec_mrt_collectors() is Some,
                Module::MrtCollectorPeers => self.spec_mrt_collector_peers() is Some,
            }),
    {
        match module {
            Module::Countries => self.countries.is_some(),
            Module::Rpki => self.rpki_trie.is_some(),
            Module::Bogons => self.bogons.is_some(),
            Module::Asinfo => self.asinfo.is_some(),
            Module::As2rel => self.as2rel.is_some(),
            Module::MrtCollectors => self.mrt_collectors.is_some(),
            Module::MrtCollectorPeers => self.mrt_collector_peers.is_some(),
        }
    }

    /// The date of the RPKI data held: `None` when none is loaded,
    /// `Some(None)` for real-time data.
    pub fn rpki_date(&self) -> (r: Option<Option<Date>>)
        ensures
            r == (match self.spec_rpki() {
                Some(t) => Some(t.spec_date()),
                None => None::<Option<Date>>,
            }),
    {
        match &self.rpki_trie {
            Some(t) => Some(t.date()),
            None => None,
        }
    }

    /// Nothing loaded.
    pub fn new() -> (r: BgpkitCommons)
        ensures
            r.wf(),
            r.spec_countries() is None,
            r.spec_rpki() is None,
            r.spec_bogons() is None,
            r.spec_as2rel() is None,
            r.spec_asinfo() is None,
            r.spec_mrt_collectors() is None,
            r.spec_mrt_collector_peers() is None,
    {
        BgpkitCommons { countries: None, rpki_trie: None, bogons: None, as2rel: None,
            asinfo: None,
            mrt_collectors: None,
            mrt_collector_peers: None,
        }
    }

    /// The loading state of each data set, as (name, description) pairs.
    pub fn loading_status(&self) -> (r: Vec<(&'static str, &'static str)>)
        ensures
            r@.len() == 7,
            r@[0].0@ == "countries"@ && r@[0].1@ == (if self.spec_countries() matches Some(c)
                && c.entries().len() > 0 {
                "Countries data loaded"@
            } else {
                "Countries data not loaded"@
            }),
            r@[1].0@ == "bogons"@ && r@[1].1@ == (if self.spec_bogons() matches Some(b)
                && (b.prefixes@.len() > 0 || b.asns@.len() > 0) {
                "Bogons data loaded"@
            } else {
                "Bogons data not loaded"@
            }),
            r@[2].0@ == "rpki"@ && r@[2].1@ == (if self.spec_rpki() matches Some(t) && !(
            t.slots().dom() =~= Set::empty()) {
                "RPKI data loaded"@
            } else {
                "RPKI data not loaded"@
            }),
            r@[3].0@ == "asinfo"@ && r@[3].1@ == (if self.spec_asinfo() matches Some(a) && a.infos().len()
                > 0 {
                "ASInfo data loaded"@
            } else {
                "ASInfo data not loaded"@
            }),
            r@[4].0@ == "as2rel"@ && r@[4].1@ == (if self.spec_as2rel() matches Some(a) && (
            a.v4_table().len() > 0 || a.v6_table().len() > 0) {
                "AS2Rel data loaded"@
            } else {
                "AS2Rel data not loaded"@
            }),
            r@[5].0@ == "mrt_collectors"@ && r@[5].1@ == (if self.spec_mrt_collectors() is Some {
                "MRT collectors data loaded"@
            } else {
                "MRT collectors data not loaded"@
            }),
            r@[6].0@ == "mrt_collector_peers"@ && r@[6].1@ == (if self.spec_mrt_collector_peers() is Some {
                "MRT collector peers data loaded"@
            } else {
                "MRT collector peers data not loaded"@
            }),
    {
        let mut status: Vec<(&'static str, &'static str)> = Vec::new();
        let c = match &self.countries {
            Some(c) => if c.is_loaded() {
                "Countries data loaded"
            } else {
                "Countries data not loaded"
            },
            None => "Countries data not loaded",
        };
        status.push(("countries", c));
        let b = match &self.bogons {
            Some(b) => if b.prefixes.len() > 0 || b.asns.len() > 0 {
                "Bogons data loaded"
            } else {
                "Bogons data not loaded"
            },
            None => "Bogons data not loaded",
        };
        status.push(("bogons", b));
        let t = match &self.rpki_trie {
            Some(t) => t.loading_status(),
            None => "RPKI data not loaded",
        };
        status.push(("rpki", t));
        let i = match &self.asinfo {
            Some(u) => if u.is_loaded() {
                "ASInfo data loaded"
            } else {
                "ASInfo data not loaded"
            },
            None => "ASInfo data not loaded",
        };
        status.push(("asinfo", i));
        let a = match &self.as2rel {
            Some(a) => if a.is_loaded() {
                "AS2Rel data loaded"
            } else {
                "AS2Rel data not loaded"
            },
            None => "AS2Rel data not loaded",
        };
        status.push(("as2rel", a));
        let m = match &self.mrt_collectors {
            Some(_) => "MRT collectors data loaded",
            None => "MRT collectors data not loaded",
        };
        status.push(("mrt_collectors", m));
        let p = match &self.mrt_collector_peers {
            Some(_) => "MRT collector peers data loaded",
            None => "MRT collector peers data not loaded",
        };
        status.push(("mrt_collector_peers", p));
        status
    }

    /// Takes the route collectors.
    pub fn load_mrt_collectors(&mut self, collectors: Vec<MrtCollector>)
        ensures
            final(self).wf() == old(self).wf(),
            final(self).spec_mrt_collectors() == Some(collectors@),
            final(self).spec_mrt_collector_peers() == old(self).spec_mrt_collector_peers(),
    {
        self.mrt_collectors = Some(collectors);
    }

    /// Takes the collector peers.
    pub fn load_mrt_collector_peers(&mut self, peers: Vec<MrtCollectorPeer>)
        ensures
            final(self).wf() == old(self).wf(),
            final(self).spec_mrt_collector_peers() == Some(peers@),
            final(self).spec_mrt_collectors() == old(self).spec_mrt_collectors(),
    {
        self.mrt_collector_peers = Some(peers);
    }

    /// Every route collector; an error when they are not loaded.
    pub fn mrt_collectors_all(&self) -> (r: Result<Vec<MrtCollector>, BgpkitCommonsError>)
        ensures
            self.spec_mrt_collectors() is None ==> r == Err::<Vec<MrtCollector>, BgpkitCommonsError>(
                BgpkitCommonsError::ModuleNotLoaded(Module::MrtCollectors),
            ),
            self.spec_mrt_collectors() matches Some(v) ==> r matches Ok(x) && x@ == v,
    {
        match &self.mrt_collectors {
            None => Err(BgpkitCommonsError::ModuleNotLoaded(Module::MrtCollectors)),
            Some(v) => Ok(copy_collectors(v)),
        }
    }

    /// The first collector with this name; an error when collectors are not
    /// loaded.
    pub fn mrt_collectors_by_name(&self, name: &str) -> (r: Result<Option<MrtCollector>, BgpkitCommonsError>)
        ensures
            self.spec_mrt_collectors() is None ==> r == Err::<Option<MrtCollector>, BgpkitCommonsError>(
                BgpkitCommonsError::ModuleNotLoaded(Module::MrtCollectors),
            ),
            self.spec_mrt_collectors() matches Some(v) ==> r matches Ok(o) && (o is None <==> forall|
                i: int,
            | 0 <= i < v.len() ==> #[trigger] v[i].name@ != name@) && (o matches Some(c) ==> exists|
                i: int,
            |
                0 <= i < v.len() && c == v[i] && #[trigger] v[i].name@ == name@ && forall|i2: int|
                    0 <= i2 < i ==> v[i2].name@ != name@),
    {
        match &self.mrt_collectors {
            None => Err(BgpkitCommonsError::ModuleNotLoaded(Module::MrtCollectors)),
            Some(v) => Ok(find_by_name(v, name)),
        }
    }

    /// The collectors of a country; `None` when collectors are not loaded.
    pub fn mrt_collectors_by_country(&self, country: &str) -> (r: Option<Vec<MrtCollector>>)
        ensures
            self.spec_mrt_collectors() is None ==> r is None,
            self.spec_mrt_collectors() matches Some(v) ==> r matches Some(x) && x@ == v.filter(
                country_filter(country@),
            ),
    {
        match &self.mrt_collectors {
            None => None,
            Some(v) => Some(filter_by_country(v, country)),
        }
    }

    /// Every collector peer; an error when they are not loaded.
    pub fn mrt_collector_peers_all(&self) -> (r: Result<Vec<MrtCollectorPeer>, BgpkitCommonsError>)
        ensures
            self.spec_mrt_collector_peers() is None ==> r == Err::<Vec<MrtCollectorPeer>, BgpkitCommonsError>(
                BgpkitCommonsError::ModuleNotLoaded(Module::MrtCollectorPeers),
            ),
            self.spec_mrt_collector_peers() matches Some(v) ==> r matches Ok(x) && x@ == v,
    {
        match &self.mrt_collector_peers {
            None => Err(BgpkitCommonsError::ModuleNotLoaded(Module::MrtCollectorPeers)),
            Some(v) => Ok(copy_peers(v)),
        }
    }

    /// The peers that send a full table; an error when peers are not loaded.
    pub fn mrt_collector_peers_full_feed(&self) -> (r: Result<Vec<MrtCollectorPeer>, BgpkitCommonsError>)
        ensures
            self.spec_mrt_collector_peers() is None ==> r == Err::<Vec<MrtCollectorPeer>, BgpkitCommonsError>(
                BgpkitCommonsError::ModuleNotLoaded(Module::MrtCollectorPeers),
            ),
            self.spec_mrt_collector_peers() matches Some(v) ==> r matches Ok(x) && x@ == v.filter(
                full_feed_filter(),
            ),
    {
        match &self.mrt_collector_peers {
            None => Err(BgpkitCommonsError::ModuleNotLoaded(Module::MrtCollectorPeers)),
            Some(v) => Ok(full_feed_peers(v)),
        }
    }

    /// Reads the GeoNames country file (see `Countries::from_lines`) and,
    /// when it is well formed, replaces the countries held.
    pub fn load_countries(&mut self, lines: &Vec<String>) -> (r: Result<(), BgpkitCommonsError>)
        requires
            old(self).wf(),
        ensures
            final(self).wf(),
            r is Ok <==> crate::countries::country_lines_ok(lines@.map_values(|s: String| s@)),
            r is Err ==> r->Err_0 is MissingFields
                && final(self).spec_countries() == old(self).spec_countries(),
            r is Ok ==> (final(self).spec_countries() matches Some(c) && c.entries()
                == crate::countries::insert_countries(
                Seq::empty(),
                crate::countries::countries_of_lines(lines@.map_values(|s: String| s@)),
            )),
            final(self).spec_rpki() == old(self).spec_rpki(),
            final(self).spec_bogons() == old(self).spec_bogons(),
            final(self).spec_as2rel() == old(self).spec_as2rel(),
            final(self).spec_asinfo() == old(self).spec_asinfo(),
    {
        match Countries::from_lines(lines) {
            Ok(c) => {
                self.countries = Some(c);
                Ok(())
            },
            Err(e) => Err(e),
        }
    }

    /// Builds the RPKI trie from documents, folded in order, and replaces
    /// the one held.
    pub fn load_rpki(&mut self, docs: &Vec<RpkiClientData>, date: Option<Date>)
        requires
            old(self).wf(),
        ensures
            final(self).wf(),
            final(self).spec_rpki() matches Some(t) && built_from_documents(t, docs@, date),
            final(self).spec_countries() == old(self).spec_countries(),
            final(self).spec_bogons() == old(self).spec_bogons(),
            final(self).spec_as2rel() == old(self).spec_as2rel(),
            final(self).spec_asinfo() == old(self).spec_asinfo(),
    {
        let mut trie = RpkiTrie::new(date);
        let ghost mut ts: Seq<RpkiTrie> = seq![trie];
        let mut i: usize = 0;
        while i < docs.len()
            invariant
                i <= docs@.len(),
                trie.wf(),
                trie.spec_date() == date,
                ts.len() == i + 1,
                ts[0].held() == Set::<Roa>::empty(),
                ts[0].spec_aspas() == Seq::<crate::rpki::Aspa>::empty(),
                forall|j: int|
                    0 <= j < i ==> merge_post(
                        #[trigger] ts[j].held(),
                        ts[j].spec_aspas(),
                        &docs@[j],
                        ts[j + 1],
                    ),
                ts[i as int] == trie,
            decreases docs@.len() - i,
        {
            trie.merge_rpki_client_data(&docs[i]);
            proof {
                let ts0 = ts;
                ts = ts.push(trie);
                assert forall|j: int|
                    0 <= j < i + 1 implies merge_post(
                        #[trigger] ts[j].held(),
                        ts[j].spec_aspas(),
                        &docs@[j],
                        ts[j + 1],
                    ) by {
                    assert(ts[j] == ts0[j]);
                    if j < i {
                        assert(ts[j + 1] == ts0[j + 1]);
                    }
                }
            }
            i = i + 1;
        }
        self.rpki_trie = Some(trie);
    }

    /// Takes the reserved networks and AS numbers.
    pub fn load_bogons(&mut self, bogons: Bogons)
        requires
            old(self).wf(),
        ensures
            final(self).wf(),
            final(self).spec_bogons() == Some(bogons),
            final(self).spec_countries() == old(self).spec_countries(),
            final(self).spec_rpki() == old(self).spec_rpki(),
            final(self).spec_as2rel() == old(self).spec_as2rel(),
            final(self).spec_asinfo() == old(self).spec_asinfo(),
    {
        self.bogons = Some(bogons);
    }

    /// Builds the relationship tables from the entries of each family.
    pub fn load_as2rel(&mut self, v4: &Vec<As2relEntry>, v6: &Vec<As2relEntry>)
        requires
            old(self).wf(),
        ensures
            final(self).wf(),
            final(self).spec_as2rel() matches Some(a) && a.v4_table()
                == crate::as2rel::relationship_table(v4@) && a.v6_table()
                == crate::as2rel::relationship_table(v6@) && a.v4_max() == crate::as2rel::max_peers(
                v4@,
            ) && a.v6_max() == crate::as2rel::max_peers(v6@),
            final(self).spec_countries() == old(self).spec_countries(),
            final(self).spec_rpki() == old(self).spec_rpki(),
            final(self).spec_bogons() == old(self).spec_bogons(),
            final(self).spec_asinfo() == old(self).spec_asinfo(),
    {
        self.as2rel = Some(As2relBgpkit::new(v4, v6));
    }

    /// Joins the AS name list with the organisation and PeeringDB data given
    /// (see `AsInfoUtils::new`) and replaces the AS information held.
    pub fn load_asinfo(
        &mut self,
        lines: &Vec<String>,
        as2org: Option<&As2org>,
        peeringdb: Option<&Peeringdb>,
        sibling_orgs: Option<SiblingOrgsUtils>,
    )
        requires
            old(self).wf(),
            as2org matches Some(a) ==> a.wf(),
        ensures
            final(self).wf(),
            final(self).spec_asinfo() matches Some(u) && u.spec_load_as2org() == as2org is Some
                && u.spec_load_peeringdb() == peeringdb is Some && u.spec_sibling_orgs() == sibling_orgs,
            final(self).spec_countries() == old(self).spec_countries(),
            final(self).spec_rpki() == old(self).spec_rpki(),
            final(self).spec_bogons() == old(self).spec_bogons(),
            final(self).spec_as2rel() == old(self).spec_as2rel(),
    {
        self.asinfo = Some(AsInfoUtils::new(lines, as2org, peeringdb, sibling_orgs));
    }

    /// Whether two AS numbers belong to the same or to sibling
    /// organisations; an error when AS information is not loaded, or was
    /// loaded without organisation data.
    pub fn asinfo_are_siblings(&self, asn1: u32, asn2: u32) -> (r: Result<bool, BgpkitCommonsError>)
        requires
            self.wf(),
        ensures
            self.spec_asinfo() is None ==> r == Err::<bool, BgpkitCommonsError>(
                BgpkitCommonsError::ModuleNotLoaded(Module::Asinfo),
            ),
            self.spec_asinfo() matches Some(u) ==> (if !u.spec_load_as2org() {
                r == Err::<bool, BgpkitCommonsError>(BgpkitCommonsError::ModuleNotConfigured(Module::Asinfo))
            } else {
                r == Ok::<bool, BgpkitCommonsError>(
                    siblings_of(u.info(asn1), u.info(asn2), u.spec_sibling_orgs()),
                )
            }),
    {
        match &self.asinfo {
            None => Err(BgpkitCommonsError::ModuleNotLoaded(Module::Asinfo)),
            Some(u) => {
                if !u.load_as2org() {
                    return Err(BgpkitCommonsError::ModuleNotConfigured(Module::Asinfo));
                }
                Ok(u.are_siblings(asn1, asn2))
            },
        }
    }

    /// Every country record; an error when countries are not loaded.
    pub fn country_all(&self) -> (r: Result<Vec<Country>, BgpkitCommonsError>)
        ensures
            self.spec_countries() is None ==> r == Err::<Vec<Country>, BgpkitCommonsError>(
                BgpkitCommonsError::ModuleNotLoaded(Module::Countries),
            ),
            self.spec_countries() matches Some(c) ==> r matches Ok(v) && country_views(v@)
                == c.entries(),
    {
        match &self.countries {
            None => Err(BgpkitCommonsError::ModuleNotLoaded(Module::Countries)),
            Some(c) => Ok(c.all_countries()),
        }
    }

    /// The country with this two-letter code; an error when countries are
    /// not loaded.
    pub fn country_by_code(&self, code: &str) -> (r: Result<Option<Country>, BgpkitCommonsError>)
        requires
            self.wf(),
        ensures
            self.spec_countries() is None ==> r == Err::<Option<Country>, BgpkitCommonsError>(
                BgpkitCommonsError::ModuleNotLoaded(Module::Countries),
            ),
            self.spec_countries() matches Some(c) ==> r matches Ok(o) && (o is Some <==> exists|
                i: int,
            | 0 <= i < c.entries().len() && #[trigger] c.entries()[i].code == code@) && (o matches Some(
                x,
            ) ==> exists|i: int|
                0 <= i < c.entries().len() && #[trigger] c.entries()[i].code == code@ && x@
                    == c.entries()[i]),
    {
        match &self.countries {
            None => Err(BgpkitCommonsError::ModuleNotLoaded(Module::Countries)),
            Some(c) => Ok(c.lookup_by_code(code)),
        }
    }

    /// The countries whose name holds `name`, ignoring letter case; an
    /// error when countries are not loaded.
    pub fn country_by_name(&self, name: &str) -> (r: Result<Vec<Country>, BgpkitCommonsError>)
        ensures
            self.spec_countries() is None ==> r == Err::<Vec<Country>, BgpkitCommonsError>(
                BgpkitCommonsError::ModuleNotLoaded(Module::Countries),
            ),
            self.spec_countries() matches Some(c) ==> r matches Ok(v) && country_views(v@)
                == c.entries().filter(name_filter(name@)),
    {
        match &self.countries {
            None => Err(BgpkitCommonsError::ModuleNotLoaded(Module::Countries)),
            Some(c) => Ok(c.lookup_by_name(name)),
        }
    }

    /// The same lookup as `country_by_code`: records are keyed by their
    /// two-letter code.
    pub fn country_by_code3(&self, code: &str) -> (r: Result<Option<Country>, BgpkitCommonsError>)
        requires
            self.wf(),
        ensures
            self.spec_countries() is None ==> r == Err::<Option<Country>, BgpkitCommonsError>(
                BgpkitCommonsError::ModuleNotLoaded(Module::Countries),
            ),
            self.spec_countries() matches Some(c) ==> r matches Ok(o) && (o is Some <==> exists|
                i: int,
            | 0 <= i < c.entries().len() && #[trigger] c.entries()[i].code == code@) && (o matches Some(
                x,
            ) ==> exists|i: int|
                0 <= i < c.entries().len() && #[trigger] c.entries()[i].code == code@ && x@
                    == c.entries()[i]),
    {
        self.country_by_code(code)
    }

    /// The RPKI records covering the network written in `prefix`; an error
    /// when RPKI data is not loaded or the text is no network.
    pub fn rpki_lookup_by_prefix(&self, prefix: &str) -> (r: Result<Vec<Roa>, BgpkitCommonsError>)
        requires
            self.wf(),
        ensures
            self.spec_rpki() is None ==> r == Err::<Vec<Roa>, BgpkitCommonsError>(
                BgpkitCommonsError::ModuleNotLoaded(Module::Rpki),
            ),
            self.spec_rpki() is Some && prefix_key_of_text(prefix@) is None ==> (r matches Err(BgpkitCommonsError::InvalidPrefix(t)) && t@ == prefix@),
            self.spec_rpki() is Some && prefix_key_of_text(prefix@) is Some ==> (r matches Ok(v)
                && exists|q: IpPrefix|
                q.key() == prefix_key_of_text(prefix@)->Some_0 && forall|x: Roa|
                    v@.contains(x) <==> self.spec_rpki()->Some_0.matching(x, q)),
    {
        match &self.rpki_trie {
            None => Err(BgpkitCommonsError::ModuleNotLoaded(Module::Rpki)),
            Some(t) => match IpPrefix::parse(prefix) {
                None => Err(BgpkitCommonsError::InvalidPrefix(String::from_str(prefix))),
                Some(q) => Ok(t.lookup_by_prefix(&q)),
            },
        }
    }

    /// Validates origin `asn` for the network written in `prefix`; an error
    /// when RPKI data is not loaded or the text is no network.
    pub fn rpki_validate(&self, asn: u32, prefix: &str) -> (r: Result<RpkiValidation, BgpkitCommonsError>)
        requires
            self.wf(),
        ensures
            self.spec_rpki() is None ==> r == Err::<RpkiValidation, BgpkitCommonsError>(
                BgpkitCommonsError::ModuleNotLoaded(Module::Rpki),
            ),
            self.spec_rpki() is Some && prefix_key_of_text(prefix@) is None ==> (r matches Err(BgpkitCommonsError::InvalidPrefix(t)) && t@ == prefix@),
            self.spec_rpki() is Some && prefix_key_of_text(prefix@) is Some ==> exists|
                q: IpPrefix,
            |
                q.key() == prefix_key_of_text(prefix@)->Some_0 && r == Ok::<
                    RpkiValidation,
                    BgpkitCommonsError,
                >(self.spec_rpki()->Some_0.validation_outcome(q, asn)),
    {
        match &self.rpki_trie {
            None => Err(BgpkitCommonsError::ModuleNotLoaded(Module::Rpki)),
            Some(t) => match IpPrefix::parse(prefix) {
                None => Err(BgpkitCommonsError::InvalidPrefix(String::from_str(prefix))),
                Some(q) => Ok(t.validate(&q, asn)),
            },
        }
    }

    /// Validates origin `asn` for the network written in `prefix` at
    /// `check_time` (now when absent), as `RpkiTrie::validate_check_expiry`
    /// does; an error when RPKI data is not loaded or the text is no
    /// network.
    pub fn rpki_validate_check_expiry(&self, asn: u32, prefix: &str, check_time: Option<i64>) -> (r:
        Result<RpkiValidation, BgpkitCommonsError>)
        requires
            self.wf(),
        ensures
            self.spec_rpki() is None ==> r == Err::<RpkiValidation, BgpkitCommonsError>(
                BgpkitCommonsError::ModuleNotLoaded(Module::Rpki),
            ),
            self.spec_rpki() is Some && prefix_key_of_text(prefix@) is None ==> (r matches Err(BgpkitCommonsError::InvalidPrefix(t)) && t@ == prefix@),
            self.spec_rpki() is Some && prefix_key_of_text(prefix@) is Some ==> exists|
                q: IpPrefix,
                tm: i64,
            |
                q.key() == prefix_key_of_text(prefix@)->Some_0 && (check_time matches Some(c) ==> tm
                    == c) && r == Ok::<RpkiValidation, BgpkitCommonsError>(
                    self.spec_rpki()->Some_0.expiry_outcome(q, asn, tm),
                ),
    {
        match &self.rpki_trie {
            None => Err(BgpkitCommonsError::ModuleNotLoaded(Module::Rpki)),
            Some(t) => match IpPrefix::parse(prefix) {
                None => Err(BgpkitCommonsError::InvalidPrefix(String::from_str(prefix))),
                Some(q) => {
                    let v = t.validate_check_expiry(&q, asn, check_time);
                    proof {
                        if let Some(c) = check_time {
                            assert(v == t.expiry_outcome(q, asn, c));
                        } else {
                            let tm = choose|tm: i64| v == t.expiry_outcome(q, asn, tm);
                        }
                    }
                    Ok(v)
                },
            },
        }
    }

    /// Tests a text against the reserved networks and AS numbers; `None`
    /// when bogons are not loaded.
    pub fn bogons_match(&self, s: &str) -> (r: Option<bool>)
        ensures
            r == (match self.spec_bogons() {
                Some(b) => Some(b.spec_matches_text(s@)),
                None => None::<bool>,
            }),
    {
        match &self.bogons {
            Some(b) => Some(b.matches_str(s)),
            None => None,
        }
    }

    /// Tests the network written in `prefix`; `None` when the text is no
    /// network or bogons are not loaded.
    pub fn bogons_match_prefix(&self, prefix: &str) -> (r: Option<bool>)
        ensures
            r == (match (self.spec_bogons(), prefix_key_of_text(prefix@)) {
                (Some(b), Some(k)) => Some(b.key_is_bogon(k)),
                _ => None::<bool>,
            }),
    {
        let p = match IpPrefix::parse(prefix) {
            Some(p) => p,
            None => return None,
        };
        match &self.bogons {
            Some(b) => Some(b.is_bogon_prefix(&p)),
            None => None,
        }
    }

    /// Tests an AS number; `None` when bogons are not loaded.
    pub fn bogons_match_asn(&self, asn: u32) -> (r: Option<bool>)
        ensures
            r == (match self.spec_bogons() {
                Some(b) => Some(b.spec_is_bogon_asn(asn)),
                None => None::<bool>,
            }),
    {
        match &self.bogons {
            Some(b) => Some(b.is_bogon_asn(asn)),
            None => None,
        }
    }

    /// The same test as `bogons_match`.
    pub fn bogon_matches_str(&self, s: &str) -> (r: Option<bool>)
        ensures
            r == (match self.spec_bogons() {
                Some(b) => Some(b.spec_matches_text(s@)),
                None => None::<bool>,
            }),
    {
        self.bogons_match(s)
    }

    /// The same test as `bogons_match_prefix`.
    pub fn bogon_is_bogon_prefix(&self, prefix: &str) -> (r: Option<bool>)
        ensures
            r == (match (self.spec_bogons(), prefix_key_of_text(prefix@)) {
                (Some(b), Some(k)) => Some(b.key_is_bogon(k)),
                _ => None::<bool>,
            }),
    {
        self.bogons_match_prefix(prefix)
    }

    /// The same test as `bogons_match_asn`.
    pub fn bogon_is_bogon_asn(&self, asn: u32) -> (r: Option<bool>)
        ensures
            r == (match self.spec_bogons() {
                Some(b) => Some(b.spec_is_bogon_asn(asn)),
                None => None::<bool>,
            }),
    {
        self.bogons_match_asn(asn)
    }

    /// The relationships of `asn1` to `asn2`, IPv4 then IPv6; an error when
    /// relationships are not loaded.
    pub fn as2rel_lookup(&self, asn1: u32, asn2: u32) -> (r: Result<
        (Vec<As2relBgpkitData>, Vec<As2relBgpkitData>),
        BgpkitCommonsError,
    >)
        ensures
            self.spec_as2rel() is None ==> r is Err && r->Err_0 == BgpkitCommonsError::ModuleNotLoaded(
                Module::As2rel,
            ),
            self.spec_as2rel() matches Some(a) ==> r matches Ok(p) && p.0@ == a.v4_table().filter(
                pair_filter(asn1, asn2),
            ).map_values(|e: As2relEntry| data_of(e, a.v4_max())) && p.1@ == a.v6_table().filter(
                pair_filter(asn1, asn2),
            ).map_values(|e: As2relEntry| data_of(e, a.v6_max())),
    {
        match &self.as2rel {
            None => Err(BgpkitCommonsError::ModuleNotLoaded(Module::As2rel)),
            Some(a) => Ok(a.lookup_pair(asn1, asn2)),
        }
    }

    /// The same lookup as `as2rel_lookup`.
    pub fn as2rel_lookup_pair(&self, asn1: u32, asn2: u32) -> (r: Result<
        (Vec<As2relBgpkitData>, Vec<As2relBgpkitData>),
        BgpkitCommonsError,
    >)
        ensures
            self.spec_as2rel() is None ==> r is Err && r->Err_0 == BgpkitCommonsError::ModuleNotLoaded(
                Module::As2rel,
            ),
            self.spec_as2rel() matches Some(a) ==> r matches Ok(p) && p.0@ == a.v4_table().filter(
                pair_filter(asn1, asn2),
            ).map_values(|e: As2relEntry| data_of(e, a.v4_max())) && p.1@ == a.v6_table().filter(
                pair_filter(asn1, asn2),
            ).map_values(|e: As2relEntry| data_of(e, a.v6_max())),
    {
        self.as2rel_lookup(asn1, asn2)
    }
}

} // verus!
