//! Information about autonomous systems: the RIPE NCC name list joined with
//! CAIDA's AS to organisation mapping and PeeringDB records, and sibling
//! organisations.

pub mod as2org;
pub mod peeringdb;
pub mod sibling_orgs;

use crate::text::{parse_u32, same_text, u32_from_text};
use as2org::As2org;
use peeringdb::{Peeringdb, PeeringdbData};
use sibling_orgs::{siblings_in, SiblingOrgsUtils};
use vstd::prelude::*;

verus! {

/// The organisation of an AS.
#[derive(Clone, Debug)]
pub struct As2orgInfo {
    pub name: String,
    pub country: String,
    pub org_id: String,
    pub org_name: String,
}

/// What is known of one AS.
#[derive(Clone, Debug)]
pub struct AsInfo {
    pub asn: u32,
    pub name: String,
    pub country: String,
    pub as2org: Option<As2orgInfo>,
    pub peeringdb: Option<PeeringdbData>,
}

/// Position `i` holds the first space of `s`.
pub open spec fn first_space(s: Seq<char>, i: int) -> bool {
    0 <= i < s.len() && s[i] == ' ' && forall|j: int| 0 <= j < i ==> s[j] != ' '
}

/// Position `k` holds the last `, ` of `s`.
pub open spec fn last_comma_space(s: Seq<char>, k: int) -> bool {
    &&& 0 <= k && k + 1 < s.len()
    &&& s[k] == ',' && s[k + 1] == ' '
    &&& forall|j: int| k < j && j + 1 < s.len() ==> !(#[trigger] s[j] == ',' && s[j + 1] == ' ')
}

/// A line of the AS name list, `<asn> <name>, <country>`: the number before
/// the first space, the country after the last `, `.
pub open spec fn asn_line_fields(line: Seq<char>, asn: u32, name: Seq<char>, country: Seq<char>) -> bool {
    exists|i: int, k: int|
        #[trigger] first_space(line, i) && #[trigger] last_comma_space(line.skip(i + 1), k) && u32_from_text(line.take(i))
            == Some(asn) && name == line.skip(i + 1).take(k) && country == line.skip(i + 1).skip(k + 2)
}

/// Splits a line of the AS name list; `None` when it has no space, no `, `
/// after it, or no decimal AS number before it.
pub fn parse_asn_line(line: &str) -> (r: Option<(u32, String, String)>)
    ensures
        r matches Some(t) ==> asn_line_fields(line@, t.0, t.1@, t.2@),
        r is None ==> forall|a: u32, n: Seq<char>, c: Seq<char>| !asn_line_fields(line@, a, n, c),
{
    let len = line.unicode_len();
    let mut i: usize = 0;
    while i < len && line.get_char(i) != ' '
        invariant
            len == line@.len(),
            i <= len,
            forall|j: int| 0 <= j < i ==> line@[j] != ' ',
        decreases len - i,
    {
        i = i + 1;
    }
    if i == len {
        proof {
            assert forall|a: u32, n: Seq<char>, c: Seq<char>| !asn_line_fields(line@, a, n, c) by {
                assert forall|i2: int| !first_space(line@, i2) by {}
            }
        }
        return None;
    }
    let asn_text = line.substring_char(0, i);
    let rest = line.substring_char(i + 1, len);
    assert(rest@ =~= line@.skip(i + 1));
    assert(asn_text@ =~= line@.take(i as int));
    assert(first_space(line@, i as int));
    let rlen = rest.unicode_len();
    let mut k: usize = rlen;
    let mut found = false;
    while k >= 2 && !found
        invariant
            rlen == rest@.len(),
            k <= rlen,
            found ==> k + 1 < rlen && rest@[k as int] == ',' && rest@[k + 1] == ' ',
            forall|j: int|
                (if found {
                    k < j
                } else {
                    k <= j + 1
                }) && j + 1 < rlen ==> !(#[trigger] rest@[j] == ',' && rest@[j + 1] == ' '),
        decreases k + (if found { 0int } else { 1int }),
    {
        if rest.get_char(k - 2) == ',' && rest.get_char(k - 1) == ' ' {
            found = true;
            k = k - 2;
        } else {
            k = k - 1;
        }
    }
    if !found {
        proof {
            assert forall|a: u32, n: Seq<char>, c: Seq<char>| !asn_line_fields(line@, a, n, c) by {
                assert forall|i2: int, k2: int|
                    !(#[trigger] first_space(line@, i2) && #[trigger] last_comma_space(line@.skip(i2 + 1), k2)) by {
                    if first_space(line@, i2) {
                        assert(i2 == i);
                    }
                }
            }
        }
        return None;
    }
    assert(last_comma_space(rest@, k as int));
    let name = rest.substring_char(0, k);
    let country = rest.substring_char(k + 2, rlen);
    match parse_u32(asn_text) {
        Some(asn) => {
            let n = name.to_owned();
            let c = country.to_owned();
            assert(n@ =~= line@.skip(i + 1).take(k as int));
            assert(c@ =~= line@.skip(i + 1).skip(k + 2));
            Some((asn, n, c))
        },
        None => {
            proof {
                assert forall|a: u32, n: Seq<char>, c: Seq<char>| !asn_line_fields(line@, a, n, c) by {
                    assert forall|i2: int|
                        !(#[trigger] first_space(line@, i2) && u32_from_text(line@.take(i2)) == Some(a)) by {
                        if first_space(line@, i2) {
                            assert(i2 == i);
                        }
                    }
                }
            }
            None
        },
    }
}

/// The organisation fields of `info` are those of the AS record of `asn`
/// and of its organisation record in `a`.
pub open spec fn org_info_of(a: As2org, asn: u32, info: As2orgInfo) -> bool {
    &&& a.as_record(asn) matches Some(ar)
    &&& a.org_record(ar.org_id) matches Some(or)
    &&& info.name@ == ar.name
    &&& info.org_id@ == ar.org_id
    &&& info.country@ == or.country
    &&& info.org_name@ == or.name
}

/// The AS information of all numbers of the RIPE NCC name list, joined with
/// the organisation and PeeringDB data that were loaded.
pub struct AsInfoUtils {
    asinfo: Vec<AsInfo>,
    sibling_orgs: Option<SiblingOrgsUtils>,
    load_as2org: bool,
    load_peeringdb: bool,
}

impl AsInfo {
    /// The best name: the PeeringDB name, else a non-empty organisation
    /// name, else the listed name.
    pub fn get_preferred_name(&self) -> (r: String)
        ensures
            r@ == (match self.peeringdb {
                Some(p) if p.name is Some => p.name->Some_0@,
                _ => match self.as2org {
                    Some(o) if o.org_name@.len() > 0 => o.org_name@,
                    _ => self.name@,
                },
            }),
    {
        if let Some(p) = &self.peeringdb {
            if let Some(n) = &p.name {
                return n.clone();
            }
        }
        if let Some(o) = &self.as2org {
            if o.org_name.unicode_len() > 0 {
                return o.org_name.clone();
            }
        }
        self.name.clone()
    }
}

impl AsInfoUtils {
    /// The AS information, one per AS number.
    pub closed spec fn infos(self) -> Seq<AsInfo> {
        self.asinfo@
    }

    pub closed spec fn spec_sibling_orgs(self) -> Option<SiblingOrgsUtils> {
        self.sibling_orgs
    }

    pub closed spec fn spec_load_as2org(self) -> bool {
        self.load_as2org
    }

    pub closed spec fn spec_load_peeringdb(self) -> bool {
        self.load_peeringdb
    }

    /// Whether organisation data was joined in.
    pub fn load_as2org(&self) -> (r: bool)
        ensures
            r == self.spec_load_as2org(),
    {
        self.load_as2org
    }

    /// Whether PeeringDB data was joined in.
    pub fn load_peeringdb(&self) -> (r: bool)
        ensures
            r == self.spec_load_peeringdb(),
    {
        self.load_peeringdb
    }

    pub closed spec fn wf(self) -> bool {
        forall|i: int, j: int|
            0 <= i < self.asinfo@.len() && 0 <= j < self.asinfo@.len() && i != j
                ==> #[trigger] self.asinfo@[i].asn != #[trigger] self.asinfo@[j].asn
    }

    /// The information of `asn`, if listed.
    pub open spec fn info(self, asn: u32) -> Option<AsInfo> {
        if exists|i: int| 0 <= i < self.infos().len() && #[trigger] self.infos()[i].asn == asn {
            let i = choose|i: int| 0 <= i < self.infos().len() && #[trigger] self.infos()[i].asn == asn;
            Some(self.infos()[i])
        } else {
            None
        }
    }

    fn put(&mut self, info: AsInfo)
        requires
            old(self).wf(),
        ensures
            final(self).wf(),
            final(self).sibling_orgs == old(self).sibling_orgs,
            final(self).load_as2org == old(self).load_as2org,
            final(self).load_peeringdb == old(self).load_peeringdb,
            forall|x: AsInfo| #[trigger] final(self).asinfo@.contains(x) ==> x == info || (
            old(self).asinfo@.contains(x) && x.asn != info.asn),
            final(self).asinfo@.contains(info),
            forall|x: AsInfo|
                #[trigger] old(self).asinfo@.contains(x) && x.asn != info.asn
                    ==> final(self).asinfo@.contains(x),
    {
        let mut j: usize = 0;
        while j < self.asinfo.len()
            invariant
                *self == *old(self),
                old(self).wf(),
                j <= self.asinfo@.len(),
                forall|m: int| 0 <= m < j ==> #[trigger] self.asinfo@[m].asn != info.asn,
            decreases self.asinfo@.len() - j,
        {
            if self.asinfo[j].asn == info.asn {
                let ghost pre = self.asinfo@;
                self.asinfo.set(j, info);
                proof {
                    assert(self.asinfo@ == pre.update(j as int, info));
                    assert(self.asinfo@[j as int] == info);
                    assert forall|x: AsInfo| #[trigger] self.asinfo@.contains(x) implies x == info || (
                    pre.contains(x) && x.asn != info.asn) by {
                        let m = self.asinfo@.index_of(x);
                        if m != j {
                            assert(pre[m] == x);
                            assert(pre[m].asn != pre[j as int].asn);
                        }
                    }
                    assert forall|x: AsInfo| #[trigger] pre.contains(x) && x.asn != info.asn implies self.asinfo@.contains(
                        x,
                    ) by {
                        let m = pre.index_of(x);
                        assert(m != j);
                        assert(self.asinfo@[m] == x);
                    }
                }
                return;
            }
            j = j + 1;
        }
        let ghost pre = self.asinfo@;
        self.asinfo.push(info);
        proof {
            assert(self.asinfo@[pre.len() as int] == info);
            assert forall|x: AsInfo| #[trigger] self.asinfo@.contains(x) implies x == info || (
            pre.contains(x) && x.asn != info.asn) by {
                let m = self.asinfo@.index_of(x);
                if m < pre.len() {
                    assert(pre[m] == x);
                }
            }
            assert forall|x: AsInfo| #[trigger] pre.contains(x) && x.asn != info.asn implies self.asinfo@.contains(
                x,
            ) by {
                let m = pre.index_of(x);
                assert(self.asinfo@[m] == x);
            }
        }
    }

    /// Joins the lines of the AS name list with the organisation and
    /// PeeringDB data given. Lines that do not split into number, name and
    /// country are skipped; of lines with the same number the last wins.
    pub fn new(
        lines: &Vec<String>,
        as2org: Option<&As2org>,
        peeringdb: Option<&Peeringdb>,
        sibling_orgs: Option<SiblingOrgsUtils>,
    ) -> (r: AsInfoUtils)
        requires
            as2org matches Some(a) ==> a.wf(),
        ensures
            r.wf(),
            r.spec_load_as2org() == as2org is Some,
            r.spec_load_peeringdb() == peeringdb is Some,
            r.spec_sibling_orgs() == sibling_orgs,
            forall|i: int|
                0 <= i < r.infos().len() ==> {
                    let e = #[trigger] r.infos()[i];
                    &&& exists|l: int|
                        0 <= l < lines@.len() && asn_line_fields(
                            #[trigger] lines@[l]@,
                            e.asn,
                            e.name@,
                            e.country@,
                        )
                    &&& (e.as2org matches Some(o) ==> (as2org matches Some(a) && org_info_of(*a, e.asn, o)))
                    &&& (e.as2org is None ==> (as2org matches Some(a) ==> a.get_as_info_is_none(e.asn)))
                    &&& (e.peeringdb matches Some(p) ==> (peeringdb matches Some(d) && p.asn == e.asn
                        && d.entries().contains(p@)))
                    &&& (e.peeringdb is None ==> (peeringdb matches Some(d) ==> !d.asns().contains(e.asn)))
                },
    {
        let mut r = AsInfoUtils {
            asinfo: Vec::new(),
            sibling_orgs,
            load_as2org: as2org.is_some(),
            load_peeringdb: peeringdb.is_some(),
        };
        let mut i: usize = 0;
        while i < lines.len()
            invariant
                r.wf(),
                as2org matches Some(a) ==> a.wf(),
                r.load_as2org == as2org is Some,
                r.load_peeringdb == peeringdb is Some,
                r.sibling_orgs == sibling_orgs,
                i <= lines@.len(),
                forall|x: AsInfo|
                    #[trigger] r.asinfo@.contains(x) ==> {
                        &&& exists|l: int|
                            0 <= l < lines@.len() && asn_line_fields(
                                #[trigger] lines@[l]@,
                                x.asn,
                                x.name@,
                                x.country@,
                            )
                        &&& (x.as2org matches Some(o) ==> (as2org matches Some(a) && org_info_of(*a, x.asn, o)))
                        &&& (x.as2org is None ==> (as2org matches Some(a) ==> a.get_as_info_is_none(x.asn)))
                        &&& (x.peeringdb matches Some(p) ==> (peeringdb matches Some(d) && p.asn == x.asn
                            && d.entries().contains(p@)))
                        &&& (x.peeringdb is None ==> (peeringdb matches Some(d) ==> !d.asns().contains(x.asn)))
                    },
            decreases lines@.len() - i,
        {
            match parse_asn_line(lines[i].as_str()) {
                Some((asn, name, country)) => {
                    let org = match as2org {
                        Some(a) => match a.get_as_info(asn) {
                            Some(info) => Some(
                                As2orgInfo {
                                    name: info.name,
                                    country: info.country_code,
                                    org_id: info.org_id,
                                    org_name: info.org_name,
                                },
                            ),
                            None => None,
                        },
                        None => None,
                    };
                    let pdb = match peeringdb {
                        Some(d) => match d.get_data(asn) {
                            Some(p) => Some(p.copy()),
                            None => None,
                        },
                        None => None,
                    };
                    let info = AsInfo { asn, name, country, as2org: org, peeringdb: pdb };
                    assert(asn_line_fields(lines@[i as int]@, info.asn, info.name@, info.country@));
                    r.put(info);
                },
                None => {},
            }
            i = i + 1;
        }
        proof {
            assert forall|i: int| 0 <= i < r.infos().len() implies {
                let e = #[trigger] r.infos()[i];
                &&& exists|l: int|
                    0 <= l < lines@.len() && asn_line_fields(
                        #[trigger] lines@[l]@,
                        e.asn,
                        e.name@,
                        e.country@,
                    )
                &&& (e.as2org matches Some(o) ==> (as2org matches Some(a) && org_info_of(*a, e.asn, o)))
                &&& (e.as2org is None ==> (as2org matches Some(a) ==> a.get_as_info_is_none(e.asn)))
                &&& (e.peeringdb matches Some(p) ==> (peeringdb matches Some(d) && p.asn == e.asn
                    && d.entries().contains(p@)))
                &&& (e.peeringdb is None ==> (peeringdb matches Some(d) ==> !d.asns().contains(e.asn)))
            } by {
                assert(r.asinfo@.contains(r.asinfo@[i]));
            }
        }
        r
    }

    /// Whether any AS is listed.
    pub fn is_loaded(&self) -> (r: bool)
        ensures
            r == (self.infos().len() > 0),
    {
        self.asinfo.len() > 0
    }

    /// The information of `asn`, if listed.
    pub fn get(&self, asn: u32) -> (r: Option<&AsInfo>)
        requires
            self.wf(),
        ensures
            r is None <==> self.info(asn) is None,
            r matches Some(x) ==> self.info(asn) == Some(*x),
    {
        let mut i: usize = 0;
        while i < self.asinfo.len()
            invariant
                self.wf(),
                i <= self.asinfo@.len(),
                forall|j: int| 0 <= j < i ==> #[trigger] self.asinfo@[j].asn != asn,
            decreases self.asinfo@.len() - i,
        {
            if self.asinfo[i].asn == asn {
                proof {
                    assert(self.infos()[i as int].asn == asn);
                    let k = choose|k: int| 0 <= k < self.infos().len() && #[trigger] self.infos()[k].asn == asn;
                    assert(self.asinfo@[i as int].asn == asn);
                    assert(k == i);
                }
                return Some(&self.asinfo[i]);
            }
            i = i + 1;
        }
        None
    }

    /// Whether the organisations of two listed AS numbers are the same or
    /// siblings; false when either AS or either organisation is unknown.
    pub fn are_siblings(&self, asn1: u32, asn2: u32) -> (r: bool)
        requires
            self.wf(),
        ensures
            r == siblings_of(self.info(asn1), self.info(asn2), self.spec_sibling_orgs()),
    {
        let i1 = self.get(asn1);
        let i2 = self.get(asn2);
        match (i1, i2) {
            (Some(a), Some(b)) => match (&a.as2org, &b.as2org) {
                (Some(o1), Some(o2)) => {
                    if same_text(o1.org_id.as_str(), o2.org_id.as_str()) {
                        return true;
                    }
                    match &self.sibling_orgs {
                        Some(s) => s.are_sibling_orgs(o1.org_id.as_str(), o2.org_id.as_str()),
                        None => false,
                    }
                },
                _ => false,
            },
            _ => false,
        }
    }
}

/// Two AS records whose organisations are both known, and the same or
/// listed as siblings.
pub open spec fn siblings_of(a: Option<AsInfo>, b: Option<AsInfo>, s: Option<SiblingOrgsUtils>) -> bool {
    match (a, b) {
        (Some(x), Some(y)) => match (x.as2org, y.as2org) {
            (Some(o1), Some(o2)) => o1.org_id@ == o2.org_id@ || (s matches Some(u) && siblings_in(
                u.spec_groups(),
                o1.org_id@,
                o2.org_id@,
            )),
            _ => false,
        },
        _ => false,
    }
}

} // verus!
