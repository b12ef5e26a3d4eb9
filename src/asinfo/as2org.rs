//! CAIDA's mapping of AS numbers to organisations.

use crate::text::{parse_u32, push_char, same_text, u32_from_text};
use vstd::prelude::*;

verus! {

/// An AS record of the data set, as read.
#[derive(Clone, Debug)]
pub struct As2orgAsRecord {
    pub asn: String,
    pub name: String,
    pub org_id: String,
    pub source: String,
}

/// An organisation record of the data set, as read.
#[derive(Clone, Debug)]
pub struct As2orgOrgRecord {
    pub org_id: String,
    pub name: String,
    pub country: String,
    pub source: String,
}

/// What is known of one AS and its organisation.
#[derive(Clone, Debug)]
pub struct As2orgAsInfo {
    pub asn: u32,
    pub name: String,
    pub country_code: String,
    pub org_id: String,
    pub org_name: String,
    pub source: String,
}

/// An AS as kept: number, name and organisation.
pub struct AsView {
    pub asn: u32,
    pub name: Seq<char>,
    pub org_id: Seq<char>,
}

/// An organisation as kept.
pub struct OrgView {
    pub org_id: Seq<char>,
    pub name: Seq<char>,
    pub country: Seq<char>,
    pub source: Seq<char>,
}

/// An AS as kept.
#[derive(Clone, Debug)]
pub struct AsEntry {
    pub asn: u32,
    pub name: String,
    pub org_id: String,
}

/// An organisation as kept.
#[derive(Clone, Debug)]
pub struct OrgEntry {
    pub org_id: String,
    pub name: String,
    pub country: String,
    pub source: String,
}

/// The AS and organisation records, one per AS number and one per
/// organisation id.
pub struct As2org {
    ases: Vec<AsEntry>,
    orgs: Vec<OrgEntry>,
}

/// The URL of the newest data set.
pub fn latest_file_url() -> (r: String)
    ensures
        r@ == "https://publicdata.caida.org/datasets/as-organizations/latest.as-org2info.jsonl.gz"@,
{
    String::from_str("https://publicdata.caida.org/datasets/as-organizations/latest.as-org2info.jsonl.gz")
}

/// The records after adding `a`: it replaces the record of its AS number, or
/// comes last.
pub open spec fn put_as(s: Seq<AsView>, a: AsView) -> Seq<AsView> {
    if exists|i: int| 0 <= i < s.len() && #[trigger] s[i].asn == a.asn {
        let i = choose|i: int| 0 <= i < s.len() && #[trigger] s[i].asn == a.asn;
        s.update(i, a)
    } else {
        s.push(a)
    }
}

/// The records after adding `o`: it replaces the record of its id, or comes
/// last.
pub open spec fn put_org(s: Seq<OrgView>, o: OrgView) -> Seq<OrgView> {
    if exists|i: int| 0 <= i < s.len() && #[trigger] s[i].org_id == o.org_id {
        let i = choose|i: int| 0 <= i < s.len() && #[trigger] s[i].org_id == o.org_id;
        s.update(i, o)
    } else {
        s.push(o)
    }
}

/// The AS records kept from a list: those whose number reads as a `u32`,
/// the last one of each number.
pub open spec fn ases_of(rs: Seq<As2orgAsRecord>) -> Seq<AsView>
    decreases rs.len(),
{
    if rs.len() == 0 {
        Seq::empty()
    } else {
        let s = ases_of(rs.drop_last());
        let r = rs.last();
        match u32_from_text(r.asn@) {
            Some(asn) => put_as(s, AsView { asn, name: r.name@, org_id: r.org_id@ }),
            None => s,
        }
    }
}

/// The organisation records kept from a list, the last one of each id.
pub open spec fn orgs_of(rs: Seq<As2orgOrgRecord>) -> Seq<OrgView>
    decreases rs.len(),
{
    if rs.len() == 0 {
        Seq::empty()
    } else {
        let r = rs.last();
        put_org(
            orgs_of(rs.drop_last()),
            OrgView { org_id: r.org_id@, name: r.name@, country: r.country@, source: r.source@ },
        )
    }
}

/// The test of an AS record's organisation id against `org`.
pub open spec fn org_filter(org: Seq<char>) -> spec_fn(AsView) -> bool {
    |a: AsView| a.org_id == org
}

/// `info` joins AS record `a` with organisation record `o`.
pub open spec fn info_of(a: AsView, o: OrgView, info: As2orgAsInfo) -> bool {
    &&& info.asn == a.asn
    &&& info.name@ == a.name
    &&& info.org_id@ == a.org_id
    &&& info.country_code@ == o.country
    &&& info.org_name@ == o.name
    &&& info.source@ == o.source
}

impl View for AsEntry {
    type V = AsView;

    open spec fn view(&self) -> AsView {
        AsView { asn: self.asn, name: self.name@, org_id: self.org_id@ }
    }
}

impl View for OrgEntry {
    type V = OrgView;

    open spec fn view(&self) -> OrgView {
        OrgView { org_id: self.org_id@, name: self.name@, country: self.country@, source: self.source@ }
    }
}

impl As2org {
    pub closed spec fn as_views(self) -> Seq<AsView> {
        self.ases@.map_values(|e: AsEntry| e@)
    }

    pub closed spec fn org_views(self) -> Seq<OrgView> {
        self.orgs@.map_values(|e: OrgEntry| e@)
    }

    pub closed spec fn wf(self) -> bool {
        &&& forall|i: int, j: int|
            0 <= i < self.ases@.len() && 0 <= j < self.ases@.len() && i != j
                ==> #[trigger] self.ases@[i].asn != #[trigger] self.ases@[j].asn
        &&& forall|i: int, j: int|
            0 <= i < self.orgs@.len() && 0 <= j < self.orgs@.len() && i != j
                ==> #[trigger] self.orgs@[i].org_id@ != #[trigger] self.orgs@[j].org_id@
    }

    /// The AS record of `asn`, if any.
    pub open spec fn as_record(self, asn: u32) -> Option<AsView> {
        if exists|i: int| 0 <= i < self.as_views().len() && #[trigger] self.as_views()[i].asn == asn {
            let i = choose|i: int| 0 <= i < self.as_views().len() && #[trigger] self.as_views()[i].asn == asn;
            Some(self.as_views()[i])
        } else {
            None
        }
    }

    /// The organisation record of `id`, if any.
    pub open spec fn org_record(self, id: Seq<char>) -> Option<OrgView> {
        if exists|i: int| 0 <= i < self.org_views().len() && #[trigger] self.org_views()[i].org_id == id {
            let i = choose|i: int| 0 <= i < self.org_views().len() && #[trigger] self.org_views()[i].org_id == id;
            Some(self.org_views()[i])
        } else {
            None
        }
    }

    /// No joined record exists for `asn`: its AS record or that record's
    /// organisation is missing.
    pub open spec fn get_as_info_is_none(self, asn: u32) -> bool {
        !(self.as_record(asn) matches Some(a) && self.org_record(a.org_id) is Some)
    }

    /// The URL of the newest data set.
    pub fn get_latest_file_url() -> (r: String)
        ensures
            r@ == "https://publicdata.caida.org/datasets/as-organizations/latest.as-org2info.jsonl.gz"@,
    {
        latest_file_url()
    }

    fn put_as_entry(&mut self, e: AsEntry)
        requires
            old(self).wf(),
        ensures
            final(self).wf(),
            final(self).as_views() == put_as(old(self).as_views(), AsView { asn: e.asn, name: e.name@, org_id: e.org_id@ }),
            final(self).orgs == old(self).orgs,
    {
        let ghost v = e@;
        let mut j: usize = 0;
        while j < self.ases.len()
            invariant
                *self == *old(self),
                old(self).wf(),
                j <= self.ases@.len(),
                forall|m: int| 0 <= m < j ==> #[trigger] self.ases@[m].asn != e.asn,
            decreases self.ases@.len() - j,
        {
            if self.ases[j].asn == e.asn {
                let ghost pre = self.as_views();
                proof {
                    assert(pre[j as int].asn == e.asn);
                    assert forall|m: int| 0 <= m < pre.len() && #[trigger] pre[m].asn == e.asn implies m == j by {
                        assert(self.ases@[m].asn == pre[m].asn);
                    }
                }
                let ghost old_ases = self.ases@;
                self.ases.set(j, e);
                assert(self.ases@ == old_ases.update(j as int, e));
                assert forall|m: int| 0 <= m < pre.len() implies #[trigger] self.as_views()[m] == pre.update(j as int, e@)[m] by {
                    assert(self.as_views()[m] == self.ases@[m]@);
                    if m != j {
                        assert(self.ases@[m] == old_ases[m]);
                        assert(pre[m] == old_ases[m]@);
                    } else {
                        assert(self.ases@[m] == e);
                    }
                }
                assert(self.as_views() =~= pre.update(j as int, e@));
                return;
            }
            j = j + 1;
        }
        let ghost pre = self.as_views();
        proof {
            assert forall|m: int| 0 <= m < pre.len() implies #[trigger] pre[m].asn != e.asn by {
                assert(self.ases@[m].asn == pre[m].asn);
            }
        }
        self.ases.push(e);
        assert(self.as_views() =~= pre.push(v));
    }

    fn put_org_entry(&mut self, e: OrgEntry)
        requires
            old(self).wf(),
        ensures
            final(self).wf(),
            final(self).org_views() == put_org(
                old(self).org_views(),
                OrgView { org_id: e.org_id@, name: e.name@, country: e.country@, source: e.source@ },
            ),
            final(self).ases == old(self).ases,
    {
        let ghost v = e@;
        let mut j: usize = 0;
        while j < self.orgs.len()
            invariant
                *self == *old(self),
                old(self).wf(),
                j <= self.orgs@.len(),
                forall|m: int| 0 <= m < j ==> #[trigger] self.orgs@[m].org_id@ != e.org_id@,
            decreases self.orgs@.len() - j,
        {
            if same_text(self.orgs[j].org_id.as_str(), e.org_id.as_str()) {
                let ghost pre = self.org_views();
                proof {
                    assert(pre[j as int].org_id == e.org_id@);
                    assert forall|m: int| 0 <= m < pre.len() && #[trigger] pre[m].org_id == e.org_id@ implies m == j by {
                        assert(self.orgs@[m].org_id@ == pre[m].org_id);
                    }
                }
                let ghost old_orgs = self.orgs@;
                self.orgs.set(j, e);
                assert(self.orgs@ == old_orgs.update(j as int, e));
                assert forall|m: int| 0 <= m < pre.len() implies #[trigger] self.org_views()[m] == pre.update(j as int, e@)[m] by {
                    assert(self.org_views()[m] == self.orgs@[m]@);
                    if m != j {
                        assert(self.orgs@[m] == old_orgs[m]);
                        assert(pre[m] == old_orgs[m]@);
                    } else {
                        assert(self.orgs@[m] == e);
                    }
                }
                assert(self.org_views() =~= pre.update(j as int, e@));
                return;
            }
            j = j + 1;
        }
        let ghost pre = self.org_views();
        proof {
            assert forall|m: int| 0 <= m < pre.len() implies #[trigger] pre[m].org_id != e.org_id@ by {
                assert(self.orgs@[m].org_id@ == pre[m].org_id);
            }
        }
        self.orgs.push(e);
        assert(self.org_views() =~= pre.push(v));
    }

    /// Builds the mapping from the records of a data set. AS records whose
    /// number does not read as a `u32` are skipped; of records sharing an AS
    /// number or an organisation id the last one is kept.
    pub fn new(ases: &Vec<As2orgAsRecord>, orgs: &Vec<As2orgOrgRecord>) -> (r: As2org)
        ensures
            r.wf(),
            r.as_views() == ases_of(ases@),
            r.org_views() == orgs_of(orgs@),
    {
        let mut r = As2org { ases: Vec::new(), orgs: Vec::new() };
        assert(r.as_views() =~= Seq::<AsView>::empty());
        assert(r.org_views() =~= Seq::<OrgView>::empty());
        let mut i: usize = 0;
        while i < ases.len()
            invariant
                r.wf(),
                i <= ases@.len(),
                r.as_views() == ases_of(ases@.take(i as int)),
                r.org_views() == Seq::<OrgView>::empty(),
            decreases ases@.len() - i,
        {
            let a = &ases[i];
            proof {
                assert(ases@.take(i + 1).drop_last() =~= ases@.take(i as int));
                assert(ases@.take(i + 1).last() == *a);
            }
            match parse_u32(a.asn.as_str()) {
                Some(asn) => {
                    r.put_as_entry(AsEntry { asn, name: a.name.clone(), org_id: a.org_id.clone() });
                },
                None => {},
            }
            i = i + 1;
        }
        assert(ases@.take(ases@.len() as int) =~= ases@);
        let mut i: usize = 0;
        while i < orgs.len()
            invariant
                r.wf(),
                i <= orgs@.len(),
                r.as_views() == ases_of(ases@),
                r.org_views() == orgs_of(orgs@.take(i as int)),
            decreases orgs@.len() - i,
        {
            let o = &orgs[i];
            proof {
                assert(orgs@.take(i + 1).drop_last() =~= orgs@.take(i as int));
                assert(orgs@.take(i + 1).last() == *o);
            }
            r.put_org_entry(
                OrgEntry {
                    org_id: o.org_id.clone(),
                    name: o.name.clone(),
                    country: o.country.clone(),
                    source: o.source.clone(),
                },
            );
            i = i + 1;
        }
        assert(orgs@.take(orgs@.len() as int) =~= orgs@);
        r
    }

    fn find_as(&self, asn: u32) -> (r: Option<usize>)
        requires
            self.wf(),
        ensures
            r is None <==> self.as_record(asn) is None,
            r matches Some(i) ==> i < self.ases@.len() && self.as_record(asn) == Some(self.as_views()[i as int]),
    {
        let mut i: usize = 0;
        while i < self.ases.len()
            invariant
                self.wf(),
                i <= self.ases@.len(),
                forall|j: int| 0 <= j < i ==> #[trigger] self.ases@[j].asn != asn,
            decreases self.ases@.len() - i,
        {
            if self.ases[i].asn == asn {
                proof {
                    assert(self.as_views()[i as int].asn == asn);
                    let k = choose|k: int| 0 <= k < self.as_views().len() && #[trigger] self.as_views()[k].asn == asn;
                    assert(self.ases@[k].asn == self.as_views()[k].asn);
                    assert(self.ases@[i as int].asn == asn);
                    assert(0 <= k < self.ases@.len());
                    if k != i {
                        assert(self.ases@[k].asn != self.ases@[i as int].asn);
                    }
                    assert(k == i);
                }
                return Some(i);
            }
            i = i + 1;
        }
        proof {
            assert forall|j: int| 0 <= j < self.as_views().len() implies #[trigger] self.as_views()[j].asn != asn by {
                assert(self.ases@[j].asn == self.as_views()[j].asn);
            }
        }
        None
    }

    fn find_org(&self, id: &str) -> (r: Option<usize>)
        requires
            self.wf(),
        ensures
            r is None <==> self.org_record(id@) is None,
            r matches Some(i) ==> i < self.orgs@.len() && self.org_record(id@) == Some(self.org_views()[i as int]),
    {
        let mut i: usize = 0;
        while i < self.orgs.len()
            invariant
                self.wf(),
                i <= self.orgs@.len(),
                forall|j: int| 0 <= j < i ==> #[trigger] self.orgs@[j].org_id@ != id@,
            decreases self.orgs@.len() - i,
        {
            if same_text(self.orgs[i].org_id.as_str(), id) {
                proof {
                    assert(self.org_views()[i as int].org_id == id@);
                    let k = choose|k: int| 0 <= k < self.org_views().len() && #[trigger] self.org_views()[k].org_id == id@;
                    assert(self.orgs@[k].org_id@ == self.org_views()[k].org_id);
                    assert(self.orgs@[i as int].org_id@ == id@);
                    assert(k == i);
                }
                return Some(i);
            }
            i = i + 1;
        }
        proof {
            assert forall|j: int| 0 <= j < self.org_views().len() implies #[trigger] self.org_views()[j].org_id != id@ by {
                assert(self.orgs@[j].org_id@ == self.org_views()[j].org_id);
            }
        }
        None
    }

    /// The AS joined with its organisation; `None` when either record is
    /// missing.
    pub fn get_as_info(&self, asn: u32) -> (r: Option<As2orgAsInfo>)
        requires
            self.wf(),
        ensures
            r is Some <==> (self.as_record(asn) matches Some(a) && self.org_record(a.org_id) is Some),
            r matches Some(info) ==> info_of(
                self.as_record(asn)->Some_0,
                self.org_record(self.as_record(asn)->Some_0.org_id)->Some_0,
                info,
            ),
    {
        let i = match self.find_as(asn) {
            Some(i) => i,
            None => return None,
        };
        let a = &self.ases[i];
        let j = match self.find_org(a.org_id.as_str()) {
            Some(j) => j,
            None => return None,
        };
        let o = &self.orgs[j];
        Some(
            As2orgAsInfo {
                asn,
                name: a.name.clone(),
                country_code: o.country.clone(),
                org_id: a.org_id.clone(),
                org_name: o.name.clone(),
                source: o.source.clone(),
            },
        )
    }

    /// The ASes of the organisation of `asn` that have an organisation
    /// record, in the order they are kept; `None` when `asn` has no record.
    pub fn get_siblings(&self, asn: u32) -> (r: Option<Vec<As2orgAsInfo>>)
        requires
            self.wf(),
        ensures
            r is None <==> self.as_record(asn) is None,
            r matches Some(v) ==> {
                let org = self.as_record(asn)->Some_0.org_id;
                &&& self.org_record(org) is None ==> v@.len() == 0
                &&& self.org_record(org) is Some ==> v@.len() == self.as_views().filter(org_filter(org)).len() && forall|k: int|
                    0 <= k < v@.len() ==> info_of(
                        self.as_views().filter(org_filter(org))[k],
                        self.org_record(org)->Some_0,
                        #[trigger] v@[k],
                    )
            },
    {
        let i = match self.find_as(asn) {
            Some(i) => i,
            None => return None,
        };
        let org_id = self.ases[i].org_id.as_str();
        let ghost org = org_id@;
        let mut out: Vec<As2orgAsInfo> = Vec::new();
        let j = match self.find_org(org_id) {
            Some(j) => j,
            None => return Some(out),
        };
        let o = &self.orgs[j];
        let mut k: usize = 0;
        while k < self.ases.len()
            invariant
                k <= self.ases@.len(),
                org == org_id@,
                self.org_record(org) == Some(self.org_views()[j as int]),
                j < self.orgs@.len(),
                *o == self.orgs@[j as int],
                out@.len() == self.as_views().take(k as int).filter(org_filter(org)).len(),
                forall|m: int|
                    0 <= m < out@.len() ==> info_of(
                        self.as_views().take(k as int).filter(org_filter(org))[m],
                        self.org_views()[j as int],
                        #[trigger] out@[m],
                    ),
            decreases self.ases@.len() - k,
        {
            let a = &self.ases[k];
            let hit = same_text(a.org_id.as_str(), org_id);
            let ghost before = out@;
            if hit {
                out.push(
                    As2orgAsInfo {
                        asn: a.asn,
                        name: a.name.clone(),
                        country_code: o.country.clone(),
                        org_id: a.org_id.clone(),
                        org_name: o.name.clone(),
                        source: o.source.clone(),
                    },
                );
            }
            proof {
                let t1 = self.as_views().take(k + 1);
                assert(t1.drop_last() =~= self.as_views().take(k as int));
                assert(t1.last() == self.as_views()[k as int]);
                reveal(Seq::filter);
                assert(t1.filter(org_filter(org)) == (if org_filter(org)(t1.last()) {
                    t1.drop_last().filter(org_filter(org)).push(t1.last())
                } else {
                    t1.drop_last().filter(org_filter(org))
                }));
                assert(t1.last().org_id == a.org_id@);
                assert(org_filter(org)(t1.last()) == hit);
                assert forall|m: int|
                    0 <= m < out@.len() implies info_of(
                        t1.filter(org_filter(org))[m],
                        self.org_views()[j as int],
                        #[trigger] out@[m],
                    ) by {
                    if m < before.len() {
                        assert(out@[m] == before[m]);
                    }
                }
            }
            k = k + 1;
        }
        assert(self.as_views().take(self.ases@.len() as int) =~= self.as_views());
        Some(out)
    }

    /// Both AS numbers have records, with the same organisation.
    pub fn are_siblings(&self, asn1: u32, asn2: u32) -> (r: bool)
        requires
            self.wf(),
        ensures
            r == (self.as_record(asn1) matches Some(a) && self.as_record(asn2) matches Some(b)
                && a.org_id == b.org_id),
    {
        let i = match self.find_as(asn1) {
            Some(i) => i,
            None => return false,
        };
        let j = match self.find_as(asn2) {
            Some(j) => j,
            None => return false,
        };
        same_text(self.ases[i].org_id.as_str(), self.ases[j].org_id.as_str())
    }
}

/// Text whose UTF-8 bytes were read as Latin-1 and written out again
/// turns `é` into `Ã©`: each `Ã` followed by a character from U+0080 to
/// U+00BF stands for one character from U+00C0 to U+00FF.
pub open spec fn latin1_fixed(s: Seq<char>) -> Seq<char>
    decreases s.len(),
{
    if s.len() == 0 {
        s
    } else if s[0] == '\u{c3}' && s.len() > 1 {
        if '\u{80}' <= s[1] && s[1] <= '\u{bf}' {
            seq![(s[1] as u32 + 0x40) as char] + latin1_fixed(s.skip(2))
        } else {
            seq![s[0], s[1]] + latin1_fixed(s.skip(2))
        }
    } else {
        seq![s[0]] + latin1_fixed(s.skip(1))
    }
}

/// Repairs text whose UTF-8 was read as Latin-1 (see `latin1_fixed`).
pub fn fix_latin1_misinterpretation(input: &str) -> (r: String)
    ensures
        r@ == latin1_fixed(input@),
{
    let n = input.unicode_len();
    let mut result = String::new();
    let mut i: usize = 0;
    assert(input@.skip(0) =~= input@);
    assert(result@ + latin1_fixed(input@.skip(0)) =~= latin1_fixed(input@));
    while i < n
        invariant
            n == input@.len(),
            i <= n,
            result@ + latin1_fixed(input@.skip(i as int)) == latin1_fixed(input@),
        decreases n - i,
    {
        let c = input.get_char(i);
        let ghost rest = input@.skip(i as int);
        assert(rest[0] == c);
        if c == '\u{c3}' && i + 1 < n {
            let next = input.get_char(i + 1);
            assert(rest[1] == next);
            assert(rest.skip(2) =~= input@.skip(i + 2));
            if '\u{80}' <= next && next <= '\u{bf}' {
                let b = (next as u32 + 0x40) as u8;
                let fixed = b as char;
                assert(fixed == (next as u32 + 0x40) as char);
                push_char(&mut result, fixed);
            } else {
                push_char(&mut result, c);
                push_char(&mut result, next);
            }
            i = i + 2;
        } else {
            assert(rest.skip(1) =~= input@.skip(i + 1));
            push_char(&mut result, c);
            i = i + 1;
        }
    }
    assert(input@.skip(n as int) =~= Seq::<char>::empty());
    result
}

} // verus!
