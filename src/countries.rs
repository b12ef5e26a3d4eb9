//! Country records, looked up by code or by part of the name.

use crate::errors::BgpkitCommonsError;
use crate::text::{
    contains_text, lowercase_of, occurs_in, same_text, split_fields, split_on,
    split_text, starts_with, to_lowercase, whitespace_fields,
};
use vstd::prelude::*;

verus! {

/// One country.
#[derive(Clone, Debug)]
pub struct Country {
    /// ISO 3166 two-letter code.
    pub code: String,
    /// ISO 3166 three-letter code.
    pub code3: String,
    pub name: String,
    pub capital: String,
    pub continent: String,
    /// Top-level domain, when there is one.
    pub ltd: Option<String>,
    /// Codes of the neighbouring countries.
    pub neighbors: Vec<String>,
}

/// A country as text values.
pub struct CountryView {
    pub code: Seq<char>,
    pub code3: Seq<char>,
    pub name: Seq<char>,
    pub capital: Seq<char>,
    pub continent: Seq<char>,
    pub ltd: Option<Seq<char>>,
    pub neighbors: Seq<Seq<char>>,
}

impl View for Country {
    type V = CountryView;

    open spec fn view(&self) -> CountryView {
        CountryView {
            code: self.code@,
            code3: self.code3@,
            name: self.name@,
            capital: self.capital@,
            continent: self.continent@,
            ltd: match self.ltd {
                Some(s) => Some(s@),
                None => None,
            },
            neighbors: self.neighbors@.map_values(|s: String| s@),
        }
    }
}

/// A copy of a list of texts.
pub fn copy_texts(v: &Vec<String>) -> (r: Vec<String>)
    ensures
        r@.map_values(|s: String| s@) == v@.map_values(|s: String| s@),
{
    let mut r: Vec<String> = Vec::new();
    let mut i: usize = 0;
    while i < v.len()
        invariant
            i <= v@.len(),
            r@.len() == i,
            forall|j: int| 0 <= j < i ==> #[trigger] r@[j]@ == v@[j]@,
        decreases v@.len() - i,
    {
        r.push(v[i].clone());
        i = i + 1;
    }
    assert(r@.map_values(|s: String| s@) =~= v@.map_values(|s: String| s@));
    r
}

impl Country {
    /// A copy of this record.
    pub fn copy(&self) -> (r: Country)
        ensures
            r@ == self@,
    {
        let ltd = match &self.ltd {
            Some(s) => Some(s.clone()),
            None => None,
        };
        Country {
            code: self.code.clone(),
            code3: self.code3.clone(),
            name: self.name.clone(),
            capital: self.capital.clone(),
            continent: self.continent.clone(),
            ltd,
            neighbors: copy_texts(&self.neighbors),
        }
    }
}

/// The countries, one record per two-letter code.
#[derive(Clone, Debug)]
pub struct Countries {
    countries: Vec<Country>,
}

/// The record of `list` at `i` is the last one with its code.
pub open spec fn last_of_code(list: Seq<Country>, i: int) -> bool {
    forall|k: int| i < k < list.len() ==> #[trigger] list[k].code@ != list[i].code@
}

/// A line of the GeoNames country file that holds no record: blank, or a
/// comment.
pub open spec fn skipped_line(line: Seq<char>) -> bool {
    whitespace_fields(line).len() == 0 || "#"@.is_prefix_of(line)
}

/// The record of a data line split at tabs: code, three-letter code, name,
/// capital, continent, top-level domain (absent when empty) and the
/// comma-separated neighbours.
pub open spec fn country_of_fields(f: Seq<Seq<char>>) -> CountryView {
    CountryView {
        code: f[0],
        code3: f[1],
        name: f[4],
        capital: f[5],
        continent: f[8],
        ltd: if f[9].len() == 0 {
            None
        } else {
            Some(f[9])
        },
        neighbors: split_on(f[17], ','),
    }
}

/// The records of the data lines of a file, in order; every data line must
/// have exactly 19 tab-separated fields.
pub open spec fn country_lines_ok(lines: Seq<Seq<char>>) -> bool {
    forall|i: int|
        0 <= i < lines.len() && !skipped_line(#[trigger] lines[i]) ==> split_on(lines[i], '\t').len()
            == 19
}

pub open spec fn countries_of_lines(lines: Seq<Seq<char>>) -> Seq<CountryView>
    decreases lines.len(),
{
    if lines.len() == 0 {
        Seq::empty()
    } else {
        let rest = countries_of_lines(lines.drop_last());
        if skipped_line(lines.last()) {
            rest
        } else {
            rest.push(country_of_fields(split_on(lines.last(), '\t')))
        }
    }
}

/// The views of a list of records.
pub open spec fn country_views(s: Seq<Country>) -> Seq<CountryView> {
    s.map_values(|c: Country| c@)
}

/// The records after adding `c`: it replaces the record with its code, or
/// comes last.
pub open spec fn insert_country(entries: Seq<CountryView>, c: CountryView) -> Seq<CountryView> {
    if exists|j: int| 0 <= j < entries.len() && #[trigger] entries[j].code == c.code {
        let j = choose|j: int| 0 <= j < entries.len() && #[trigger] entries[j].code == c.code;
        entries.update(j, c)
    } else {
        entries.push(c)
    }
}

/// The records after adding each of `cs` in order.
pub open spec fn insert_countries(entries: Seq<CountryView>, cs: Seq<CountryView>) -> Seq<
    CountryView,
>
    decreases cs.len(),
{
    if cs.len() == 0 {
        entries
    } else {
        insert_country(insert_countries(entries, cs.drop_last()), cs.last())
    }
}

/// Country `c`'s name holds `q`, both in lower case.
pub open spec fn name_matches(c: CountryView, q: Seq<char>) -> bool {
    occurs_in(lowercase_of(c.name), lowercase_of(q))
}

/// The test of `name_matches` against `q`.
pub open spec fn name_filter(q: Seq<char>) -> spec_fn(CountryView) -> bool {
    |c: CountryView| name_matches(c, q)
}

impl Countries {
    /// The records, in the order they are kept.
    pub closed spec fn entries(self) -> Seq<CountryView> {
        country_views(self.countries@)
    }

    pub closed spec fn wf(self) -> bool {
        forall|i: int, j: int|
            0 <= i < self.countries@.len() && 0 <= j < self.countries@.len() && i != j
                ==> #[trigger] self.countries@[i].code@ != #[trigger] self.countries@[j].code@
    }

    /// No record.
    pub fn new_empty() -> (r: Countries)
        ensures
            r.wf(),
            r.entries() == Seq::<CountryView>::empty(),
    {
        let r = Countries { countries: Vec::new() };
        assert(r.entries() =~= Seq::<CountryView>::empty());
        r
    }

    /// Adds a record, replacing the one with the same code if there is one.
    pub fn insert(&mut self, c: Country)
        requires
            old(self).wf(),
        ensures
            final(self).wf(),
            final(self).entries() == insert_country(old(self).entries(), c@),
    {
        let mut j: usize = 0;
        while j < self.countries.len()
            invariant
                *self == *old(self),
                old(self).wf(),
                j <= self.countries@.len(),
                forall|m: int| 0 <= m < j ==> #[trigger] self.countries@[m].code@ != c.code@,
            decreases self.countries@.len() - j,
        {
            if same_text(self.countries[j].code.as_str(), c.code.as_str()) {
                let ghost pre = self.entries();
                proof {
                    assert(pre[j as int].code == c.code@);
                    assert forall|m: int| 0 <= m < pre.len() && m != j implies #[trigger] pre[m].code
                        != c.code@ by {
                        assert(self.countries@[m].code@ != self.countries@[j as int].code@);
                    }
                }
                self.countries.set(j, c);
                assert(self.entries() =~= pre.update(j as int, c@));
                return;
            }
            j = j + 1;
        }
        let ghost pre = self.entries();
        proof {
            assert forall|m: int| 0 <= m < pre.len() implies #[trigger] pre[m].code != c.code@ by {
                assert(pre[m] == self.countries@[m]@);
            }
        }
        self.countries.push(c);
        assert(self.entries() =~= pre.push(c@));
    }

    /// Keeps one record per code: of records sharing a code, the last one,
    /// in the place of the first.
    pub fn new(list: Vec<Country>) -> (r: Countries)
        ensures
            r.wf(),
            r.entries() == insert_countries(Seq::empty(), country_views(list@)),
    {
        let mut r = Countries::new_empty();
        let ghost all = country_views(list@);
        let mut i: usize = 0;
        while i < list.len()
            invariant
                r.wf(),
                all == country_views(list@),
                i <= list@.len(),
                r.entries() == insert_countries(Seq::empty(), all.take(i as int)),
            decreases list@.len() - i,
        {
            r.insert(list[i].copy());
            proof {
                assert(all.take(i + 1).drop_last() =~= all.take(i as int));
                assert(all.take(i + 1).last() == list@[i as int]@);
            }
            i = i + 1;
        }
        assert(all.take(list@.len() as int) =~= all);
        r
    }

    /// Reads the GeoNames country file: blank and comment lines are
    /// skipped, every other line must have 19 tab-separated fields; of
    /// records sharing a code the last one is kept.
    pub fn from_lines(lines: &Vec<String>) -> (r: Result<Countries, BgpkitCommonsError>)
        ensures
            r is Ok <==> country_lines_ok(lines@.map_values(|s: String| s@)),
            r is Err ==> (r matches Err(BgpkitCommonsError::MissingFields(t)) && exists|i: int|
                0 <= i < lines@.len() && #[trigger] lines@[i]@ == t@ && !skipped_line(t@) && split_on(
                    t@,
                    '\t',
                ).len() != 19),
            r matches Ok(c) ==> c.wf() && c.entries() == insert_countries(
                Seq::empty(),
                countries_of_lines(lines@.map_values(|s: String| s@)),
            ),
    {
        let ghost all = lines@.map_values(|s: String| s@);
        let mut list: Vec<Country> = Vec::new();
        let mut i: usize = 0;
        while i < lines.len()
            invariant
                all == lines@.map_values(|s: String| s@),
                i <= lines@.len(),
                country_lines_ok(all.take(i as int)),
                country_views(list@) == countries_of_lines(all.take(i as int)),
            decreases lines@.len() - i,
        {
            let text = lines[i].as_str();
            proof {
                assert(all.take(i + 1).drop_last() =~= all.take(i as int));
                assert(all.take(i + 1).last() == text@);
                assert(all[i as int] == text@);
            }
            let words = split_fields(text);
            if words.len() == 0 || starts_with(text, "#") {
                proof {
                    assert forall|k: int|
                        0 <= k < i + 1 && !skipped_line(#[trigger] all.take(i + 1)[k]) implies split_on(
                            all.take(i + 1)[k],
                            '\t',
                        ).len() == 19 by {
                        if k < i {
                            assert(all.take(i + 1)[k] == all.take(i as int)[k]);
                        }
                    }
                }
            } else {
                let splits = split_text(text, '\t');
                if splits.len() != 19 {
                    proof {
                        assert(!country_lines_ok(all)) by {
                            assert(!skipped_line(all[i as int]));
                        }
                    }
                    let row = lines[i].clone();
                    assert(lines@[i as int]@ == row@);
                    return Err(BgpkitCommonsError::MissingFields(row));
                }
                let ltd = if splits[9].unicode_len() == 0 {
                    None
                } else {
                    Some(splits[9].clone())
                };
                let neighbors = split_text(splits[17].as_str(), ',');
                let c = Country {
                    code: splits[0].clone(),
                    code3: splits[1].clone(),
                    name: splits[4].clone(),
                    capital: splits[5].clone(),
                    continent: splits[8].clone(),
                    ltd,
                    neighbors,
                };
                proof {
                    let f = split_on(text@, '\t');
                    assert(c@.neighbors =~= split_on(f[17], ','));
                    assert(c@ == country_of_fields(f));
                }
                let ghost before = list@;
                list.push(c);
                proof {
                    assert(country_views(list@) =~= country_views(before).push(c@));
                    assert forall|k: int|
                        0 <= k < i + 1 && !skipped_line(#[trigger] all.take(i + 1)[k]) implies split_on(
                            all.take(i + 1)[k],
                            '\t',
                        ).len() == 19 by {
                        if k < i {
                            assert(all.take(i + 1)[k] == all.take(i as int)[k]);
                        }
                    }
                }
            }
            i = i + 1;
        }
        assert(all.take(lines@.len() as int) =~= all);
        Ok(Countries::new(list))
    }

    /// The record with this two-letter code.
    pub fn lookup_by_code(&self, code: &str) -> (r: Option<Country>)
        requires
            self.wf(),
        ensures
            r is Some <==> exists|i: int| 0 <= i < self.entries().len() && #[trigger] self.entries()[i].code == code@,
            r matches Some(c) ==> exists|i: int|
                0 <= i < self.entries().len() && #[trigger] self.entries()[i].code == code@ && c@
                    == self.entries()[i],
    {
        let mut i: usize = 0;
        while i < self.countries.len()
            invariant
                i <= self.countries@.len(),
                forall|j: int| 0 <= j < i ==> #[trigger] self.countries@[j].code@ != code@,
            decreases self.countries@.len() - i,
        {
            if same_text(self.countries[i].code.as_str(), code) {
                let c = self.countries[i].copy();
                assert(self.entries()[i as int] == self.countries@[i as int]@);
                assert(self.entries()[i as int].code == code@);
                return Some(c);
            }
            i = i + 1;
        }
        proof {
            assert forall|j: int| 0 <= j < self.entries().len() implies #[trigger] self.entries()[j].code != code@ by {
                assert(self.entries()[j] == self.countries@[j]@);
            }
        }
        None
    }

    /// The records whose name holds `name`, ignoring letter case, in the
    /// order they are kept.
    pub fn lookup_by_name(&self, name: &str) -> (r: Vec<Country>)
        ensures
            country_views(r@) == self.entries().filter(name_filter(name@)),
    {
        let lower_name = to_lowercase(name);
        let mut found: Vec<Country> = Vec::new();
        let mut i: usize = 0;
        while i < self.countries.len()
            invariant
                i <= self.countries@.len(),
                lower_name@ == lowercase_of(name@),
                country_views(found@) == self.entries().take(i as int).filter(name_filter(name@)),
            decreases self.countries@.len() - i,
        {
            let lower = to_lowercase(self.countries[i].name.as_str());
            let hit = contains_text(lower.as_str(), lower_name.as_str());
            let ghost before = found@;
            if hit {
                found.push(self.countries[i].copy());
            }
            proof {
                let t1 = self.entries().take(i + 1);
                assert(t1.drop_last() =~= self.entries().take(i as int));
                assert(t1.last() == self.countries@[i as int]@);
                assert(name_filter(name@)(t1.last()) == hit);
                reveal(Seq::filter);
                assert(t1.filter(name_filter(name@)) == (if name_filter(name@)(t1.last()) {
                    t1.drop_last().filter(name_filter(name@)).push(t1.last())
                } else {
                    t1.drop_last().filter(name_filter(name@))
                }));
                if hit {
                    assert(country_views(found@) =~= country_views(before).push(
                        self.countries@[i as int]@,
                    ));
                }
            }
            i = i + 1;
        }
        assert(self.entries().take(self.countries@.len() as int) =~= self.entries());
        found
    }

    /// Every record.
    pub fn all_countries(&self) -> (r: Vec<Country>)
        ensures
            country_views(r@) == self.entries(),
    {
        let mut all: Vec<Country> = Vec::new();
        let mut i: usize = 0;
        while i < self.countries.len()
            invariant
                i <= self.countries@.len(),
                all@.len() == i,
                forall|j: int| 0 <= j < i ==> #[trigger] all@[j]@ == self.countries@[j]@,
            decreases self.countries@.len() - i,
        {
            all.push(self.countries[i].copy());
            i = i + 1;
        }
        assert(country_views(all@) =~= self.entries());
        all
    }

    /// Whether any record is held.
    pub fn is_loaded(&self) -> (r: bool)
        ensures
            r == (self.entries().len() > 0),
    {
        self.countries.len() > 0
    }
}

} // verus!
