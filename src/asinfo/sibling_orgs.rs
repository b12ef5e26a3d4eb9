//! Organisations known to belong together, one group per line of the data
//! file.

use crate::text::{lowercase_of, same_text, split_fields, starts_with, to_lowercase, whitespace_fields};
use vstd::prelude::*;

verus! {

/// The groups of sibling organisations, ids in lower case.
#[derive(Clone, Debug)]
pub struct SiblingOrgsUtils {
    groups: Vec<Vec<String>>,
}

/// A data line holds a group: it has words and the first does not start
/// with `#`.
pub open spec fn group_line(line: Seq<char>) -> bool {
    let f = whitespace_fields(line);
    f.len() > 0 && !"#"@.is_prefix_of(f[0])
}

/// The groups a data file holds: for each group line, its words in lower
/// case.
pub open spec fn groups_of(lines: Seq<Seq<char>>) -> Seq<Seq<Seq<char>>>
    decreases lines.len(),
{
    if lines.len() == 0 {
        Seq::empty()
    } else {
        let g = groups_of(lines.drop_last());
        if group_line(lines.last()) {
            g.push(whitespace_fields(lines.last()).map_values(|w: Seq<char>| lowercase_of(w)))
        } else {
            g
        }
    }
}

/// Group `k` is the last one that holds `x`.
pub open spec fn last_group_with(groups: Seq<Seq<Seq<char>>>, x: Seq<char>, k: int) -> bool {
    &&& 0 <= k < groups.len()
    &&& groups[k].contains(x)
    &&& forall|m: int| k < m < groups.len() ==> !(#[trigger] groups[m]).contains(x)
}

/// Both organisations are in the last group that holds the first one, ids
/// compared in lower case.
pub open spec fn siblings_in(groups: Seq<Seq<Seq<char>>>, a: Seq<char>, b: Seq<char>) -> bool {
    exists|k: int| last_group_with(groups, lowercase_of(a), k) && (#[trigger] groups[k]).contains(
        lowercase_of(b),
    )
}

/// Whether `list` holds `x`.
fn holds_text(list: &Vec<String>, x: &str) -> (r: bool)
    ensures
        r == list@.map_values(|s: String| s@).contains(x@),
{
    let ghost v = list@.map_values(|s: String| s@);
    let mut i: usize = 0;
    while i < list.len()
        invariant
            v == list@.map_values(|s: String| s@),
            i <= list@.len(),
            forall|j: int| 0 <= j < i ==> #[trigger] list@[j]@ != x@,
        decreases list@.len() - i,
    {
        if same_text(list[i].as_str(), x) {
            assert(v[i as int] == x@);
            return true;
        }
        i = i + 1;
    }
    proof {
        if v.contains(x@) {
            let j = v.index_of(x@);
            assert(list@[j]@ == x@);
        }
    }
    false
}

impl SiblingOrgsUtils {
    pub closed spec fn spec_groups(self) -> Seq<Seq<Seq<char>>> {
        self.groups@.map_values(|g: Vec<String>| g@.map_values(|s: String| s@))
    }

    /// Reads the groups from the lines of a data file; lines without words
    /// or whose first word starts with `#` are skipped.
    pub fn new(lines: &Vec<String>) -> (r: SiblingOrgsUtils)
        ensures
            r.spec_groups() == groups_of(lines@.map_values(|s: String| s@)),
    {
        let ghost all = lines@.map_values(|s: String| s@);
        let mut groups: Vec<Vec<String>> = Vec::new();
        let mut i: usize = 0;
        while i < lines.len()
            invariant
                all == lines@.map_values(|s: String| s@),
                i <= lines@.len(),
                groups@.map_values(|g: Vec<String>| g@.map_values(|s: String| s@)) == groups_of(
                    all.take(i as int),
                ),
            decreases lines@.len() - i,
        {
            let fields = split_fields(lines[i].as_str());
            let ghost f = whitespace_fields(lines@[i as int]@);
            let ghost before = groups@;
            proof {
                assert(all.take(i + 1).drop_last() =~= all.take(i as int));
                assert(all.take(i + 1).last() == lines@[i as int]@);
            }
            if fields.len() > 0 && !starts_with(fields[0].as_str(), "#") {
                let mut group: Vec<String> = Vec::new();
                let mut j: usize = 0;
                while j < fields.len()
                    invariant
                        j <= fields@.len(),
                        fields@.len() == f.len(),
                        forall|m: int| 0 <= m < fields@.len() ==> #[trigger] fields@[m]@ == f[m],
                        group@.len() == j,
                        forall|m: int| 0 <= m < j ==> #[trigger] group@[m]@ == lowercase_of(f[m]),
                    decreases fields@.len() - j,
                {
                    group.push(to_lowercase(fields[j].as_str()));
                    j = j + 1;
                }
                assert(group@.map_values(|s: String| s@) =~= f.map_values(|w: Seq<char>| lowercase_of(w)));
                groups.push(group);
                assert(groups@.map_values(|g: Vec<String>| g@.map_values(|s: String| s@)) =~= before.map_values(
                    |g: Vec<String>| g@.map_values(|s: String| s@),
                ).push(f.map_values(|w: Seq<char>| lowercase_of(w))));
            }
            i = i + 1;
        }
        assert(all.take(lines@.len() as int) =~= all);
        SiblingOrgsUtils { groups }
    }

    /// Whether two organisations are siblings: the last group holding the
    /// first also holds the second, ids compared in lower case.
    pub fn are_sibling_orgs(&self, org_1: &str, org_2: &str) -> (r: bool)
        ensures
            r == siblings_in(self.spec_groups(), org_1@, org_2@),
    {
        let a = to_lowercase(org_1);
        let b = to_lowercase(org_2);
        let ghost gs = self.spec_groups();
        let mut k: usize = self.groups.len();
        while k > 0
            invariant
                gs == self.spec_groups(),
                k <= self.groups@.len(),
                a@ == lowercase_of(org_1@),
                b@ == lowercase_of(org_2@),
                forall|m: int| k <= m < gs.len() ==> !(#[trigger] gs[m]).contains(a@),
            decreases k,
        {
            k = k - 1;
            assert(gs[k as int] == self.groups@[k as int]@.map_values(|s: String| s@));
            if holds_text(&self.groups[k], a.as_str()) {
                let r = holds_text(&self.groups[k], b.as_str());
                proof {
                    assert(last_group_with(gs, lowercase_of(org_1@), k as int));
                    if r {
                        assert(gs[k as int].contains(lowercase_of(org_2@)));
                    } else {
                        assert forall|k2: int| !(last_group_with(gs, lowercase_of(org_1@), k2) && (#[trigger] gs[k2]).contains(
                            lowercase_of(org_2@))) by {
                            if last_group_with(gs, lowercase_of(org_1@), k2) && k2 != k {
                                if k2 < k {
                                    assert(!gs[k as int].contains(a@));
                                } else {
                                    assert(!gs[k2].contains(a@));
                                }
                            }
                        }
                    }
                }
                return r;
            }
        }
        proof {
            assert forall|k2: int| !(last_group_with(gs, lowercase_of(org_1@), k2) && (#[trigger] gs[k2]).contains(
                lowercase_of(org_2@))) by {}
        }
        false
    }
}

} // verus!
