//! Reserved address ranges and AS numbers that should not appear in
//! routing.

use crate::prefix::{ipnet_from_text, network_of, IpPrefix};
use crate::errors::BgpkitCommonsError;
use crate::time::Date;
use crate::text::{lemma_split_nonempty, parse_u32, split_on, split_text, u32_from_text};
use vstd::prelude::*;

verus! {

/// A reserved range of AS numbers, both ends included.
#[derive(Debug)]
pub struct BogonAsn {
    pub asn_range: (u32, u32),
    pub description: String,
    pub rfc_urls: Vec<String>,
}

impl BogonAsn {
    /// Whether `asn` lies in the range.
    pub fn matches(&self, asn: u32) -> (r: bool)
        ensures
            r == (self.asn_range.0 <= asn <= self.asn_range.1),
    {
        asn >= self.asn_range.0 && asn <= self.asn_range.1
    }
}

/// The range a registry cell writes as `a-b` or as a single `a`: the
/// first two pieces between dashes, both decimal AS numbers.
pub open spec fn range_of_text(s: Seq<char>) -> Option<(u32, u32)> {
    let parts = split_on(s, '-');
    match u32_from_text(parts[0]) {
        Some(start) => if parts.len() > 1 {
            match u32_from_text(parts[1]) {
                Some(end) => Some((start, end)),
                None => None,
            }
        } else {
            Some((start, start))
        },
        None => None,
    }
}

/// Reads an AS number range written as `a-b` or as a single `a`.
pub fn convert_to_range(s: &str) -> (r: Result<(u32, u32), BgpkitCommonsError>)
    ensures
        r is Ok <==> range_of_text(s@) is Some,
        r matches Ok(p) ==> range_of_text(s@) == Some(p),
        r is Err ==> (r matches Err(BgpkitCommonsError::InvalidAsnRange(t)) && t@ == s@),
{
    let parts = split_text(s, '-');
    proof {
        lemma_split_nonempty(s@, '-');
    }
    let start = match parse_u32(parts[0].as_str()) {
        Some(a) => a,
        None => return Err(BgpkitCommonsError::InvalidAsnRange(String::from_str(s))),
    };
    if parts.len() > 1 {
        match parse_u32(parts[1].as_str()) {
            Some(end) => Ok((start, end)),
            None => Err(BgpkitCommonsError::InvalidAsnRange(String::from_str(s))),
        }
    } else {
        Ok((start, start))
    }
}

/// A reserved network, with the attributes the special-purpose registry
/// gives it.
#[derive(Clone, Debug)]
pub struct BogonPrefix {
    pub prefix: IpPrefix,
    pub description: String,
    pub rfc_urls: Vec<String>,
    pub allocation_date: Date,
    pub termination_date: Option<Date>,
    pub source: bool,
    pub destination: bool,
    pub forwardable: bool,
    pub global: bool,
    pub reserved: bool,
}

impl BogonPrefix {
    /// Whether the reserved network holds `prefix`.
    pub fn matches(&self, prefix: &IpPrefix) -> (r: bool)
        ensures
            r == self.prefix.covers(*prefix),
    {
        self.prefix.contains(prefix)
    }
}

/// The reserved networks and AS numbers.
#[derive(Debug)]
pub struct Bogons {
    pub prefixes: Vec<BogonPrefix>,
    pub asns: Vec<BogonAsn>,
}

/// The network key a text stands for, host bits cleared.
pub open spec fn prefix_key_of_text(s: Seq<char>) -> Option<(bool, u128, u8)> {
    match ipnet_from_text(s) {
        Some(t) => Some((t.0, network_of(t.0, t.1 as nat, t.2 as nat) as u128, t.2)),
        None => None,
    }
}

impl Bogons {
    /// Some reserved network holds `prefix`.
    pub open spec fn spec_is_bogon_prefix(self, prefix: IpPrefix) -> bool {
        self.key_is_bogon(prefix.key())
    }

    /// Some reserved network holds the network with key `k`.
    pub open spec fn key_is_bogon(self, k: (bool, u128, u8)) -> bool {
        exists|i: int|
            0 <= i < self.prefixes@.len() && crate::prefix::key_covers(
                #[trigger] self.prefixes@[i].prefix.key(),
                k,
            )
    }

    /// Some reserved range holds `asn`.
    pub open spec fn spec_is_bogon_asn(self, asn: u32) -> bool {
        exists|i: int|
            0 <= i < self.asns@.len() && #[trigger] self.asns@[i].asn_range.0 <= asn
                <= self.asns@[i].asn_range.1
    }

    /// What `matches_str` says of a text: a network is tested as a network,
    /// otherwise a decimal number as an AS number; anything else is no bogon.
    pub open spec fn spec_matches_text(self, s: Seq<char>) -> bool {
        match prefix_key_of_text(s) {
            Some(k) => self.key_is_bogon(k),
            None => match u32_from_text(s) {
                Some(a) => self.spec_is_bogon_asn(a),
                None => false,
            },
        }
    }

    /// Whether a reserved network holds `prefix`.
    pub fn is_bogon_prefix(&self, prefix: &IpPrefix) -> (r: bool)
        ensures
            r == self.spec_is_bogon_prefix(*prefix),
    {
        let mut i: usize = 0;
        while i < self.prefixes.len()
            invariant
                i <= self.prefixes@.len(),
                forall|j: int|
                    0 <= j < i ==> !crate::prefix::key_covers(
                        #[trigger] self.prefixes@[j].prefix.key(),
                        prefix.key(),
                    ),
            decreases self.prefixes@.len() - i,
        {
            if self.prefixes[i].matches(prefix) {
                return true;
            }
            i = i + 1;
        }
        false
    }

    /// Whether a reserved range holds `asn`.
    pub fn is_bogon_asn(&self, asn: u32) -> (r: bool)
        ensures
            r == self.spec_is_bogon_asn(asn),
    {
        let mut i: usize = 0;
        while i < self.asns.len()
            invariant
                i <= self.asns@.len(),
                forall|j: int|
                    0 <= j < i ==> !(#[trigger] self.asns@[j].asn_range.0 <= asn
                        <= self.asns@[j].asn_range.1),
            decreases self.asns@.len() - i,
        {
            if self.asns[i].matches(asn) {
                return true;
            }
            i = i + 1;
        }
        false
    }

    /// Tests a text: as a network when it is one, else as a decimal AS
    /// number; any other text is no bogon.
    pub fn matches_str(&self, s: &str) -> (r: bool)
        ensures
            r == self.spec_matches_text(s@),
    {
        match IpPrefix::parse(s) {
            Some(p) => self.is_bogon_prefix(&p),
            None => match parse_u32(s) {
                Some(a) => self.is_bogon_asn(a),
                None => false,
            },
        }
    }
}

} // verus!
