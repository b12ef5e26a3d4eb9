//! The JSON output of relying-party software, as handed over field by field,
//! and its normalisation: AS numbers given as integers or as `AS<digits>`
//! text, timestamps given as signed or unsigned integers.

use crate::errors::{BgpkitCommonsError, JsonField};
use crate::text::{decimal_of, digits_from, lemma_decimal_round_trip, parse_digits_from};
use vstd::prelude::*;

verus! {

/// A JSON value where a number or a string may stand.
#[derive(Clone, Debug, PartialEq, Eq)]
pub enum JsonScalar {
    /// An integer of either sign.
    Integer(i128),
    Text(String),
    /// The field is not present.
    Absent,
    /// Any other JSON value (a float, `null`, an array, an object, a boolean).
    Other,
}

/// A route origin record as it stands in the document.
#[derive(Clone, Debug)]
pub struct RawRoaEntry {
    pub prefix: String,
    pub max_length: JsonScalar,
    pub asn: JsonScalar,
    pub ta: String,
    pub expires: JsonScalar,
}

/// A provider authorisation as it stands in the document.
#[derive(Clone, Debug)]
pub struct RawAspaEntry {
    pub customer: JsonScalar,
    pub expires: JsonScalar,
    pub providers: Vec<JsonScalar>,
}

/// The run statistics a document may carry, passed through as read.
#[derive(Clone, Debug, Default)]
pub struct RpkiClientMetadata {
    pub buildmachine: Option<String>,
    pub buildtime: Option<String>,
    pub generated: Option<u64>,
    pub generated_time: Option<String>,
    pub elapsedtime: Option<u32>,
    pub usertime: Option<u32>,
    pub systemtime: Option<u32>,
    pub roas: Option<u32>,
    pub failedroas: Option<u32>,
    pub invalidroas: Option<u32>,
    pub spls: Option<u32>,
    pub failedspls: Option<u32>,
    pub invalidspls: Option<u32>,
    pub aspas: Option<u32>,
    pub failedaspas: Option<u32>,
    pub invalidaspas: Option<u32>,
    pub bgpsec_pubkeys: Option<u32>,
    pub certificates: Option<u32>,
    pub invalidcertificates: Option<u32>,
    pub taks: Option<u32>,
    pub tals: Option<u32>,
    pub invalidtals: Option<u32>,
    pub talfiles: Option<Vec<String>>,
    pub manifests: Option<u32>,
    pub failedmanifests: Option<u32>,
    pub crls: Option<u32>,
    pub gbrs: Option<u32>,
    pub repositories: Option<u32>,
    pub vrps: Option<u32>,
    pub uniquevrps: Option<u32>,
    pub vsps: Option<u32>,
    pub uniquevsps: Option<u32>,
    pub vaps: Option<u32>,
    pub uniquevaps: Option<u32>,
    pub cachedir_new_files: Option<u32>,
    pub cachedir_del_files: Option<u32>,
    pub cachedir_del_dirs: Option<u32>,
    pub cachedir_superfluous_files: Option<u32>,
    pub cachedir_del_superfluous_files: Option<u32>,
}

/// The records of one document and its run statistics; other top-level
/// keys are not read.
#[derive(Clone, Debug)]
pub struct RawRpkiClientData {
    pub metadata: RpkiClientMetadata,
    pub roas: Vec<RawRoaEntry>,
    pub aspas: Vec<RawAspaEntry>,
}

/// A normalised route origin record; the network is still text.
#[derive(Clone, Debug)]
pub struct RpkiClientRoaEntry {
    pub prefix: String,
    pub max_length: u8,
    pub asn: u32,
    pub ta: String,
    pub expires: u64,
}

/// A normalised provider authorisation.
#[derive(Clone, Debug)]
pub struct RpkiClientAspaEntry {
    pub customer_asid: u32,
    pub expires: i64,
    pub providers: Vec<u32>,
}

/// The normalised records of one document, with its run statistics.
#[derive(Clone, Debug)]
pub struct RpkiClientData {
    pub metadata: RpkiClientMetadata,
    pub roas: Vec<RpkiClientRoaEntry>,
    pub aspas: Vec<RpkiClientAspaEntry>,
}

impl JsonScalar {
    /// A copy of this value.
    pub fn copy(&self) -> (r: JsonScalar)
        ensures
            r == *self,
    {
        match self {
            JsonScalar::Integer(n) => JsonScalar::Integer(*n),
            JsonScalar::Text(s) => JsonScalar::Text(s.clone()),
            JsonScalar::Absent => JsonScalar::Absent,
            JsonScalar::Other => JsonScalar::Other,
        }
    }
}

/// Text that names an AS number: `AS` or `as` followed by at least one
/// digit and nothing else, with a value that fits 32 bits.
pub open spec fn asn_text_value(s: Seq<char>) -> Option<u32> {
    if s.len() >= 2 && ((s[0] == 'A' && s[1] == 'S') || (s[0] == 'a' && s[1] == 's')) {
        match digits_from(s, 2, u32::MAX as nat) {
            Some(v) => Some(v as u32),
            None => None,
        }
    } else {
        None
    }
}

/// The AS number a JSON value stands for: an integer that fits 32 bits, or
/// `AS<digits>` / `as<digits>` text. Errors name the field and hold the
/// value.
pub open spec fn asn_value(field: JsonField, v: JsonScalar) -> Result<u32, BgpkitCommonsError> {
    match v {
        JsonScalar::Integer(n) => if 0 <= n <= u32::MAX {
            Ok(n as u32)
        } else {
            Err(BgpkitCommonsError::AsnOutOfRange { field, value: v })
        },
        JsonScalar::Text(s) => match asn_text_value(s@) {
            Some(a) => Ok(a),
            None => Err(BgpkitCommonsError::InvalidAsn { field, value: v }),
        },
        _ => Err(BgpkitCommonsError::UnexpectedValue { field, value: v }),
    }
}

/// A record's expiry: a non-negative integer, zero when absent.
pub open spec fn expires_value(v: JsonScalar) -> Result<u64, BgpkitCommonsError> {
    match v {
        JsonScalar::Integer(n) => if n < 0 {
            Err(BgpkitCommonsError::NegativeTimestamp { field: JsonField::Expires, value: v })
        } else if n <= u64::MAX {
            Ok(n as u64)
        } else {
            Err(BgpkitCommonsError::UnexpectedValue { field: JsonField::Expires, value: v })
        },
        JsonScalar::Absent => Ok(0),
        _ => Err(BgpkitCommonsError::UnexpectedValue { field: JsonField::Expires, value: v }),
    }
}

/// A provider authorisation's expiry: a signed 64-bit integer, zero when
/// absent.
pub open spec fn signed_expires_value(v: JsonScalar) -> Result<i64, BgpkitCommonsError> {
    match v {
        JsonScalar::Integer(n) => if i64::MIN <= n <= i64::MAX {
            Ok(n as i64)
        } else {
            Err(BgpkitCommonsError::UnexpectedValue { field: JsonField::Expires, value: v })
        },
        JsonScalar::Absent => Ok(0),
        _ => Err(BgpkitCommonsError::UnexpectedValue { field: JsonField::Expires, value: v }),
    }
}

/// A maximum prefix length: an integer from 0 to 255.
pub open spec fn max_length_value(v: JsonScalar) -> Result<u8, BgpkitCommonsError> {
    match v {
        JsonScalar::Integer(n) => if 0 <= n <= u8::MAX {
            Ok(n as u8)
        } else {
            Err(BgpkitCommonsError::UnexpectedValue { field: JsonField::MaxLength, value: v })
        },
        _ => Err(BgpkitCommonsError::UnexpectedValue { field: JsonField::MaxLength, value: v }),
    }
}

/// Every field of the record can be normalised.
pub open spec fn roa_entry_ok(e: RawRoaEntry) -> bool {
    max_length_value(e.max_length) is Ok && asn_value(JsonField::Asn, e.asn) is Ok && expires_value(
        e.expires,
    ) is Ok
}

/// `n` is the normalised form of `e`.
pub open spec fn roa_entry_of(e: RawRoaEntry, n: RpkiClientRoaEntry) -> bool {
    &&& n.prefix@ == e.prefix@
    &&& n.ta@ == e.ta@
    &&& max_length_value(e.max_length) == Ok::<u8, BgpkitCommonsError>(n.max_length)
    &&& asn_value(JsonField::Asn, e.asn) == Ok::<u32, BgpkitCommonsError>(n.asn)
    &&& expires_value(e.expires) == Ok::<u64, BgpkitCommonsError>(n.expires)
}

/// Every field of the authorisation, and every provider, can be normalised.
pub open spec fn aspa_entry_ok(e: RawAspaEntry) -> bool {
    &&& asn_value(JsonField::CustomerAsn, e.customer) is Ok
    &&& signed_expires_value(e.expires) is Ok
    &&& forall|i: int|
        0 <= i < e.providers@.len() ==> (asn_value(JsonField::Provider, #[trigger] e.providers@[i]) is Ok)
}

/// `n` is the normalised form of `e`.
pub open spec fn aspa_entry_of(e: RawAspaEntry, n: RpkiClientAspaEntry) -> bool {
    &&& asn_value(JsonField::CustomerAsn, e.customer) == Ok::<u32, BgpkitCommonsError>(n.customer_asid)
    &&& signed_expires_value(e.expires) == Ok::<i64, BgpkitCommonsError>(n.expires)
    &&& n.providers@.len() == e.providers@.len()
    &&& forall|i: int|
        0 <= i < e.providers@.len() ==> asn_value(JsonField::Provider, #[trigger] e.providers@[i])
            == Ok::<u32, BgpkitCommonsError>(n.providers@[i])
}

/// An AS number given as an integer and the same number written as
/// `AS<digits>` normalise to the same value.
pub proof fn law_asn_forms_agree(n: u32, text: String, field: JsonField)
    requires
        text@ == seq!['A', 'S'] + decimal_of(n as nat),
    ensures
        asn_value(field, JsonScalar::Integer(n as i128)) == Ok::<u32, BgpkitCommonsError>(n),
        asn_value(field, JsonScalar::Text(text)) == Ok::<u32, BgpkitCommonsError>(n),
{
    lemma_decimal_round_trip(n as nat);
    let d = decimal_of(n as nat);
    assert(text@.skip(2) =~= d);
    assert(digits_from(text@, 2, u32::MAX as nat) == Some(n as nat));
}

/// Normalises an AS number given as an integer or as `AS<digits>` /
/// `as<digits>` text; `field` names the field in errors.
pub fn normalize_asn(field: JsonField, v: &JsonScalar) -> (r: Result<u32, BgpkitCommonsError>)
    ensures
        r == asn_value(field, *v),
{
    match v {
        JsonScalar::Integer(n) => {
            if 0 <= *n && *n <= 0xFFFF_FFFF {
                Ok(*n as u32)
            } else {
                Err(BgpkitCommonsError::AsnOutOfRange { field, value: v.copy() })
            }
        },
        JsonScalar::Text(s) => {
            let t = s.as_str();
            let n = t.unicode_len();
            if n >= 2 && ((t.get_char(0) == 'A' && t.get_char(1) == 'S') || (t.get_char(0) == 'a'
                && t.get_char(1) == 's')) {
                match parse_digits_from(t, 2, 0xFFFF_FFFF) {
                    Some(a) => return Ok(a as u32),
                    None => {},
                }
            }
            Err(BgpkitCommonsError::InvalidAsn { field, value: v.copy() })
        },
        _ => Err(BgpkitCommonsError::UnexpectedValue { field, value: v.copy() }),
    }
}

/// Normalises a record's expiry.
pub fn normalize_expires(v: &JsonScalar) -> (r: Result<u64, BgpkitCommonsError>)
    ensures
        r == expires_value(*v),
{
    match v {
        JsonScalar::Integer(n) => {
            if *n < 0 {
                Err(BgpkitCommonsError::NegativeTimestamp { field: JsonField::Expires, value: v.copy() })
            } else if *n <= 0xFFFF_FFFF_FFFF_FFFF {
                Ok(*n as u64)
            } else {
                Err(BgpkitCommonsError::UnexpectedValue { field: JsonField::Expires, value: v.copy() })
            }
        },
        JsonScalar::Absent => Ok(0),
        _ => Err(BgpkitCommonsError::UnexpectedValue { field: JsonField::Expires, value: v.copy() }),
    }
}

/// Normalises a provider authorisation's expiry.
pub fn normalize_signed_expires(v: &JsonScalar) -> (r: Result<i64, BgpkitCommonsError>)
    ensures
        r == signed_expires_value(*v),
{
    match v {
        JsonScalar::Integer(n) => {
            if -0x8000_0000_0000_0000 <= *n && *n <= 0x7FFF_FFFF_FFFF_FFFF {
                Ok(*n as i64)
            } else {
                Err(BgpkitCommonsError::UnexpectedValue { field: JsonField::Expires, value: v.copy() })
            }
        },
        JsonScalar::Absent => Ok(0),
        _ => Err(BgpkitCommonsError::UnexpectedValue { field: JsonField::Expires, value: v.copy() }),
    }
}

/// Normalises a maximum prefix length.
pub fn normalize_max_length(v: &JsonScalar) -> (r: Result<u8, BgpkitCommonsError>)
    ensures
        r == max_length_value(*v),
{
    match v {
        JsonScalar::Integer(n) => {
            if 0 <= *n && *n <= 255 {
                Ok(*n as u8)
            } else {
                Err(BgpkitCommonsError::UnexpectedValue { field: JsonField::MaxLength, value: v.copy() })
            }
        },
        _ => Err(BgpkitCommonsError::UnexpectedValue { field: JsonField::MaxLength, value: v.copy() }),
    }
}

impl RpkiClientRoaEntry {
    /// Normalises one route origin record.
    pub fn from_raw(e: &RawRoaEntry) -> (r: Result<RpkiClientRoaEntry, BgpkitCommonsError>)
        ensures
            r is Ok <==> roa_entry_ok(*e),
            r matches Ok(n) ==> roa_entry_of(*e, n),
    {
        let max_length = match normalize_max_length(&e.max_length) {
            Ok(m) => m,
            Err(err) => return Err(err),
        };
        let asn = match normalize_asn(JsonField::Asn, &e.asn) {
            Ok(a) => a,
            Err(err) => return Err(err),
        };
        let expires = match normalize_expires(&e.expires) {
            Ok(x) => x,
            Err(err) => return Err(err),
        };
        Ok(RpkiClientRoaEntry {
            prefix: e.prefix.clone(),
            max_length,
            asn,
            ta: e.ta.clone(),
            expires,
        })
    }
}

impl RpkiClientAspaEntry {
    /// Normalises one provider authorisation; one provider that cannot be
    /// read fails the whole record.
    pub fn from_raw(e: &RawAspaEntry) -> (r: Result<RpkiClientAspaEntry, BgpkitCommonsError>)
        ensures
            r is Ok <==> aspa_entry_ok(*e),
            r matches Ok(n) ==> aspa_entry_of(*e, n),
    {
        let customer_asid = match normalize_asn(JsonField::CustomerAsn, &e.customer) {
            Ok(a) => a,
            Err(err) => return Err(err),
        };
        let expires = match normalize_signed_expires(&e.expires) {
            Ok(x) => x,
            Err(err) => return Err(err),
        };
        let mut providers: Vec<u32> = Vec::new();
        let mut i: usize = 0;
        while i < e.providers.len()
            invariant
                i <= e.providers@.len(),
                providers@.len() == i,
                forall|j: int|
                    0 <= j < i ==> asn_value(JsonField::Provider, #[trigger] e.providers@[j]) == Ok::<
                        u32,
                        BgpkitCommonsError,
                    >(providers@[j]),
            decreases e.providers@.len() - i,
        {
            match normalize_asn(JsonField::Provider, &e.providers[i]) {
                Ok(a) => providers.push(a),
                Err(err) => return Err(err),
            }
            i = i + 1;
        }
        Ok(RpkiClientAspaEntry { customer_asid, expires, providers })
    }
}

impl RpkiClientData {
    /// Normalises a whole document: fails, with the error of a record that
    /// cannot be read, when any record cannot be read.
    pub fn from_raw(raw: RawRpkiClientData) -> (r: Result<RpkiClientData, BgpkitCommonsError>)
        ensures
            r is Ok <==> (forall|i: int|
                0 <= i < raw.roas@.len() ==> roa_entry_ok(#[trigger] raw.roas@[i])) && (forall|
                i: int,
            |
                0 <= i < raw.aspas@.len() ==> aspa_entry_ok(#[trigger] raw.aspas@[i])),
            r matches Ok(d) ==> {
                &&& d.metadata == raw.metadata
                &&& d.roas@.len() == raw.roas@.len()
                &&& d.aspas@.len() == raw.aspas@.len()
                &&& forall|i: int|
                    0 <= i < raw.roas@.len() ==> roa_entry_of(
                        #[trigger] raw.roas@[i],
                        d.roas@[i],
                    )
                &&& forall|i: int|
                    0 <= i < raw.aspas@.len() ==> aspa_entry_of(
                        #[trigger] raw.aspas@[i],
                        d.aspas@[i],
                    )
            },
    {
        let mut roas: Vec<RpkiClientRoaEntry> = Vec::new();
        let mut i: usize = 0;
        while i < raw.roas.len()
            invariant
                i <= raw.roas@.len(),
                roas@.len() == i,
                forall|j: int| 0 <= j < i ==> roa_entry_ok(#[trigger] raw.roas@[j]),
                forall|j: int| 0 <= j < i ==> roa_entry_of(#[trigger] raw.roas@[j], roas@[j]),
            decreases raw.roas@.len() - i,
        {
            match RpkiClientRoaEntry::from_raw(&raw.roas[i]) {
                Ok(n) => roas.push(n),
                Err(err) => return Err(err),
            }
            i = i + 1;
        }
        let mut aspas: Vec<RpkiClientAspaEntry> = Vec::new();
        let mut i: usize = 0;
        while i < raw.aspas.len()
            invariant
                i <= raw.aspas@.len(),
                aspas@.len() == i,
                forall|j: int| 0 <= j < i ==> aspa_entry_ok(#[trigger] raw.aspas@[j]),
                forall|j: int| 0 <= j < i ==> aspa_entry_of(#[trigger] raw.aspas@[j], aspas@[j]),
            decreases raw.aspas@.len() - i,
        {
            match RpkiClientAspaEntry::from_raw(&raw.aspas[i]) {
                Ok(n) => aspas.push(n),
                Err(err) => return Err(err),
            }
            i = i + 1;
        }
        Ok(RpkiClientData { metadata: raw.metadata, roas, aspas })
    }
}

} // verus!
