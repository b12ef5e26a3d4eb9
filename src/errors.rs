//! The library's error type.

use crate::rpki::rpki_client::JsonScalar;
use crate::rpki::sources::RpkiViewsCollector;
use crate::time::Date;
use vstd::prelude::*;

verus! {

/// The data sets the library can hold.
#[derive(Clone, Copy, Debug, PartialEq, Eq, Structural)]
pub enum Module {
    Countries,
    Rpki,
    Bogons,
    Asinfo,
    As2rel,
    MrtCollectors,
    MrtCollectorPeers,
}

/// The JSON fields whose values are normalised.
#[derive(Clone, Copy, Debug, PartialEq, Eq, Structural)]
pub enum JsonField {
    Asn,
    MaxLength,
    Expires,
    CustomerAsn,
    Provider,
}

/// Why an operation failed.
#[derive(Clone, Debug, PartialEq, Eq)]
pub enum BgpkitCommonsError {
    /// The data set has not been loaded.
    ModuleNotLoaded(Module),
    /// The data set was loaded without the part this operation needs.
    ModuleNotConfigured(Module),
    /// Text that is not an IP network.
    InvalidPrefix(String),
    /// An AS number given as text that is not `AS<digits>` or `as<digits>`
    /// with a value that fits 32 bits.
    InvalidAsn { field: JsonField, value: JsonScalar },
    /// An AS number given as an integer that does not fit in 32 bits.
    AsnOutOfRange { field: JsonField, value: JsonScalar },
    /// A timestamp below zero.
    NegativeTimestamp { field: JsonField, value: JsonScalar },
    /// A field of the wrong type, or a required field that is missing.
    UnexpectedValue { field: JsonField, value: JsonScalar },
    /// An AS number range that is not `a-b` or `a`.
    InvalidAsnRange(String),
    /// A row with fewer or more fields than its format has.
    MissingFields(String),
    /// A day that is not in the calendar.
    InvalidDate(Date),
    /// A collector lists no archive for the date.
    NoDataAvailable { collector: RpkiViewsCollector, date: Date },
    /// An archive ended without the member asked for.
    MemberNotFound { member: String, url: String },
}

} // verus!
