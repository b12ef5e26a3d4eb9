//! Validation of route origins against RPKI data, and the small lookup
//! tables (countries, AS organisations, AS relationships, bogons) that sit
//! beside it.

pub mod as2rel;
pub mod asinfo;
pub mod bogons;
pub mod commons;
pub mod countries;
pub mod errors;
pub mod mrt_collectors;
pub mod prefix;
pub mod rpki;
pub mod text;
pub mod time;
