//! Offline classification of IP addresses by country and coarse region, from
//! the allocation statistics that the regional internet registries publish.
//!
//! The [`GeoIpDb`] holds a sorted table of allocated ranges for each address
//! family and answers lookups by binary search. Tables come from a built-in
//! snapshot or are built from the text of a statistics file.
//!
//! An allocation says which registry member holds a block of addresses, not
//! where its hosts are: the answers are fit for policy decisions such as "EU
//! or not", not for locating anybody.
//!
//! # Parts
//!
//! - [`text`]: separators, fields and numbers in the bytes of a text
//! - [`address`]: addresses as numbers, and their textual forms
//! - [`record`]: the record parser
//! - [`geo`] and [`policy`]: the classification and the lists it is made from
//! - [`table`]: range tables and the lookup
//! - [`sorting`] and [`builder`]: from records to sorted tables
//! - [`embedded`]: the built-in snapshot
//! - [`database`]: the database itself
//! - [`refresh`]: the order of steps of a refresh of the cache file
//!
//! Addresses are plain numbers here: an IPv4 address is a `u32`, an IPv6
//! address a `u128`, and [`IpAddress`] is either. Reading files and fetching
//! them is left to the caller, who hands the library their content.

pub mod address;
pub mod builder;
pub mod database;
pub mod embedded;
pub mod geo;
pub mod policy;
pub mod record;
pub mod refresh;
pub mod sorting;
pub mod table;
pub mod text;

pub use address::IpAddress;
pub use database::{DbStats, GeoIpDb};
pub use geo::{GeoInfo, Region};
pub use record::{parse_ripe_delegated, IpRange};
