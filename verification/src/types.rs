//! The units that configuration files describe, and the fields they share.
pub mod fields;

pub mod test;
pub mod jig;
pub mod logger;
pub mod trigger;
pub mod interface;
pub mod deps;
pub mod ordering;
pub mod scenario;
