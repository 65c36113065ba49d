//! Name records: how nodes find each other.
pub mod address;
pub mod name_record;
pub mod peers;
pub mod ports;
