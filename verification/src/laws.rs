//! What holds of numerals, of addresses and their text, of keys, of
//! registrations and of the store.

pub mod colon;
pub mod dotted;
pub mod history;
pub mod keys;
pub mod numerals;
pub mod registration;
pub mod store;
