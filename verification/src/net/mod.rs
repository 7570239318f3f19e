//! Socket addresses: their text forms and their binary form.

pub mod addr;
pub mod ipv4;
pub mod ipv6;
pub mod ipv6_laws;
pub mod socket;
