//! Record keeping for a fleet of vehicles and the couplings that join them:
//! request parsing, routing, form validation, coupling membership and export.

pub mod text;
pub mod value_multiset;
pub mod form;
pub mod router;
pub mod request;
pub mod config;
pub mod vehicle;
pub mod coupling;
pub mod export;
pub mod reply;
