//! Print-job text handling, authentication and relay logic of a thermal
//! printer relay, with their contracts.
pub mod text;
pub mod wrap;
pub mod normalize;
pub mod printout;
pub mod page;
pub mod job;
pub mod auth;
pub mod broadcast;
pub mod relay;
pub mod handlers;
pub mod client;
