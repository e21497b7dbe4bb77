//! A client-side layer over multicast service discovery: a live registry of
//! discovered service instances, fed by resolve/remove events, together with
//! a snapshot publisher that hands consistent copies of the registry to a
//! consumer, and a one-shot announce flow for publishing a service.

pub mod announce;
pub mod hostcfg;
pub mod publisher;
pub mod record;
pub mod reducer;
pub mod registry;
pub mod session;
pub mod text;
