//! A chat room: participants pick a name, then every line one of them sends
//! is relayed to all the others, with notices of arrivals and departures.

pub mod username;
pub mod message;
pub mod room;
pub mod session;
