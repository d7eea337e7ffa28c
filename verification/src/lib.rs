//! Verified core logic of a set of small network services: a price
//! database with mean queries, a chat room, a primality service and a
//! key/value store that answers over datagrams.

pub mod means_to_an_end;
mod std_order;
pub mod budget_chat;
pub mod prime_time;
pub mod unusual_db;
mod chars;
