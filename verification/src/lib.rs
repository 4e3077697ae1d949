//! A Bluetooth Low Energy transport for iroh: what it decides, proved.
//!
//! Nothing here waits, reads a clock or touches a radio. Reports and times come
//! in as values, and what is to be done goes out as values.
//!
//! The modules whose names end in `_laws` state what the commands of the registry
//! and the routing tables are for; laws about one module stand in it.

pub mod address;
pub mod bytes;
pub mod channel;
pub mod dedup;
pub mod dial;
pub mod direct;
pub mod driver;
pub mod error;
pub mod events;
pub mod gatt;
pub mod hook;
pub mod keys;
pub mod l2cap;
pub mod lifecycle;
pub mod link_laws;
pub mod peer;
pub mod peer_laws;
pub mod pipe;
pub mod pipe_watchdog;
pub mod receive;
pub mod registry;
pub mod registry_laws;
pub mod registry_order;
pub mod resolve;
pub mod routing;
pub mod routing_laws;
pub mod routing_v2;
pub mod setup;
pub mod store;
pub mod sweep_laws;
pub mod table;
pub mod text;
pub mod time;
pub mod transport;
