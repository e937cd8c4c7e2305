//! The decisions of a WireGuard subscriber: a node that keeps its interface as
//! a server describes it over MQTT.
//!
//! The library reads what the tools of the system print, what the server
//! publishes and what the environment sets, and answers with what to do: the
//! arguments of commands, the endpoint to use, the time to wait. It runs no
//! command and opens no connection itself. What it answers is stated in the
//! contracts, over models of the data in plain mathematical terms.
//!
//! - `text`, `list`, `table` and `clock` are the ground: texts, sequences,
//!   tables from names to values, and spans of time.
//! - `state` is the interface as it is, `peer` how a peer comes onto it,
//!   `retry` how that is tried again.
//! - `net` and `lan` are the local networks, and peers that are reached there.
//! - `address`, `routes`, `amnezia`, `port` and `interface` are the rest of
//!   what is configured.
//! - `relay` and `relay_pass` are the peers that carry the traffic of others.
//! - `snapshot`, `snapshot_pass` and `delta` are what the server publishes.
//! - `session`, `transport`, `schedule`, `traffic` and `config` are the
//!   connection, what is done when, the reports and the settings.
//! - `foreign` holds the calls into other crates, with what is trusted of them.
pub mod address;
pub mod amnezia;
pub mod clock;
pub mod config;
pub mod delta;
pub mod foreign;
pub mod interface;
pub mod lan;
pub mod list;
pub mod net;
pub mod peer;
pub mod port;
pub mod relay;
pub mod relay_pass;
pub mod retry;
pub mod routes;
pub mod schedule;
pub mod session;
pub mod snapshot;
pub mod snapshot_pass;
pub mod state;
pub mod table;
pub mod text;
pub mod traffic;
pub mod transport;
