//! Proxy model and proxy-tree state of a Clash controller, with verified contracts.

pub mod proxy_type;
pub mod names;
pub mod proxies;
pub mod providers;
pub mod tree;
pub mod group_order;
pub mod text;
pub mod connection;
pub mod latency;
pub mod schedule;
