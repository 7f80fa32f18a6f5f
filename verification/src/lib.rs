//! Clusterfile parsing, parse arenas and the bookkeeping around devices that
//! a clusterfile is applied to.

pub mod text;
pub mod arena;
pub mod destination;
pub mod device;
pub mod error;
pub mod parse;
pub mod render;
pub mod module;
pub mod state;
pub mod setup;
pub mod k3;
pub mod cluster_config;
pub mod keys;
