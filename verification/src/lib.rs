//! Verified core of the Reactor actor framework: priority channels, message
//! routing, chaos injection, placement of operators and the decisions of the
//! node and job controllers.

pub mod addr_map;
pub mod behaviour;
pub mod lib_builder;
pub mod chaos;
pub mod codec;
pub mod codegen;
pub mod converters;
pub mod handshake;
pub mod job;
pub mod message;
pub mod node;
pub mod placement;
pub mod priority;
pub mod processor;
pub mod receive;
pub mod rpc;
pub mod send;
pub mod sorted_map;
pub mod text;
