//! Verified core of a desktop chat bridge: stream normalisation for two chat
//! backends, the agent process output multiplexer, and the three persisted
//! stores (approval queue, memory log, knowledge graph).
pub mod agent;
pub mod bridge;
pub mod command;
pub mod envfile;
pub mod graph;
pub mod memory;
pub mod models;
pub mod stream;
pub mod text;
