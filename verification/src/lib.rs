//! A graph engine for architecture descriptions, and the prompt tooling that
//! grew around it.
//!
//! The engine: a model of typed nodes and weighted edges with an adjacency
//! matrix ([`model`]), a parser for a small description language
//! ([`parser`]), a force-directed layout ([`optimizer`]), a detector of
//! structural anti-patterns ([`anti_patterns`]) with what is proved of it
//! ([`theorems`], [`cycle_theorems`]), an exporter to a graph-description
//! text format ([`viz`]), the interchange format ([`interchange`]) and the
//! log of a session ([`session_log`]).  Numbers are fixed-point scalars
//! ([`fixed`]); [`text`] holds what the modules share in handling text.
//!
//! The prompt tooling: the context of a prompt ([`context`]), what a prompt
//! asks for ([`inference`]), its refinement ([`refinement`], [`agent`],
//! [`user_interaction`]), its routing ([`routing`]), the caching proxy
//! ([`proxy`], [`config`]) and the events on the way ([`telemetry`]).
pub mod error;
pub mod fixed;
pub mod text;
pub mod model;
pub mod parser;
pub mod optimizer;
pub mod anti_patterns;
pub mod theorems;
pub mod cycle_theorems;
pub mod viz;
pub mod interchange;
pub mod session_log;
pub mod context;
pub mod inference;
pub mod refinement;
pub mod agent;
pub mod user_interaction;
pub mod routing;
pub mod proxy;
pub mod config;
pub mod telemetry;
