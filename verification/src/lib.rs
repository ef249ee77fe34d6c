//! A verified library holding the data structures and decision logic of a
//! Nano node: block prioritisation, backlog and frontier bookkeeping,
//! message framing and configuration handling.

pub mod primitives;
pub mod bucketing;
pub mod crypto;
pub mod blocks;
pub mod assoc;
pub mod lattice;
pub mod unsaved_lattice;
pub mod open_builder;
pub mod seqs;
pub mod backlog_index;
pub mod ordered_heads;
pub mod frontier_scan;
pub mod messages;
pub mod message_deserializer;
pub mod network;
pub mod bandwidth_limiter;
pub mod config;
pub mod timer;
pub mod block_processing;
pub mod backlog_scan;
pub mod bounded_backlog;
pub mod confirming_set;
pub mod confirmation_solicitor;
pub mod ordered_blocks;
pub mod online_weight;
pub mod encoding;
pub mod http_callbacks;
pub mod peer_scoring;
pub mod channel;
pub mod priority_scheduler;
pub mod keepalive;
pub mod bootstrap;
pub mod data_receiver;
pub mod flooding;
pub mod bootstrap_weights;
