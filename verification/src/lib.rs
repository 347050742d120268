//! In-memory spatial knowledge substrate.
//!
//! * [`token`] and [`connection_v3`]: the fixed-size records, tokens with a
//!   position in eight coordinate spaces and learning connections between
//!   them, with their binary layouts ([`layout`]).
//! * [`graph`]: nodes and edges under a deterministic edge identity;
//!   [`activation`] spreads a signal over the edges.
//! * [`experience`], [`hot_buffer`], [`sampling`]: events, the ring that
//!   retains the most recent of them, and the drawing of batches.
//! * [`experience_stream`]: the ring shared between producers and
//!   consumers; [`intuition_engine`] samples it in cycles.
//! * [`workload`]: bulk operations that fill and exercise each part at a
//!   given scale.
//!
//! The library holds no floating-point numbers. Token weights and
//! positions and event states are 32-bit words that carry IEEE-754
//! encodings untouched; edge weights, signal strengths and confidence are
//! fixed-point integers.

use vstd::prelude::*;

pub mod activation;
pub mod connection_v3;
pub mod experience;
pub mod experience_stream;
pub mod graph;
pub mod hot_buffer;
pub mod intuition_engine;
pub mod layout;
pub mod sampling;
pub mod token;
pub mod workload;

pub use activation::AccumulationMode;
pub use activation::ActivatedNode;
pub use activation::ActivationResult;
pub use activation::SignalConfig;
pub use connection_v3::Connection;
pub use connection_v3::ConnectionType;
pub use connection_v3::ConnectionV3;
pub use experience::ExperienceEvent;
pub use experience::StreamError;
pub use experience_stream::ExperienceStream;
pub use graph::EdgeId;
pub use graph::EdgeInfo;
pub use graph::Graph;
pub use graph::GraphError;
pub use graph::NodeId;
pub use hot_buffer::HotBuffer;
pub use intuition_engine::BuildError;
pub use intuition_engine::IntuitionConfig;
pub use intuition_engine::IntuitionEngine;
pub use intuition_engine::IntuitionEngineBuilder;
pub use sampling::SamplingStrategy;
pub use token::CoordinateSpace;
pub use token::EntityType;
pub use token::Token;

verus! {

/// Release of this crate, as `major.minor.patch`.
pub const VERSION: &'static str = "0.47.0";

pub const VERSION_MAJOR: u8 = 0;

pub const VERSION_MINOR: u8 = 47;

pub const VERSION_PATCH: u8 = 0;

} // verus!
