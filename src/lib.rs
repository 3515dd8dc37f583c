//! A pipeline of Wasm stages connected by topics.
//!
//! The library holds the rules of the pipeline, each with its contract:
//! the frames messages travel in ([`message`]), the bridge halves between
//! the orchestrator and a stage ([`channel`]), the route table and the
//! router's decision on each frame ([`routing`]), the orchestrator's
//! bookkeeping of stages and bridges ([`orchestrator`]), the configuration
//! and wiring rules ([`config`]), the host's checks on what a Wasm guest
//! hands over ([`host`]) and the guest's message handler ([`sdk`]).

pub mod channel;
pub mod config;
pub mod host;
pub mod message;
pub mod orchestrator;
pub mod routing;
pub mod sdk;
pub mod wasm;
