//! In-process core of a browser-tab bridge: a registry of tab state with
//! merge-on-update semantics, a framed JSON message codec, and a token-based
//! request/response correlator, all with machine-checked contracts.
pub mod assoc;
pub mod bridge;
pub mod codec;
pub mod correlator;
pub mod registry;
pub mod tabs;
