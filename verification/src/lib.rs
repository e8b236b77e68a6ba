//! Machine inventory core: address resolution through a network priority
//! graph, WireGuard address allocation, and the pure planning logic behind
//! machine provisioning.

pub mod allocator;
pub mod errors;
pub mod ip;
pub mod laws;
pub mod links;
pub mod machines;
pub mod provision;
pub mod render;
pub mod resolver;
pub mod template;
pub mod text;
