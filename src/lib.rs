//! Local-to-remote tunnelling core: resolving the target peer of an HTTP
//! request, reading bridge URLs, and the state machines that decide what the
//! bridge listeners, the per-client datagram sessions and the bridge registry do.

pub mod text;
pub mod resolver;
pub mod url;
pub mod sessions;
pub mod supervisor;
pub mod listener;
