//! Federation core: time-bounded caching, coalescing of remote fetches,
//! account discovery, mention scanning and a retrying job queue.
//!
//! Nothing here touches the network or the clock. Each component decides
//! what is to be done from the state it holds, the instant it is given and
//! what the caller reports back; the caller performs it.

pub mod bytes;
pub mod cache;
pub mod fetcher;
pub mod inflight;
pub mod job;
pub mod resolve;
pub mod setup;
pub mod uri;
pub mod webfinger;
