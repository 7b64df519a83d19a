//! A low-latency single-producer/single-consumer transport primitive:
//! a bounded ring buffer with wraparound-safe counters, a channel state
//! machine layered on it, and small supporting allocators and pools.

pub mod affinity;
pub mod arena_allocator;
pub mod channel;
pub mod object_pool;
pub mod ring_buffer;

pub use ring_buffer::RingBuffer;
