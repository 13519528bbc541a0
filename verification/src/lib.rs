//! A dynamically resizable circular buffer and the queues built around it.

pub mod binary64;
pub mod binary64_laws;
pub mod buffer;
pub mod buffer_laws;
pub mod bytes;
pub mod config;
pub mod error;
pub mod lock_free;
pub mod lock_free_laws;
pub mod log_format;
pub mod metrics;
pub mod metrics_laws;
pub mod persistent;
pub mod persistent_laws;
pub mod priority;
pub mod priority_laws;
pub mod ring;
pub mod streams;
pub mod text;
pub mod time;

pub use buffer::DynamicCircularBuffer;
pub use config::Config;
pub use error::{BufferError, BufferResult};
pub use lock_free::{LockFreeMPSCQueue, QueueStats};
