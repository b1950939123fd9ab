//! Working with other systems: message processing, monitoring and logging.

pub mod logger;
pub mod monitor;
pub mod thread_pool;

pub use monitor::MonitoredServer;
pub use thread_pool::{
    CompressionProcessor, DecompressionProcessor, EncryptionProcessor, IdentityProcessor,
    MessageProcessor, ProcessorPipeline,
};
