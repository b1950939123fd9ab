//! Messages and the state of clients, servers and queues that carry them.

pub mod assembly;
pub mod buffer;
pub mod channel;
pub mod client;
pub mod container;
pub mod message;
pub mod message_queue;
pub mod permits;
pub mod server;

pub use client::{ClientConfig, ClientState, TcpClient};
pub use message::{Message, MAX_MESSAGE_SIZE};
pub use message_queue::{MessageQueue, MessageQueueConfig, MessageQueueStats};
pub use server::{ServerConfig, TcpServer};
