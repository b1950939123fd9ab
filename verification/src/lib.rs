//! Rust Network System: networking building blocks whose behaviour is stated and proved.
//!
//! - Length-prefixed message protocol, and queues of messages
//! - What a TCP client, server and session do next, given what happened
//! - Caches, connection pools and load balancing
//! - Circuit breakers, rate limits and graceful shutdown
//! - Tracing, TLS configuration and message processing
//!
//! Nothing here reads or writes a socket or a file. Whoever does asks this library what
//! is due, does it, and reports what came of it.

mod chance;
pub mod error;
pub mod integration;
pub mod key;
pub mod network;
pub mod pooling;
pub mod session;
pub mod stability;
pub mod text;
pub mod time;
pub mod tls;
pub mod tracing;

pub use error::NetworkError;
pub use network::{ClientConfig, Message, ServerConfig, TcpClient, TcpServer, MAX_MESSAGE_SIZE};
pub use pooling::{
    Backend, BackendGuard, Cache, CacheConfig, ConnectionPool, HealthCheckConfig, LoadBalancer,
    LoadBalancerConfig, PoolConfig, PoolError, Strategy, TieredCache,
};
pub use session::{Session, SessionState};
pub use stability::{
    CircuitBreaker, CircuitBreakerConfig, CircuitBreakerError, CircuitState, GracefulShutdown,
    KeyedRateLimiter, RateLimiter, RateLimiterConfig, ShutdownCoordinator, ShutdownSignal,
};
pub use tls::TlsConfig;
pub use tracing::{Span, SpanCollector, TraceContext};
