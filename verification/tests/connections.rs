use rust_network_system::network::assembly::{ReadOutcome, WriteOutcome};
use rust_network_system::network::client::{
    DialOutcome, KeepAliveOutcome, Recovery, SendOutcome, TryWriteOutcome,
};
use rust_network_system::network::server::BindOutcome;
use rust_network_system::network::{
    ClientConfig, ClientState, MessageQueue, MessageQueueConfig, ServerConfig, TcpClient, TcpServer,
};
use rust_network_system::session::{generate_session_id, Session, SessionState};
use rust_network_system::time::{Clock, Duration, Instant};
use rust_network_system::{Message, NetworkError};

fn at(millis: u64) -> Instant {
    Instant::after_start(Duration::from_millis(millis))
}

fn connected(config: ClientConfig) -> TcpClient {
    let mut client = TcpClient::with_config("127.0.0.1:9001", config.with_keep_alive(None));
    client.connect().unwrap();
    assert!(client.dialed(DialOutcome::Opened).unwrap().is_none());
    client
}

#[test]
fn test_client_config() {
    let config = ClientConfig::new()
        .with_connect_timeout(Duration::from_secs(5))
        .with_read_timeout(Duration::from_secs(10))
        .with_auto_reconnect(false);

    assert_eq!(config.connect_timeout, Duration::from_secs(5));
    assert_eq!(config.read_timeout, Duration::from_secs(10));
    assert!(!config.auto_reconnect);
}

#[test]
fn client_config_default() {
    let config = ClientConfig::default().with_write_timeout(Duration::from_secs(7));
    assert_eq!(config.connect_timeout, Duration::from_secs(10));
    assert_eq!(config.read_timeout, Duration::from_secs(30));
    assert_eq!(config.write_timeout, Duration::from_secs(7));
    assert_eq!(config.keep_alive, Some(Duration::from_secs(60)));
    assert!(config.auto_reconnect);
    assert_eq!(config.max_reconnect_attempts, 3);
}

#[test]
fn test_client_creation() {
    let client = TcpClient::new("127.0.0.1:8080");
    assert!(!client.is_connected());
    assert_eq!(client.address(), "127.0.0.1:8080");
}

#[test]
fn test_client_connect_disconnect() {
    let mut client = TcpClient::new("127.0.0.1:9002");
    assert!(!client.is_connected());

    assert_eq!(client.connect().unwrap(), Duration::from_secs(10));
    assert_eq!(client.state(), ClientState::Connecting);
    let keep_alive = client.dialed(DialOutcome::Opened).unwrap();
    assert_eq!(keep_alive, Some(Duration::from_secs(60)));
    assert!(!client.is_connected());
    client.keep_alive_set(KeepAliveOutcome::Applied).unwrap();
    assert!(client.is_connected());

    assert!(client.disconnect());
    assert!(!client.is_connected());
    assert!(!client.disconnect());
}

#[test]
fn client_connects_once() {
    let mut client = connected(ClientConfig::new());
    let refused = client.connect().unwrap_err();
    assert_eq!(refused.to_string(), "Invalid state: Client is already connected or connecting");
    assert!(client.is_connected());
}

#[test]
fn client_tells_why_connecting_failed() {
    let outcomes = vec![
        (
            DialOutcome::InvalidAddress("bad".to_string()),
            "Invalid address: Invalid address: bad",
        ),
        (DialOutcome::TimedOut, "Operation timed out: Connection timed out"),
        (
            DialOutcome::Failed("refused".to_string()),
            "Connection error: Failed to connect: refused",
        ),
    ];
    for (outcome, told) in outcomes {
        let mut client = TcpClient::new("x");
        client.connect().unwrap();
        assert_eq!(client.dialed(outcome).unwrap_err().to_string(), told);
        assert_eq!(client.state(), ClientState::Connecting);
    }
    let outcomes = vec![
        (
            KeepAliveOutcome::NotDetached("a".to_string()),
            "Network error: Failed to convert tokio stream to std: a",
        ),
        (
            KeepAliveOutcome::NotSet("b".to_string()),
            "Network error: Failed to set keep-alive: b",
        ),
        (
            KeepAliveOutcome::NotNonblocking("c".to_string()),
            "Network error: Failed to restore nonblocking mode after keep-alive config: c",
        ),
        (
            KeepAliveOutcome::NotAttached("d".to_string()),
            "Network error: Failed to convert std socket back to tokio: d",
        ),
    ];
    for (outcome, told) in outcomes {
        let mut client = TcpClient::new("x");
        client.connect().unwrap();
        client.dialed(DialOutcome::Opened).unwrap();
        assert_eq!(client.keep_alive_set(outcome).unwrap_err().to_string(), told);
        assert!(!client.is_connected());
    }
}

#[test]
fn test_echo_message() {
    let client = connected(ClientConfig::new());
    let original = Message::new("Hello, World!");
    let data = client.send(&original).unwrap();
    assert!(client.sent(SendOutcome::Ready(WriteOutcome::Written)).is_ok());

    let mut reception = client.receive().unwrap();
    assert_eq!(reception.read_timeout(), Duration::from_secs(30));
    assert!(reception.poll(Duration::from_secs(1)).unwrap().is_none());
    reception.supply(ReadOutcome::Data(data[..5].to_vec())).unwrap();
    assert!(reception.poll(Duration::from_secs(2)).unwrap().is_none());
    reception.supply(ReadOutcome::Data(data[5..].to_vec())).unwrap();
    let response = reception.poll(Duration::from_secs(3)).unwrap().unwrap();

    assert_eq!(original.data(), response.data());
}

#[test]
fn reception_ends_after_three_read_timeouts() {
    let client = connected(ClientConfig::new().with_read_timeout(Duration::from_secs(2)));
    let mut reception = client.receive().unwrap();
    assert!(reception.poll(Duration::from_millis(5999)).unwrap().is_none());
    assert!(reception.poll(Duration::from_millis(6000)).is_err());
}

#[test]
fn client_that_is_not_connected_refuses() {
    let client = TcpClient::new("x");
    let message = Message::new("m");
    let told = "Invalid state: Client is not connected";
    assert_eq!(client.send(&message).unwrap_err().to_string(), told);
    assert_eq!(client.try_send(&message).unwrap_err().to_string(), told);
    assert_eq!(client.receive().err().unwrap().to_string(), told);
}

#[test]
fn sending_is_told() {
    let client = connected(ClientConfig::new());
    let told = |outcome: SendOutcome| client.sent(outcome).unwrap_err().to_string();
    assert_eq!(
        told(SendOutcome::NotReady),
        "Operation timed out: Socket not ready for writing (backpressure)"
    );
    assert_eq!(
        told(SendOutcome::ReadyFailed("x".to_string())),
        "Connection error: Failed to check writability: x"
    );
    assert_eq!(
        told(SendOutcome::Ready(WriteOutcome::TimedOut)),
        "Operation timed out: Write timed out"
    );
    assert_eq!(
        told(SendOutcome::Ready(WriteOutcome::Failed("x".to_string()))),
        "Connection error: Failed to write: x"
    );
    let huge = Message::new(vec![0u8; 16_777_217]);
    assert!(matches!(client.send(&huge), Err(NetworkError::MessageTooLarge(_, _))));
}

#[test]
fn try_send_does_not_wait() {
    let client = connected(ClientConfig::new());
    let data = client.try_send(&Message::new("abcd")).unwrap();
    assert_eq!(data.len(), 8);
    assert_eq!(client.tried(8, TryWriteOutcome::Wrote(8)).unwrap(), None);
    assert_eq!(client.tried(8, TryWriteOutcome::Wrote(3)).unwrap(), Some(3));
    let blocked = client.tried(8, TryWriteOutcome::WouldBlock).unwrap_err();
    assert_eq!(
        blocked.to_string(),
        "Network error: backpressure: send buffer full, cannot write without blocking"
    );
    assert!(blocked.to_string().contains("backpressure"));
    let failed = client.tried(8, TryWriteOutcome::Failed("x".to_string())).unwrap_err();
    assert_eq!(failed.to_string(), "Connection error: Failed to write: x");
    assert!(client.rest_written(WriteOutcome::Written).is_ok());
    assert_eq!(
        client.rest_written(WriteOutcome::TimedOut).unwrap_err().to_string(),
        "Operation timed out: Write timed out after partial write"
    );
    assert_eq!(
        client.rest_written(WriteOutcome::Failed("x".to_string())).unwrap_err().to_string(),
        "Connection error: Failed to complete write: x"
    );
}

#[test]
fn test_basic_reconnection() {
    let mut client = connected(ClientConfig::new().with_auto_reconnect(true));
    assert!(client.is_connected());

    let progress = client.reconnect().unwrap();
    assert_eq!(progress.attempt(), 1);
    assert_eq!(client.state(), ClientState::Reconnecting);
    client.dialed(DialOutcome::Opened).unwrap();
    assert!(client.is_connected());
    assert!(client.send(&Message::new("test after reconnect")).is_ok());
}

#[test]
fn test_auto_reconnect_on_send() {
    let client = connected(ClientConfig::new().with_auto_reconnect(true));
    let lost = client.sent(SendOutcome::Ready(WriteOutcome::Failed("reset".to_string())));
    assert!(matches!(client.send_with_reconnect(lost), Recovery::Reconnect));
    assert!(matches!(client.send_with_reconnect(Ok(())), Recovery::Done(())));
    let late = client.sent(SendOutcome::Ready(WriteOutcome::TimedOut));
    assert!(matches!(client.send_with_reconnect(late), Recovery::Fail(NetworkError::Timeout(_))));

    let stubborn = connected(ClientConfig::new().with_auto_reconnect(false));
    let lost = Err(NetworkError::connection("x"));
    assert!(matches!(
        stubborn.receive_with_reconnect(lost),
        Recovery::Fail(NetworkError::Connection(_))
    ));
    let off = TcpClient::new("x");
    let lost = off.receive().map(|_| Message::new(""));
    assert!(matches!(off.receive_with_reconnect(lost), Recovery::Reconnect));
}

#[test]
fn test_reconnection_max_attempts() {
    let mut client = TcpClient::new("127.0.0.1:9003");
    let mut progress = client.reconnect().unwrap();
    let mut attempts = 1;
    let told = loop {
        assert!(client.dialed(DialOutcome::Failed("refused".to_string())).is_err());
        match client.attempt_failed(&progress) {
            Ok(_) => {
                client.next_attempt(&mut progress);
                attempts += 1;
            }
            Err(e) => break e.to_string(),
        }
    };
    assert_eq!(attempts, 3);
    assert_eq!(told, "Connection error: Failed to reconnect after 3 attempts");
    assert_eq!(client.state(), ClientState::Disconnected);
}

#[test]
fn test_exponential_backoff() {
    let mut client = TcpClient::new("127.0.0.1:9004");
    let mut progress = client.reconnect().unwrap();
    let first = client.attempt_failed(&progress).unwrap();
    assert!(first.as_millis() >= 100 && first.as_millis() < 200);
    client.next_attempt(&mut progress);
    let second = client.attempt_failed(&progress).unwrap();
    assert!(second.as_millis() >= 200 && second.as_millis() < 300);
    assert!(first.as_millis() + second.as_millis() >= 300);
}

#[test]
fn backoff_doubles_up_to_thirty_seconds() {
    let mut config = ClientConfig::new();
    config.max_reconnect_attempts = 12;
    let mut client = TcpClient::with_config("x", config);
    let mut progress = client.reconnect().unwrap();
    let mut waits = Vec::new();
    loop {
        match client.attempt_failed_with(&progress, 7) {
            Ok(wait) => waits.push(wait.as_millis()),
            Err(_) => break,
        }
        client.next_attempt(&mut progress);
    }
    let expected: Vec<u128> =
        vec![107, 207, 407, 807, 1607, 3207, 6407, 12807, 25607, 30007, 30007];
    assert_eq!(waits, expected);
}

#[test]
fn reconnection_without_attempts_gives_up() {
    let mut config = ClientConfig::new();
    config.max_reconnect_attempts = 0;
    let mut client = TcpClient::with_config("x", config);
    let told = client.reconnect().unwrap_err().to_string();
    assert_eq!(told, "Connection error: Max reconnection attempts reached");
    assert_eq!(client.state(), ClientState::Disconnected);
}

#[test]
fn test_reconnection_preserves_config() {
    let mut client = connected(ClientConfig::new().with_read_timeout(Duration::from_secs(5)));
    let initial_addr = client.address().to_string();
    client.reconnect().unwrap();
    client.dialed(DialOutcome::Opened).unwrap();
    assert_eq!(client.address(), initial_addr);
    assert_eq!(client.config().read_timeout, Duration::from_secs(5));
    assert!(client.is_connected());
}

#[test]
fn test_server_config() {
    let config = ServerConfig::new("0.0.0.0:9000")
        .with_max_connections(500)
        .with_read_timeout(Duration::from_secs(60));

    assert_eq!(config.bind_address, "0.0.0.0:9000");
    assert_eq!(config.max_connections, 500);
    assert_eq!(config.read_timeout, Duration::from_secs(60));
}

#[test]
fn test_server_config_builder() {
    let config = ServerConfig::new("0.0.0.0:9000")
        .with_max_connections(500)
        .with_read_timeout(Duration::from_secs(60))
        .with_write_timeout(Duration::from_secs(30))
        .with_keep_alive(Some(Duration::from_secs(120)));

    assert_eq!(config.bind_address, "0.0.0.0:9000");
    assert_eq!(config.max_connections, 500);
    assert_eq!(config.read_timeout, Duration::from_secs(60));
    assert_eq!(config.write_timeout, Duration::from_secs(30));
    assert_eq!(config.keep_alive, Some(Duration::from_secs(120)));
}

#[test]
fn test_server_config_default() {
    let config = ServerConfig::default();

    assert_eq!(config.bind_address, "127.0.0.1:8080");
    assert_eq!(config.max_connections, 1000);
    assert_eq!(config.read_timeout, Duration::from_secs(30));
    assert_eq!(config.write_timeout, Duration::from_secs(10));
    assert_eq!(config.keep_alive, Some(Duration::from_secs(60)));
    assert_eq!(config.clone().idle_timeout, Duration::from_secs(300));
}

#[test]
fn test_server_creation() {
    let server = TcpServer::new("127.0.0.1:8080");
    assert!(!server.is_running());
    assert_eq!(server.connection_count(), 0);
}

#[test]
fn test_server_startup_shutdown() {
    let mut server = TcpServer::with_config(ServerConfig::new("127.0.0.1:9001"));
    assert!(!server.is_running());
    server.start().expect("Failed to start server");
    let interval = server.bound(BindOutcome::Bound).expect("Failed to start server");
    assert_eq!(interval, Duration::from_secs(150));
    assert!(server.is_running());
    assert!(server.stop());
    assert!(server.finish_stop().is_empty());
    assert!(!server.is_running());
}

#[test]
fn server_tells_why_it_does_not_start() {
    let mut server = TcpServer::new("x");
    let told = server.bound(BindOutcome::InvalidAddress("bad".to_string())).unwrap_err();
    assert_eq!(told.to_string(), "Invalid address: Invalid address: bad");
    let told = server.bound(BindOutcome::Failed("in use".to_string())).unwrap_err();
    assert_eq!(told.to_string(), "Connection error: Failed to bind: in use");
    assert!(!server.is_running());
}

#[test]
fn test_server_state_transitions() {
    let mut server = TcpServer::with_config(ServerConfig::new("127.0.0.1:0"));
    assert!(!server.is_running());
    assert_eq!(server.connection_count(), 0);

    server.start().expect("Failed to start");
    server.bound(BindOutcome::Bound).expect("Failed to start");
    assert!(server.is_running());

    let refused = server.start().unwrap_err();
    assert_eq!(refused.to_string(), "Invalid state: Server is already running");

    assert!(server.stop());
    server.finish_stop();
    assert!(!server.is_running());
    assert!(!server.stop());
}

#[test]
fn test_connection_limit_enforcement() {
    let config = ServerConfig::new("127.0.0.1:0").with_max_connections(3);
    let mut server = TcpServer::with_config(config);
    let mut let_in = Vec::new();
    for _ in 0..5 {
        if let Some(connection) = server.accept() {
            let_in.push(connection);
        }
    }
    assert_eq!(let_in.len(), 3);
    assert_eq!(server.connection_count(), 3);

    server.end_connection(let_in[1]);
    assert_eq!(server.connection_count(), 2);
    assert!(server.accept().is_some());
    assert!(server.accept().is_none());
}

#[test]
fn test_connection_count() {
    let config = ServerConfig::new("127.0.0.1:9005").with_max_connections(5);
    let mut server = TcpServer::with_config(config);
    assert_eq!(server.connection_count(), 0);
    let connections: Vec<u64> = (0..3).map(|_| server.accept().unwrap()).collect();
    assert_eq!(server.connection_count(), 3);
    for connection in connections {
        server.end_connection(connection);
    }
    assert_eq!(server.connection_count(), 0);
}

#[test]
fn test_graceful_shutdown() {
    let mut server = TcpServer::with_config(ServerConfig::new("127.0.0.1:0").with_max_connections(2));
    server.bound(BindOutcome::Bound).unwrap();
    let a = server.accept().unwrap();
    let b = server.accept().unwrap();
    assert!(server.open_session(a));
    assert!(server.open_session(b));
    assert!(!server.open_session(b));
    server.stop();
    assert_eq!(server.finish_stop(), vec![a, b]);
    assert!(!server.is_running());
    assert_eq!(server.connection_count(), 0);
    server.end_connection(a);
    assert_eq!(server.connection_count(), 0);
    assert!(server.accept().is_some() && server.accept().is_some());
    assert!(server.accept().is_none());
}

#[test]
fn test_drop_cleanup() {
    let mut server = TcpServer::with_config(ServerConfig::new("127.0.0.1:0"));
    assert!(server.emergency_stop().is_none());
    server.bound(BindOutcome::Bound).unwrap();
    let a = server.accept().unwrap();
    server.open_session(a);
    assert!(server.is_running());
    assert_eq!(server.emergency_stop(), Some(vec![a]));
    assert!(!server.is_running());
    assert_eq!(server.connection_count(), 0);
}

#[test]
fn test_concurrent_session_management() {
    let mut server = TcpServer::with_config(ServerConfig::new("127.0.0.1:0"));
    assert_eq!(server.sessions().len(), 0);
    let a = server.accept().unwrap();
    let b = server.accept().unwrap();
    server.open_session(b);
    server.open_session(a);
    assert_eq!(server.sessions(), vec![b, a]);
    server.end_connection(b);
    assert_eq!(server.sessions(), vec![a]);
    assert!(!server.open_session(b));
}

#[test]
fn test_broadcast_message() {
    let mut server = TcpServer::with_config(ServerConfig::new("127.0.0.1:0"));
    assert!(server.broadcast().is_empty());
    let a = server.accept().unwrap();
    server.open_session(a);
    assert_eq!(server.broadcast(), vec![a]);
}

#[test]
fn idle_sessions_are_found() {
    let config = ServerConfig::new("x").with_idle_timeout(Duration::from_secs(10));
    let mut server = TcpServer::with_config(config);
    let list: Vec<u64> = (0..3).map(|_| server.accept().unwrap()).collect();
    for c in &list {
        server.open_session(*c);
    }
    let idle = vec![Duration::from_secs(11), Duration::from_secs(10), Duration::from_secs(60)];
    assert_eq!(server.idle_sessions(&idle), vec![list[0], list[2]]);
}

#[test]
fn test_session_id_generation() {
    let id1 = generate_session_id();
    let id2 = generate_session_id();
    assert_ne!(id1, id2);
    assert_ne!(id1, 0);
    assert_ne!(id2, 0);
}

fn session() -> Session {
    Session::opened(
        7,
        "10.0.0.1:5000",
        Duration::from_millis(100),
        Duration::from_millis(100),
        Duration::from_secs(60),
        Clock::start(),
        at(1000),
    )
}

#[test]
fn test_session_timeout() {
    let mut session = Session::new(
        "127.0.0.1:1",
        Duration::from_millis(100),
        Duration::from_millis(100),
        Duration::from_secs(60),
    );
    assert_eq!(session.receive().unwrap(), Duration::from_millis(300));
    let result = session.supply_read(ReadOutcome::TimedOut);
    assert!(result.is_err(), "Should timeout when no data received");
    let err_msg = result.unwrap_err().to_string();
    assert!(err_msg.contains("timeout") || err_msg.contains("timed out"));
}

#[test]
fn session_receives_message_after_message() {
    let mut session = session();
    let mut both = session.send_at(&Message::new("one"), at(1100)).unwrap();
    both.extend_from_slice(&session.send_at(&Message::new("two"), at(1100)).unwrap());
    let limit = session.receive_at(at(1100)).unwrap();
    let short = Duration::from_millis(1);
    assert!(session.poll_receive_at(short, limit, at(1200)).unwrap().is_none());
    session.supply_read(ReadOutcome::Data(both.to_vec())).unwrap();
    let first = session.poll_receive_at(short, limit, at(1300)).unwrap().unwrap();
    assert_eq!(first.as_slice(), b"one");
    let second = session.poll_receive_at(short, limit, at(1400)).unwrap().unwrap();
    assert_eq!(second.as_slice(), b"two");
    assert_eq!(session.idle_time_at(at(1500)), Duration::from_millis(100));
}

#[test]
fn session_becomes_idle() {
    let mut session = session();
    let message = Message::new("m");
    assert!(!session.is_idle_at(at(61_000)));
    assert!(session.is_idle_at(at(61_001)));
    let told = "Operation timed out: Session idle timeout exceeded";
    assert_eq!(session.send_at(&message, at(61_001)).unwrap_err().to_string(), told);
    assert_eq!(session.receive_at(at(61_001)).unwrap_err().to_string(), told);
    session.sent_at(WriteOutcome::Written, at(50_000)).unwrap();
    assert!(!session.is_idle_at(at(110_000)));
    assert_eq!(session.uptime_at(at(51_000)), Duration::from_secs(50));
    assert!(!session.is_idle() || session.idle_time().as_secs() > 60);
}

#[test]
fn session_tells_of_writes() {
    let mut session = session();
    let told = session.sent_at(WriteOutcome::TimedOut, at(2000)).unwrap_err();
    assert_eq!(told.to_string(), "Operation timed out: Write timed out");
    let told = session.sent_at(WriteOutcome::Failed("x".to_string()), at(2000)).unwrap_err();
    assert_eq!(told.to_string(), "Connection error: Failed to write: x");
    assert_eq!(session.idle_time_at(at(3000)), Duration::from_secs(2));
    let huge = Message::new(vec![0u8; 16_777_217]);
    assert!(matches!(
        session.send_at(&huge, at(2000)),
        Err(NetworkError::MessageTooLarge(16_777_217, 16_777_216))
    ));
}

#[test]
fn session_closes() {
    let mut session = session();
    assert_eq!(session.state(), SessionState::Active);
    assert!(session.is_active());
    assert!(session.close());
    assert_eq!(session.state(), SessionState::Closing);
    session.finish_close();
    assert_eq!(session.state(), SessionState::Closed);
    assert!(!session.close());
    let told = session.send_at(&Message::new("m"), at(1000)).unwrap_err();
    assert_eq!(told.to_string(), "Invalid state: Session is not active");

    let mut other = session_of_id(9);
    other.set_inactive();
    assert!(!other.is_active());
    assert_eq!(other.id(), 9);
    assert_eq!(other.peer_addr(), "10.0.0.2:6000");
}

fn session_of_id(id: u128) -> Session {
    let d = Duration::from_secs(1);
    Session::opened(id, "10.0.0.2:6000".to_string(), d, d, d, Clock::start(), at(0))
}

#[test]
fn test_message_queue_basic() {
    let mut queue = MessageQueue::with_default_config();
    assert!(queue.enqueue(Message::new("test")).unwrap().is_none());
    let received = queue.dequeue().unwrap();
    assert_eq!(String::from_utf8_lossy(received.data()), "test");

    let stats = queue.stats();
    assert_eq!(stats.enqueued, 1);
    assert_eq!(stats.dequeued, 1);
    assert_eq!(stats.dropped, 0);
    assert_eq!(stats.max_size, 1000);
}

#[test]
fn test_message_queue_backpressure() {
    let config = MessageQueueConfig::new().with_max_size(2).with_drop_on_full(false);
    let mut queue = MessageQueue::new(config);
    queue.enqueue(Message::new("msg1")).unwrap();
    queue.enqueue(Message::new("msg2")).unwrap();
    assert!(queue.is_full());

    let result = queue.try_enqueue(Message::new("msg3"));
    assert_eq!(result.unwrap_err().to_string(), "Network error: Message queue full");
    assert_eq!(queue.stats().dropped, 1);

    let back = queue.enqueue(Message::new("msg4")).unwrap().unwrap();
    assert_eq!(back.as_slice(), b"msg4");
    assert_eq!(queue.enqueue_timeout(), Duration::from_secs(5));
    let told = queue.enqueue_timed_out().to_string();
    assert_eq!(told, "Operation timed out: Enqueue timeout: queue full");
    assert_eq!(queue.stats().dropped, 1);
}

#[test]
fn test_message_queue_drop_on_full() {
    let config = MessageQueueConfig::new().with_max_size(1).with_drop_on_full(true);
    let mut queue = MessageQueue::new(config);
    queue.enqueue(Message::new("msg1")).unwrap();

    let result = queue.enqueue(Message::new("msg2"));
    let told = result.unwrap_err().to_string();
    assert_eq!(told, "Network error: Message queue full, message dropped");

    let stats = queue.stats();
    assert_eq!(stats.dropped, 1);
    assert_eq!(stats.enqueued, 1);
}

#[test]
fn test_message_queue_try_dequeue() {
    let mut queue = MessageQueue::with_default_config();
    assert!(queue.try_dequeue().is_none());

    queue.enqueue(Message::new("test")).unwrap();
    assert_eq!(queue.depth(), 1);
    let msg = queue.try_dequeue().unwrap();
    assert_eq!(String::from_utf8_lossy(msg.data()), "test");
    assert!(queue.is_empty());
}

#[test]
fn test_message_queue_concurrent() {
    let config = MessageQueueConfig::new()
        .with_max_size(7)
        .with_enqueue_timeout(Duration::from_secs(1));
    let mut queue = MessageQueue::new(config);
    let mut sent = 0;
    let mut consumed = 0;
    while consumed < 100 {
        while sent < 100 && queue.try_enqueue(Message::new(format!("msg{}", sent))).is_ok() {
            sent += 1;
        }
        assert!(queue.is_full() || sent == 100);
        while let Some(msg) = queue.dequeue() {
            assert_eq!(msg.as_slice(), format!("msg{}", consumed).as_bytes());
            consumed += 1;
        }
    }
    assert_eq!(consumed, 100);
}

#[test]
fn test_multiple_messages() {
    let client = connected(ClientConfig::new());
    let mut session = session();
    for i in 0..10 {
        let msg = Message::new(format!("Message {}", i));
        let sent = client.send(&msg).expect("Failed to send");
        assert!(client.sent(SendOutcome::Ready(WriteOutcome::Written)).is_ok());

        session.supply_read(ReadOutcome::Data(sent.to_vec())).unwrap();
        let limit = session.receive_at(at(i)).unwrap();
        let received = session.poll_receive_at(Duration::from_millis(0), limit, at(i)).unwrap();
        let echoed = session.send_at(&received.unwrap(), at(i)).unwrap();
        session.sent_at(WriteOutcome::Written, at(i)).unwrap();

        let mut reception = client.receive().expect("Failed to receive");
        reception.supply(ReadOutcome::Data(echoed.to_vec())).unwrap();
        let response = reception.poll(Duration::from_millis(0)).unwrap().unwrap();
        assert_eq!(msg.data(), response.data());
    }
}

#[test]
fn server_numbers_its_connections() {
    let mut server = TcpServer::new("127.0.0.1:9010");
    assert!(server.can_accept());
    assert_eq!(server.accept(), Some(0));
    server.end_connection(0);
    assert_eq!(server.accept(), Some(1));
}
