use rust_network_system::integration::logger::{connected_line, disconnected_line, message_line};
use rust_network_system::integration::thread_pool::{job_result, JobOutcome};
use rust_network_system::integration::{
    CompressionProcessor, DecompressionProcessor, EncryptionProcessor, IdentityProcessor,
    MessageProcessor, MonitoredServer, ProcessorPipeline,
};
use rust_network_system::network::server::BindOutcome;
use rust_network_system::session::Session;
use rust_network_system::time::{Clock, Duration, Instant};
use rust_network_system::tls::{CertificatePins, PemFile, PinningVerifier, TlsConfig};
use rust_network_system::tracing::{
    child_span_id_of, generate_child_span_id, generate_span_id, generate_trace_id, span_id_of,
    Span, SpanCollector, TraceContext, TraceCounter,
};
use rust_network_system::{Message, NetworkError, ServerConfig};
use std::sync::Arc;

fn at(millis: u64) -> Instant {
    Instant::after_start(Duration::from_millis(millis))
}

const CERT: &str = "-----BEGIN CERTIFICATE-----\n\
MIIBgDCCASWgAwIBAgIUITE/wVCX5ZRCGkr6SyysdCIqxL0wCgYIKoZIzj0EAwIw\n\
FDESMBAGA1UEAwwJbG9jYWxob3N0MCAXDTI2MTExNjE1NDEyNFoYDzIxMjYxMDIz\n\
MTU0MTI0WjAUMRIwEAYDVQQDDAlsb2NhbGhvc3QwWTATBgcqhkjOPQIBBggqhkjO\n\
PQMBBwNCAAQapcZPOWJIENPMWicNnqQvU9gBmPVnwj9FN0T8cGSHgQcTctevP88E\n\
5jG3e3vN1v8DXwl5Cf4omvZOjOuIBGzpo1MwUTAdBgNVHQ4EFgQU5j5bNVgqemR/\n\
mTAalkXJZJFJzZowHwYDVR0jBBgwFoAU5j5bNVgqemR/mTAalkXJZJFJzZowDwYD\n\
VR0TAQH/BAUwAwEB/zAKBggqhkjOPQQDAgNJADBGAiEAyJ9ygQ6icRtHW/lVN9M4\n\
f1TzBdrVGcbhAKA1M9hMPrcCIQC+PIlX9U0jU7AMo420XjnupcGJTrAqouBdlein\n\
hPvqqA==\n\
-----END CERTIFICATE-----\n";

const FINGERPRINT: &str = "5f91e9f56379c5bddc390112e5e87a3d186e65ec01357b8a2091b66a2d2b5e8a";

fn key_pem() -> String {
    let body = [
        "MIGHAgEAMBMGByqGSM49AgEGCCqGSM49AwEHBG0wawIBAQQgbUjl1GcL24ImZFth",
        "x1FG6/i65ur+LEbyEbz6+H5pzWShRANCAAQapcZPOWJIENPMWicNnqQvU9gBmPVn",
        "wj9FN0T8cGSHgQcTctevP88E5jG3e3vN1v8DXwl5Cf4omvZOjOuIBGzp",
    ];
    pem("PRIVATE KEY", &body.join("\n"))
}

fn pem(label: &str, body: &str) -> String {
    format!("-----BEGIN {}-----\n{}\n-----END {}-----\n", label, body, label)
}

fn cert_der() -> Vec<u8> {
    let mut rest = CERT.as_bytes();
    let found: Vec<_> = rustls_pemfile::certs(&mut rest).collect();
    found[0].as_ref().unwrap().to_vec()
}

#[test]
fn test_trace_id_generation() {
    let mut counter = TraceCounter::new();
    let id1 = generate_trace_id(&mut counter);
    let id2 = generate_trace_id(&mut counter);
    assert_ne!(id1, id2);
    assert!(id1.starts_with("trace-"));
    assert_eq!(id1, "trace-0000000000000001");
    assert_eq!(id2, "trace-0000000000000002");
}

#[test]
fn test_trace_context() {
    let mut counter = TraceCounter::new();
    let ctx = TraceContext::new("my-service", "operation", &mut counter);
    assert_eq!(ctx.service_name, "my-service");
    assert_eq!(ctx.operation, "operation");
    assert!(ctx.parent_span_id.is_none());
}

#[test]
fn test_child_span() {
    let mut counter = TraceCounter::new();
    let parent = TraceContext::new("service", "parent-op", &mut counter);
    let child = parent.child_span("child-op", &mut counter);

    assert_eq!(child.trace_id, parent.trace_id);
    assert_ne!(child.span_id, parent.span_id);
    assert_eq!(child.parent_span_id, Some(parent.span_id));
}

#[test]
fn span_ids_show_the_time() {
    let mut counter = TraceCounter::new();
    assert_eq!(span_id_of(Some(0xdead_beef), &mut counter), "span-00000000deadbeef");
    assert_eq!(span_id_of(Some(u128::from(u64::MAX)), &mut counter), "span-ffffffffffffffff");
    assert_eq!(span_id_of(Some(1 << 64 | 0xab), &mut counter), "span-00000000000000ab");
    assert_eq!(span_id_of(None, &mut counter), "span-0000000000000001");
    assert_eq!(span_id_of(None, &mut counter), "span-0000000000000002");
    let id = generate_span_id(&mut counter);
    assert!(id.starts_with("span-"));
    assert_eq!(id.len(), 21);
}

#[test]
fn a_child_has_an_id_of_its_own() {
    let mut counter = TraceCounter::new();
    let parent = "span-0000000000000007";
    assert_eq!(child_span_id_of(Some(8), parent, &mut counter), "span-0000000000000008");
    assert_eq!(child_span_id_of(Some(7), parent, &mut counter), "span-0000000000000001");
    assert_eq!(child_span_id_of(None, parent, &mut counter), "span-0000000000000002");
    let second = "span-0000000000000003";
    assert_eq!(child_span_id_of(Some(3), second, &mut counter), "span-0000000000000004");
    let next = "span-0000000000000005";
    assert_eq!(child_span_id_of(None, next, &mut counter), "span-0000000000000006");
    for _ in 0..1000 {
        let parent = generate_span_id(&mut counter);
        assert_ne!(generate_child_span_id(&parent, &mut counter), parent);
    }
}

#[test]
fn context_from_parent() {
    let mut counter = TraceCounter::new();
    let ctx = TraceContext::from_parent(
        "t".to_string(),
        "p".to_string(),
        "service",
        "op",
        &mut counter,
    )
    .clone();
    assert_eq!(ctx.trace_id, "t");
    assert_eq!(ctx.parent_span_id, Some("p".to_string()));
}

#[test]
fn test_span_duration() {
    let mut counter = TraceCounter::new();
    let ctx = TraceContext::new("service", "test", &mut counter);
    let span = Span::new_at(ctx, Clock::start(), at(100));
    assert_eq!(span.elapsed_ms_at(at(110)), 10);
    let summary = span.end_at(Instant::after_start(Duration::from_nanos(111_999_999)));
    assert_eq!(summary.duration_ms, 11);
}

#[test]
fn test_span_collector() {
    let mut counter = TraceCounter::new();
    let mut collector = SpanCollector::new();

    let ctx = TraceContext::new("service", "op1", &mut counter);
    let mut span = Span::new(ctx);
    span.set_attribute("key", "old");
    span.set_attribute("other", "x");
    span.set_attribute("key", "value");
    assert_eq!(span.context().operation, "op1");
    assert!(span.elapsed_ms() < 20_000);

    let summary = span.end();
    collector.record(summary);

    let spans = collector.get_spans();
    assert_eq!(spans.len(), 1);
    assert_eq!(spans[0].operation, "op1");
    let pairs = vec![
        ("key".to_string(), "value".to_string()),
        ("other".to_string(), "x".to_string()),
    ];
    assert_eq!(spans[0].attributes, pairs);
    let rows = collector.export_rows();
    assert_eq!(rows[0].service, "service");
    assert_eq!(rows[0].attributes, pairs);
    collector.clear();
    assert_eq!(collector.get_spans().len(), 0);
}

#[test]
fn test_tls_config_creation() {
    let config = TlsConfig::new();
    assert!(!config.has_server_config());
    assert!(!config.has_client_config());
    assert!(TlsConfig::default().acceptor().is_none());
}

#[test]
fn server_certificate_is_loaded() {
    let config = TlsConfig::new()
        .with_server_cert_pem(CERT.as_bytes(), key_pem().as_bytes())
        .unwrap_or_else(|e| panic!("{}", e.to_string()));
    assert!(config.has_server_config());
    assert!(!config.has_client_config());
    assert!(config.acceptor().is_some());

    let from_files = TlsConfig::new().with_server_cert_file(
        PemFile::Content(CERT.as_bytes().to_vec()),
        PemFile::Content(key_pem().into_bytes()),
    );
    assert!(from_files.is_ok());
}

fn told(r: Result<TlsConfig, NetworkError>) -> String {
    match r {
        Ok(_) => panic!("accepted"),
        Err(e) => e.to_string(),
    }
}

#[test]
fn server_certificate_errors_are_told() {
    let key = key_pem();
    let junk = pem("CERTIFICATE", "AQID");
    let none = TlsConfig::new().with_server_cert_pem(b"", key.as_bytes());
    assert_eq!(told(none), "TLS error: No certificates found in PEM data");
    let none = TlsConfig::new().with_server_cert_pem(CERT.as_bytes(), b"");
    assert_eq!(told(none), "TLS error: No private key found in PEM data");
    let broken = pem("CERTIFICATE", "***");
    let bad = TlsConfig::new().with_server_cert_pem(broken.as_bytes(), key.as_bytes());
    assert!(told(bad).starts_with("TLS error: Failed to parse certificates: "));
    let bad = TlsConfig::new()
        .with_server_cert_pem(CERT.as_bytes(), pem("PRIVATE KEY", "***").as_bytes());
    assert!(told(bad).starts_with("TLS error: Failed to parse private key: "));
    let bad = TlsConfig::new().with_server_cert_pem(junk.as_bytes(), key.as_bytes());
    assert!(told(bad).starts_with("TLS error: Invalid server certificate: "));

    let missing = PemFile::NotOpened("a.pem".to_string(), "gone".to_string());
    let content = || PemFile::Content(CERT.as_bytes().to_vec());
    let bad = TlsConfig::new().with_server_cert_file(missing, content());
    assert_eq!(told(bad), "TLS error: Failed to open certificate file 'a.pem': gone");
    let missing = PemFile::NotOpened("k.pem".to_string(), "gone".to_string());
    let bad = TlsConfig::new().with_server_cert_file(content(), missing);
    assert_eq!(told(bad), "TLS error: Failed to open key file 'k.pem': gone");
    let bad = TlsConfig::new().with_server_cert_file(content(), content());
    assert_eq!(told(bad), "TLS error: No private key found in file");
    let bad = TlsConfig::new().with_client_ca_file(PemFile::Content(Vec::new()));
    assert_eq!(told(bad), "TLS error: No certificates found in file");
    let bad = TlsConfig::new().with_client_ca_file(PemFile::Unreadable("io".to_string()));
    assert_eq!(told(bad), "TLS error: Failed to parse certificates: io");
    let bad = TlsConfig::new().with_server_cert_file(content(), PemFile::Unreadable("io".to_string()));
    assert_eq!(told(bad), "TLS error: Failed to parse private key: io");
}

#[test]
fn client_roots_are_trusted() {
    let config = TlsConfig::new().with_client_ca_pem(CERT.as_bytes());
    let config = config.unwrap_or_else(|e| panic!("{}", e.to_string()));
    assert!(config.has_client_config());
    assert!(config.connector().is_some());
    assert!(!config.has_server_config());
    let file = PemFile::Content(CERT.as_bytes().to_vec());
    assert!(TlsConfig::new().with_client_ca_file(file).is_ok());

    let both = format!("{}\n{}", CERT, pem("CERTIFICATE", "AQID"));
    let bad = TlsConfig::new().with_client_ca_pem(both.as_bytes());
    assert!(told(bad).starts_with("TLS error: Invalid CA certificate: "));

    assert!(TlsConfig::new().with_client_system_roots(&vec![cert_der()]).is_ok());
    let bad = TlsConfig::new().with_client_system_roots(&vec![cert_der(), vec![1, 2, 3]]);
    assert!(told(bad).starts_with("TLS error: Invalid system certificate: "));

    let trusting = rustls::ClientConfig::builder()
        .with_root_certificates(rustls::RootCertStore::empty())
        .with_no_client_auth();
    assert!(TlsConfig::new().with_client_config(trusting).connector().is_some());
}

#[test]
fn pins_accept_only_what_is_pinned() {
    let der = cert_der();
    assert!(!CertificatePins::new().matches(&der));
    assert!(CertificatePins::default().add_fingerprint(FINGERPRINT).matches(&der));
    let colons: Vec<String> = FINGERPRINT
        .as_bytes()
        .chunks(2)
        .map(|c| String::from_utf8(c.to_vec()).unwrap().to_uppercase())
        .collect();
    let pins = CertificatePins::new().add_fingerprint("00").add_fingerprint(colons.join(":"));
    assert!(pins.matches(&der));
    assert!(!pins.matches(&[]));
    assert!(pins.matches_digest(&[0]));

    let empty = "E3:B0:C4:42:98:FC:1C:14:9A:FB:F4:C8:99:6F:B9:24:27:AE:41:E4:64:9B:93:4C:A4:95:99:1B:78:52:B8:55";
    let verifier = PinningVerifier::new(CertificatePins::new().add_fingerprint(empty));
    assert!(verifier.verify_server_cert(&[]).is_ok());
    let refused = verifier.verify_server_cert(&der).unwrap_err();
    assert_eq!(refused, "Certificate does not match any pinned fingerprint");
    for spelling in ["e3:b0", "E3:B0", "E3B0", ":e3b0:"] {
        assert!(CertificatePins::new().add_fingerprint(spelling).matches_digest(&[0xe3, 0xb0]));
    }
    let strange = CertificatePins::new().add_fingerprint("straße");
    assert!(!strange.matches(&der));
}

#[test]
fn thread_pool_test_identity_processor() {
    let processor = IdentityProcessor;
    let msg = Message::new("test");
    let result = processor.process(msg.clone()).unwrap();
    assert_eq!(msg.data(), result.data());
}

#[test]
fn thread_pool_test_encryption_roundtrip() {
    let key = b"secret_key_12345".to_vec();
    let encrypt = EncryptionProcessor::new(key.clone());
    let decrypt = EncryptionProcessor::new(key);

    let original = Message::new("Hello, World!");
    let encrypted = encrypt.process(original.clone()).unwrap();
    let decrypted = decrypt.process(encrypted).unwrap();

    assert_eq!(original.data(), decrypted.data());
}

#[test]
fn thread_pool_integration_test_test_encryption_roundtrip() {
    let key = b"test_encryption_key_32_bytes!!".to_vec();
    let encrypt = EncryptionProcessor::new(key.clone());
    let decrypt = EncryptionProcessor::new(key);

    let original = Message::new("Secret message");
    let encrypted = encrypt.process(original.clone()).unwrap();
    assert_ne!(original.data(), encrypted.data());

    let decrypted = decrypt.process(encrypted).unwrap();
    assert_eq!(original.data(), decrypted.data());
}

#[test]
fn encryption_needs_a_key() {
    let refused = EncryptionProcessor::new(Vec::new()).process(Message::new("x")).unwrap_err();
    assert_eq!(refused.to_string(), "Network error: Encryption key is empty");
    let masked = EncryptionProcessor::new(vec![1, 2]).process(Message::new(vec![1u8, 1, 1]));
    assert_eq!(masked.unwrap().as_slice(), &[0, 3, 0]);
}

#[test]
fn thread_pool_test_processor_pipeline() {
    let key = b"test_key".to_vec();
    let pipeline = ProcessorPipeline::new()
        .add(EncryptionProcessor::new(key.clone()))
        .add(IdentityProcessor);

    let msg = Message::new("test data");
    let result = pipeline.process(msg).unwrap();

    assert_ne!(result.data().as_ref(), b"test data");
}

#[test]
fn thread_pool_integration_test_test_processor_pipeline() {
    let key = b"pipeline_key_16!".to_vec();
    let pipeline = ProcessorPipeline::default()
        .add(EncryptionProcessor::new(key.clone()))
        .add(CompressionProcessor::new(6));

    let original = Message::new("Pipeline test data");
    let response = pipeline.process(original.clone()).unwrap();
    assert_ne!(original.data(), response.data());

    let reverse_pipeline = ProcessorPipeline::new()
        .add_arc(Arc::new(DecompressionProcessor))
        .add(EncryptionProcessor::new(key));
    let restored = reverse_pipeline.process(response).unwrap();
    assert_eq!(original.data(), restored.data());
}

#[test]
fn pipeline_of_any_length() {
    let key = vec![9u8, 8, 7];
    for length in 0..6 {
        let mut list: Vec<Arc<dyn MessageProcessor>> = Vec::new();
        for i in 0..length {
            if i % 2 == 0 {
                list.push(Arc::new(EncryptionProcessor::new(key.clone())));
            } else {
                list.push(Arc::new(CompressionProcessor::new(6)));
            }
        }
        let mut expected = Message::new("some data");
        for step in &list {
            expected = step.process(expected).unwrap();
        }
        let made = ProcessorPipeline::of(list).process(Message::new("some data")).unwrap();
        assert_eq!(made.data(), expected.data());
    }
    let broken: Vec<Arc<dyn MessageProcessor>> = vec![
        Arc::new(IdentityProcessor),
        Arc::new(EncryptionProcessor::new(Vec::new())),
        Arc::new(DecompressionProcessor),
    ];
    let refused = ProcessorPipeline::of(broken).add(IdentityProcessor).process(Message::new("x"));
    assert_eq!(refused.unwrap_err().to_string(), "Network error: Encryption key is empty");
}

#[test]
fn pins_and_configurations_are_cloned() {
    let der = cert_der();
    let pins = CertificatePins::new().add_fingerprint("00").add_fingerprint(FINGERPRINT);
    assert!(pins.clone().matches(&der));
    assert!(!pins.clone().matches(&[]));
    let config = TlsConfig::new().with_client_ca_pem(CERT.as_bytes());
    let config = config.unwrap_or_else(|e| panic!("{}", e.to_string())).clone();
    assert!(config.has_client_config());
    assert!(!config.has_server_config());
}

#[test]
fn pins_hold_no_colons() {
    let pins = CertificatePins::new().add_fingerprint(":\u{df}:ab:").add_fingerprint("0:0");
    let shown = format!("{:?}", pins);
    assert!(shown.contains("\"SSAB\"") && shown.contains("\"00\""));
}

#[test]
fn pipeline_stops_at_the_first_failure() {
    let pipeline = ProcessorPipeline::new()
        .add(DecompressionProcessor)
        .add(EncryptionProcessor::new(Vec::new()));
    let refused = pipeline.process(Message::new("not compressed")).unwrap_err();
    assert!(refused.to_string().starts_with("Network error: Decompression failed: "));
}

#[test]
fn test_compression_processor() {
    let original_data = "x".repeat(1000);
    let original = Message::new(original_data.clone());
    let response = CompressionProcessor::new(6).process(original.clone()).unwrap();
    assert!(response.size() < original.size());

    let decompressed = DecompressionProcessor.process(response).expect("Failed to decompress");
    assert_eq!(original.data(), decompressed.data());
}

#[test]
fn test_processor_error_handling() {
    let processor = CompressionProcessor::new(6);
    let empty = Message::new(Vec::<u8>::new());
    let result = processor.process(empty);
    assert!(result.is_ok());
}

#[test]
fn test_large_message_processing() {
    let large_data = "x".repeat(1024 * 1024);
    let original_size = large_data.len();
    let response = CompressionProcessor::new(6).process(Message::new(large_data)).unwrap();
    let compression_ratio = response.size() as f64 / original_size as f64;
    assert!(compression_ratio < 0.1);
}

#[test]
fn every_level_round_trips() {
    let data: Vec<u8> = (0..5000u32).map(|i| (i * i % 251) as u8).collect();
    for level in 0..=10 {
        let z = CompressionProcessor::new(level).process(Message::new(data.clone())).unwrap();
        assert_eq!(DecompressionProcessor.process(z).unwrap().as_slice(), &data[..]);
    }
}

#[test]
fn job_outcomes_are_told() {
    let done = job_result(3, JobOutcome::Done(Ok(Message::new("m")))).unwrap();
    assert_eq!(done.as_slice(), b"m");
    let told = job_result(3, JobOutcome::NotSubmitted("full".to_string())).unwrap_err();
    assert_eq!(told, "Failed to submit job to thread pool for session 3: full");
    let told = job_result(3, JobOutcome::Cancelled).unwrap_err();
    assert_eq!(told, "Thread pool job cancelled for session 3");
    let told = job_result(3, JobOutcome::Done(Err(NetworkError::other("x")))).unwrap_err();
    assert_eq!(told, "Message processing failed for session 3: Network error: x");
}

#[test]
fn test_monitored_server_creation() {
    let config = ServerConfig::new("127.0.0.1:8080");
    let server = MonitoredServer::new(config);

    assert!(!server.is_running());
    assert_eq!(server.connection_count(), 0);
}

#[test]
fn server_is_counted() {
    let mut server = MonitoredServer::new(ServerConfig::new("127.0.0.1:8080"));
    server.server_mut().bound(BindOutcome::Bound).unwrap();
    server.server_mut().accept().unwrap();
    assert!(server.is_running());
    assert_eq!(server.connection_count(), 1);
    server.record_connected();
    server.record_connected();
    server.record_message_received(10);
    server.record_message_received(5);
    server.record_message_sent(7);
    server.record_disconnected();
    let metrics = server.metrics();
    assert_eq!(metrics.connections_total, 2);
    assert_eq!(metrics.active_connections, 1);
    let rows = metrics.report();
    assert_eq!(rows[0], ("network_connections_total".to_string(), 2));
    assert_eq!(rows[1], ("network_active_connections".to_string(), 1));
    assert_eq!(rows[2], ("network_messages_received_total".to_string(), 2));
    assert_eq!(rows[3], ("network_messages_sent_total".to_string(), 1));
    assert_eq!(rows[4], ("network_bytes_received_total".to_string(), 15));
    assert_eq!(rows[5], ("network_bytes_sent_total".to_string(), 7));
}

#[test]
fn sessions_are_logged() {
    let d = Duration::from_secs(1);
    let id = u128::MAX;
    let session = Session::opened(id, "10.0.0.1:5000", d, d, d, Clock::start(), at(0));
    assert_eq!(
        connected_line(&session),
        "Session 340282366920938463463374607431768211455 connected from 10.0.0.1:5000"
    );
    let session = Session::opened(5, "10.0.0.1:5000", d, d, d, Clock::start(), at(0));
    assert_eq!(
        message_line(&session, &Message::new("abc")),
        "Session 5 received message: Message[3 bytes]"
    );
    assert_eq!(
        disconnected_line(&session, Duration::from_millis(1500)),
        "Session 5 disconnected (uptime: 1.5s)"
    );
}

#[test]
fn thread_pool_integration_test_test_identity_processor() {
    let original = Message::new("Test message");
    let outcome = JobOutcome::Done(IdentityProcessor.process(original.clone()));
    let response = job_result(1, outcome).unwrap();
    assert_eq!(original.data(), response.data());
}

#[test]
fn test_concurrent_processing() {
    let processor = Arc::new(CompressionProcessor::new(6));
    for i in 0..10 {
        let data = format!("Message {} - {}", i, "data".repeat(100));
        let msg = Message::new(data.clone());
        let response = processor.process(msg.clone()).unwrap();
        assert!(response.size() < msg.size());
    }
}
