//! TLS configuration for secure connections.
//!
//! Files and sockets are opened elsewhere; what is read from files comes in as
//! [`PemFile`].

use crate::error::{concatenated, ErrorView, NetworkError};
use crate::text;
use crate::text::{same_text, upper_hex_string, IntoText};
use rustls::pki_types::{CertificateDer, PrivateKeyDer};
use rustls::ClientConfig as TlsClientConfig;
use rustls::RootCertStore;
use rustls::ServerConfig as TlsServerConfig;
use sha2::Digest;
use std::sync::Arc;
use tokio_rustls::{TlsAcceptor, TlsConnector};
use vstd::prelude::*;
use vstd::string::*;

verus! {

/// What `str::to_uppercase` makes of a text that is not plain ASCII.
pub uninterp spec fn unicode_upper(text: Seq<char>) -> Seq<char>;

/// Whether a text is plain ASCII.
pub open spec fn is_ascii_text(text: Seq<char>) -> bool {
    forall|i: int| 0 <= i < text.len() ==> (#[trigger] text[i]) as u32 <= 127
}

/// An ASCII letter in upper case, and any other character as it is.
pub open spec fn ascii_upper(c: char) -> char {
    if 'a' <= c && c <= 'z' {
        (c as u32 - 32) as char
    } else {
        c
    }
}

/// A text in upper case.
pub open spec fn upper(text: Seq<char>) -> Seq<char> {
    if is_ascii_text(text) {
        text.map_values(|c: char| ascii_upper(c))
    } else {
        unicode_upper(text)
    }
}

/// Calls `str::to_uppercase`: of plain ASCII each letter becomes its upper case. Of
/// other texts the result is named, and a colon is in it only where one was in the text:
/// each character becomes its upper case or stays, and no letter's upper case has a colon.
#[verifier::external_body]
fn to_upper(text: &str) -> (r: String)
    ensures
        r@ == if is_ascii_text(text@) {
            text@.map_values(|c: char| ascii_upper(c))
        } else {
            unicode_upper(text@)
        },
        r@.contains(':') ==> text@.contains(':'),
{
    text.to_uppercase()
}

/// The SHA-256 digest of some bytes.
pub uninterp spec fn sha256_of(data: Seq<u8>) -> Seq<u8>;

/// Calls `sha2::Sha256::digest`: the digest has 32 bytes. How it is computed is not
/// said here.
#[verifier::external_body]
fn sha256(data: &[u8]) -> (digest: Vec<u8>)
    ensures
        digest@ == sha256_of(data@),
        digest@.len() == 32,
{
    sha2::Sha256::digest(data).to_vec()
}

/// A fingerprint without colons and in upper case.
pub open spec fn normalized(fingerprint: Seq<char>) -> Seq<char> {
    upper(fingerprint.filter(|c: char| c != ':'))
}

/// Certificate pinning configuration: the SHA-256 fingerprints of trusted certificates.
/// Its view is the fingerprints in hexadecimal.
#[derive(Debug)]
pub struct CertificatePins {
    fingerprints: Vec<String>,
}

impl View for CertificatePins {
    type V = Seq<Seq<char>>;

    closed spec fn view(&self) -> Seq<Seq<char>> {
        self.fingerprints@.map_values(|s: String| s@)
    }
}

/// Whether no pin holds a colon.
pub open spec fn no_colons(pins: Seq<Seq<char>>) -> bool {
    forall|i: int| 0 <= i < pins.len() ==> !(#[trigger] pins[i]).contains(':')
}

/// Whether a digest is that of a pinned certificate.
pub open spec fn pinned(pins: Seq<Seq<char>>, digest: Seq<u8>) -> bool {
    pins.contains(text::upper_hex(digest))
}

/// A text without its colons.
fn without_colons(text: &str) -> (r: String)
    ensures
        r@ == text@.filter(|c: char| c != ':'),
        !r@.contains(':'),
{
    let ghost keep = |c: char| c != ':';
    let mut r = String::new();
    let mut i: usize = 0;
    let len: usize = text.unicode_len();
    proof {
        reveal(Seq::filter);
        assert(text@.take(0) =~= Seq::empty());
    }
    while i < len
        invariant
            len == text@.len(),
            i <= len,
            keep == (|c: char| c != ':'),
            r@ == text@.take(i as int).filter(keep),
        decreases len - i,
    {
        let c: char = text.get_char(i);
        proof {
            reveal(Seq::filter);
            assert(text@.take(i + 1).drop_last() =~= text@.take(i as int));
            assert(text@.take(i + 1).last() == c);
        }
        if c != ':' {
            r.push(c);
        }
        i = i + 1;
    }
    assert(text@.take(len as int) =~= text@);
    proof {
        if r@.contains(':') {
            let j = choose|j: int| 0 <= j < r@.len() && r@[j] == ':';
            text@.lemma_filter_pred(keep, j);
        }
    }
    r
}

impl CertificatePins {
    #[verifier::type_invariant]
    spec fn each_without_colons(self) -> bool {
        no_colons(self.fingerprints@.map_values(|s: String| s@))
    }

    /// Creates a new certificate pins configuration.
    pub fn new() -> (p: CertificatePins)
        ensures
            p@ == Seq::<Seq<char>>::empty(),
            no_colons(p@),
    {
        let p = CertificatePins { fingerprints: Vec::new() };
        assert(p@ =~= Seq::empty());
        p
    }

    /// Adds a SHA-256 fingerprint in hexadecimal. Colons are optional, and so is the
    /// case of letters. Whatever the text, no pin holds a colon.
    pub fn add_fingerprint<S: IntoText>(self, fingerprint: S) -> (p: CertificatePins)
        ensures
            p@ == self@.push(normalized(fingerprint.text())),
            no_colons(p@),
    {
        proof {
            use_type_invariant(&self);
        }
        let ghost before = self@;
        let mut fingerprints = self.fingerprints;
        let plain = without_colons(fingerprint.into_text().as_str());
        let pin = to_upper(plain.as_str());
        fingerprints.push(pin);
        assert(fingerprints@.map_values(|s: String| s@) =~= before.push(pin@));
        CertificatePins { fingerprints }
    }

    /// Whether a digest is that of a pinned certificate.
    pub fn matches_digest(&self, digest: &[u8]) -> (b: bool)
        ensures
            b == pinned(self@, digest@),
    {
        let fingerprint = upper_hex_string(digest);
        let mut i: usize = 0;
        while i < self.fingerprints.len()
            invariant
                i <= self.fingerprints@.len(),
                fingerprint@ == text::upper_hex(digest@),
                forall|j: int| 0 <= j < i ==> (#[trigger] self@[j]) != fingerprint@,
            decreases self.fingerprints@.len() - i,
        {
            assert(self@[i as int] == self.fingerprints@[i as int]@);
            if same_text(self.fingerprints[i].as_str(), fingerprint.as_str()) {
                return true;
            }
            i = i + 1;
        }
        false
    }

    /// Whether a certificate in DER encoding matches any of the pinned fingerprints.
    pub fn matches(&self, cert: &[u8]) -> (b: bool)
        ensures
            b == pinned(self@, sha256_of(cert@)),
    {
        let digest = sha256(cert);
        self.matches_digest(digest.as_slice())
    }
}

impl Clone for CertificatePins {
    fn clone(&self) -> (p: CertificatePins)
        ensures
            p@ == self@,
            no_colons(p@),
    {
        proof {
            use_type_invariant(self);
        }
        let mut fingerprints: Vec<String> = Vec::new();
        let mut i: usize = 0;
        while i < self.fingerprints.len()
            invariant
                i <= self.fingerprints@.len(),
                fingerprints@.len() == i,
                forall|j: int|
                    0 <= j < i ==> (#[trigger] fingerprints@[j])@ == self.fingerprints@[j]@,
            decreases self.fingerprints@.len() - i,
        {
            fingerprints.push(self.fingerprints[i].clone());
            i = i + 1;
        }
        assert(fingerprints@.map_values(|s: String| s@) =~= self@);
        CertificatePins { fingerprints }
    }
}

impl Default for CertificatePins {
    fn default() -> (p: CertificatePins)
        ensures
            p@ == Seq::<Seq<char>>::empty(),
            no_colons(p@),
    {
        CertificatePins::new()
    }
}

/// Certificate verifier that validates against pinned certificate fingerprints.
#[derive(Debug)]
pub struct PinningVerifier {
    pins: CertificatePins,
}

impl View for PinningVerifier {
    type V = Seq<Seq<char>>;

    closed spec fn view(&self) -> Seq<Seq<char>> {
        self.pins@
    }
}

impl PinningVerifier {
    /// A verifier for some pins.
    pub fn new(pins: CertificatePins) -> (v: PinningVerifier)
        ensures
            v@ == pins@,
    {
        PinningVerifier { pins }
    }

    /// Accepts a server's certificate in DER encoding if and only if it is pinned.
    pub fn verify_server_cert(&self, end_entity: &[u8]) -> (r: Result<(), String>)
        ensures
            match r {
                Ok(_) => pinned(self@, sha256_of(end_entity@)),
                Err(t) => !pinned(self@, sha256_of(end_entity@)) && t@
                    == "Certificate does not match any pinned fingerprint"@,
            },
    {
        if self.pins.matches(end_entity) {
            Ok(())
        } else {
            Err("Certificate does not match any pinned fingerprint".to_owned())
        }
    }
}

/// How a fingerprint is written does not matter: colons and the case of ASCII letters
/// make no difference, so a certificate whose fingerprint was added in any such form is
/// pinned.
pub proof fn fingerprint_form_does_not_matter(
    pins: Seq<Seq<char>>,
    fingerprint: Seq<char>,
    digest: Seq<u8>,
)
    requires
        is_ascii_text(fingerprint.filter(|c: char| c != ':')),
        fingerprint.filter(|c: char| c != ':').map_values(|c: char| ascii_upper(c))
            == text::upper_hex(digest),
    ensures
        pinned(pins.push(normalized(fingerprint)), digest),
{
    let all = pins.push(normalized(fingerprint));
    assert(all[all.len() - 1] == text::upper_hex(digest));
}

/// Spellings of a fingerprint that differ only in colons add the same pin, behind the pins
/// that are there already. So do spellings in ASCII that differ in the case of letters too.
pub proof fn spellings_add_one_pin(pins: Seq<Seq<char>>, one: Seq<char>, other: Seq<char>)
    requires
        one.filter(|c: char| c != ':') == other.filter(|c: char| c != ':') || {
            &&& is_ascii_text(one.filter(|c: char| c != ':'))
            &&& is_ascii_text(other.filter(|c: char| c != ':'))
            &&& one.filter(|c: char| c != ':').map_values(|c: char| ascii_upper(c)) == other.filter(
                |c: char| c != ':',
            ).map_values(|c: char| ascii_upper(c))
        },
    ensures
        pins.push(normalized(one)) == pins.push(normalized(other)),
        pins.push(normalized(one)).drop_last() == pins,
{
    assert(pins.push(normalized(one)).drop_last() =~= pins);
}

/// Whether a text holds neither a colon nor a lower-case ASCII letter.
pub open spec fn is_plain(text: Seq<char>) -> bool {
    forall|i: int|
        0 <= i < text.len() ==> (#[trigger] text[i]) != ':' && !('a' <= text[i] && text[i] <= 'z')
}

/// Whether every pin is plain.
pub open spec fn all_plain(pins: Seq<Seq<char>>) -> bool {
    forall|i: int| 0 <= i < pins.len() ==> is_plain(#[trigger] pins[i])
}

/// No pin holds a colon or a lower-case letter: none does at first, and adding a
/// fingerprint of ASCII characters keeps it so.
pub proof fn pins_stay_plain(pins: Seq<Seq<char>>, fingerprint: Seq<char>)
    requires
        is_ascii_text(fingerprint),
    ensures
        all_plain(Seq::empty()),
        is_plain(normalized(fingerprint)),
        all_plain(pins) ==> all_plain(pins.push(normalized(fingerprint))),
{
    let keep = |c: char| c != ':';
    let kept = fingerprint.filter(keep);
    assert forall|i: int| 0 <= i < kept.len() implies kept[i] != ':' && (#[trigger] kept[i]) as u32
        <= 127 by {
        fingerprint.lemma_filter_pred(keep, i);
        assert(kept.contains(kept[i]));
        fingerprint.lemma_filter_contains_rev(keep, kept[i]);
        let j = choose|j: int| 0 <= j < fingerprint.len() && fingerprint[j] == kept[i];
        assert(fingerprint[j] as u32 <= 127);
    }
    let pin = normalized(fingerprint);
    assert(pin == kept.map_values(|c: char| ascii_upper(c)));
    assert forall|i: int| 0 <= i < pin.len() implies (#[trigger] pin[i]) != ':' && !('a' <= pin[i]
        && pin[i] <= 'z') by {
        assert(pin[i] == ascii_upper(kept[i]));
    }
    let all = pins.push(pin);
    if all_plain(pins) {
        assert forall|i: int| 0 <= i < all.len() implies is_plain(#[trigger] all[i]) by {
            if i < pins.len() {
                assert(all[i] == pins[i]);
            }
        }
    }
}

/// Without pins no certificate is accepted.
pub proof fn no_pins_accept_nothing(digest: Seq<u8>)
    ensures
        !pinned(Seq::empty(), digest),
{
}

/// `rustls::pki_types::PrivateKeyDer`, a private key in one of several encodings.
#[verifier::external_type_specification]
#[verifier::external_body]
pub struct ExPrivateKeyDer<'a>(PrivateKeyDer<'a>);

/// `rustls::RootCertStore`, a collection of trusted root certificates.
#[verifier::external_type_specification]
#[verifier::external_body]
pub struct ExRootCertStore(RootCertStore);

/// `rustls::ServerConfig`, the configuration of the server side.
#[verifier::external_type_specification]
#[verifier::external_body]
pub struct ExServerConfig(TlsServerConfig);

/// `rustls::ClientConfig`, the configuration of the client side.
#[verifier::external_type_specification]
#[verifier::external_body]
pub struct ExClientConfig(TlsClientConfig);

/// `tokio_rustls::TlsAcceptor`, which accepts connections on the server side.
#[verifier::external_type_specification]
#[verifier::external_body]
pub struct ExTlsAcceptor(TlsAcceptor);

/// `tokio_rustls::TlsConnector`, which makes connections on the client side.
#[verifier::external_type_specification]
#[verifier::external_body]
pub struct ExTlsConnector(TlsConnector);

/// The bytes of a private key.
pub uninterp spec fn key_der(key: PrivateKeyDer<'static>) -> Seq<u8>;

/// The certificates that were added to a collection of roots, in order.
pub uninterp spec fn roots_of(store: RootCertStore) -> Seq<Seq<u8>>;

/// The certificate chain that a server configuration was made with.
pub uninterp spec fn server_chain(config: TlsServerConfig) -> Seq<Seq<u8>>;

/// The bytes of the private key that a server configuration was made with.
pub uninterp spec fn server_key(config: TlsServerConfig) -> Seq<u8>;

/// The root certificates that a client configuration was made with.
pub uninterp spec fn client_roots(config: TlsClientConfig) -> Seq<Seq<u8>>;

/// The certificate chain and the bytes of the private key that an acceptor shows to
/// clients.
pub uninterp spec fn acceptor_identity(acceptor: TlsAcceptor) -> (Seq<Seq<u8>>, Seq<u8>);

/// The root certificates that a connector trusts.
pub uninterp spec fn connector_roots(connector: TlsConnector) -> Seq<Seq<u8>>;

/// The certificates that `rustls_pemfile::certs` finds in some bytes, or what is wrong
/// with them.
pub uninterp spec fn pem_certs_in(pem: Seq<u8>) -> Result<Seq<Seq<u8>>, Seq<char>>;

/// The first private key that `rustls_pemfile::private_key` finds in some bytes, if any,
/// or what is wrong with them.
pub uninterp spec fn pem_key_in(pem: Seq<u8>) -> Result<Option<Seq<u8>>, Seq<char>>;

/// Why `RootCertStore::add` refuses a certificate, if it does.
pub uninterp spec fn root_refusal(cert: Seq<u8>) -> Option<Seq<char>>;

/// The bytes of some byte strings.
pub open spec fn bytes_of(list: Seq<Vec<u8>>) -> Seq<Seq<u8>> {
    list.map_values(|v: Vec<u8>| v@)
}

/// Calls `rustls_pemfile::certs`: the named certificates, in order, or the named
/// failure. How PEM is read is not said here.
#[verifier::external_body]
fn pem_certs(pem: &[u8]) -> (r: Result<Vec<Vec<u8>>, String>)
    ensures
        match (r, pem_certs_in(pem@)) {
            (Ok(found), Ok(certs)) => bytes_of(found@) == certs,
            (Err(e), Err(t)) => e@ == t,
            _ => false,
        },
{
    let mut rest = pem;
    rustls_pemfile::certs(&mut rest).map(|c| c.map(|der| der.as_ref().to_vec())).collect::<
        Result<Vec<Vec<u8>>, std::io::Error>,
    >().map_err(|e: std::io::Error| e.to_string())
}

/// Calls `rustls_pemfile::private_key`: the named key, if any, or the named failure. How
/// PEM is read is not said here.
#[verifier::external_body]
fn pem_private_key(pem: &[u8]) -> (r: Result<Option<PrivateKeyDer<'static>>, String>)
    ensures
        match (r, pem_key_in(pem@)) {
            (Ok(Some(found)), Ok(Some(key))) => key_der(found) == key,
            (Ok(None), Ok(None)) => true,
            (Err(e), Err(t)) => e@ == t,
            _ => false,
        },
{
    let mut rest = pem;
    rustls_pemfile::private_key(&mut rest).map_err(|e: std::io::Error| e.to_string())
}

/// Calls `rustls::crypto::ring::default_provider` and `install_default`, which has an
/// effect only where no provider was installed before. Nothing is claimed of it.
#[verifier::external_body]
fn install_crypto_provider() {
    let _ = rustls::crypto::ring::default_provider().install_default();
}

/// Calls `ServerConfig::builder`, without client authentication, and `with_single_cert`:
/// a configuration with that chain and key. Whether they are accepted rests on the
/// crypto provider of the process, so nothing is claimed of it.
#[verifier::external_body]
fn build_server(chain: Vec<Vec<u8>>, key: PrivateKeyDer<'static>) -> (r: Result<
    TlsServerConfig,
    String,
>)
    ensures
        r matches Ok(config) ==> server_chain(config) == bytes_of(chain@) && server_key(config)
            == key_der(key),
{
    let certs: Vec<CertificateDer<'static>> = chain.into_iter().map(CertificateDer::from).collect();
    TlsServerConfig::builder().with_no_client_auth().with_single_cert(certs, key).map_err(
        |e: rustls::Error| e.to_string(),
    )
}

/// Calls `RootCertStore::empty`: a collection without certificates.
#[verifier::external_body]
fn roots_empty() -> (store: RootCertStore)
    ensures
        roots_of(store) == Seq::<Seq<u8>>::empty(),
{
    RootCertStore::empty()
}

/// Calls `RootCertStore::add`: the certificate is added, unless it is refused.
#[verifier::external_body]
fn roots_add(store: &mut RootCertStore, cert: &[u8]) -> (r: Result<(), String>)
    ensures
        match r {
            Ok(_) => root_refusal(cert@) is None && roots_of(*final(store)) == roots_of(
                *old(store),
            ).push(cert@),
            Err(e) => root_refusal(cert@) == Some(e@) && roots_of(*final(store)) == roots_of(
                *old(store),
            ),
        },
{
    store.add(CertificateDer::from(cert)).map_err(|e: rustls::Error| e.to_string())
}

/// Calls `ClientConfig::builder`, `with_root_certificates` and `with_no_client_auth`: a
/// configuration that trusts those roots. `builder` finds the crypto provider that
/// [`TlsConfig::new`] installed.
#[verifier::external_body]
fn build_client(store: RootCertStore) -> (config: TlsClientConfig)
    ensures
        client_roots(config) == roots_of(store),
{
    TlsClientConfig::builder().with_root_certificates(store).with_no_client_auth()
}

/// Calls `TlsAcceptor::from`: an acceptor with that configuration.
#[verifier::external_body]
fn acceptor_from(config: &Arc<TlsServerConfig>) -> (acceptor: TlsAcceptor)
    ensures
        acceptor_identity(acceptor) == (server_chain(**config), server_key(**config)),
{
    TlsAcceptor::from(Arc::clone(config))
}

/// Calls `TlsConnector::from`: a connector with that configuration.
#[verifier::external_body]
fn connector_from(config: &Arc<TlsClientConfig>) -> (connector: TlsConnector)
    ensures
        connector_roots(connector) == client_roots(**config),
{
    TlsConnector::from(Arc::clone(config))
}

/// What came of reading a PEM file.
#[derive(Debug)]
pub enum PemFile {
    /// The file at this path could not be opened, and why.
    NotOpened(String, String),
    /// The file could not be read, and why.
    Unreadable(String),
    /// What the file holds.
    Content(Vec<u8>),
}

/// The certificates in some bytes; there must be one at least.
pub open spec fn certs_read(pem: Seq<u8>, none_found: Seq<char>) -> Result<
    Seq<Seq<u8>>,
    ErrorView,
> {
    match pem_certs_in(pem) {
        Err(t) => Err(ErrorView::Tls("Failed to parse certificates: "@ + t)),
        Ok(certs) => if certs.len() == 0 {
            Err(ErrorView::Tls(none_found))
        } else {
            Ok(certs)
        },
    }
}

/// The private key in some bytes; there must be one.
pub open spec fn key_read(pem: Seq<u8>, none_found: Seq<char>) -> Result<Seq<u8>, ErrorView> {
    match pem_key_in(pem) {
        Err(t) => Err(ErrorView::Tls("Failed to parse private key: "@ + t)),
        Ok(None) => Err(ErrorView::Tls(none_found)),
        Ok(Some(key)) => Ok(key),
    }
}

/// The certificates in a file.
pub open spec fn certs_loaded(file: PemFile) -> Result<Seq<Seq<u8>>, ErrorView> {
    match file {
        PemFile::NotOpened(path, e) => Err(
            ErrorView::Tls("Failed to open certificate file '"@ + path@ + "': "@ + e@),
        ),
        PemFile::Unreadable(e) => Err(ErrorView::Tls("Failed to parse certificates: "@ + e@)),
        PemFile::Content(pem) => certs_read(pem@, "No certificates found in file"@),
    }
}

/// The private key in a file.
pub open spec fn key_loaded(file: PemFile) -> Result<Seq<u8>, ErrorView> {
    match file {
        PemFile::NotOpened(path, e) => Err(
            ErrorView::Tls("Failed to open key file '"@ + path@ + "': "@ + e@),
        ),
        PemFile::Unreadable(e) => Err(ErrorView::Tls("Failed to parse private key: "@ + e@)),
        PemFile::Content(pem) => key_read(pem@, "No private key found in file"@),
    }
}

/// Why the first of some certificates that cannot be a root is refused, if one is.
pub open spec fn first_refusal(certs: Seq<Seq<u8>>) -> Option<Seq<char>>
    decreases certs.len(),
{
    if certs.len() == 0 {
        None
    } else if first_refusal(certs.drop_last()) is Some {
        first_refusal(certs.drop_last())
    } else {
        root_refusal(certs.last())
    }
}

/// A refusal among the first of some certificates is that of all of them.
proof fn lemma_refusal_stays(certs: Seq<Seq<u8>>, n: int)
    requires
        0 <= n <= certs.len(),
        first_refusal(certs.take(n)) is Some,
    ensures
        first_refusal(certs) == first_refusal(certs.take(n)),
    decreases certs.len(),
{
    if n == certs.len() {
        assert(certs.take(n) =~= certs);
    } else {
        assert(certs.drop_last().take(n) =~= certs.take(n));
        lemma_refusal_stays(certs.drop_last(), n);
    }
}

/// The text of a file that could not be opened.
fn open_failure(prefix: &str, path: &String, e: &String) -> (r: NetworkError)
    ensures
        r@ == ErrorView::Tls(prefix@ + path@ + "': "@ + e@),
{
    let mut told = concatenated(prefix, path);
    told.append("': ");
    told.append(e.as_str());
    NetworkError::tls(told)
}

/// What a [`TlsConfig`] holds: the certificate chain and the key of the server side, and
/// the roots that the client side trusts.
pub struct TlsView {
    pub server: Option<(Seq<Seq<u8>>, Seq<u8>)>,
    pub client: Option<Seq<Seq<u8>>>,
}

/// TLS configuration for client and server.
pub struct TlsConfig {
    server_config: Option<Arc<TlsServerConfig>>,
    client_config: Option<Arc<TlsClientConfig>>,
}

impl View for TlsConfig {
    type V = TlsView;

    closed spec fn view(&self) -> TlsView {
        TlsView {
            server: match self.server_config {
                Some(c) => Some((server_chain(*c), server_key(*c))),
                None => None,
            },
            client: match self.client_config {
                Some(c) => Some(client_roots(*c)),
                None => None,
            },
        }
    }
}

/// Whether `r` is what building a server from a chain and a key can come to: the
/// configuration with them, or an error that tells why they are refused.
pub open spec fn server_outcome(
    before: TlsView,
    chain: Result<Seq<Seq<u8>>, ErrorView>,
    key: Result<Seq<u8>, ErrorView>,
    r: Result<TlsConfig, NetworkError>,
) -> bool {
    match (chain, key) {
        (Err(v), _) => r matches Err(e) && e@ == v,
        (Ok(_), Err(v)) => r matches Err(e) && e@ == v,
        (Ok(certs), Ok(der)) => match r {
            Ok(c) => c@ == (TlsView { server: Some((certs, der)), ..before }),
            Err(e) => e@ matches ErrorView::Tls(t) && "Invalid server certificate: "@.is_prefix_of(
                t,
            ),
        },
    }
}

/// Whether `r` is what trusting some roots comes to: the configuration with them, or the
/// error of the first that is refused.
pub open spec fn client_outcome(
    before: TlsView,
    roots: Result<Seq<Seq<u8>>, ErrorView>,
    prefix: Seq<char>,
    r: Result<TlsConfig, NetworkError>,
) -> bool {
    match roots {
        Err(v) => r matches Err(e) && e@ == v,
        Ok(certs) => match first_refusal(certs) {
            Some(t) => r matches Err(e) && e@ == ErrorView::Tls(prefix + t),
            None => r matches Ok(c) && c@ == (TlsView { client: Some(certs), ..before }),
        },
    }
}

impl TlsConfig {
    /// Creates a new empty TLS configuration.
    pub fn new() -> (c: TlsConfig)
        ensures
            c@ == (TlsView { server: None, client: None }),
    {
        install_crypto_provider();
        TlsConfig { server_config: None, client_config: None }
    }

    /// The certificates in some bytes; there must be one at least.
    fn parse_certs(pem: &[u8], none_found: &str) -> (r: Result<Vec<Vec<u8>>, NetworkError>)
        ensures
            match (r, certs_read(pem@, none_found@)) {
                (Ok(found), Ok(certs)) => bytes_of(found@) == certs,
                (Err(e), Err(v)) => e@ == v,
                _ => false,
            },
    {
        match pem_certs(pem) {
            Err(t) => Err(NetworkError::tls(concatenated("Failed to parse certificates: ", &t))),
            Ok(certs) => {
                if certs.len() == 0 {
                    return Err(NetworkError::tls(none_found));
                }
                Ok(certs)
            },
        }
    }

    /// The private key in some bytes; there must be one.
    fn parse_private_key(pem: &[u8], none_found: &str) -> (r: Result<
        PrivateKeyDer<'static>,
        NetworkError,
    >)
        ensures
            match (r, key_read(pem@, none_found@)) {
                (Ok(found), Ok(key)) => key_der(found) == key,
                (Err(e), Err(v)) => e@ == v,
                _ => false,
            },
    {
        match pem_private_key(pem) {
            Err(t) => Err(NetworkError::tls(concatenated("Failed to parse private key: ", &t))),
            Ok(None) => Err(NetworkError::tls(none_found)),
            Ok(Some(key)) => Ok(key),
        }
    }

    /// The certificates in a file.
    fn load_certs(file: PemFile) -> (r: Result<Vec<Vec<u8>>, NetworkError>)
        ensures
            match (r, certs_loaded(file)) {
                (Ok(found), Ok(certs)) => bytes_of(found@) == certs,
                (Err(e), Err(v)) => e@ == v,
                _ => false,
            },
    {
        match file {
            PemFile::NotOpened(path, e) => Err(
                open_failure("Failed to open certificate file '", &path, &e),
            ),
            PemFile::Unreadable(e) => Err(
                NetworkError::tls(concatenated("Failed to parse certificates: ", &e)),
            ),
            PemFile::Content(pem) => TlsConfig::parse_certs(
                pem.as_slice(),
                "No certificates found in file",
            ),
        }
    }

    /// The private key in a file.
    fn load_private_key(file: PemFile) -> (r: Result<PrivateKeyDer<'static>, NetworkError>)
        ensures
            match (r, key_loaded(file)) {
                (Ok(found), Ok(key)) => key_der(found) == key,
                (Err(e), Err(v)) => e@ == v,
                _ => false,
            },
    {
        match file {
            PemFile::NotOpened(path, e) => Err(open_failure("Failed to open key file '", &path, &e)),
            PemFile::Unreadable(e) => Err(
                NetworkError::tls(concatenated("Failed to parse private key: ", &e)),
            ),
            PemFile::Content(pem) => TlsConfig::parse_private_key(
                pem.as_slice(),
                "No private key found in file",
            ),
        }
    }

    /// Takes in what came of building a server configuration.
    pub fn with_server(self, built: Result<TlsServerConfig, String>) -> (r: Result<
        TlsConfig,
        NetworkError,
    >)
        ensures
            match (built, r) {
                (Ok(config), Ok(c)) => c@ == (TlsView {
                    server: Some((server_chain(config), server_key(config))),
                    ..self@
                }),
                (Err(t), Err(e)) => e@ == ErrorView::Tls("Invalid server certificate: "@ + t@),
                _ => false,
            },
    {
        match built {
            Ok(config) => Ok(
                TlsConfig {
                    server_config: Some(Arc::new(config)),
                    client_config: self.client_config,
                },
            ),
            Err(t) => Err(NetworkError::tls(concatenated("Invalid server certificate: ", &t))),
        }
    }

    /// Loads server certificates and private key from PEM files.
    pub fn with_server_cert_file(self, cert_file: PemFile, key_file: PemFile) -> (r: Result<
        TlsConfig,
        NetworkError,
    >)
        ensures
            server_outcome(self@, certs_loaded(cert_file), key_loaded(key_file), r),
    {
        let certs = TlsConfig::load_certs(cert_file)?;
        let key = TlsConfig::load_private_key(key_file)?;
        self.with_server(build_server(certs, key))
    }

    /// Loads server certificates and private key from memory.
    pub fn with_server_cert_pem(self, cert_pem: &[u8], key_pem: &[u8]) -> (r: Result<
        TlsConfig,
        NetworkError,
    >)
        ensures
            server_outcome(
                self@,
                certs_read(cert_pem@, "No certificates found in PEM data"@),
                key_read(key_pem@, "No private key found in PEM data"@),
                r,
            ),
    {
        let certs = TlsConfig::parse_certs(cert_pem, "No certificates found in PEM data")?;
        let key = TlsConfig::parse_private_key(key_pem, "No private key found in PEM data")?;
        self.with_server(build_server(certs, key))
    }

    /// Makes the client side trust some roots.
    fn with_roots(self, certs: &Vec<Vec<u8>>, prefix: &str) -> (r: Result<TlsConfig, NetworkError>)
        ensures
            client_outcome(self@, Ok(bytes_of(certs@)), prefix@, r),
    {
        let ghost all = bytes_of(certs@);
        let mut store = roots_empty();
        let mut i: usize = 0;
        assert(all.take(0) =~= Seq::empty());
        while i < certs.len()
            invariant
                i <= certs@.len(),
                all == bytes_of(certs@),
                first_refusal(all.take(i as int)) is None,
                roots_of(store) == all.take(i as int),
            decreases certs@.len() - i,
        {
            proof {
                assert(all.take(i + 1).drop_last() =~= all.take(i as int));
                assert(all.take(i + 1).last() == certs@[i as int]@);
                assert(all.take(i + 1) =~= all.take(i as int).push(certs@[i as int]@));
            }
            if let Err(t) = roots_add(&mut store, certs[i].as_slice()) {
                proof {
                    lemma_refusal_stays(all, i + 1);
                }
                return Err(NetworkError::tls(concatenated(prefix, &t)));
            }
            i = i + 1;
        }
        assert(all.take(all.len() as int) =~= all);
        Ok(
            TlsConfig {
                server_config: self.server_config,
                client_config: Some(Arc::new(build_client(store))),
            },
        )
    }

    /// Configures the client with root CA certificates from a file.
    pub fn with_client_ca_file(self, ca_file: PemFile) -> (r: Result<TlsConfig, NetworkError>)
        ensures
            client_outcome(self@, certs_loaded(ca_file), "Invalid CA certificate: "@, r),
    {
        let certs = TlsConfig::load_certs(ca_file)?;
        self.with_roots(&certs, "Invalid CA certificate: ")
    }

    /// Configures the client with root CA certificates from memory.
    pub fn with_client_ca_pem(self, ca_pem: &[u8]) -> (r: Result<TlsConfig, NetworkError>)
        ensures
            client_outcome(
                self@,
                certs_read(ca_pem@, "No certificates found in PEM data"@),
                "Invalid CA certificate: "@,
                r,
            ),
    {
        let certs = TlsConfig::parse_certs(ca_pem, "No certificates found in PEM data")?;
        self.with_roots(&certs, "Invalid CA certificate: ")
    }

    /// Configures the client to use the root certificates of the system, which were
    /// loaded in DER encoding.
    pub fn with_client_system_roots(self, native_certs: &Vec<Vec<u8>>) -> (r: Result<
        TlsConfig,
        NetworkError,
    >)
        ensures
            client_outcome(
                self@,
                Ok(bytes_of(native_certs@)),
                "Invalid system certificate: "@,
                r,
            ),
    {
        self.with_roots(native_certs, "Invalid system certificate: ")
    }

    /// Configures the client as given, which may verify servers in a way of its own.
    pub fn with_client_config(self, config: TlsClientConfig) -> (c: TlsConfig)
        ensures
            c@ == (TlsView { client: Some(client_roots(config)), ..self@ }),
    {
        TlsConfig { server_config: self.server_config, client_config: Some(Arc::new(config)) }
    }

    /// The TLS acceptor for a server, if it is configured.
    pub fn acceptor(&self) -> (a: Option<TlsAcceptor>)
        ensures
            match a {
                Some(acceptor) => self@.server == Some(acceptor_identity(acceptor)),
                None => self@.server is None,
            },
    {
        match &self.server_config {
            Some(config) => Some(acceptor_from(config)),
            None => None,
        }
    }

    /// The TLS connector for a client, if it is configured.
    pub fn connector(&self) -> (c: Option<TlsConnector>)
        ensures
            match c {
                Some(connector) => self@.client == Some(connector_roots(connector)),
                None => self@.client is None,
            },
    {
        match &self.client_config {
            Some(config) => Some(connector_from(config)),
            None => None,
        }
    }

    /// Whether server TLS is configured.
    pub fn has_server_config(&self) -> (b: bool)
        ensures
            b == (self@.server is Some),
    {
        self.server_config.is_some()
    }

    /// Whether client TLS is configured.
    pub fn has_client_config(&self) -> (b: bool)
        ensures
            b == (self@.client is Some),
    {
        self.client_config.is_some()
    }
}

impl Clone for TlsConfig {
    fn clone(&self) -> (c: TlsConfig)
        ensures
            c@ == self@,
    {
        TlsConfig {
            server_config: match &self.server_config {
                Some(config) => Some(Arc::clone(config)),
                None => None,
            },
            client_config: match &self.client_config {
                Some(config) => Some(Arc::clone(config)),
                None => None,
            },
        }
    }
}

impl Default for TlsConfig {
    fn default() -> (c: TlsConfig)
        ensures
            c@ == (TlsView { server: None, client: None }),
    {
        TlsConfig::new()
    }
}

/// A text of digits and upper-case letters is its own normal form.
proof fn lemma_normal(text: Seq<char>)
    requires
        forall|i: int|
            0 <= i < text.len() ==> '0' <= (#[trigger] text[i]) && text[i] <= '9' || 'A' <= text[i]
                && text[i] <= 'F',
    ensures
        normalized(text) == text,
{
    let keep = |c: char| c != ':';
    lemma_keeps_all(text, keep);
    assert(text.map_values(|c: char| ascii_upper(c)) =~= text);
    assert(is_ascii_text(text));
}

/// Where every character is kept, all of them are.
proof fn lemma_keeps_all(text: Seq<char>, keep: spec_fn(char) -> bool)
    requires
        forall|i: int| 0 <= i < text.len() ==> keep(#[trigger] text[i]),
    ensures
        text.filter(keep) == text,
    decreases text.len(),
{
    reveal(Seq::filter);
    if text.len() > 0 {
        let rest = text.drop_last();
        assert forall|i: int| 0 <= i < rest.len() implies keep(#[trigger] rest[i]) by {
            assert(rest[i] == text[i]);
        }
        lemma_keeps_all(rest, keep);
        assert(keep(text[text.len() - 1]));
        assert(rest.push(text.last()) =~= text);
    } else {
        assert(text.filter(keep) =~= text);
    }
}

/// A pin lets through the certificate whose digest it is, and no other: with one more pin,
/// exactly one more digest is accepted.
pub proof fn pin_accepts_its_digest_only(
    pins: Seq<Seq<char>>,
    expected: Seq<u8>,
    digest: Seq<u8>,
)
    ensures
        pinned(pins.push(normalized(text::upper_hex(expected))), digest) <==> pinned(pins, digest)
            || digest == expected,
{
    text::upper_hex_injective(expected, digest);
    lemma_normal(text::upper_hex(expected));
    let pin = text::upper_hex(expected);
    let all = pins.push(pin);
    let wanted = text::upper_hex(digest);
    if pinned(pins, digest) {
        let i = choose|i: int| 0 <= i < pins.len() && pins[i] == wanted;
        assert(all[i] == wanted);
    }
    if digest == expected {
        assert(all[pins.len() as int] == wanted);
    }
    if pinned(all, digest) {
        let i = choose|i: int| 0 <= i < all.len() && all[i] == wanted;
        if i < pins.len() {
            assert(pins[i] == wanted);
        }
    }
}

/// All roots are trusted exactly when none is refused; the refusal that is told is that of
/// the first one that is.
pub proof fn first_refused_root_is_told(certs: Seq<Seq<u8>>, i: int)
    requires
        0 <= i < certs.len(),
    ensures
        root_refusal(certs[i]) is Some ==> first_refusal(certs) is Some,
        root_refusal(certs[i]) is Some && (forall|j: int|
            0 <= j < i ==> root_refusal(#[trigger] certs[j]) is None) ==> first_refusal(certs)
            == root_refusal(certs[i]),
        (forall|j: int| 0 <= j < certs.len() ==> root_refusal(#[trigger] certs[j]) is None)
            ==> first_refusal(certs) is None,
        first_refusal(Seq::empty()) is None,
    decreases certs.len(),
{
    let rest = certs.drop_last();
    assert(certs[certs.len() - 1] == certs.last());
    assert(forall|j: int| 0 <= j < rest.len() ==> rest[j] == certs[j]);
    if rest.len() > 0 {
        let k = if i < rest.len() {
            i
        } else {
            0
        };
        first_refused_root_is_told(rest, k);
        if i == rest.len() && (forall|j: int| 0 <= j < i ==> root_refusal(#[trigger] certs[j]) is None) {
            assert forall|j: int| 0 <= j < rest.len() implies root_refusal(#[trigger] rest[j]) is None by {
                assert(rest[j] == certs[j]);
            }
        }
    } else {
        assert(first_refusal(rest) is None);
    }
}

/// Roots that are all trusted are those that the client side trusts from then on, and the
/// server side is not touched. One that is refused fails the whole, and what could not be
/// read is told as it is.
pub proof fn roots_are_trusted_together(
    before: TlsView,
    certs: Seq<Seq<u8>>,
    v: ErrorView,
    prefix: Seq<char>,
    r: Result<TlsConfig, NetworkError>,
)
    ensures
        client_outcome(before, Ok(certs), prefix, r) && (forall|j: int|
            0 <= j < certs.len() ==> root_refusal(#[trigger] certs[j]) is None) ==> (r matches Ok(c)
            && c@.client == Some(certs) && c@.server == before.server),
        client_outcome(before, Ok(certs), prefix, r) && (exists|j: int|
            0 <= j < certs.len() && root_refusal(#[trigger] certs[j]) is Some) ==> (r matches Err(e)
            && e@ is Tls),
        client_outcome(before, Err(v), prefix, r) ==> (r matches Err(e) && e@ == v),
{
    if certs.len() == 0 {
        assert(first_refusal(certs) is None);
    } else {
        first_refused_root_is_told(certs, 0);
        if exists|j: int| 0 <= j < certs.len() && root_refusal(#[trigger] certs[j]) is Some {
            let j = choose|j: int|
                0 <= j < certs.len() && root_refusal(#[trigger] certs[j]) is Some;
            first_refused_root_is_told(certs, j);
        }
    }
}

/// A server shows the chain and the key that it was given, and the client side is not
/// touched; a chain that cannot be read is told before a key that cannot be.
pub proof fn server_shows_its_chain(
    before: TlsView,
    chain: Result<Seq<Seq<u8>>, ErrorView>,
    key: Result<Seq<u8>, ErrorView>,
    r: Result<TlsConfig, NetworkError>,
)
    requires
        server_outcome(before, chain, key, r),
    ensures
        r matches Ok(c) ==> {
            &&& chain matches Ok(certs)
            &&& key matches Ok(der)
            &&& c@.server == Some((certs, der))
            &&& c@.client == before.client
        },
        chain matches Err(v) ==> (r matches Err(e) && e@ == v),
        chain is Ok ==> (key matches Err(v) ==> (r matches Err(e) && e@ == v)),
        chain is Ok && key is Ok ==> (r matches Err(e) ==> e@ is Tls),
{
}

/// Certificates and keys are those that the bytes hold. Bytes without any are refused, as are
/// bytes that cannot be read, and a file that cannot be.
pub proof fn certificates_must_be_there(pem: Seq<u8>, none_found: Seq<char>, file: PemFile)
    ensures
        certs_read(pem, none_found) matches Ok(certs) ==> certs.len() > 0 && pem_certs_in(pem) == Ok::<
            Seq<Seq<u8>>,
            Seq<char>,
        >(certs),
        pem_certs_in(pem) matches Ok(certs) ==> (certs.len() > 0 ==> certs_read(pem, none_found)
            is Ok),
        certs_read(pem, none_found) matches Err(e) ==> e is Tls,
        key_read(pem, none_found) matches Ok(key) ==> pem_key_in(pem) == Ok::<
            Option<Seq<u8>>,
            Seq<char>,
        >(Some(key)),
        pem_key_in(pem) matches Ok(Some(key)) ==> key_read(pem, none_found) is Ok,
        key_read(pem, none_found) matches Err(e) ==> e is Tls,
        file !is Content ==> certs_loaded(file) is Err && key_loaded(file) is Err,
        file matches PemFile::Content(bytes) ==> {
            &&& certs_loaded(file) == certs_read(bytes@, "No certificates found in file"@)
            &&& key_loaded(file) == key_read(bytes@, "No private key found in file"@)
        },
{
}

} // verus!
