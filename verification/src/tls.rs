//! TLS configuration for federation links (mutual TLS via rustls).
//!
//! Both directions of a peer link authenticate with certificates: when we dial
//! a peer we verify its certificate against the configured CA bundle and
//! present our own; when we accept a peer we require and verify its client
//! certificate against the same bundle. Peer identity is bound to the
//! certificate's subject-alternative-name, which by convention is the peer's
//! daemon id (that is the server name we verify against on dial).
//!
//! The files are read by the caller, which hands over what reading each of them
//! gave.
use std::sync::Arc;

use rustls::pki_types::CertificateDer;
use rustls::pki_types::PrivateKeyDer;
use rustls::server::WebPkiClientVerifier;
use rustls::ClientConfig as TlsClient;
use rustls::RootCertStore;
use rustls::ServerConfig as TlsServer;
use vstd::prelude::*;

use crate::config::TlsConfig;

verus! {

broadcast use vstd::string::group_string_axioms;

// --- certificates and keys in PEM files ----------------------------------------------

/// How a private key is encoded.
#[derive(Debug, Clone, Copy, PartialEq, Eq, Structural)]
pub enum KeyKind {
    /// PKCS#1.
    Pkcs1,
    /// SEC1.
    Sec1,
    /// PKCS#8.
    Pkcs8,
}

/// A private key in DER form.
pub struct KeyDer {
    /// How it is encoded.
    pub kind: KeyKind,
    /// Its bytes.
    pub der: Vec<u8>,
}

/// The model of a [`KeyDer`].
#[verifier::ext_equal]
pub struct KeyView {
    pub kind: KeyKind,
    pub der: Seq<u8>,
}

impl View for KeyDer {
    type V = KeyView;

    open spec fn view(&self) -> KeyView {
        KeyView { kind: self.kind, der: self.der@ }
    }
}

/// The bytes of each certificate.
pub open spec fn der_views(certs: Seq<Vec<u8>>) -> Seq<Seq<u8>> {
    certs.map_values(|c: Vec<u8>| c@)
}

/// What `rustls_pemfile::certs` yields for the bytes of a file: the certificates,
/// or the first error, in words.
pub uninterp spec fn pem_certs(data: Seq<u8>) -> Result<Seq<Seq<u8>>, Seq<char>>;

/// What `rustls_pemfile::private_key` yields for the bytes of a file: the first
/// private key if there is one, or an error, in words.
pub uninterp spec fn pem_key(data: Seq<u8>) -> Result<Option<KeyView>, Seq<char>>;

/// Collect the certificates of a PEM file with `rustls_pemfile::certs`, up to the
/// first error. The result is a function of the bytes alone.
#[verifier::external_body]
fn read_certs(data: &[u8]) -> (r: Result<Vec<Vec<u8>>, String>)
    ensures
        match r {
            Ok(certs) => pem_certs(data@) == Ok::<_, Seq<char>>(der_views(certs@)),
            Err(e) => pem_certs(data@) == Err::<Seq<Seq<u8>>, _>(e@),
        },
{
    let mut reader = data;
    let certs: Result<Vec<_>, _> = rustls_pemfile::certs(&mut reader).collect();
    match certs {
        Ok(list) => Ok(list.into_iter().map(|c| c.to_vec()).collect()),
        Err(e) => Err(e.to_string()),
    }
}

/// Find the first private key of a PEM file with `rustls_pemfile::private_key`.
/// The result is a function of the bytes alone.
#[verifier::external_body]
fn read_key(data: &[u8]) -> (r: Result<Option<KeyDer>, String>)
    ensures
        match r {
            Ok(Some(key)) => pem_key(data@) == Ok::<_, Seq<char>>(Some(key@)),
            Ok(None) => pem_key(data@) == Ok::<Option<KeyView>, Seq<char>>(None),
            Err(e) => pem_key(data@) == Err::<Option<KeyView>, _>(e@),
        },
{
    let mut reader = data;
    match rustls_pemfile::private_key(&mut reader) {
        Ok(Some(PrivateKeyDer::Pkcs1(k))) => Ok(
            Some(KeyDer { kind: KeyKind::Pkcs1, der: k.secret_pkcs1_der().to_vec() }),
        ),
        Ok(Some(PrivateKeyDer::Sec1(k))) => Ok(
            Some(KeyDer { kind: KeyKind::Sec1, der: k.secret_sec1_der().to_vec() }),
        ),
        Ok(Some(PrivateKeyDer::Pkcs8(k))) => Ok(
            Some(KeyDer { kind: KeyKind::Pkcs8, der: k.secret_pkcs8_der().to_vec() }),
        ),
        Ok(_) => Ok(None),
        Err(e) => Err(e.to_string()),
    }
}

/// A file's bytes, or why it could not be read, by views.
pub open spec fn file_view(read: Result<Vec<u8>, String>) -> Result<Seq<u8>, Seq<char>> {
    match read {
        Ok(data) => Ok(data@),
        Err(e) => Err(e@),
    }
}

/// An error about a file: what was being done, where, and what went wrong.
pub open spec fn about(what: Seq<char>, path: Seq<char>, why: Seq<char>) -> Seq<char> {
    what + path + ": "@ + why
}

fn error_about(what: &str, path: &str, why: &str) -> (s: String)
    ensures
        s@ == about(what@, path@, why@),
{
    what.to_string().concat(path).concat(": ").concat(why)
}

/// What parsed certificates lead to: there has to be one at least.
pub open spec fn certs_outcome(path: Seq<char>, parsed: Result<Seq<Seq<u8>>, Seq<char>>) -> Result<
    Seq<Seq<u8>>,
    Seq<char>,
> {
    match parsed {
        Err(e) => Err(about("parsing certs "@, path, e)),
        Ok(certs) => if certs.len() == 0 {
            Err("no certificates found in "@ + path)
        } else {
            Ok(certs)
        },
    }
}

/// What parsed private keys lead to: there has to be one.
pub open spec fn key_outcome(path: Seq<char>, parsed: Result<Option<KeyView>, Seq<char>>) -> Result<
    KeyView,
    Seq<char>,
> {
    match parsed {
        Err(e) => Err(about("parsing key "@, path, e)),
        Ok(Some(key)) => Ok(key),
        Ok(None) => Err("no private key found in "@ + path),
    }
}

/// The certificates of a file that was read.
pub open spec fn certs_of(path: Seq<char>, read: Result<Seq<u8>, Seq<char>>) -> Result<
    Seq<Seq<u8>>,
    Seq<char>,
> {
    match read {
        Err(e) => Err(about("reading cert "@, path, e)),
        Ok(data) => certs_outcome(path, pem_certs(data)),
    }
}

/// The private key of a file that was read.
pub open spec fn key_of(path: Seq<char>, read: Result<Seq<u8>, Seq<char>>) -> Result<
    KeyView,
    Seq<char>,
> {
    match read {
        Err(e) => Err(about("reading key "@, path, e)),
        Ok(data) => key_outcome(path, pem_key(data)),
    }
}

/// Judge the certificates that a file was parsed to.
pub fn check_certs(path: &str, parsed: Result<Vec<Vec<u8>>, String>) -> (r: Result<
    Vec<Vec<u8>>,
    String,
>)
    ensures
        certs_result(r) == certs_outcome(path@, certs_result(parsed)),
{
    match parsed {
        Err(e) => Err(error_about("parsing certs ", path, e.as_str())),
        Ok(certs) => {
            if certs.len() == 0 {
                Err("no certificates found in ".to_string().concat(path))
            } else {
                Ok(certs)
            }
        },
    }
}

/// Judge the private key that a file was parsed to.
pub fn check_key(path: &str, parsed: Result<Option<KeyDer>, String>) -> (r: Result<KeyDer, String>)
    ensures
        key_result(r) == key_outcome(path@, found_key(parsed)),
{
    match parsed {
        Err(e) => Err(error_about("parsing key ", path, e.as_str())),
        Ok(Some(key)) => Ok(key),
        Ok(None) => Err("no private key found in ".to_string().concat(path)),
    }
}

/// A list of certificates or an error, by views.
pub open spec fn certs_result(r: Result<Vec<Vec<u8>>, String>) -> Result<
    Seq<Seq<u8>>,
    Seq<char>,
> {
    match r {
        Ok(certs) => Ok(der_views(certs@)),
        Err(e) => Err(e@),
    }
}

/// A key or an error, by views.
pub open spec fn key_result(r: Result<KeyDer, String>) -> Result<KeyView, Seq<char>> {
    match r {
        Ok(key) => Ok(key@),
        Err(e) => Err(e@),
    }
}

/// A key that was looked for, by views.
pub open spec fn found_key(r: Result<Option<KeyDer>, String>) -> Result<
    Option<KeyView>,
    Seq<char>,
> {
    match r {
        Ok(Some(key)) => Ok(Some(key@)),
        Ok(None) => Ok(None),
        Err(e) => Err(e@),
    }
}

/// The certificates of a PEM file, given what reading it gave.
pub fn load_certs(path: &str, read: &Result<Vec<u8>, String>) -> (r: Result<Vec<Vec<u8>>, String>)
    ensures
        certs_result(r) == certs_of(path@, file_view(*read)),
{
    match read {
        Err(e) => Err(error_about("reading cert ", path, e.as_str())),
        Ok(data) => check_certs(path, read_certs(data.as_slice())),
    }
}

/// The private key of a PEM file, given what reading it gave.
pub fn load_key(path: &str, read: &Result<Vec<u8>, String>) -> (r: Result<KeyDer, String>)
    ensures
        key_result(r) == key_of(path@, file_view(*read)),
{
    match read {
        Err(e) => Err(error_about("reading key ", path, e.as_str())),
        Ok(data) => check_key(path, read_key(data.as_slice())),
    }
}

// --- trust anchors ---------------------------------------------------------------------

/// `rustls::RootCertStore`, the trust anchors that certificates are verified
/// against.
#[verifier::external_type_specification]
#[verifier::external_body]
pub struct ExRootCertStore(RootCertStore);

/// The certificates that were added to a store, in order.
pub uninterp spec fn anchors(store: RootCertStore) -> Seq<Seq<u8>>;

/// Why `rustls::RootCertStore::add` refuses a certificate, in words, if it does.
pub uninterp spec fn anchor_fault(der: Seq<u8>) -> Option<Seq<char>>;

/// An empty store, with `rustls::RootCertStore::empty`.
#[verifier::external_body]
fn empty_store() -> (store: RootCertStore)
    ensures
        anchors(store) == Seq::<Seq<u8>>::empty(),
{
    RootCertStore::empty()
}

/// Add a certificate to a store with `rustls::RootCertStore::add`. One that does
/// not parse as a trust anchor is refused, and the store stays as it is; whether
/// it does is a function of its bytes.
#[verifier::external_body]
fn add_anchor(store: &mut RootCertStore, der: Vec<u8>) -> (r: Result<(), String>)
    ensures
        match r {
            Ok(_) => anchor_fault(der@) is None && anchors(*final(store)) == anchors(
                *old(store),
            ).push(der@),
            Err(e) => anchor_fault(der@) == Some(e@) && anchors(*final(store)) == anchors(
                *old(store),
            ),
        },
{
    store.add(CertificateDer::from(der)).map_err(|e| e.to_string())
}

/// What certificates lead to when they are added to a store one by one: the
/// first that is refused, if there is one.
pub open spec fn first_fault(certs: Seq<Seq<u8>>) -> Option<Seq<char>>
    decreases certs.len(),
{
    if certs.len() == 0 {
        None
    } else {
        match first_fault(certs.drop_last()) {
            Some(e) => Some(e),
            None => anchor_fault(certs.last()),
        }
    }
}

/// The trust anchors of a CA file that was read.
pub open spec fn roots_of(path: Seq<char>, read: Result<Seq<u8>, Seq<char>>) -> Result<
    Seq<Seq<u8>>,
    Seq<char>,
> {
    match certs_of(path, read) {
        Err(e) => Err(e),
        Ok(certs) => match first_fault(certs) {
            Some(e) => Err(about("adding CA cert from "@, path, e)),
            None => Ok(certs),
        },
    }
}

/// The trust anchors of a CA file, given what reading it gave: each of its
/// certificates, in order.
pub fn load_roots(path: &str, read: &Result<Vec<u8>, String>) -> (r: Result<RootCertStore, String>)
    ensures
        match r {
            Ok(store) => roots_of(path@, file_view(*read)) == Ok::<_, Seq<char>>(anchors(store)),
            Err(e) => roots_of(path@, file_view(*read)) == Err::<Seq<Seq<u8>>, _>(e@),
        },
{
    let mut certs = match load_certs(path, read) {
        Ok(certs) => certs,
        Err(e) => return Err(e),
    };
    let ghost all = der_views(certs@);
    let mut roots = empty_store();
    let ghost mut added: int = 0;
    assert(all.take(0) =~= Seq::<Seq<u8>>::empty());
    assert(der_views(certs@) =~= all.skip(0));
    while certs.len() > 0
        invariant
            0 <= added <= all.len(),
            certs_of(path@, file_view(*read)) == Ok::<_, Seq<char>>(all),
            der_views(certs@) == all.skip(added),
            anchors(roots) == all.take(added),
            first_fault(all.take(added)) is None,
        decreases certs.len(),
    {
        let ghost before = der_views(certs@);
        assert(before.len() == certs@.len());
        let cert = certs.remove(0);
        proof {
            assert(before.len() == all.len() - added);
            assert(before[0] == all[added]);
            assert(cert@ == all[added]);
            assert(der_views(certs@) =~= before.drop_first());
            assert(all.take(added + 1).drop_last() =~= all.take(added));
            assert(all.take(added + 1).last() == cert@);
        }
        if let Err(e) = add_anchor(&mut roots, cert) {
            proof {
                lemma_first_fault(all, added + 1);
            }
            return Err(error_about("adding CA cert from ", path, e.as_str()));
        }
        proof {
            added = added + 1;
            assert(anchors(roots) =~= all.take(added));
            assert(der_views(certs@) =~= all.skip(added));
        }
    }
    proof {
        assert(all.skip(added).len() == 0);
        assert(all.take(added) =~= all);
    }
    Ok(roots)
}

proof fn lemma_first_fault(certs: Seq<Seq<u8>>, k: int)
    requires
        0 <= k <= certs.len(),
        first_fault(certs.take(k)) is Some,
    ensures
        first_fault(certs) == first_fault(certs.take(k)),
    decreases certs.len() - k,
{
    if k < certs.len() {
        assert(certs.take(k + 1).drop_last() =~= certs.take(k));
        lemma_first_fault(certs, k + 1);
    } else {
        assert(certs.take(k) =~= certs);
    }
}

// --- configurations -----------------------------------------------------------------------

/// `rustls::ServerConfig`, what a TLS server works by.
#[verifier::external_type_specification]
#[verifier::external_body]
pub struct ExTlsServer(TlsServer);

/// `rustls::ClientConfig`, what a TLS client works by.
#[verifier::external_type_specification]
#[verifier::external_body]
pub struct ExTlsClient(TlsClient);

/// Install the process-wide `ring` crypto provider (idempotent), with
/// `rustls::crypto::CryptoProvider::install_default`. That one is installed
/// already is fine. Nothing is stated: the effect is on the process alone.
#[verifier::external_body]
pub fn ensure_crypto_provider() {
    let _ = rustls::crypto::ring::default_provider().install_default();
}

/// What a TLS configuration is made of.
pub struct Material {
    /// This daemon's certificate chain.
    pub certs: Vec<Vec<u8>>,
    /// This daemon's private key.
    pub key: KeyDer,
    /// The trust anchors for peers.
    pub roots: RootCertStore,
}

/// The model of a [`Material`].
#[verifier::ext_equal]
pub struct MaterialView {
    pub certs: Seq<Seq<u8>>,
    pub key: KeyView,
    pub roots: Seq<Seq<u8>>,
}

impl View for Material {
    type V = MaterialView;

    open spec fn view(&self) -> MaterialView {
        MaterialView {
            certs: der_views(self.certs@),
            key: self.key@,
            roots: anchors(self.roots),
        }
    }
}

/// The three files of the TLS material, as reading them went.
pub struct Files {
    /// The certificate chain.
    pub cert: Result<Vec<u8>, String>,
    /// The private key.
    pub key: Result<Vec<u8>, String>,
    /// The CA bundle.
    pub ca: Result<Vec<u8>, String>,
}

/// The TLS material in the three files, or the first thing that is wrong with
/// them.
pub open spec fn material_of(tls: TlsConfig, files: Files) -> Result<MaterialView, Seq<char>> {
    match certs_of(tls.cert@, file_view(files.cert)) {
        Err(e) => Err(e),
        Ok(certs) => match key_of(tls.key@, file_view(files.key)) {
            Err(e) => Err(e),
            Ok(key) => match roots_of(tls.ca@, file_view(files.ca)) {
                Err(e) => Err(e),
                Ok(roots) => Ok(MaterialView { certs, key, roots }),
            },
        },
    }
}

/// Load the TLS material from the three files, in the order certificate, key, CA.
pub fn load_material(tls: &TlsConfig, files: &Files) -> (r: Result<Material, String>)
    ensures
        match r {
            Ok(m) => material_of(*tls, *files) == Ok::<_, Seq<char>>(m@),
            Err(e) => material_of(*tls, *files) == Err::<MaterialView, _>(e@),
        },
{
    let certs = match load_certs(tls.cert.as_str(), &files.cert) {
        Ok(certs) => certs,
        Err(e) => return Err(e),
    };
    let key = match load_key(tls.key.as_str(), &files.key) {
        Ok(key) => key,
        Err(e) => return Err(e),
    };
    let roots = match load_roots(tls.ca.as_str(), &files.ca) {
        Ok(roots) => roots,
        Err(e) => return Err(e),
    };
    Ok(Material { certs, key, roots })
}

/// Why a configuration could not be built, in words.
#[derive(Debug)]
pub enum BuildError {
    /// The verifier of client certificates could not be built.
    Verifier(String),
    /// The certificate chain and the key were refused.
    Config(String),
}

/// Build a server configuration that requires and verifies client certificates,
/// with `rustls::server::WebPkiClientVerifier::builder` and
/// `rustls::ServerConfig::builder`, `with_client_cert_verifier` and
/// `with_single_cert`. The verifier is refused exactly where there is no trust
/// anchor. Whether the chain and the key are accepted is not stated: the crypto
/// provider of the process judges them (`ring`, where no other was installed
/// before).
#[verifier::external_body]
fn build_server(m: Material) -> (r: Result<TlsServer, BuildError>)
    ensures
        r matches Err(BuildError::Verifier(_)) <==> anchors(m.roots).len() == 0,
{
    let verifier = WebPkiClientVerifier::builder(Arc::new(m.roots)).build().map_err(
        |e| BuildError::Verifier(e.to_string()),
    )?;
    let certs = m.certs.into_iter().map(CertificateDer::from).collect();
    let key = match m.key.kind {
        KeyKind::Pkcs1 => PrivateKeyDer::Pkcs1(m.key.der.into()),
        KeyKind::Sec1 => PrivateKeyDer::Sec1(m.key.der.into()),
        KeyKind::Pkcs8 => PrivateKeyDer::Pkcs8(m.key.der.into()),
    };
    let builder = TlsServer::builder().with_client_cert_verifier(verifier);
    builder.with_single_cert(certs, key).map_err(|e| BuildError::Config(e.to_string()))
}

/// Build a client configuration that verifies servers against the trust anchors
/// and presents the certificate chain, with `rustls::ClientConfig::builder`,
/// `with_root_certificates` and `with_client_auth_cert`. Whether the chain and
/// the key are accepted is not stated: the crypto provider of the process judges
/// them (`ring`, where no other was installed before).
#[verifier::external_body]
fn build_client(m: Material) -> (r: Result<TlsClient, String>) {
    let certs = m.certs.into_iter().map(CertificateDer::from).collect();
    let key = match m.key.kind {
        KeyKind::Pkcs1 => PrivateKeyDer::Pkcs1(m.key.der.into()),
        KeyKind::Sec1 => PrivateKeyDer::Sec1(m.key.der.into()),
        KeyKind::Pkcs8 => PrivateKeyDer::Pkcs8(m.key.der.into()),
    };
    let builder = TlsClient::builder().with_root_certificates(m.roots);
    builder.with_client_auth_cert(certs, key).map_err(|e| e.to_string())
}

/// Whether building a server configuration from the material can give `built`.
pub closed spec fn server_built(m: MaterialView, built: Result<TlsServer, BuildError>) -> bool {
    exists|mat: Material| mat@ == m && #[trigger] call_ensures(build_server, (mat,), built)
}

/// Whether building a client configuration from the material can give `built`.
pub closed spec fn client_built(m: MaterialView, built: Result<TlsClient, String>) -> bool {
    exists|mat: Material| mat@ == m && #[trigger] call_ensures(build_client, (mat,), built)
}

/// Judge what building a server configuration gave.
pub fn check_server(built: Result<TlsServer, BuildError>) -> (r: Result<Arc<TlsServer>, String>)
    ensures
        match built {
            Ok(cfg) => r is Ok && *r->Ok_0 == cfg,
            Err(BuildError::Verifier(e)) => r is Err && r->Err_0@ == "building client verifier: "@
                + e@,
            Err(BuildError::Config(e)) => r is Err && r->Err_0@
                == "building server tls config: "@ + e@,
        },
{
    match built {
        Ok(cfg) => Ok(Arc::new(cfg)),
        Err(BuildError::Verifier(e)) => Err(
            "building client verifier: ".to_string().concat(e.as_str()),
        ),
        Err(BuildError::Config(e)) => Err(
            "building server tls config: ".to_string().concat(e.as_str()),
        ),
    }
}

/// Judge what building a client configuration gave.
pub fn check_client(built: Result<TlsClient, String>) -> (r: Result<Arc<TlsClient>, String>)
    ensures
        match built {
            Ok(cfg) => r is Ok && *r->Ok_0 == cfg,
            Err(e) => r is Err && r->Err_0@ == "building client tls config: "@ + e@,
        },
{
    match built {
        Ok(cfg) => Ok(Arc::new(cfg)),
        Err(e) => Err("building client tls config: ".to_string().concat(e.as_str())),
    }
}

/// Build the rustls server config for accepting peer links (requires and
/// verifies client certificates: mutual TLS). A fault of the files is the error;
/// otherwise it is built from the material in them, of which only the chain and
/// the key can be refused.
pub fn server_config(tls: &TlsConfig, files: &Files) -> (r: Result<Arc<TlsServer>, String>)
    ensures
        match material_of(*tls, *files) {
            Err(e) => r is Err && r->Err_0@ == e,
            Ok(m) => match r {
                Ok(cfg) => server_built(m, Ok(*cfg)),
                Err(e) => exists|why: String| #[trigger]
                    server_built(m, Err(BuildError::Config(why))) && e@
                        == "building server tls config: "@ + why@,
            },
        },
{
    ensure_crypto_provider();
    let m = match load_material(tls, files) {
        Ok(m) => m,
        Err(e) => return Err(e),
    };
    proof {
        assert(m@.roots.len() > 0);
    }
    let ghost view = m@;
    let built = build_server(m);
    assert(server_built(view, built));
    check_server(built)
}

/// Build the rustls client config for dialing peers (verifies the peer's server
/// certificate against the CA and presents our own: mutual TLS). A fault of the
/// files is the error; otherwise it is built from the material in them, of which
/// only the chain and the key can be refused.
pub fn client_config(tls: &TlsConfig, files: &Files) -> (r: Result<Arc<TlsClient>, String>)
    ensures
        match material_of(*tls, *files) {
            Err(e) => r is Err && r->Err_0@ == e,
            Ok(m) => match r {
                Ok(cfg) => client_built(m, Ok(*cfg)),
                Err(e) => exists|why: String| #[trigger]
                    client_built(m, Err(why)) && e@ == "building client tls config: "@ + why@,
            },
        },
{
    ensure_crypto_provider();
    let m = match load_material(tls, files) {
        Ok(m) => m,
        Err(e) => return Err(e),
    };
    let ghost view = m@;
    let built = build_client(m);
    assert(client_built(view, built));
    check_client(built)
}

} // verus!
