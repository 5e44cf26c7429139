//! Setting up the TLS client side of a connection to a nameserver, for
//! DNS-over-TLS and DNS-over-HTTPS: the root certificates of the web, a client
//! configuration without client authentication, and a connection to the
//! server that the domain names.

use std::sync::Arc;

use rustls::pki_types::{InvalidDnsNameError, ServerName};
use rustls::{ClientConfig, ClientConnection, RootCertStore};
use vstd::prelude::*;

verus! {

#[verifier::external_type_specification]
#[verifier::external_body]
pub struct ExServerName<'a>(ServerName<'a>);

#[verifier::external_type_specification]
#[verifier::external_body]
pub struct ExInvalidDnsNameError(InvalidDnsNameError);

#[verifier::external_type_specification]
#[verifier::external_body]
pub struct ExRustlsError(rustls::Error);

#[verifier::external_type_specification]
#[verifier::external_body]
pub struct ExRootCertStore(RootCertStore);

#[verifier::external_type_specification]
#[verifier::external_body]
pub struct ExClientConfig(ClientConfig);

#[verifier::external_type_specification]
#[verifier::external_body]
pub struct ExClientConnection(ClientConnection);

/// Whether rustls accepts `domain` as the name of a server: a syntactically
/// valid DNS name, or else an IPv4 or IPv6 address.
pub uninterp spec fn accepted_server_name(domain: Seq<char>) -> bool;

/// The server name that rustls reads `domain` as, when it accepts it: the DNS
/// name or IP address that the text spells.
pub uninterp spec fn server_name_for(domain: Seq<char>) -> ServerName<'static>;

/// `ServerName::try_from` on a string (rustls-pki-types), with the name made
/// owned by `to_owned`. It parses the text as a DNS name or, failing that, as
/// an IP address, and depends on the text alone; the contract names which
/// texts it accepts and the name it gives for each, since `to_owned` only
/// copies the parsed name.
#[verifier::external_body]
fn server_name(domain: &str) -> (r: Result<ServerName<'static>, InvalidDnsNameError>)
    ensures
        r is Ok <==> accepted_server_name(domain@),
        r matches Ok(n) ==> n == server_name_for(domain@),
{
    match ServerName::try_from(domain) {
        Ok(name) => Ok(name.to_owned()),
        Err(e) => Err(e),
    }
}

/// A root certificate store holding the web's trust anchors that
/// `webpki_roots::TLS_SERVER_ROOTS` lists, filled as `RootCertStore::extend`
/// does from an empty store. Nothing is stated of the store.
#[verifier::external_body]
fn web_root_store() -> (r: RootCertStore) {
    let mut root_store = RootCertStore::empty();
    root_store.extend(webpki_roots::TLS_SERVER_ROOTS.iter().cloned());
    root_store
}

/// The client configuration that rustls's builder makes in three steps:
/// `ClientConfig::builder` (the process-default crypto provider and the
/// default protocol versions), `with_root_certificates` (server certificates
/// verified against `roots`, without revocation checks) and
/// `with_no_client_auth` (no client certificate offered). The steps stand in
/// one wrapper because the builder's type, `ConfigBuilder<Side: ConfigSide,
/// State>`, cannot be declared to Verus: it refuses the type's trait bound.
/// `builder` panics when no crypto provider can be resolved, or when the
/// provider has no cipher suite for the default protocol versions. Neither
/// can happen here: the `ring` provider that this crate is built with always
/// resolves, and its default cipher suites cover TLS 1.2 and TLS 1.3. Nothing
/// is stated of the configuration, which also rests on the process-wide
/// default provider.
#[verifier::external_body]
fn client_config(roots: RootCertStore) -> (r: ClientConfig) {
    ClientConfig::builder().with_root_certificates(roots).with_no_client_auth()
}

/// `ClientConnection::new` (rustls): a client connection to the server
/// `name` under `config`. Whether it fails rests on the configuration and on
/// the crypto provider's random numbers, so nothing is stated of the result.
#[verifier::external_body]
fn new_client_connection(config: Arc<ClientConfig>, name: ServerName<'static>) -> (r: Result<
    ClientConnection,
    rustls::Error,
>) {
    ClientConnection::new(config, name)
}

/// What can go wrong while setting up the TLS side of a connection.
#[derive(Debug)]
pub enum TlsSetupError {
    /// The domain is not a valid server name.
    InvalidName(InvalidDnsNameError),
    /// The TLS library refused to set up the connection.
    Tls(rustls::Error),
}

/// Reads the domain as the name of the server to connect to; the error says
/// that it is none.
pub fn tls_server_name(domain: &str) -> (r: Result<ServerName<'static>, TlsSetupError>)
    ensures
        r is Ok <==> accepted_server_name(domain@),
        r matches Ok(n) ==> n == server_name_for(domain@),
        r matches Err(e) ==> e is InvalidName,
{
    match server_name(domain) {
        Ok(name) => Ok(name),
        Err(e) => Err(TlsSetupError::InvalidName(e)),
    }
}

/// Sets up the TLS client side of a connection to the server that `domain`
/// names, trusting the web's root certificates and offering no client
/// certificate. A domain that is no valid server name is refused with
/// `InvalidName`, and only such a domain; for any other the result is the
/// connection, or the error of the TLS library. The connection is set up for
/// the server name `server_name_for(domain@)`, which `tls_server_name` gives;
/// rustls offers no way to read the name back from a client connection, so
/// this contract cannot speak of it.
pub fn tls_client(domain: &str) -> (r: Result<ClientConnection, TlsSetupError>)
    ensures
        (r matches Err(TlsSetupError::InvalidName(_))) <==> !accepted_server_name(domain@),
        r is Ok ==> accepted_server_name(domain@),
{
    let roots = web_root_store();
    let config = client_config(roots);
    let name = match tls_server_name(domain) {
        Ok(name) => name,
        Err(e) => {
            return Err(e);
        },
    };
    match new_client_connection(Arc::new(config), name) {
        Ok(conn) => Ok(conn),
        Err(e) => Err(TlsSetupError::Tls(e)),
    }
}

} // verus!
