use http_tunnel::server::tls::TlsConfig;
use std::sync::Arc;
use tokio_rustls::rustls::client::danger::{
    HandshakeSignatureValid, ServerCertVerified, ServerCertVerifier,
};
use tokio_rustls::rustls::crypto::{verify_tls12_signature, verify_tls13_signature, CryptoProvider};
use tokio_rustls::rustls::pki_types::{CertificateDer, ServerName, UnixTime};
use tokio_rustls::rustls::{
    ClientConfig, ClientConnection, DigitallySignedStruct, Error, ServerConnection, SignatureScheme,
};

const CERTIFICATE: &str = "\
    MIIBlTCCATugAwIBAgIULyYIO7tQaQtvAhCwlpsZh2FhtFUwCgYIKoZIzj0EAwIw\n\
    FDESMBAGA1UEAwwJbG9jYWxob3N0MCAXDTI2MTExNTAzMTQ0NVoYDzIxMjYxMDIy\n\
    MDMxNDQ1WjAUMRIwEAYDVQQDDAlsb2NhbGhvc3QwWTATBgcqhkjOPQIBBggqhkjO\n\
    PQMBBwNCAAQC7EkfvedGpJ4z45mygC4KYIUFtbOibVA7UcPknSbQL4aA7y+z2Whv\n\
    FGZUZAvNRw860MOurZhukSc2X9kWS7lqo2kwZzAdBgNVHQ4EFgQUV4ERRAbHQQyR\n\
    BUkAw5AAmu7L79AwHwYDVR0jBBgwFoAUV4ERRAbHQQyRBUkAw5AAmu7L79AwDwYD\n\
    VR0TAQH/BAUwAwEB/zAUBgNVHREEDTALgglsb2NhbGhvc3QwCgYIKoZIzj0EAwID\n\
    SAAwRQIgZMWLECfnT9cZY2/mux3jzkyiMcZ/yd98HC3CrguKSQICIQDA3aZJfFsu\n\
    aaGHff6Xq0dK+0Acj8mX4mFFu1to7eQ/5A==";

const KEY: &str = "\
    MIGHAgEAMBMGByqGSM49AgEGCCqGSM49AwEHBG0wawIBAQQgim9EFA25NV/b3zZc\n\
    AeN6t2zhyuZCeYiOUNOnBjsByP2hRANCAAQC7EkfvedGpJ4z45mygC4KYIUFtbOi\n\
    bVA7UcPknSbQL4aA7y+z2WhvFGZUZAvNRw860MOurZhukSc2X9kWS7lq";

const OTHER_KEY: &str = "\
    MIGHAgEAMBMGByqGSM49AgEGCCqGSM49AwEHBG0wawIBAQQgG6+RXahX2Bq7jHC1\n\
    3YJk7HqAXzZJaeJXmDp2NKDRGZ6hRANCAAS8TacCPcr6DjO7FhYeYz3Q/kpAgwKS\n\
    JnyF7I2X76wg2/nwn0SfAdPtVHzIudKzu4TshAGKGnjulcMwFcWCygWH";

/// Trusts every certificate, but checks that its key has signed.
#[derive(Debug)]
struct TrustAll(Arc<CryptoProvider>);

impl ServerCertVerifier for TrustAll {
    fn verify_server_cert(
        &self,
        _end_entity: &CertificateDer<'_>,
        _intermediates: &[CertificateDer<'_>],
        _server_name: &ServerName<'_>,
        _ocsp_response: &[u8],
        _now: UnixTime,
    ) -> Result<ServerCertVerified, Error> {
        Ok(ServerCertVerified::assertion())
    }

    fn verify_tls12_signature(
        &self,
        message: &[u8],
        cert: &CertificateDer<'_>,
        dss: &DigitallySignedStruct,
    ) -> Result<HandshakeSignatureValid, Error> {
        verify_tls12_signature(message, cert, dss, &self.0.signature_verification_algorithms)
    }

    fn verify_tls13_signature(
        &self,
        message: &[u8],
        cert: &CertificateDer<'_>,
        dss: &DigitallySignedStruct,
    ) -> Result<HandshakeSignatureValid, Error> {
        verify_tls13_signature(message, cert, dss, &self.0.signature_verification_algorithms)
    }

    fn supported_verify_schemes(&self) -> Vec<SignatureScheme> {
        self.0.signature_verification_algorithms.supported_schemes()
    }
}

fn bytes(text: &str) -> Vec<u8> {
    text.as_bytes().to_vec()
}

/// A PEM file with one section.
fn pem(label: &str, body: &str) -> Vec<u8> {
    format!("-----BEGIN {0}-----\n{1}\n-----END {0}-----\n", label, body).into_bytes()
}

fn certificate() -> Vec<u8> {
    pem("CERTIFICATE", CERTIFICATE)
}

fn key(body: &str) -> Vec<u8> {
    pem("PRIVATE KEY", body)
}

#[test]
fn a_server_shows_its_certificate_and_signs_with_its_key() {
    let config = TlsConfig::create_server_config(certificate(), key(KEY)).unwrap();
    let mut server = ServerConnection::new(Arc::new(config)).unwrap();

    let provider = CryptoProvider::get_default().unwrap().clone();
    let config = ClientConfig::builder()
        .dangerous()
        .with_custom_certificate_verifier(Arc::new(TrustAll(provider)))
        .with_no_client_auth();
    let name = ServerName::try_from("localhost").unwrap();
    let mut client = ClientConnection::new(Arc::new(config), name).unwrap();

    while client.is_handshaking() || server.is_handshaking() {
        let mut wire = Vec::new();
        while client.wants_write() {
            client.write_tls(&mut wire).unwrap();
        }
        let mut read: &[u8] = &wire;
        while !read.is_empty() {
            server.read_tls(&mut read).unwrap();
            server.process_new_packets().unwrap();
        }
        let mut wire = Vec::new();
        while server.wants_write() {
            server.write_tls(&mut wire).unwrap();
        }
        let mut read: &[u8] = &wire;
        while !read.is_empty() {
            client.read_tls(&mut read).unwrap();
            client.process_new_packets().unwrap();
        }
    }

    let shown = client.peer_certificates().unwrap();
    assert_eq!(shown.len(), 1);
    assert_eq!(shown[0].to_vec(), TlsConfig::parse_certificates(certificate())[0]);
    assert!(server.peer_certificates().is_none());
}

#[test]
fn a_key_that_is_not_the_certificates_is_refused() {
    assert!(TlsConfig::create_server_config(certificate(), key(OTHER_KEY)).is_err());
    assert!(TlsConfig::create_server_config(bytes("none"), key(KEY)).is_err());
}

#[test]
fn settings_are_found_where_there_is_a_key() {
    assert!(matches!(
        TlsConfig::find_server_config(certificate(), key(KEY)),
        Some(Ok(_))
    ));
    assert!(TlsConfig::find_server_config(certificate(), bytes("none")).is_none());
    let broken = key("****");
    let why = TlsConfig::parse_private_key(broken.clone()).unwrap_err();
    match TlsConfig::find_server_config(certificate(), broken) {
        Some(Err(text)) => assert_eq!(text, why),
        _ => panic!("expected an error"),
    }
}
