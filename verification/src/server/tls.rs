//! The certificates and the key with which the public end of the tunnel shows who it is.

use tokio_rustls::rustls::pki_types::{CertificateDer, PrivateKeyDer, PrivatePkcs8KeyDer};
use tokio_rustls::rustls::server::ServerConfig;
use vstd::prelude::*;

use crate::body::bytes_view;

verus! {

/// Where the certificates and the key are kept.
#[derive(Clone)]
pub struct TlsConfig {
    cert_path: String,
    key_path: String,
}

impl View for TlsConfig {
    type V = (Seq<char>, Seq<char>);

    closed spec fn view(&self) -> (Seq<char>, Seq<char>) {
        (self.cert_path@, self.key_path@)
    }
}

/// What `rustls_pemfile` finds in a PEM file when it looks for certificates: the bytes of each,
/// and nothing where one cannot be read.
pub uninterp spec fn pem_certificates(contents: Seq<u8>) -> Seq<Option<Seq<u8>>>;

/// What `rustls_pemfile` finds first in a PEM file when it looks for private keys in PKCS #8: the
/// bytes of the key, or the text of an error.
pub uninterp spec fn pem_private_key(contents: Seq<u8>) -> Option<Result<Seq<u8>, Seq<char>>>;

/// What an item that was looked for stands for.
pub open spec fn item_view(item: Option<Vec<u8>>) -> Option<Seq<u8>> {
    match item {
        Some(bytes) => Some(bytes@),
        None => None,
    }
}

/// What items that were looked for stand for.
pub open spec fn items_view(items: Seq<Option<Vec<u8>>>) -> Seq<Option<Seq<u8>>> {
    items.map_values(|item: Option<Vec<u8>>| item_view(item))
}

/// `rustls_pemfile::certs`, of all of a file's contents: its certificates in order, each as its
/// bytes, and nothing in the place of one that cannot be read.
#[verifier::external_body]
fn read_certificates(contents: &[u8]) -> (items: Vec<Option<Vec<u8>>>)
    ensures
        items_view(items@) == pem_certificates(contents@),
{
    let mut reader = std::io::BufReader::new(contents);
    rustls_pemfile::certs(&mut reader).map(|item| item.ok().map(|cert| cert.to_vec())).collect()
}

/// `rustls_pemfile::pkcs8_private_keys`, of all of a file's contents: the first thing that it
/// yields.
#[verifier::external_body]
fn read_private_key(contents: &[u8]) -> (key: Option<Result<Vec<u8>, String>>)
    ensures
        match key {
            Some(Ok(bytes)) => pem_private_key(contents@) == Some(
                Ok::<Seq<u8>, Seq<char>>(bytes@),
            ),
            Some(Err(text)) => pem_private_key(contents@) == Some(
                Err::<Seq<u8>, Seq<char>>(text@),
            ),
            None => pem_private_key(contents@) is None,
        },
{
    let mut reader = std::io::BufReader::new(contents);
    let key = rustls_pemfile::pkcs8_private_keys(&mut reader).next();
    key.map(|key| key.map(|k| k.secret_pkcs8_der().to_vec()).map_err(|error| error.to_string()))
}

/// `rustls::ServerConfig`, the settings with which connections are accepted.
#[verifier::external_type_specification]
#[verifier::external_body]
pub struct ExServerConfig(tokio_rustls::rustls::server::ServerConfig);

/// How a server shows who it is.
pub struct Presented {
    /// The certificates that it shows, the one of its own first.
    pub certificates: Seq<Seq<u8>>,
    /// The private key that it signs with, in PKCS #8.
    pub key: Seq<u8>,
    /// Whether it asks the other side for a certificate.
    pub asks_client: bool,
}

/// How a server with the given settings shows who it is.
pub uninterp spec fn presented(config: ServerConfig) -> Presented;

/// `ServerConfig::builder`, `with_no_client_auth` and `with_single_cert`: settings by which the
/// given certificates are shown, whatever name is asked for, and the given key signs.
///
/// Whether the key can be used, and whether it is that of the first certificate, is decided by the
/// cryptography that the process runs with; so nothing is said of when settings come, nor of the
/// text of an error. The process runs with that of `ring` where it chose no other.
#[verifier::external_body]
fn single_cert_config(certificates: Vec<Vec<u8>>, key: Vec<u8>) -> (config: Result<
    ServerConfig,
    String,
>)
    ensures
        config matches Ok(made) ==> presented(made) == (Presented {
            certificates: bytes_view(certificates@),
            key: key@,
            asks_client: false,
        }),
{
    let chain = certificates.into_iter().map(CertificateDer::from).collect();
    let key = PrivateKeyDer::Pkcs8(PrivatePkcs8KeyDer::from(key));
    let builder = ServerConfig::builder().with_no_client_auth();
    builder.with_single_cert(chain, key).map_err(|error| error.to_string())
}

/// The items that could be read, in order.
pub open spec fn readable(items: Seq<Option<Seq<u8>>>) -> Seq<Seq<u8>>
    decreases items.len(),
{
    if items.len() == 0 {
        seq![]
    } else {
        match items.last() {
            Some(bytes) => readable(items.drop_last()).push(bytes),
            None => readable(items.drop_last()),
        }
    }
}

/// Keeps the items that could be read.
pub fn keep_readable(items: Vec<Option<Vec<u8>>>) -> (kept: Vec<Vec<u8>>)
    ensures
        bytes_view(kept@) == readable(items_view(items@)),
{
    let mut kept: Vec<Vec<u8>> = Vec::new();
    let ghost all = items_view(items@);
    for i in 0..items.len()
        invariant
            all == items_view(items@),
            bytes_view(kept@) == readable(all.take(i as int)),
    {
        assert(all.take(i + 1).drop_last() == all.take(i as int));
        assert(all.take(i + 1).last() == item_view(items@[i as int]));
        let ghost before = kept@;
        if let Some(bytes) = &items[i] {
            kept.push(vstd::slice::slice_to_vec(bytes.as_slice()));
            assert(bytes_view(kept@) == bytes_view(before).push(bytes@));
        }
    }
    assert(all.take(all.len() as int) == all);
    kept
}

/// Every certificate that can be read is kept, whatever stands around it.
pub proof fn law_readable_item_is_kept(items: Seq<Option<Seq<u8>>>, i: int)
    requires
        0 <= i < items.len(),
        items[i] is Some,
    ensures
        readable(items).contains(items[i]->0),
    decreases items.len(),
{
    let front = items.drop_last();
    if i == items.len() - 1 {
        assert(readable(items).last() == items[i]->0);
    } else {
        law_readable_item_is_kept(front, i);
        assert(front[i] == items[i]);
        let at = readable(front).index_of(items[i]->0);
        assert(readable(items)[at] == items[i]->0);
    }
}

impl TlsConfig {
    pub fn new(cert_path: String, key_path: String) -> (config: Self)
        ensures
            config@ == (cert_path@, key_path@),
    {
        Self { cert_path, key_path }
    }

    /// Where the certificates are kept.
    pub fn cert_path(&self) -> (path: &str)
        ensures
            path@ == self@.0,
    {
        self.cert_path.as_str()
    }

    /// Where the key is kept.
    pub fn key_path(&self) -> (path: &str)
        ensures
            path@ == self@.1,
    {
        self.key_path.as_str()
    }

    /// The certificates that a PEM file holds, without those that cannot be read.
    pub fn parse_certificates(contents: Vec<u8>) -> (certificates: Vec<Vec<u8>>)
        ensures
            bytes_view(certificates@) == readable(pem_certificates(contents@)),
    {
        keep_readable(read_certificates(contents.as_slice()))
    }

    /// The first private key that a PEM file holds, or why it cannot be read.
    pub fn parse_private_key(contents: Vec<u8>) -> (key: Result<Vec<u8>, String>)
        requires
            pem_private_key(contents@) is Some,
        ensures
            match key {
                Ok(bytes) => pem_private_key(contents@) == Some(
                    Ok::<Seq<u8>, Seq<char>>(bytes@),
                ),
                Err(text) => pem_private_key(contents@) == Some(
                    Err::<Seq<u8>, Seq<char>>(text@),
                ),
            },
    {
        match read_private_key(contents.as_slice()) {
            Some(key) => key,
            None => vstd::pervasive::unreached(),
        }
    }

    /// The first private key that a PEM file holds, or why it cannot be read: nothing where the
    /// file holds none.
    pub fn find_private_key(contents: Vec<u8>) -> (key: Option<Result<Vec<u8>, String>>)
        ensures
            match key {
                Some(Ok(bytes)) => pem_private_key(contents@) == Some(
                    Ok::<Seq<u8>, Seq<char>>(bytes@),
                ),
                Some(Err(text)) => pem_private_key(contents@) == Some(
                    Err::<Seq<u8>, Seq<char>>(text@),
                ),
                None => pem_private_key(contents@) is None,
            },
    {
        match read_private_key(contents.as_slice()) {
            Some(_) => Some(Self::parse_private_key(contents)),
            None => None,
        }
    }

    /// The settings by which the certificates of one PEM file are shown and the first private key
    /// of another one signs, or why there are none. Nobody is asked for a certificate.
    pub fn create_server_config(cert_contents: Vec<u8>, key_contents: Vec<u8>) -> (config: Result<
        ServerConfig,
        String,
    >)
        requires
            pem_private_key(key_contents@) is Some,
        ensures
            match pem_private_key(key_contents@) {
                Some(Ok(key)) => config matches Ok(made) ==> presented(made) == (Presented {
                    certificates: readable(pem_certificates(cert_contents@)),
                    key,
                    asks_client: false,
                }),
                Some(Err(text)) => config matches Err(t) && t@ == text,
                None => true,
            },
    {
        let certificates = Self::parse_certificates(cert_contents);
        match Self::parse_private_key(key_contents) {
            Ok(key) => single_cert_config(certificates, key),
            Err(text) => Err(text),
        }
    }

    /// The settings that two PEM files give, or why they give none: nothing where the second one
    /// holds no private key.
    pub fn find_server_config(cert_contents: Vec<u8>, key_contents: Vec<u8>) -> (config: Option<
        Result<ServerConfig, String>,
    >)
        ensures
            match pem_private_key(key_contents@) {
                Some(Ok(key)) => {
                    &&& config is Some
                    &&& config matches Some(Ok(made)) ==> presented(made) == (Presented {
                        certificates: readable(pem_certificates(cert_contents@)),
                        key,
                        asks_client: false,
                    })
                },
                Some(Err(text)) => config matches Some(Err(t)) && t@ == text,
                None => config is None,
            },
    {
        match read_private_key(key_contents.as_slice()) {
            Some(_) => Some(Self::create_server_config(cert_contents, key_contents)),
            None => None,
        }
    }
}

/// Of two lists of items, those that could be read are those of the first and then those of the
/// second; one that could be read is kept as it is, and one that could not is left out.
pub proof fn law_readable_items_keep_their_order(
    a: Seq<Option<Seq<u8>>>,
    b: Seq<Option<Seq<u8>>>,
    item: Seq<u8>,
)
    ensures
        readable(a + b) == readable(a) + readable(b),
        readable(seq![Some(item)]) == seq![item],
        readable(seq![None]).len() == 0,
        readable(Seq::empty()).len() == 0,
    decreases b.len(),
{
    let one = seq![Some(item)];
    let none = seq![None::<Seq<u8>>];
    assert(one.drop_last() == Seq::<Option<Seq<u8>>>::empty());
    assert(none.drop_last() == Seq::<Option<Seq<u8>>>::empty());
    assert(readable(one.drop_last()) == Seq::<Seq<u8>>::empty());
    assert(readable(one) == seq![item]);
    if b.len() == 0 {
        assert(a + b == a);
        assert(readable(a) + readable(b) == readable(a));
    } else {
        let front = b.drop_last();
        law_readable_items_keep_their_order(a, front, item);
        assert((a + b).drop_last() == a + front);
        assert((a + b).last() == b.last());
        assert(readable(a + b) == readable(a) + readable(b));
    }
}

/// Items that were looked for stand for their bytes or for nothing, one by one.
pub proof fn law_items(items: Seq<Option<Vec<u8>>>, i: int)
    requires
        0 <= i < items.len(),
    ensures
        items_view(items).len() == items.len(),
        items[i] matches Some(bytes) ==> items_view(items)[i] == Some(bytes@),
        items[i] is None ==> items_view(items)[i] is None,
{
}

} // verus!
