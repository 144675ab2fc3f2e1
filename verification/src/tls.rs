//! Convenience constructors for rustls: from PEM text and DER certificates to a
//! `TlsAcceptor` or a `TlsConnector`.
//!
//! Both are built with the cryptography that is the default of the process.

use std::sync::Arc;
use tokio_rustls::rustls::pki_types::{CertificateDer, PrivateKeyDer, TrustAnchor};
use tokio_rustls::rustls::Error as RustlsError;
use tokio_rustls::rustls::{ClientConfig, RootCertStore, ServerConfig};
use tokio_rustls::{TlsAcceptor, TlsConnector};
use vstd::prelude::*;

use crate::error::{Error, ErrorView};

verus! {

#[verifier::external_type_specification]
#[verifier::external_body]
pub struct ExPrivateKeyDer<'a>(PrivateKeyDer<'a>);

#[verifier::external_type_specification]
#[verifier::external_body]
pub struct ExTrustAnchor<'a>(TrustAnchor<'a>);

#[verifier::external_type_specification]
#[verifier::external_body]
pub struct ExRootCertStore(RootCertStore);

/// The bytes of each of `certs`.
pub open spec fn ders(certs: Seq<Vec<u8>>) -> Seq<Seq<u8>> {
    certs.map_values(|der: Vec<u8>| der@)
}

/// What `rustls_pemfile::certs` yields for `pem`: the certificates in it, in DER, or
/// the first error.
pub uninterp spec fn pem_certs(pem: Seq<u8>) -> Result<Seq<Seq<u8>>, std::io::Error>;

/// What `rustls_pemfile::private_key` returns for `pem`: the first private key in it.
pub uninterp spec fn pem_private_key(pem: Seq<u8>) -> Result<
    Option<PrivateKeyDer<'static>>,
    std::io::Error,
>;

/// The certificates, in DER, that `acceptor` shows to clients, and the key that goes
/// with them.
pub uninterp spec fn acceptor_identity(acceptor: TlsAcceptor) -> (
    Seq<Seq<u8>>,
    PrivateKeyDer<'static>,
);

/// What `RootCertStore::add` makes of a certificate in DER; `None` where it is
/// refused.
pub uninterp spec fn trust_anchor(der: Seq<u8>) -> Option<TrustAnchor<'static>>;

/// The trust anchors in `store`, in the order in which they were added.
pub uninterp spec fn store_anchors(store: RootCertStore) -> Seq<TrustAnchor<'static>>;

/// The trust anchors that `connector` accepts servers by.
pub uninterp spec fn connector_anchors(connector: TlsConnector) -> Seq<TrustAnchor<'static>>;

/// `rustls_pemfile::certs` over a slice, up to the first error. The result depends on
/// the bytes alone.
#[verifier::external_body]
fn certs(pem: &[u8]) -> (r: Result<Vec<Vec<u8>>, std::io::Error>)
    ensures
        match r {
            Ok(certs) => pem_certs(pem@) == Ok::<Seq<Seq<u8>>, std::io::Error>(ders(certs@)),
            Err(e) => pem_certs(pem@) == Err::<Seq<Seq<u8>>, std::io::Error>(e),
        },
{
    let mut input = pem;
    rustls_pemfile::certs(&mut input).map(|cert| cert.map(|der| der.to_vec())).collect()
}

/// `rustls_pemfile::private_key` over a slice. The result depends on the bytes alone.
#[verifier::external_body]
fn private_key(pem: &[u8]) -> (r: Result<Option<PrivateKeyDer<'static>>, std::io::Error>)
    ensures
        r == pem_private_key(pem@),
{
    let mut input = pem;
    rustls_pemfile::private_key(&mut input)
}

/// `ServerConfig::builder` without client authentication, `with_single_cert`, and
/// `TlsAcceptor::from`: an acceptor that shows these certificates on every
/// connection. Whether the key is accepted is up to the cryptography of the process,
/// and left open here. `builder` panics in a process that has none to fall back on.
#[verifier::external_body]
fn acceptor(certs: Vec<Vec<u8>>, key: PrivateKeyDer<'static>) -> (r: Result<
    TlsAcceptor,
    RustlsError,
>)
    ensures
        r matches Ok(a) ==> acceptor_identity(a) == (ders(certs@), key),
{
    let chain = certs.into_iter().map(CertificateDer::from).collect();
    ServerConfig::builder()
        .with_no_client_auth()
        .with_single_cert(chain, key)
        .map(|config| TlsAcceptor::from(Arc::new(config)))
}

/// `RootCertStore::empty` gives a store without trust anchors.
pub assume_specification[ RootCertStore::empty ]() -> (store: RootCertStore)
    ensures
        store_anchors(store) == Seq::<TrustAnchor<'static>>::empty(),
;

/// `RootCertStore::add` appends the trust anchor that the certificate stands for, or
/// refuses the certificate and leaves the store as it is. With what error it refuses
/// is left open.
#[verifier::external_body]
fn add_root(store: &mut RootCertStore, der: Vec<u8>) -> (r: Result<(), RustlsError>)
    ensures
        match trust_anchor(der@) {
            Some(anchor) => r is Ok && store_anchors(*final(store)) == store_anchors(
                *old(store),
            ).push(anchor),
            None => r is Err && store_anchors(*final(store)) == store_anchors(*old(store)),
        },
{
    store.add(CertificateDer::from(der))
}

/// `ClientConfig::builder` with these root certificates and without client
/// authentication, and `TlsConnector::from`: a connector that accepts servers by
/// these trust anchors. `builder` panics in a process that has no cryptography to
/// fall back on.
#[verifier::external_body]
fn connector(roots: RootCertStore) -> (c: TlsConnector)
    ensures
        connector_anchors(c) == store_anchors(roots),
{
    let config = ClientConfig::builder().with_root_certificates(roots).with_no_client_auth();
    TlsConnector::from(Arc::new(config))
}

/// What a server shows to its clients, out of what the two PEM texts were parsed to.
/// An error in the certificates goes before one in the key.
pub open spec fn identity_of(
    certs: Result<Seq<Seq<u8>>, std::io::Error>,
    key: Result<Option<PrivateKeyDer<'static>>, std::io::Error>,
) -> Result<(Seq<Seq<u8>>, PrivateKeyDer<'static>), ErrorView> {
    match (certs, key) {
        (Err(e), _) => Err(ErrorView::Io(e)),
        (Ok(_), Err(e)) => Err(ErrorView::Io(e)),
        (Ok(_), Ok(None)) => Err(ErrorView::InvalidConfig("no private key in PEM file"@)),
        (Ok(certs), Ok(Some(key))) => Ok((certs, key)),
    }
}

/// The certificates and the key to show, out of what the two PEM texts were parsed to.
pub fn identity(
    certs: Result<Vec<Vec<u8>>, std::io::Error>,
    key: Result<Option<PrivateKeyDer<'static>>, std::io::Error>,
) -> (r: Result<(Vec<Vec<u8>>, PrivateKeyDer<'static>), Error>)
    ensures
        ({
            let parsed = match certs {
                Ok(certs) => Ok::<Seq<Seq<u8>>, std::io::Error>(ders(certs@)),
                Err(e) => Err(e),
            };
            match identity_of(parsed, key) {
                Ok((certs, key)) => r matches Ok((c, k)) && ders(c@) == certs && k == key,
                Err(e) => r matches Err(err) && err@ == e,
            }
        }),
{
    match certs {
        Err(e) => Err(Error::Io(e)),
        Ok(certs) => match key {
            Err(e) => Err(Error::Io(e)),
            Ok(None) => Err(Error::InvalidConfig("no private key in PEM file")),
            Ok(Some(key)) => Ok((certs, key)),
        },
    }
}

/// An acceptor that shows the certificates in `cert_pem`, with the first private key
/// in `key_pem`. Once both are there, only TLS can still refuse them.
pub fn server_acceptor_from_pem(cert_pem: &[u8], key_pem: &[u8]) -> (r: Result<
    TlsAcceptor,
    Error,
>)
    ensures
        match identity_of(pem_certs(cert_pem@), pem_private_key(key_pem@)) {
            Err(e) => r matches Err(err) && err@ == e,
            Ok(identity) => match r {
                Ok(a) => acceptor_identity(a) == identity,
                Err(e) => e is Tls,
            },
        },
{
    match identity(certs(cert_pem), private_key(key_pem)) {
        Err(e) => Err(e),
        Ok((certs, key)) => match acceptor(certs, key) {
            Ok(a) => Ok(a),
            Err(e) => Err(Error::Tls(e)),
        },
    }
}

/// The trust anchors that `certs` stand for, those that are refused left out.
pub open spec fn anchors(certs: Seq<Seq<u8>>) -> Seq<TrustAnchor<'static>>
    decreases certs.len(),
{
    if certs.len() == 0 {
        Seq::empty()
    } else {
        let before = anchors(certs.drop_last());
        match trust_anchor(certs.last()) {
            Some(anchor) => before.push(anchor),
            None => before,
        }
    }
}

/// A connector that accepts servers by the root certificates `native`, in DER, those
/// of the system. Certificates that are refused are passed over.
pub fn client_connector_with_native_roots(native: Vec<Vec<u8>>) -> (r: Result<
    TlsConnector,
    Error,
>)
    ensures
        r matches Ok(c) && connector_anchors(c) == anchors(ders(native@)),
{
    let mut roots: RootCertStore = RootCertStore::empty();
    let ghost all = ders(native@);
    let mut i: usize = 0;
    while i < native.len()
        invariant
            i <= native.len(),
            all == ders(native@),
            store_anchors(roots) == anchors(all.take(i as int)),
        decreases native.len() - i,
    {
        let der: Vec<u8> = native[i].clone();
        assert(der@ =~= all[i as int]);
        assert(all.take(i + 1).drop_last() =~= all.take(i as int));
        let _ = add_root(&mut roots, der);
        i = i + 1;
    }
    assert(all.take(i as int) =~= all);
    Ok(connector(roots))
}

/// What the two PEM texts come to: the certificates as they are and the key, where
/// both are there; else the error of the certificates, then that of the key, then the
/// want of one.
pub proof fn law_identity(
    certs: Seq<Seq<u8>>,
    key: PrivateKeyDer<'static>,
    any: Result<Option<PrivateKeyDer<'static>>, std::io::Error>,
    e: std::io::Error,
)
    ensures
        identity_of(Ok(certs), Ok(Some(key))) == Ok::<
            (Seq<Seq<u8>>, PrivateKeyDer<'static>),
            ErrorView,
        >((certs, key)),
        identity_of(Err(e), any) matches Err(ErrorView::Io(cause)) && cause == e,
        identity_of(Ok(certs), Err(e)) matches Err(ErrorView::Io(cause)) && cause == e,
        identity_of(Ok(certs), Ok(None)) matches Err(ErrorView::InvalidConfig(text)) && text
            == "no private key in PEM file"@,
{
}

/// The bytes of certificates are those of each of them, in order.
pub proof fn law_ders(certs: Seq<Vec<u8>>)
    ensures
        ders(certs).len() == certs.len(),
        forall|i: int| 0 <= i < certs.len() ==> #[trigger] ders(certs)[i] == certs[i]@,
{
}

/// Every certificate that stands for a trust anchor is trusted, and no other: the
/// anchors are those of the certificates that are not refused, one for each, in order.
pub proof fn law_anchors(certs: Seq<Seq<u8>>)
    ensures
        anchors(certs) == certs.filter(|der: Seq<u8>| trust_anchor(der) is Some).map_values(
            |der: Seq<u8>| trust_anchor(der)->0,
        ),
        forall|i: int|
            0 <= i < certs.len() ==> (trust_anchor(#[trigger] certs[i]) matches Some(anchor)
                ==> anchors(certs).contains(anchor)),
        forall|anchor: TrustAnchor<'static>| #[trigger]
            anchors(certs).contains(anchor) ==> exists|i: int|
                0 <= i < certs.len() && trust_anchor(#[trigger] certs[i]) == Some(anchor),
    decreases certs.len(),
{
    let pred = |der: Seq<u8>| trust_anchor(der) is Some;
    let anchor_of = |der: Seq<u8>| trust_anchor(der)->0;
    reveal(Seq::filter);
    if certs.len() == 0 {
        assert(anchors(certs) =~= certs.filter(pred).map_values(anchor_of));
    } else {
        let fewer = certs.drop_last();
        let last = certs.last();
        law_anchors(fewer);
        assert(anchors(certs) =~= certs.filter(pred).map_values(anchor_of));
        assert forall|i: int| 0 <= i < certs.len() implies (trust_anchor(
            #[trigger] certs[i],
        ) matches Some(anchor) ==> anchors(certs).contains(anchor)) by {
            if let Some(anchor) = trust_anchor(certs[i]) {
                if i < fewer.len() {
                    assert(fewer[i] == certs[i]);
                    let k = choose|k: int|
                        0 <= k < anchors(fewer).len() && anchors(fewer)[k] == anchor;
                    assert(anchors(certs)[k] == anchor);
                } else {
                    assert(anchors(certs)[anchors(fewer).len() as int] == anchor);
                }
            }
        }
        assert forall|anchor: TrustAnchor<'static>| #[trigger]
            anchors(certs).contains(anchor) implies exists|i: int|
            0 <= i < certs.len() && trust_anchor(#[trigger] certs[i]) == Some(anchor) by {
            let k = choose|k: int| 0 <= k < anchors(certs).len() && anchors(certs)[k] == anchor;
            if k < anchors(fewer).len() {
                assert(anchors(fewer)[k] == anchor);
                assert(anchors(fewer).contains(anchor));
                let i = choose|i: int|
                    0 <= i < fewer.len() && trust_anchor(#[trigger] fewer[i]) == Some(anchor);
                assert(certs[i] == fewer[i]);
            } else {
                assert(trust_anchor(certs[certs.len() - 1]) == Some(anchor));
            }
        }
    }
}

} // verus!
