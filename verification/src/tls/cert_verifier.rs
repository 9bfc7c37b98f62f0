//! Verification of the certificate chain a peer presents: exactly one
//! certificate, which must carry a valid libp2p extension.
use vstd::prelude::*;

use crate::tls::certificate::{
    spec_cert_verdict, x509_parsed, CertErrorView, DerCertificateVerifyError,
    P2PSelfSignedCertificate,
};

verus! {

/// Why a presented certificate chain is refused before its certificate is read.
#[derive(Debug, PartialEq, Eq, Clone, Copy, Structural)]
pub enum PeerCertificateVerifierError {
    /// The chain does not hold exactly one certificate; the number it holds.
    MoreThanOneCertificate(usize),
}

/// Why a presented certificate chain is refused.
#[derive(Debug)]
pub enum PeerCertVerifyError {
    /// The chain is not a single certificate.
    Chain(PeerCertificateVerifierError),
    /// The single certificate does not carry a valid libp2p extension.
    Certificate(DerCertificateVerifyError),
}

/// The verdict on a chain of DER certificates: exactly one certificate,
/// whose libp2p extension is valid.
pub open spec fn spec_chain_verdict(certs: Seq<Seq<u8>>) -> Result<(), PeerCertVerifyErrorView> {
    if certs.len() != 1 {
        Err(PeerCertVerifyErrorView::Chain(
            PeerCertificateVerifierError::MoreThanOneCertificate(certs.len() as usize),
        ))
    } else {
        match spec_cert_verdict(x509_parsed(certs[0])) {
            Ok(()) => Ok(()),
            Err(e) => Err(PeerCertVerifyErrorView::Certificate(e)),
        }
    }
}

/// Why a presented certificate chain is refused, as the logic reads it.
pub enum PeerCertVerifyErrorView {
    Chain(PeerCertificateVerifierError),
    Certificate(CertErrorView),
}

impl View for PeerCertVerifyError {
    type V = PeerCertVerifyErrorView;

    open spec fn view(&self) -> PeerCertVerifyErrorView {
        match self {
            PeerCertVerifyError::Chain(e) => PeerCertVerifyErrorView::Chain(*e),
            PeerCertVerifyError::Certificate(e) => PeerCertVerifyErrorView::Certificate(e@),
        }
    }
}

/// The views of some certificates.
pub open spec fn certs_view(certs: Seq<Vec<u8>>) -> Seq<Seq<u8>> {
    certs.map_values(|c: Vec<u8>| c@)
}

/// Verification of the chain a peer presents.
pub struct PeerCertVerifier;

impl PeerCertVerifier {
    /// Accepts a chain of exactly one certificate whose libp2p extension is
    /// valid.
    pub fn verify(certs: &Vec<Vec<u8>>) -> (r: Result<(), PeerCertVerifyError>)
        ensures
            match spec_chain_verdict(certs_view(certs@)) {
                Ok(()) => r is Ok,
                Err(e) => r matches Err(re) && re@ == e,
            },
    {
        if certs.len() != 1 {
            return Err(
                PeerCertVerifyError::Chain(
                    PeerCertificateVerifierError::MoreThanOneCertificate(certs.len()),
                ),
            );
        }
        match P2PSelfSignedCertificate::verify_cert_ext(certs[0].as_slice()) {
            Ok(()) => Ok(()),
            Err(e) => Err(PeerCertVerifyError::Certificate(e)),
        }
    }
}

/// Client certificate verification for the server side of a handshake.
pub struct ClientAuth;

impl ClientAuth {
    /// The server asks every client for a certificate.
    pub fn offer_client_auth(&self) -> (r: bool)
        ensures
            r,
    {
        true
    }

    /// A client without a certificate is refused.
    pub fn client_auth_mandatory(&self) -> (r: bool)
        ensures
            r,
    {
        true
    }

    /// Verifies the chain a client presents.
    pub fn verify_client_cert(&self, certs: &Vec<Vec<u8>>) -> (r: Result<(), PeerCertVerifyError>)
        ensures
            match spec_chain_verdict(certs_view(certs@)) {
                Ok(()) => r is Ok,
                Err(e) => r matches Err(re) && re@ == e,
            },
    {
        PeerCertVerifier::verify(certs)
    }
}

/// Server certificate verification for the client side of a handshake.
pub struct ServerAuth;

impl ServerAuth {
    /// Verifies the chain a server presents; the roots, the host name and
    /// the OCSP response play no part.
    pub fn verify_server_cert(&self, certs: &Vec<Vec<u8>>) -> (r: Result<(), PeerCertVerifyError>)
        ensures
            match spec_chain_verdict(certs_view(certs@)) {
                Ok(()) => r is Ok,
                Err(e) => r matches Err(re) && re@ == e,
            },
    {
        PeerCertVerifier::verify(certs)
    }
}

} // verus!
