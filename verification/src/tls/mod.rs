//! Self-signed peer certificates and their verification.
pub mod certificate;
pub mod cert_verifier;
