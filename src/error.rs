use vstd::prelude::*;

verus! {

/// An I/O error of std, carried through unchanged.
#[verifier::external_type_specification]
#[verifier::external_body]
pub struct ExIoError(std::io::Error);

/// An HTTP error of reqwest, carried through unchanged.
#[verifier::external_type_specification]
#[verifier::external_body]
pub struct ExHttpError(reqwest::Error);

/// The ways in which loading or decoding certificates fails.
#[derive(Debug)]
pub enum CertError {
    Io(std::io::Error),
    Http(reqwest::Error),
    Tls(String),
    X509Parse(String),
    InvalidFormat,
    NotFound,
}

} // verus!
