//! Inspection of X.509 certificates: decoding them into plain records,
//! assembling records into issuance trees by subject and issuer names,
//! classifying each certificate's expiry, checking each link of a chain by
//! name, and laying the result out as text.

pub mod browser;
pub mod cli;
pub mod display;
pub mod error;
pub mod models;
pub mod parser;
pub mod text;
pub mod tree;
pub mod validity;
pub mod x509;
