//! Builds a deduplicated, sorted masterlist of public-key material out
//! of X.509 certificates: PEM blocks are decoded, each certificate's
//! key is canonicalized, records are deduplicated by canonical key and
//! sorted by issuing country.
pub mod bytes;
pub mod extract;
pub mod laws;
pub mod oids;
pub mod pipeline;
pub mod pkup;
pub mod records;
pub mod sort;
