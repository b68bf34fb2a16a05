//! The enclave runtime: TDX quote parsing, attestation artifacts, the
//! dstack agent's pure parts, and the tally service's request handling.
pub mod prove_http;
pub mod tdx_quote;
pub mod dstack;
pub mod attestation;
pub mod server;
