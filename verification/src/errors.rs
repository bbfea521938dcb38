//! The proxy's error taxonomy: transport failures and request-framing
//! failures, each carrying the collaborator's message for diagnostics.
use vstd::prelude::*;

use crate::strutil::concat_str;

verus! {

/// A failure the pipeline cannot recover from locally.
#[derive(Debug)]
pub enum ProxyError {
    Hyper(String),
    HyperHttp(String),
}

impl ProxyError {
    /// A printable description of the failure.
    pub fn message(&self) -> (r: String)
        ensures
            match self {
                ProxyError::Hyper(m) => r@ == "Hyper: "@ + m@,
                ProxyError::HyperHttp(m) => r@ == "HyperHttp: "@ + m@,
            },
    {
        match self {
            ProxyError::Hyper(m) => concat_str("Hyper: ", m.as_str()),
            ProxyError::HyperHttp(m) => concat_str("HyperHttp: ", m.as_str()),
        }
    }
}

} // verus!
