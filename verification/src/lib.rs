//! A verified core for a transparent reverse proxy: a zero-copy cookie
//! engine, cookie rewriting by name-keyed substitution, upstream target
//! resolution, authentication interception and session tracking.
use vstd::prelude::*;

pub mod basic;
pub mod bytes;
pub mod config;
pub mod cookie;
pub mod cookie_replacement;
pub mod errors;
pub mod forms;
pub mod map;
pub mod message;
pub mod pipeline;
pub mod resources;
pub mod scrape;
pub mod sessions;
pub mod status;
pub mod strutil;
pub mod utils;

verus! {

} // verus!
