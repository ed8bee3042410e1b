//! On-demand proxy for a set of local model servers.
use vstd::prelude::*;

pub mod body;
pub mod card;
pub mod config;
pub mod dashboard;
pub mod http;
pub mod http_laws;
pub mod json;
pub mod manager;
pub mod netstat;
pub mod proxy;
pub mod proxy_laws;
pub mod replies;
pub mod selections;
pub mod text;
pub mod tray;

verus! {

} // verus!
