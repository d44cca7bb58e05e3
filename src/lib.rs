use vstd::prelude::*;

pub mod config;
pub mod domain;
pub mod guarantees;
pub mod keys;
pub mod service;

pub use config::Config;
pub use domain::UrlData;
pub use service::LoadReducerService;

verus! {

} // verus!
