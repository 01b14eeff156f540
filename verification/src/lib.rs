use vstd::prelude::*;

pub mod payload;
pub mod ws;
pub mod router;
pub mod pool;
pub mod multipart;
pub mod service;
pub mod server;
pub mod response;
pub mod dispatcher;
pub mod channel;
pub mod h2;
pub mod context;
pub mod route;
pub mod client;
pub mod worker;
pub mod ssl;
pub mod codec;
pub mod services;
pub mod resource;
pub mod httpcodes;

verus! {

} // verus!
