//! Runs an HTTP application behind a polling invocation runtime: translation
//! between load-balancer invocation events and plain HTTP, and the decisions of
//! a fake runtime API used to exercise that translation end to end.

pub mod text;
pub mod query;
pub mod codec;
pub mod runtime;
