//! Extraction of `rpc_service` blocks from schema text.
//!
//! Lines are scanned for service headers; each line inside a block is parsed
//! as a method signature `name(arg, ...): ReturnType;`, and a parsed service can
//! list its methods as upper-case constant names.
pub mod defines;
pub mod method;
pub mod service;
pub mod text;

pub use defines::RpcMethodDefines;
pub use method::{ParseError, RpcMethod};
pub use service::{ParserIter, RpcService};
