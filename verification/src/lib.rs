//! An XML-RPC protocol core: a typed value model, a wire codec that maps
//! values to and from the XML-RPC text grammar, a conversion framework
//! between native types and wire values, request/response envelopes, and
//! a server dispatch table.
//!
//! The transport (HTTP, TLS, sockets) is an external collaborator: this
//! crate turns calls into request text and response text into typed
//! results, and leaves moving bytes to the caller.

pub mod b64;
pub mod convert;
pub mod decode;
pub mod dt;
pub mod encode;
pub mod error;
pub mod escape;
pub mod num;
pub mod laws;
pub mod rpc;
pub mod server;
pub mod text;
pub mod values;

pub use convert::FromDXR;
pub use convert::FromParams;
pub use convert::ToDXR;
pub use convert::ToParams;
pub use error::DxrError;
pub use rpc::Call;
pub use server::Dispatch;
pub use server::ServeEvent;
pub use server::ServeOutcome;
pub use rpc::MethodResponse;
pub use error::Error;
pub use error::Fault;
pub use values::Array;
pub use values::ArrayData;
pub use values::DateTime;
pub use values::Double;
pub use values::Member;
pub use values::Struct;
pub use values::Type;
pub use values::Value;
