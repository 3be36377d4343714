//! An OCPP-J protocol core: the JSON wire codec, the frame layer, the
//! action registry and dispatcher, and the per-connection session
//! lifecycle of a central system speaking to charge points.

pub mod dispatch;
pub mod frame;
pub mod json;
pub mod parse;
pub mod session;

pub use frame::OcppCall;
pub use frame::OcppMessageTypeId;
pub use dispatch::handle_request;
pub use json::JsonValue;
