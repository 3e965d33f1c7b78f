//! A stream multiplexer: many logical endpoints share one underlying byte
//! stream.  Endpoints on the two sides of the stream pair up through a
//! connect/accept handshake and then exchange data frames, each of which is
//! acknowledged by a response carrying the request's identifier.
//!
//! This crate holds the protocol's bookkeeping and decisions: endpoint
//! identifiers, the endpoint state machine, the request/response messages and
//! the state kept by the worker that serves the shared stream.
pub mod endpoint;
pub mod error;
pub mod ids;
pub mod laws;
pub mod message;
pub mod mux;
pub mod transfer;

pub use endpoint::{EndPointStatus, EndPointView, InnerEndPoint};
pub use error::{connect_outcome, transfer_outcome, MStreamError};
pub use ids::{EndPointId, RequestId};
pub use transfer::{Transfer, TransferView};
pub use mux::{Link, MuxState, MuxView, Pending, Step};
pub use message::{Message, Request, RequestKind, Response};
