//! Errors of the multiplexer, and the outcome of awaited requests.
use vstd::prelude::*;

verus! {

/// Why an operation of the multiplexer was refused or failed.
#[derive(Clone, Copy, PartialEq, Eq, Structural, Debug)]
pub enum MStreamError {
    /// An endpoint with this identifier already exists on the stream.
    EndPointExists,
    /// The endpoint is no longer unconnected, so it can neither connect nor accept.
    NotUnconnected,
    /// The other side answered a connect request negatively.
    ConnectFailed,
    /// The other side answered a data request negatively.
    TransferFailed,
}

/// The outcome of a connect request once its response status has arrived.
pub fn connect_outcome(status: bool) -> (r: Result<(), MStreamError>)
    ensures
        status ==> r == Ok::<(), MStreamError>(()),
        !status ==> r == Err::<(), MStreamError>(MStreamError::ConnectFailed),
{
    if status {
        Ok(())
    } else {
        Err(MStreamError::ConnectFailed)
    }
}

/// The outcome of a data request once its response status has arrived: a
/// negative status ends the transfer with an error.
pub fn transfer_outcome(status: bool) -> (r: Result<(), MStreamError>)
    ensures
        status ==> r == Ok::<(), MStreamError>(()),
        !status ==> r == Err::<(), MStreamError>(MStreamError::TransferFailed),
{
    if status {
        Ok(())
    } else {
        Err(MStreamError::TransferFailed)
    }
}

} // verus!
