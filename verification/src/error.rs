use vstd::prelude::*;

verus! {

/// The errors raised while running a scenario over a connection.
#[derive(Clone, Debug, PartialEq, Eq, Structural)]
pub enum Error {
    /// The transport was closed while frames were still waiting to be written.
    ClosedWithPendingData,
    /// Data arrived for a stream whose peer had already finished it.
    StreamFinished,
    /// A frame or an operation named a stream that does not exist.
    InvalidStream,
    /// An operation named a stream that has not been opened.
    MissingStream,
    /// An operation needed the sending half of a stream that has none.
    MissingTxStream,
    /// An operation needed the receiving half of a stream that has none.
    MissingRxStream,
    /// A frame started with a tag that names no frame type.
    InvalidFrameTag,
    /// A frame held an owner byte other than 0 or 1.
    InvalidOwnerId,
    /// The peer announced a stream that the scenario does not describe.
    UnknownPeerStream,
    /// The transport reported an error.
    Transport,
    /// A request does not start with `GET /`.
    InvalidRequest,
    /// A request path holds the byte shown, which no path may hold.
    InvalidRequestByte(u8),
}

} // verus!
