//! The command client's side of the protocol: the payloads it sends and how
//! it reads the daemon's reply.
use vstd::prelude::*;
use crate::codec::{decoding, encoding, texts_view, ControlEvent, EventModel, ProtocolError};
use crate::daemon::MAX_PAYLOAD;

verus! {

#[derive(Debug, Clone, Copy, PartialEq, Eq, Structural)]
pub enum ClientError {
    /// The reply did not decode.
    Protocol(ProtocolError),
    /// The reply decoded to another event than `Success`.
    UnexpectedReply,
}

/// The payload that asks the daemon to stop.
pub fn kill_request() -> (r: Vec<u8>)
    ensures
        r@ == encoding(EventModel::Kill),
{
    ControlEvent::Kill.encode()
}

/// The payload that asks the daemon to add and launch a process, or
/// `TooLarge` where it would not fit the daemon's receive buffer.
pub fn add_process_request(name: String, command: String, args: Vec<String>, pwd: String) -> (r:
    Result<Vec<u8>, ProtocolError>)
    ensures
        ({
            let b = encoding(
                EventModel::AddProcess { command: command@, args: texts_view(args@), pwd: pwd@, name: name@ },
            );
            &&& b.len() <= MAX_PAYLOAD ==> r is Ok && r->Ok_0@ == b
            &&& b.len() > MAX_PAYLOAD ==> r == Err::<Vec<u8>, ProtocolError>(ProtocolError::TooLarge)
        }),
{
    let b = ControlEvent::AddProcess { command, args, pwd, name }.encode();
    if b.len() > MAX_PAYLOAD {
        Err(ProtocolError::TooLarge)
    } else {
        Ok(b)
    }
}

/// Reads the daemon's answer to `Kill`: it must be `Success`.
pub fn read_kill_reply(payload: &[u8]) -> (r: Result<(), ClientError>)
    ensures
        match decoding(payload@) {
            Ok(EventModel::Success) => r is Ok,
            Ok(_) => r == Err::<(), ClientError>(ClientError::UnexpectedReply),
            Err(e) => r == Err::<(), ClientError>(ClientError::Protocol(e)),
        },
{
    match ControlEvent::decode(payload) {
        Ok(ControlEvent::Success) => Ok(()),
        Ok(_) => Err(ClientError::UnexpectedReply),
        Err(e) => Err(ClientError::Protocol(e)),
    }
}

} // verus!
