//! The control vocabulary spoken to the thumbnail worker process, and the
//! shapes of the two one-directional worker channels.

use vstd::prelude::*;

verus! {

/// What a control message asks of the worker.
#[derive(Debug, Clone, Copy, PartialEq, Eq, Structural)]
pub enum ControlType {
    Start,
    Stop,
}

/// One message on the worker's control channel.  A `Start` carries the
/// names of the two channel servers the worker must connect back to; a
/// `Stop` carries nothing.
#[derive(Debug)]
pub struct ControlMessage {
    pub control_type: ControlType,
    pub message: Option<[String; 2]>,
}

/// An outbound request to the worker: `(request id, file path)`.
pub type WorkerRequest = (String, String);

/// An inbound response from the worker: `(request id, encoded bytes)`.
pub type WorkerResponse = (String, Vec<u8>);

impl ControlMessage {
    /// The handshake: tell the worker where to connect its request and
    /// response channels.
    pub fn start(request_server: String, response_server: String) -> (m: ControlMessage)
        ensures
            m.control_type == ControlType::Start,
            m.message matches Some(names) && names[0] == request_server && names[1]
                == response_server,
    {
        ControlMessage { control_type: ControlType::Start, message: Some(
            [request_server, response_server],
        ) }
    }

    /// The stop signal: no payload.
    pub fn stop() -> (m: ControlMessage)
        ensures
            m.control_type == ControlType::Stop,
            m.message is None,
    {
        ControlMessage { control_type: ControlType::Stop, message: None }
    }
}

} // verus!
