//! One logical connection: an identity bound at connect time, a
//! lifecycle of `Connecting`, `Active`, `Closing`, `Closed`, and the
//! step that answers one inbound text with at most one reply.
//!
//! Sessions share nothing mutable: each owns its identity and its
//! registry, so two sessions can only ever produce replies from their
//! own inputs.

use vstd::prelude::*;

use crate::json::JsonValue;
use crate::json::ser_val;
use crate::frame::FrameError;
use crate::frame::FrameErrorSpec;
use crate::frame::OcppFrame;
use crate::frame::FrameSpec;
use crate::frame::OcppCallError;
use crate::frame::CallErrorSpec;
use crate::frame::ErrorCode;
use crate::frame::decode;
use crate::frame::decode_spec;
use crate::frame::encode_call_result;
use crate::frame::encode_call_error;
use crate::frame::result_frame_json;
use crate::frame::error_frame_json;
use crate::dispatch::ActionKind;
use crate::dispatch::ActionRegistry;
use crate::dispatch::OcppReply;
use crate::dispatch::ReplySpec;
use crate::dispatch::dispatch_spec;
use crate::dispatch::handle_call;
use crate::dispatch::time_in_range;

verus! {

/// The lifecycle of one connection.
#[derive(Clone, Copy, PartialEq, Eq, Structural, Debug)]
pub enum SessionState {
    Connecting,
    Active,
    Closing,
    Closed,
}

/// One charge point's connection: its identity, its lifecycle state,
/// and its own view of the registry.
pub struct Session {
    identity: Vec<u8>,
    state: SessionState,
    registry: ActionRegistry,
}

/// The model of a session.
pub struct SessionSpec {
    pub identity: Seq<u8>,
    pub state: SessionState,
    pub registry: Seq<ActionKind>,
}

impl View for Session {
    type V = SessionSpec;

    closed spec fn view(&self) -> SessionSpec {
        SessionSpec { identity: self.identity@, state: self.state, registry: self.registry@ }
    }
}

/// The bytes sent back for one reply frame.
pub open spec fn reply_bytes_spec(r: ReplySpec) -> Seq<u8> {
    match r {
        ReplySpec::Result(m) => ser_val(result_frame_json(m)),
        ReplySpec::Error(m) => ser_val(error_frame_json(m)),
    }
}

/// What a session answers to one inbound text at one time: the
/// encoded reply of dispatching a decoded Call; an encoded
/// ProtocolError CallError where the frame was bad but its uniqueId
/// recoverable; nothing for an inbound CallResult or CallError, and
/// nothing for a text so malformed that no uniqueId survives.
pub open spec fn session_reply_spec(entries: Seq<ActionKind>, raw: Seq<u8>, t: int) -> Option<
    Seq<u8>,
> {
    match decode_spec(raw) {
        Ok(f) => match f {
            FrameSpec::Call(c) => Some(reply_bytes_spec(dispatch_spec(entries, c, t))),
            _ => None,
        },
        Err(e) => match e {
            FrameErrorSpec::Protocol { unique_id, description } => Some(
                ser_val(
                    error_frame_json(
                        CallErrorSpec {
                            unique_id: unique_id,
                            error_code: ErrorCode::ProtocolError,
                            error_description: description,
                            error_details: crate::json::JsonSpec::Obj(Seq::empty()),
                        },
                    ),
                ),
            ),
            FrameErrorSpec::Malformed { .. } => None,
        },
    }
}

impl Session {
    /// A session for one accepted connection, not yet active.
    pub fn new(identity: Vec<u8>, registry: ActionRegistry) -> (r: Session)
        ensures
            r@.identity == identity@,
            r@.state == SessionState::Connecting,
            r@.registry == registry@,
    {
        Session { identity, state: SessionState::Connecting, registry }
    }

    /// The identity bound at connect time.
    pub fn identity(&self) -> (r: &Vec<u8>)
        ensures
            r@ == self@.identity,
    {
        &self.identity
    }

    /// The lifecycle state.
    pub fn state(&self) -> (r: SessionState)
        ensures
            r == self@.state,
    {
        self.state
    }

    /// The transport handshake succeeded: the session becomes active.
    pub fn activate(&mut self)
        requires
            old(self)@.state == SessionState::Connecting,
        ensures
            final(self)@.state == SessionState::Active,
            final(self)@.identity == old(self)@.identity,
            final(self)@.registry == old(self)@.registry,
    {
        self.state = SessionState::Active;
    }

    /// The peer or the transport signalled close: no further
    /// dispatches.
    pub fn begin_close(&mut self)
        requires
            old(self)@.state == SessionState::Active,
        ensures
            final(self)@.state == SessionState::Closing,
            final(self)@.identity == old(self)@.identity,
            final(self)@.registry == old(self)@.registry,
    {
        self.state = SessionState::Closing;
    }

    /// The transport handle is released: terminal state.
    pub fn finish_close(&mut self)
        requires
            old(self)@.state == SessionState::Closing,
        ensures
            final(self)@.state == SessionState::Closed,
            final(self)@.identity == old(self)@.identity,
            final(self)@.registry == old(self)@.registry,
    {
        self.state = SessionState::Closed;
    }

    /// Answers one inbound text frame: decode, dispatch, encode, in
    /// that order, with at most one reply per inbound frame.
    pub fn handle_text(&self, raw: &[u8], now_secs: i64) -> (r: Option<Vec<u8>>)
        requires
            self@.state == SessionState::Active,
            time_in_range(now_secs),
        ensures
            match r {
                Some(v) => session_reply_spec(self@.registry, raw@, now_secs as int) == Some(v@),
                None => session_reply_spec(self@.registry, raw@, now_secs as int) is None,
            },
    {
        match decode(raw) {
            Ok(f) => match f {
                OcppFrame::Call(c) => {
                    let reply = handle_call(&self.registry, c, now_secs);
                    match reply {
                        OcppReply::Result(m) => Some(encode_call_result(m)),
                        OcppReply::Error(m) => Some(encode_call_error(m)),
                    }
                }
                _ => None,
            },
            Err(e) => match e {
                FrameError::Protocol { unique_id, description } => Some(
                    encode_call_error(
                        OcppCallError {
                            message_type_id: 4,
                            unique_id,
                            error_code: ErrorCode::ProtocolError,
                            error_description: description,
                            error_details: JsonValue::Obj(Vec::new()),
                        },
                    ),
                ),
                FrameError::Malformed { .. } => None,
            },
        }
    }
}

/// The identity a connection path selects: what follows the leading
/// slash, or the path itself where there is none. An empty remainder
/// is an anonymous session, which is accepted.
pub fn identity_of_path(path: &[u8]) -> (r: Vec<u8>)
    ensures
        path@.len() > 0 && path@[0] == 47 ==> r@ == path@.skip(1),
        !(path@.len() > 0 && path@[0] == 47) ==> r@ == path@,
{
    let start: usize = if path.len() > 0 && path[0] == 47 {
        1
    } else {
        0
    };
    let mut r: Vec<u8> = Vec::new();
    let mut i: usize = start;
    while i < path.len()
        invariant
            start <= i <= path@.len(),
            r@ == path@.subrange(start as int, i as int),
        decreases path@.len() - i,
    {
        r.push(path[i]);
        proof {
            assert(path@.subrange(start as int, i + 1) =~= path@.subrange(start as int, i as int)
                .push(path@[i as int]));
        }
        i = i + 1;
    }
    proof {
        if start == 1 {
            assert(path@.subrange(1, path@.len() as int) =~= path@.skip(1));
        } else {
            assert(path@.subrange(0, path@.len() as int) =~= path@);
        }
    }
    r
}

} // verus!
