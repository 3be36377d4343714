//! The OCPP-J wire frames: `Call`, `CallResult` and `CallError`, with
//! the verified codec between raw bytes and frame values.

use vstd::prelude::*;
use vstd::string::StringSliceAdditionalSpecFns;

use crate::json::JsonSpec;
use crate::json::JsonValue;
use crate::json::copy_bytes;
use crate::json::ascii_to_bytes;
use crate::json::str_to_bytes;
use crate::json::json_to_bytes;
use crate::json::ser_val;
use crate::parse::parse_json;
use crate::parse::clean_str;
use crate::parse::clean_json;
use crate::parse::clean_items;
use crate::parse::lemma_parse_json_round_trip;
use crate::parse::bytes_to_json;

verus! {

/// The tag that opens every frame: a Call is 2, a CallResult 3, a
/// CallError 4.
#[derive(Clone, Copy, PartialEq, Eq, Structural, Debug)]
pub enum OcppMessageTypeId {
    Call,
    CallResult,
    CallError,
}

impl OcppMessageTypeId {
    /// The integer on the wire.
    pub open spec fn spec_code(self) -> int {
        match self {
            OcppMessageTypeId::Call => 2,
            OcppMessageTypeId::CallResult => 3,
            OcppMessageTypeId::CallError => 4,
        }
    }

    /// The integer on the wire.
    pub fn code(self) -> (r: i64)
        ensures
            r as int == self.spec_code(),
    {
        match self {
            OcppMessageTypeId::Call => 2,
            OcppMessageTypeId::CallResult => 3,
            OcppMessageTypeId::CallError => 4,
        }
    }
}

/// The error categories a CallError carries.
#[derive(Clone, Copy, PartialEq, Eq, Structural, Debug)]
pub enum ErrorCode {
    NotImplemented,
    FormationViolation,
    TypeConstraintViolation,
    InternalError,
    ProtocolError,
}

/// The wire name of each error code.
pub open spec fn code_name(c: ErrorCode) -> Seq<u8> {
    match c {
        ErrorCode::NotImplemented => seq![
            78u8, 111u8, 116u8, 73u8, 109u8, 112u8, 108u8, 101u8, 109u8, 101u8, 110u8, 116u8,
            101u8, 100u8,
        ],
        ErrorCode::FormationViolation => seq![
            70u8, 111u8, 114u8, 109u8, 97u8, 116u8, 105u8, 111u8, 110u8, 86u8, 105u8, 111u8,
            108u8, 97u8, 116u8, 105u8, 111u8, 110u8,
        ],
        ErrorCode::TypeConstraintViolation => seq![
            84u8, 121u8, 112u8, 101u8, 67u8, 111u8, 110u8, 115u8, 116u8, 114u8, 97u8, 105u8,
            110u8, 116u8, 86u8, 105u8, 111u8, 108u8, 97u8, 116u8, 105u8, 111u8, 110u8,
        ],
        ErrorCode::InternalError => seq![
            73u8, 110u8, 116u8, 101u8, 114u8, 110u8, 97u8, 108u8, 69u8, 114u8, 114u8, 111u8,
            114u8,
        ],
        ErrorCode::ProtocolError => seq![
            80u8, 114u8, 111u8, 116u8, 111u8, 99u8, 111u8, 108u8, 69u8, 114u8, 114u8, 111u8,
            114u8,
        ],
    }
}

/// The error code a wire name stands for.
pub open spec fn code_of_name(s: Seq<u8>) -> Option<ErrorCode> {
    if s == code_name(ErrorCode::NotImplemented) {
        Some(ErrorCode::NotImplemented)
    } else if s == code_name(ErrorCode::FormationViolation) {
        Some(ErrorCode::FormationViolation)
    } else if s == code_name(ErrorCode::TypeConstraintViolation) {
        Some(ErrorCode::TypeConstraintViolation)
    } else if s == code_name(ErrorCode::InternalError) {
        Some(ErrorCode::InternalError)
    } else if s == code_name(ErrorCode::ProtocolError) {
        Some(ErrorCode::ProtocolError)
    } else {
        None
    }
}

impl ErrorCode {
    /// The wire name of this code, as bytes.
    pub fn name_bytes(self) -> (r: Vec<u8>)
        ensures
            r@ == code_name(self),
    {
        let r = match self {
            ErrorCode::NotImplemented => {
                proof {
                    reveal_strlit("NotImplemented");
                }
                ascii_to_bytes("NotImplemented")
            }
            ErrorCode::FormationViolation => {
                proof {
                    reveal_strlit("FormationViolation");
                }
                ascii_to_bytes("FormationViolation")
            }
            ErrorCode::TypeConstraintViolation => {
                proof {
                    reveal_strlit("TypeConstraintViolation");
                }
                ascii_to_bytes("TypeConstraintViolation")
            }
            ErrorCode::InternalError => {
                proof {
                    reveal_strlit("InternalError");
                }
                ascii_to_bytes("InternalError")
            }
            ErrorCode::ProtocolError => {
                proof {
                    reveal_strlit("ProtocolError");
                }
                ascii_to_bytes("ProtocolError")
            }
        };
        proof {
            assert(r@ =~= code_name(self));
        }
        r
    }
}

/// An inbound request frame.
pub struct OcppCall {
    pub message_type_id: i64,
    pub unique_id: Vec<u8>,
    pub action: Vec<u8>,
    pub payload: JsonValue,
}

/// The model of a Call.
pub struct CallSpec {
    pub unique_id: Seq<u8>,
    pub action: Seq<u8>,
    pub payload: JsonSpec,
}

impl View for OcppCall {
    type V = CallSpec;

    open spec fn view(&self) -> CallSpec {
        CallSpec { unique_id: self.unique_id@, action: self.action@, payload: self.payload@ }
    }
}

/// A successful reply frame.
pub struct OcppCallResult {
    pub message_type_id: i64,
    pub unique_id: Vec<u8>,
    pub payload: JsonValue,
}

/// The model of a CallResult.
pub struct CallResultSpec {
    pub unique_id: Seq<u8>,
    pub payload: JsonSpec,
}

impl View for OcppCallResult {
    type V = CallResultSpec;

    open spec fn view(&self) -> CallResultSpec {
        CallResultSpec { unique_id: self.unique_id@, payload: self.payload@ }
    }
}

/// A failure reply frame.
pub struct OcppCallError {
    pub message_type_id: i64,
    pub unique_id: Vec<u8>,
    pub error_code: ErrorCode,
    pub error_description: Vec<u8>,
    pub error_details: JsonValue,
}

/// The model of a CallError.
pub struct CallErrorSpec {
    pub unique_id: Seq<u8>,
    pub error_code: ErrorCode,
    pub error_description: Seq<u8>,
    pub error_details: JsonSpec,
}

impl View for OcppCallError {
    type V = CallErrorSpec;

    open spec fn view(&self) -> CallErrorSpec {
        CallErrorSpec {
            unique_id: self.unique_id@,
            error_code: self.error_code,
            error_description: self.error_description@,
            error_details: self.error_details@,
        }
    }
}

/// Any decoded frame.
pub enum OcppFrame {
    Call(OcppCall),
    CallResult(OcppCallResult),
    CallError(OcppCallError),
}

/// The model of a decoded frame.
pub enum FrameSpec {
    Call(CallSpec),
    CallResult(CallResultSpec),
    CallError(CallErrorSpec),
}

impl View for OcppFrame {
    type V = FrameSpec;

    open spec fn view(&self) -> FrameSpec {
        match self {
            OcppFrame::Call(c) => FrameSpec::Call(c@),
            OcppFrame::CallResult(c) => FrameSpec::CallResult(c@),
            OcppFrame::CallError(c) => FrameSpec::CallError(c@),
        }
    }
}

/// Why an inbound text failed to decode. `Malformed` means no
/// uniqueId could be recovered, so no reply is possible; `Protocol`
/// keeps the uniqueId so that a CallError reply can name it.
pub enum FrameError {
    Malformed { description: Vec<u8> },
    Protocol { unique_id: Vec<u8>, description: Vec<u8> },
}

/// The model of a decode failure.
pub enum FrameErrorSpec {
    Malformed { description: Seq<u8> },
    Protocol { unique_id: Seq<u8>, description: Seq<u8> },
}

impl View for FrameError {
    type V = FrameErrorSpec;

    open spec fn view(&self) -> FrameErrorSpec {
        match self {
            FrameError::Malformed { description } => FrameErrorSpec::Malformed {
                description: description@,
            },
            FrameError::Protocol { unique_id, description } => FrameErrorSpec::Protocol {
                unique_id: unique_id@,
                description: description@,
            },
        }
    }
}

/// Whether a uniqueId can be recovered from the frame's elements: the
/// second element is a non-empty string.
pub open spec fn uid_recoverable(items: Seq<JsonSpec>) -> bool {
    items.len() >= 2 && items[1] is Str && items[1]->Str_0.len() > 0
}

/// The decode failure for a structurally bad frame: a `Protocol`
/// error naming the uniqueId where one can be recovered, else
/// `Malformed`.
pub open spec fn spec_recover(items: Seq<JsonSpec>, desc: Seq<u8>) -> FrameErrorSpec {
    if uid_recoverable(items) {
        FrameErrorSpec::Protocol { unique_id: items[1]->Str_0, description: desc }
    } else {
        FrameErrorSpec::Malformed { description: desc }
    }
}

/// What a Call's elements must look like: `[2, uniqueId, action,
/// payload]` with string uniqueId (non-empty) and action, and an
/// object or null payload.
pub open spec fn decode_call_items(items: Seq<JsonSpec>) -> Result<FrameSpec, FrameErrorSpec> {
    if !(items[1] is Str && items[1]->Str_0.len() > 0) {
        Err(
            FrameErrorSpec::Malformed {
                description: ("the unique id is not a non-empty string").spec_bytes(),
            },
        )
    } else if !(items[2] is Str) {
        Err(spec_recover(items, ("the action is not a string").spec_bytes()))
    } else if !(items[3] is Obj || items[3] is Null) {
        Err(spec_recover(items, ("the payload is not an object or null").spec_bytes()))
    } else {
        Ok(
            FrameSpec::Call(
                CallSpec {
                    unique_id: items[1]->Str_0,
                    action: items[2]->Str_0,
                    payload: items[3],
                },
            ),
        )
    }
}

/// What a CallResult's elements must look like: `[3, uniqueId,
/// payload]`.
pub open spec fn decode_result_items(items: Seq<JsonSpec>) -> Result<FrameSpec, FrameErrorSpec> {
    if !(items[1] is Str && items[1]->Str_0.len() > 0) {
        Err(
            FrameErrorSpec::Malformed {
                description: ("the unique id is not a non-empty string").spec_bytes(),
            },
        )
    } else {
        Ok(
            FrameSpec::CallResult(
                CallResultSpec { unique_id: items[1]->Str_0, payload: items[2] },
            ),
        )
    }
}

/// What a CallError's elements must look like: `[4, uniqueId,
/// errorCode, errorDescription, errorDetails]` with a known error
/// code name and a string description.
pub open spec fn decode_error_items(items: Seq<JsonSpec>) -> Result<FrameSpec, FrameErrorSpec> {
    if !(items[1] is Str && items[1]->Str_0.len() > 0) {
        Err(
            FrameErrorSpec::Malformed {
                description: ("the unique id is not a non-empty string").spec_bytes(),
            },
        )
    } else if !(items[2] is Str) {
        Err(spec_recover(items, ("the error code is not a string").spec_bytes()))
    } else if code_of_name(items[2]->Str_0) is None {
        Err(spec_recover(items, ("the error code is not a known code").spec_bytes()))
    } else if !(items[3] is Str) {
        Err(spec_recover(items, ("the error description is not a string").spec_bytes()))
    } else {
        Ok(
            FrameSpec::CallError(
                CallErrorSpec {
                    unique_id: items[1]->Str_0,
                    error_code: code_of_name(items[2]->Str_0)->0,
                    error_description: items[3]->Str_0,
                    error_details: items[4],
                },
            ),
        )
    }
}

/// What any frame value must look like: a JSON array opening with a
/// known message type id, of the arity that id demands.
pub open spec fn frame_of_json(j: JsonSpec) -> Result<FrameSpec, FrameErrorSpec> {
    if !(j is Arr) {
        Err(
            FrameErrorSpec::Malformed {
                description: ("the top level is not a JSON array").spec_bytes(),
            },
        )
    } else {
        let items = j->Arr_0;
        if items.len() == 0 {
            Err(FrameErrorSpec::Malformed { description: ("the frame is empty").spec_bytes() })
        } else if !(items[0] is Int) {
            Err(
                FrameErrorSpec::Malformed {
                    description: ("the message type id is not an integer").spec_bytes(),
                },
            )
        } else {
            let t = items[0]->Int_0;
            if t == 2 {
                if items.len() != 4 {
                    Err(spec_recover(items, ("a call frame must have four elements").spec_bytes()))
                } else {
                    decode_call_items(items)
                }
            } else if t == 3 {
                if items.len() != 3 {
                    Err(
                        spec_recover(
                            items,
                            ("a call result frame must have three elements").spec_bytes(),
                        ),
                    )
                } else {
                    decode_result_items(items)
                }
            } else if t == 4 {
                if items.len() != 5 {
                    Err(
                        spec_recover(
                            items,
                            ("a call error frame must have five elements").spec_bytes(),
                        ),
                    )
                } else {
                    decode_error_items(items)
                }
            } else {
                Err(spec_recover(items, ("the message type id is unknown").spec_bytes()))
            }
        }
    }
}

/// What decoding a whole text yields: parse the JSON, then read the
/// frame out of it.
pub open spec fn decode_spec(s: Seq<u8>) -> Result<FrameSpec, FrameErrorSpec> {
    match parse_json(s) {
        Some(j) => frame_of_json(j),
        None => Err(
            FrameErrorSpec::Malformed {
                description: ("the input is not well-formed JSON").spec_bytes(),
            },
        ),
    }
}


/// Builds the decode failure for a structurally bad frame; mirrors
/// `spec_recover`.
fn recover_error(items: &Vec<JsonValue>, desc: Vec<u8>) -> (e: FrameError)
    ensures
        e@ == spec_recover(crate::json::views_of(items@), desc@),
{
    proof {
        crate::json::lemma_views_of(items@);
        assert(crate::json::views_of(items@).len() == items@.len());
        if items@.len() >= 2 {
            assert(crate::json::views_of(items@)[1] == items@[1]@);
        }
    }
    if items.len() >= 2 {
        match &items[1] {
            JsonValue::Str(s) => {
                if s.len() > 0 {
                    FrameError::Protocol { unique_id: copy_bytes(s), description: desc }
                } else {
                    FrameError::Malformed { description: desc }
                }
            }
            _ => FrameError::Malformed { description: desc },
        }
    } else {
        FrameError::Malformed { description: desc }
    }
}

/// Reads a frame out of a parsed JSON value; mirrors `frame_of_json`.
pub fn frame_from_json(v: JsonValue) -> (r: Result<OcppFrame, FrameError>)
    ensures
        match r {
            Ok(f) => frame_of_json(v@) == Ok::<FrameSpec, FrameErrorSpec>(f@),
            Err(e) => frame_of_json(v@) == Err::<FrameSpec, FrameErrorSpec>(e@),
        },
{
    let items: Vec<JsonValue> = match v {
        JsonValue::Arr(items) => items,
        _ => {
            return Err(
                FrameError::Malformed {
                    description: str_to_bytes("the top level is not a JSON array"),
                },
            );
        }
    };
    let ghost iv = crate::json::views_of(items@);
    proof {
        crate::json::lemma_views_of(items@);
        assert(iv.len() == items@.len());
        assert forall|i: int| 0 <= i < items@.len() implies #[trigger] iv[i] == items@[i]@ by {
            assert(crate::json::views_of(items@)[i] == items@[i]@);
        }
    }
    if items.len() == 0 {
        return Err(FrameError::Malformed { description: str_to_bytes("the frame is empty") });
    }
    let t: i64 = match &items[0] {
        JsonValue::Int(n) => *n,
        _ => {
            return Err(
                FrameError::Malformed {
                    description: str_to_bytes("the message type id is not an integer"),
                },
            );
        }
    };
    if t == 2 {
        if items.len() != 4 {
            return Err(
                recover_error(&items, str_to_bytes("a call frame must have four elements")),
            );
        }
        let uid_ok = match &items[1] {
            JsonValue::Str(s) => s.len() > 0,
            _ => false,
        };
        if !uid_ok {
            return Err(
                FrameError::Malformed {
                    description: str_to_bytes("the unique id is not a non-empty string"),
                },
            );
        }
        let action_ok = match &items[2] {
            JsonValue::Str(_) => true,
            _ => false,
        };
        if !action_ok {
            return Err(recover_error(&items, str_to_bytes("the action is not a string")));
        }
        let payload_ok = match &items[3] {
            JsonValue::Obj(_) => true,
            JsonValue::Null => true,
            _ => false,
        };
        if !payload_ok {
            return Err(
                recover_error(&items, str_to_bytes("the payload is not an object or null")),
            );
        }
        let mut items = items;
        let payload = items.pop().unwrap();
        let action: Vec<u8> = match items.pop().unwrap() {
            JsonValue::Str(s) => s,
            _ => unreached(),
        };
        let unique_id: Vec<u8> = match items.pop().unwrap() {
            JsonValue::Str(s) => s,
            _ => unreached(),
        };
        Ok(OcppFrame::Call(OcppCall { message_type_id: 2, unique_id, action, payload }))
    } else if t == 3 {
        if items.len() != 3 {
            return Err(
                recover_error(
                    &items,
                    str_to_bytes("a call result frame must have three elements"),
                ),
            );
        }
        let uid_ok = match &items[1] {
            JsonValue::Str(s) => s.len() > 0,
            _ => false,
        };
        if !uid_ok {
            return Err(
                FrameError::Malformed {
                    description: str_to_bytes("the unique id is not a non-empty string"),
                },
            );
        }
        let mut items = items;
        let payload = items.pop().unwrap();
        let unique_id: Vec<u8> = match items.pop().unwrap() {
            JsonValue::Str(s) => s,
            _ => unreached(),
        };
        Ok(OcppFrame::CallResult(OcppCallResult { message_type_id: 3, unique_id, payload }))
    } else if t == 4 {
        if items.len() != 5 {
            return Err(
                recover_error(&items, str_to_bytes("a call error frame must have five elements")),
            );
        }
        let uid_ok = match &items[1] {
            JsonValue::Str(s) => s.len() > 0,
            _ => false,
        };
        if !uid_ok {
            return Err(
                FrameError::Malformed {
                    description: str_to_bytes("the unique id is not a non-empty string"),
                },
            );
        }
        let code: ErrorCode = match &items[2] {
            JsonValue::Str(s) => {
                match lookup_error_code(s) {
                    Some(c) => c,
                    None => {
                        return Err(
                            recover_error(
                                &items,
                                str_to_bytes("the error code is not a known code"),
                            ),
                        );
                    }
                }
            }
            _ => {
                return Err(recover_error(&items, str_to_bytes("the error code is not a string")));
            }
        };
        let desc_ok = match &items[3] {
            JsonValue::Str(_) => true,
            _ => false,
        };
        if !desc_ok {
            return Err(
                recover_error(&items, str_to_bytes("the error description is not a string")),
            );
        }
        let mut items = items;
        let error_details = items.pop().unwrap();
        let error_description: Vec<u8> = match items.pop().unwrap() {
            JsonValue::Str(s) => s,
            _ => unreached(),
        };
        let _discard = items.pop().unwrap();
        let unique_id: Vec<u8> = match items.pop().unwrap() {
            JsonValue::Str(s) => s,
            _ => unreached(),
        };
        Ok(
            OcppFrame::CallError(
                OcppCallError {
                    message_type_id: 4,
                    unique_id,
                    error_code: code,
                    error_description,
                    error_details,
                },
            ),
        )
    } else {
        Err(recover_error(&items, str_to_bytes("the message type id is unknown")))
    }
}

/// Looks an error code up by its wire name; mirrors `code_of_name`.
fn lookup_error_code(s: &Vec<u8>) -> (r: Option<ErrorCode>)
    ensures
        r == code_of_name(s@),
{
    let n0 = ErrorCode::NotImplemented.name_bytes();
    if crate::json::bytes_eq(s.as_slice(), n0.as_slice()) {
        return Some(ErrorCode::NotImplemented);
    }
    let n1 = ErrorCode::FormationViolation.name_bytes();
    if crate::json::bytes_eq(s.as_slice(), n1.as_slice()) {
        return Some(ErrorCode::FormationViolation);
    }
    let n2 = ErrorCode::TypeConstraintViolation.name_bytes();
    if crate::json::bytes_eq(s.as_slice(), n2.as_slice()) {
        return Some(ErrorCode::TypeConstraintViolation);
    }
    let n3 = ErrorCode::InternalError.name_bytes();
    if crate::json::bytes_eq(s.as_slice(), n3.as_slice()) {
        return Some(ErrorCode::InternalError);
    }
    let n4 = ErrorCode::ProtocolError.name_bytes();
    if crate::json::bytes_eq(s.as_slice(), n4.as_slice()) {
        return Some(ErrorCode::ProtocolError);
    }
    None
}

/// Decodes one inbound text into a frame. Succeeds on exactly the
/// well-formed JSON arrays of the three frame shapes; fails with
/// `Malformed` where no uniqueId can be recovered and `Protocol`
/// where one can.
pub fn decode(raw: &[u8]) -> (r: Result<OcppFrame, FrameError>)
    ensures
        match r {
            Ok(f) => decode_spec(raw@) == Ok::<FrameSpec, FrameErrorSpec>(f@),
            Err(e) => decode_spec(raw@) == Err::<FrameSpec, FrameErrorSpec>(e@),
        },
{
    match bytes_to_json(raw) {
        Some(v) => frame_from_json(v),
        None => Err(
            FrameError::Malformed {
                description: str_to_bytes("the input is not well-formed JSON"),
            },
        ),
    }
}

/// The JSON value a CallResult is framed as: `[3, uniqueId, payload]`.
pub open spec fn result_frame_json(m: CallResultSpec) -> JsonSpec {
    JsonSpec::Arr(seq![JsonSpec::Int(3), JsonSpec::Str(m.unique_id), m.payload])
}

/// The JSON value a CallError is framed as: `[4, uniqueId, errorCode,
/// errorDescription, errorDetails]`.
pub open spec fn error_frame_json(m: CallErrorSpec) -> JsonSpec {
    JsonSpec::Arr(
        seq![
            JsonSpec::Int(4),
            JsonSpec::Str(m.unique_id),
            JsonSpec::Str(code_name(m.error_code)),
            JsonSpec::Str(m.error_description),
            m.error_details,
        ],
    )
}

/// Encodes a CallResult reply: exactly the canonical serialization of
/// its frame.
pub fn encode_call_result(m: OcppCallResult) -> (r: Vec<u8>)
    ensures
        r@ == ser_val(result_frame_json(m@)),
{
    let ghost mv = m@;
    let OcppCallResult { message_type_id: _, unique_id, payload } = m;
    let mut arr: Vec<JsonValue> = Vec::new();
    arr.push(JsonValue::Int(3));
    arr.push(JsonValue::Str(unique_id));
    arr.push(payload);
    let v = JsonValue::Arr(arr);
    proof {
        crate::json::lemma_views_of(arr@);
        assert(arr@.len() == 3);
        assert(crate::json::views_of(arr@)[0] == arr@[0]@);
        assert(crate::json::views_of(arr@)[1] == arr@[1]@);
        assert(crate::json::views_of(arr@)[2] == arr@[2]@);
        assert(arr@[0]@ == JsonSpec::Int(3));
        assert(arr@[1]@ == JsonSpec::Str(mv.unique_id));
        assert(arr@[2]@ == mv.payload);
        assert(v@->Arr_0 =~= result_frame_json(mv)->Arr_0);
        assert(v@ == result_frame_json(mv));
    }
    json_to_bytes(&v)
}

/// Encodes a CallError reply: exactly the canonical serialization of
/// its frame.
pub fn encode_call_error(m: OcppCallError) -> (r: Vec<u8>)
    ensures
        r@ == ser_val(error_frame_json(m@)),
{
    let ghost mv = m@;
    let OcppCallError { message_type_id: _, unique_id, error_code, error_description, error_details } = m;
    let mut arr: Vec<JsonValue> = Vec::new();
    arr.push(JsonValue::Int(4));
    arr.push(JsonValue::Str(unique_id));
    arr.push(JsonValue::Str(error_code.name_bytes()));
    arr.push(JsonValue::Str(error_description));
    arr.push(error_details);
    let v = JsonValue::Arr(arr);
    proof {
        crate::json::lemma_views_of(arr@);
        assert(arr@.len() == 5);
        assert(crate::json::views_of(arr@)[0] == arr@[0]@);
        assert(crate::json::views_of(arr@)[1] == arr@[1]@);
        assert(crate::json::views_of(arr@)[2] == arr@[2]@);
        assert(crate::json::views_of(arr@)[3] == arr@[3]@);
        assert(crate::json::views_of(arr@)[4] == arr@[4]@);
        assert(arr@[0]@ == JsonSpec::Int(4));
        assert(arr@[1]@ == JsonSpec::Str(mv.unique_id));
        assert(arr@[2]@ == JsonSpec::Str(code_name(mv.error_code)));
        assert(arr@[3]@ == JsonSpec::Str(mv.error_description));
        assert(arr@[4]@ == mv.error_details);
        assert(v@->Arr_0 =~= error_frame_json(mv)->Arr_0);
        assert(v@ == error_frame_json(mv));
    }
    json_to_bytes(&v)
}

/// The names of distinct error codes are distinct byte strings.
proof fn lemma_code_names_distinct(a: ErrorCode, b: ErrorCode)
    requires
        a != b,
    ensures
        code_name(a) != code_name(b),
{
    assert(code_name(a).len() != code_name(b).len() || code_name(a)[0] != code_name(b)[0]);
}

/// A code's wire name maps back to the code.
pub proof fn lemma_code_name_round_trip(c: ErrorCode)
    ensures
        code_of_name(code_name(c)) == Some(c),
{
    if c != ErrorCode::NotImplemented {
        lemma_code_names_distinct(c, ErrorCode::NotImplemented);
    }
    if c != ErrorCode::FormationViolation {
        lemma_code_names_distinct(c, ErrorCode::FormationViolation);
    }
    if c != ErrorCode::TypeConstraintViolation {
        lemma_code_names_distinct(c, ErrorCode::TypeConstraintViolation);
    }
    if c != ErrorCode::InternalError {
        lemma_code_names_distinct(c, ErrorCode::InternalError);
    }
    if c != ErrorCode::ProtocolError {
        lemma_code_names_distinct(c, ErrorCode::ProtocolError);
    }
}

/// Reading a CallResult's frame back yields that CallResult: the
/// value-level half of the round trip between replies and frames.
pub proof fn lemma_result_round_trip(m: CallResultSpec)
    requires
        m.unique_id.len() > 0,
    ensures
        frame_of_json(result_frame_json(m)) == Ok::<FrameSpec, FrameErrorSpec>(
            FrameSpec::CallResult(m),
        ),
{
    let j = result_frame_json(m);
    let items = j->Arr_0;
    assert(items[0] == JsonSpec::Int(3));
    assert(items[1] == JsonSpec::Str(m.unique_id));
    assert(items[2] == m.payload);
}

/// Reading a CallError's frame back yields that CallError: the
/// value-level half of the round trip between replies and frames.
pub proof fn lemma_error_round_trip(m: CallErrorSpec)
    requires
        m.unique_id.len() > 0,
    ensures
        frame_of_json(error_frame_json(m)) == Ok::<FrameSpec, FrameErrorSpec>(
            FrameSpec::CallError(m),
        ),
{
    let j = error_frame_json(m);
    let items = j->Arr_0;
    assert(items[0] == JsonSpec::Int(4));
    assert(items[1] == JsonSpec::Str(m.unique_id));
    assert(items[2] == JsonSpec::Str(code_name(m.error_code)));
    assert(items[3] == JsonSpec::Str(m.error_description));
    assert(items[4] == m.error_details);
    lemma_code_name_round_trip(m.error_code);
}


/// A CallResult whose encoded bytes the codec can decode back.
pub open spec fn clean_result(m: CallResultSpec) -> bool {
    m.unique_id.len() > 0 && clean_str(m.unique_id) && clean_json(m.payload)
}

/// A CallError whose encoded bytes the codec can decode back.
pub open spec fn clean_error(m: CallErrorSpec) -> bool {
    m.unique_id.len() > 0 && clean_str(m.unique_id) && clean_str(m.error_description)
        && clean_json(m.error_details)
}

/// The wire name of every error code is printable.
proof fn lemma_code_name_clean(c: ErrorCode)
    ensures
        clean_str(code_name(c)),
{
}

/// Round trip over the wire: decoding the bytes a CallResult encodes
/// to yields that CallResult back.
pub proof fn lemma_decode_encode_result(m: CallResultSpec)
    requires
        clean_result(m),
    ensures
        decode_spec(ser_val(result_frame_json(m))) == Ok::<FrameSpec, FrameErrorSpec>(
            FrameSpec::CallResult(m),
        ),
{
    let j = result_frame_json(m);
    let items = j->Arr_0;
    assert(clean_json(j)) by {
        assert(items[0] == JsonSpec::Int(3));
        assert(items[1] == JsonSpec::Str(m.unique_id));
        assert(items[2] == m.payload);
        assert(clean_json(JsonSpec::Int(3)));
        assert(clean_json(JsonSpec::Str(m.unique_id)));
        let r1 = items.drop_first();
        let r2 = r1.drop_first();
        let r3 = r2.drop_first();
        assert(r1[0] == items[1]);
        assert(r2[0] == items[2]);
        assert(r3.len() == 0);
        assert(clean_items(r3));
        assert(clean_items(r2));
        assert(clean_items(r1));
        assert(clean_items(items));
    }
    lemma_parse_json_round_trip(j);
    lemma_result_round_trip(m);
}

/// Round trip over the wire: decoding the bytes a CallError encodes
/// to yields that CallError back.
pub proof fn lemma_decode_encode_error(m: CallErrorSpec)
    requires
        clean_error(m),
    ensures
        decode_spec(ser_val(error_frame_json(m))) == Ok::<FrameSpec, FrameErrorSpec>(
            FrameSpec::CallError(m),
        ),
{
    let j = error_frame_json(m);
    let items = j->Arr_0;
    assert(clean_json(j)) by {
        assert(items[0] == JsonSpec::Int(4));
        assert(items[1] == JsonSpec::Str(m.unique_id));
        assert(items[2] == JsonSpec::Str(code_name(m.error_code)));
        assert(items[3] == JsonSpec::Str(m.error_description));
        assert(items[4] == m.error_details);
        lemma_code_name_clean(m.error_code);
        assert(clean_json(JsonSpec::Int(4)));
        assert(clean_json(JsonSpec::Str(m.unique_id)));
        assert(clean_json(JsonSpec::Str(code_name(m.error_code))));
        assert(clean_json(JsonSpec::Str(m.error_description)));
        let r1 = items.drop_first();
        let r2 = r1.drop_first();
        let r3 = r2.drop_first();
        let r4 = r3.drop_first();
        let r5 = r4.drop_first();
        assert(r1[0] == items[1]);
        assert(r2[0] == items[2]);
        assert(r3[0] == items[3]);
        assert(r4[0] == items[4]);
        assert(r5.len() == 0);
        assert(clean_items(r5));
        assert(clean_items(r4));
        assert(clean_items(r3));
        assert(clean_items(r2));
        assert(clean_items(r1));
        assert(clean_items(items));
    }
    lemma_parse_json_round_trip(j);
    lemma_error_round_trip(m);
}


/// Input that is not well-formed JSON decodes to `Malformed` — never
/// to a reply and never to a fault.
pub proof fn lemma_unparseable_input_is_malformed(s: Seq<u8>)
    requires
        parse_json(s) is None,
    ensures
        decode_spec(s) matches Err(e) && e is Malformed,
{
}

} // verus!
