//! The action registry, the built-in handlers, and the dispatcher
//! that turns one Call into one CallResult or CallError.
//!
//! Handlers are pure: they take the validated payload and the current
//! time as plain values and never perform I/O, so a malformed payload
//! can only ever yield a CallError, never a crash.

use vstd::prelude::*;
use vstd::string::StringSliceAdditionalSpecFns;

use crate::json::JsonSpec;
use crate::json::JsonValue;
use crate::json::bytes_eq;
use crate::json::str_to_bytes;
use crate::json::ascii_to_bytes;
use crate::json::member_views_of;
use crate::json::lemma_member_views_of;
use crate::frame::ErrorCode;
use crate::frame::OcppCall;
use crate::frame::CallSpec;
use crate::frame::OcppCallResult;
use crate::frame::CallResultSpec;
use crate::frame::OcppCallError;
use crate::frame::CallErrorSpec;

verus! {

/// The rendering of a timestamp (seconds since the Unix epoch) as an
/// RFC 3339 text, as chrono renders it.
pub uninterp spec fn rfc3339_of(t: int) -> Seq<u8>;

/// The timestamps the renderer accepts: the era up to the end of the
/// year 9999.
pub open spec fn time_in_range(t: i64) -> bool {
    0 <= t <= 253402300799
}

/// Relies on chrono: `DateTime::<Utc>::from_timestamp` (defined for
/// every in-range timestamp) composed with `to_rfc3339`, whose result
/// is a function of the timestamp alone.
#[verifier::external_body]
fn format_rfc3339(secs: i64) -> (r: Vec<u8>)
    requires
        time_in_range(secs),
    ensures
        r@ == rfc3339_of(secs as int),
{
    let dt = chrono::DateTime::<chrono::Utc>::from_timestamp(secs, 0).unwrap();
    dt.to_rfc3339().into_bytes()
}

/// The three actions this server implements.
#[derive(Clone, Copy, PartialEq, Eq, Structural, Debug)]
pub enum ActionKind {
    BootNotification,
    Heartbeat,
    StatusNotification,
}

/// The wire name of each action.
pub open spec fn kind_name(k: ActionKind) -> Seq<u8> {
    match k {
        ActionKind::BootNotification => seq![
            66u8, 111u8, 111u8, 116u8, 78u8, 111u8, 116u8, 105u8, 102u8, 105u8, 99u8, 97u8,
            116u8, 105u8, 111u8, 110u8,
        ],
        ActionKind::Heartbeat => seq![72u8, 101u8, 97u8, 114u8, 116u8, 98u8, 101u8, 97u8, 116u8],
        ActionKind::StatusNotification => seq![
            83u8, 116u8, 97u8, 116u8, 117u8, 115u8, 78u8, 111u8, 116u8, 105u8, 102u8, 105u8,
            99u8, 97u8, 116u8, 105u8, 111u8, 110u8,
        ],
    }
}

impl ActionKind {
    /// The wire name of this action, as bytes.
    pub fn name_bytes(self) -> (r: Vec<u8>)
        ensures
            r@ == kind_name(self),
    {
        let r = match self {
            ActionKind::BootNotification => {
                proof {
                    reveal_strlit("BootNotification");
                }
                ascii_to_bytes("BootNotification")
            }
            ActionKind::Heartbeat => {
                proof {
                    reveal_strlit("Heartbeat");
                }
                ascii_to_bytes("Heartbeat")
            }
            ActionKind::StatusNotification => {
                proof {
                    reveal_strlit("StatusNotification");
                }
                ascii_to_bytes("StatusNotification")
            }
        };
        proof {
            assert(r@ =~= kind_name(self));
        }
        r
    }
}

/// Whether an action name belongs to one of the built-in handlers.
pub open spec fn registered(a: Seq<u8>) -> bool {
    a == kind_name(ActionKind::BootNotification) || a == kind_name(ActionKind::Heartbeat) || a
        == kind_name(ActionKind::StatusNotification)
}

/// The handler an action name selects among the given registrations:
/// the first entry whose name matches.
pub open spec fn lookup_spec(entries: Seq<ActionKind>, a: Seq<u8>) -> Option<ActionKind>
    decreases entries.len(),
{
    if entries.len() == 0 {
        None
    } else if kind_name(entries[0]) == a {
        Some(entries[0])
    } else {
        lookup_spec(entries.drop_first(), a)
    }
}

/// The registration error: one handler per action name.
#[derive(Clone, Copy, PartialEq, Eq, Structural, Debug)]
pub enum RegistryError {
    DuplicateAction,
}

/// The action registry: filled once at startup, read-only afterwards.
pub struct ActionRegistry {
    entries: Vec<ActionKind>,
}

impl View for ActionRegistry {
    type V = Seq<ActionKind>;

    closed spec fn view(&self) -> Seq<ActionKind> {
        self.entries@
    }
}

impl ActionRegistry {
    /// No entry is registered twice.
    pub open spec fn wf(self) -> bool {
        forall|i: int, j: int|
            0 <= i < j < self@.len() ==> #[trigger] self@[i] != #[trigger] self@[j]
    }

    /// An empty registry.
    pub fn new() -> (r: ActionRegistry)
        ensures
            r@ == Seq::<ActionKind>::empty(),
            r.wf(),
    {
        ActionRegistry { entries: Vec::new() }
    }

    /// Registers one handler; refuses a second registration of the
    /// same action.
    pub fn register(&mut self, k: ActionKind) -> (r: Result<(), RegistryError>)
        requires
            old(self).wf(),
        ensures
            final(self).wf(),
            match r {
                Ok(()) => !old(self)@.contains(k) && final(self)@ == old(self)@.push(k),
                Err(RegistryError::DuplicateAction) => old(self)@.contains(k) && final(self)@
                    == old(self)@,
            },
    {
        let mut i: usize = 0;
        while i < self.entries.len()
            invariant
                i <= self@.len(),
                self@ == old(self)@,
                self.wf(),
                forall|j: int| 0 <= j < i ==> self@[j] != k,
            decreases self@.len() - i,
        {
            if self.entries[i] == k {
                return Err(RegistryError::DuplicateAction);
            }
            i = i + 1;
        }
        proof {
            assert(!self@.contains(k));
        }
        self.entries.push(k);
        Ok(())
    }

    /// Finds the handler for an action name, if one is registered.
    pub fn lookup(&self, a: &[u8]) -> (r: Option<ActionKind>)
        ensures
            r == lookup_spec(self@, a@),
    {
        proof {
            assert(self@.skip(0) =~= self@);
        }
        let mut i: usize = 0;
        while i < self.entries.len()
            invariant
                i <= self@.len(),
                lookup_spec(self@, a@) == lookup_spec(self@.skip(i as int), a@),
            decreases self@.len() - i,
        {
            let name = self.entries[i].name_bytes();
            proof {
                assert(self@.skip(i as int)[0] == self@[i as int]);
            }
            if bytes_eq(name.as_slice(), a) {
                return Some(self.entries[i]);
            }
            proof {
                assert(self@.skip(i as int).drop_first() =~= self@.skip(i + 1));
            }
            i = i + 1;
        }
        proof {
            assert(self@.skip(self@.len() as int).len() == 0);
        }
        None
    }

    /// The registry this server starts with: the three built-in
    /// handlers.
    pub fn default_registry() -> (r: ActionRegistry)
        ensures
            r@ =~= seq![
                ActionKind::BootNotification,
                ActionKind::Heartbeat,
                ActionKind::StatusNotification,
            ],
            r.wf(),
    {
        let mut entries: Vec<ActionKind> = Vec::new();
        entries.push(ActionKind::BootNotification);
        entries.push(ActionKind::Heartbeat);
        entries.push(ActionKind::StatusNotification);
        ActionRegistry { entries }
    }
}

/// A handler's typed rejection of a payload: the error code and a
/// description naming the offending field.
pub struct PayloadError {
    pub code: ErrorCode,
    pub description: Vec<u8>,
}

/// The model of a payload rejection.
pub struct PayloadErrorSpec {
    pub code: ErrorCode,
    pub description: Seq<u8>,
}

impl View for PayloadError {
    type V = PayloadErrorSpec;

    open spec fn view(&self) -> PayloadErrorSpec {
        PayloadErrorSpec { code: self.code, description: self.description@ }
    }
}

/// The first member with the given key, if any.
pub open spec fn obj_get(fields: Seq<(Seq<u8>, JsonSpec)>, key: Seq<u8>) -> Option<JsonSpec>
    decreases fields.len(),
{
    if fields.len() == 0 {
        None
    } else if fields[0].0 == key {
        Some(fields[0].1)
    } else {
        obj_get(fields.drop_first(), key)
    }
}

/// Finds the first member with the given key; mirrors `obj_get`.
pub fn obj_get_exec<'a>(fields: &'a Vec<(Vec<u8>, JsonValue)>, key: &[u8]) -> (r: Option<
    &'a JsonValue,
>)
    ensures
        match r {
            Some(v) => obj_get(member_views_of(fields@), key@) == Some(v@),
            None => obj_get(member_views_of(fields@), key@) is None,
        },
{
    let ghost mv = member_views_of(fields@);
    proof {
        lemma_member_views_of(fields@);
        assert forall|i: int| 0 <= i < fields@.len() implies #[trigger] mv[i] == (
        fields@[i].0@,
        fields@[i].1@,
        ) by {
            assert(member_views_of(fields@)[i] == (fields@[i].0@, fields@[i].1@));
        }
    }
    proof {
        assert(mv.skip(0) =~= mv);
    }
    let mut i: usize = 0;
    while i < fields.len()
        invariant
            i <= fields@.len(),
            mv == member_views_of(fields@),
            mv.len() == fields@.len(),
            forall|j: int| 0 <= j < fields@.len() ==> #[trigger] mv[j] == (
            fields@[j].0@,
            fields@[j].1@,
            ),
            obj_get(mv, key@) == obj_get(mv.skip(i as int), key@),
        decreases fields@.len() - i,
    {
        proof {
            assert(mv.skip(i as int)[0] == mv[i as int]);
        }
        if bytes_eq(fields[i].0.as_slice(), key) {
            return Some(&fields[i].1);
        }
        proof {
            assert(mv.skip(i as int).drop_first() =~= mv.skip(i + 1));
        }
        i = i + 1;
    }
    proof {
        assert(mv.skip(mv.len() as int).len() == 0);
    }
    None
}

/// What one schema field must look like: present if required, and a
/// string if present.
pub open spec fn check_field(
    fields: Seq<(Seq<u8>, JsonSpec)>,
    key: Seq<u8>,
    required: bool,
    missing: Seq<u8>,
    wrong: Seq<u8>,
) -> Option<PayloadErrorSpec> {
    match obj_get(fields, key) {
        None => if required {
            Some(PayloadErrorSpec { code: ErrorCode::FormationViolation, description: missing })
        } else {
            None
        },
        Some(v) => if v is Str {
            None
        } else {
            Some(PayloadErrorSpec { code: ErrorCode::TypeConstraintViolation, description: wrong })
        },
    }
}

/// Checks one string field of a payload; mirrors `check_field`.
fn check_field_exec(
    fields: &Vec<(Vec<u8>, JsonValue)>,
    key: &str,
    required: bool,
    missing: &str,
    wrong: &str,
) -> (r: Option<PayloadError>)
    ensures
        match r {
            Some(e) => check_field(
                member_views_of(fields@),
                key.spec_bytes(),
                required,
                missing.spec_bytes(),
                wrong.spec_bytes(),
            ) == Some(e@),
            None => check_field(
                member_views_of(fields@),
                key.spec_bytes(),
                required,
                missing.spec_bytes(),
                wrong.spec_bytes(),
            ) is None,
        },
{
    match obj_get_exec(fields, key.as_bytes()) {
        None => {
            if required {
                Some(
                    PayloadError {
                        code: ErrorCode::FormationViolation,
                        description: str_to_bytes(missing),
                    },
                )
            } else {
                None
            }
        }
        Some(v) => {
            match v {
                JsonValue::Str(_) => None,
                _ => Some(
                    PayloadError {
                        code: ErrorCode::TypeConstraintViolation,
                        description: str_to_bytes(wrong),
                    },
                ),
            }
        }
    }
}

/// The first failure among two checks.
pub open spec fn first_err(
    a: Option<PayloadErrorSpec>,
    b: Option<PayloadErrorSpec>,
) -> Option<PayloadErrorSpec> {
    if a is Some {
        a
    } else {
        b
    }
}


/// The BootNotification request schema: the two required identity
/// strings and the optional descriptive strings, checked in order.
#[verifier::opaque]
pub open spec fn validate_boot(p: JsonSpec) -> Option<PayloadErrorSpec> {
    if !(p is Obj) {
        Some(
            PayloadErrorSpec {
                code: ErrorCode::FormationViolation,
                description: ("the payload is not an object").spec_bytes(),
            },
        )
    } else {
        let f = p->Obj_0;
        first_err(
            check_field(
                f,
                ("chargePointVendor").spec_bytes(),
                true,
                ("the field chargePointVendor is missing").spec_bytes(),
                ("the field chargePointVendor is not a string").spec_bytes(),
            ),
            first_err(
                check_field(
                    f,
                    ("chargePointModel").spec_bytes(),
                    true,
                    ("the field chargePointModel is missing").spec_bytes(),
                    ("the field chargePointModel is not a string").spec_bytes(),
                ),
                first_err(
                    check_field(
                        f,
                        ("chargeBoxSerialNumber").spec_bytes(),
                        false,
                        Seq::empty(),
                        ("the field chargeBoxSerialNumber is not a string").spec_bytes(),
                    ),
                    first_err(
                        check_field(
                            f,
                            ("chargePointSerialNumber").spec_bytes(),
                            false,
                            Seq::empty(),
                            ("the field chargePointSerialNumber is not a string").spec_bytes(),
                        ),
                        first_err(
                            check_field(
                                f,
                                ("firmwareVersion").spec_bytes(),
                                false,
                                Seq::empty(),
                                ("the field firmwareVersion is not a string").spec_bytes(),
                            ),
                            first_err(
                                check_field(
                                    f,
                                    ("iccid").spec_bytes(),
                                    false,
                                    Seq::empty(),
                                    ("the field iccid is not a string").spec_bytes(),
                                ),
                                first_err(
                                    check_field(
                                        f,
                                        ("imsi").spec_bytes(),
                                        false,
                                        Seq::empty(),
                                        ("the field imsi is not a string").spec_bytes(),
                                    ),
                                    first_err(
                                        check_field(
                                            f,
                                            ("meterSerialNumber").spec_bytes(),
                                            false,
                                            Seq::empty(),
                                            ("the field meterSerialNumber is not a string").spec_bytes(),
                                        ),
                                        check_field(
                                            f,
                                            ("meterType").spec_bytes(),
                                            false,
                                            Seq::empty(),
                                            ("the field meterType is not a string").spec_bytes(),
                                        ),
                                    ),
                                ),
                            ),
                        ),
                    ),
                ),
            ),
        )
    }
}

/// Checks a BootNotification payload; mirrors `validate_boot`.
fn validate_boot_exec(p: &JsonValue) -> (r: Option<PayloadError>)
    ensures
        match r {
            Some(e) => validate_boot(p@) == Some(e@),
            None => validate_boot(p@) is None,
        },
{
    proof {
        reveal(validate_boot);
    }
    let fields = match p {
        JsonValue::Obj(fields) => fields,
        _ => {
            return Some(
                PayloadError {
                    code: ErrorCode::FormationViolation,
                    description: str_to_bytes("the payload is not an object"),
                },
            );
        }
    };
    if let Some(e) = check_field_exec(
        fields,
        "chargePointVendor",
        true,
        "the field chargePointVendor is missing",
        "the field chargePointVendor is not a string",
    ) {
        return Some(e);
    }
    if let Some(e) = check_field_exec(
        fields,
        "chargePointModel",
        true,
        "the field chargePointModel is missing",
        "the field chargePointModel is not a string",
    ) {
        return Some(e);
    }
    if let Some(e) = check_field_exec(
        fields,
        "chargeBoxSerialNumber",
        false,
        "",
        "the field chargeBoxSerialNumber is not a string",
    ) {
        return Some(e);
    }
    if let Some(e) = check_field_exec(
        fields,
        "chargePointSerialNumber",
        false,
        "",
        "the field chargePointSerialNumber is not a string",
    ) {
        return Some(e);
    }
    if let Some(e) = check_field_exec(
        fields,
        "firmwareVersion",
        false,
        "",
        "the field firmwareVersion is not a string",
    ) {
        return Some(e);
    }
    if let Some(e) = check_field_exec(fields, "iccid", false, "", "the field iccid is not a string")
        {
        return Some(e);
    }
    if let Some(e) = check_field_exec(fields, "imsi", false, "", "the field imsi is not a string") {
        return Some(e);
    }
    if let Some(e) = check_field_exec(
        fields,
        "meterSerialNumber",
        false,
        "",
        "the field meterSerialNumber is not a string",
    ) {
        return Some(e);
    }
    if let Some(e) = check_field_exec(
        fields,
        "meterType",
        false,
        "",
        "the field meterType is not a string",
    ) {
        return Some(e);
    }
    proof {
        assert(("").spec_bytes() =~= Seq::<u8>::empty()) by {
            reveal_strlit("");
            vstd::string::is_ascii_spec_bytes("");
        }
    }
    None
}

/// The Heartbeat request schema: any JSON object.
pub open spec fn validate_heartbeat(p: JsonSpec) -> Option<PayloadErrorSpec> {
    if !(p is Obj) {
        Some(
            PayloadErrorSpec {
                code: ErrorCode::FormationViolation,
                description: ("the payload is not an object").spec_bytes(),
            },
        )
    } else {
        None
    }
}

/// Checks a Heartbeat payload; mirrors `validate_heartbeat`.
fn validate_heartbeat_exec(p: &JsonValue) -> (r: Option<PayloadError>)
    ensures
        match r {
            Some(e) => validate_heartbeat(p@) == Some(e@),
            None => validate_heartbeat(p@) is None,
        },
{
    match p {
        JsonValue::Obj(_) => None,
        _ => Some(
            PayloadError {
                code: ErrorCode::FormationViolation,
                description: str_to_bytes("the payload is not an object"),
            },
        ),
    }
}

/// Whether a string names an OCPP 1.6 charge point status.
pub open spec fn is_status_name(s: Seq<u8>) -> bool {
    s == ("Available").spec_bytes() || s == ("Preparing").spec_bytes() || s == (
    "Charging").spec_bytes() || s == ("SuspendedEVSE").spec_bytes() || s == (
    "SuspendedEV").spec_bytes() || s == ("Finishing").spec_bytes() || s == (
    "Reserved").spec_bytes() || s == ("Unavailable").spec_bytes() || s == ("Faulted").spec_bytes()
}

/// Whether a string names an OCPP 1.6 charge point error code.
pub open spec fn is_cp_error_name(s: Seq<u8>) -> bool {
    s == ("ConnectorLockFailure").spec_bytes() || s == ("EVCommunicationError").spec_bytes() || s
        == ("GroundFailure").spec_bytes() || s == ("HighTemperature").spec_bytes() || s == (
    "InternalError").spec_bytes() || s == ("LocalListConflict").spec_bytes() || s == (
    "NoError").spec_bytes() || s == ("OtherError").spec_bytes() || s == (
    "OverCurrentFailure").spec_bytes() || s == ("OverVoltage").spec_bytes() || s == (
    "PowerMeterFailure").spec_bytes() || s == ("PowerSwitchFailure").spec_bytes() || s == (
    "ReaderFailure").spec_bytes() || s == ("ResetFailure").spec_bytes() || s == (
    "UnderVoltage").spec_bytes() || s == ("WeakSignal").spec_bytes()
}

/// Tests a status name; mirrors `is_status_name`.
fn is_status_name_exec(s: &Vec<u8>) -> (r: bool)
    ensures
        r == is_status_name(s@),
{
    bytes_eq(s.as_slice(), str_to_bytes("Available").as_slice()) || bytes_eq(
        s.as_slice(),
        str_to_bytes("Preparing").as_slice(),
    ) || bytes_eq(s.as_slice(), str_to_bytes("Charging").as_slice()) || bytes_eq(
        s.as_slice(),
        str_to_bytes("SuspendedEVSE").as_slice(),
    ) || bytes_eq(s.as_slice(), str_to_bytes("SuspendedEV").as_slice()) || bytes_eq(
        s.as_slice(),
        str_to_bytes("Finishing").as_slice(),
    ) || bytes_eq(s.as_slice(), str_to_bytes("Reserved").as_slice()) || bytes_eq(
        s.as_slice(),
        str_to_bytes("Unavailable").as_slice(),
    ) || bytes_eq(s.as_slice(), str_to_bytes("Faulted").as_slice())
}

/// Tests an error code name; mirrors `is_cp_error_name`.
fn is_cp_error_name_exec(s: &Vec<u8>) -> (r: bool)
    ensures
        r == is_cp_error_name(s@),
{
    bytes_eq(s.as_slice(), str_to_bytes("ConnectorLockFailure").as_slice()) || bytes_eq(
        s.as_slice(),
        str_to_bytes("EVCommunicationError").as_slice(),
    ) || bytes_eq(s.as_slice(), str_to_bytes("GroundFailure").as_slice()) || bytes_eq(
        s.as_slice(),
        str_to_bytes("HighTemperature").as_slice(),
    ) || bytes_eq(s.as_slice(), str_to_bytes("InternalError").as_slice()) || bytes_eq(
        s.as_slice(),
        str_to_bytes("LocalListConflict").as_slice(),
    ) || bytes_eq(s.as_slice(), str_to_bytes("NoError").as_slice()) || bytes_eq(
        s.as_slice(),
        str_to_bytes("OtherError").as_slice(),
    ) || bytes_eq(s.as_slice(), str_to_bytes("OverCurrentFailure").as_slice()) || bytes_eq(
        s.as_slice(),
        str_to_bytes("OverVoltage").as_slice(),
    ) || bytes_eq(s.as_slice(), str_to_bytes("PowerMeterFailure").as_slice()) || bytes_eq(
        s.as_slice(),
        str_to_bytes("PowerSwitchFailure").as_slice(),
    ) || bytes_eq(s.as_slice(), str_to_bytes("ReaderFailure").as_slice()) || bytes_eq(
        s.as_slice(),
        str_to_bytes("ResetFailure").as_slice(),
    ) || bytes_eq(s.as_slice(), str_to_bytes("UnderVoltage").as_slice()) || bytes_eq(
        s.as_slice(),
        str_to_bytes("WeakSignal").as_slice(),
    )
}

/// The StatusNotification request schema: a connector number, an
/// error code and a status, with optional descriptive strings.
#[verifier::opaque]
pub open spec fn validate_status(p: JsonSpec) -> Option<PayloadErrorSpec> {
    if !(p is Obj) {
        Some(
            PayloadErrorSpec {
                code: ErrorCode::FormationViolation,
                description: ("the payload is not an object").spec_bytes(),
            },
        )
    } else {
        let f = p->Obj_0;
        let connector = match obj_get(f, ("connectorId").spec_bytes()) {
            None => Some(
                PayloadErrorSpec {
                    code: ErrorCode::FormationViolation,
                    description: ("the field connectorId is missing").spec_bytes(),
                },
            ),
            Some(v) => if !(v is Int) {
                Some(
                    PayloadErrorSpec {
                        code: ErrorCode::TypeConstraintViolation,
                        description: ("the field connectorId is not an integer").spec_bytes(),
                    },
                )
            } else if !(0 <= v->Int_0 <= 4294967295) {
                Some(
                    PayloadErrorSpec {
                        code: ErrorCode::TypeConstraintViolation,
                        description: (
                        "the field connectorId is not an unsigned 32-bit integer").spec_bytes(),
                    },
                )
            } else {
                None
            },
        };
        let error_code = match obj_get(f, ("errorCode").spec_bytes()) {
            None => Some(
                PayloadErrorSpec {
                    code: ErrorCode::FormationViolation,
                    description: ("the field errorCode is missing").spec_bytes(),
                },
            ),
            Some(v) => if !(v is Str) {
                Some(
                    PayloadErrorSpec {
                        code: ErrorCode::TypeConstraintViolation,
                        description: ("the field errorCode is not a string").spec_bytes(),
                    },
                )
            } else if !is_cp_error_name(v->Str_0) {
                Some(
                    PayloadErrorSpec {
                        code: ErrorCode::TypeConstraintViolation,
                        description: ("the field errorCode is not a known error code").spec_bytes(),
                    },
                )
            } else {
                None
            },
        };
        let status = match obj_get(f, ("status").spec_bytes()) {
            None => Some(
                PayloadErrorSpec {
                    code: ErrorCode::FormationViolation,
                    description: ("the field status is missing").spec_bytes(),
                },
            ),
            Some(v) => if !(v is Str) {
                Some(
                    PayloadErrorSpec {
                        code: ErrorCode::TypeConstraintViolation,
                        description: ("the field status is not a string").spec_bytes(),
                    },
                )
            } else if !is_status_name(v->Str_0) {
                Some(
                    PayloadErrorSpec {
                        code: ErrorCode::TypeConstraintViolation,
                        description: ("the field status is not a known status").spec_bytes(),
                    },
                )
            } else {
                None
            },
        };
        first_err(
            connector,
            first_err(
                error_code,
                first_err(
                    status,
                    first_err(
                        check_field(
                            f,
                            ("info").spec_bytes(),
                            false,
                            Seq::empty(),
                            ("the field info is not a string").spec_bytes(),
                        ),
                        first_err(
                            check_field(
                                f,
                                ("timestamp").spec_bytes(),
                                false,
                                Seq::empty(),
                                ("the field timestamp is not a string").spec_bytes(),
                            ),
                            first_err(
                                check_field(
                                    f,
                                    ("vendorId").spec_bytes(),
                                    false,
                                    Seq::empty(),
                                    ("the field vendorId is not a string").spec_bytes(),
                                ),
                                check_field(
                                    f,
                                    ("vendorErrorCode").spec_bytes(),
                                    false,
                                    Seq::empty(),
                                    ("the field vendorErrorCode is not a string").spec_bytes(),
                                ),
                            ),
                        ),
                    ),
                ),
            ),
        )
    }
}

/// Checks a StatusNotification payload; mirrors `validate_status`.
fn validate_status_exec(p: &JsonValue) -> (r: Option<PayloadError>)
    ensures
        match r {
            Some(e) => validate_status(p@) == Some(e@),
            None => validate_status(p@) is None,
        },
{
    proof {
        reveal(validate_status);
    }
    let fields = match p {
        JsonValue::Obj(fields) => fields,
        _ => {
            return Some(
                PayloadError {
                    code: ErrorCode::FormationViolation,
                    description: str_to_bytes("the payload is not an object"),
                },
            );
        }
    };
    match obj_get_exec(fields, "connectorId".as_bytes()) {
        None => {
            return Some(
                PayloadError {
                    code: ErrorCode::FormationViolation,
                    description: str_to_bytes("the field connectorId is missing"),
                },
            );
        }
        Some(v) => {
            match v {
                JsonValue::Int(n) => {
                    if !(0 <= *n && *n <= 4294967295) {
                        return Some(
                            PayloadError {
                                code: ErrorCode::TypeConstraintViolation,
                                description: str_to_bytes(
                                    "the field connectorId is not an unsigned 32-bit integer",
                                ),
                            },
                        );
                    }
                }
                _ => {
                    return Some(
                        PayloadError {
                            code: ErrorCode::TypeConstraintViolation,
                            description: str_to_bytes("the field connectorId is not an integer"),
                        },
                    );
                }
            }
        }
    }
    match obj_get_exec(fields, "errorCode".as_bytes()) {
        None => {
            return Some(
                PayloadError {
                    code: ErrorCode::FormationViolation,
                    description: str_to_bytes("the field errorCode is missing"),
                },
            );
        }
        Some(v) => {
            match v {
                JsonValue::Str(s) => {
                    if !is_cp_error_name_exec(s) {
                        return Some(
                            PayloadError {
                                code: ErrorCode::TypeConstraintViolation,
                                description: str_to_bytes(
                                    "the field errorCode is not a known error code",
                                ),
                            },
                        );
                    }
                }
                _ => {
                    return Some(
                        PayloadError {
                            code: ErrorCode::TypeConstraintViolation,
                            description: str_to_bytes("the field errorCode is not a string"),
                        },
                    );
                }
            }
        }
    }
    match obj_get_exec(fields, "status".as_bytes()) {
        None => {
            return Some(
                PayloadError {
                    code: ErrorCode::FormationViolation,
                    description: str_to_bytes("the field status is missing"),
                },
            );
        }
        Some(v) => {
            match v {
                JsonValue::Str(s) => {
                    if !is_status_name_exec(s) {
                        return Some(
                            PayloadError {
                                code: ErrorCode::TypeConstraintViolation,
                                description: str_to_bytes("the field status is not a known status"),
                            },
                        );
                    }
                }
                _ => {
                    return Some(
                        PayloadError {
                            code: ErrorCode::TypeConstraintViolation,
                            description: str_to_bytes("the field status is not a string"),
                        },
                    );
                }
            }
        }
    }
    if let Some(e) = check_field_exec(fields, "info", false, "", "the field info is not a string") {
        return Some(e);
    }
    if let Some(e) = check_field_exec(
        fields,
        "timestamp",
        false,
        "",
        "the field timestamp is not a string",
    ) {
        return Some(e);
    }
    if let Some(e) = check_field_exec(
        fields,
        "vendorId",
        false,
        "",
        "the field vendorId is not a string",
    ) {
        return Some(e);
    }
    if let Some(e) = check_field_exec(
        fields,
        "vendorErrorCode",
        false,
        "",
        "the field vendorErrorCode is not a string",
    ) {
        return Some(e);
    }
    None
}


/// The BootNotification response payload: the current time, a
/// 300-second heartbeat interval, and acceptance.
pub open spec fn boot_response_payload(t: int) -> JsonSpec {
    JsonSpec::Obj(
        seq![
            (("currentTime").spec_bytes(), JsonSpec::Str(rfc3339_of(t))),
            (("interval").spec_bytes(), JsonSpec::Int(300)),
            (("status").spec_bytes(), JsonSpec::Str(("Accepted").spec_bytes())),
        ],
    )
}

/// The Heartbeat response payload: the current time.
pub open spec fn heartbeat_response_payload(t: int) -> JsonSpec {
    JsonSpec::Obj(seq![(("currentTime").spec_bytes(), JsonSpec::Str(rfc3339_of(t)))])
}

/// The StatusNotification response payload: an empty object.
pub open spec fn status_response_payload() -> JsonSpec {
    JsonSpec::Obj(Seq::empty())
}

/// Handles one BootNotification: validates the payload, then accepts
/// the charge point with the current time and a 300-second interval.
pub fn on_boot_notification(payload: &JsonValue, now_secs: i64) -> (r: Result<
    JsonValue,
    PayloadError,
>)
    requires
        time_in_range(now_secs),
    ensures
        match r {
            Ok(v) => validate_boot(payload@) is None && v@ == boot_response_payload(
                now_secs as int,
            ),
            Err(e) => validate_boot(payload@) == Some(e@),
        },
{
    if let Some(e) = validate_boot_exec(payload) {
        return Err(e);
    }
    let mut fields: Vec<(Vec<u8>, JsonValue)> = Vec::new();
    fields.push((str_to_bytes("currentTime"), JsonValue::Str(format_rfc3339(now_secs))));
    fields.push((str_to_bytes("interval"), JsonValue::Int(300)));
    fields.push((str_to_bytes("status"), JsonValue::Str(str_to_bytes("Accepted"))));
    let v = JsonValue::Obj(fields);
    proof {
        lemma_member_views_of(v->Obj_0@);
        assert(member_views_of(v->Obj_0@)[0] == (v->Obj_0@[0].0@, v->Obj_0@[0].1@));
        assert(member_views_of(v->Obj_0@)[1] == (v->Obj_0@[1].0@, v->Obj_0@[1].1@));
        assert(member_views_of(v->Obj_0@)[2] == (v->Obj_0@[2].0@, v->Obj_0@[2].1@));
        assert(v@->Obj_0 =~= boot_response_payload(now_secs as int)->Obj_0);
        assert(v@ == boot_response_payload(now_secs as int));
    }
    Ok(v)
}

/// Handles one Heartbeat: validates the payload, then reports the
/// current time.
pub fn on_heartbeat(payload: &JsonValue, now_secs: i64) -> (r: Result<JsonValue, PayloadError>)
    requires
        time_in_range(now_secs),
    ensures
        match r {
            Ok(v) => validate_heartbeat(payload@) is None && v@ == heartbeat_response_payload(
                now_secs as int,
            ),
            Err(e) => validate_heartbeat(payload@) == Some(e@),
        },
{
    if let Some(e) = validate_heartbeat_exec(payload) {
        return Err(e);
    }
    let mut fields: Vec<(Vec<u8>, JsonValue)> = Vec::new();
    fields.push((str_to_bytes("currentTime"), JsonValue::Str(format_rfc3339(now_secs))));
    let v = JsonValue::Obj(fields);
    proof {
        lemma_member_views_of(v->Obj_0@);
        assert(member_views_of(v->Obj_0@)[0] == (v->Obj_0@[0].0@, v->Obj_0@[0].1@));
        assert(v@->Obj_0 =~= heartbeat_response_payload(now_secs as int)->Obj_0);
        assert(v@ == heartbeat_response_payload(now_secs as int));
    }
    Ok(v)
}

/// Handles one StatusNotification: validates the payload, then
/// acknowledges with an empty object.
pub fn on_status_notification(payload: &JsonValue) -> (r: Result<JsonValue, PayloadError>)
    ensures
        match r {
            Ok(v) => validate_status(payload@) is None && v@ == status_response_payload(),
            Err(e) => validate_status(payload@) == Some(e@),
        },
{
    if let Some(e) = validate_status_exec(payload) {
        return Err(e);
    }
    let v = JsonValue::Obj(Vec::new());
    proof {
        assert(v@->Obj_0 =~= status_response_payload()->Obj_0);
        assert(v@ == status_response_payload());
    }
    Ok(v)
}

/// What one handler yields on a payload at one time.
pub open spec fn handler_spec(k: ActionKind, p: JsonSpec, t: int) -> Result<
    JsonSpec,
    PayloadErrorSpec,
> {
    match k {
        ActionKind::BootNotification => match validate_boot(p) {
            None => Ok(boot_response_payload(t)),
            Some(e) => Err(e),
        },
        ActionKind::Heartbeat => match validate_heartbeat(p) {
            None => Ok(heartbeat_response_payload(t)),
            Some(e) => Err(e),
        },
        ActionKind::StatusNotification => match validate_status(p) {
            None => Ok(status_response_payload()),
            Some(e) => Err(e),
        },
    }
}

/// Why a request was not answered with a result.
pub enum HandlerError {
    UnknownAction,
    Payload(PayloadError),
}

/// The model of a request failure.
pub enum HandlerErrorSpec {
    UnknownAction,
    Payload(PayloadErrorSpec),
}

impl View for HandlerError {
    type V = HandlerErrorSpec;

    open spec fn view(&self) -> HandlerErrorSpec {
        match self {
            HandlerError::UnknownAction => HandlerErrorSpec::UnknownAction,
            HandlerError::Payload(e) => HandlerErrorSpec::Payload(e@),
        }
    }
}

/// What handling a named request yields: the handler's response for
/// the three known actions, `UnknownAction` for every other name.
pub open spec fn handle_request_spec(a: Seq<u8>, p: JsonSpec, t: int) -> Result<
    JsonSpec,
    HandlerErrorSpec,
> {
    if a == kind_name(ActionKind::BootNotification) {
        match handler_spec(ActionKind::BootNotification, p, t) {
            Ok(v) => Ok(v),
            Err(e) => Err(HandlerErrorSpec::Payload(e)),
        }
    } else if a == kind_name(ActionKind::Heartbeat) {
        match handler_spec(ActionKind::Heartbeat, p, t) {
            Ok(v) => Ok(v),
            Err(e) => Err(HandlerErrorSpec::Payload(e)),
        }
    } else if a == kind_name(ActionKind::StatusNotification) {
        match handler_spec(ActionKind::StatusNotification, p, t) {
            Ok(v) => Ok(v),
            Err(e) => Err(HandlerErrorSpec::Payload(e)),
        }
    } else {
        Err(HandlerErrorSpec::UnknownAction)
    }
}

/// Routes one request by its action name to the built-in handler and
/// returns the handler's response payload; an unknown action or a bad
/// payload yields the typed error instead.
pub fn handle_request(action: &[u8], payload: &JsonValue, now_secs: i64) -> (r: Result<
    JsonValue,
    HandlerError,
>)
    requires
        time_in_range(now_secs),
    ensures
        match r {
            Ok(v) => handle_request_spec(action@, payload@, now_secs as int) matches Ok(p) && v@
                == p,
            Err(e) => handle_request_spec(action@, payload@, now_secs as int) matches Err(es) && e@
                == es,
        },
{
    let r = if bytes_eq(action, ActionKind::BootNotification.name_bytes().as_slice()) {
        match on_boot_notification(payload, now_secs) {
            Ok(v) => Ok(v),
            Err(e) => Err(HandlerError::Payload(e)),
        }
    } else if bytes_eq(action, ActionKind::Heartbeat.name_bytes().as_slice()) {
        match on_heartbeat(payload, now_secs) {
            Ok(v) => Ok(v),
            Err(e) => Err(HandlerError::Payload(e)),
        }
    } else if bytes_eq(action, ActionKind::StatusNotification.name_bytes().as_slice()) {
        match on_status_notification(payload) {
            Ok(v) => Ok(v),
            Err(e) => Err(HandlerError::Payload(e)),
        }
    } else {
        Err(HandlerError::UnknownAction)
    };
    r
}

/// A reply frame: what the dispatcher sends back for one Call.
pub enum OcppReply {
    Result(OcppCallResult),
    Error(OcppCallError),
}

/// The model of a reply.
pub enum ReplySpec {
    Result(CallResultSpec),
    Error(CallErrorSpec),
}

impl View for OcppReply {
    type V = ReplySpec;

    open spec fn view(&self) -> ReplySpec {
        match self {
            OcppReply::Result(m) => ReplySpec::Result(m@),
            OcppReply::Error(m) => ReplySpec::Error(m@),
        }
    }
}

/// The description a CallError for an unknown action carries.
pub open spec fn unknown_action_desc(a: Seq<u8>) -> Seq<u8> {
    ("unknown action ").spec_bytes() + a
}

/// Appends bytes to a buffer.
fn extend_bytes(dst: &mut Vec<u8>, src: &[u8])
    ensures
        final(dst)@ == old(dst)@ + src@,
{
    let mut i: usize = 0;
    while i < src.len()
        invariant
            i <= src@.len(),
            dst@ == old(dst)@ + src@.take(i as int),
        decreases src@.len() - i,
    {
        dst.push(src[i]);
        proof {
            assert(old(dst)@ + src@.take(i + 1) =~= (old(dst)@ + src@.take(i as int)).push(
                src@[i as int],
            ));
        }
        i = i + 1;
    }
    proof {
        assert(src@.take(src@.len() as int) =~= src@);
    }
}

/// What the dispatcher replies to one Call at one time, against one
/// registry: a CallResult carrying the handler's payload when the
/// action is registered and its payload valid; a CallError naming the
/// failure otherwise. The reply's uniqueId is always the Call's.
pub open spec fn dispatch_spec(entries: Seq<ActionKind>, c: CallSpec, t: int) -> ReplySpec {
    match lookup_spec(entries, c.action) {
        None => ReplySpec::Error(
            CallErrorSpec {
                unique_id: c.unique_id,
                error_code: ErrorCode::NotImplemented,
                error_description: unknown_action_desc(c.action),
                error_details: JsonSpec::Obj(Seq::empty()),
            },
        ),
        Some(k) => match handler_spec(k, c.payload, t) {
            Ok(p) => ReplySpec::Result(CallResultSpec { unique_id: c.unique_id, payload: p }),
            Err(e) => ReplySpec::Error(
                CallErrorSpec {
                    unique_id: c.unique_id,
                    error_code: e.code,
                    error_description: e.description,
                    error_details: JsonSpec::Obj(Seq::empty()),
                },
            ),
        },
    }
}

/// Dispatches one Call: looks the action up, validates and handles
/// the payload, and builds the reply frame.
pub fn handle_call(registry: &ActionRegistry, call: OcppCall, now_secs: i64) -> (r: OcppReply)
    requires
        time_in_range(now_secs),
    ensures
        r@ == dispatch_spec(registry@, call@, now_secs as int),
{
    let OcppCall { message_type_id: _, unique_id, action, payload } = call;
    match registry.lookup(action.as_slice()) {
        None => {
            let mut desc = str_to_bytes("unknown action ");
            extend_bytes(&mut desc, action.as_slice());
            OcppReply::Error(
                OcppCallError {
                    message_type_id: 4,
                    unique_id,
                    error_code: ErrorCode::NotImplemented,
                    error_description: desc,
                    error_details: JsonValue::Obj(Vec::new()),
                },
            )
        }
        Some(k) => {
            let handled: Result<JsonValue, PayloadError> = match k {
                ActionKind::BootNotification => on_boot_notification(&payload, now_secs),
                ActionKind::Heartbeat => on_heartbeat(&payload, now_secs),
                ActionKind::StatusNotification => on_status_notification(&payload),
            };
            match handled {
                Ok(p) => OcppReply::Result(
                    OcppCallResult { message_type_id: 3, unique_id, payload: p },
                ),
                Err(e) => OcppReply::Error(
                    OcppCallError {
                        message_type_id: 4,
                        unique_id,
                        error_code: e.code,
                        error_description: e.description,
                        error_details: JsonValue::Obj(Vec::new()),
                    },
                ),
            }
        }
    }
}

/// Every Call whose action is registered and whose payload its
/// handler accepts is answered with a CallResult that echoes the
/// Call's uniqueId and carries the handler's payload.
pub proof fn lemma_registered_call_yields_result(entries: Seq<ActionKind>, c: CallSpec, t: int)
    requires
        lookup_spec(entries, c.action) is Some,
        handler_spec(lookup_spec(entries, c.action)->0, c.payload, t) is Ok,
    ensures
        dispatch_spec(entries, c, t) matches ReplySpec::Result(m) && m.unique_id == c.unique_id
            && m.payload == handler_spec(lookup_spec(entries, c.action)->0, c.payload, t)->Ok_0,
{
}

/// Every Call whose action is not registered is answered with a
/// CallError carrying `NotImplemented`, the description naming the
/// action, and the Call's own uniqueId.
pub proof fn lemma_unregistered_call_yields_not_implemented(
    entries: Seq<ActionKind>,
    c: CallSpec,
    t: int,
)
    requires
        lookup_spec(entries, c.action) is None,
    ensures
        dispatch_spec(entries, c, t) matches ReplySpec::Error(m) && m.unique_id == c.unique_id
            && m.error_code == ErrorCode::NotImplemented && m.error_description
            == unknown_action_desc(c.action),
{
}

/// In the default registry an action name finds a handler exactly
/// when it is one of the three built-in names, and that handler is
/// the one the name selects.
pub proof fn lemma_default_registry_complete(a: Seq<u8>)
    ensures
        lookup_spec(
            seq![
                ActionKind::BootNotification,
                ActionKind::Heartbeat,
                ActionKind::StatusNotification,
            ],
            a,
        ) is Some <==> registered(a),
        registered(a) ==> kind_name(
            lookup_spec(
                seq![
                    ActionKind::BootNotification,
                    ActionKind::Heartbeat,
                    ActionKind::StatusNotification,
                ],
                a,
            )->0,
        ) == a,
{
    reveal_with_fuel(lookup_spec, 5);
    let entries = seq![
        ActionKind::BootNotification,
        ActionKind::Heartbeat,
        ActionKind::StatusNotification,
    ];
    assert(entries.drop_first() =~= seq![ActionKind::Heartbeat, ActionKind::StatusNotification]);
    assert(entries.drop_first().drop_first() =~= seq![ActionKind::StatusNotification]);
    assert(entries.drop_first().drop_first().drop_first() =~= Seq::<ActionKind>::empty());
}

/// Dispatching a Heartbeat twice, under distinct uniqueIds and at
/// times given in order, yields two independent CallResults: each
/// echoes its own uniqueId, and each carries the rendering of its own
/// time, the earlier time first.
#[verifier::rlimit(100)]
pub proof fn lemma_heartbeat_idempotent(
    entries: Seq<ActionKind>,
    c1: CallSpec,
    c2: CallSpec,
    t1: int,
    t2: int,
)
    requires
        entries == seq![
            ActionKind::BootNotification,
            ActionKind::Heartbeat,
            ActionKind::StatusNotification,
        ],
        c1.action == kind_name(ActionKind::Heartbeat),
        c2.action == kind_name(ActionKind::Heartbeat),
        c1.payload is Obj,
        c2.payload is Obj,
        c1.unique_id != c2.unique_id,
        t1 <= t2,
    ensures
        dispatch_spec(entries, c1, t1) matches ReplySpec::Result(m1) && m1.unique_id
            == c1.unique_id && m1.payload == heartbeat_response_payload(t1),
        dispatch_spec(entries, c2, t2) matches ReplySpec::Result(m2) && m2.unique_id
            == c2.unique_id && m2.payload == heartbeat_response_payload(t2),
        dispatch_spec(entries, c1, t1) != dispatch_spec(entries, c2, t2),
{
    reveal_with_fuel(lookup_spec, 5);
    assert(kind_name(ActionKind::BootNotification).len() == 16);
    assert(kind_name(ActionKind::Heartbeat).len() == 9);
    assert(entries.drop_first() =~= seq![ActionKind::Heartbeat, ActionKind::StatusNotification]);
    assert(lookup_spec(entries, c1.action) == Some(ActionKind::Heartbeat));
    assert(lookup_spec(entries, c2.action) == Some(ActionKind::Heartbeat));
    assert(validate_heartbeat(c1.payload) is None);
    assert(validate_heartbeat(c2.payload) is None);
    assert(handler_spec(ActionKind::Heartbeat, c1.payload, t1) == Ok::<JsonSpec, PayloadErrorSpec>(
        heartbeat_response_payload(t1),
    ));
    assert(handler_spec(ActionKind::Heartbeat, c2.payload, t2) == Ok::<JsonSpec, PayloadErrorSpec>(
        heartbeat_response_payload(t2),
    ));
}

} // verus!
