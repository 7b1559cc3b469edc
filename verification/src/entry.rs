//! Entry-point generation: validating an entry point's annotations into an
//! option set, deriving the export names and the required user-function
//! argument list, and the wrapper's runtime state machine with its status
//! code contract: 0 for success, -1 for a recoverable rejection, and an
//! abort, never a status, for an unrecoverable fault.

use vstd::prelude::*;

use crate::attr::{
    contains_attribute, get_attribute_value, spec_contains, spec_lookup, Attr, AttrName, AttrValue,
};
use crate::diag::{DiagKind, Diagnostic};

verus! {

/// Which entry point is being generated.
#[derive(Clone, Copy, PartialEq, Eq, Structural, Debug)]
pub enum EntryKind {
    /// An initialization entry point, exported as `init_<contract>`.
    Init,
    /// A receive entry point, exported as `<contract>.<name>`.
    Receive,
}

/// A validated entry-point option set.
#[derive(PartialEq, Eq, Debug)]
pub struct EntryPointSpec {
    /// The contract the entry point belongs to.
    pub contract: String,
    /// The receive entry point's own name; absent for initialization.
    pub receive_name: Option<String>,
    /// Whether the call's amount becomes a user-function argument instead of
    /// being gated to zero.
    pub payable: bool,
    /// Whether a logger is set up and passed to the user function.
    pub enable_logger: bool,
    /// Whether the raw state handle is passed through unparsed.
    pub low_level: bool,
    /// A parameter type name whose schema is exported alongside, if any.
    pub parameter: Option<String>,
}

/// Validate an entry point's annotations.
///
/// The contract name is required, and so is the receive name for a receive
/// entry point; each must be a string literal. The three flags are read by
/// presence. A missing required option is reported at the annotation list's
/// own position.
pub fn parse_entry_point(kind: EntryKind, attrs: &Vec<Attr>, site_pos: u32) -> (r: Result<
    EntryPointSpec,
    Diagnostic,
>)
    ensures
        r matches Ok(s) ==> {
            &&& spec_lookup(attrs@, AttrName::Contract) matches Some(a) && a.value matches
                AttrValue::StrLit(c) && s.contract@ == c@
            &&& kind == EntryKind::Receive ==> (spec_lookup(attrs@, AttrName::Name) matches Some(
                a,
            ) && a.value matches AttrValue::StrLit(n) && s.receive_name matches Some(m) && m@
                == n@)
            &&& kind == EntryKind::Init ==> s.receive_name is None
            &&& s.payable == spec_contains(attrs@, AttrName::Payable)
            &&& s.enable_logger == spec_contains(attrs@, AttrName::EnableLogger)
            &&& s.low_level == spec_contains(attrs@, AttrName::LowLevel)
            &&& match spec_lookup(attrs@, AttrName::Parameter) {
                Option::None => s.parameter is None,
                Option::Some(a) => a.value matches AttrValue::StrLit(p) && (s.parameter matches
                    Some(q) && q@ == p@),
            }
        },
        r matches Err(d) ==> {
            ||| (spec_lookup(attrs@, AttrName::Contract) matches Some(a) && !(a.value is StrLit)
                && d == Diagnostic {
                pos: a.pos,
                kind: DiagKind::ValueMustBeString(AttrName::Contract),
            })
            ||| (spec_lookup(attrs@, AttrName::Contract) is None && d == Diagnostic {
                pos: site_pos,
                kind: DiagKind::MissingRequired(AttrName::Contract),
            })
            ||| (kind == EntryKind::Receive && (spec_lookup(attrs@, AttrName::Name) matches Some(
                a,
            ) && !(a.value is StrLit) && d == Diagnostic {
                pos: a.pos,
                kind: DiagKind::ValueMustBeString(AttrName::Name),
            }))
            ||| (kind == EntryKind::Receive && spec_lookup(attrs@, AttrName::Name) is None && d
                == Diagnostic { pos: site_pos, kind: DiagKind::MissingRequired(AttrName::Name) })
            ||| (spec_lookup(attrs@, AttrName::Parameter) matches Some(a) && !(a.value is StrLit)
                && d == Diagnostic {
                pos: a.pos,
                kind: DiagKind::ValueMustBeString(AttrName::Parameter),
            })
        },
{
    let contract = match get_attribute_value(attrs, AttrName::Contract) {
        Err(d) => {
            return Err(d);
        },
        Ok(o) => match o {
            Some(c) => c,
            None => {
                return Err(
                    Diagnostic { pos: site_pos, kind: DiagKind::MissingRequired(AttrName::Contract) },
                );
            },
        },
    };
    let receive_name = match kind {
        EntryKind::Init => None,
        EntryKind::Receive => match get_attribute_value(attrs, AttrName::Name) {
            Err(d) => {
                return Err(d);
            },
            Ok(o) => match o {
                Some(n) => Some(n),
                None => {
                    return Err(
                        Diagnostic { pos: site_pos, kind: DiagKind::MissingRequired(AttrName::Name) },
                    );
                },
            },
        },
    };
    let parameter = match get_attribute_value(attrs, AttrName::Parameter) {
        Err(d) => {
            return Err(d);
        },
        Ok(o) => o,
    };
    Ok(
        EntryPointSpec {
            contract,
            receive_name,
            payable: contains_attribute(attrs, AttrName::Payable),
            enable_logger: contains_attribute(attrs, AttrName::EnableLogger),
            low_level: contains_attribute(attrs, AttrName::LowLevel),
            parameter,
        },
    )
}

/// One required user-function argument, by role.
#[derive(Clone, Copy, PartialEq, Eq, Structural, Debug)]
pub enum ArgSpec {
    /// The initialization context, always first.
    InitCtx,
    /// The receive context, always first.
    ReceiveCtx,
    /// The call's amount, present exactly when payable.
    AmountArg,
    /// The logger, present exactly when logging is enabled.
    LoggerArg,
    /// The raw byte-addressable state handle, last.
    RawState,
    /// The contract's own deserialized state type, last.
    TypedState,
}

/// The signature text an argument is described with in diagnostics.
pub fn arg_text(a: ArgSpec) -> (r: &'static str)
    ensures
        a == ArgSpec::InitCtx ==> r@ == "ctx: &impl HasInitContext"@,
        a == ArgSpec::ReceiveCtx ==> r@ == "ctx: &impl HasReceiveContext"@,
        a == ArgSpec::AmountArg ==> r@ == "amount: Amount"@,
        a == ArgSpec::LoggerArg ==> r@ == "logger: &mut impl HasLogger"@,
        a == ArgSpec::RawState ==> r@ == "state: &mut ContractState"@,
        a == ArgSpec::TypedState ==> r@ == "state: &mut MyState"@,
{
    match a {
        ArgSpec::InitCtx => "ctx: &impl HasInitContext",
        ArgSpec::ReceiveCtx => "ctx: &impl HasReceiveContext",
        ArgSpec::AmountArg => "amount: Amount",
        ArgSpec::LoggerArg => "logger: &mut impl HasLogger",
        ArgSpec::RawState => "state: &mut ContractState",
        ArgSpec::TypedState => "state: &mut MyState",
    }
}

/// The argument list the option set requires of the user function: the
/// context first, then the amount when payable, then the logger when
/// enabled; an initialization function takes a state argument only in
/// low-level mode, a receive function always takes one, raw or typed.
pub open spec fn spec_expected_args(
    kind: EntryKind,
    payable: bool,
    enable_logger: bool,
    low_level: bool,
) -> Seq<ArgSpec> {
    (match kind {
        EntryKind::Init => seq![ArgSpec::InitCtx],
        EntryKind::Receive => seq![ArgSpec::ReceiveCtx],
    }) + (if payable {
        seq![ArgSpec::AmountArg]
    } else {
        Seq::empty()
    }) + (if enable_logger {
        seq![ArgSpec::LoggerArg]
    } else {
        Seq::empty()
    }) + (match kind {
        EntryKind::Init => if low_level {
            seq![ArgSpec::RawState]
        } else {
            Seq::empty()
        },
        EntryKind::Receive => if low_level {
            seq![ArgSpec::RawState]
        } else {
            seq![ArgSpec::TypedState]
        },
    })
}

/// Build the required argument list for an option set.
pub fn expected_args(kind: EntryKind, s: &EntryPointSpec) -> (r: Vec<ArgSpec>)
    ensures
        r@ == spec_expected_args(kind, s.payable, s.enable_logger, s.low_level),
{
    let mut r: Vec<ArgSpec> = Vec::new();
    match kind {
        EntryKind::Init => r.push(ArgSpec::InitCtx),
        EntryKind::Receive => r.push(ArgSpec::ReceiveCtx),
    }
    if s.payable {
        r.push(ArgSpec::AmountArg);
    }
    if s.enable_logger {
        r.push(ArgSpec::LoggerArg);
    }
    match kind {
        EntryKind::Init => {
            if s.low_level {
                r.push(ArgSpec::RawState);
            }
        },
        EntryKind::Receive => {
            if s.low_level {
                r.push(ArgSpec::RawState);
            } else {
                r.push(ArgSpec::TypedState);
            }
        },
    }
    proof {
        assert(r@ =~= spec_expected_args(kind, s.payable, s.enable_logger, s.low_level));
    }
    r
}

/// A declared argument count differing from the required list.
#[derive(PartialEq, Eq, Debug)]
pub struct ArgCountError {
    /// The arguments the option set requires, in order; a diagnostic
    /// enumerates them.
    pub expected: Vec<ArgSpec>,
    /// How many arguments the user function declares.
    pub declared: usize,
}

/// Check the user function's declared argument count against the required
/// list; generation fails unless they agree exactly.
pub fn check_arg_count(declared: usize, expected: Vec<ArgSpec>) -> (r: Result<(), ArgCountError>)
    ensures
        r is Ok <==> declared == expected@.len(),
        r matches Err(e) ==> e.expected@ == expected@ && e.declared == declared,
{
    if declared == expected.len() {
        Ok(())
    } else {
        Err(ArgCountError { expected, declared })
    }
}

/// The export name of an initialization entry point.
pub fn init_export_name(contract: &str) -> (r: String)
    ensures
        r@ == "init_"@ + contract@,
{
    String::from_str("init_").concat(contract)
}

/// The export name of a receive entry point.
pub fn receive_export_name(contract: &str, name: &str) -> (r: String)
    ensures
        r@ == contract@ + "."@ + name@,
{
    String::from_str(contract).concat(".").concat(name)
}

/// The export name of a generated function-parameter schema.
pub fn schema_function_export_name(wasm_name: &str) -> (r: String)
    ensures
        r@ == "concordium_schema_function_"@ + wasm_name@,
{
    String::from_str("concordium_schema_function_").concat(wasm_name)
}

/// The export name of a generated state schema.
pub fn schema_state_export_name(contract: &str) -> (r: String)
    ensures
        r@ == "concordium_schema_state_"@ + contract@,
{
    String::from_str("concordium_schema_state_").concat(contract)
}

/// How one external call of a generated wrapper ends: with a status code,
/// or aborted with no status at all.
#[derive(Clone, Copy, PartialEq, Eq, Structural, Debug)]
pub enum Outcome {
    /// The wrapper returned this status: 0 for success, -1 for a
    /// recoverable rejection, or an action's own tag.
    Returned(i32),
    /// The wrapper aborted execution: an unrecoverable fault, with no
    /// status observable.
    Aborted,
}

/// What one wrapper call did: how it ended, and whether the user function
/// was reached at all.
#[derive(Clone, Copy, PartialEq, Eq, Structural, Debug)]
pub struct WrapperRun {
    /// How the call ended.
    pub outcome: Outcome,
    /// Whether the user function was invoked.
    pub user_invoked: bool,
}

/// The initialization wrapper's decisions for one call, over what the host
/// and the user function did: the amount gate first, then dispatch on the
/// user result, then state serialization unless low-level.
///
/// A non-payable entry point rejects any non-zero amount with -1 before the
/// user function runs. A user failure is the recoverable -1. A state value
/// that cannot be serialized is an unrecoverable fault: the call aborts
/// rather than report a status.
pub fn run_init(
    payable: bool,
    low_level: bool,
    amount: u64,
    user_ok: bool,
    serialize_ok: bool,
) -> (r: WrapperRun)
    ensures
        !payable && amount != 0 ==> r == (WrapperRun {
            outcome: Outcome::Returned(-1i32),
            user_invoked: false,
        }),
        payable || amount == 0 ==> r.user_invoked,
        (payable || amount == 0) && !user_ok ==> r.outcome == Outcome::Returned(-1i32),
        (payable || amount == 0) && user_ok && low_level ==> r.outcome == Outcome::Returned(0),
        (payable || amount == 0) && user_ok && !low_level && serialize_ok ==> r.outcome
            == Outcome::Returned(0),
        (payable || amount == 0) && user_ok && !low_level && !serialize_ok ==> r.outcome
            == Outcome::Aborted,
{
    if !payable && amount != 0 {
        return WrapperRun { outcome: Outcome::Returned(-1i32), user_invoked: false };
    }
    if !user_ok {
        return WrapperRun { outcome: Outcome::Returned(-1i32), user_invoked: true };
    }
    if low_level || serialize_ok {
        WrapperRun { outcome: Outcome::Returned(0), user_invoked: true }
    } else {
        WrapperRun { outcome: Outcome::Aborted, user_invoked: true }
    }
}

/// The receive wrapper's decisions for one call: the amount gate first,
/// then state materialization unless low-level, then dispatch on the user
/// result, then seek-and-reserialize.
///
/// A non-payable entry point rejects any non-zero amount with -1 before
/// anything else. Existing state that cannot be parsed, and a new state
/// that cannot be written back, are unrecoverable faults: the call aborts.
/// On success the returned status is the action's own tag.
pub fn run_receive(
    payable: bool,
    low_level: bool,
    amount: u64,
    state_parse_ok: bool,
    user_ok: bool,
    action_tag: u32,
    reserialize_ok: bool,
) -> (r: WrapperRun)
    ensures
        !payable && amount != 0 ==> r == (WrapperRun {
            outcome: Outcome::Returned(-1i32),
            user_invoked: false,
        }),
        (payable || amount == 0) && !low_level && !state_parse_ok ==> r == (WrapperRun {
            outcome: Outcome::Aborted,
            user_invoked: false,
        }),
        (payable || amount == 0) && (low_level || state_parse_ok) ==> r.user_invoked,
        (payable || amount == 0) && (low_level || state_parse_ok) && !user_ok ==> r.outcome
            == Outcome::Returned(-1i32),
        (payable || amount == 0) && low_level && user_ok ==> r.outcome == Outcome::Returned(
            action_tag as i32,
        ),
        (payable || amount == 0) && !low_level && state_parse_ok && user_ok && reserialize_ok
            ==> r.outcome == Outcome::Returned(action_tag as i32),
        (payable || amount == 0) && !low_level && state_parse_ok && user_ok && !reserialize_ok
            ==> r.outcome == Outcome::Aborted,
{
    if !payable && amount != 0 {
        return WrapperRun { outcome: Outcome::Returned(-1i32), user_invoked: false };
    }
    if !low_level && !state_parse_ok {
        return WrapperRun { outcome: Outcome::Aborted, user_invoked: false };
    }
    if !user_ok {
        return WrapperRun { outcome: Outcome::Returned(-1i32), user_invoked: true };
    }
    if low_level || reserialize_ok {
        WrapperRun { outcome: Outcome::Returned(action_tag as i32), user_invoked: true }
    } else {
        WrapperRun { outcome: Outcome::Aborted, user_invoked: true }
    }
}

} // verus!
