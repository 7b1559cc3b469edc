use concordium_std_derive::attr::{Attr, AttrName, AttrValue};
use concordium_std_derive::diag::DiagKind;
use concordium_std_derive::entry::{
    arg_text, check_arg_count, expected_args, init_export_name, parse_entry_point,
    receive_export_name, run_init, run_receive, schema_function_export_name,
    schema_state_export_name, ArgSpec, EntryKind, Outcome,
};

fn contract_attr(pos: u32) -> Attr {
    Attr { name: AttrName::Contract, value: AttrValue::StrLit(String::from("counter")), pos }
}

#[test]
fn parse_init_reads_contract_and_flags() {
    let attrs = vec![
        contract_attr(1),
        Attr { name: AttrName::Payable, value: AttrValue::Flag, pos: 2 },
        Attr { name: AttrName::EnableLogger, value: AttrValue::Flag, pos: 3 },
    ];
    let s = parse_entry_point(EntryKind::Init, &attrs, 0).unwrap();
    assert_eq!(s.contract, "counter");
    assert_eq!(s.receive_name, None);
    assert!(s.payable);
    assert!(s.enable_logger);
    assert!(!s.low_level);
    assert_eq!(s.parameter, None);
}

#[test]
fn parse_init_requires_contract() {
    let attrs = vec![Attr { name: AttrName::Payable, value: AttrValue::Flag, pos: 2 }];
    let err = parse_entry_point(EntryKind::Init, &attrs, 42).unwrap_err();
    assert_eq!(err.pos, 42);
    assert_eq!(err.kind, DiagKind::MissingRequired(AttrName::Contract));
}

#[test]
fn parse_receive_requires_name() {
    let attrs = vec![contract_attr(1)];
    let err = parse_entry_point(EntryKind::Receive, &attrs, 5).unwrap_err();
    assert_eq!(err.pos, 5);
    assert_eq!(err.kind, DiagKind::MissingRequired(AttrName::Name));
}

#[test]
fn parse_receive_reads_name_and_parameter() {
    let attrs = vec![
        contract_attr(1),
        Attr { name: AttrName::Name, value: AttrValue::StrLit(String::from("tick")), pos: 2 },
        Attr { name: AttrName::Parameter, value: AttrValue::StrLit(String::from("TickParam")), pos: 3 },
        Attr { name: AttrName::LowLevel, value: AttrValue::Flag, pos: 4 },
    ];
    let s = parse_entry_point(EntryKind::Receive, &attrs, 0).unwrap();
    assert_eq!(s.receive_name, Some(String::from("tick")));
    assert_eq!(s.parameter, Some(String::from("TickParam")));
    assert!(s.low_level);
}

#[test]
fn parse_rejects_contract_without_string_value() {
    let attrs = vec![Attr { name: AttrName::Contract, value: AttrValue::Flag, pos: 8 }];
    let err = parse_entry_point(EntryKind::Init, &attrs, 0).unwrap_err();
    assert_eq!(err.pos, 8);
    assert_eq!(err.kind, DiagKind::ValueMustBeString(AttrName::Contract));
}

#[test]
fn payable_init_with_one_argument_fails_listing_ctx_and_amount() {
    let attrs = vec![contract_attr(1), Attr { name: AttrName::Payable, value: AttrValue::Flag, pos: 2 }];
    let s = parse_entry_point(EntryKind::Init, &attrs, 0).unwrap();
    let expected = expected_args(EntryKind::Init, &s);
    assert_eq!(expected, vec![ArgSpec::InitCtx, ArgSpec::AmountArg]);
    // the user function declares only the context argument
    let err = check_arg_count(1, expected).unwrap_err();
    assert_eq!(err.declared, 1);
    assert_eq!(err.expected, vec![ArgSpec::InitCtx, ArgSpec::AmountArg]);
    assert_eq!(arg_text(err.expected[0]), "ctx: &impl HasInitContext");
    assert_eq!(arg_text(err.expected[1]), "amount: Amount");
}

#[test]
fn argument_lists_follow_the_flags() {
    let attrs = vec![
        contract_attr(1),
        Attr { name: AttrName::Name, value: AttrValue::StrLit(String::from("go")), pos: 2 },
        Attr { name: AttrName::Payable, value: AttrValue::Flag, pos: 3 },
        Attr { name: AttrName::EnableLogger, value: AttrValue::Flag, pos: 4 },
    ];
    let s = parse_entry_point(EntryKind::Receive, &attrs, 0).unwrap();
    assert_eq!(
        expected_args(EntryKind::Receive, &s),
        vec![ArgSpec::ReceiveCtx, ArgSpec::AmountArg, ArgSpec::LoggerArg, ArgSpec::TypedState]
    );
    // a plain init function takes the context alone
    let plain = parse_entry_point(EntryKind::Init, &vec![contract_attr(1)], 0).unwrap();
    assert_eq!(expected_args(EntryKind::Init, &plain), vec![ArgSpec::InitCtx]);
    assert!(check_arg_count(1, expected_args(EntryKind::Init, &plain)).is_ok());
}

#[test]
fn low_level_state_argument_is_raw() {
    let attrs = vec![
        contract_attr(1),
        Attr { name: AttrName::Name, value: AttrValue::StrLit(String::from("go")), pos: 2 },
        Attr { name: AttrName::LowLevel, value: AttrValue::Flag, pos: 3 },
    ];
    let s = parse_entry_point(EntryKind::Receive, &attrs, 0).unwrap();
    assert_eq!(expected_args(EntryKind::Receive, &s), vec![ArgSpec::ReceiveCtx, ArgSpec::RawState]);
    assert_eq!(arg_text(ArgSpec::RawState), "state: &mut ContractState");
}

#[test]
fn export_names_follow_the_convention() {
    assert_eq!(init_export_name("crowdfund"), "init_crowdfund");
    assert_eq!(receive_export_name("crowdfund", "donate"), "crowdfund.donate");
    assert_eq!(
        schema_function_export_name("crowdfund.donate"),
        "concordium_schema_function_crowdfund.donate"
    );
    assert_eq!(schema_state_export_name("crowdfund"), "concordium_schema_state_crowdfund");
}

#[test]
fn non_payable_receive_rejects_nonzero_amount_without_user_call() {
    let r = run_receive(false, false, 17, true, true, 3, true);
    assert_eq!(r.outcome, Outcome::Returned(-1));
    assert!(!r.user_invoked);
    // a zero amount is let through to the user function
    let r = run_receive(false, false, 0, true, true, 3, true);
    assert!(r.user_invoked);
    assert_eq!(r.outcome, Outcome::Returned(3));
}

#[test]
fn payable_receive_passes_the_amount_through() {
    let r = run_receive(true, false, 17, true, true, 5, true);
    assert!(r.user_invoked);
    assert_eq!(r.outcome, Outcome::Returned(5));
}

#[test]
fn receive_aborts_when_state_cannot_be_read() {
    let r = run_receive(false, false, 0, false, true, 3, true);
    assert_eq!(r.outcome, Outcome::Aborted);
    assert!(!r.user_invoked);
    // low level skips state materialization entirely
    let r = run_receive(false, true, 0, false, true, 3, true);
    assert!(r.user_invoked);
    assert_eq!(r.outcome, Outcome::Returned(3));
}

#[test]
fn receive_aborts_when_state_cannot_be_written_back() {
    let r = run_receive(false, false, 0, true, true, 3, false);
    assert_eq!(r.outcome, Outcome::Aborted);
    assert!(r.user_invoked);
}

#[test]
fn receive_user_failure_is_recoverable() {
    let r = run_receive(false, false, 0, true, false, 3, true);
    assert_eq!(r.outcome, Outcome::Returned(-1));
    assert!(r.user_invoked);
}

#[test]
fn init_statuses() {
    // success with serialized state
    let r = run_init(false, false, 0, true, true);
    assert_eq!(r.outcome, Outcome::Returned(0));
    assert!(r.user_invoked);
    // user failure is -1
    let r = run_init(false, false, 0, false, true);
    assert_eq!(r.outcome, Outcome::Returned(-1));
    // unserializable state aborts rather than return
    let r = run_init(false, false, 0, true, false);
    assert_eq!(r.outcome, Outcome::Aborted);
    // low level never serializes
    let r = run_init(false, true, 0, true, false);
    assert_eq!(r.outcome, Outcome::Returned(0));
    // the amount gate comes first
    let r = run_init(false, false, 9, true, true);
    assert_eq!(r.outcome, Outcome::Returned(-1));
    assert!(!r.user_invoked);
}
