use concordium_std_derive::attr::{
    contains_attribute, find_field_attribute_value, find_length_attribute, get_attribute_value,
    get_concordium_field_attributes, resolve_field_strategy, Attr, AttrName, AttrValue, FieldAnnot,
    LengthKind, LitShape, OrderPolicy, Strategy,
};
use concordium_std_derive::bytes::Width;
use concordium_std_derive::diag::{attach_error, DiagKind, Diagnostic};

fn entry(name: AttrName, value: AttrValue, pos: u32) -> FieldAnnot {
    FieldAnnot::Entry(Attr { name, value, pos })
}

#[test]
fn attribute_value_lookup_distinguishes_absent_from_malformed() {
    let attrs = vec![
        Attr { name: AttrName::Payable, value: AttrValue::Flag, pos: 1 },
        Attr { name: AttrName::Contract, value: AttrValue::StrLit(String::from("crowdfund")), pos: 2 },
    ];
    assert_eq!(get_attribute_value(&attrs, AttrName::Contract).unwrap(), Some(String::from("crowdfund")));
    // absent: Ok(None), not an error
    assert_eq!(get_attribute_value(&attrs, AttrName::Name).unwrap(), None);
    // present without a string literal value: an error at that occurrence
    let err = get_attribute_value(&attrs, AttrName::Payable).unwrap_err();
    assert_eq!(err.pos, 1);
    assert_eq!(err.kind, DiagKind::ValueMustBeString(AttrName::Payable));
}

#[test]
fn attribute_lookup_is_first_occurrence_wins() {
    let attrs = vec![
        Attr { name: AttrName::Contract, value: AttrValue::StrLit(String::from("first")), pos: 1 },
        Attr { name: AttrName::Contract, value: AttrValue::StrLit(String::from("second")), pos: 2 },
    ];
    assert_eq!(get_attribute_value(&attrs, AttrName::Contract).unwrap(), Some(String::from("first")));
}

#[test]
fn non_string_literal_value_is_an_error() {
    let attrs = vec![Attr { name: AttrName::Contract, value: AttrValue::IntLit(3), pos: 9 }];
    let err = get_attribute_value(&attrs, AttrName::Contract).unwrap_err();
    assert_eq!(err.kind, DiagKind::ValueMustBeString(AttrName::Contract));
    assert_eq!(err.pos, 9);
}

#[test]
fn contains_attribute_sees_any_form() {
    let attrs = vec![
        Attr { name: AttrName::LowLevel, value: AttrValue::Flag, pos: 1 },
        Attr { name: AttrName::Contract, value: AttrValue::StrLit(String::from("c")), pos: 2 },
    ];
    assert!(contains_attribute(&attrs, AttrName::LowLevel));
    assert!(contains_attribute(&attrs, AttrName::Contract));
    assert!(!contains_attribute(&attrs, AttrName::Payable));
}

#[test]
fn unknown_field_attributes_are_all_reported() {
    let annots = vec![
        entry(AttrName::Unknown, AttrValue::IntLit(1), 1),
        entry(AttrName::SizeLength, AttrValue::IntLit(2), 2),
        FieldAnnot::BareLiteral(3),
    ];
    let errs = get_concordium_field_attributes(&annots).unwrap_err();
    assert_eq!(errs.len(), 2);
    assert_eq!(errs[0].pos, 1);
    assert_eq!(errs[0].kind, DiagKind::UnsupportedFieldAttribute);
    assert_eq!(errs[1].pos, 3);
    assert_eq!(errs[1].kind, DiagKind::LiteralFieldAttribute);
}

#[test]
fn valid_field_attributes_come_back_stripped() {
    let annots = vec![
        entry(AttrName::SizeLength, AttrValue::IntLit(2), 4),
        entry(AttrName::EnsureOrdered, AttrValue::Flag, 5),
    ];
    let entries = get_concordium_field_attributes(&annots).unwrap();
    assert_eq!(entries.len(), 2);
    assert_eq!(entries[0].name, AttrName::SizeLength);
    assert_eq!(entries[0].lit, LitShape::IntVal(2));
    assert_eq!(entries[1].name, AttrName::EnsureOrdered);
    assert_eq!(entries[1].lit, LitShape::NoLit);
}

#[test]
fn duplicate_length_attribute_is_one_combined_error_naming_both() {
    let annots = vec![
        entry(AttrName::SizeLength, AttrValue::IntLit(2), 10),
        entry(AttrName::SizeLength, AttrValue::IntLit(4), 20),
    ];
    let errs = find_field_attribute_value(&annots, AttrName::SizeLength).unwrap_err();
    assert_eq!(errs.len(), 2);
    assert_eq!(errs[0].pos, 10);
    assert_eq!(errs[0].kind, DiagKind::DuplicateAttribute(AttrName::SizeLength));
    assert_eq!(errs[1].pos, 20);
    assert_eq!(errs[1].kind, DiagKind::DuplicateAttribute(AttrName::SizeLength));
}

#[test]
fn length_value_three_is_rejected_and_four_accepted() {
    let bad = vec![entry(AttrName::SizeLength, AttrValue::IntLit(3), 1)];
    let errs = find_length_attribute(&bad, AttrName::SizeLength).unwrap_err();
    assert_eq!(errs.len(), 1);
    assert_eq!(errs[0].kind, DiagKind::LengthOutOfRange);
    let good = vec![entry(AttrName::SizeLength, AttrValue::IntLit(4), 1)];
    assert_eq!(find_length_attribute(&good, AttrName::SizeLength).unwrap(), Some(4));
    let absent: Vec<FieldAnnot> = vec![];
    assert_eq!(find_length_attribute(&absent, AttrName::SizeLength).unwrap(), None);
}

#[test]
fn length_value_must_be_a_readable_integer() {
    let text = vec![entry(AttrName::SizeLength, AttrValue::StrLit(String::from("2")), 1)];
    let errs = find_length_attribute(&text, AttrName::SizeLength).unwrap_err();
    assert_eq!(errs[0].kind, DiagKind::LengthNotInteger);
    let huge = vec![entry(AttrName::SizeLength, AttrValue::IntLit(0x1_0000_0000), 2)];
    let errs = find_length_attribute(&huge, AttrName::SizeLength).unwrap_err();
    assert_eq!(errs[0].kind, DiagKind::LengthNotBase10);
}

#[test]
fn attach_error_chains_context_at_the_first_failure() {
    let failed: Result<u32, Vec<Diagnostic>> = Err(vec![Diagnostic {
        pos: 6,
        kind: DiagKind::LengthOutOfRange,
    }]);
    let chained = attach_error(failed, DiagKind::AppliedToNonFunction).unwrap_err();
    assert_eq!(chained.len(), 2);
    assert_eq!(chained[1].pos, 6);
    assert_eq!(chained[1].kind, DiagKind::AppliedToNonFunction);
    let fine: Result<u32, Vec<Diagnostic>> = Ok(11);
    assert_eq!(attach_error(fine, DiagKind::AppliedToNonFunction).unwrap(), 11);
}

#[test]
fn strategy_defaults_to_delegate() {
    let annots: Vec<FieldAnnot> = vec![];
    assert_eq!(resolve_field_strategy(&annots).unwrap(), Strategy::Delegate);
}

#[test]
fn strategy_size_length_wins_priority() {
    let annots = vec![
        entry(AttrName::MapSizeLength, AttrValue::IntLit(1), 1),
        entry(AttrName::SizeLength, AttrValue::IntLit(2), 2),
    ];
    assert_eq!(
        resolve_field_strategy(&annots).unwrap(),
        Strategy::LengthPrefixed {
            width: Width::W2,
            kind: LengthKind::Sequence,
            policy: OrderPolicy::Unchecked,
        }
    );
}

#[test]
fn strategy_map_with_ensure_ordered() {
    let annots = vec![
        entry(AttrName::MapSizeLength, AttrValue::IntLit(1), 1),
        entry(AttrName::EnsureOrdered, AttrValue::Flag, 2),
    ];
    assert_eq!(
        resolve_field_strategy(&annots).unwrap(),
        Strategy::LengthPrefixed {
            width: Width::W1,
            kind: LengthKind::MapEntries,
            policy: OrderPolicy::StrictlyIncreasing,
        }
    );
}

#[test]
fn strategy_set_without_flag_is_unique() {
    let annots = vec![entry(AttrName::SetSizeLength, AttrValue::IntLit(8), 1)];
    assert_eq!(
        resolve_field_strategy(&annots).unwrap(),
        Strategy::LengthPrefixed {
            width: Width::W8,
            kind: LengthKind::SetElements,
            policy: OrderPolicy::Unique,
        }
    );
}

#[test]
fn strategy_string_size_length() {
    let annots = vec![entry(AttrName::StringSizeLength, AttrValue::IntLit(4), 1)];
    assert_eq!(
        resolve_field_strategy(&annots).unwrap(),
        Strategy::LengthPrefixed {
            width: Width::W4,
            kind: LengthKind::Utf8String,
            policy: OrderPolicy::Unchecked,
        }
    );
}

#[test]
fn strategy_propagates_validation_errors() {
    let annots = vec![entry(AttrName::Unknown, AttrValue::Flag, 3)];
    let errs = resolve_field_strategy(&annots).unwrap_err();
    assert_eq!(errs.len(), 1);
    assert_eq!(errs[0].kind, DiagKind::UnsupportedFieldAttribute);
}
