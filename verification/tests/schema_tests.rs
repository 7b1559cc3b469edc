use concordium_std_derive::bytes::Width;
use concordium_std_derive::codec::Ty;
use concordium_std_derive::schema::{schema_of_shape, schema_of_ty, SchemaFields, SchemaTy};
use concordium_std_derive::shape::{Field, FieldsShape, TypeShape, Variant};

#[test]
fn leaf_schemas_carry_the_plan_widths() {
    assert_eq!(schema_of_ty(&Ty::Scalar(Width::W4)), SchemaTy::Unsigned(Width::W4));
    assert_eq!(
        schema_of_ty(&Ty::ListOf(Width::W1, Box::new(Ty::Scalar(Width::W2)))),
        SchemaTy::ListOf(Width::W1, Box::new(SchemaTy::Unsigned(Width::W2)))
    );
    assert_eq!(
        schema_of_ty(&Ty::MapOf {
            count: Width::W2,
            ensure_ordered: true,
            key: Width::W1,
            value: Box::new(Ty::Utf8(Width::W1)),
        }),
        SchemaTy::MapOf(
            Width::W2,
            Box::new(SchemaTy::Unsigned(Width::W1)),
            Box::new(SchemaTy::TextOf(Width::W1))
        )
    );
    assert_eq!(
        schema_of_ty(&Ty::SetOf { count: Width::W8, ensure_ordered: false, elem: Width::W4 }),
        SchemaTy::SetOf(Width::W8, Box::new(SchemaTy::Unsigned(Width::W4)))
    );
}

#[test]
fn struct_schema_keeps_names_and_order() {
    let shape = TypeShape::StructShape(FieldsShape::Named(vec![
        Field { name: String::from("total"), ty: Ty::Scalar(Width::W8) },
        Field { name: String::from("note"), ty: Ty::Utf8(Width::W2) },
    ]));
    let s = schema_of_shape(&shape);
    assert_eq!(
        s,
        SchemaTy::StructOf(SchemaFields::Named(vec![
            (String::from("total"), SchemaTy::Unsigned(Width::W8)),
            (String::from("note"), SchemaTy::TextOf(Width::W2)),
        ]))
    );
}

#[test]
fn unnamed_and_unit_fields_keep_their_form() {
    let shape = TypeShape::StructShape(FieldsShape::Unnamed(vec![Ty::Scalar(Width::W1)]));
    assert_eq!(
        schema_of_shape(&shape),
        SchemaTy::StructOf(SchemaFields::Unnamed(vec![SchemaTy::Unsigned(Width::W1)]))
    );
    let unit = TypeShape::StructShape(FieldsShape::Unit);
    assert_eq!(schema_of_shape(&unit), SchemaTy::StructOf(SchemaFields::Empty));
}

#[test]
fn enum_schema_keeps_variant_names_in_order() {
    let shape = TypeShape::EnumShape(vec![
        Variant { name: String::from("Go"), fields: FieldsShape::Unit },
        Variant {
            name: String::from("Stop"),
            fields: FieldsShape::Named(vec![Field {
                name: String::from("why"),
                ty: Ty::Utf8(Width::W1),
            }]),
        },
    ]);
    assert_eq!(
        schema_of_shape(&shape),
        SchemaTy::EnumOf(vec![
            (String::from("Go"), SchemaFields::Empty),
            (
                String::from("Stop"),
                SchemaFields::Named(vec![(String::from("why"), SchemaTy::TextOf(Width::W1))])
            ),
        ])
    );
}
