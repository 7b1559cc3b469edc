use concordium_std_derive::bytes::Width;
use concordium_std_derive::codec::{Ty, Val};
use concordium_std_derive::diag::DiagKind;
use concordium_std_derive::shape::{
    decode_shape, encode_shape, tag_width, Field, FieldsShape, ShapeVal, TypeShape, Variant,
};

fn round_trip_shape(shape: &TypeShape, sv: ShapeVal) {
    let bytes = encode_shape(shape, &sv).expect("value should encode");
    let (back, used) = decode_shape(shape, &bytes, 0).expect("encoding should decode");
    assert_eq!(used, bytes.len());
    assert_eq!(back, sv);
}

fn unit_variants(n: usize) -> Vec<Variant> {
    (0..n).map(|i| Variant { name: format!("V{}", i), fields: FieldsShape::Unit }).collect()
}

#[test]
fn named_struct_round_trip() {
    let shape = TypeShape::StructShape(FieldsShape::Named(vec![
        Field { name: String::from("count"), ty: Ty::Scalar(Width::W4) },
        Field { name: String::from("items"), ty: Ty::ListOf(Width::W1, Box::new(Ty::Scalar(Width::W2))) },
        Field { name: String::from("label"), ty: Ty::Utf8(Width::W1) },
    ]));
    let sv = ShapeVal::OfStruct(vec![
        Val::Num(77),
        Val::Items(vec![Val::Num(300), Val::Num(4)]),
        Val::Text(b"ok".to_vec()),
    ]);
    round_trip_shape(&shape, sv);
}

#[test]
fn unnamed_struct_round_trip_and_field_order() {
    let shape = TypeShape::StructShape(FieldsShape::Unnamed(vec![
        Ty::Scalar(Width::W1),
        Ty::Scalar(Width::W2),
    ]));
    let sv = ShapeVal::OfStruct(vec![Val::Num(9), Val::Num(0x0102)]);
    let bytes = encode_shape(&shape, &sv).unwrap();
    // fields in declaration order, no structural tag
    assert_eq!(bytes, vec![9, 2, 1]);
    round_trip_shape(&shape, sv);
}

#[test]
fn unit_struct_encodes_to_nothing() {
    let shape = TypeShape::StructShape(FieldsShape::Unit);
    let sv = ShapeVal::OfStruct(vec![]);
    let bytes = encode_shape(&shape, &sv).unwrap();
    assert_eq!(bytes, Vec::<u8>::new());
    round_trip_shape(&shape, sv);
}

#[test]
fn wrong_field_count_is_refused() {
    let shape = TypeShape::StructShape(FieldsShape::Unnamed(vec![Ty::Scalar(Width::W1)]));
    let sv = ShapeVal::OfStruct(vec![Val::Num(1), Val::Num(2)]);
    assert!(encode_shape(&shape, &sv).is_err());
}

#[test]
fn enum_round_trip_with_fields() {
    let shape = TypeShape::EnumShape(vec![
        Variant { name: String::from("Nothing"), fields: FieldsShape::Unit },
        Variant {
            name: String::from("Pair"),
            fields: FieldsShape::Unnamed(vec![Ty::Scalar(Width::W1), Ty::Scalar(Width::W1)]),
        },
        Variant {
            name: String::from("Tagged"),
            fields: FieldsShape::Named(vec![Field {
                name: String::from("inner"),
                ty: Ty::Scalar(Width::W2),
            }]),
        },
    ]);
    round_trip_shape(&shape, ShapeVal::OfEnum(0, vec![]));
    round_trip_shape(&shape, ShapeVal::OfEnum(1, vec![Val::Num(3), Val::Num(4)]));
    round_trip_shape(&shape, ShapeVal::OfEnum(2, vec![Val::Num(600)]));
}

#[test]
fn enum_tag_is_the_declaration_index() {
    let shape = TypeShape::EnumShape(unit_variants(3));
    let bytes = encode_shape(&shape, &ShapeVal::OfEnum(2, vec![])).unwrap();
    assert_eq!(bytes, vec![2]);
}

#[test]
fn enum_with_256_variants_uses_one_byte_tag() {
    let shape = TypeShape::EnumShape(unit_variants(256));
    let bytes = encode_shape(&shape, &ShapeVal::OfEnum(255, vec![])).unwrap();
    assert_eq!(bytes, vec![255]);
    round_trip_shape(&shape, ShapeVal::OfEnum(255, vec![]));
}

#[test]
fn enum_with_257_variants_uses_two_byte_tag() {
    let shape = TypeShape::EnumShape(unit_variants(257));
    let bytes = encode_shape(&shape, &ShapeVal::OfEnum(256, vec![])).unwrap();
    assert_eq!(bytes, vec![0, 1]);
    round_trip_shape(&shape, ShapeVal::OfEnum(256, vec![]));
    round_trip_shape(&shape, ShapeVal::OfEnum(0, vec![]));
}

#[test]
fn tag_width_boundaries() {
    assert_eq!(tag_width(1, 0).unwrap(), Width::W1);
    assert_eq!(tag_width(256, 0).unwrap(), Width::W1);
    assert_eq!(tag_width(257, 0).unwrap(), Width::W2);
    assert_eq!(tag_width(65536, 0).unwrap(), Width::W2);
    let err = tag_width(65537, 7).unwrap_err();
    assert_eq!(err.pos, 7);
    assert_eq!(err.kind, DiagKind::TooManyVariants);
}

#[test]
fn enum_beyond_65536_variants_is_not_encodable() {
    let shape = TypeShape::EnumShape(unit_variants(65537));
    assert!(encode_shape(&shape, &ShapeVal::OfEnum(0, vec![])).is_err());
}

#[test]
fn out_of_range_tag_fails_to_decode() {
    let shape = TypeShape::EnumShape(unit_variants(2));
    assert!(decode_shape(&shape, &vec![2], 0).is_err());
    assert!(decode_shape(&shape, &vec![255], 0).is_err());
    assert!(decode_shape(&shape, &vec![1], 0).is_ok());
}

#[test]
fn out_of_range_index_is_refused_at_encode_time() {
    let shape = TypeShape::EnumShape(unit_variants(2));
    assert!(encode_shape(&shape, &ShapeVal::OfEnum(2, vec![])).is_err());
}

#[test]
fn large_enum_round_trips_two_byte_tags() {
    let shape = TypeShape::EnumShape(unit_variants(65536));
    let bytes = encode_shape(&shape, &ShapeVal::OfEnum(65535, vec![])).unwrap();
    assert_eq!(bytes, vec![0xff, 0xff]);
    round_trip_shape(&shape, ShapeVal::OfEnum(65535, vec![]));
}
