//! Struct and enum shapes over the field plans: structs encode their fields
//! in declaration order with no tag; enums write a little-endian tag sized
//! by the variant count, then the chosen variant's fields. Shape resolution
//! fails when no tag width can number the variants.

use vstd::prelude::*;

use crate::bytes::{dec_le, le_seq, pow256, read_le_bytes, w_bytes, w_max, width_bytes,
    write_le_bytes, Width};
use crate::codec::{
    dec, decode_ty, enc, encode_val, check_val, view_val, view_vals, wf_val, lemma_view_vals_len,
    lemma_view_vals_index, EncodeError, FormatError, GVal, Ty, Val,
};
use crate::diag::{DiagKind, Diagnostic};

verus! {

/// One named field: its identifier and its encoding plan.
#[derive(PartialEq, Eq, Debug)]
pub struct Field {
    /// The field's identifier.
    pub name: String,
    /// The field's encoding plan.
    pub ty: Ty,
}

/// A struct's or variant's fields, with their declaration form preserved.
#[derive(PartialEq, Eq, Debug)]
pub enum FieldsShape {
    /// Named fields, in declaration order.
    Named(Vec<Field>),
    /// Unnamed (tuple) fields, in declaration order.
    Unnamed(Vec<Ty>),
    /// No fields at all.
    Unit,
}

/// One enum variant: its name and its fields.
#[derive(PartialEq, Eq, Debug)]
pub struct Variant {
    /// The variant's name.
    pub name: String,
    /// The variant's fields.
    pub fields: FieldsShape,
}

/// A type's shape: a struct or an enum over field plans.
#[derive(PartialEq, Eq, Debug)]
pub enum TypeShape {
    /// A struct: fields in declaration order, no tag.
    StructShape(FieldsShape),
    /// An enum: a tag sized by the variant count, then the variant's fields.
    EnumShape(Vec<Variant>),
}

/// A shape-level value: a struct's field values, or a variant index with
/// that variant's field values.
#[derive(PartialEq, Eq, Debug)]
pub enum ShapeVal {
    /// A struct value.
    OfStruct(Vec<Val>),
    /// An enum value: zero-based variant index and the variant's fields.
    OfEnum(usize, Vec<Val>),
}

/// The mathematical shadow of a shape-level value.
pub enum GShapeVal {
    /// A struct value.
    GOfStruct(Seq<GVal>),
    /// An enum value.
    GOfEnum(nat, Seq<GVal>),
}

/// The mathematical shadow of a shape-level value.
pub open spec fn view_shape_val(sv: ShapeVal) -> GShapeVal {
    match sv {
        ShapeVal::OfStruct(vals) => GShapeVal::GOfStruct(view_vals(vals@)),
        ShapeVal::OfEnum(idx, vals) => GShapeVal::GOfEnum(idx as nat, view_vals(vals@)),
    }
}

/// The field plans a fields shape carries, in order.
pub open spec fn field_tys(fs: FieldsShape) -> Seq<Ty> {
    match fs {
        FieldsShape::Named(fields) => fields@.map_values(|f: Field| f.ty),
        FieldsShape::Unnamed(ts) => ts@,
        FieldsShape::Unit => Seq::empty(),
    }
}

/// The tag width the variant count derives: one byte when 256 variants or
/// fewer suffice, two bytes up to 65536.
pub open spec fn spec_tag_width(n_variants: nat) -> Width {
    if n_variants <= 256 {
        Width::W1
    } else {
        Width::W2
    }
}

/// Whether a shape can be generated at all: an enum must have no more
/// variants than any supported tag width can number.
pub open spec fn shape_ok(shape: TypeShape) -> bool {
    match shape {
        TypeShape::StructShape(_) => true,
        TypeShape::EnumShape(vars) => vars@.len() <= 65536,
    }
}

/// Field values matching field plans, one for one.
pub open spec fn wf_fields(tys: Seq<Ty>, vals: Seq<GVal>) -> bool {
    vals.len() == tys.len() && (forall|i: int|
        0 <= i < tys.len() ==> wf_val(tys[i], #[trigger] vals[i]))
}

/// A shape-level value fitting its shape.
pub open spec fn wf_shape_val(shape: TypeShape, sv: GShapeVal) -> bool {
    match shape {
        TypeShape::StructShape(fs) => sv matches GShapeVal::GOfStruct(vals) && wf_fields(
            field_tys(fs),
            vals,
        ),
        TypeShape::EnumShape(vars) => sv matches GShapeVal::GOfEnum(idx, vals) && idx
            < vars@.len() && wf_fields(field_tys(vars@[idx as int].fields), vals),
    }
}

/// The concatenated encodings of field values under their plans.
pub open spec fn enc_fields(tys: Seq<Ty>, vals: Seq<GVal>) -> Seq<u8>
    decreases tys.len(),
{
    if tys.len() == 0 {
        Seq::empty()
    } else {
        enc(tys[0], vals[0]) + enc_fields(tys.drop_first(), vals.drop_first())
    }
}

/// The encoding of a shape-level value: a struct writes its fields in
/// order with no tag; an enum writes its little-endian tag, then the
/// variant's fields.
pub open spec fn enc_shape(shape: TypeShape, sv: GShapeVal) -> Seq<u8> {
    match shape {
        TypeShape::StructShape(fs) => match sv {
            GShapeVal::GOfStruct(vals) => enc_fields(field_tys(fs), vals),
            _ => Seq::empty(),
        },
        TypeShape::EnumShape(vars) => match sv {
            GShapeVal::GOfEnum(idx, vals) => le_seq(
                w_bytes(spec_tag_width(vars@.len())),
                idx,
            ) + enc_fields(field_tys(vars@[idx as int].fields), vals),
            _ => Seq::empty(),
        },
    }
}

/// Decoding field values under their plans, in order.
pub open spec fn dec_fields(tys: Seq<Ty>, s: Seq<u8>, pos: nat) -> Option<(Seq<GVal>, nat)>
    decreases tys.len(),
{
    if tys.len() == 0 {
        Some((Seq::empty(), pos))
    } else {
        match dec(tys[0], s, pos) {
            Option::None => None,
            Option::Some((v, p)) => match dec_fields(tys.drop_first(), s, p) {
                Option::None => None,
                Option::Some((vs, p2)) => Some((seq![v] + vs, p2)),
            },
        }
    }
}

/// Decoding a shape-level value: an enum reads its tag first and fails on a
/// tag at or beyond the variant count.
pub open spec fn dec_shape(shape: TypeShape, s: Seq<u8>, pos: nat) -> Option<(GShapeVal, nat)> {
    match shape {
        TypeShape::StructShape(fs) => match dec_fields(field_tys(fs), s, pos) {
            Option::None => None,
            Option::Some((vals, p)) => Some((GShapeVal::GOfStruct(vals), p)),
        },
        TypeShape::EnumShape(vars) => match dec_le(w_bytes(spec_tag_width(vars@.len())), s, pos) {
            Option::None => None,
            Option::Some((tag, p)) => if tag >= vars@.len() {
                None
            } else {
                match dec_fields(field_tys(vars@[tag as int].fields), s, p) {
                    Option::None => None,
                    Option::Some((vals, p2)) => Some((GShapeVal::GOfEnum(tag, vals), p2)),
                }
            },
        },
    }
}

/// Derive the tag width from a variant count: one byte up to 256 variants,
/// two bytes up to 65536, and a generation-time failure beyond that, at the
/// item's position.
pub fn tag_width(n_variants: usize, pos: u32) -> (r: Result<Width, Diagnostic>)
    ensures
        n_variants <= 256 ==> r == Result::<Width, Diagnostic>::Ok(Width::W1),
        256 < n_variants <= 65536 ==> r == Result::<Width, Diagnostic>::Ok(Width::W2),
        n_variants > 65536 ==> r == Result::<Width, Diagnostic>::Err(
            Diagnostic { pos, kind: DiagKind::TooManyVariants },
        ),
{
    if n_variants <= 256 {
        Ok(Width::W1)
    } else if n_variants <= 65536 {
        Ok(Width::W2)
    } else {
        Err(Diagnostic { pos, kind: DiagKind::TooManyVariants })
    }
}

/// Whether field values fit the plans of a named fields list, from index i.
fn check_fields_named(fields: &Vec<Field>, vals: &Vec<Val>, i: usize) -> (r: bool)
    requires
        i <= fields@.len(),
        vals@.len() == fields@.len(),
    ensures
        r == (forall|j: int|
            i <= j < fields@.len() ==> wf_val(
                field_tys(FieldsShape::Named(*fields))[j],
                #[trigger] view_vals(vals@)[j],
            )),
    decreases fields@.len() - i,
{
    proof {
        lemma_view_vals_len(vals@);
    }
    if i == fields.len() {
        true
    } else {
        proof {
            lemma_view_vals_index(vals@, i as int);
        }
        check_val(&fields[i].ty, &vals[i]) && check_fields_named(fields, vals, i + 1)
    }
}

/// Whether field values fit the plans of an unnamed fields list, from index
/// i.
fn check_fields_unnamed(tys: &Vec<Ty>, vals: &Vec<Val>, i: usize) -> (r: bool)
    requires
        i <= tys@.len(),
        vals@.len() == tys@.len(),
    ensures
        r == (forall|j: int|
            i <= j < tys@.len() ==> wf_val(tys@[j], #[trigger] view_vals(vals@)[j])),
    decreases tys@.len() - i,
{
    proof {
        lemma_view_vals_len(vals@);
    }
    if i == tys.len() {
        true
    } else {
        proof {
            lemma_view_vals_index(vals@, i as int);
        }
        check_val(&tys[i], &vals[i]) && check_fields_unnamed(tys, vals, i + 1)
    }
}

/// Whether field values fit a fields shape.
fn check_fields(fs: &FieldsShape, vals: &Vec<Val>) -> (r: bool)
    ensures
        r == wf_fields(field_tys(*fs), view_vals(vals@)),
{
    proof {
        lemma_view_vals_len(vals@);
    }
    match fs {
        FieldsShape::Named(fields) => vals.len() == fields.len() && check_fields_named(
            fields,
            vals,
            0,
        ),
        FieldsShape::Unnamed(tys) => vals.len() == tys.len() && check_fields_unnamed(tys, vals, 0),
        FieldsShape::Unit => vals.len() == 0,
    }
}

/// Append the encodings of the fields of a named list, from index i.
fn encode_fields_named(fields: &Vec<Field>, vals: &Vec<Val>, i: usize, out: &mut Vec<u8>)
    requires
        i <= fields@.len(),
        vals@.len() == fields@.len(),
        forall|j: int|
            i <= j < fields@.len() ==> wf_val(
                field_tys(FieldsShape::Named(*fields))[j],
                #[trigger] view_vals(vals@)[j],
            ),
    ensures
        final (out)@ == old(out)@ + enc_fields(
            field_tys(FieldsShape::Named(*fields)).skip(i as int),
            view_vals(vals@).skip(i as int),
        ),
    decreases fields@.len() - i,
{
    let ghost tys = field_tys(FieldsShape::Named(*fields));
    proof {
        lemma_view_vals_len(vals@);
    }
    if i == fields.len() {
        proof {
            assert(tys.skip(i as int) =~= Seq::<Ty>::empty());
            assert(out@ =~= old(out)@ + enc_fields(
                tys.skip(i as int),
                view_vals(vals@).skip(i as int),
            ));
        }
        return ;
    }
    proof {
        lemma_view_vals_index(vals@, i as int);
    }
    encode_val(&fields[i].ty, &vals[i], out);
    encode_fields_named(fields, vals, i + 1, out);
    proof {
        let g = view_vals(vals@);
        assert(tys.skip(i as int)[0] == tys[i as int]);
        assert(g.skip(i as int)[0] == g[i as int]);
        assert(tys.skip(i as int).drop_first() =~= tys.skip(i as int + 1));
        assert(g.skip(i as int).drop_first() =~= g.skip(i as int + 1));
        assert(out@ =~= old(out)@ + enc_fields(tys.skip(i as int), g.skip(i as int)));
    }
}

/// Append the encodings of the fields of an unnamed list, from index i.
fn encode_fields_unnamed(tys: &Vec<Ty>, vals: &Vec<Val>, i: usize, out: &mut Vec<u8>)
    requires
        i <= tys@.len(),
        vals@.len() == tys@.len(),
        forall|j: int|
            i <= j < tys@.len() ==> wf_val(tys@[j], #[trigger] view_vals(vals@)[j]),
    ensures
        final (out)@ == old(out)@ + enc_fields(
            tys@.skip(i as int),
            view_vals(vals@).skip(i as int),
        ),
    decreases tys@.len() - i,
{
    proof {
        lemma_view_vals_len(vals@);
    }
    if i == tys.len() {
        proof {
            assert(tys@.skip(i as int) =~= Seq::<Ty>::empty());
            assert(out@ =~= old(out)@ + enc_fields(
                tys@.skip(i as int),
                view_vals(vals@).skip(i as int),
            ));
        }
        return ;
    }
    proof {
        lemma_view_vals_index(vals@, i as int);
    }
    encode_val(&tys[i], &vals[i], out);
    encode_fields_unnamed(tys, vals, i + 1, out);
    proof {
        let g = view_vals(vals@);
        assert(tys@.skip(i as int)[0] == tys@[i as int]);
        assert(g.skip(i as int)[0] == g[i as int]);
        assert(tys@.skip(i as int).drop_first() =~= tys@.skip(i as int + 1));
        assert(g.skip(i as int).drop_first() =~= g.skip(i as int + 1));
        assert(out@ =~= old(out)@ + enc_fields(tys@.skip(i as int), g.skip(i as int)));
    }
}

/// Append the encodings of field values under a fields shape.
fn encode_fields(fs: &FieldsShape, vals: &Vec<Val>, out: &mut Vec<u8>)
    requires
        wf_fields(field_tys(*fs), view_vals(vals@)),
    ensures
        final (out)@ == old(out)@ + enc_fields(field_tys(*fs), view_vals(vals@)),
{
    proof {
        lemma_view_vals_len(vals@);
    }
    match fs {
        FieldsShape::Named(fields) => {
            encode_fields_named(fields, vals, 0, out);
            proof {
                assert(field_tys(*fs).skip(0) =~= field_tys(*fs));
                assert(view_vals(vals@).skip(0) =~= view_vals(vals@));
            }
        },
        FieldsShape::Unnamed(tys) => {
            encode_fields_unnamed(tys, vals, 0, out);
            proof {
                assert(field_tys(*fs).skip(0) =~= field_tys(*fs));
                assert(view_vals(vals@).skip(0) =~= view_vals(vals@));
            }
        },
        FieldsShape::Unit => {
            proof {
                assert(out@ =~= old(out)@ + enc_fields(field_tys(*fs), view_vals(vals@)));
            }
        },
    }
}

/// Encode a shape-level value into a fresh buffer.
///
/// Succeeds exactly when the shape is generatable (an enum's variants fit a
/// tag width) and the value fits the shape: right field count, in-range
/// variant index, every field value well-formed for its plan.
pub fn encode_shape(shape: &TypeShape, sv: &ShapeVal) -> (r: Result<Vec<u8>, EncodeError>)
    ensures
        r is Ok <==> shape_ok(*shape) && wf_shape_val(*shape, view_shape_val(*sv)),
        r matches Ok(b) ==> b@ == enc_shape(*shape, view_shape_val(*sv)),
{
    match shape {
        TypeShape::StructShape(fs) => match sv {
            ShapeVal::OfStruct(vals) => {
                if check_fields(fs, vals) {
                    let mut out: Vec<u8> = Vec::new();
                    encode_fields(fs, vals, &mut out);
                    proof {
                        assert(out@ =~= enc_shape(*shape, view_shape_val(*sv)));
                    }
                    Ok(out)
                } else {
                    Err(EncodeError::NotEncodable)
                }
            },
            _ => Err(EncodeError::NotEncodable),
        },
        TypeShape::EnumShape(vars) => match sv {
            ShapeVal::OfEnum(idx, vals) => {
                if vars.len() > 65536 {
                    return Err(EncodeError::NotEncodable);
                }
                if *idx >= vars.len() {
                    return Err(EncodeError::NotEncodable);
                }
                if !check_fields(&vars[*idx].fields, vals) {
                    return Err(EncodeError::NotEncodable);
                }
                let tw = if vars.len() <= 256 {
                    Width::W1
                } else {
                    Width::W2
                };
                let mut out: Vec<u8> = Vec::new();
                write_le_bytes(width_bytes(tw), *idx as u64, &mut out);
                encode_fields(&vars[*idx].fields, vals, &mut out);
                proof {
                    assert(out@ =~= enc_shape(*shape, view_shape_val(*sv)));
                }
                Ok(out)
            },
            _ => Err(EncodeError::NotEncodable),
        },
    }
}

/// Decode the fields of a named list, from index i.
fn decode_fields_named(fields: &Vec<Field>, input: &Vec<u8>, pos: usize, i: usize) -> (r: Result<
    (Vec<Val>, usize),
    FormatError,
>)
    requires
        i <= fields@.len(),
        pos <= input@.len(),
    ensures
        match r {
            Ok(vp) => dec_fields(
                field_tys(FieldsShape::Named(*fields)).skip(i as int),
                input@,
                pos as nat,
            ) == Some((view_vals(vp.0@), vp.1 as nat)) && vp.1 <= input@.len(),
            Err(_) => dec_fields(
                field_tys(FieldsShape::Named(*fields)).skip(i as int),
                input@,
                pos as nat,
            ) is None,
        },
    decreases fields@.len() - i,
{
    let ghost tys = field_tys(FieldsShape::Named(*fields));
    if i == fields.len() {
        let vs: Vec<Val> = Vec::new();
        proof {
            assert(tys.skip(i as int) =~= Seq::<Ty>::empty());
            assert(view_vals(vs@) =~= Seq::<GVal>::empty());
        }
        return Ok((vs, pos));
    }
    proof {
        assert(tys.skip(i as int)[0] == tys[i as int]);
        assert(tys.skip(i as int).drop_first() =~= tys.skip(i as int + 1));
    }
    let (v, p) = match decode_ty(&fields[i].ty, input, pos) {
        Ok(vp) => vp,
        Err(e) => {
            return Err(e);
        },
    };
    let (mut vs, p2) = match decode_fields_named(fields, input, p, i + 1) {
        Ok(vp) => vp,
        Err(e) => {
            return Err(e);
        },
    };
    let ghost tail = vs@;
    vs.insert(0, v);
    proof {
        assert(vs@ =~= seq![v] + tail);
        assert(vs@.drop_first() =~= tail);
        assert(view_vals(vs@) =~= seq![view_val(v)] + view_vals(tail));
    }
    Ok((vs, p2))
}

/// Decode the fields of an unnamed list, from index i.
fn decode_fields_unnamed(tys: &Vec<Ty>, input: &Vec<u8>, pos: usize, i: usize) -> (r: Result<
    (Vec<Val>, usize),
    FormatError,
>)
    requires
        i <= tys@.len(),
        pos <= input@.len(),
    ensures
        match r {
            Ok(vp) => dec_fields(tys@.skip(i as int), input@, pos as nat) == Some(
                (view_vals(vp.0@), vp.1 as nat),
            ) && vp.1 <= input@.len(),
            Err(_) => dec_fields(tys@.skip(i as int), input@, pos as nat) is None,
        },
    decreases tys@.len() - i,
{
    if i == tys.len() {
        let vs: Vec<Val> = Vec::new();
        proof {
            assert(tys@.skip(i as int) =~= Seq::<Ty>::empty());
            assert(view_vals(vs@) =~= Seq::<GVal>::empty());
        }
        return Ok((vs, pos));
    }
    proof {
        assert(tys@.skip(i as int)[0] == tys@[i as int]);
        assert(tys@.skip(i as int).drop_first() =~= tys@.skip(i as int + 1));
    }
    let (v, p) = match decode_ty(&tys[i], input, pos) {
        Ok(vp) => vp,
        Err(e) => {
            return Err(e);
        },
    };
    let (mut vs, p2) = match decode_fields_unnamed(tys, input, p, i + 1) {
        Ok(vp) => vp,
        Err(e) => {
            return Err(e);
        },
    };
    let ghost tail = vs@;
    vs.insert(0, v);
    proof {
        assert(vs@ =~= seq![v] + tail);
        assert(vs@.drop_first() =~= tail);
        assert(view_vals(vs@) =~= seq![view_val(v)] + view_vals(tail));
    }
    Ok((vs, p2))
}

/// Decode the fields of a fields shape.
fn decode_fields_of(fs: &FieldsShape, input: &Vec<u8>, pos: usize) -> (r: Result<
    (Vec<Val>, usize),
    FormatError,
>)
    requires
        pos <= input@.len(),
    ensures
        match r {
            Ok(vp) => dec_fields(field_tys(*fs), input@, pos as nat) == Some(
                (view_vals(vp.0@), vp.1 as nat),
            ) && vp.1 <= input@.len(),
            Err(_) => dec_fields(field_tys(*fs), input@, pos as nat) is None,
        },
{
    match fs {
        FieldsShape::Named(fields) => {
            let r = decode_fields_named(fields, input, pos, 0);
            proof {
                assert(field_tys(*fs).skip(0) =~= field_tys(*fs));
            }
            r
        },
        FieldsShape::Unnamed(tys) => {
            let r = decode_fields_unnamed(tys, input, pos, 0);
            proof {
                assert(field_tys(*fs).skip(0) =~= field_tys(*fs));
            }
            r
        },
        FieldsShape::Unit => {
            let vs: Vec<Val> = Vec::new();
            proof {
                assert(view_vals(vs@) =~= Seq::<GVal>::empty());
            }
            Ok((vs, pos))
        },
    }
}

/// Decode a shape-level value at a position.
///
/// For an enum the tag is read first, at the width the variant count
/// derives; a tag at or beyond the variant count is a format error, as is
/// input that ends before the fields do.
pub fn decode_shape(shape: &TypeShape, input: &Vec<u8>, pos: usize) -> (r: Result<
    (ShapeVal, usize),
    FormatError,
>)
    requires
        pos <= input@.len(),
    ensures
        match r {
            Ok(vp) => dec_shape(*shape, input@, pos as nat) == Some(
                (view_shape_val(vp.0), vp.1 as nat),
            ) && vp.1 <= input@.len(),
            Err(_) => dec_shape(*shape, input@, pos as nat) is None,
        },
{
    match shape {
        TypeShape::StructShape(fs) => match decode_fields_of(fs, input, pos) {
            Ok((vals, p)) => Ok((ShapeVal::OfStruct(vals), p)),
            Err(e) => Err(e),
        },
        TypeShape::EnumShape(vars) => {
            let tw = if vars.len() <= 256 {
                Width::W1
            } else {
                Width::W2
            };
            let (tag, p) = match read_le_bytes(width_bytes(tw), input, pos) {
                Some(vp) => vp,
                None => {
                    return Err(FormatError::TruncatedInput);
                },
            };
            if tag >= vars.len() as u64 {
                return Err(FormatError::TagOutOfRange);
            }
            let idx = tag as usize;
            match decode_fields_of(&vars[idx].fields, input, p) {
                Ok((vals, p2)) => Ok((ShapeVal::OfEnum(idx, vals), p2)),
                Err(e) => Err(e),
            }
        },
    }
}

} // verus!
