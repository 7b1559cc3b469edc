//! Schema descriptors: a structural, self-describing tree that mirrors the
//! codec's decisions for the same plans — same widths, same field order,
//! same variant names — so that a consumer can read the wire format without
//! the generated code.

use vstd::prelude::*;

use crate::bytes::Width;
use crate::codec::Ty;
use crate::shape::{FieldsShape, TypeShape};

verus! {

/// A schema node.
#[derive(PartialEq, Eq, Debug)]
pub enum SchemaTy {
    /// An unsigned scalar of the given width.
    Unsigned(Width),
    /// A sequence with its count-prefix width and its element schema.
    ListOf(Width, Box<SchemaTy>),
    /// A map with its count-prefix width, key schema and value schema.
    MapOf(Width, Box<SchemaTy>, Box<SchemaTy>),
    /// A set with its count-prefix width and element schema.
    SetOf(Width, Box<SchemaTy>),
    /// A string with its count-prefix width.
    TextOf(Width),
    /// A struct with its fields.
    StructOf(SchemaFields),
    /// An enum: each variant's name with its fields, in declaration order.
    EnumOf(Vec<(String, SchemaFields)>),
}

/// A struct's or variant's fields in a schema, their form preserved.
#[derive(PartialEq, Eq, Debug)]
pub enum SchemaFields {
    /// Named fields: each name with its schema, in declaration order.
    Named(Vec<(String, SchemaTy)>),
    /// Unnamed fields: schemas in declaration order.
    Unnamed(Vec<SchemaTy>),
    /// No fields at all.
    Empty,
}

/// A schema node mirroring a field plan exactly: the same constructor and
/// the same widths at every level.
pub open spec fn schema_matches(t: Ty, s: SchemaTy) -> bool
    decreases t,
{
    match t {
        Ty::Scalar(w) => s matches SchemaTy::Unsigned(w2) && w2 == w,
        Ty::ListOf(w, et) => s matches SchemaTy::ListOf(w2, es) && w2 == w && schema_matches(
            *et,
            *es,
        ),
        Ty::MapOf { count, ensure_ordered, key, value } => s matches SchemaTy::MapOf(w2, ks, vs)
            && w2 == count && (*ks matches SchemaTy::Unsigned(kw) && kw == key) && schema_matches(
            *value,
            *vs,
        ),
        Ty::SetOf { count, ensure_ordered, elem } => s matches SchemaTy::SetOf(w2, es) && w2
            == count && (*es matches SchemaTy::Unsigned(ew) && ew == elem),
        Ty::Utf8(w) => s matches SchemaTy::TextOf(w2) && w2 == w,
    }
}

/// A schema fields node mirroring a fields shape: same form, same names,
/// and a matching schema per field.
pub open spec fn schema_fields_match(fs: FieldsShape, sf: SchemaFields) -> bool {
    match fs {
        FieldsShape::Named(fields) => sf matches SchemaFields::Named(out) && out@.len()
            == fields@.len() && (forall|i: int|
            0 <= i < fields@.len() ==> (#[trigger] out@[i]).0@ == fields@[i].name@
                && schema_matches(fields@[i].ty, out@[i].1)),
        FieldsShape::Unnamed(tys) => sf matches SchemaFields::Unnamed(out) && out@.len()
            == tys@.len() && (forall|i: int|
            0 <= i < tys@.len() ==> schema_matches(tys@[i], #[trigger] out@[i])),
        FieldsShape::Unit => sf is Empty,
    }
}

/// A schema node mirroring a type shape: a struct node for a struct, an
/// enum node with the variant names in order for an enum.
pub open spec fn schema_shape_matches(shape: TypeShape, s: SchemaTy) -> bool {
    match shape {
        TypeShape::StructShape(fs) => s matches SchemaTy::StructOf(sf) && schema_fields_match(
            fs,
            sf,
        ),
        TypeShape::EnumShape(vars) => s matches SchemaTy::EnumOf(list) && list@.len()
            == vars@.len() && (forall|i: int|
            0 <= i < vars@.len() ==> (#[trigger] list@[i]).0@ == vars@[i].name@
                && schema_fields_match(vars@[i].fields, list@[i].1)),
    }
}

/// One plan has one schema: two schema nodes mirroring the same plan are
/// equal, so the descriptor cannot diverge from the codec that shares the
/// plan.
pub proof fn lemma_schema_unique(t: Ty, s1: SchemaTy, s2: SchemaTy)
    requires
        schema_matches(t, s1),
        schema_matches(t, s2),
    ensures
        s1 == s2,
    decreases t,
{
    match t {
        Ty::Scalar(_) => {},
        Ty::ListOf(_, et) => {
            lemma_schema_unique(*et, *s1->ListOf_1, *s2->ListOf_1);
        },
        Ty::MapOf { count, ensure_ordered, key, value } => {
            lemma_schema_unique(*value, *s1->MapOf_2, *s2->MapOf_2);
            assert(*s1->MapOf_1 == *s2->MapOf_1);
        },
        Ty::SetOf { count, ensure_ordered, elem } => {
            assert(*s1->SetOf_1 == *s2->SetOf_1);
        },
        Ty::Utf8(_) => {},
    }
}

/// The schema of one field plan.
pub fn schema_of_ty(t: &Ty) -> (r: SchemaTy)
    ensures
        schema_matches(*t, r),
    decreases t,
{
    match t {
        Ty::Scalar(w) => SchemaTy::Unsigned(*w),
        Ty::ListOf(w, et) => SchemaTy::ListOf(*w, Box::new(schema_of_ty(et))),
        Ty::MapOf { count, ensure_ordered, key, value } => SchemaTy::MapOf(
            *count,
            Box::new(SchemaTy::Unsigned(*key)),
            Box::new(schema_of_ty(value)),
        ),
        Ty::SetOf { count, ensure_ordered, elem } => SchemaTy::SetOf(
            *count,
            Box::new(SchemaTy::Unsigned(*elem)),
        ),
        Ty::Utf8(w) => SchemaTy::TextOf(*w),
    }
}

/// The schema of a fields shape, form and names preserved.
pub fn schema_of_fields(fs: &FieldsShape) -> (r: SchemaFields)
    ensures
        schema_fields_match(*fs, r),
{
    match fs {
        FieldsShape::Named(fields) => {
            let n = fields.len();
            let mut out: Vec<(String, SchemaTy)> = Vec::new();
            let mut i: usize = 0;
            while i < n
                invariant
                    n == fields@.len(),
                    i <= n,
                    out@.len() == i,
                    forall|j: int|
                        0 <= j < i ==> (#[trigger] out@[j]).0@ == fields@[j].name@
                            && schema_matches(fields@[j].ty, out@[j].1),
                decreases n - i,
            {
                out.push((fields[i].name.clone(), schema_of_ty(&fields[i].ty)));
                i += 1;
            }
            SchemaFields::Named(out)
        },
        FieldsShape::Unnamed(tys) => {
            let n = tys.len();
            let mut out: Vec<SchemaTy> = Vec::new();
            let mut i: usize = 0;
            while i < n
                invariant
                    n == tys@.len(),
                    i <= n,
                    out@.len() == i,
                    forall|j: int| 0 <= j < i ==> schema_matches(tys@[j], #[trigger] out@[j]),
                decreases n - i,
            {
                out.push(schema_of_ty(&tys[i]));
                i += 1;
            }
            SchemaFields::Unnamed(out)
        },
        FieldsShape::Unit => SchemaFields::Empty,
    }
}

/// The schema of a type shape. It consumes the same shape the codec
/// interprets, so the two cannot diverge: every width and every structural
/// decision in the schema is the codec's own.
pub fn schema_of_shape(shape: &TypeShape) -> (r: SchemaTy)
    ensures
        schema_shape_matches(*shape, r),
{
    match shape {
        TypeShape::StructShape(fs) => SchemaTy::StructOf(schema_of_fields(fs)),
        TypeShape::EnumShape(vars) => {
            let n = vars.len();
            let mut out: Vec<(String, SchemaFields)> = Vec::new();
            let mut i: usize = 0;
            while i < n
                invariant
                    n == vars@.len(),
                    i <= n,
                    out@.len() == i,
                    forall|j: int|
                        0 <= j < i ==> (#[trigger] out@[j]).0@ == vars@[j].name@
                            && schema_fields_match(vars@[j].fields, out@[j].1),
                decreases n - i,
            {
                out.push((vars[i].name.clone(), schema_of_fields(&vars[i].fields)));
                i += 1;
            }
            SchemaTy::EnumOf(out)
        },
    }
}

} // verus!
