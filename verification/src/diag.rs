//! Structured diagnostics. Generation-time failures are reported as values
//! carrying a source position descriptor instead of being rendered, so that a
//! build tool can display them; several failures on one item are batched.

use vstd::prelude::*;

use crate::attr::AttrName;

verus! {

/// What went wrong, as a closed set of generation-time failures.
#[derive(Clone, Copy, PartialEq, Eq, Structural, Debug)]
pub enum DiagKind {
    /// The named option is present but does not carry a string literal value.
    ValueMustBeString(AttrName),
    /// The named option is required at this site but absent.
    MissingRequired(AttrName),
    /// A field annotation whose name is outside the recognized set.
    UnsupportedFieldAttribute,
    /// A bare literal stood where a field annotation was expected.
    LiteralFieldAttribute,
    /// The named option occurs more than once; one diagnostic per occurrence.
    DuplicateAttribute(AttrName),
    /// A length option whose value is not an integer literal.
    LengthNotInteger,
    /// A length option whose integer literal cannot be read as a base-10 width.
    LengthNotBase10,
    /// A length option whose value is not one of 1, 2, 4 or 8.
    LengthOutOfRange,
    /// An enum shape with more variants than any tag width can number.
    TooManyVariants,
    /// The annotated item could not be read as a function definition.
    AppliedToNonFunction,
    /// The annotated item is of a kind the annotation does not support.
    UnsupportedItemKind,
}

/// One generation-time failure, tied to a position in the annotated source.
#[derive(Clone, Copy, PartialEq, Eq, Structural, Debug)]
pub struct Diagnostic {
    /// Position descriptor of the offending annotation or item.
    pub pos: u32,
    /// The failure itself.
    pub kind: DiagKind,
}

/// Add context to a failed result: the extra diagnostic is appended at the
/// position of the first collected failure, as a chained explanation.
pub fn attach_error<A>(v: Result<A, Vec<Diagnostic>>, kind: DiagKind) -> (r: Result<
    A,
    Vec<Diagnostic>,
>)
    ensures
        v is Ok ==> r == v,
        v is Err ==> {
            let pos: u32 = if v->Err_0@.len() > 0 {
                v->Err_0@[0].pos
            } else {
                0
            };
            r matches Err(ds) && ds@ == v->Err_0@.push(Diagnostic { pos, kind })
        },
{
    match v {
        Ok(a) => Ok(a),
        Err(mut ds) => {
            let pos: u32 = if ds.len() > 0 {
                ds[0].pos
            } else {
                0
            };
            ds.push(Diagnostic { pos, kind });
            Err(ds)
        },
    }
}

} // verus!
