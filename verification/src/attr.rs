//! Annotation parsing and validation: lookup of named options, the closed
//! whitelist of per-field annotations, duplicate detection, and resolution of
//! a field's length-prefix strategy from its annotations.

use vstd::prelude::*;

use crate::bytes::Width;
use crate::diag::{DiagKind, Diagnostic};

verus! {

/// The closed set of recognized option names, over both annotation sites,
/// plus a marker for anything outside the set.
#[derive(Clone, Copy, PartialEq, Eq, Structural, Debug)]
pub enum AttrName {
    /// `contract = "..."`: the contract a generated entry point belongs to.
    Contract,
    /// `name = "..."`: the receive entry point's own name.
    Name,
    /// `parameter = "..."`: a type name whose schema is exported alongside.
    Parameter,
    /// `payable` flag: the call's amount becomes a user-function argument.
    Payable,
    /// `enable_logger` flag: a logger is set up and passed to the user function.
    EnableLogger,
    /// `low_level` flag: the raw state handle is passed through unparsed.
    LowLevel,
    /// `size_length = n`: length-prefix width for a sequence field.
    SizeLength,
    /// `map_size_length = n`: length-prefix width for a map field.
    MapSizeLength,
    /// `set_size_length = n`: length-prefix width for a set field.
    SetSizeLength,
    /// `string_size_length = n`: length-prefix width for a string field.
    StringSizeLength,
    /// `ensure_ordered` flag: decoded keys must be strictly increasing.
    EnsureOrdered,
    /// Any name outside the recognized set.
    Unknown,
}

/// The syntactic form an annotation takes.
#[derive(PartialEq, Eq, Debug)]
pub enum AttrValue {
    /// A bare name with no value.
    Flag,
    /// A name followed by a parenthesized argument list.
    Args,
    /// `name = "..."`: a string literal value.
    StrLit(String),
    /// `name = <integer>`: an integer literal value.
    IntLit(u64),
    /// `name = <literal>` of any other literal kind.
    OtherLit,
}

/// One annotation as attached to a type, field or function.
#[derive(PartialEq, Eq, Debug)]
pub struct Attr {
    /// The option's name.
    pub name: AttrName,
    /// The option's syntactic form and value.
    pub value: AttrValue,
    /// Position descriptor of this occurrence in the annotated source.
    pub pos: u32,
}

/// The first annotation with the given name, if any: lookups are
/// first-occurrence-wins over the annotation list.
pub open spec fn spec_lookup(attrs: Seq<Attr>, name: AttrName) -> Option<Attr>
    decreases attrs.len(),
{
    if attrs.len() == 0 {
        None
    } else if attrs[0].name == name {
        Some(attrs[0])
    } else {
        spec_lookup(attrs.drop_first(), name)
    }
}

/// Whether some annotation with the given name is present, in any form.
pub open spec fn spec_contains(attrs: Seq<Attr>, name: AttrName) -> bool {
    exists|i: int| 0 <= i < attrs.len() && (#[trigger] attrs[i]).name == name
}

/// Look a named option up and return its string-literal value.
///
/// The first occurrence of the name decides: a string literal is returned,
/// any other form (a bare flag, an argument list, another literal kind) is an
/// error at that occurrence's position. An absent option is `Ok(None)`,
/// distinct from present-but-malformed.
pub fn get_attribute_value(attrs: &Vec<Attr>, name: AttrName) -> (r: Result<
    Option<String>,
    Diagnostic,
>)
    ensures
        ({
            let m = spec_lookup(attrs@, name);
            match r {
                Ok(opt) => match opt {
                    Some(s) => m matches Some(a) && a.value matches AttrValue::StrLit(t) && s@
                        == t@,
                    None => m is None,
                },
                Err(d) => m matches Some(a) && !(a.value is StrLit) && d == Diagnostic {
                    pos: a.pos,
                    kind: DiagKind::ValueMustBeString(name),
                },
            }
        }),
{
    let n = attrs.len();
    let mut i: usize = 0;
    proof {
        assert(attrs@.skip(0) =~= attrs@);
    }
    while i < n
        invariant
            n == attrs@.len(),
            i <= n,
            spec_lookup(attrs@.skip(i as int), name) == spec_lookup(attrs@, name),
        decreases n - i,
    {
        proof {
            assert(attrs@.skip(i as int)[0] == attrs@[i as int]);
        }
        let a = &attrs[i];
        if a.name == name {
            match &a.value {
                AttrValue::StrLit(s) => {
                    return Ok(Some(s.clone()));
                },
                _ => {
                    return Err(
                        Diagnostic { pos: a.pos, kind: DiagKind::ValueMustBeString(name) },
                    );
                },
            }
        }
        proof {
            assert(attrs@.skip(i as int).drop_first() =~= attrs@.skip(i as int + 1));
        }
        i += 1;
    }
    Ok(None)
}

/// Whether an annotation with the given name is present, in any form.
pub fn contains_attribute(attrs: &Vec<Attr>, name: AttrName) -> (r: bool)
    ensures
        r == spec_contains(attrs@, name),
{
    let n = attrs.len();
    let mut i: usize = 0;
    while i < n
        invariant
            n == attrs@.len(),
            i <= n,
            forall|j: int| 0 <= j < i ==> (#[trigger] attrs@[j]).name != name,
        decreases n - i,
    {
        if attrs[i].name == name {
            return true;
        }
        i += 1;
    }
    false
}

/// A field annotation's literal value, stripped to what length resolution
/// reads: the integer itself, or just the literal's kind.
#[derive(Clone, Copy, PartialEq, Eq, Structural, Debug)]
pub enum LitShape {
    /// No literal value: a bare flag or an argument list.
    NoLit,
    /// An integer literal.
    IntVal(u64),
    /// A string literal.
    TextVal,
    /// A literal of any other kind.
    OtherVal,
}

/// A validated field annotation: name, literal shape and position.
#[derive(Clone, Copy, PartialEq, Eq, Structural, Debug)]
pub struct FieldAttr {
    /// The option's name, inside the field whitelist.
    pub name: AttrName,
    /// The literal attached to the option, if any.
    pub lit: LitShape,
    /// Position descriptor of this occurrence.
    pub pos: u32,
}

/// One entry of a field's annotation list, before validation.
#[derive(PartialEq, Eq, Debug)]
pub enum FieldAnnot {
    /// A named annotation.
    Entry(Attr),
    /// A bare literal where an annotation was expected, at this position.
    BareLiteral(u32),
}

/// The names accepted as field annotations.
pub open spec fn is_field_attr_name(n: AttrName) -> bool {
    n == AttrName::SizeLength || n == AttrName::MapSizeLength || n == AttrName::SetSizeLength || n
        == AttrName::StringSizeLength || n == AttrName::EnsureOrdered
}

/// The stripped form of a named annotation.
pub open spec fn spec_field_attr_of(a: Attr) -> FieldAttr {
    FieldAttr {
        name: a.name,
        pos: a.pos,
        lit: match a.value {
            AttrValue::Flag => LitShape::NoLit,
            AttrValue::Args => LitShape::NoLit,
            AttrValue::StrLit(_) => LitShape::TextVal,
            AttrValue::IntLit(v) => LitShape::IntVal(v),
            AttrValue::OtherLit => LitShape::OtherVal,
        },
    }
}

/// The diagnostic one annotation entry contributes, if it is invalid.
pub open spec fn spec_annot_error(a: FieldAnnot) -> Seq<Diagnostic> {
    match a {
        FieldAnnot::Entry(at) => if is_field_attr_name(at.name) {
            Seq::empty()
        } else {
            seq![Diagnostic { pos: at.pos, kind: DiagKind::UnsupportedFieldAttribute }]
        },
        FieldAnnot::BareLiteral(pos) => seq![
            Diagnostic { pos, kind: DiagKind::LiteralFieldAttribute },
        ],
    }
}

/// The stripped entry one annotation contributes, if it is valid.
pub open spec fn spec_annot_keep(a: FieldAnnot) -> Seq<FieldAttr> {
    match a {
        FieldAnnot::Entry(at) => if is_field_attr_name(at.name) {
            seq![spec_field_attr_of(at)]
        } else {
            Seq::empty()
        },
        FieldAnnot::BareLiteral(_) => Seq::empty(),
    }
}

/// All validation failures of a field's annotation list, in order.
pub open spec fn spec_field_errors(annots: Seq<FieldAnnot>) -> Seq<Diagnostic>
    decreases annots.len(),
{
    if annots.len() == 0 {
        Seq::empty()
    } else {
        spec_annot_error(annots[0]) + spec_field_errors(annots.drop_first())
    }
}

/// All valid entries of a field's annotation list, stripped, in order.
pub open spec fn spec_field_entries(annots: Seq<FieldAnnot>) -> Seq<FieldAttr>
    decreases annots.len(),
{
    if annots.len() == 0 {
        Seq::empty()
    } else {
        spec_annot_keep(annots[0]) + spec_field_entries(annots.drop_first())
    }
}

/// Validate a field's annotation list against the whitelist.
///
/// Every entry outside the whitelist, and every bare literal, contributes one
/// diagnostic; all of them are collected rather than only the first. On
/// success the valid entries are returned, stripped, in order.
pub fn get_concordium_field_attributes(annots: &Vec<FieldAnnot>) -> (r: Result<
    Vec<FieldAttr>,
    Vec<Diagnostic>,
>)
    ensures
        spec_field_errors(annots@).len() == 0 ==> (r matches Ok(v) && v@ == spec_field_entries(
            annots@,
        )),
        spec_field_errors(annots@).len() > 0 ==> (r matches Err(ds) && ds@ == spec_field_errors(
            annots@,
        )),
{
    let n = annots.len();
    let mut i: usize = 0;
    let mut entries: Vec<FieldAttr> = Vec::new();
    let mut errors: Vec<Diagnostic> = Vec::new();
    proof {
        assert(annots@.skip(0) =~= annots@);
    }
    while i < n
        invariant
            n == annots@.len(),
            i <= n,
            spec_field_errors(annots@) =~= errors@ + spec_field_errors(annots@.skip(i as int)),
            spec_field_entries(annots@) =~= entries@ + spec_field_entries(annots@.skip(i as int)),
        decreases n - i,
    {
        proof {
            assert(annots@.skip(i as int)[0] == annots@[i as int]);
            assert(annots@.skip(i as int).drop_first() =~= annots@.skip(i as int + 1));
        }
        match &annots[i] {
            FieldAnnot::Entry(at) => {
                let keep = match at.name {
                    AttrName::SizeLength => true,
                    AttrName::MapSizeLength => true,
                    AttrName::SetSizeLength => true,
                    AttrName::StringSizeLength => true,
                    AttrName::EnsureOrdered => true,
                    _ => false,
                };
                if keep {
                    let lit = match &at.value {
                        AttrValue::Flag => LitShape::NoLit,
                        AttrValue::Args => LitShape::NoLit,
                        AttrValue::StrLit(_) => LitShape::TextVal,
                        AttrValue::IntLit(v) => LitShape::IntVal(*v),
                        AttrValue::OtherLit => LitShape::OtherVal,
                    };
                    entries.push(FieldAttr { name: at.name, lit, pos: at.pos });
                } else {
                    errors.push(
                        Diagnostic { pos: at.pos, kind: DiagKind::UnsupportedFieldAttribute },
                    );
                }
            },
            FieldAnnot::BareLiteral(pos) => {
                errors.push(Diagnostic { pos: *pos, kind: DiagKind::LiteralFieldAttribute });
            },
        }
        i += 1;
    }
    if errors.len() == 0 {
        Ok(entries)
    } else {
        Err(errors)
    }
}

/// Whether a stripped entry with the given name is present, in any form.
pub open spec fn spec_contains_field(entries: Seq<FieldAttr>, name: AttrName) -> bool {
    exists|i: int| 0 <= i < entries.len() && (#[trigger] entries[i]).name == name
}

/// The literal-valued entries with the given name, in order: flags and
/// argument lists of that name are not literal-valued and do not count.
pub open spec fn spec_named_values(entries: Seq<FieldAttr>, name: AttrName) -> Seq<FieldAttr>
    decreases entries.len(),
{
    if entries.len() == 0 {
        Seq::empty()
    } else {
        (if entries[0].name == name && !(entries[0].lit is NoLit) {
            seq![entries[0]]
        } else {
            Seq::empty()
        }) + spec_named_values(entries.drop_first(), name)
    }
}

/// What looking a literal-valued field option up yields: its sole occurrence,
/// absence, or the collected diagnostics.
pub open spec fn spec_find_field_attr(annots: Seq<FieldAnnot>, name: AttrName) -> Result<
    Option<FieldAttr>,
    Seq<Diagnostic>,
> {
    if spec_field_errors(annots).len() > 0 {
        Err(spec_field_errors(annots))
    } else {
        let c = spec_named_values(spec_field_entries(annots), name);
        if c.len() == 0 {
            Ok(None)
        } else if c.len() == 1 {
            Ok(Some(c[0]))
        } else {
            Err(
                Seq::new(
                    c.len(),
                    |i: int| Diagnostic { pos: c[i].pos, kind: DiagKind::DuplicateAttribute(name) },
                ),
            )
        }
    }
}

/// Look a literal-valued field option up, after validating the whole list.
///
/// If the option occurs more than once, the result is one combined error
/// naming every occurrence, not only the first extra one.
pub fn find_field_attribute_value(annots: &Vec<FieldAnnot>, name: AttrName) -> (r: Result<
    Option<FieldAttr>,
    Vec<Diagnostic>,
>)
    ensures
        ({
            let m = spec_find_field_attr(annots@, name);
            match r {
                Ok(o) => m == Result::<Option<FieldAttr>, Seq<Diagnostic>>::Ok(o),
                Err(ds) => m matches Err(s) && ds@ == s,
            }
        }),
{
    let entries = match get_concordium_field_attributes(annots) {
        Ok(v) => v,
        Err(ds) => {
            return Err(ds);
        },
    };
    let n = entries.len();
    let mut i: usize = 0;
    let mut cands: Vec<FieldAttr> = Vec::new();
    proof {
        assert(entries@.skip(0) =~= entries@);
    }
    while i < n
        invariant
            n == entries@.len(),
            i <= n,
            spec_named_values(entries@, name) =~= cands@ + spec_named_values(
                entries@.skip(i as int),
                name,
            ),
        decreases n - i,
    {
        proof {
            assert(entries@.skip(i as int)[0] == entries@[i as int]);
            assert(entries@.skip(i as int).drop_first() =~= entries@.skip(i as int + 1));
        }
        let e = entries[i];
        let is_lit = match e.lit {
            LitShape::NoLit => false,
            _ => true,
        };
        if e.name == name && is_lit {
            cands.push(e);
        }
        i += 1;
    }
    if cands.len() == 0 {
        Ok(None)
    } else if cands.len() == 1 {
        Ok(Some(cands[0]))
    } else {
        let m = cands.len();
        let mut j: usize = 0;
        let mut dups: Vec<Diagnostic> = Vec::new();
        while j < m
            invariant
                m == cands@.len(),
                j <= m,
                dups@.len() == j,
                forall|k: int|
                    0 <= k < j ==> #[trigger] dups@[k] == (Diagnostic {
                        pos: cands@[k].pos,
                        kind: DiagKind::DuplicateAttribute(name),
                    }),
            decreases m - j,
        {
            dups.push(Diagnostic { pos: cands[j].pos, kind: DiagKind::DuplicateAttribute(name) });
            j += 1;
        }
        proof {
            assert(dups@ =~= Seq::new(
                cands@.len(),
                |i: int|
                    Diagnostic { pos: cands@[i].pos, kind: DiagKind::DuplicateAttribute(name) },
            ));
        }
        Err(dups)
    }
}

/// The width a literal-valued length option denotes, or why it does not.
pub open spec fn spec_length_of(a: FieldAttr) -> Result<u32, Diagnostic> {
    match a.lit {
        LitShape::IntVal(v) => if v > 0xffff_ffffu64 {
            Err(Diagnostic { pos: a.pos, kind: DiagKind::LengthNotBase10 })
        } else if v == 1 || v == 2 || v == 4 || v == 8 {
            Ok(v as u32)
        } else {
            Err(Diagnostic { pos: a.pos, kind: DiagKind::LengthOutOfRange })
        },
        _ => Err(Diagnostic { pos: a.pos, kind: DiagKind::LengthNotInteger }),
    }
}

/// What looking a length option up yields: a validated width in {1, 2, 4, 8},
/// absence, or the collected diagnostics.
pub open spec fn spec_find_length(annots: Seq<FieldAnnot>, name: AttrName) -> Result<
    Option<u32>,
    Seq<Diagnostic>,
> {
    match spec_find_field_attr(annots, name) {
        Err(ds) => Err(ds),
        Ok(o) => match o {
            None => Ok(None),
            Some(a) => match spec_length_of(a) {
                Ok(w) => Ok(Some(w)),
                Err(d) => Err(seq![d]),
            },
        },
    }
}

/// Look a length option up and validate its value.
///
/// The value must be an integer literal, must fit a 32-bit base-10 reading,
/// and must be one of 1, 2, 4 or 8; each violation is its own error at the
/// occurrence's position.
pub fn find_length_attribute(annots: &Vec<FieldAnnot>, name: AttrName) -> (r: Result<
    Option<u32>,
    Vec<Diagnostic>,
>)
    ensures
        ({
            let m = spec_find_length(annots@, name);
            match r {
                Ok(o) => m == Result::<Option<u32>, Seq<Diagnostic>>::Ok(o),
                Err(ds) => m matches Err(s) && ds@ == s,
            }
        }),
{
    let found = match find_field_attribute_value(annots, name) {
        Ok(o) => o,
        Err(ds) => {
            return Err(ds);
        },
    };
    match found {
        None => Ok(None),
        Some(a) => match a.lit {
            LitShape::IntVal(v) => {
                if v > 0xffff_ffffu64 {
                    Err(vec![Diagnostic { pos: a.pos, kind: DiagKind::LengthNotBase10 }])
                } else if v == 1 || v == 2 || v == 4 || v == 8 {
                    Ok(Some(v as u32))
                } else {
                    Err(vec![Diagnostic { pos: a.pos, kind: DiagKind::LengthOutOfRange }])
                }
            },
            _ => Err(vec![Diagnostic { pos: a.pos, kind: DiagKind::LengthNotInteger }]),
        },
    }
}

/// What a length-prefixed field holds.
#[derive(Clone, Copy, PartialEq, Eq, Structural, Debug)]
pub enum LengthKind {
    /// A sequence of elements.
    Sequence,
    /// A map's key/value entries.
    MapEntries,
    /// A set's elements.
    SetElements,
    /// A string's UTF-8 bytes.
    Utf8String,
}

/// How decoded keys are policed.
#[derive(Clone, Copy, PartialEq, Eq, Structural, Debug)]
pub enum OrderPolicy {
    /// No ordering applies: sequences and strings.
    Unchecked,
    /// Any key order decodes; the container resolves duplicates itself.
    Unique,
    /// Each decoded key must exceed the previous one.
    StrictlyIncreasing,
}

/// A field's resolved encoding strategy.
#[derive(Clone, Copy, PartialEq, Eq, Structural, Debug)]
pub enum Strategy {
    /// No length annotation: the field type's own codec applies.
    Delegate,
    /// A length-prefixed container with the configured width, kind and
    /// ordering policy.
    LengthPrefixed { width: Width, kind: LengthKind, policy: OrderPolicy },
}

/// The width a validated length value in {1, 2, 4, 8} denotes.
pub open spec fn spec_width_of(n: u32) -> Width {
    if n == 1 {
        Width::W1
    } else if n == 2 {
        Width::W2
    } else if n == 4 {
        Width::W4
    } else {
        Width::W8
    }
}

/// What resolving a field's annotations yields: the four length options are
/// queried in priority order — sequence, map, set, string — and the first
/// one present wins; with none, the field delegates. The ordering flag
/// turns a map's or set's policy from unique keys into strictly increasing
/// keys.
pub open spec fn spec_resolve_strategy(annots: Seq<FieldAnnot>) -> Result<
    Strategy,
    Seq<Diagnostic>,
> {
    let ordered = spec_contains_field(spec_field_entries(annots), AttrName::EnsureOrdered);
    match spec_find_length(annots, AttrName::SizeLength) {
        Err(ds) => Err(ds),
        Ok(o) => match o {
            Some(w) => Ok(
                Strategy::LengthPrefixed {
                    width: spec_width_of(w),
                    kind: LengthKind::Sequence,
                    policy: OrderPolicy::Unchecked,
                },
            ),
            None => match spec_find_length(annots, AttrName::MapSizeLength) {
                Err(ds) => Err(ds),
                Ok(o2) => match o2 {
                    Some(w) => Ok(
                        Strategy::LengthPrefixed {
                            width: spec_width_of(w),
                            kind: LengthKind::MapEntries,
                            policy: if ordered {
                                OrderPolicy::StrictlyIncreasing
                            } else {
                                OrderPolicy::Unique
                            },
                        },
                    ),
                    None => match spec_find_length(annots, AttrName::SetSizeLength) {
                        Err(ds) => Err(ds),
                        Ok(o3) => match o3 {
                            Some(w) => Ok(
                                Strategy::LengthPrefixed {
                                    width: spec_width_of(w),
                                    kind: LengthKind::SetElements,
                                    policy: if ordered {
                                        OrderPolicy::StrictlyIncreasing
                                    } else {
                                        OrderPolicy::Unique
                                    },
                                },
                            ),
                            None => match spec_find_length(annots, AttrName::StringSizeLength) {
                                Err(ds) => Err(ds),
                                Ok(o4) => match o4 {
                                    Some(w) => Ok(
                                        Strategy::LengthPrefixed {
                                            width: spec_width_of(w),
                                            kind: LengthKind::Utf8String,
                                            policy: OrderPolicy::Unchecked,
                                        },
                                    ),
                                    None => Ok(Strategy::Delegate),
                                },
                            },
                        },
                    },
                },
            },
        },
    }
}

/// Whether a stripped entry with the given name is present.
fn contains_field_attr(entries: &Vec<FieldAttr>, name: AttrName) -> (r: bool)
    ensures
        r == spec_contains_field(entries@, name),
{
    let n = entries.len();
    let mut i: usize = 0;
    while i < n
        invariant
            n == entries@.len(),
            i <= n,
            forall|j: int| 0 <= j < i ==> (#[trigger] entries@[j]).name != name,
        decreases n - i,
    {
        if entries[i].name == name {
            return true;
        }
        i += 1;
    }
    false
}

/// The width a validated length value denotes.
fn width_of_len(n: u32) -> (r: Width)
    requires
        n == 1 || n == 2 || n == 4 || n == 8,
    ensures
        r == spec_width_of(n),
{
    if n == 1 {
        Width::W1
    } else if n == 2 {
        Width::W2
    } else if n == 4 {
        Width::W4
    } else {
        Width::W8
    }
}

/// Resolve a field's encoding strategy from its annotations.
///
/// The four length options are queried in priority order and the first one
/// present decides the container kind and the prefix width; the ordering
/// flag sharpens a map's or set's policy. A field with no length annotation
/// delegates to its type's own codec.
pub fn resolve_field_strategy(annots: &Vec<FieldAnnot>) -> (r: Result<Strategy, Vec<Diagnostic>>)
    ensures
        ({
            let m = spec_resolve_strategy(annots@);
            match r {
                Ok(s) => m == Result::<Strategy, Seq<Diagnostic>>::Ok(s),
                Err(ds) => m matches Err(s) && ds@ == s,
            }
        }),
{
    let size = match find_length_attribute(annots, AttrName::SizeLength) {
        Ok(o) => o,
        Err(ds) => {
            return Err(ds);
        },
    };
    if let Some(w) = size {
        return Ok(
            Strategy::LengthPrefixed {
                width: width_of_len(w),
                kind: LengthKind::Sequence,
                policy: OrderPolicy::Unchecked,
            },
        );
    }
    let entries = match get_concordium_field_attributes(annots) {
        Ok(v) => v,
        Err(ds) => {
            return Err(ds);
        },
    };
    let ordered = contains_field_attr(&entries, AttrName::EnsureOrdered);
    let map_len = match find_length_attribute(annots, AttrName::MapSizeLength) {
        Ok(o) => o,
        Err(ds) => {
            return Err(ds);
        },
    };
    if let Some(w) = map_len {
        return Ok(
            Strategy::LengthPrefixed {
                width: width_of_len(w),
                kind: LengthKind::MapEntries,
                policy: if ordered {
                    OrderPolicy::StrictlyIncreasing
                } else {
                    OrderPolicy::Unique
                },
            },
        );
    }
    let set_len = match find_length_attribute(annots, AttrName::SetSizeLength) {
        Ok(o) => o,
        Err(ds) => {
            return Err(ds);
        },
    };
    if let Some(w) = set_len {
        return Ok(
            Strategy::LengthPrefixed {
                width: width_of_len(w),
                kind: LengthKind::SetElements,
                policy: if ordered {
                    OrderPolicy::StrictlyIncreasing
                } else {
                    OrderPolicy::Unique
                },
            },
        );
    }
    let string_len = match find_length_attribute(annots, AttrName::StringSizeLength) {
        Ok(o) => o,
        Err(ds) => {
            return Err(ds);
        },
    };
    if let Some(w) = string_len {
        return Ok(
            Strategy::LengthPrefixed {
                width: width_of_len(w),
                kind: LengthKind::Utf8String,
                policy: OrderPolicy::Unchecked,
            },
        );
    }
    Ok(Strategy::Delegate)
}

} // verus!
