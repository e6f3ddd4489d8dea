//! Expansion of the delegation annotation on a struct with one field or on an
//! enum whose variants each hold one field: the conversion into the nested
//! choice representation and the per-trait derive calls.
use crate::generics::{Generics, Predicate};
use vstd::prelude::*;
use vstd::string::StringExecFns;

verus! {

/// Copies an optional string.
pub fn copy_opt(s: &Option<String>) -> (r: Option<String>)
    ensures
        r == *s,
{
    match s {
        Some(x) => Some(x.clone()),
        None => None,
    }
}

/// Why a struct or an enum cannot be delegated.
#[derive(Clone, Copy, Debug, PartialEq, Eq, Structural)]
pub enum DeriveError {
    /// A struct that does not have exactly one field.
    StructFieldCount,
    /// An enum variant that does not have exactly one field.
    VariantFieldCount,
    /// A field or variant that carries more than one delegation attribute.
    DuplicateAttribute,
}

/// Arguments of a delegation attribute on a field or a variant.
#[derive(Debug)]
pub struct InnerArgs {
    /// Source text of the adapter type given by `as = ..`, if any.
    pub as_ty: Option<String>,
}

impl InnerArgs {
    /// Picks the one delegation attribute of a field or a variant, if any.
    pub fn from_attrs(attrs: &Vec<InnerArgs>) -> (r: Result<Option<InnerArgs>, DeriveError>)
        ensures
            attrs@.len() == 0 ==> r == Ok::<Option<InnerArgs>, DeriveError>(None),
            attrs@.len() == 1 ==> r == Ok::<Option<InnerArgs>, DeriveError>(Some(attrs@[0])),
            attrs@.len() > 1 ==> r == Err::<Option<InnerArgs>, DeriveError>(DeriveError::DuplicateAttribute),
    {
        if attrs.len() == 0 {
            Ok(None)
        } else if attrs.len() == 1 {
            Ok(Some(InnerArgs { as_ty: copy_opt(&attrs[0].as_ty) }))
        } else {
            Err(DeriveError::DuplicateAttribute)
        }
    }
}

/// A field as declared in a struct or in an enum variant.
#[derive(Debug)]
pub struct FieldDecl {
    /// Name of the field; `None` in a tuple struct or variant.
    pub ident: Option<String>,
    /// Source text of the declared type.
    pub ty: String,
    /// Delegation attributes found on the field.
    pub attrs: Vec<InnerArgs>,
}

/// An enum variant as declared.
#[derive(Debug)]
pub struct VariantDecl {
    /// Name of the variant.
    pub ident: String,
    /// Its fields.
    pub fields: Vec<FieldDecl>,
    /// Delegation attributes found on the variant.
    pub attrs: Vec<InnerArgs>,
}

/// The single field of a delegated struct.
#[derive(Debug)]
pub struct Field {
    /// Name of the field; `None` for the field `0` of a tuple struct.
    pub ident: Option<String>,
    /// Source text of the declared type.
    pub ty: String,
    /// Adapter type for a field whose type is owned elsewhere.
    pub wrapper_ty: Option<String>,
}

/// The type a payload is delegated as: its adapter if it has one, else its
/// declared type.
pub open spec fn effective(ty: String, wrapper_ty: Option<String>) -> String {
    match wrapper_ty {
        Some(w) => w,
        None => ty,
    }
}

impl Field {
    /// Takes the single field of a struct.
    pub fn try_from(fields: &Vec<FieldDecl>) -> (r: Result<Field, DeriveError>)
        ensures
            fields@.len() != 1 ==> r == Err::<Field, DeriveError>(DeriveError::StructFieldCount),
            fields@.len() == 1 && fields@[0].attrs@.len() > 1
                ==> r == Err::<Field, DeriveError>(DeriveError::DuplicateAttribute),
            fields@.len() == 1 && fields@[0].attrs@.len() <= 1 ==> r is Ok
                && r->Ok_0.ident == fields@[0].ident
                && r->Ok_0.ty == fields@[0].ty
                && r->Ok_0.wrapper_ty == (if fields@[0].attrs@.len() == 1 {
                    fields@[0].attrs@[0].as_ty
                } else {
                    None
                }),
    {
        if fields.len() != 1 {
            return Err(DeriveError::StructFieldCount);
        }
        let f = &fields[0];
        let wrapper_ty = match InnerArgs::from_attrs(&f.attrs) {
            Ok(Some(a)) => a.as_ty,
            Ok(None) => None,
            Err(e) => return Err(e),
        };
        Ok(Field { ident: copy_opt(&f.ident), ty: f.ty.clone(), wrapper_ty })
    }

    /// The type this field is delegated as.
    pub fn delegated_ty(&self) -> (r: String)
        ensures
            r == effective(self.ty, self.wrapper_ty),
    {
        match &self.wrapper_ty {
            Some(w) => w.clone(),
            None => self.ty.clone(),
        }
    }
}

/// A variant of a delegated enum.
#[derive(Debug)]
pub struct Variant {
    /// Name of the variant.
    pub ident: String,
    /// Name of its field; `None` means the field is unnamed.
    pub field_ident: Option<String>,
    /// Source text of the field's declared type.
    pub ty: String,
    /// Adapter type for a field whose type is owned elsewhere.
    pub wrapper_ty: Option<String>,
}

impl Variant {
    /// Takes the single field of an enum variant.
    pub fn try_from(v: &VariantDecl) -> (r: Result<Variant, DeriveError>)
        ensures
            v.attrs@.len() > 1 ==> r == Err::<Variant, DeriveError>(DeriveError::DuplicateAttribute),
            v.attrs@.len() <= 1 && v.fields@.len() != 1
                ==> r == Err::<Variant, DeriveError>(DeriveError::VariantFieldCount),
            v.attrs@.len() <= 1 && v.fields@.len() == 1 ==> r is Ok
                && r->Ok_0.ident == v.ident
                && r->Ok_0.field_ident == v.fields@[0].ident
                && r->Ok_0.ty == v.fields@[0].ty
                && r->Ok_0.wrapper_ty == (if v.attrs@.len() == 1 {
                    v.attrs@[0].as_ty
                } else {
                    None
                }),
    {
        let wrapper_ty = match InnerArgs::from_attrs(&v.attrs) {
            Ok(Some(a)) => a.as_ty,
            Ok(None) => None,
            Err(e) => return Err(e),
        };
        if v.fields.len() != 1 {
            return Err(DeriveError::VariantFieldCount);
        }
        let f = &v.fields[0];
        Ok(
            Variant {
                ident: v.ident.clone(),
                field_ident: copy_opt(&f.ident),
                ty: f.ty.clone(),
                wrapper_ty,
            },
        )
    }
}

/// Delegated enum variants or the single field of a struct.
#[derive(Debug)]
pub enum DelegatedTypes {
    /// Variants of the enum.
    Variants(Vec<Variant>),
    /// Field of the struct.
    Field(Field),
}

/// The types the variants are delegated as, in declaration order.
pub open spec fn variant_types(vs: Seq<Variant>) -> Seq<String> {
    Seq::new(vs.len(), |i: int| effective(vs[i].ty, vs[i].wrapper_ty))
}

/// The payload types of delegated types, in order.
pub open spec fn payload_types(d: DelegatedTypes) -> Seq<String> {
    match d {
        DelegatedTypes::Variants(vs) => variant_types(vs@),
        DelegatedTypes::Field(f) => seq![effective(f.ty, f.wrapper_ty)],
    }
}

impl DelegatedTypes {
    /// Returns the payload types, in order.
    pub fn types(&self) -> (r: Vec<String>)
        ensures
            r@ == payload_types(*self),
    {
        match self {
            DelegatedTypes::Variants(vs) => {
                let mut r: Vec<String> = Vec::new();
                let mut i: usize = 0;
                while i < vs.len()
                    invariant
                        i <= vs@.len(),
                        r@ == variant_types(vs@).subrange(0, i as int),
                    decreases vs@.len() - i,
                {
                    let t = match &vs[i].wrapper_ty {
                        Some(w) => w.clone(),
                        None => vs[i].ty.clone(),
                    };
                    r.push(t);
                    assert(r@ == variant_types(vs@).subrange(0, i + 1));
                    i += 1;
                }
                assert(r@ == variant_types(vs@));
                r
            },
            DelegatedTypes::Field(f) => {
                let mut r: Vec<String> = Vec::new();
                r.push(f.delegated_ty());
                assert(r@ == seq![effective(f.ty, f.wrapper_ty)]);
                r
            },
        }
    }
}

/// A right-nested choice type over payload types, ending in the never type:
/// `Either<T1, Either<T2, .. Either<Tn, Void> ..>>`.
#[derive(Debug)]
pub enum Choice {
    /// The never type, which has no value.
    Void,
    /// A choice between a payload type and the rest.
    Either(String, Box<Choice>),
}

/// The choice type over a sequence of payload types.
pub open spec fn choice_of(types: Seq<String>) -> Choice
    decreases types.len(),
{
    if types.len() == 0 {
        Choice::Void
    } else {
        Choice::Either(types[0], Box::new(choice_of(types.drop_first())))
    }
}

/// The payload type that a value injected `depth` steps to the right holds,
/// or `None` where that position is the never type.
pub open spec fn payload_at(c: Choice, depth: nat) -> Option<String>
    decreases c,
{
    match c {
        Choice::Void => None,
        Choice::Either(t, rest) => if depth == 0 {
            Some(t)
        } else {
            payload_at(*rest, (depth - 1) as nat)
        },
    }
}

/// Number of payload positions of a choice type.
pub open spec fn arity(c: Choice) -> nat
    decreases c,
{
    match c {
        Choice::Void => 0,
        Choice::Either(_, rest) => 1 + arity(*rest),
    }
}

/// Builds the choice type over payload types.
pub fn generate_either(types: &Vec<String>) -> (r: Choice)
    ensures
        r == choice_of(types@),
{
    let mut c = Choice::Void;
    let mut i: usize = types.len();
    assert(types@.subrange(i as int, types@.len() as int).len() == 0);
    while i > 0
        invariant
            i <= types@.len(),
            c == choice_of(types@.subrange(i as int, types@.len() as int)),
        decreases i,
    {
        i -= 1;
        let ghost tail = types@.subrange(i as int, types@.len() as int);
        assert(tail.drop_first() == types@.subrange(i + 1, types@.len() as int));
        c = Choice::Either(types[i].clone(), Box::new(c));
    }
    assert(types@.subrange(0, types@.len() as int) == types@);
    c
}

/// The text before a payload type in a choice type of the given mode.
pub open spec fn mode_prefix(mode: Mode) -> Seq<char> {
    match mode {
        Mode::Owned => ""@,
        Mode::Ref => "&'__delegate "@,
        Mode::RefMut => "&'__delegate mut "@,
    }
}

/// Source text of a choice type whose support types live under `support`:
/// `support::Either<P1, support::Either<P2, .. support::Void>>`, each payload
/// borrowed as the mode says.
pub open spec fn choice_text(c: Choice, mode: Mode, support: Seq<char>) -> Seq<char>
    decreases c,
{
    match c {
        Choice::Void => support + "::Void"@,
        Choice::Either(t, rest) => support + "::Either<"@ + mode_prefix(mode) + t@ + ", "@
            + choice_text(*rest, mode, support) + ">"@,
    }
}

impl Choice {
    /// Writes the source text of this choice type.
    pub fn render(&self, mode: Mode, support: &str) -> (r: String)
        ensures
            r@ == choice_text(*self, mode, support@),
        decreases self,
    {
        match self {
            Choice::Void => {
                let mut r = support.to_owned();
                r.append("::Void");
                r
            },
            Choice::Either(t, rest) => {
                let mut r = support.to_owned();
                r.append("::Either<");
                match mode {
                    Mode::Owned => r.append(""),
                    Mode::Ref => r.append("&'__delegate "),
                    Mode::RefMut => r.append("&'__delegate mut "),
                }
                r.append(t.as_str());
                r.append(", ");
                let inner = rest.render(mode, support);
                r.append(inner.as_str());
                r.append(">");
                r
            },
        }
    }
}

/// Source text of `value` injected `depth` steps to the right:
/// `support::Either::Right(.. support::Either::Left(value) ..)`.
pub open spec fn injection_text(depth: nat, value: Seq<char>, support: Seq<char>) -> Seq<char>
    decreases depth,
{
    if depth == 0 {
        support + "::Either::Left("@ + value + ")"@
    } else {
        support + "::Either::Right("@ + injection_text((depth - 1) as nat, value, support) + ")"@
    }
}

/// Writes the source text of `value` injected `depth` steps to the right.
pub fn render_injection(depth: usize, value: &str, support: &str) -> (r: String)
    ensures
        r@ == injection_text(depth as nat, value@, support@),
    decreases depth,
{
    let mut r = support.to_owned();
    if depth == 0 {
        r.append("::Either::Left(");
        r.append(value);
    } else {
        r.append("::Either::Right(");
        let inner = render_injection(depth - 1, value, support);
        r.append(inner.as_str());
    }
    r.append(")");
    r
}

/// How a payload is turned into the delegated type: unchanged, or through the
/// adapter's `From` conversion from the declared type.
#[derive(Debug)]
pub enum Conversion {
    /// The payload is used as it is.
    Direct,
    /// `<adapter as From<declared>>::from(payload)`.
    Adapter {
        /// Adapter type.
        adapter: String,
        /// Declared type of the payload.
        declared: String,
    },
}

/// The conversion for a payload with an optional adapter.
pub open spec fn conversion_of(ty: String, wrapper_ty: Option<String>) -> Conversion {
    match wrapper_ty {
        Some(w) => Conversion::Adapter { adapter: w, declared: ty },
        None => Conversion::Direct,
    }
}

/// Builds the conversion for a payload with an optional adapter.
fn make_conversion(ty: &String, wrapper_ty: &Option<String>) -> (r: Conversion)
    ensures
        r == conversion_of(*ty, *wrapper_ty),
{
    match wrapper_ty {
        Some(w) => Conversion::Adapter { adapter: w.clone(), declared: ty.clone() },
        None => Conversion::Direct,
    }
}

/// One arm of the match that converts an enum into its choice
/// representation: `Self::Variant(v) => Right(.. Right(Left(conv(v))) ..)`.
#[derive(Debug)]
pub struct Arm {
    /// Name of the matched variant.
    pub variant: String,
    /// Name of the matched field; `None` binds the unnamed field as `v`.
    pub field_ident: Option<String>,
    /// Conversion applied to the bound payload.
    pub conversion: Conversion,
    /// Number of right-injections around the left-injection.
    pub depth: usize,
}

/// The arm for the variant at position `i`.
pub open spec fn arm_of(v: Variant, i: int) -> Arm {
    Arm {
        variant: v.ident,
        field_ident: v.field_ident,
        conversion: conversion_of(v.ty, v.wrapper_ty),
        depth: i as usize,
    }
}

/// Generates the arms of the match that converts an enum into its choice
/// representation: one per variant, in declaration order, the variant at
/// position `i` injected `i` steps to the right.
pub fn generate_match(variants: &Vec<Variant>) -> (r: Vec<Arm>)
    ensures
        r@.len() == variants@.len(),
        forall|i: int| 0 <= i < variants@.len() ==> #[trigger] r@[i] == arm_of(variants@[i], i),
{
    let mut r: Vec<Arm> = Vec::new();
    let mut i: usize = 0;
    while i < variants.len()
        invariant
            i <= variants@.len(),
            r@.len() == i,
            forall|j: int| 0 <= j < i ==> #[trigger] r@[j] == arm_of(variants@[j], j),
        decreases variants@.len() - i,
    {
        let v = &variants[i];
        r.push(
            Arm {
                variant: v.ident.clone(),
                field_ident: copy_opt(&v.field_ident),
                conversion: make_conversion(&v.ty, &v.wrapper_ty),
                depth: i,
            },
        );
        i += 1;
    }
    r
}

/// How `self` is taken by a conversion method.
#[derive(Clone, Copy, Debug, PartialEq, Eq, Structural)]
pub enum Mode {
    /// By value.
    Owned,
    /// By shared reference.
    Ref,
    /// By exclusive reference.
    RefMut,
}

/// Body of a conversion method of a struct: the field, taken in the method's
/// mode and converted, injected to the left.
#[derive(Debug)]
pub struct FieldConvert {
    /// How the field is taken.
    pub mode: Mode,
    /// Name of the field; `None` for the field `0`.
    pub ident: Option<String>,
    /// Conversion applied to the field.
    pub conversion: Conversion,
}

/// Generates the body of a conversion method of a struct.
pub fn generate_field_convert_impl(field: &Field, mode: Mode) -> (r: FieldConvert)
    ensures
        r == (FieldConvert {
            mode,
            ident: field.ident,
            conversion: conversion_of(field.ty, field.wrapper_ty),
        }),
{
    FieldConvert {
        mode,
        ident: copy_opt(&field.ident),
        conversion: make_conversion(&field.ty, &field.wrapper_ty),
    }
}

/// Bodies of the three conversion methods.
#[derive(Debug)]
pub enum ConvertBody {
    /// A match over the variants of an enum, shared by the three methods.
    Match(Vec<Arm>),
    /// Owned, by-reference and by-exclusive-reference field conversions.
    Field(FieldConvert, FieldConvert, FieldConvert),
}

/// The implementation of the conversion contract for a delegated type.
#[derive(Debug)]
pub struct ConvertImpl {
    /// Name of the delegated type.
    pub ident: String,
    /// Its generics.
    pub generics: Generics,
    /// Choice type over the payload types; the by-reference forms borrow
    /// each payload.
    pub choice: Choice,
    /// Payload types that must outlive the borrow in the by-reference forms.
    pub outlives: Vec<String>,
    /// Bodies of the conversion methods.
    pub body: ConvertBody,
}

/// Path to an item: segments with the source text of their generic
/// arguments.
#[derive(Debug)]
pub struct Path {
    /// Whether the path starts with `::`.
    pub leading_colon: bool,
    /// Its segments, in order.
    pub segments: Vec<PathSegment>,
}

/// One segment of a path.
#[derive(Debug)]
pub struct PathSegment {
    /// Name of the segment.
    pub ident: String,
    /// Source text of its generic arguments, such as `<T>`, if any.
    pub arguments: Option<String>,
}

impl PathSegment {
    /// Returns an equal copy of this segment.
    pub fn copy(&self) -> (r: PathSegment)
        ensures
            r == *self,
    {
        PathSegment { ident: self.ident.clone(), arguments: copy_opt(&self.arguments) }
    }
}

/// Segments of a path with the arguments of the last one removed.
pub open spec fn without_last_arguments(segs: Seq<PathSegment>) -> Seq<PathSegment> {
    Seq::new(
        segs.len(),
        |i: int|
            if i == segs.len() - 1 {
                PathSegment { ident: segs[i].ident, arguments: None }
            } else {
                segs[i]
            },
    )
}

impl Path {
    /// Returns a copy of this path with the same segments.
    pub fn copy(&self) -> (r: Path)
        ensures
            r.leading_colon == self.leading_colon,
            r.segments@ == self.segments@,
    {
        let mut segs: Vec<PathSegment> = Vec::new();
        let mut i: usize = 0;
        while i < self.segments.len()
            invariant
                i <= self.segments@.len(),
                segs@ == self.segments@.subrange(0, i as int),
            decreases self.segments@.len() - i,
        {
            segs.push(self.segments[i].copy());
            i += 1;
        }
        assert(segs@ == self.segments@.subrange(0, self.segments@.len() as int));
        Path { leading_colon: self.leading_colon, segments: segs }
    }
}

/// A trait to re-implement for a delegated type:
/// `[for<generics>] trait-path [as adapter-path] [where clause]`.
#[derive(Debug)]
pub struct DeriveTrait {
    /// Path of the trait.
    pub path: Path,
    /// Path of the external trait adapter, if any.
    pub wrapper_ty: Option<Path>,
    /// Generics added to the implementation.
    pub generics: Option<Generics>,
    /// Constraints added to the implementation.
    pub where_clause: Option<Vec<Predicate>>,
}

impl DeriveTrait {
    /// Path of the macro that completes the implementation of this trait: the
    /// adapter path if there is one, else the trait path without the generic
    /// arguments of its last segment.
    pub fn macro_rules_path(&self) -> (r: Path)
        ensures
            self.wrapper_ty is Some ==> r.leading_colon == self.wrapper_ty->0.leading_colon
                && r.segments@ == self.wrapper_ty->0.segments@,
            self.wrapper_ty is None ==> r.leading_colon == self.path.leading_colon
                && r.segments@ == without_last_arguments(self.path.segments@),
    {
        if let Some(w) = &self.wrapper_ty {
            return w.copy();
        }
        let n = self.path.segments.len();
        let mut segs: Vec<PathSegment> = Vec::new();
        let mut i: usize = 0;
        while i < n
            invariant
                n == self.path.segments@.len(),
                i <= n,
                segs@ == without_last_arguments(self.path.segments@).subrange(0, i as int),
            decreases n - i,
        {
            let s = &self.path.segments[i];
            if i + 1 == n {
                segs.push(PathSegment { ident: s.ident.clone(), arguments: None });
            } else {
                segs.push(s.copy());
            }
            assert(segs@ == without_last_arguments(self.path.segments@).subrange(0, i + 1));
            i += 1;
        }
        assert(segs@ == without_last_arguments(self.path.segments@));
        Path { leading_colon: self.path.leading_colon, segments: segs }
    }
}

/// A call of a trait's completion macro for a delegated type.
#[derive(Debug)]
pub struct DeriveCall {
    /// Path of the completion macro.
    pub macro_path: Path,
    /// Path of the trait.
    pub trait_path: Path,
    /// Path of the wrapper type; `None` means the library's own wrapper.
    pub wrapper: Option<Path>,
    /// Generics of the implementation: the type's own, then the entry's,
    /// then the entry's constraints.
    pub generics: Generics,
}

/// A delegated struct or enum.
#[derive(Debug)]
pub struct Definition {
    /// Name of the type.
    pub ident: String,
    /// Its generics.
    pub generics: Generics,
    /// Its variants or its single field.
    pub delegated: DelegatedTypes,
    /// Traits to re-implement.
    pub derived_traits: Vec<DeriveTrait>,
}

/// Result of the validation of each variant, in order, stopping at the first
/// error.
pub open spec fn first_variant_error(vs: Seq<VariantDecl>) -> Option<DeriveError>
    decreases vs.len(),
{
    if vs.len() == 0 {
        None
    } else if vs[0].attrs@.len() > 1 {
        Some(DeriveError::DuplicateAttribute)
    } else if vs[0].fields@.len() != 1 {
        Some(DeriveError::VariantFieldCount)
    } else {
        first_variant_error(vs.drop_first())
    }
}

/// The variant that a valid declaration gives.
pub open spec fn variant_of(v: VariantDecl) -> Variant {
    Variant {
        ident: v.ident,
        field_ident: v.fields@[0].ident,
        ty: v.fields@[0].ty,
        wrapper_ty: if v.attrs@.len() == 1 {
            v.attrs@[0].as_ty
        } else {
            None
        },
    }
}

proof fn lemma_first_variant_error_prefix(vs: Seq<VariantDecl>, i: int)
    requires
        0 <= i < vs.len(),
        first_variant_error(vs.subrange(0, i)) is None,
    ensures
        first_variant_error(vs.subrange(0, i + 1)) == (if vs[i].attrs@.len() > 1 {
            Some(DeriveError::DuplicateAttribute)
        } else if vs[i].fields@.len() != 1 {
            Some(DeriveError::VariantFieldCount)
        } else {
            None::<DeriveError>
        }),
    decreases i,
{
    reveal_with_fuel(first_variant_error, 2);
    let p = vs.subrange(0, i + 1);
    if i > 0 {
        let q = vs.subrange(0, i);
        assert(p[0] == vs[0]);
        assert(q[0] == vs[0]);
        assert(p.drop_first() == vs.drop_first().subrange(0, i));
        assert(q.drop_first() == vs.drop_first().subrange(0, i - 1));
        assert(vs.drop_first()[i - 1] == vs[i]);
        lemma_first_variant_error_prefix(vs.drop_first(), i - 1);
    } else {
        assert(p[0] == vs[0]);
        assert(p.drop_first().len() == 0);
    }
}

proof fn lemma_first_variant_error_extend(vs: Seq<VariantDecl>, i: int)
    requires
        0 <= i < vs.len(),
        first_variant_error(vs.subrange(0, i)) is None,
        vs[i].attrs@.len() > 1 || vs[i].fields@.len() != 1,
    ensures
        first_variant_error(vs) == (if vs[i].attrs@.len() > 1 {
            Some(DeriveError::DuplicateAttribute)
        } else {
            Some(DeriveError::VariantFieldCount)
        }),
    decreases i,
{
    if i > 0 {
        let p = vs.subrange(0, i);
        assert(p[0] == vs[0]);
        assert(p.drop_first() == vs.drop_first().subrange(0, i - 1));
        lemma_first_variant_error_extend(vs.drop_first(), i - 1);
    }
}

impl Definition {
    /// Reads a delegated enum: each variant must hold exactly one field and
    /// carry at most one delegation attribute.
    pub fn parse_enum(
        ident: String,
        generics: Generics,
        variants: &Vec<VariantDecl>,
        derive: Vec<DeriveTrait>,
    ) -> (r: Result<Definition, DeriveError>)
        ensures
            first_variant_error(variants@) is Some
                ==> r == Err::<Definition, DeriveError>(first_variant_error(variants@)->0),
            first_variant_error(variants@) is None ==> r is Ok && r->Ok_0.ident == ident
                && r->Ok_0.delegated is Variants
                && r->Ok_0.delegated->Variants_0@ == variants@.map_values(
                    |v: VariantDecl| variant_of(v),
                ) && r->Ok_0.generics == generics && r->Ok_0.derived_traits == derive,
    {
        let mut vs: Vec<Variant> = Vec::new();
        let mut i: usize = 0;
        while i < variants.len()
            invariant
                i <= variants@.len(),
                first_variant_error(variants@.subrange(0, i as int)) is None,
                vs@ == variants@.subrange(0, i as int).map_values(|v: VariantDecl| variant_of(v)),
            decreases variants@.len() - i,
        {
            proof {
                lemma_first_variant_error_prefix(variants@, i as int);
            }
            let v = Variant::try_from(&variants[i]);
            match v {
                Ok(v) => {
                    vs.push(v);
                },
                Err(e) => {
                    proof {
                        lemma_first_variant_error_extend(variants@, i as int);
                    }
                    return Err(e);
                },
            }
            assert(vs@ == variants@.subrange(0, i + 1).map_values(|v: VariantDecl| variant_of(v)));
            i += 1;
        }
        assert(variants@.subrange(0, variants@.len() as int) == variants@);
        Ok(
            Definition {
                ident,
                generics,
                delegated: DelegatedTypes::Variants(vs),
                derived_traits: derive,
            },
        )
    }

    /// Reads a delegated struct: it must hold exactly one field, carrying at
    /// most one delegation attribute.
    pub fn parse_struct(
        ident: String,
        generics: Generics,
        fields: &Vec<FieldDecl>,
        derive: Vec<DeriveTrait>,
    ) -> (r: Result<Definition, DeriveError>)
        ensures
            fields@.len() != 1 ==> r == Err::<Definition, DeriveError>(DeriveError::StructFieldCount),
            fields@.len() == 1 && fields@[0].attrs@.len() > 1
                ==> r == Err::<Definition, DeriveError>(DeriveError::DuplicateAttribute),
            fields@.len() == 1 && fields@[0].attrs@.len() <= 1 ==> r is Ok
                && r->Ok_0.ident == ident
                && r->Ok_0.delegated is Field
                && r->Ok_0.delegated->Field_0.ident == fields@[0].ident
                && r->Ok_0.delegated->Field_0.ty == fields@[0].ty
                && r->Ok_0.delegated->Field_0.wrapper_ty == (if fields@[0].attrs@.len() == 1 {
                    fields@[0].attrs@[0].as_ty
                } else {
                    None
                }) && r->Ok_0.generics == generics && r->Ok_0.derived_traits == derive,
    {
        let field = match Field::try_from(fields) {
            Ok(f) => f,
            Err(e) => return Err(e),
        };
        Ok(Definition { ident, generics, delegated: DelegatedTypes::Field(field), derived_traits: derive })
    }

    /// Implements the conversion contract: the choice type over the payload
    /// types, and the bodies that inject `self` into it.
    pub fn impl_convert(&self) -> (r: ConvertImpl)
        ensures
            r.ident == self.ident,
            r.generics.params@ == self.generics.params@,
            r.generics.predicates@ == self.generics.predicates@,
            r.choice == choice_of(payload_types(self.delegated)),
            r.outlives@ == payload_types(self.delegated),
            self.delegated is Variants ==> r.body is Match && r.body->Match_0@.len()
                == self.delegated->Variants_0@.len() && forall|i: int|
                0 <= i < self.delegated->Variants_0@.len() ==> #[trigger] r.body->Match_0@[i]
                    == arm_of(self.delegated->Variants_0@[i], i),
            self.delegated is Field ==> r.body == ConvertBody::Field(
                generate_field_convert_impl_spec(self.delegated->Field_0, Mode::Owned),
                generate_field_convert_impl_spec(self.delegated->Field_0, Mode::Ref),
                generate_field_convert_impl_spec(self.delegated->Field_0, Mode::RefMut),
            ),
    {
        let types = self.delegated.types();
        let choice = generate_either(&types);
        let body = match &self.delegated {
            DelegatedTypes::Variants(vs) => ConvertBody::Match(generate_match(vs)),
            DelegatedTypes::Field(f) => ConvertBody::Field(
                generate_field_convert_impl(f, Mode::Owned),
                generate_field_convert_impl(f, Mode::Ref),
                generate_field_convert_impl(f, Mode::RefMut),
            ),
        };
        ConvertImpl { ident: self.ident.clone(), generics: self.generics.copy(), choice, outlives: types, body }
    }

    /// One completion macro call per requested trait, in order, each with the
    /// type's generics merged with the entry's generics and constraints.
    pub fn derive_traits(&self) -> (r: Vec<DeriveCall>)
        ensures
            r@.len() == self.derived_traits@.len(),
            forall|i: int| 0 <= i < r@.len() ==> {
                let d = #[trigger] self.derived_traits@[i];
                let c = r@[i];
                &&& c.trait_path.segments@ == d.path.segments@
                &&& c.trait_path.leading_colon == d.path.leading_colon
                &&& (d.wrapper_ty is None ==> c.wrapper is None)
                &&& (d.wrapper_ty is Some ==> c.wrapper is Some
                    && c.wrapper->0.segments@ == d.wrapper_ty->0.segments@)
                &&& (d.wrapper_ty is Some ==> c.macro_path.segments@ == d.wrapper_ty->0.segments@
                    && c.macro_path.leading_colon == d.wrapper_ty->0.leading_colon
                    && c.wrapper->0.leading_colon == d.wrapper_ty->0.leading_colon)
                &&& (d.wrapper_ty is None ==> c.macro_path.leading_colon == d.path.leading_colon)
                &&& (d.wrapper_ty is None ==> c.macro_path.segments@ == without_last_arguments(
                    d.path.segments@,
                ))
                &&& c.generics.params@ == self.generics.params@ + (if d.generics is Some {
                    d.generics->0.params@
                } else {
                    Seq::empty()
                })
                &&& c.generics.predicates@ == self.generics.predicates@ + (if d.generics is Some {
                    d.generics->0.predicates@
                } else {
                    Seq::empty()
                }) + (if d.where_clause is Some {
                    d.where_clause->0@
                } else {
                    Seq::empty()
                })
            },
    {
        let mut r: Vec<DeriveCall> = Vec::new();
        let mut i: usize = 0;
        while i < self.derived_traits.len()
            invariant
                i <= self.derived_traits@.len(),
                r@.len() == i,
                forall|j: int| 0 <= j < i ==> {
                    let d = #[trigger] self.derived_traits@[j];
                    let c = r@[j];
                    &&& c.trait_path.segments@ == d.path.segments@
                    &&& c.trait_path.leading_colon == d.path.leading_colon
                    &&& (d.wrapper_ty is None ==> c.wrapper is None)
                    &&& (d.wrapper_ty is Some ==> c.wrapper is Some
                        && c.wrapper->0.segments@ == d.wrapper_ty->0.segments@)
                    &&& (d.wrapper_ty is Some ==> c.macro_path.segments@
                        == d.wrapper_ty->0.segments@ && c.macro_path.leading_colon
                        == d.wrapper_ty->0.leading_colon && c.wrapper->0.leading_colon
                        == d.wrapper_ty->0.leading_colon)
                    &&& (d.wrapper_ty is None ==> c.macro_path.leading_colon
                        == d.path.leading_colon)
                    &&& (d.wrapper_ty is None ==> c.macro_path.segments@
                        == without_last_arguments(d.path.segments@))
                    &&& c.generics.params@ == self.generics.params@ + (if d.generics is Some {
                        d.generics->0.params@
                    } else {
                        Seq::empty()
                    })
                    &&& c.generics.predicates@ == self.generics.predicates@ + (
                    if d.generics is Some {
                        d.generics->0.predicates@
                    } else {
                        Seq::empty()
                    }) + (if d.where_clause is Some {
                        d.where_clause->0@
                    } else {
                        Seq::empty()
                    })
                },
            decreases self.derived_traits@.len() - i,
        {
            let d = &self.derived_traits[i];
            let gens = self.generics.merge(d.generics.as_ref()).merge_where_clause(
                d.where_clause.as_ref(),
            );
            proof {
                if d.generics is None {
                    assert(self.generics.params@ + Seq::<crate::generics::GenericParam>::empty()
                        == self.generics.params@);
                    assert(self.generics.predicates@ + Seq::<Predicate>::empty()
                        == self.generics.predicates@);
                }
                if d.where_clause is None {
                    assert(gens.predicates@ + Seq::<Predicate>::empty() == gens.predicates@);
                }
            }
            let wrapper = match &d.wrapper_ty {
                Some(w) => Some(w.copy()),
                None => None,
            };
            r.push(
                DeriveCall {
                    macro_path: d.macro_rules_path(),
                    trait_path: d.path.copy(),
                    wrapper,
                    generics: gens,
                },
            );
            i += 1;
        }
        r
    }
}

/// Position `k` of the choice type over `types` holds `types[k]`, and every
/// position past the last payload is the never type.
proof fn lemma_choice_positions(types: Seq<String>, k: nat)
    ensures
        payload_at(choice_of(types), k) == (if k < types.len() {
            Some(types[k as int])
        } else {
            None::<String>
        }),
        arity(choice_of(types)) == types.len(),
    decreases types.len(),
{
    if types.len() > 0 {
        if k > 0 {
            lemma_choice_positions(types.drop_first(), (k - 1) as nat);
        } else {
            lemma_choice_positions(types.drop_first(), 0);
        }
    }
}

/// Each variant of an enum sits at its own position of the choice type: the
/// arm generated for the variant at position `i` injects its payload `i`
/// steps to the right, and that position of the choice type holds exactly
/// the variant's payload type. The choice type has one position per variant
/// and the never type right after the last one, so no arm reaches the never
/// type and no fallback arm exists. (That the dispatch over these positions
/// ends at the delegated method is `lemma_round_trip_forwarding`.)
pub proof fn lemma_dispatch_round_trip(vs: Seq<Variant>, i: int)
    requires
        0 <= i < vs.len(),
        vs.len() <= usize::MAX,
    ensures
        payload_at(choice_of(variant_types(vs)), arm_of(vs[i], i).depth as nat) == Some(
            effective(vs[i].ty, vs[i].wrapper_ty),
        ),
        arm_of(vs[i], i).variant == vs[i].ident,
        arity(choice_of(variant_types(vs))) == vs.len(),
        payload_at(choice_of(variant_types(vs)), vs.len() as nat) is None,
{
    lemma_choice_positions(variant_types(vs), i as nat);
    lemma_choice_positions(variant_types(vs), vs.len() as nat);
}

/// Delegation through an adapter is delegation on the adapter type: an enum
/// whose variants carry adapters gets the same choice type as one whose
/// variants are declared with the adapter types directly, and each adapted
/// payload is converted by the adapter's `From` from its declared type.
pub proof fn lemma_adapter_path(vs: Seq<Variant>, ws: Seq<Variant>)
    requires
        vs.len() == ws.len(),
        forall|i: int|
            0 <= i < vs.len() ==> (#[trigger] ws[i]).wrapper_ty is None && ws[i].ty == effective(
                vs[i].ty,
                vs[i].wrapper_ty,
            ),
    ensures
        choice_of(variant_types(vs)) == choice_of(variant_types(ws)),
        forall|i: int|
            0 <= i < vs.len() && (#[trigger] vs[i]).wrapper_ty is Some ==> conversion_of(
                vs[i].ty,
                vs[i].wrapper_ty,
            ) == (Conversion::Adapter { adapter: ws[i].ty, declared: vs[i].ty }),
{
    assert(variant_types(vs) == variant_types(ws));
}

/// The body that [`generate_field_convert_impl`] builds.
pub open spec fn generate_field_convert_impl_spec(field: Field, mode: Mode) -> FieldConvert {
    FieldConvert { mode, ident: field.ident, conversion: conversion_of(field.ty, field.wrapper_ty) }
}

} // verus!
