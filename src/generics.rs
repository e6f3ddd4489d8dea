//! Generic parameter lists, their constraint clauses and the operations the
//! code generator performs on them.
use vstd::prelude::*;

verus! {

/// Kind of a generic parameter or argument.
#[derive(Clone, Copy, Debug, PartialEq, Eq, Structural)]
pub enum ParamKind {
    /// A lifetime, such as `'a`.
    Lifetime,
    /// A type, such as `T`.
    Type,
    /// A constant, such as `const N: usize`.
    Const,
}

/// One generic parameter: its kind, its name and the source text of its
/// bounds.
#[derive(Debug)]
pub struct GenericParam {
    /// Kind of the parameter.
    pub kind: ParamKind,
    /// Name of the parameter (`'a` for a lifetime).
    pub name: String,
    /// Source text of the bounds (`Clone + 'b`) or, for a constant, its
    /// type; empty when there is none.
    pub bounds: String,
}

impl GenericParam {
    /// Returns an equal copy of this parameter.
    pub fn copy(&self) -> (r: GenericParam)
        ensures
            r == *self,
    {
        GenericParam { kind: self.kind, name: self.name.clone(), bounds: self.bounds.clone() }
    }
}

/// Subject of a constraint in a `where` clause.
#[derive(Debug)]
pub enum Bounded {
    /// The `Self` type itself.
    SelfTy,
    /// A lifetime, such as `'a`.
    Lifetime(String),
    /// Any other type, as source text.
    Type(String),
}

impl Bounded {
    /// Returns an equal copy of this subject.
    pub fn copy(&self) -> (r: Bounded)
        ensures
            r == *self,
    {
        match self {
            Bounded::SelfTy => Bounded::SelfTy,
            Bounded::Lifetime(s) => Bounded::Lifetime(s.clone()),
            Bounded::Type(s) => Bounded::Type(s.clone()),
        }
    }
}

/// One constraint of a `where` clause: `subject: bound + bound`.
#[derive(Debug)]
pub struct Predicate {
    /// Constrained lifetime or type.
    pub subject: Bounded,
    /// Source text of the bounds (`Clone + 'b`).
    pub bounds: String,
}

impl Predicate {
    /// Returns an equal copy of this constraint.
    pub fn copy(&self) -> (r: Predicate)
        ensures
            r == *self,
    {
        Predicate { subject: self.subject.copy(), bounds: self.bounds.clone() }
    }

    /// Tells whether the constrained type is literally `Self`.
    pub open spec fn is_self_bound(&self) -> bool {
        self.subject is SelfTy
    }
}

/// The constraints whose subject is not `Self`, in order.
pub open spec fn without_self_bounds(v: Seq<Predicate>) -> Seq<Predicate> {
    v.filter(|p: Predicate| !p.is_self_bound())
}

/// A generic parameter list together with its constraint clause.
#[derive(Debug)]
pub struct Generics {
    /// Parameters, in declaration order.
    pub params: Vec<GenericParam>,
    /// Constraints of the `where` clause, in declaration order.
    pub predicates: Vec<Predicate>,
}

/// Copies a list of parameters, keeping every element.
pub fn copy_params(v: &Vec<GenericParam>) -> (r: Vec<GenericParam>)
    ensures
        r@ == v@,
{
    let mut r: Vec<GenericParam> = Vec::new();
    let mut i: usize = 0;
    while i < v.len()
        invariant
            i <= v@.len(),
            r@ == v@.subrange(0, i as int),
        decreases v@.len() - i,
    {
        r.push(v[i].copy());
        i += 1;
    }
    assert(r@ == v@.subrange(0, v@.len() as int));
    r
}

/// Copies a list of constraints, keeping every element.
pub fn copy_predicates(v: &Vec<Predicate>) -> (r: Vec<Predicate>)
    ensures
        r@ == v@,
{
    let mut r: Vec<Predicate> = Vec::new();
    let mut i: usize = 0;
    while i < v.len()
        invariant
            i <= v@.len(),
            r@ == v@.subrange(0, i as int),
        decreases v@.len() - i,
    {
        r.push(v[i].copy());
        i += 1;
    }
    assert(r@ == v@.subrange(0, v@.len() as int));
    r
}

/// Appends copies of every element of `src` to `dst`.
fn extend_params(dst: &mut Vec<GenericParam>, src: &Vec<GenericParam>)
    ensures
        final(dst)@ == old(dst)@ + src@,
{
    let mut i: usize = 0;
    while i < src.len()
        invariant
            i <= src@.len(),
            dst@ == old(dst)@ + src@.subrange(0, i as int),
        decreases src@.len() - i,
    {
        dst.push(src[i].copy());
        i += 1;
    }
    assert(src@.subrange(0, src@.len() as int) == src@);
}

/// Appends copies of every element of `src` to `dst`.
fn extend_predicates(dst: &mut Vec<Predicate>, src: &Vec<Predicate>)
    ensures
        final(dst)@ == old(dst)@ + src@,
{
    let mut i: usize = 0;
    while i < src.len()
        invariant
            i <= src@.len(),
            dst@ == old(dst)@ + src@.subrange(0, i as int),
        decreases src@.len() - i,
    {
        dst.push(src[i].copy());
        i += 1;
    }
    assert(src@.subrange(0, src@.len() as int) == src@);
}

impl Generics {
    /// Generics with no parameter and no constraint.
    pub fn empty() -> (r: Generics)
        ensures
            r.params@.len() == 0,
            r.predicates@.len() == 0,
    {
        Generics { params: Vec::new(), predicates: Vec::new() }
    }

    /// Returns an equal copy of these generics.
    pub fn copy(&self) -> (r: Generics)
        ensures
            r.params@ == self.params@,
            r.predicates@ == self.predicates@,
    {
        Generics { params: copy_params(&self.params), predicates: copy_predicates(&self.predicates) }
    }

    /// Merges two sets of generics: the parameters of `other` follow these
    /// parameters, and its constraints follow these constraints. Nothing is
    /// de-duplicated.
    pub fn merge(&self, other: Option<&Generics>) -> (r: Generics)
        ensures
            other is None ==> r.params@ == self.params@ && r.predicates@ == self.predicates@,
            other is Some ==> r.params@ == self.params@ + other->0.params@
                && r.predicates@ == self.predicates@ + other->0.predicates@,
    {
        let mut r = self.copy();
        if let Some(g) = other {
            extend_params(&mut r.params, &g.params);
            extend_predicates(&mut r.predicates, &g.predicates);
        }
        r
    }

    /// Extends these generics with the constraints of a `where` clause.
    pub fn merge_where_clause(&self, clause: Option<&Vec<Predicate>>) -> (r: Generics)
        ensures
            r.params@ == self.params@,
            clause is None ==> r.predicates@ == self.predicates@,
            clause is Some ==> r.predicates@ == self.predicates@ + clause->0@,
    {
        let mut r = self.copy();
        if let Some(c) = clause {
            extend_predicates(&mut r.predicates, c);
        }
        r
    }

    /// Appends the parameters and constraints of `other` to these generics.
    pub fn append(&mut self, other: &Generics)
        ensures
            final(self).params@ == old(self).params@ + other.params@,
            final(self).predicates@ == old(self).predicates@ + other.predicates@,
    {
        extend_params(&mut self.params, &other.params);
        extend_predicates(&mut self.predicates, &other.predicates);
    }

    /// Removes every constraint whose subject is literally `Self`, keeping
    /// the others in order.
    pub fn remove_self_ty_bounds(&mut self)
        ensures
            final(self).params@ == old(self).params@,
            final(self).predicates@ == without_self_bounds(old(self).predicates@),
    {
        let ghost orig = self.predicates@;
        let mut kept: Vec<Predicate> = Vec::new();
        let mut i: usize = 0;
        while i < self.predicates.len()
            invariant
                i <= orig.len(),
                self.predicates@ == orig,
                kept@ == without_self_bounds(orig.subrange(0, i as int)),
            decreases orig.len() - i,
        {
            proof {
                reveal(Seq::filter);
                assert(orig.subrange(0, i + 1).drop_last() == orig.subrange(0, i as int));
            }
            if !matches!(self.predicates[i].subject, Bounded::SelfTy) {
                kept.push(self.predicates[i].copy());
            }
            i += 1;
        }
        assert(orig.subrange(0, orig.len() as int) == orig);
        self.predicates = kept;
    }

    /// Parts of the marker type that keeps every parameter of these generics
    /// in use: a raw pointer to each type parameter and a reference of each
    /// lifetime parameter, in declaration order; constants need none.
    pub fn phantom_data(&self) -> (r: Vec<PhantomPart>)
        ensures
            r@ == phantom_parts(self.params@),
    {
        let mut r: Vec<PhantomPart> = Vec::new();
        let mut i: usize = 0;
        while i < self.params.len()
            invariant
                i <= self.params@.len(),
                r@ == phantom_parts(self.params@.subrange(0, i as int)),
            decreases self.params@.len() - i,
        {
            let p = &self.params[i];
            proof {
                assert(self.params@.subrange(0, i + 1).drop_last() == self.params@.subrange(0, i as int));
            }
            match p.kind {
                ParamKind::Type => r.push(PhantomPart::Pointer(p.name.clone())),
                ParamKind::Lifetime => r.push(PhantomPart::Reference(p.name.clone())),
                ParamKind::Const => {},
            }
            i += 1;
        }
        assert(self.params@.subrange(0, self.params@.len() as int) == self.params@);
        r
    }
}

/// Merging is neutral on empty generics and independent of grouping, and
/// merging two lists in either order yields the same parameters and the same
/// constraints, counted with multiplicity; so the order of a merge does not
/// change which parameters and constraints an implementation has.
pub proof fn lemma_merge_laws(base: Generics, empty: Generics, a: Generics, b: Generics, c: Generics)
    requires
        empty.params@.len() == 0,
        empty.predicates@.len() == 0,
    ensures
        base.params@ + empty.params@ == base.params@,
        base.predicates@ + empty.predicates@ == base.predicates@,
        (a.params@ + b.params@) + c.params@ == a.params@ + (b.params@ + c.params@),
        (a.predicates@ + b.predicates@) + c.predicates@ == a.predicates@ + (b.predicates@
            + c.predicates@),
        (a.params@ + b.params@).to_multiset() == (b.params@ + a.params@).to_multiset(),
        (a.predicates@ + b.predicates@).to_multiset() == (b.predicates@ + a.predicates@).to_multiset(),
{
    assert(base.params@ + empty.params@ == base.params@);
    assert(base.predicates@ + empty.predicates@ == base.predicates@);
    assert((a.params@ + b.params@) + c.params@ == a.params@ + (b.params@ + c.params@));
    assert((a.predicates@ + b.predicates@) + c.predicates@ == a.predicates@ + (b.predicates@
        + c.predicates@));
    vstd::seq_lib::lemma_multiset_commutative(a.params@, b.params@);
    vstd::seq_lib::lemma_multiset_commutative(b.params@, a.params@);
    vstd::seq_lib::lemma_multiset_commutative(a.predicates@, b.predicates@);
    vstd::seq_lib::lemma_multiset_commutative(b.predicates@, a.predicates@);
}

/// A type occurring inside another type, with the lifetimes written inside
/// it, in order.
#[derive(Debug)]
pub struct SubType {
    /// Source text of the type.
    pub text: String,
    /// Lifetimes written inside it.
    pub lifetimes: Vec<String>,
}

/// Whether `l` names one of the lifetime parameters.
pub open spec fn is_lifetime_param(params: Seq<GenericParam>, l: Seq<char>) -> bool {
    exists|i: int|
        0 <= i < params.len() && (#[trigger] params[i]).kind == ParamKind::Lifetime && params[i].name@
            == l
}

/// The constraints `ty: 'l` for the lifetimes `ls` of `ty` that are
/// lifetime parameters, in order.
pub open spec fn outlives_of(params: Seq<GenericParam>, ty: String, ls: Seq<String>) -> Seq<Predicate>
    decreases ls.len(),
{
    if ls.len() == 0 {
        Seq::empty()
    } else {
        let rest = outlives_of(params, ty, ls.drop_last());
        if is_lifetime_param(params, ls.last()@) {
            rest.push(Predicate { subject: Bounded::Type(ty), bounds: ls.last() })
        } else {
            rest
        }
    }
}

/// The constraints for every sub-type, one after the other.
pub open spec fn outlives_all(params: Seq<GenericParam>, tys: Seq<SubType>) -> Seq<Predicate>
    decreases tys.len(),
{
    if tys.len() == 0 {
        Seq::empty()
    } else {
        outlives_all(params, tys.drop_last()) + outlives_of(
            params,
            tys.last().text,
            tys.last().lifetimes@,
        )
    }
}

impl Generics {
    /// Tells whether `l` names one of the lifetime parameters.
    fn has_lifetime_param(&self, l: &String) -> (r: bool)
        ensures
            r == is_lifetime_param(self.params@, l@),
    {
        let mut i: usize = 0;
        while i < self.params.len()
            invariant
                i <= self.params@.len(),
                forall|j: int|
                    0 <= j < i ==> !((#[trigger] self.params@[j]).kind == ParamKind::Lifetime
                        && self.params@[j].name@ == l@),
            decreases self.params@.len() - i,
        {
            if self.params[i].kind == ParamKind::Lifetime && self.params[i].name == *l {
                return true;
            }
            i += 1;
        }
        false
    }

    /// Constrains every given sub-type to outlive each lifetime parameter
    /// written inside it, so that the sub-type is well-formed wherever the
    /// parameters are: `ty: 'l` for each such lifetime `'l`, appended in
    /// order.
    pub fn bound_type_to_lifetimes(&mut self, tys: &Vec<SubType>)
        ensures
            final(self).params@ == old(self).params@,
            final(self).predicates@ == old(self).predicates@ + outlives_all(old(self).params@, tys@),
    {
        let ghost p0 = self.predicates@;
        let mut t: usize = 0;
        while t < tys.len()
            invariant
                t <= tys@.len(),
                self.params@ == old(self).params@,
                p0 == old(self).predicates@,
                self.predicates@ == p0 + outlives_all(self.params@, tys@.subrange(0, t as int)),
            decreases tys@.len() - t,
        {
            let ty = &tys[t];
            let ghost before = self.predicates@;
            let mut k: usize = 0;
            while k < ty.lifetimes.len()
                invariant
                    k <= ty.lifetimes@.len(),
                    self.params@ == old(self).params@,
                    self.predicates@ == before + outlives_of(
                        self.params@,
                        ty.text,
                        ty.lifetimes@.subrange(0, k as int),
                    ),
                decreases ty.lifetimes@.len() - k,
            {
                let l = &ty.lifetimes[k];
                proof {
                    assert(ty.lifetimes@.subrange(0, k + 1).drop_last() == ty.lifetimes@.subrange(
                        0,
                        k as int,
                    ));
                }
                if self.has_lifetime_param(l) {
                    self.predicates.push(
                        Predicate { subject: Bounded::Type(ty.text.clone()), bounds: l.clone() },
                    );
                }
                k += 1;
            }
            proof {
                assert(ty.lifetimes@.subrange(0, ty.lifetimes@.len() as int) == ty.lifetimes@);
                assert(tys@.subrange(0, t + 1).drop_last() == tys@.subrange(0, t as int));
                assert(tys@.subrange(0, t + 1).last() == tys@[t as int]);
            }
            t += 1;
        }
        assert(tys@.subrange(0, tys@.len() as int) == tys@);
    }
}

/// One element of a marker tuple type.
#[derive(Debug)]
pub enum PhantomPart {
    /// `*const T` for a type parameter `T`.
    Pointer(String),
    /// `&'a ()` for a lifetime parameter `'a`.
    Reference(String),
}

/// The marker parts for a list of parameters.
pub open spec fn phantom_parts(params: Seq<GenericParam>) -> Seq<PhantomPart>
    decreases params.len(),
{
    if params.len() == 0 {
        Seq::empty()
    } else {
        let last = params.last();
        let rest = phantom_parts(params.drop_last());
        match last.kind {
            ParamKind::Type => rest.push(PhantomPart::Pointer(last.name)),
            ParamKind::Lifetime => rest.push(PhantomPart::Reference(last.name)),
            ParamKind::Const => rest,
        }
    }
}

/// A generic argument, as it is supplied to a generic item.
#[derive(Debug)]
pub struct GenericArg {
    /// Kind of the argument.
    pub kind: ParamKind,
    /// Source text of the argument.
    pub text: String,
}

/// One parameter bound to the argument supplied for it.
#[derive(Debug)]
pub struct Binding {
    /// Kind shared by the parameter and the argument.
    pub kind: ParamKind,
    /// Name of the parameter.
    pub param: String,
    /// Source text of the argument.
    pub arg: String,
}

/// Why a parameter list cannot be bound to an argument list.
#[derive(Clone, Copy, Debug, PartialEq, Eq, Structural)]
pub enum BindError {
    /// The two lists differ in length.
    WrongArity,
    /// A parameter and its argument differ in kind.
    UnsupportedArgument,
}

/// Each parameter paired with the argument at the same position.
pub open spec fn bindings_of(params: Seq<GenericParam>, args: Seq<GenericArg>) -> Seq<Binding>
    recommends
        params.len() == args.len(),
{
    Seq::new(
        params.len(),
        |i: int| Binding { kind: params[i].kind, param: params[i].name, arg: args[i].text },
    )
}

/// Tells whether every parameter has the kind of the argument at its
/// position.
pub open spec fn kinds_agree(params: Seq<GenericParam>, args: Seq<GenericArg>) -> bool {
    forall|i: int| 0 <= i < params.len() ==> #[trigger] params[i].kind == args[i].kind
}

impl Generics {
    /// Binds these parameters against concrete arguments, position by
    /// position.
    pub fn bind_arguments(&self, args: &Vec<GenericArg>) -> (r: Result<Vec<Binding>, BindError>)
        ensures
            self.params@.len() != args@.len() ==> r == Err::<Vec<Binding>, BindError>(BindError::WrongArity),
            self.params@.len() == args@.len() && !kinds_agree(self.params@, args@)
                ==> r == Err::<Vec<Binding>, BindError>(BindError::UnsupportedArgument),
            self.params@.len() == args@.len() && kinds_agree(self.params@, args@)
                ==> r is Ok && r->Ok_0@ == bindings_of(self.params@, args@),
    {
        if self.params.len() != args.len() {
            return Err(BindError::WrongArity);
        }
        let mut r: Vec<Binding> = Vec::new();
        let mut i: usize = 0;
        while i < args.len()
            invariant
                i <= args@.len(),
                self.params@.len() == args@.len(),
                forall|j: int| 0 <= j < i ==> #[trigger] self.params@[j].kind == args@[j].kind,
                r@ == bindings_of(self.params@, args@).subrange(0, i as int),
            decreases args@.len() - i,
        {
            let p = &self.params[i];
            let a = &args[i];
            if p.kind != a.kind {
                return Err(BindError::UnsupportedArgument);
            }
            r.push(Binding { kind: p.kind, param: p.name.clone(), arg: a.text.clone() });
            assert(r@ == bindings_of(self.params@, args@).subrange(0, i + 1));
            i += 1;
        }
        assert(r@ == bindings_of(self.params@, args@));
        Ok(r)
    }
}

} // verus!
