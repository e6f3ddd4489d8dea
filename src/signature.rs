//! Lifetime algebra on method signatures. A signature is seen through its
//! lifetime occurrences: the receiver's, those of the typed arguments and
//! those of the return type, each list in the order the occurrences are
//! written, together with the method's lifetime parameters.
use vstd::prelude::*;

verus! {

/// One lifetime occurrence.
#[derive(Debug)]
pub enum Lifetime {
    /// A reference written without a lifetime, such as `&T`.
    Elided,
    /// The anonymous lifetime `'_`.
    Anonymous,
    /// A named lifetime, such as `'a`.
    Named(String),
    /// A freshly minted lifetime, distinct from every named one; the `n`-th.
    Fresh(usize),
}

impl Lifetime {
    /// Returns an equal copy of this lifetime.
    pub fn copy(&self) -> (r: Lifetime)
        ensures
            r == *self,
    {
        match self {
            Lifetime::Elided => Lifetime::Elided,
            Lifetime::Anonymous => Lifetime::Anonymous,
            Lifetime::Named(s) => Lifetime::Named(s.clone()),
            Lifetime::Fresh(n) => Lifetime::Fresh(*n),
        }
    }
}

/// The receiver of a method, with its lifetime where it is a reference.
#[derive(Debug)]
pub enum SelfArg {
    /// `self`.
    Value,
    /// `&self`, `&'_ self` or `&'a self`.
    Ref(Lifetime),
    /// `&mut self`, `&'_ mut self` or `&'a mut self`.
    RefMut(Lifetime),
    /// A typed receiver or none.
    Other,
}

/// The lifetime occurrences of a method signature.
#[derive(Debug)]
pub struct LifetimeSig {
    /// The receiver.
    pub receiver: SelfArg,
    /// Lifetime parameters of the method, in order.
    pub params: Vec<Lifetime>,
    /// Occurrences in the typed arguments, in order.
    pub inputs: Vec<Lifetime>,
    /// Occurrences in the return type, in order.
    pub output: Vec<Lifetime>,
    /// Outlives constraints `'a: 'b` between lifetimes.
    pub outlives: Vec<(Lifetime, Lifetime)>,
}

/// The named lifetime written on a reference receiver, if any.
pub open spec fn self_lifetime(r: SelfArg) -> Option<String> {
    match r {
        SelfArg::Ref(Lifetime::Named(l)) => Some(l),
        SelfArg::RefMut(Lifetime::Named(l)) => Some(l),
        _ => None,
    }
}

/// Whether the receiver is a reference.
pub open spec fn is_ref_receiver(r: SelfArg) -> bool {
    r is Ref || r is RefMut
}

/// Whether `u` is the named lifetime `l`.
pub open spec fn names(u: Lifetime, l: Option<String>) -> bool {
    l is Some && u is Named && u->Named_0@ == l->0@
}

/// An occurrence after the receiver's lifetime `self_lt` is lifted to `w`:
/// `self_lt` becomes `w` everywhere, and in the return type so do `'_` and
/// elided references.
pub open spec fn lifted(u: Lifetime, self_lt: Option<String>, w: String, in_output: bool) -> Lifetime {
    if names(u, self_lt) {
        Lifetime::Named(w)
    } else if in_output && (u is Anonymous || u is Elided) {
        Lifetime::Named(w)
    } else {
        u
    }
}

/// Whether a lifetime parameter disappears when `self_lt` is lifted to `w`.
pub open spec fn dropped_param(p: Lifetime, self_lt: Option<String>, w: String) -> bool {
    names(p, self_lt) || names(p, Some(w))
}

/// The parameters that stay when `self_lt` is lifted to `w`.
pub open spec fn kept_params(v: Seq<Lifetime>, self_lt: Option<String>, w: String) -> Seq<Lifetime> {
    v.filter(|p: Lifetime| !dropped_param(p, self_lt, w))
}

/// Lifts every occurrence of a list.
pub open spec fn lifted_all(v: Seq<Lifetime>, self_lt: Option<String>, w: String, in_output: bool) -> Seq<Lifetime> {
    v.map_values(|u: Lifetime| lifted(u, self_lt, w, in_output))
}

/// Lifts every occurrence of a list.
fn lift_all(v: &Vec<Lifetime>, self_lt: &Option<String>, w: &String, in_output: bool) -> (r: Vec<Lifetime>)
    ensures
        r@ == lifted_all(v@, *self_lt, *w, in_output),
{
    let mut r: Vec<Lifetime> = Vec::new();
    let mut i: usize = 0;
    while i < v.len()
        invariant
            i <= v@.len(),
            r@ == lifted_all(v@.subrange(0, i as int), *self_lt, *w, in_output),
        decreases v@.len() - i,
    {
        let u = &v[i];
        let is_self = match (u, self_lt) {
            (Lifetime::Named(l), Some(s)) => *l == *s,
            _ => false,
        };
        let n = if is_self {
            Lifetime::Named(w.clone())
        } else if in_output && (matches!(u, Lifetime::Anonymous) || matches!(u, Lifetime::Elided)) {
            Lifetime::Named(w.clone())
        } else {
            u.copy()
        };
        r.push(n);
        assert(v@.subrange(0, i + 1).drop_last() == v@.subrange(0, i as int));
        assert(r@ == lifted_all(v@.subrange(0, i + 1), *self_lt, *w, in_output));
        i += 1;
    }
    assert(v@.subrange(0, v@.len() as int) == v@);
    r
}

/// Lifts both sides of every outlives constraint.
pub open spec fn lifted_pairs(v: Seq<(Lifetime, Lifetime)>, self_lt: Option<String>, w: String) -> Seq<(Lifetime, Lifetime)> {
    v.map_values(|p: (Lifetime, Lifetime)| (lifted(p.0, self_lt, w, false), lifted(p.1, self_lt, w, false)))
}

/// Lifts both sides of every outlives constraint.
fn lift_pairs(v: &Vec<(Lifetime, Lifetime)>, self_lt: &Option<String>, w: &String) -> (r: Vec<(Lifetime, Lifetime)>)
    ensures
        r@ == lifted_pairs(v@, *self_lt, *w),
{
    let mut r: Vec<(Lifetime, Lifetime)> = Vec::new();
    let mut i: usize = 0;
    while i < v.len()
        invariant
            i <= v@.len(),
            r@ == lifted_pairs(v@.subrange(0, i as int), *self_lt, *w),
        decreases v@.len() - i,
    {
        let a = lift_one(&v[i].0, self_lt, w);
        let b = lift_one(&v[i].1, self_lt, w);
        r.push((a, b));
        assert(v@.subrange(0, i + 1).drop_last() == v@.subrange(0, i as int));
        assert(r@ == lifted_pairs(v@.subrange(0, i + 1), *self_lt, *w));
        i += 1;
    }
    assert(v@.subrange(0, v@.len() as int) == v@);
    r
}

/// Renames the receiver's lifetime `self_lt` to `w` in one occurrence.
fn lift_one(u: &Lifetime, self_lt: &Option<String>, w: &String) -> (r: Lifetime)
    ensures
        r == lifted(*u, *self_lt, *w, false),
{
    let is_self = match (u, self_lt) {
        (Lifetime::Named(l), Some(s)) => *l == *s,
        _ => false,
    };
    if is_self {
        Lifetime::Named(w.clone())
    } else {
        u.copy()
    }
}

/// Whether two signatures have the same receiver and the same lifetime
/// occurrences.
pub open spec fn same_sig(a: LifetimeSig, b: LifetimeSig) -> bool {
    &&& a.receiver == b.receiver
    &&& a.params@ == b.params@
    &&& a.inputs@ == b.inputs@
    &&& a.output@ == b.output@
    &&& a.outlives@ == b.outlives@
}

/// Whether `new` is `old` with the receiver's lifetime lifted to `w`: a
/// signature whose receiver is not a reference is kept; otherwise see
/// [`LifetimeSig::lift_receiver_lifetime`].
pub open spec fn lifted_sig(old: LifetimeSig, new: LifetimeSig, w: String) -> bool {
    &&& !is_ref_receiver(old.receiver) ==> same_sig(old, new)
    &&& is_ref_receiver(old.receiver) ==> {
        let s = self_lifetime(old.receiver);
        let params = kept_params(old.params@, s, w);
        &&& new.receiver is Value
        &&& new.inputs@ == lifted_all(old.inputs@, s, w, false)
        &&& new.output@ == lifted_all(old.output@, s, w, true)
        &&& new.params@ == params
        &&& new.outlives@ == lifted_pairs(old.outlives@, s, w) + (if s is Some && params.len()
            == old.params@.len() {
            seq![(Lifetime::Named(s->0), Lifetime::Named(w)), (Lifetime::Named(w), Lifetime::Named(s->0))]
        } else {
            Seq::empty()
        })
    }
}

/// Copies a list of occurrences.
fn copy_lifetimes(v: &Vec<Lifetime>) -> (r: Vec<Lifetime>)
    ensures
        r@ == v@,
{
    let mut r: Vec<Lifetime> = Vec::new();
    let mut i: usize = 0;
    while i < v.len()
        invariant
            i <= v@.len(),
            r@ == v@.subrange(0, i as int),
        decreases v@.len() - i,
    {
        r.push(v[i].copy());
        i += 1;
    }
    assert(r@ == v@.subrange(0, v@.len() as int));
    r
}

impl SelfArg {
    /// Returns an equal copy of this receiver.
    pub fn copy(&self) -> (r: SelfArg)
        ensures
            r == *self,
    {
        match self {
            SelfArg::Value => SelfArg::Value,
            SelfArg::Ref(l) => SelfArg::Ref(l.copy()),
            SelfArg::RefMut(l) => SelfArg::RefMut(l.copy()),
            SelfArg::Other => SelfArg::Other,
        }
    }
}

impl LifetimeSig {
    /// Returns a copy with the same receiver and occurrences.
    pub fn copy(&self) -> (r: LifetimeSig)
        ensures
            same_sig(*self, r),
    {
        let mut outlives: Vec<(Lifetime, Lifetime)> = Vec::new();
        let mut i: usize = 0;
        while i < self.outlives.len()
            invariant
                i <= self.outlives@.len(),
                outlives@ == self.outlives@.subrange(0, i as int),
            decreases self.outlives@.len() - i,
        {
            let a = self.outlives[i].0.copy();
            let b = self.outlives[i].1.copy();
            outlives.push((a, b));
            assert(outlives@ == self.outlives@.subrange(0, i + 1));
            i += 1;
        }
        assert(outlives@ =~= self.outlives@);
        LifetimeSig {
            receiver: self.receiver.copy(),
            params: copy_lifetimes(&self.params),
            inputs: copy_lifetimes(&self.inputs),
            output: copy_lifetimes(&self.output),
            outlives,
        }
    }

    /// Lifts the receiver's lifetime to the enclosing scope under the name
    /// `w`. A reference receiver becomes `self`. Its named lifetime becomes
    /// `w` in the arguments, the return type and the outlives constraints,
    /// and `'_` and elided references of the return type become `w` too.
    /// The method's parameters named `w` or like the receiver's lifetime are
    /// dropped; when none is (the receiver's lifetime belongs to the trait),
    /// two outlives constraints tie it to `w`. A signature whose receiver is
    /// not a reference is left as it is.
    pub fn lift_receiver_lifetime(&mut self, w: &String)
        ensures
            lifted_sig(*old(self), *final(self), *w),
    {
        let self_lt: Option<String> = match &self.receiver {
            SelfArg::Ref(Lifetime::Named(l)) => Some(l.clone()),
            SelfArg::RefMut(Lifetime::Named(l)) => Some(l.clone()),
            SelfArg::Ref(_) => None,
            SelfArg::RefMut(_) => None,
            _ => {
                return;
            },
        };
        let ghost s = self_lifetime(self.receiver);
        assert(self_lt == s);
        self.receiver = SelfArg::Value;
        self.inputs = lift_all(&self.inputs, &self_lt, w, false);
        self.output = lift_all(&self.output, &self_lt, w, true);
        self.outlives = lift_pairs(&self.outlives, &self_lt, w);

        let ghost orig = self.params@;
        let mut kept: Vec<Lifetime> = Vec::new();
        let mut i: usize = 0;
        while i < self.params.len()
            invariant
                i <= orig.len(),
                self.params@ == orig,
                self_lt == s,
                kept@ == kept_params(orig.subrange(0, i as int), s, *w),
            decreases orig.len() - i,
        {
            proof {
                reveal(Seq::filter);
                assert(orig.subrange(0, i + 1).drop_last() == orig.subrange(0, i as int));
            }
            let p = &self.params[i];
            let dropped = match p {
                Lifetime::Named(l) => *l == *w || match &self_lt {
                    Some(sl) => *l == *sl,
                    None => false,
                },
                _ => false,
            };
            if !dropped {
                kept.push(p.copy());
            }
            i += 1;
        }
        assert(orig.subrange(0, orig.len() as int) == orig);
        let unchanged = kept.len() == self.params.len();
        self.params = kept;
        let ghost lifted = self.outlives@;
        if let Some(sl) = self_lt {
            if unchanged {
                self.outlives.push((Lifetime::Named(sl.clone()), Lifetime::Named(w.clone())));
                self.outlives.push((Lifetime::Named(w.clone()), Lifetime::Named(sl)));
                assert(self.outlives@ =~= lifted + seq![
                    (Lifetime::Named(s->0), Lifetime::Named(*w)),
                    (Lifetime::Named(*w), Lifetime::Named(s->0)),
                ]);
            } else {
                assert(self.outlives@ =~= lifted + Seq::<(Lifetime, Lifetime)>::empty());
            }
        } else {
            assert(self.outlives@ =~= lifted + Seq::<(Lifetime, Lifetime)>::empty());
        }
    }
}

/// An occurrence of the return type after its `'_` and elided references
/// take the lifetime `with`.
pub open spec fn expanded_output(u: Lifetime, with: Lifetime) -> Lifetime {
    if u is Anonymous || u is Elided {
        with
    } else {
        u
    }
}

/// Gives every occurrence of a return type the lifetime `with` where it is
/// `'_` or elided.
pub open spec fn expanded_outputs(v: Seq<Lifetime>, with: Lifetime) -> Seq<Lifetime> {
    v.map_values(|u: Lifetime| expanded_output(u, with))
}

/// Whether the occurrence is `'_` or an elided reference.
pub open spec fn is_elided(u: Lifetime) -> bool {
    u is Anonymous || u is Elided
}

/// The number of `'_` and elided occurrences in a list.
pub open spec fn count_elided(v: Seq<Lifetime>) -> nat
    decreases v.len(),
{
    if v.len() == 0 {
        0
    } else {
        count_elided(v.drop_last()) + if is_elided(v.last()) {
            1nat
        } else {
            0nat
        }
    }
}

/// What the generator hands out the `k`-th time: a fresh lifetime, or `'_`
/// itself when `fresh` is false.
pub open spec fn generated(k: nat, fresh: bool) -> Lifetime {
    if fresh {
        Lifetime::Fresh(k as usize)
    } else {
        Lifetime::Anonymous
    }
}

/// The occurrences of a list after each `'_` and elided reference gets what
/// the generator hands out, counting from `next`.
pub open spec fn expanded_fresh(v: Seq<Lifetime>, next: nat, fresh: bool) -> Seq<Lifetime>
    decreases v.len(),
{
    if v.len() == 0 {
        Seq::empty()
    } else {
        let before = expanded_fresh(v.drop_last(), next, fresh);
        before.push(
            if is_elided(v.last()) {
                generated(next + count_elided(v.drop_last()), fresh)
            } else {
                v.last()
            },
        )
    }
}

/// The lifetimes the generator hands out while expanding a list, in order.
pub open spec fn minted(v: Seq<Lifetime>, next: nat, fresh: bool) -> Seq<Lifetime>
    decreases v.len(),
{
    if v.len() == 0 {
        Seq::empty()
    } else {
        let before = minted(v.drop_last(), next, fresh);
        if is_elided(v.last()) {
            before.push(generated(next + count_elided(v.drop_last()), fresh))
        } else {
            before
        }
    }
}

/// With fresh lifetimes, an expanded list holds no `'_` and no elided
/// reference.
proof fn lemma_expanded_fresh_named(v: Seq<Lifetime>, next: nat)
    requires
        next + v.len() <= usize::MAX,
    ensures
        forall|i: int| 0 <= i < v.len() ==> !is_elided(#[trigger] expanded_fresh(v, next, true)[i]),
        expanded_fresh(v, next, true).len() == v.len(),
        count_elided(v) <= v.len(),
    decreases v.len(),
{
    if v.len() > 0 {
        lemma_expanded_fresh_named(v.drop_last(), next);
        let e = expanded_fresh(v, next, true);
        assert forall|i: int| 0 <= i < v.len() implies !is_elided(#[trigger] e[i]) by {
            if i < v.len() - 1 {
                assert(e[i] == expanded_fresh(v.drop_last(), next, true)[i]);
            }
        }
    }
}

/// Whether the occurrence is `'_`.
fn is_anonymous(u: &Lifetime) -> (r: bool)
    ensures
        r == u is Anonymous,
{
    matches!(u, Lifetime::Anonymous)
}

/// Expands every `'_` and elided reference of `v` with the generator,
/// counting from `next`, and appends what it hands out to `params`.
fn expand_list(v: &Vec<Lifetime>, params: &mut Vec<Lifetime>, next: usize, fresh: bool) -> (r: (
    Vec<Lifetime>,
    usize,
))
    requires
        next + v@.len() <= usize::MAX,
    ensures
        r.0@ == expanded_fresh(v@, next as nat, fresh),
        final(params)@ == old(params)@ + minted(v@, next as nat, fresh),
        r.1 == next + count_elided(v@),
        count_elided(v@) <= v@.len(),
{
    let ghost params0 = params@;
    let mut out: Vec<Lifetime> = Vec::new();
    let mut k: usize = next;
    let mut j: usize = 0;
    while j < v.len()
        invariant
            j <= v@.len(),
            next + v@.len() <= usize::MAX,
            k == next + count_elided(v@.subrange(0, j as int)),
            count_elided(v@.subrange(0, j as int)) <= j,
            out@ == expanded_fresh(v@.subrange(0, j as int), next as nat, fresh),
            params@ == params0 + minted(v@.subrange(0, j as int), next as nat, fresh),
        decreases v@.len() - j,
    {
        let u = &v[j];
        proof {
            assert(v@.subrange(0, j + 1).drop_last() == v@.subrange(0, j as int));
        }
        if is_anonymous(u) || matches!(u, Lifetime::Elided) {
            let n = if fresh {
                Lifetime::Fresh(k)
            } else {
                Lifetime::Anonymous
            };
            out.push(n.copy());
            params.push(n);
            k += 1;
        } else {
            out.push(u.copy());
        }
        proof {
            assert(params@ == params0 + minted(v@.subrange(0, j + 1), next as nat, fresh));
        }
        j += 1;
    }
    assert(v@.subrange(0, v@.len() as int) == v@);
    (out, k)
}

impl LifetimeSig {
    /// Names every elided lifetime of the signature. An elided reference
    /// receiver takes `ret`, which becomes a parameter; `'_` and elided
    /// references of the return type take the receiver's lifetime, or `ret`
    /// where the receiver is `self` (then `ret` becomes a parameter if some
    /// `'_` was replaced). Unless `ret` is `'_`, what is still `'_` in the
    /// return type (a `&'_ self` receiver hands `'_` on) gets a lifetime from
    /// the generator. Then each `'_` and elided reference of the arguments
    /// gets one. The generator hands out fresh lifetimes numbered from `next`
    /// on when `fresh` holds, else `'_`, and each one it hands out is added to
    /// the parameters. A signature with a typed receiver or none is left as
    /// it is.
    pub fn expand_lifetimes(&mut self, ret: &Lifetime, next: usize, fresh: bool)
        requires
            ret is Named || ret is Anonymous,
            next + old(self).output@.len() + old(self).inputs@.len() <= usize::MAX,
        ensures
            old(self).receiver is Other ==> *final(self) == *old(self),
            !(old(self).receiver is Other) ==> {
                let recv_lt = match old(self).receiver {
                    SelfArg::Ref(l) => if l is Elided {
                        Some(*ret)
                    } else {
                        Some(l)
                    },
                    SelfArg::RefMut(l) => if l is Elided {
                        Some(*ret)
                    } else {
                        Some(l)
                    },
                    _ => None::<Lifetime>,
                };
                let with = if recv_lt is Some {
                    recv_lt->0
                } else {
                    *ret
                };
                let receiver_param = if (old(self).receiver matches SelfArg::Ref(Lifetime::Elided))
                    || (old(self).receiver matches SelfArg::RefMut(Lifetime::Elided)) {
                    seq![*ret]
                } else {
                    Seq::empty()
                };
                let return_param = if recv_lt is None && old(self).output@.contains(
                    Lifetime::Anonymous,
                ) {
                    seq![*ret]
                } else {
                    Seq::empty()
                };
                let out1 = expanded_outputs(old(self).output@, with);
                let named_ret = !(ret is Anonymous);
                let in_next = if named_ret {
                    (next + count_elided(out1)) as nat
                } else {
                    next as nat
                };
                &&& final(self).output@ == (if named_ret {
                    expanded_fresh(out1, next as nat, fresh)
                } else {
                    out1
                })
                &&& final(self).inputs@ == expanded_fresh(old(self).inputs@, in_next, fresh)
                &&& final(self).params@ == old(self).params@ + receiver_param + return_param + (
                if named_ret {
                    minted(out1, next as nat, fresh)
                } else {
                    Seq::empty()
                }) + minted(old(self).inputs@, in_next, fresh)
                &&& final(self).outlives@ == old(self).outlives@
                &&& (old(self).receiver is Value ==> final(self).receiver is Value)
                &&& (old(self).receiver is Ref ==> final(self).receiver == SelfArg::Ref(with))
                &&& (old(self).receiver is RefMut ==> final(self).receiver == SelfArg::RefMut(with))
                &&& (named_ret && fresh ==> forall|i: int|
                    0 <= i < final(self).output@.len() ==> !is_elided(
                        #[trigger] final(self).output@[i],
                    ))
                &&& (fresh ==> forall|i: int|
                    0 <= i < final(self).inputs@.len() ==> !is_elided(
                        #[trigger] final(self).inputs@[i],
                    ))
            },
    {
        let recv_lt: Option<Lifetime> = match &self.receiver {
            SelfArg::Ref(l) | SelfArg::RefMut(l) => Some(
                if matches!(l, Lifetime::Elided) {
                    ret.copy()
                } else {
                    l.copy()
                },
            ),
            SelfArg::Value => None,
            SelfArg::Other => {
                return;
            },
        };
        let elided_receiver = match &self.receiver {
            SelfArg::Ref(l) | SelfArg::RefMut(l) => matches!(l, Lifetime::Elided),
            _ => false,
        };
        if elided_receiver {
            self.params.push(ret.copy());
        }
        let with = match &recv_lt {
            Some(l) => l.copy(),
            None => ret.copy(),
        };
        match &self.receiver {
            SelfArg::Ref(_) => {
                self.receiver = SelfArg::Ref(with.copy());
            },
            SelfArg::RefMut(_) => {
                self.receiver = SelfArg::RefMut(with.copy());
            },
            _ => {},
        }
        proof {
            if elided_receiver {
                assert(self.params@ == old(self).params@ + seq![*ret]);
            } else {
                assert(self.params@ == old(self).params@ + Seq::<Lifetime>::empty());
            }
        }
        let mut replaced_anonymous = false;
        let ghost out0 = self.output@;
        let mut out: Vec<Lifetime> = Vec::new();
        let mut i: usize = 0;
        while i < self.output.len()
            invariant
                i <= out0.len(),
                self.output@ == out0,
                out@ == expanded_outputs(out0.subrange(0, i as int), with),
                replaced_anonymous == out0.subrange(0, i as int).contains(Lifetime::Anonymous),
            decreases out0.len() - i,
        {
            let u = &self.output[i];
            if is_anonymous(u) {
                replaced_anonymous = true;
            }
            if is_anonymous(u) || matches!(u, Lifetime::Elided) {
                out.push(with.copy());
            } else {
                out.push(u.copy());
            }
            proof {
                let p = out0.subrange(0, i + 1);
                assert(p.drop_last() == out0.subrange(0, i as int));
                assert(out@ == expanded_outputs(p, with));
                if p.contains(Lifetime::Anonymous) && !out0.subrange(0, i as int).contains(
                    Lifetime::Anonymous,
                ) {
                    let j = choose|j: int| 0 <= j < p.len() && p[j] == Lifetime::Anonymous;
                    if j < i {
                        assert(out0.subrange(0, i as int)[j] == Lifetime::Anonymous);
                    }
                }
                if u is Anonymous {
                    assert(p[i as int] == Lifetime::Anonymous);
                }
                if out0.subrange(0, i as int).contains(Lifetime::Anonymous) {
                    let j = choose|j: int|
                        0 <= j < i && out0.subrange(0, i as int)[j] == Lifetime::Anonymous;
                    assert(p[j] == Lifetime::Anonymous);
                }
            }
            i += 1;
        }
        assert(out0.subrange(0, out0.len() as int) == out0);
        let ghost before_ret = self.params@;
        if replaced_anonymous && recv_lt.is_none() {
            self.params.push(ret.copy());
        }
        proof {
            if replaced_anonymous && recv_lt is None {
                assert(self.params@ == before_ret + seq![*ret]);
            } else {
                assert(self.params@ == before_ret + Seq::<Lifetime>::empty());
            }
        }
        let ghost params1 = self.params@;
        let mut in_next: usize = next;
        if !is_anonymous(ret) {
            let (o2, k) = expand_list(&out, &mut self.params, next, fresh);
            self.output = o2;
            in_next = k;
            proof {
                lemma_expanded_fresh_named(out@, next as nat);
            }
        } else {
            self.output = out;
            assert(self.params@ == params1 + Seq::<Lifetime>::empty());
        }
        let ghost params2 = self.params@;
        let (i2, _) = expand_list(&self.inputs, &mut self.params, in_next, fresh);
        proof {
            lemma_expanded_fresh_named(old(self).inputs@, in_next as nat);
            assert(self.params@ == params2 + minted(old(self).inputs@, in_next as nat, fresh));
        }
        self.inputs = i2;
    }
}

} // verus!
