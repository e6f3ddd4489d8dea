//! The delegation kit of a trait, planned over the trait's model: which
//! sub-trait and conversion each method of the wrapper implementation goes
//! through, the sub-traits and their dispatch over the choice types, the
//! bind types of the scope, the numbering the completion macro uses, and the
//! completion of an implementation template for a concrete type.
use crate::derive::{Mode, Path, PathSegment, Variant, arity, choice_of, effective, payload_at, variant_types};
use crate::generics::{
    Binding, Generics, ParamKind, PhantomPart, Predicate, SubType, copy_params,
    outlives_all, phantom_parts, without_self_bounds,
};
use crate::impl_trait::{
    BindSlot, ReceiverKind, TraitDef, TraitItem, arg_count_of, is_bucket, kind_of, lemma_bind_slots_unique,
    method_slots, slots_of,
};
use crate::signature::{LifetimeSig, lifted_sig, same_sig};
use vstd::prelude::*;

verus! {

/// The conversion mode that goes with a receiver kind.
pub open spec fn mode_of(k: ReceiverKind) -> Mode {
    match k {
        ReceiverKind::Owned => Mode::Owned,
        ReceiverKind::Ref => Mode::Ref,
        ReceiverKind::RefMut => Mode::RefMut,
    }
}

fn mode_for(k: ReceiverKind) -> (r: Mode)
    ensures
        r == mode_of(k),
{
    match k {
        ReceiverKind::Owned => Mode::Owned,
        ReceiverKind::Ref => Mode::Ref,
        ReceiverKind::RefMut => Mode::RefMut,
    }
}

/// How a method of the wrapper implementation forwards: it converts the
/// wrapped value in the given mode and calls the method of the given
/// sub-trait on the result.
#[derive(Clone, Copy, Debug, PartialEq, Eq, Structural)]
pub struct Forward {
    /// Position of the method among the trait's items.
    pub method: usize,
    /// Sub-trait whose method is called.
    pub sub_trait: ReceiverKind,
    /// Conversion applied to the wrapped value.
    pub conversion: Mode,
}

/// The forwards of the methods of one bucket.
pub open spec fn forwards_of(bucket: Seq<usize>, k: ReceiverKind) -> Seq<Forward> {
    Seq::new(bucket.len(), |i: int| Forward { method: bucket[i], sub_trait: k, conversion: mode_of(k) })
}

fn push_forwards(out: &mut Vec<Forward>, bucket: &Vec<usize>, k: ReceiverKind)
    ensures
        final(out)@ == old(out)@ + forwards_of(bucket@, k),
{
    let ghost start = out@;
    let mut a: usize = 0;
    while a < bucket.len()
        invariant
            a <= bucket@.len(),
            out@ == start + forwards_of(bucket@, k).subrange(0, a as int),
        decreases bucket@.len() - a,
    {
        out.push(Forward { method: bucket[a], sub_trait: k, conversion: mode_for(k) });
        assert(out@ == start + forwards_of(bucket@, k).subrange(0, a + 1));
        a += 1;
    }
    assert(forwards_of(bucket@, k).subrange(0, bucket@.len() as int) == forwards_of(bucket@, k));
}

/// The target of one arm of a dispatch over a choice type.
#[derive(Clone, Copy, Debug, PartialEq, Eq, Structural)]
pub enum Target {
    /// The method of the delegated trait itself, called on the payload.
    Original,
    /// The method of a sub-trait, called on the rest of the choice.
    SubTrait(ReceiverKind),
}

/// The dispatch of one method in the implementation of a sub-trait for a
/// choice `Either<Left, Right>`.
#[derive(Clone, Copy, Debug, PartialEq, Eq, Structural)]
pub struct Dispatch {
    /// Position of the method among the trait's items.
    pub method: usize,
    /// What a left value is handed to.
    pub left: Target,
    /// What a right value is handed to.
    pub right: Target,
}

/// A sub-trait holding the methods of one receiver kind, with its
/// implementations for the choice type and for the never type.
#[derive(Debug)]
pub struct SubTraitPlan {
    /// The receiver kind of its methods.
    pub kind: ReceiverKind,
    /// Positions of its methods among the trait's items, in order.
    pub methods: Vec<usize>,
    /// Their signatures, with the receiver's lifetime lifted for the
    /// reference kinds.
    pub sigs: Vec<LifetimeSig>,
    /// The lifetime parameter the sub-trait adds, for the reference kinds.
    pub lifetime: Option<String>,
    /// Whether the sub-trait requires `Self: Sized + lifetime`.
    pub self_bound: bool,
    /// Dispatch of each method for `Either`.
    pub either: Vec<Dispatch>,
    /// Methods implemented for `Void` by an empty match, one per method.
    pub void: Vec<usize>,
}

/// What a value injected `depth` steps to the right reaches when it is
/// handed through the dispatch `d` of the sub-trait `k`: each right step
/// goes back into the same sub-trait, the final left value goes where `d`
/// sends it.
pub open spec fn resolve(d: Dispatch, k: ReceiverKind, depth: nat) -> Target
    decreases depth,
{
    if depth == 0 {
        d.left
    } else if d.right == Target::SubTrait(k) {
        resolve(d, k, (depth - 1) as nat)
    } else {
        d.right
    }
}

impl TraitDef {
    /// The bucket of kind `k`.
    pub open spec fn bucket_of(&self, k: ReceiverKind) -> Seq<usize> {
        match k {
            ReceiverKind::Owned => self.owned@,
            ReceiverKind::Ref => self.by_ref@,
            ReceiverKind::RefMut => self.by_mut@,
        }
    }

    /// Whether the three buckets are those of the trait's items.
    pub open spec fn well_formed(&self) -> bool {
        &&& is_bucket(self.items@, self.owned@, ReceiverKind::Owned)
        &&& is_bucket(self.items@, self.by_ref@, ReceiverKind::Ref)
        &&& is_bucket(self.items@, self.by_mut@, ReceiverKind::RefMut)
    }

    /// How each method of the implementation of the trait for the wrapper
    /// forwards, in bind order: through the sub-trait of its receiver kind,
    /// after converting the wrapped value in the matching mode.
    pub fn wrapper_forwards(&self) -> (r: Vec<Forward>)
        requires
            self.well_formed(),
        ensures
            r@.len() == self.bind_order().len(),
            forall|i: int|
                0 <= i < r@.len() ==> {
                    let m = self.bind_order()[i];
                    &&& (#[trigger] r@[i]).method == m
                    &&& kind_of(self.items@[m as int]->Method_0.receiver) == Some(r@[i].sub_trait)
                    &&& self.items@[m as int] is Method
                    &&& r@[i].conversion == mode_of(r@[i].sub_trait)
                },
    {
        let mut r: Vec<Forward> = Vec::new();
        push_forwards(&mut r, &self.owned, ReceiverKind::Owned);
        push_forwards(&mut r, &self.by_ref, ReceiverKind::Ref);
        push_forwards(&mut r, &self.by_mut, ReceiverKind::RefMut);
        proof {
            let (o, b, u) = (self.owned@, self.by_ref@, self.by_mut@);
            assert(r@ == forwards_of(o, ReceiverKind::Owned) + forwards_of(b, ReceiverKind::Ref)
                + forwards_of(u, ReceiverKind::RefMut));
            assert forall|i: int| 0 <= i < r@.len() implies {
                let m = self.bind_order()[i];
                &&& (#[trigger] r@[i]).method == m
                &&& kind_of(self.items@[m as int]->Method_0.receiver) == Some(r@[i].sub_trait)
                &&& self.items@[m as int] is Method
                &&& r@[i].conversion == mode_of(r@[i].sub_trait)
            } by {
                if i < o.len() {
                    assert(self.bind_order()[i] == o[i]);
                } else if i < o.len() + b.len() {
                    assert(self.bind_order()[i] == b[i - o.len()]);
                } else {
                    assert(self.bind_order()[i] == u[i - o.len() - b.len()]);
                }
            }
        }
        r
    }

    /// The sub-trait of kind `k`: its methods are bucket `k` in order, with
    /// the signatures `sigs` of the trait's items, the receiver's lifetime
    /// lifted to `w` for the reference kinds. The reference kinds add the
    /// lifetime `w` and the bound `Self: Sized + w`. For `Either`, each
    /// method hands a left value to the delegated trait and a right value to
    /// the same sub-trait; for `Void`, each method is an empty match.
    pub fn sub_trait_plan(&self, k: ReceiverKind, sigs: &Vec<LifetimeSig>, w: &String) -> (r: SubTraitPlan)
        requires
            forall|a: int|
                0 <= a < self.bucket_of(k).len() ==> #[trigger] self.bucket_of(k)[a] < sigs@.len(),
        ensures
            r.kind == k,
            r.methods@ == self.bucket_of(k),
            r.sigs@.len() == r.methods@.len(),
            forall|j: int|
                0 <= j < r.methods@.len() ==> {
                    let orig = sigs@[r.methods@[j] as int];
                    &&& (k == ReceiverKind::Owned ==> same_sig(orig, #[trigger] r.sigs@[j]))
                    &&& (k != ReceiverKind::Owned ==> lifted_sig(orig, r.sigs@[j], *w))
                },
            r.lifetime == (if k == ReceiverKind::Owned {
                None
            } else {
                Some(*w)
            }),
            r.self_bound == (k != ReceiverKind::Owned),
            r.either@.len() == r.methods@.len(),
            forall|j: int|
                0 <= j < r.either@.len() ==> #[trigger] r.either@[j] == (Dispatch {
                    method: r.methods@[j],
                    left: Target::Original,
                    right: Target::SubTrait(k),
                }),
            r.void@ == r.methods@,
    {
        let bucket = match k {
            ReceiverKind::Owned => &self.owned,
            ReceiverKind::Ref => &self.by_ref,
            ReceiverKind::RefMut => &self.by_mut,
        };
        let mut methods: Vec<usize> = Vec::new();
        let mut plans: Vec<LifetimeSig> = Vec::new();
        let mut either: Vec<Dispatch> = Vec::new();
        let mut a: usize = 0;
        assert(bucket@ == self.bucket_of(k));
        assert forall|x: int| 0 <= x < bucket@.len() implies #[trigger] bucket@[x] < sigs@.len() by {
            assert(self.bucket_of(k)[x] == bucket@[x]);
        }
        while a < bucket.len()
            invariant
                bucket@ == self.bucket_of(k),
                forall|x: int| 0 <= x < bucket@.len() ==> #[trigger] bucket@[x] < sigs@.len(),
                a <= bucket@.len(),
                methods@ == bucket@.subrange(0, a as int),
                plans@.len() == a,
                either@.len() == a,
                forall|j: int|
                    0 <= j < a ==> {
                        let orig = sigs@[bucket@[j] as int];
                        &&& (k == ReceiverKind::Owned ==> same_sig(orig, #[trigger] plans@[j]))
                        &&& (k != ReceiverKind::Owned ==> lifted_sig(orig, plans@[j], *w))
                    },
                forall|j: int|
                    0 <= j < a ==> #[trigger] either@[j] == (Dispatch {
                        method: bucket@[j],
                        left: Target::Original,
                        right: Target::SubTrait(k),
                    }),
            decreases bucket@.len() - a,
        {
            let m = bucket[a];
            let mut s = sigs[m].copy();
            if k != ReceiverKind::Owned {
                s.lift_receiver_lifetime(w);
                assert(lifted_sig(sigs@[m as int], s, *w));
            }
            plans.push(s);
            either.push(Dispatch { method: m, left: Target::Original, right: Target::SubTrait(k) });
            methods.push(m);
            assert(methods@ == bucket@.subrange(0, a + 1));
            a += 1;
        }
        assert(methods@ == bucket@.subrange(0, bucket@.len() as int));
        let mut void: Vec<usize> = Vec::new();
        let mut b: usize = 0;
        while b < methods.len()
            invariant
                b <= methods@.len(),
                void@ == methods@.subrange(0, b as int),
            decreases methods@.len() - b,
        {
            void.push(methods[b]);
            b += 1;
        }
        assert(void@ == methods@.subrange(0, methods@.len() as int));
        let lifetime = if k == ReceiverKind::Owned {
            None
        } else {
            Some(w.clone())
        };
        SubTraitPlan {
            kind: k,
            methods,
            sigs: plans,
            lifetime,
            self_bound: k != ReceiverKind::Owned,
            either,
            void,
        }
    }
}

/// Delegation forwards each call to the payload: a method called on the
/// value of the variant at position `i` goes through the wrapper's
/// conversion into the choice type, where the payload sits `i` steps to the
/// right; every dispatch arm the sub-trait plans sends a right value back
/// into the same sub-trait and a left value to the delegated trait's method,
/// so the call ends at the delegated trait's method on the payload of that
/// variant, whose type is the variant's payload type.
pub proof fn lemma_round_trip_forwarding(plan: SubTraitPlan, j: int, vs: Seq<Variant>, i: int)
    requires
        0 <= j < plan.either@.len(),
        plan.either@[j] == (Dispatch {
            method: plan.either@[j].method,
            left: Target::Original,
            right: Target::SubTrait(plan.kind),
        }),
        0 <= i < vs.len(),
        vs.len() <= usize::MAX,
    ensures
        resolve(plan.either@[j], plan.kind, i as nat) == Target::Original,
        payload_at(choice_of(variant_types(vs)), i as nat) == Some(effective(vs[i].ty, vs[i].wrapper_ty)),
        arity(choice_of(variant_types(vs))) == vs.len(),
    decreases i,
{
    if i > 0 {
        lemma_round_trip_forwarding(plan, j, vs, i - 1);
    }
    crate::derive::lemma_dispatch_round_trip(vs, i);
}

/// A bind type: one per bind slot, carrying the trait's generics followed
/// by those of the slot's method.
#[derive(Debug)]
pub struct BindDecl {
    /// The slot it stands for.
    pub slot: BindSlot,
    /// Its generics, without constraints on `Self`.
    pub generics: Generics,
    /// Parts of its marker field: those of the generics, then `__Delegate`.
    pub phantom: Vec<PhantomPart>,
    /// Outlives constraints that make the slot's type well-formed.
    pub outlives: Vec<Predicate>,
}

impl TraitDef {
    /// The bind types, one per bind slot in numbering order. `method_gens`
    /// holds the expanded generics of each item; `tys` holds, for each slot,
    /// the types written inside the slot's type.
    pub fn bind_decls(
        &self,
        trait_gens: &Generics,
        method_gens: &Vec<Generics>,
        tys: &Vec<Vec<SubType>>,
    ) -> (r: Vec<BindDecl>)
        requires
            self.well_formed(),
            method_gens@.len() == self.items@.len(),
            tys@.len() == slots_of(self.items@, self.bind_order()).len(),
        ensures
            r@.len() == slots_of(self.items@, self.bind_order()).len(),
            forall|n: int|
                0 <= n < r@.len() ==> {
                    let slot = slots_of(self.items@, self.bind_order())[n];
                    let mg = method_gens@[slot.method as int];
                    let d = #[trigger] r@[n];
                    &&& d.slot == slot
                    &&& d.generics.params@ == trait_gens.params@ + mg.params@
                    &&& d.generics.predicates@ == without_self_bounds(
                        trait_gens.predicates@ + mg.predicates@,
                    )
                    &&& d.phantom@.len() == phantom_parts(d.generics.params@).len() + 1
                    &&& d.phantom@.subrange(0, d.phantom@.len() - 1) == phantom_parts(
                        d.generics.params@,
                    )
                    &&& d.phantom@.last() is Pointer
                    &&& d.phantom@.last()->Pointer_0@ == "__Delegate"@
                    &&& d.outlives@ == outlives_all(d.generics.params@, tys@[n]@)
                },
    {
        let n_items = self.items.len();
        proof {
            lemma_bind_slots_unique(*self);
        }
        let slots = self.bind_slots();
        let mut r: Vec<BindDecl> = Vec::new();
        let mut n: usize = 0;
        while n < slots.len()
            invariant
                slots@ == slots_of(self.items@, self.bind_order()),
                n_items == self.items@.len(),
                method_gens@.len() == n_items,
                tys@.len() == slots@.len(),
                forall|x: int| 0 <= x < slots@.len() ==> (#[trigger] slots@[x]).method < n_items,
                n <= slots@.len(),
                r@.len() == n,
                forall|x: int|
                    0 <= x < n ==> {
                        let slot = slots@[x];
                        let mg = method_gens@[slot.method as int];
                        let d = #[trigger] r@[x];
                        &&& d.slot == slot
                        &&& d.generics.params@ == trait_gens.params@ + mg.params@
                        &&& d.generics.predicates@ == without_self_bounds(
                            trait_gens.predicates@ + mg.predicates@,
                        )
                        &&& d.phantom@.len() == phantom_parts(d.generics.params@).len() + 1
                        &&& d.phantom@.subrange(0, d.phantom@.len() - 1) == phantom_parts(
                            d.generics.params@,
                        )
                        &&& d.phantom@.last() is Pointer
                        &&& d.phantom@.last()->Pointer_0@ == "__Delegate"@
                        &&& d.outlives@ == outlives_all(d.generics.params@, tys@[x]@)
                    },
            decreases slots@.len() - n,
        {
            let slot = slots[n];
            let mut g = trait_gens.copy();
            g.append(&method_gens[slot.method]);
            g.remove_self_ty_bounds();
            let mut phantom = g.phantom_data();
            let ghost parts = phantom@;
            phantom.push(PhantomPart::Pointer("__Delegate".to_owned()));
            assert(phantom@.subrange(0, phantom@.len() - 1) == parts);
            let mut h = Generics { params: copy_params(&g.params), predicates: Vec::new() };
            h.bound_type_to_lifetimes(&tys[n]);
            assert(h.predicates@ =~= outlives_all(g.params@, tys@[n as int]@));
            r.push(BindDecl { slot, generics: g, phantom, outlives: h.predicates });
            n += 1;
        }
        r
    }

    /// The methods in bind order, as a list.
    pub fn bind_order_vec(&self) -> (r: Vec<usize>)
        ensures
            r@ == self.bind_order(),
    {
        let mut r: Vec<usize> = Vec::new();
        let mut b: usize = 0;
        while b < 3
            invariant
                b <= 3,
                r@ == (if b == 0 {
                    Seq::<usize>::empty()
                } else if b == 1 {
                    self.owned@
                } else if b == 2 {
                    self.owned@ + self.by_ref@
                } else {
                    self.bind_order()
                }),
            decreases 3 - b,
        {
            let bucket = if b == 0 {
                &self.owned
            } else if b == 1 {
                &self.by_ref
            } else {
                &self.by_mut
            };
            let ghost start = r@;
            let mut a: usize = 0;
            while a < bucket.len()
                invariant
                    a <= bucket@.len(),
                    r@ == start + bucket@.subrange(0, a as int),
                decreases bucket@.len() - a,
            {
                r.push(bucket[a]);
                assert(r@ == start + bucket@.subrange(0, a + 1));
                a += 1;
            }
            assert(bucket@.subrange(0, bucket@.len() as int) == bucket@);
            b += 1;
        }
        r
    }

    /// Numbers of the bind types of the method at position `a` of the bind
    /// order: consecutive, starting after those of the methods before it,
    /// each the number of the matching slot of the method.
    pub fn bound_slots(&self, a: usize) -> (r: Vec<usize>)
        requires
            a < self.bind_order().len(),
            slots_of(self.items@, self.bind_order()).len() <= usize::MAX,
        ensures
            r@.len() == arg_count_of(self.items@, self.bind_order()[a as int]) + 1,
            forall|j: int|
                0 <= j < r@.len() ==> {
                    &&& #[trigger] r@[j] == slots_of(self.items@, self.bind_order().take(a as int)).len()
                        + j
                    &&& slots_of(self.items@, self.bind_order())[r@[j] as int] == method_slots(
                        self.bind_order()[a as int],
                        arg_count_of(self.items@, self.bind_order()[a as int]),
                    )[j]
                },
    {
        let order = self.bind_order_vec();
        let ghost items = self.items@;
        let mut seq: usize = 0;
        let mut b: usize = 0;
        proof {
            lemma_slots_prefix(items, order@, (a + 1) as int);
            assert(order@.take((a + 1) as int).drop_last() == order@.take(a as int));
            assert(order@.take(0) == Seq::<usize>::empty());
        }
        while b < a
            invariant
                order@ == self.bind_order(),
                items == self.items@,
                b <= a,
                a < order@.len(),
                slots_of(items, order@.take(a as int)).len() <= usize::MAX,
                seq == slots_of(items, order@.take(b as int)).len(),
            decreases a - b,
        {
            proof {
                lemma_slots_prefix(items, order@.take(a as int), (b + 1) as int);
                assert(order@.take(a as int).take((b + 1) as int) == order@.take((b + 1) as int));
                assert(order@.take((b + 1) as int).drop_last() == order@.take(b as int));
                assert(order@.take((b + 1) as int).last() == order@[b as int]);
            }
            let m = order[b];
            let count = self.arg_count(m);
            seq = seq + count + 1;
            b += 1;
        }
        let m = order[a];
        let count = self.arg_count(m);
        let mut r: Vec<usize> = Vec::new();
        let mut j: usize = 0;
        proof {
            lemma_slots_prefix(items, order@, (a + 1) as int);
            assert(order@.take((a + 1) as int).last() == order@[a as int]);
        }
        while j <= count
            invariant
                order@ == self.bind_order(),
                items == self.items@,
                a < order@.len(),
                m == order@[a as int],
                count == arg_count_of(items, m),
                seq == slots_of(items, order@.take(a as int)).len(),
                seq + count + 1 <= slots_of(items, order@).len(),
                slots_of(items, order@).len() <= usize::MAX,
                slots_of(items, order@.take((a + 1) as int)) == slots_of(items, order@.take(a as int))
                    + method_slots(m, count as nat),
                forall|x: int|
                    0 <= x < slots_of(items, order@.take((a + 1) as int)).len() ==> slots_of(
                        items,
                        order@,
                    )[x] == slots_of(items, order@.take((a + 1) as int))[x],
                j <= count + 1,
                r@.len() == j,
                forall|x: int|
                    0 <= x < j ==> {
                        &&& #[trigger] r@[x] == seq + x
                        &&& slots_of(items, order@)[r@[x] as int] == method_slots(m, count as nat)[x]
                    },
            decreases count + 1 - j,
        {
            r.push(seq + j);
            j += 1;
        }
        r
    }

    /// Number of typed arguments of the item at position `m`.
    fn arg_count(&self, m: usize) -> (r: usize)
        ensures
            r == arg_count_of(self.items@, m),
    {
        if m < self.items.len() {
            match &self.items[m] {
                TraitItem::Method(sig) => sig.arg_count,
                TraitItem::Other => 0,
            }
        } else {
            0
        }
    }
}

/// The slots of a prefix of the order are a prefix of the slots of the
/// order.
proof fn lemma_slots_prefix(items: Seq<TraitItem>, order: Seq<usize>, i: int)
    requires
        0 <= i <= order.len(),
    ensures
        slots_of(items, order.take(i)).len() <= slots_of(items, order).len(),
        forall|x: int|
            0 <= x < slots_of(items, order.take(i)).len() ==> slots_of(items, order)[x] == slots_of(
                items,
                order.take(i),
            )[x],
        i > 0 ==> slots_of(items, order.take(i)) == slots_of(items, order.take(i - 1)) + method_slots(
            order[i - 1],
            arg_count_of(items, order[i - 1]),
        ),
    decreases order.len(),
{
    if i > 0 {
        assert(order.take(i).drop_last() == order.take(i - 1));
        assert(order.take(i).last() == order[i - 1]);
    }
    if i == order.len() {
        assert(order.take(i) == order);
    } else {
        lemma_slots_prefix(items, order.drop_last(), i);
        assert(order.drop_last().take(i) == order.take(i));
    }
}

/// Looks up the argument bound to the parameter `name` of kind `k`: the
/// first binding with that kind and name.
pub fn lookup_binding(b: &Vec<Binding>, k: ParamKind, name: &String) -> (r: Option<String>)
    ensures
        r is None <==> forall|i: int|
            0 <= i < b@.len() ==> !((#[trigger] b@[i]).kind == k && b@[i].param@ == name@),
        r is Some ==> exists|i: int|
            0 <= i < b@.len() && (#[trigger] b@[i]).kind == k && b@[i].param@ == name@ && r == Some(
                b@[i].arg,
            ) && forall|x: int| 0 <= x < i ==> !((#[trigger] b@[x]).kind == k && b@[x].param@ == name@),
{
    let mut i: usize = 0;
    while i < b.len()
        invariant
            i <= b@.len(),
            forall|x: int| 0 <= x < i ==> !((#[trigger] b@[x]).kind == k && b@[x].param@ == name@),
        decreases b@.len() - i,
    {
        if b[i].kind == k && b[i].param == *name {
            return Some(b[i].arg.clone());
        }
        i += 1;
    }
    None
}

/// What the calls of a completed template go through: `wrapper<self_ty>`
/// for a local trait, `<External as wrapper<self_ty>>::Wrapper` for an
/// external one.
#[derive(Debug)]
pub struct CallSelf {
    /// Whether the trait is external.
    pub external: bool,
    /// The wrapper path.
    pub wrapper: Path,
    /// Source text of the concrete type.
    pub self_ty: String,
}

/// A method of an implementation template: its name and the number of bind
/// types its signature refers to.
#[derive(Debug)]
pub struct TemplateMethod {
    /// Name of the method.
    pub name: String,
    /// Number of bind type references in its signature.
    pub bind_refs: usize,
}

/// A method of a completed template.
#[derive(Debug)]
pub struct CompletedMethod {
    /// Name of the method.
    pub name: String,
    /// Self type of the forwarding call `<call_self as call_trait>::name`.
    pub call_self: CallSelf,
    /// Trait of the forwarding call.
    pub call_trait: Path,
    /// For an external trait, the wrapper its bind references are taken
    /// from (`<wrapper<Self>>::Bind`); `None` leaves them as they are.
    pub bind_wrapper: Option<Path>,
    /// Number of bind type references in its signature.
    pub bind_refs: usize,
}

/// A template completed for a concrete type.
#[derive(Debug)]
pub struct Completion {
    /// The concrete type implemented for.
    pub self_ty: String,
    /// The trait implemented.
    pub trait_path: Path,
    /// Its methods, in template order.
    pub methods: Vec<CompletedMethod>,
    /// Generics of the implementation.
    pub generics: Generics,
}

/// Whether `wrapper` is the library's own wrapper `::support::Wrapper`.
pub open spec fn is_local_wrapper_spec(wrapper: Path, support: Seq<char>) -> bool {
    &&& wrapper.leading_colon
    &&& wrapper.segments@.len() == 2
    &&& wrapper.segments@[0].ident@ == support
    &&& wrapper.segments@[0].arguments is None
    &&& wrapper.segments@[1].ident@ == "Wrapper"@
    &&& wrapper.segments@[1].arguments is None
}

/// Tells whether `wrapper` is the library's own wrapper `::support::Wrapper`.
pub fn is_local_wrapper(wrapper: &Path, support: &String) -> (r: bool)
    ensures
        r == is_local_wrapper_spec(*wrapper, support@),
{
    if !wrapper.leading_colon || wrapper.segments.len() != 2 {
        return false;
    }
    let s0: &PathSegment = &wrapper.segments[0];
    let s1: &PathSegment = &wrapper.segments[1];
    let name = "Wrapper".to_owned();
    s0.ident == *support && s0.arguments.is_none() && s1.ident == name && s1.arguments.is_none()
}

/// Completes an implementation template for the concrete type `self_ty`:
/// each method's forwarding call goes through the wrapper of `self_ty` as
/// `trait_path`; bind references are taken from the given wrapper if and
/// only if it is not the library's own (the trait is external); the
/// generics are `gens`.
pub fn complete(
    t: &Vec<TemplateMethod>,
    trait_path: &Path,
    wrapper: &Path,
    self_ty: &String,
    support: &String,
    gens: Generics,
) -> (r: Completion)
    ensures
        r.self_ty == *self_ty,
        r.trait_path.segments@ == trait_path.segments@,
        r.trait_path.leading_colon == trait_path.leading_colon,
        r.generics == gens,
        r.methods@.len() == t@.len(),
        forall|j: int|
            0 <= j < t@.len() ==> {
                let m = #[trigger] r.methods@[j];
                let external = !is_local_wrapper_spec(*wrapper, support@);
                &&& m.name == t@[j].name
                &&& m.bind_refs == t@[j].bind_refs
                &&& m.call_self.external == external
                &&& m.call_self.wrapper.segments@ == wrapper.segments@
                &&& m.call_self.wrapper.leading_colon == wrapper.leading_colon
                &&& m.call_self.self_ty == *self_ty
                &&& m.call_trait.segments@ == trait_path.segments@
                &&& m.call_trait.leading_colon == trait_path.leading_colon
                &&& (m.bind_wrapper is Some <==> external)
                &&& (external ==> m.bind_wrapper->0.segments@ == wrapper.segments@
                    && m.bind_wrapper->0.leading_colon == wrapper.leading_colon)
            },
{
    let external = !is_local_wrapper(wrapper, support);
    let mut methods: Vec<CompletedMethod> = Vec::new();
    let mut j: usize = 0;
    while j < t.len()
        invariant
            j <= t@.len(),
            external == !is_local_wrapper_spec(*wrapper, support@),
            methods@.len() == j,
            forall|x: int|
                0 <= x < j ==> {
                    let m = #[trigger] methods@[x];
                    &&& m.name == t@[x].name
                    &&& m.bind_refs == t@[x].bind_refs
                    &&& m.call_self.external == external
                    &&& m.call_self.wrapper.segments@ == wrapper.segments@
                    &&& m.call_self.wrapper.leading_colon == wrapper.leading_colon
                    &&& m.call_self.self_ty == *self_ty
                    &&& m.call_trait.segments@ == trait_path.segments@
                    &&& m.call_trait.leading_colon == trait_path.leading_colon
                    &&& (m.bind_wrapper is Some <==> external)
                    &&& (external ==> m.bind_wrapper->0.segments@ == wrapper.segments@
                        && m.bind_wrapper->0.leading_colon == wrapper.leading_colon)
                },
        decreases t@.len() - j,
    {
        let bind_wrapper = if external {
            Some(wrapper.copy())
        } else {
            None
        };
        methods.push(
            CompletedMethod {
                name: t[j].name.clone(),
                call_self: CallSelf { external, wrapper: wrapper.copy(), self_ty: self_ty.clone() },
                call_trait: trait_path.copy(),
                bind_wrapper,
                bind_refs: t[j].bind_refs,
            },
        );
        j += 1;
    }
    Completion { self_ty: self_ty.clone(), trait_path: trait_path.copy(), methods, generics: gens }
}

} // verus!
