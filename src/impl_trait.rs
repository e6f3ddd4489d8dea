//! Reading a delegated trait: its methods are sorted by how they take
//! `self`, and a trait whose methods cannot be forwarded is rejected.
use vstd::prelude::*;
use vstd::string::StringExecFns;

verus! {

/// The receiver of a trait method, as written.
#[derive(Debug)]
pub enum Receiver {
    /// `self` or `mut self`.
    Value,
    /// `&self` or `&'a self`, with the lifetime if one is written.
    Ref(Option<String>),
    /// `&mut self` or `&'a mut self`, with the lifetime if one is written.
    RefMut(Option<String>),
    /// A typed receiver such as `self: Box<Self>`.
    Typed,
    /// No receiver at all.
    Missing,
}

/// How a method takes `self`.
#[derive(Clone, Copy, Debug, PartialEq, Eq, Structural)]
pub enum ReceiverKind {
    /// By value; the method consumes `self`.
    Owned,
    /// By shared reference.
    Ref,
    /// By exclusive reference.
    RefMut,
}

/// The kind of a receiver, or `None` where the receiver is typed or missing.
pub open spec fn kind_of(r: Receiver) -> Option<ReceiverKind> {
    match r {
        Receiver::Value => Some(ReceiverKind::Owned),
        Receiver::Ref(_) => Some(ReceiverKind::Ref),
        Receiver::RefMut(_) => Some(ReceiverKind::RefMut),
        Receiver::Typed => None,
        Receiver::Missing => None,
    }
}

/// Classifies a receiver by ownership mode.
pub fn classify_receiver(r: &Receiver) -> (k: Option<ReceiverKind>)
    ensures
        k == kind_of(*r),
{
    match r {
        Receiver::Value => Some(ReceiverKind::Owned),
        Receiver::Ref(_) => Some(ReceiverKind::Ref),
        Receiver::RefMut(_) => Some(ReceiverKind::RefMut),
        Receiver::Typed => None,
        Receiver::Missing => None,
    }
}

/// A lifetime parameter declared on a method.
#[derive(Debug)]
pub struct LifetimeParam {
    /// Name of the lifetime, such as `'a`.
    pub name: String,
    /// Whether one of its bounds is the lifetime itself (`'a: 'a`).
    pub self_bounded: bool,
}

/// What the lifetime analysis reads of a method signature.
#[derive(Debug)]
pub struct Signature {
    /// Name of the method.
    pub ident: String,
    /// Its receiver.
    pub receiver: Receiver,
    /// Lifetime parameters declared on the method itself.
    pub lifetime_params: Vec<LifetimeParam>,
    /// Lifetimes constrained by themselves in the `where` clause (`'a: 'a`).
    pub bounded_lifetimes: Vec<String>,
    /// Named lifetimes (not `'_`) that occur in the typed arguments.
    pub input_lifetimes: Vec<String>,
    /// Lifetimes that occur in the return type.
    pub output_lifetimes: Vec<String>,
    /// Number of typed arguments.
    pub arg_count: usize,
}

/// Whether some string of `v` reads `s`.
pub open spec fn mentions(v: Seq<String>, s: Seq<char>) -> bool {
    exists|i: int| 0 <= i < v.len() && (#[trigger] v[i])@ == s
}

/// The lifetime written on a reference receiver, if any.
pub open spec fn receiver_lifetime(r: Receiver) -> Option<String> {
    match r {
        Receiver::Ref(l) => l,
        Receiver::RefMut(l) => l,
        _ => None,
    }
}

/// Whether the method declares lifetime `l`.
pub open spec fn declares(sig: Signature, l: Seq<char>) -> bool {
    exists|j: int| 0 <= j < sig.lifetime_params@.len() && (#[trigger] sig.lifetime_params@[j]).name@ == l
}

/// Whether lifetime `l` is forced to be early-bound by a bound on itself.
pub open spec fn self_bounded(sig: Signature, l: Seq<char>) -> bool {
    (exists|j: int|
        0 <= j < sig.lifetime_params@.len() && (#[trigger] sig.lifetime_params@[j]).name@ == l
            && sig.lifetime_params@[j].self_bounded) || mentions(sig.bounded_lifetimes@, l)
}

/// Whether lifetime `l` of a method cannot be threaded through the generated
/// sub-traits: it occurs in an argument, is declared on the method, is not the
/// receiver's, is not forced to be early-bound, and does not occur in the
/// return type.
pub open spec fn to_be_early_bounded(sig: Signature, l: Seq<char>) -> bool {
    &&& mentions(sig.input_lifetimes@, l)
    &&& !(receiver_lifetime(sig.receiver) is Some && receiver_lifetime(sig.receiver)->0@ == l)
    &&& declares(sig, l)
    &&& !self_bounded(sig, l)
    &&& !mentions(sig.output_lifetimes@, l)
}

/// Tells whether some string of `v` reads `s`.
pub fn contains(v: &Vec<String>, s: &String) -> (r: bool)
    ensures
        r == mentions(v@, s@),
{
    let mut i: usize = 0;
    while i < v.len()
        invariant
            i <= v@.len(),
            forall|j: int| 0 <= j < i ==> (#[trigger] v@[j])@ != s@,
        decreases v@.len() - i,
    {
        if v[i] == *s {
            return true;
        }
        i += 1;
    }
    false
}

impl Signature {
    /// Tells whether the method declares lifetime `l`, and whether `l` is
    /// forced to be early-bound by a bound on itself.
    fn lifetime_status(&self, l: &String) -> (r: (bool, bool))
        ensures
            r.0 == declares(*self, l@),
            r.1 == self_bounded(*self, l@),
    {
        let mut declared = false;
        let mut bounded = false;
        let mut i: usize = 0;
        while i < self.lifetime_params.len()
            invariant
                i <= self.lifetime_params@.len(),
                declared == exists|j: int|
                    0 <= j < i && (#[trigger] self.lifetime_params@[j]).name@ == l@,
                bounded == exists|j: int|
                    0 <= j < i && (#[trigger] self.lifetime_params@[j]).name@ == l@
                        && self.lifetime_params@[j].self_bounded,
            decreases self.lifetime_params@.len() - i,
        {
            let p = &self.lifetime_params[i];
            if p.name == *l {
                declared = true;
                if p.self_bounded {
                    bounded = true;
                }
            }
            i += 1;
        }
        let listed = contains(&self.bounded_lifetimes, l);
        (declared, bounded || listed)
    }

    /// The lifetimes of this method that would have to be early-bound to be
    /// forwarded, each listed once.
    pub fn to_be_early_bounded_lifetimes(&self) -> (r: Vec<String>)
        ensures
            forall|i: int| 0 <= i < r@.len() ==> to_be_early_bounded(*self, (#[trigger] r@[i])@),
            forall|l: Seq<char>| to_be_early_bounded(*self, l) ==> mentions(r@, l),
            forall|i: int, j: int| 0 <= i < j < r@.len() ==> (#[trigger] r@[i])@ != (#[trigger] r@[j])@,
    {
        let mut r: Vec<String> = Vec::new();
        let mut i: usize = 0;
        while i < self.input_lifetimes.len()
            invariant
                i <= self.input_lifetimes@.len(),
                forall|k: int| 0 <= k < r@.len() ==> to_be_early_bounded(*self, (#[trigger] r@[k])@),
                forall|k: int|
                    0 <= k < i && to_be_early_bounded(*self, (#[trigger] self.input_lifetimes@[k])@)
                        ==> mentions(r@, self.input_lifetimes@[k]@),
                forall|a: int, b: int| 0 <= a < b < r@.len() ==> (#[trigger] r@[a])@ != (#[trigger] r@[b])@,
            decreases self.input_lifetimes@.len() - i,
        {
            let l = &self.input_lifetimes[i];
            let is_receivers = match &self.receiver {
                Receiver::Ref(Some(rl)) => *rl == *l,
                Receiver::RefMut(Some(rl)) => *rl == *l,
                _ => false,
            };
            let (declared, bounded) = self.lifetime_status(l);
            let in_output = contains(&self.output_lifetimes, l);
            let seen = contains(&r, l);
            proof {
                assert(mentions(self.input_lifetimes@, l@)) by {
                    assert(self.input_lifetimes@[i as int]@ == l@);
                }
            }
            if !is_receivers && declared && !bounded && !in_output && !seen {
                let ghost before = r@;
                r.push(l.clone());
                proof {
                    assert(r@[r@.len() - 1]@ == l@);
                    assert forall|k: int|
                        0 <= k <= i && to_be_early_bounded(
                            *self,
                            (#[trigger] self.input_lifetimes@[k])@,
                        ) implies mentions(r@, self.input_lifetimes@[k]@) by {
                        if k < i {
                            let w = choose|w: int| 0 <= w < before.len() && (#[trigger] before[w])@
                                == self.input_lifetimes@[k]@;
                            assert(r@[w] == before[w]);
                        } else {
                            assert(r@[r@.len() - 1]@ == self.input_lifetimes@[k]@);
                        }
                    }
                }
            } else {
                proof {
                    assert forall|k: int|
                        0 <= k <= i && to_be_early_bounded(
                            *self,
                            (#[trigger] self.input_lifetimes@[k])@,
                        ) implies mentions(r@, self.input_lifetimes@[k]@) by {
                        if k == i {
                            assert(seen);
                        }
                    }
                }
            }
            i += 1;
        }
        proof {
            assert forall|l: Seq<char>| to_be_early_bounded(*self, l) implies mentions(r@, l) by {
                let k = choose|k: int|
                    0 <= k < self.input_lifetimes@.len() && (#[trigger] self.input_lifetimes@[k])@
                        == l;
                assert(to_be_early_bounded(*self, self.input_lifetimes@[k]@));
            }
        }
        r
    }
}

/// Names of the items generated for a delegated trait; each starts with a
/// prefix that user code does not use.
#[derive(Debug)]
pub struct GeneratedNames {
    /// Sub-trait of the methods taking `self`.
    pub owned: String,
    /// Sub-trait of the methods taking `&self`.
    pub by_ref: String,
    /// Sub-trait of the methods taking `&mut self`.
    pub by_mut: String,
    /// Scope trait carrying the bind types.
    pub scope: String,
    /// Prefix of the bind types, followed by their number.
    pub bind: String,
    /// Wrapper type standing in for an external trait's implementor.
    pub wrapper: String,
}

/// The name `__delegate_<ident>__<suffix>`.
pub open spec fn generated_name(ident: Seq<char>, suffix: Seq<char>) -> Seq<char> {
    "__delegate_"@ + ident + "__"@ + suffix
}

/// Writes the name `__delegate_<ident>__<suffix>`.
fn make_name(ident: &str, suffix: &str) -> (r: String)
    ensures
        r@ == generated_name(ident@, suffix@),
{
    let mut r = "__delegate_".to_owned();
    r.append(ident);
    r.append("__");
    r.append(suffix);
    r
}

impl GeneratedNames {
    /// Names of the items generated for the trait named `ident`.
    pub fn of(ident: &str) -> (r: GeneratedNames)
        ensures
            r.owned@ == generated_name(ident@, "DelegateOwned"@),
            r.by_ref@ == generated_name(ident@, "DelegateRef"@),
            r.by_mut@ == generated_name(ident@, "DelegateRefMut"@),
            r.scope@ == generated_name(ident@, "Scope"@),
            r.bind@ == generated_name(ident@, "Bind"@),
            r.wrapper@ == generated_name(ident@, "Wrapper"@),
    {
        GeneratedNames {
            owned: make_name(ident, "DelegateOwned"),
            by_ref: make_name(ident, "DelegateRef"),
            by_mut: make_name(ident, "DelegateRefMut"),
            scope: make_name(ident, "Scope"),
            bind: make_name(ident, "Bind"),
            wrapper: make_name(ident, "Wrapper"),
        }
    }
}

/// Whether a trait named `name` is a marker trait that every fieldless
/// struct meets, the only kind of bound on `Self` a delegated trait may
/// carry.
pub open spec fn is_marker(name: Seq<char>) -> bool {
    name == "Sized"@ || name == "Send"@ || name == "Sync"@ || name == "Unpin"@ || name
        == "UnwindSafe"@ || name == "RefUnwindSafe"@
}

/// Tells whether the trait named `name` is a marker trait.
fn marker(name: &String) -> (r: bool)
    ensures
        r == is_marker(name@),
{
    *name == "Sized".to_owned() || *name == "Send".to_owned() || *name == "Sync".to_owned() || *name
        == "Unpin".to_owned() || *name == "UnwindSafe".to_owned() || *name
        == "RefUnwindSafe".to_owned()
}

/// The first bound on `Self` (given by the last segment of its trait's
/// path) that is not a marker trait; such a bound cannot be carried through
/// the delegation and the trait is rejected.
pub fn first_non_marker(bounds: &Vec<String>) -> (r: Option<usize>)
    ensures
        r is None <==> forall|i: int| 0 <= i < bounds@.len() ==> is_marker((#[trigger] bounds@[i])@),
        r matches Some(i) ==> i < bounds@.len() && !is_marker(bounds@[i as int]@) && forall|x: int|
            0 <= x < i ==> is_marker((#[trigger] bounds@[x])@),
{
    let mut i: usize = 0;
    while i < bounds.len()
        invariant
            i <= bounds@.len(),
            forall|x: int| 0 <= x < i ==> is_marker((#[trigger] bounds@[x])@),
        decreases bounds@.len() - i,
    {
        if !marker(&bounds[i]) {
            return Some(i);
        }
        i += 1;
    }
    None
}

/// An item of a trait declaration.
#[derive(Debug)]
pub enum TraitItem {
    /// A method.
    Method(Signature),
    /// An associated type, an associated constant or a macro invocation.
    Other,
}

/// Why a trait cannot be delegated.
#[derive(Debug)]
pub enum TraitError {
    /// The item at this position is a method whose receiver is typed or
    /// missing.
    TypedReceiver(usize),
    /// The item at this position is not a method.
    NonMethodItem(usize),
    /// The method at this position has these lifetimes, which would have to be
    /// early-bound; a bound `'a: 'a` or an anonymous lifetime removes the
    /// problem.
    EarlyBoundLifetimes(usize, Vec<String>),
}

/// Whether the item is a method with an untyped receiver.
pub open spec fn forwardable(it: TraitItem) -> bool {
    it is Method && kind_of(it->Method_0.receiver) is Some
}

/// The first item that is not a method with an untyped receiver, with the
/// error it gives.
pub open spec fn shape_error_at(items: Seq<TraitItem>, i: int) -> bool {
    &&& 0 <= i < items.len()
    &&& !forwardable(items[i])
    &&& forall|j: int| 0 <= j < i ==> forwardable(#[trigger] items[j])
}

/// Whether the method at position `i` has a lifetime that would have to be
/// early-bound.
pub open spec fn has_early_bound(items: Seq<TraitItem>, i: int) -> bool {
    items[i] is Method && exists|l: Seq<char>| to_be_early_bounded(items[i]->Method_0, l)
}

/// Rank of a receiver kind in the order methods are checked and numbered.
pub open spec fn rank(k: ReceiverKind) -> int {
    match k {
        ReceiverKind::Owned => 0,
        ReceiverKind::Ref => 1,
        ReceiverKind::RefMut => 2,
    }
}

/// Whether the forwardable item `j` comes before the forwardable item `i`
/// in ownership order: by rank of receiver kind, then by position.
pub open spec fn comes_before(items: Seq<TraitItem>, j: int, i: int) -> bool {
    let kj = rank(kind_of(items[j]->Method_0.receiver)->0);
    let ki = rank(kind_of(items[i]->Method_0.receiver)->0);
    kj < ki || (kj == ki && j < i)
}

/// A delegated trait, its methods sorted by receiver.
#[derive(Debug)]
pub struct TraitDef {
    /// Name of the trait.
    pub ident: String,
    /// Its items, all methods with an untyped receiver.
    pub items: Vec<TraitItem>,
    /// Positions of the methods taking `self`, in order.
    pub owned: Vec<usize>,
    /// Positions of the methods taking `&self`, in order.
    pub by_ref: Vec<usize>,
    /// Positions of the methods taking `&mut self`, in order.
    pub by_mut: Vec<usize>,
}

/// Whether `bucket` lists, in order, exactly the positions of the items
/// whose receiver is of kind `k`.
pub open spec fn is_bucket(items: Seq<TraitItem>, bucket: Seq<usize>, k: ReceiverKind) -> bool {
    &&& forall|a: int, b: int| 0 <= a < b < bucket.len() ==> #[trigger] bucket[a] < #[trigger] bucket[b]
    &&& forall|a: int|
        0 <= a < bucket.len() ==> #[trigger] bucket[a] < items.len() && items[bucket[a] as int] is Method
            && kind_of(items[bucket[a] as int]->Method_0.receiver) == Some(k)
    &&& forall|i: int|
        0 <= i < items.len() && items[i] is Method && kind_of(#[trigger] items[i]->Method_0.receiver)
            == Some(k) ==> bucket.contains(i as usize)
}

/// Appends `i` to the bucket of kind `k`.
fn push_bucket(
    owned: &mut Vec<usize>,
    by_ref: &mut Vec<usize>,
    by_mut: &mut Vec<usize>,
    k: ReceiverKind,
    i: usize,
)
    ensures
        final(owned)@ == (if k == ReceiverKind::Owned { old(owned)@.push(i) } else { old(owned)@ }),
        final(by_ref)@ == (if k == ReceiverKind::Ref { old(by_ref)@.push(i) } else { old(by_ref)@ }),
        final(by_mut)@ == (if k == ReceiverKind::RefMut { old(by_mut)@.push(i) } else { old(by_mut)@ }),
{
    match k {
        ReceiverKind::Owned => owned.push(i),
        ReceiverKind::Ref => by_ref.push(i),
        ReceiverKind::RefMut => by_mut.push(i),
    }
}

/// The bucket invariant over the first `n` items.
pub open spec fn bucket_prefix(items: Seq<TraitItem>, bucket: Seq<usize>, k: ReceiverKind, n: int) -> bool {
    &&& forall|a: int, b: int| 0 <= a < b < bucket.len() ==> #[trigger] bucket[a] < #[trigger] bucket[b]
    &&& forall|a: int|
        0 <= a < bucket.len() ==> #[trigger] bucket[a] < n && items[bucket[a] as int] is Method
            && kind_of(items[bucket[a] as int]->Method_0.receiver) == Some(k)
    &&& forall|i: int|
        0 <= i < n && items[i] is Method && kind_of(#[trigger] items[i]->Method_0.receiver) == Some(k)
            ==> bucket.contains(i as usize)
}

proof fn lemma_bucket_step(items: Seq<TraitItem>, old_b: Seq<usize>, new_b: Seq<usize>, k: ReceiverKind, n: int)
    requires
        0 <= n < items.len(),
        n <= usize::MAX,
        forwardable(items[n]),
        bucket_prefix(items, old_b, k, n),
        new_b == (if kind_of(items[n]->Method_0.receiver) == Some(k) {
            old_b.push(n as usize)
        } else {
            old_b
        }),
    ensures
        bucket_prefix(items, new_b, k, n + 1),
{
    if kind_of(items[n]->Method_0.receiver) == Some(k) {
        assert(new_b[new_b.len() - 1] == n as usize);
        assert forall|i: int|
            0 <= i < n + 1 && items[i] is Method && kind_of(#[trigger] items[i]->Method_0.receiver)
                == Some(k) implies new_b.contains(i as usize) by {
            if i < n {
                let w = choose|w: int| 0 <= w < old_b.len() && old_b[w] == i as usize;
                assert(new_b[w] == old_b[w]);
            } else {
                assert(new_b[new_b.len() - 1] == i as usize);
            }
        }
    }
}

/// The first method listed in `bucket` that has lifetimes which would have
/// to be early-bound, with those lifetimes.
fn first_early_bound(items: &Vec<TraitItem>, bucket: &Vec<usize>) -> (r: Option<(usize, Vec<String>)>)
    requires
        forall|a: int| 0 <= a < bucket@.len() ==> #[trigger] bucket@[a] < items@.len(),
    ensures
        r is None ==> forall|a: int|
            0 <= a < bucket@.len() ==> !has_early_bound(items@, #[trigger] bucket@[a] as int),
        r matches Some((m, ls)) ==> m < items@.len() && has_early_bound(items@, m as int)
            && ls@.len() > 0 && (forall|k: int|
            0 <= k < ls@.len() ==> to_be_early_bounded(items@[m as int]->Method_0, (#[trigger] ls@[k])@))
            && (forall|l: Seq<char>| to_be_early_bounded(items@[m as int]->Method_0, l) ==> mentions(ls@, l))
            && (forall|x: int, y: int| 0 <= x < y < ls@.len() ==> (#[trigger] ls@[x])@ != (#[trigger] ls@[y])@)
            && exists|a: int|
            0 <= a < bucket@.len() && bucket@[a] == m && forall|x: int|
                0 <= x < a ==> !has_early_bound(items@, #[trigger] bucket@[x] as int),
{
    let mut a: usize = 0;
    while a < bucket.len()
        invariant
            a <= bucket@.len(),
            forall|b: int| 0 <= b < bucket@.len() ==> #[trigger] bucket@[b] < items@.len(),
            forall|x: int| 0 <= x < a ==> !has_early_bound(items@, #[trigger] bucket@[x] as int),
        decreases bucket@.len() - a,
    {
        let m = bucket[a];
        match &items[m] {
            TraitItem::Method(sig) => {
                let ls = sig.to_be_early_bounded_lifetimes();
                if ls.len() > 0 {
                    proof {
                        assert(to_be_early_bounded(*sig, ls@[0]@));
                        assert(bucket@[a as int] == m);
                    }
                    return Some((m, ls));
                }
                proof {
                    assert forall|l: Seq<char>| !to_be_early_bounded(*sig, l) by {
                        if to_be_early_bounded(*sig, l) {
                            assert(mentions(ls@, l));
                        }
                    }
                }
            },
            TraitItem::Other => {},
        }
        a += 1;
    }
    None
}

/// The method that `bucket` lists first among those with early-bound
/// lifetimes comes first in ownership order among all such methods, given
/// that the buckets of lower rank (`lower1`, `lower2`) have none.
proof fn lemma_first_in_bucket(
    items: Seq<TraitItem>,
    bucket: Seq<usize>,
    k: ReceiverKind,
    m: usize,
    lower1: Seq<usize>,
    lower2: Seq<usize>,
)
    requires
        forall|j: int| 0 <= j < items.len() ==> forwardable(#[trigger] items[j]),
        bucket_prefix(items, bucket, k, items.len() as int),
        exists|a: int|
            0 <= a < bucket.len() && bucket[a] == m && forall|x: int|
                0 <= x < a ==> !has_early_bound(items, #[trigger] bucket[x] as int),
        rank(k) >= 1 ==> bucket_prefix(items, lower1, ReceiverKind::Owned, items.len() as int)
            && forall|x: int| 0 <= x < lower1.len() ==> !has_early_bound(items, #[trigger] lower1[x] as int),
        rank(k) == 2 ==> bucket_prefix(items, lower2, ReceiverKind::Ref, items.len() as int)
            && forall|x: int| 0 <= x < lower2.len() ==> !has_early_bound(items, #[trigger] lower2[x] as int),
        items.len() <= usize::MAX,
    ensures
        forall|j: int|
            0 <= j < items.len() && comes_before(items, j, m as int) ==> !has_early_bound(items, j),
{
    let a = choose|a: int|
        0 <= a < bucket.len() && bucket[a] == m && forall|x: int|
            0 <= x < a ==> !has_early_bound(items, #[trigger] bucket[x] as int);
    assert(kind_of(items[m as int]->Method_0.receiver) == Some(k));
    assert forall|j: int|
        0 <= j < items.len() && comes_before(items, j, m as int) implies !has_early_bound(items, j) by {
        let kj = kind_of(items[j]->Method_0.receiver)->0;
        if kj == k {
            assert(bucket.contains(j as usize));
            let x = choose|x: int| 0 <= x < bucket.len() && bucket[x] == j as usize;
            if x >= a {
                if x > a {
                    assert(bucket[a] < bucket[x]);
                }
            }
            assert(x < a);
        } else if kj == ReceiverKind::Owned {
            assert(lower1.contains(j as usize));
            let x = choose|x: int| 0 <= x < lower1.len() && lower1[x] == j as usize;
            assert(!has_early_bound(items, lower1[x] as int));
        } else {
            assert(lower2.contains(j as usize));
            let x = choose|x: int| 0 <= x < lower2.len() && lower2[x] == j as usize;
            assert(!has_early_bound(items, lower2[x] as int));
        }
    }
}

impl TraitDef {
    /// Reads a delegated trait. Items are checked in order: the first that is
    /// not a method, or whose receiver is typed or missing, is rejected. Then
    /// the methods are checked for lifetimes that would have to be
    /// early-bound, those taking `self` first, then `&self`, then
    /// `&mut self`.
    pub fn parse(ident: String, items: Vec<TraitItem>) -> (r: Result<TraitDef, TraitError>)
        ensures
            r matches Err(TraitError::TypedReceiver(i)) ==> shape_error_at(items@, i as int)
                && items@[i as int] is Method,
            r matches Err(TraitError::NonMethodItem(i)) ==> shape_error_at(items@, i as int)
                && items@[i as int] is Other,
            (exists|i: int| shape_error_at(items@, i)) ==> r matches Err(
                TraitError::TypedReceiver(_),
            ) || r matches Err(TraitError::NonMethodItem(_)),
            r matches Err(TraitError::EarlyBoundLifetimes(i, ls)) ==> (forall|j: int|
                0 <= j < items@.len() ==> forwardable(#[trigger] items@[j])) && i < items@.len()
                && has_early_bound(items@, i as int) && ls@.len() > 0 && (forall|k: int|
                0 <= k < ls@.len() ==> to_be_early_bounded(
                    items@[i as int]->Method_0,
                    (#[trigger] ls@[k])@,
                )) && (forall|l: Seq<char>|
                to_be_early_bounded(items@[i as int]->Method_0, l) ==> mentions(ls@, l)) && (forall|
                x: int,
                y: int,
            | 0 <= x < y < ls@.len() ==> (#[trigger] ls@[x])@ != (#[trigger] ls@[y])@) && (forall|j: int|
                0 <= j < items@.len() && comes_before(items@, j, i as int) ==> !has_early_bound(
                    items@,
                    j,
                )),
            r is Ok <==> (forall|j: int| 0 <= j < items@.len() ==> forwardable(#[trigger] items@[j]))
                && (forall|j: int| 0 <= j < items@.len() ==> !has_early_bound(items@, j)),
            r is Ok ==> r->Ok_0.ident == ident && r->Ok_0.items == items
                && is_bucket(items@, r->Ok_0.owned@, ReceiverKind::Owned)
                && is_bucket(items@, r->Ok_0.by_ref@, ReceiverKind::Ref)
                && is_bucket(items@, r->Ok_0.by_mut@, ReceiverKind::RefMut),
    {
        let mut owned: Vec<usize> = Vec::new();
        let mut by_ref: Vec<usize> = Vec::new();
        let mut by_mut: Vec<usize> = Vec::new();
        let mut i: usize = 0;
        while i < items.len()
            invariant
                i <= items@.len(),
                forall|j: int| 0 <= j < i ==> forwardable(#[trigger] items@[j]),
                bucket_prefix(items@, owned@, ReceiverKind::Owned, i as int),
                bucket_prefix(items@, by_ref@, ReceiverKind::Ref, i as int),
                bucket_prefix(items@, by_mut@, ReceiverKind::RefMut, i as int),
            decreases items@.len() - i,
        {
            match &items[i] {
                TraitItem::Method(sig) => match classify_receiver(&sig.receiver) {
                    Some(k) => {
                        let ghost (o0, r0, m0) = (owned@, by_ref@, by_mut@);
                        push_bucket(&mut owned, &mut by_ref, &mut by_mut, k, i);
                        proof {
                            lemma_bucket_step(items@, o0, owned@, ReceiverKind::Owned, i as int);
                            lemma_bucket_step(items@, r0, by_ref@, ReceiverKind::Ref, i as int);
                            lemma_bucket_step(items@, m0, by_mut@, ReceiverKind::RefMut, i as int);
                        }
                    },
                    None => {
                        return Err(TraitError::TypedReceiver(i));
                    },
                },
                TraitItem::Other => {
                    return Err(TraitError::NonMethodItem(i));
                },
            }
            i += 1;
        }
        let r0 = first_early_bound(&items, &owned);
        if let Some((m, ls)) = r0 {
            proof {
                lemma_first_in_bucket(items@, owned@, ReceiverKind::Owned, m, Seq::empty(), Seq::empty());
            }
            return Err(TraitError::EarlyBoundLifetimes(m, ls));
        }
        let r1 = first_early_bound(&items, &by_ref);
        if let Some((m, ls)) = r1 {
            proof {
                lemma_first_in_bucket(items@, by_ref@, ReceiverKind::Ref, m, owned@, Seq::empty());
            }
            return Err(TraitError::EarlyBoundLifetimes(m, ls));
        }
        let r2 = first_early_bound(&items, &by_mut);
        if let Some((m, ls)) = r2 {
            proof {
                lemma_first_in_bucket(items@, by_mut@, ReceiverKind::RefMut, m, owned@, by_ref@);
            }
            return Err(TraitError::EarlyBoundLifetimes(m, ls));
        }
        proof {
            assert forall|j: int| 0 <= j < items@.len() implies !has_early_bound(items@, j) by {
                let k = kind_of(items@[j]->Method_0.receiver)->0;
                let b = if k == ReceiverKind::Owned {
                    owned@
                } else if k == ReceiverKind::Ref {
                    by_ref@
                } else {
                    by_mut@
                };
                assert(b.contains(j as usize));
                let x = choose|x: int| 0 <= x < b.len() && b[x] == j as usize;
                assert(!has_early_bound(items@, b[x] as int));
            }
        }
        Ok(TraitDef { ident, items, owned, by_ref, by_mut })
    }
}

/// A position of a method signature that gets its own bind type.
#[derive(Clone, Copy, Debug, PartialEq, Eq, Structural)]
pub enum SlotPos {
    /// The typed argument at this position.
    Arg(usize),
    /// The return type.
    Return,
}

/// A bind slot: a position of a method, given by the method's position
/// among the trait's items.
#[derive(Clone, Copy, Debug, PartialEq, Eq, Structural)]
pub struct BindSlot {
    /// Position of the method among the trait's items.
    pub method: usize,
    /// Position within the method's signature.
    pub pos: SlotPos,
}

/// The slots of one method: each typed argument in order, then the return
/// type.
pub open spec fn method_slots(m: usize, arg_count: nat) -> Seq<BindSlot> {
    Seq::new(
        arg_count + 1,
        |k: int|
            if k < arg_count {
                BindSlot { method: m, pos: SlotPos::Arg(k as usize) }
            } else {
                BindSlot { method: m, pos: SlotPos::Return }
            },
    )
}

/// Number of typed arguments of the method at position `m`.
pub open spec fn arg_count_of(items: Seq<TraitItem>, m: usize) -> nat {
    if m < items.len() && items[m as int] is Method {
        items[m as int]->Method_0.arg_count as nat
    } else {
        0
    }
}

/// The slots of the methods listed in `order`, one method after the other.
pub open spec fn slots_of(items: Seq<TraitItem>, order: Seq<usize>) -> Seq<BindSlot>
    decreases order.len(),
{
    if order.len() == 0 {
        Seq::empty()
    } else {
        slots_of(items, order.drop_last()) + method_slots(
            order.last(),
            arg_count_of(items, order.last()),
        )
    }
}

/// Appends the slots of method `m` to `out`.
fn push_method_slots(out: &mut Vec<BindSlot>, m: usize, arg_count: usize)
    ensures
        final(out)@ == old(out)@ + method_slots(m, arg_count as nat),
{
    let ghost start = out@;
    let mut k: usize = 0;
    while k < arg_count
        invariant
            k <= arg_count,
            out@ == start + method_slots(m, arg_count as nat).subrange(0, k as int),
        decreases arg_count - k,
    {
        out.push(BindSlot { method: m, pos: SlotPos::Arg(k) });
        assert(out@ == start + method_slots(m, arg_count as nat).subrange(0, k + 1));
        k += 1;
    }
    out.push(BindSlot { method: m, pos: SlotPos::Return });
    assert(out@ == start + method_slots(m, arg_count as nat));
}

impl TraitDef {
    /// Methods in the order their bind types are numbered: those taking
    /// `self`, then `&self`, then `&mut self`.
    pub open spec fn bind_order(&self) -> Seq<usize> {
        self.owned@ + self.by_ref@ + self.by_mut@
    }

    /// The bind slots, numbered by their position in the result: for each
    /// method in [`Self::bind_order`], each typed argument, then the return
    /// type.
    pub fn bind_slots(&self) -> (r: Vec<BindSlot>)
        ensures
            r@ == slots_of(self.items@, self.bind_order()),
    {
        let ghost order = self.bind_order();
        let mut r: Vec<BindSlot> = Vec::new();
        let ghost mut done: int = 0;
        let mut b: usize = 0;
        while b < 3
            invariant
                b <= 3,
                order == self.owned@ + self.by_ref@ + self.by_mut@,
                done == (if b == 0 {
                    0
                } else if b == 1 {
                    self.owned@.len()
                } else if b == 2 {
                    self.owned@.len() + self.by_ref@.len()
                } else {
                    order.len()
                }),
                r@ == slots_of(self.items@, order.subrange(0, done as int)),
            decreases 3 - b,
        {
            let bucket = if b == 0 {
                &self.owned
            } else if b == 1 {
                &self.by_ref
            } else {
                &self.by_mut
            };
            let mut a: usize = 0;
            while a < bucket.len()
                invariant
                    b < 3,
                    bucket@ == (if b == 0 {
                        self.owned@
                    } else if b == 1 {
                        self.by_ref@
                    } else {
                        self.by_mut@
                    }),
                    order == self.owned@ + self.by_ref@ + self.by_mut@,
                    a <= bucket@.len(),
                    0 <= done,
                    done == (if b == 0 {
                        0
                    } else if b == 1 {
                        self.owned@.len() as int
                    } else {
                        self.owned@.len() + self.by_ref@.len() as int
                    }),
                    done + bucket@.len() <= order.len(),
                    forall|x: int| 0 <= x < bucket@.len() ==> order[done + x] == bucket@[x],
                    r@ == slots_of(self.items@, order.subrange(0, done + a)),
                decreases bucket@.len() - a,
            {
                let m = bucket[a];
                let count: usize = if m < self.items.len() {
                    match &self.items[m] {
                        TraitItem::Method(sig) => sig.arg_count,
                        TraitItem::Other => 0,
                    }
                } else {
                    0
                };
                push_method_slots(&mut r, m, count);
                proof {
                    let p = order.subrange(0, done + a + 1);
                    assert(p.drop_last() == order.subrange(0, done + a));
                    assert(p.last() == m);
                }
                a += 1;
            }
            proof {
                done = done + bucket@.len();
            }
            b += 1;
        }
        assert(order.subrange(0, order.len() as int) == order);
        r
    }
}

/// The slot of the `k`-th typed argument of method `m`.
pub open spec fn arg_slot(m: usize, k: int) -> BindSlot {
    BindSlot { method: m, pos: SlotPos::Arg(k as usize) }
}

proof fn lemma_slots_of(items: Seq<TraitItem>, order: Seq<usize>)
    requires
        forall|a: int, b: int| 0 <= a < b < order.len() ==> order[a] != order[b],
    ensures
        forall|i: int, j: int|
            0 <= i < j < slots_of(items, order).len() ==> slots_of(items, order)[i]
                != slots_of(items, order)[j],
        forall|i: int|
            0 <= i < slots_of(items, order).len() ==> exists|a: int|
                0 <= a < order.len() && order[a] == (#[trigger] slots_of(items, order)[i]).method,
        forall|a: int, k: int|
            0 <= a < order.len() && 0 <= k < arg_count_of(items, order[a]) ==> slots_of(
                items,
                order,
            ).contains(#[trigger] arg_slot(order[a], k)),
        forall|a: int|
            0 <= a < order.len() ==> slots_of(items, order).contains(
                BindSlot { method: #[trigger] order[a], pos: SlotPos::Return },
            ),
    decreases order.len(),
{
    if order.len() > 0 {
        let pre = order.drop_last();
        let m = order.last();
        lemma_slots_of(items, pre);
        let ps = slots_of(items, pre);
        let ms = method_slots(m, arg_count_of(items, m));
        let all = slots_of(items, order);
        assert(all == ps + ms);
        assert forall|i: int, j: int| 0 <= i < j < all.len() implies all[i] != all[j] by {
            if j >= ps.len() && i < ps.len() {
                let a = choose|a: int| 0 <= a < pre.len() && pre[a] == ps[i].method;
                assert(order[a] == pre[a]);
                assert(order[order.len() - 1] == m);
            }
        }
        assert forall|i: int| 0 <= i < all.len() implies exists|a: int|
            0 <= a < order.len() && order[a] == (#[trigger] all[i]).method by {
            if i < ps.len() {
                let a = choose|a: int| 0 <= a < pre.len() && pre[a] == ps[i].method;
                assert(order[a] == pre[a]);
            } else {
                assert(order[order.len() - 1] == m);
            }
        }
        assert forall|a: int, k: int|
            0 <= a < order.len() && 0 <= k < arg_count_of(items, order[a]) implies all.contains(
            #[trigger] arg_slot(order[a], k),
        ) by {
            let x = arg_slot(order[a], k);
            if a < pre.len() {
                assert(pre[a] == order[a]);
                let w = choose|w: int| 0 <= w < ps.len() && ps[w] == x;
                assert(all[w] == x);
            } else {
                assert(ms[k] == x);
                assert(all[ps.len() + k] == x);
            }
        }
        assert forall|a: int| 0 <= a < order.len() implies all.contains(
            BindSlot { method: #[trigger] order[a], pos: SlotPos::Return },
        ) by {
            let x = BindSlot { method: order[a], pos: SlotPos::Return };
            if a < pre.len() {
                assert(pre[a] == order[a]);
                let w = choose|w: int| 0 <= w < ps.len() && ps[w] == x;
                assert(all[w] == x);
            } else {
                let k = arg_count_of(items, m) as int;
                assert(ms[k] == x);
                assert(all[ps.len() + k] == x);
            }
        }
    }
}

/// Each argument and the return type of each method of a delegated trait
/// gets exactly one bind type: the slots are pairwise distinct, every slot
/// belongs to a method of the trait, and every typed argument and every
/// return type of every method has its slot.
pub proof fn lemma_bind_slots_unique(def: TraitDef)
    requires
        def.items@.len() <= usize::MAX,
        is_bucket(def.items@, def.owned@, ReceiverKind::Owned),
        is_bucket(def.items@, def.by_ref@, ReceiverKind::Ref),
        is_bucket(def.items@, def.by_mut@, ReceiverKind::RefMut),
    ensures
        ({
            let slots = slots_of(def.items@, def.bind_order());
            &&& forall|i: int, j: int| 0 <= i < j < slots.len() ==> slots[i] != slots[j]
            &&& forall|i: int|
                0 <= i < slots.len() ==> (#[trigger] slots[i]).method < def.items@.len()
                    && def.items@[slots[i].method as int] is Method
            &&& forall|m: int, k: int|
                0 <= m < def.items@.len() && def.items@[m] is Method && kind_of(
                    def.items@[m]->Method_0.receiver,
                ) is Some && 0 <= k < def.items@[m]->Method_0.arg_count ==> slots.contains(
                    #[trigger] arg_slot(m as usize, k),
                )
            &&& forall|m: int|
                0 <= m < def.items@.len() && def.items@[m] is Method && kind_of(
                    #[trigger] def.items@[m]->Method_0.receiver,
                ) is Some ==> slots.contains(BindSlot { method: m as usize, pos: SlotPos::Return })
        }),
{
    let order = def.bind_order();
    let (o, r, u) = (def.owned@, def.by_ref@, def.by_mut@);
    assert(order == o + r + u);
    assert forall|a: int, b: int| 0 <= a < b < order.len() implies order[a] != order[b] by {
        let kind = |x: int|
            if x < o.len() {
                ReceiverKind::Owned
            } else if x < o.len() + r.len() {
                ReceiverKind::Ref
            } else {
                ReceiverKind::RefMut
            };
        assert(kind_of(def.items@[order[a] as int]->Method_0.receiver) == Some(kind(a)));
        assert(kind_of(def.items@[order[b] as int]->Method_0.receiver) == Some(kind(b)));
        if kind(a) == kind(b) {
            if b < o.len() {
                assert(o[a] < o[b]);
            } else if b < o.len() + r.len() {
                assert(r[a - o.len()] < r[b - o.len()]);
            } else {
                assert(u[a - o.len() - r.len()] < u[b - o.len() - r.len()]);
            }
        }
    }
    lemma_slots_of(def.items@, order);
    let slots = slots_of(def.items@, order);
    assert forall|i: int| 0 <= i < slots.len() implies (#[trigger] slots[i]).method
        < def.items@.len() && def.items@[slots[i].method as int] is Method by {
        let a = choose|a: int| 0 <= a < order.len() && order[a] == slots[i].method;
        if a < o.len() {
            assert(o[a] == order[a]);
        } else if a < o.len() + r.len() {
            assert(r[a - o.len()] == order[a]);
        } else {
            assert(u[a - o.len() - r.len()] == order[a]);
        }
    }
    assert forall|m: int|
        0 <= m < def.items@.len() && def.items@[m] is Method && kind_of(
            #[trigger] def.items@[m]->Method_0.receiver,
        ) is Some implies exists|a: int| 0 <= a < order.len() && order[a] == m as usize by {
        let k = kind_of(def.items@[m]->Method_0.receiver)->0;
        if k == ReceiverKind::Owned {
            let x = choose|x: int| 0 <= x < o.len() && o[x] == m as usize;
            assert(order[x] == o[x]);
        } else if k == ReceiverKind::Ref {
            let x = choose|x: int| 0 <= x < r.len() && r[x] == m as usize;
            assert(order[o.len() + x] == r[x]);
        } else {
            let x = choose|x: int| 0 <= x < u.len() && u[x] == m as usize;
            assert(order[o.len() + r.len() + x] == u[x]);
        }
    }
    assert forall|m: int, k: int|
        0 <= m < def.items@.len() && def.items@[m] is Method && kind_of(
            def.items@[m]->Method_0.receiver,
        ) is Some && 0 <= k < def.items@[m]->Method_0.arg_count implies slots.contains(
        #[trigger] arg_slot(m as usize, k),
    ) by {
        let a = choose|a: int| 0 <= a < order.len() && order[a] == m as usize;
        assert(arg_count_of(def.items@, order[a]) == def.items@[m]->Method_0.arg_count);
    }
}

/// Each method of a delegated trait lands in exactly one of the three
/// sub-traits, the one of its ownership mode: a method taking `self` is
/// forwarded only by value, one taking `&self` only through a shared borrow,
/// one taking `&mut self` only through an exclusive borrow.
pub proof fn lemma_ownership_modes_partition(def: TraitDef, i: int)
    requires
        0 <= i < def.items@.len(),
        def.items@[i] is Method,
        is_bucket(def.items@, def.owned@, ReceiverKind::Owned),
        is_bucket(def.items@, def.by_ref@, ReceiverKind::Ref),
        is_bucket(def.items@, def.by_mut@, ReceiverKind::RefMut),
        kind_of(def.items@[i]->Method_0.receiver) is Some,
        def.items@.len() <= usize::MAX,
    ensures
        def.owned@.contains(i as usize) <==> kind_of(def.items@[i]->Method_0.receiver) == Some(
            ReceiverKind::Owned,
        ),
        def.by_ref@.contains(i as usize) <==> kind_of(def.items@[i]->Method_0.receiver) == Some(
            ReceiverKind::Ref,
        ),
        def.by_mut@.contains(i as usize) <==> kind_of(def.items@[i]->Method_0.receiver) == Some(
            ReceiverKind::RefMut,
        ),
{
}

} // verus!
