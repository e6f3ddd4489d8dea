//! Delegation of a trait's methods to the one value that a single-field
//! struct holds, or to the payload of the active variant of an enum whose
//! variants each hold one field.
//!
//! The support types ([`Either`], [`Void`], [`Wrapper`], [`Convert`],
//! [`TypeOf`]) are what generated code is written against. The modules hold
//! the generator's logic: [`derive`] plans the conversion of a struct or an
//! enum into its nested choice representation, [`impl_trait`] reads a trait
//! and sorts its methods by receiver, [`signature`] rewrites the lifetimes of
//! method signatures, and [`generics`] combines generic parameter lists.
use vstd::prelude::*;

pub mod derive;
pub mod generics;
pub mod impl_trait;
pub mod kit;
pub mod signature;

verus! {

/// Enum for holding either `L` or `R` type.
#[derive(Clone, Copy, Debug)]
pub enum Either<L, R> {
    /// Left type.
    Left(L),
    /// Right type.
    Right(R),
}

/// Type of unreachable [`Either`] variant.
///
/// Its only variant holds an uninhabited value, so no value of this type
/// exists.
#[derive(Clone, Copy, Debug)]
pub enum Void {
    /// Unconstructible variant.
    Never(core::convert::Infallible),
}

/// Wrapper around `T` to implement traits for delegation.
#[derive(Clone, Copy, Debug)]
pub struct Wrapper<T: ?Sized>(pub T);

/// Type for interacting with external traits.
#[derive(Clone, Copy, Debug)]
pub struct External;

/// Trait for converting a type into its delegate.
pub trait Convert {
    /// Type of an owned any enum variant.
    type Owned;

    /// Type of a referenced any enum variant.
    type Ref<'a> where Self: 'a;

    /// Type of a mutable referenced any enum variant.
    type RefMut<'a> where Self: 'a;

    /// Converts this enum into an owned variant.
    fn convert_owned(self) -> Self::Owned;

    /// Converts reference to this enum into a variant reference.
    fn convert_ref(&self) -> Self::Ref<'_>;

    /// Converts mutable reference to this enum into a mutable variant
    /// reference.
    fn convert_ref_mut(&mut self) -> Self::RefMut<'_>;
}

/// Trait for retrieving an actual type from a bind type.
pub trait TypeOf {
    /// Actual type associated with the bind.
    type T;
}

impl<L, R> Either<L, R> {
    /// Forwards a value to the side that holds it: `f` receives a left
    /// value, `g` a right value.
    pub fn either<T, F: FnOnce(L) -> T, G: FnOnce(R) -> T>(self, f: F, g: G) -> (r: T)
        requires
            match self {
                Either::Left(l) => f.requires((l,)),
                Either::Right(x) => g.requires((x,)),
            },
        ensures
            match self {
                Either::Left(l) => f.ensures((l,), r),
                Either::Right(x) => g.ensures((x,), r),
            },
    {
        match self {
            Either::Left(l) => f(l),
            Either::Right(x) => g(x),
        }
    }
}

impl<T> Wrapper<T> {
    /// Returns a mutable reference to the wrapped value.
    pub fn inner_mut(&mut self) -> (r: &mut T)
        ensures
            *r == old(self).0,
            *final(self) == Wrapper(*final(r)),
    {
        &mut self.0
    }
}

} // verus!
