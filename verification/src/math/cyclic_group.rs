//! The capability shared by the groups that the protocol hides values in: a
//! cyclic group with a generator, a neutral element, scalar multiplication
//! by repeated application of the group operation, and a bilinear pairing
//! into a multiplicative target group.
//!
//! Every operation is specified on the views of the values, so code that is
//! generic over the group still has exact contracts.

use vstd::prelude::*;

verus! {

/// The multiplicative group that a pairing takes its values in.
pub trait PairingTarget: Sized + View {
    /// The product of two target-group values, on views.
    spec fn mul_view(a: <Self as View>::V, b: <Self as View>::V) -> <Self as View>::V;

    /// Equality of two target-group values, on views.
    spec fn eq_view(a: <Self as View>::V, b: <Self as View>::V) -> bool;

    /// Multiplies two target-group values.
    fn times(&self, other: &Self) -> (r: Self)
        ensures
            r@ == Self::mul_view(self@, other@),
    ;

    /// Compares two target-group values.
    fn equals(&self, other: &Self) -> (r: bool)
        ensures
            r == Self::eq_view(self@, other@),
    ;
}

/// The specification-level face of a cyclic group: its distinguished
/// elements and its operation, on views.
pub trait GroupView: Sized + View {
    /// The view of the chosen generator.
    spec fn generator_view() -> <Self as View>::V;

    /// The view of the neutral element.
    spec fn neutral_view() -> <Self as View>::V;

    /// The group operation, on views.
    spec fn op_view(a: <Self as View>::V, b: <Self as View>::V) -> <Self as View>::V;

    /// Equality of two group elements, on views.
    spec fn eq_view(a: <Self as View>::V, b: <Self as View>::V) -> bool;
}

/// A cyclic group with a bilinear pairing.
pub trait BilinearCyclicGroup: GroupView + Clone {
    /// The group the pairing takes its values in.
    type PairingOutput: PairingTarget;

    /// The pairing, on views.
    spec fn pairing_view(a: <Self as View>::V, b: <Self as View>::V) -> <Self::PairingOutput as View>::V;

    /// The chosen generator of the group.
    fn generator() -> (r: Self)
        ensures
            r@ == Self::generator_view(),
    ;

    /// The neutral element of the group.
    fn neutral_element() -> (r: Self)
        ensures
            r@ == Self::neutral_view(),
    ;

    /// Compares two group elements.
    fn equals(&self, other: &Self) -> (r: bool)
        ensures
            r == Self::eq_view(self@, other@),
    ;

    /// Applies the group operation to `self` and `other`.
    fn operate_with(&self, other: &Self) -> (r: Self)
        ensures
            r@ == Self::op_view(self@, other@),
    ;

    /// Repeats the group operation on `self` `times` times, by the binary
    /// method.
    fn operate_with_self(&self, times: u128) -> (r: Self)
        ensures
            r@ == group_exp::<Self>(self@, times as nat),
    ;

    /// The bilinear pairing of `self` and `other`.
    fn pairing(&self, other: &Self) -> (r: Self::PairingOutput)
        ensures
            r@ == Self::pairing_view(self@, other@),
    ;
}

/// The state of the binary method for repeating the group operation, after
/// consuming the remaining count `times`.
pub open spec fn group_exp_helper<T: GroupView>(
    result: <T as View>::V,
    base: <T as View>::V,
    times: nat,
) -> <T as View>::V
    decreases times,
{
    if times == 0 {
        result
    } else {
        group_exp_helper::<T>(
            if times % 2 == 1 {
                T::op_view(result, base)
            } else {
                result
            },
            T::op_view(base, base),
            times / 2,
        )
    }
}

/// The group operation repeated on `base` `times` times, by the binary
/// method starting from the neutral element.
pub open spec fn group_exp<T: GroupView>(base: <T as View>::V, times: nat) -> <T as View>::V {
    group_exp_helper::<T>(T::neutral_view(), base, times)
}

} // verus!
