//! Multi-scalar multiplication: the sum, under the group operation, of
//! hidings scaled by the corresponding scalars.

use super::super::config::OrderR;
use super::cyclic_group::{group_exp, BilinearCyclicGroup, GroupView};
use super::field_element::FieldElement;
use vstd::prelude::*;

verus! {

type FE = FieldElement<OrderR>;

/// The views of a sequence of group elements.
pub open spec fn group_views<T: View>(s: Seq<T>) -> Seq<<T as View>::V> {
    s.map(|i: int, h: T| h@)
}

/// The accumulated multi-scalar multiplication over the pairs at indices
/// `[i, n)`, where `n` is the length of the shorter input.
pub open spec fn msm_helper<T: GroupView>(
    cs: Seq<int>,
    hs: Seq<<T as View>::V>,
    acc: <T as View>::V,
    i: nat,
) -> <T as View>::V
    decreases (if cs.len() < hs.len() {
        cs.len()
    } else {
        hs.len()
    }) - i,
{
    let n: nat = if cs.len() < hs.len() {
        cs.len()
    } else {
        hs.len()
    };
    if i >= n {
        acc
    } else {
        msm_helper::<T>(cs, hs, T::op_view(acc, group_exp::<T>(hs[i as int], cs[i as int] as nat)), i + 1)
    }
}

/// The multi-scalar multiplication of scalars `cs` and hidings `hs`: the
/// neutral element if either is empty, otherwise the fold of the scaled
/// hidings under the group operation.
pub open spec fn msm_view<T: GroupView>(cs: Seq<int>, hs: Seq<<T as View>::V>) -> <T as View>::V {
    if cs.len() == 0 || hs.len() == 0 {
        T::neutral_view()
    } else {
        msm_helper::<T>(cs, hs, group_exp::<T>(hs[0], cs[0] as nat), 1)
    }
}

/// Calculates the multi-scalar multiplication of `c` and `hidings`,
/// pairing the entries up to the length of the shorter input; if either is
/// empty, returns the neutral element.
pub fn msm<T: BilinearCyclicGroup>(c: &[FE], hidings: &[T]) -> (r: T)
    ensures
        r@ == msm_view::<T>(super::polynomial::seq_views(c@), group_views(hidings@)),
{
    let ghost cs = super::polynomial::seq_views(c@);
    let ghost hs = group_views(hidings@);
    let n = if c.len() < hidings.len() {
        c.len()
    } else {
        hidings.len()
    };
    if n == 0 {
        let r = T::neutral_element();
        return r;
    }
    let first = &hidings[0];
    let c0 = c[0];
    let mut acc = first.operate_with_self(c0.representative());
    proof {
        assert(hs[0] == hidings@[0]@);
        assert(cs[0] == c@[0]@);
    }
    let mut i: usize = 1;
    while i < n
        invariant
            1 <= i <= n,
            n == if cs.len() < hs.len() {
                cs.len()
            } else {
                hs.len()
            },
            cs == super::polynomial::seq_views(c@),
            hs == group_views(hidings@),
            n <= c@.len(),
            n <= hidings@.len(),
            msm_helper::<T>(cs, hs, acc@, i as nat) == msm_view::<T>(cs, hs),
        decreases n - i,
    {
        let ghost acc_old = acc@;
        let scaled = hidings[i].operate_with_self(c[i].representative());
        proof {
            assert(hs[i as int] == hidings@[i as int]@);
            assert(cs[i as int] == c@[i as int]@);
        }
        acc = acc.operate_with(&scaled);
        proof {
            assert(msm_helper::<T>(cs, hs, acc_old, i as nat) == msm_helper::<T>(
                cs,
                hs,
                T::op_view(acc_old, group_exp::<T>(hs[i as int], cs[i as int] as nat)),
                (i + 1) as nat,
            ));
        }
        i += 1;
    }
    proof {
        assert(msm_helper::<T>(cs, hs, acc@, n as nat) == acc@);
    }
    acc
}

} // verus!
