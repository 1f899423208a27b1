//! Promotion of a value to a kind that can hold it.

use crate::arrays::array_or_atom::ArrayOrAtom;
use crate::arrays::decimal::Decimal;
use crate::arrays::generic_array::GenericArray;
use crate::arrays::generic_matching_nouns::GenericMatchingNouns;
use crate::arrays::IntegerElt;
use vstd::prelude::*;

verus! {

/// The integer that stands for a truth value: 1 for true, 0 for false.
pub open spec fn integer_of(b: bool) -> IntegerElt {
    if b {
        1
    } else {
        0
    }
}

/// A value that can be promoted to the type `T`. The kinds are ordered
/// Boolean, Integer, Decimal, and a value can be promoted to its own kind
/// and to each later one. The promotions into Decimal need the caller's
/// conversion from integers and are no impls of this trait: see
/// `Noun::try_promote_pair`.
pub trait Promote<T>: Sized {
    /// `r` is `self`, promoted.
    spec fn promotes_to(self, r: T) -> bool;

    /// The value, promoted.
    fn promote(self) -> (r: T)
        ensures
            self.promotes_to(r),
    ;
}

impl Promote<bool> for bool {
    open spec fn promotes_to(self, r: bool) -> bool {
        r == self
    }

    #[inline]
    fn promote(self) -> (r: bool) {
        self
    }
}

impl Promote<IntegerElt> for IntegerElt {
    open spec fn promotes_to(self, r: IntegerElt) -> bool {
        r == self
    }

    #[inline]
    fn promote(self) -> (r: IntegerElt) {
        self
    }
}

impl Promote<Decimal> for Decimal {
    open spec fn promotes_to(self, r: Decimal) -> bool {
        r == self
    }

    #[inline]
    fn promote(self) -> (r: Decimal) {
        self
    }
}

impl Promote<IntegerElt> for bool {
    open spec fn promotes_to(self, r: IntegerElt) -> bool {
        r == integer_of(self)
    }

    #[inline]
    fn promote(self) -> (r: IntegerElt) {
        if self {
            1
        } else {
            0
        }
    }
}

impl<T, U> Promote<GenericArray<U>> for GenericArray<T> where T: Copy + Promote<U>, U: Copy {
    open spec fn promotes_to(self, r: GenericArray<U>) -> bool {
        &&& r@.shape == self@.shape
        &&& r@.data.len() == self@.data.len()
        &&& forall|k: int|
            0 <= k < self@.data.len() ==> self@.data[k].promotes_to(#[trigger] r@.data[k])
    }

    #[inline]
    fn promote(self) -> (r: GenericArray<U>) {
        let promote_element = |x: T| -> (y: U)
            ensures
                x.promotes_to(y),
            { x.promote() };
        self.map(promote_element)
    }
}

impl<T, U> Promote<ArrayOrAtom<U>> for ArrayOrAtom<T> where T: Copy + Promote<U>, U: Copy {
    open spec fn promotes_to(self, r: ArrayOrAtom<U>) -> bool {
        match (self, r) {
            (ArrayOrAtom::Atom(w), ArrayOrAtom::Atom(x)) => w.promotes_to(x),
            (ArrayOrAtom::Array(w), ArrayOrAtom::Array(x)) => w.promotes_to(x),
            _ => false,
        }
    }

    #[inline]
    fn promote(self) -> (r: ArrayOrAtom<U>) {
        match self {
            ArrayOrAtom::Atom(w) => ArrayOrAtom::Atom(w.promote()),
            ArrayOrAtom::Array(w) => ArrayOrAtom::Array(w.promote()),
        }
    }
}

impl<T, U> Promote<GenericMatchingNouns<U>> for GenericMatchingNouns<T> where
    T: Copy + Promote<U>,
    U: Copy,
 {
    open spec fn promotes_to(self, r: GenericMatchingNouns<U>) -> bool {
        match (self, r) {
            (
                GenericMatchingNouns::ArrArr(a, w),
                GenericMatchingNouns::ArrArr(x, y),
            ) => a.promotes_to(x) && w.promotes_to(y),
            (
                GenericMatchingNouns::ArrAt(a, w),
                GenericMatchingNouns::ArrAt(x, y),
            ) => a.promotes_to(x) && w.promotes_to(y),
            (
                GenericMatchingNouns::AtArr(a, w),
                GenericMatchingNouns::AtArr(x, y),
            ) => a.promotes_to(x) && w.promotes_to(y),
            (
                GenericMatchingNouns::AtAt(a, w),
                GenericMatchingNouns::AtAt(x, y),
            ) => a.promotes_to(x) && w.promotes_to(y),
            _ => false,
        }
    }

    #[inline]
    fn promote(self) -> (r: GenericMatchingNouns<U>) {
        match self {
            GenericMatchingNouns::ArrArr(a, w) => GenericMatchingNouns::ArrArr(
                a.promote(),
                w.promote(),
            ),
            GenericMatchingNouns::ArrAt(a, w) => GenericMatchingNouns::ArrAt(
                a.promote(),
                w.promote(),
            ),
            GenericMatchingNouns::AtArr(a, w) => GenericMatchingNouns::AtArr(
                a.promote(),
                w.promote(),
            ),
            GenericMatchingNouns::AtAt(a, w) => GenericMatchingNouns::AtAt(
                a.promote(),
                w.promote(),
            ),
        }
    }
}

impl<T: Copy> GenericArray<T> {
    /// The array of the same shape whose elements are those of `self`,
    /// promoted to the element type `U`.
    pub fn cast<U>(self) -> (r: GenericArray<U>) where T: Promote<U>, U: Copy
        ensures
            self.promotes_to(r),
    {
        self.promote()
    }
}

/// Promotion of a Boolean array to its own kind keeps the array: the same
/// shape and the same elements.
pub proof fn boolean_cast_to_itself(a: GenericArray<bool>, r: GenericArray<bool>)
    requires
        a.promotes_to(r),
    ensures
        r@ == a@,
{
    assert(r@.data =~= a@.data);
}

/// Promotion of an Integer array to its own kind keeps the array: the same
/// shape and the same elements.
pub proof fn integer_cast_to_itself(a: GenericArray<IntegerElt>, r: GenericArray<IntegerElt>)
    requires
        a.promotes_to(r),
    ensures
        r@ == a@,
{
    assert(r@.data =~= a@.data);
}

/// Promotion of a Decimal array to its own kind keeps the array: the same
/// shape and the same elements.
pub proof fn decimal_cast_to_itself(a: GenericArray<Decimal>, r: GenericArray<Decimal>)
    requires
        a.promotes_to(r),
    ensures
        r@ == a@,
{
    assert(r@.data =~= a@.data);
}

} // verus!
