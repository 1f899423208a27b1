//! An operand of one element type: an array, or a bare scalar.

use crate::arrays::generic_array::GenericArray;
use crate::arrays::shape::{joined_shape, shapes_agree};
use vstd::prelude::*;
use vstd::std_specs::convert::FromSpecImpl;

verus! {

/// What an operand is: its shape, if it is an array, and its elements in
/// row-major order. A scalar has no shape and one element.
pub struct OperandView<T> {
    pub shape: Option<Seq<usize>>,
    pub data: Seq<T>,
}

/// Two operands can be combined elementwise: a scalar with anything, two
/// arrays where their shapes agree.
pub open spec fn operands_agree(a: Option<Seq<usize>>, w: Option<Seq<usize>>) -> bool {
    match (a, w) {
        (Some(s), Some(t)) => shapes_agree(s, t),
        _ => true,
    }
}

/// The shape of the combination of two operands: that of the array where
/// one is a scalar, the longer one of two arrays, none for two scalars.
pub open spec fn joined_operand_shape(a: Option<Seq<usize>>, w: Option<Seq<usize>>) -> Option<
    Seq<usize>,
> {
    match (a, w) {
        (Some(s), Some(t)) => Some(joined_shape(s, t)),
        (Some(s), None) => Some(s),
        (None, Some(t)) => Some(t),
        (None, None) => None,
    }
}

/// How the elements of two operands meet: one pair per element of the
/// combination, in row-major order. A scalar meets every element of the
/// other operand; of two arrays, the shorter one repeats along the leading
/// axes of the longer one.
pub open spec fn paired_operands<T, U>(a: OperandView<T>, w: OperandView<U>) -> Seq<(T, U)> {
    let n = match (a.shape, w.shape) {
        (Some(s), Some(t)) => if s.len() >= t.len() {
            a.data.len()
        } else {
            w.data.len()
        },
        (Some(_), None) => a.data.len(),
        (None, Some(_)) => w.data.len(),
        (None, None) => 1,
    };
    Seq::new(n, |k: int| (a.data[k % (a.data.len() as int)], w.data[k % (w.data.len() as int)]))
}

/// An array or a scalar of one element type.
#[derive(Debug)]
pub enum ArrayOrAtom<T: Copy> {
    Array(GenericArray<T>),
    Atom(T),
}

impl<T: Copy> View for ArrayOrAtom<T> {
    type V = OperandView<T>;

    open spec fn view(&self) -> OperandView<T> {
        match *self {
            ArrayOrAtom::Array(a) => OperandView { shape: Some(a@.shape), data: a@.data },
            ArrayOrAtom::Atom(x) => OperandView { shape: None, data: seq![x] },
        }
    }
}

impl<T: Copy> Clone for ArrayOrAtom<T> {
    /// A copy of the operand.
    fn clone(&self) -> (r: Self)
        ensures
            r@ == self@,
    {
        match self {
            ArrayOrAtom::Array(a) => ArrayOrAtom::Array(a.clone()),
            ArrayOrAtom::Atom(x) => ArrayOrAtom::Atom(*x),
        }
    }
}

impl<T: Copy> From<T> for ArrayOrAtom<T> {
    fn from(w: T) -> (r: Self) {
        ArrayOrAtom::Atom(w)
    }
}

impl<T: Copy> FromSpecImpl<T> for ArrayOrAtom<T> {
    open spec fn obeys_from_spec() -> bool {
        true
    }

    open spec fn from_spec(w: T) -> Self {
        ArrayOrAtom::Atom(w)
    }
}

impl<T: Copy> From<GenericArray<T>> for ArrayOrAtom<T> {
    fn from(w: GenericArray<T>) -> (r: Self) {
        ArrayOrAtom::Array(w)
    }
}

impl<T: Copy> FromSpecImpl<GenericArray<T>> for ArrayOrAtom<T> {
    open spec fn obeys_from_spec() -> bool {
        true
    }

    open spec fn from_spec(w: GenericArray<T>) -> Self {
        ArrayOrAtom::Array(w)
    }
}

} // verus!
