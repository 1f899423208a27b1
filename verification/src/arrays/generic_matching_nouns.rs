//! Two operands of one element type, ready to be combined.

use crate::arrays::array_or_atom::{
    joined_operand_shape, operands_agree, paired_operands, ArrayOrAtom, OperandView,
};
use crate::arrays::generic_array::GenericArray;
use crate::error::ShapeMismatch;
use vstd::arithmetic::div_mod::lemma_small_mod;
use vstd::prelude::*;
use vstd::std_specs::convert::FromSpecImpl;

verus! {

/// A left and a right operand of one element type, in one of the four
/// configurations of array and scalar.
#[derive(Debug)]
pub enum GenericMatchingNouns<T: Copy> {
    ArrArr(GenericArray<T>, GenericArray<T>),
    ArrAt(GenericArray<T>, T),
    AtArr(T, GenericArray<T>),
    AtAt(T, T),
}

impl<T: Copy> GenericMatchingNouns<T> {
    /// The left operand.
    pub open spec fn left(&self) -> OperandView<T> {
        match *self {
            GenericMatchingNouns::ArrArr(a, _) => OperandView {
                shape: Some(a@.shape),
                data: a@.data,
            },
            GenericMatchingNouns::ArrAt(a, _) => OperandView {
                shape: Some(a@.shape),
                data: a@.data,
            },
            GenericMatchingNouns::AtArr(a, _) => OperandView { shape: None, data: seq![a] },
            GenericMatchingNouns::AtAt(a, _) => OperandView { shape: None, data: seq![a] },
        }
    }

    /// The right operand.
    pub open spec fn right(&self) -> OperandView<T> {
        match *self {
            GenericMatchingNouns::ArrArr(_, w) => OperandView {
                shape: Some(w@.shape),
                data: w@.data,
            },
            GenericMatchingNouns::ArrAt(_, w) => OperandView { shape: None, data: seq![w] },
            GenericMatchingNouns::AtArr(_, w) => OperandView {
                shape: Some(w@.shape),
                data: w@.data,
            },
            GenericMatchingNouns::AtAt(_, w) => OperandView { shape: None, data: seq![w] },
        }
    }

    /// The pairs of elements that meet when the two operands are combined.
    pub open spec fn pairs(&self) -> Seq<(T, T)> {
        paired_operands(self.left(), self.right())
    }

    /// The two operands can be combined elementwise.
    pub open spec fn agree(&self) -> bool {
        operands_agree(self.left().shape, self.right().shape)
    }

    /// Whether the test `p` holds of every pair of elements that meet when
    /// the two operands are combined. Operands that do not agree have no
    /// such pair.
    pub fn every<P>(&self, p: P) -> (r: bool) where P: Fn(T, T) -> bool
        requires
            self.agree() ==> forall|k: int|
                0 <= k < self.pairs().len() ==> p.requires(#[trigger] self.pairs()[k]),
        ensures
            !self.agree() ==> r,
            self.agree() && r ==> forall|k: int|
                0 <= k < self.pairs().len() ==> p.ensures(#[trigger] self.pairs()[k], true),
            self.agree() && !r ==> exists|k: int|
                0 <= k < self.pairs().len() && p.ensures(#[trigger] self.pairs()[k], false),
    {
        match self.clone().dyad(p) {
            Ok(ArrayOrAtom::Array(x)) => {
                let verdicts = x.raw_data();
                let mut k: usize = 0;
                while k < verdicts.len()
                    invariant
                        k <= verdicts.len(),
                        self.agree(),
                        verdicts@.len() == self.pairs().len(),
                        forall|j: int|
                            0 <= j < verdicts@.len() ==> p.ensures(
                                self.pairs()[j],
                                #[trigger] verdicts@[j],
                            ),
                        forall|j: int| 0 <= j < k ==> #[trigger] verdicts@[j],
                    decreases verdicts.len() - k,
                {
                    if !verdicts[k] {
                        return false;
                    }
                    k += 1;
                }
                proof {
                    assert forall|j: int| 0 <= j < self.pairs().len() implies p.ensures(
                        #[trigger] self.pairs()[j],
                        true,
                    ) by {
                        assert(p.ensures(self.pairs()[j], verdicts@[j]));
                    }
                }
                true
            },
            Ok(ArrayOrAtom::Atom(v)) => {
                let ghost verdicts = seq![v];
                proof {
                    assert(p.ensures(self.pairs()[0], verdicts[0]));
                    if v {
                    }
                }
                v
            },
            Err(_) => true,
        }
    }

    /// The elementwise combination of the two operands under `f`. It fails
    /// only for two arrays whose shapes do not agree, naming both shapes.
    /// Otherwise the result has the joined shape of the operands (a scalar
    /// for two scalars), and its element at each place is `f` of the pair
    /// that meets there.
    pub fn dyad<F, U>(self, f: F) -> (r: Result<ArrayOrAtom<U>, ShapeMismatch>) where
        F: Fn(T, T) -> U,
        U: Copy,

        requires
            self.agree() ==> forall|k: int|
                0 <= k < self.pairs().len() ==> f.requires(#[trigger] self.pairs()[k]),
        ensures
            r is Ok <==> self.agree(),
            r matches Ok(x) ==> {
                &&& x@.shape == joined_operand_shape(self.left().shape, self.right().shape)
                &&& x@.data.len() == self.pairs().len()
                &&& forall|k: int|
                    0 <= k < x@.data.len() ==> f.ensures(self.pairs()[k], #[trigger] x@.data[k])
            },
            r matches Err(e) ==> e.left@ == self.left().shape->0 && e.right@
                == self.right().shape->0,
    {
        let ghost pairs = self.pairs();
        match self {
            GenericMatchingNouns::ArrArr(a, w) => {
                match a.agreement_map(w, f) {
                    Ok(x) => Ok(ArrayOrAtom::Array(x)),
                    Err(e) => Err(e),
                }
            },
            GenericMatchingNouns::ArrAt(a, w) => {
                proof {
                    assert forall|k: int| 0 <= k < a@.data.len() implies f.requires(
                        (#[trigger] a@.data[k], w),
                    ) by {
                        lemma_small_mod(k as nat, a@.data.len());
                        assert(pairs[k] == (a@.data[k], w));
                    }
                }
                let x = a.atom_map_right(w, f);
                proof {
                    assert forall|k: int| 0 <= k < x@.data.len() implies f.ensures(
                        pairs[k],
                        #[trigger] x@.data[k],
                    ) by {
                        lemma_small_mod(k as nat, a@.data.len());
                    }
                }
                Ok(ArrayOrAtom::Array(x))
            },
            GenericMatchingNouns::AtArr(a, w) => {
                proof {
                    assert forall|k: int| 0 <= k < w@.data.len() implies f.requires(
                        (a, #[trigger] w@.data[k]),
                    ) by {
                        lemma_small_mod(k as nat, w@.data.len());
                        assert(pairs[k] == (a, w@.data[k]));
                    }
                }
                let x = w.atom_map_left(a, f);
                proof {
                    assert forall|k: int| 0 <= k < x@.data.len() implies f.ensures(
                        pairs[k],
                        #[trigger] x@.data[k],
                    ) by {
                        lemma_small_mod(k as nat, w@.data.len());
                    }
                }
                Ok(ArrayOrAtom::Array(x))
            },
            GenericMatchingNouns::AtAt(a, w) => {
                proof {
                    assert(pairs[0] == (a, w));
                }
                Ok(ArrayOrAtom::Atom(f(a, w)))
            },
        }
    }
}

impl<T: Copy> Clone for GenericMatchingNouns<T> {
    /// A copy of the two operands.
    fn clone(&self) -> (r: Self)
        ensures
            r.left() == self.left(),
            r.right() == self.right(),
    {
        match self {
            GenericMatchingNouns::ArrArr(a, w) => GenericMatchingNouns::ArrArr(
                a.clone(),
                w.clone(),
            ),
            GenericMatchingNouns::ArrAt(a, w) => GenericMatchingNouns::ArrAt(a.clone(), *w),
            GenericMatchingNouns::AtArr(a, w) => GenericMatchingNouns::AtArr(*a, w.clone()),
            GenericMatchingNouns::AtAt(a, w) => GenericMatchingNouns::AtAt(*a, *w),
        }
    }
}

impl<T: Copy> From<(ArrayOrAtom<T>, ArrayOrAtom<T>)> for GenericMatchingNouns<T> {
    fn from(aw: (ArrayOrAtom<T>, ArrayOrAtom<T>)) -> (r: Self) {
        match aw {
            (ArrayOrAtom::Array(a), ArrayOrAtom::Array(w)) => GenericMatchingNouns::ArrArr(a, w),
            (ArrayOrAtom::Array(a), ArrayOrAtom::Atom(w)) => GenericMatchingNouns::ArrAt(a, w),
            (ArrayOrAtom::Atom(a), ArrayOrAtom::Array(w)) => GenericMatchingNouns::AtArr(a, w),
            (ArrayOrAtom::Atom(a), ArrayOrAtom::Atom(w)) => GenericMatchingNouns::AtAt(a, w),
        }
    }
}

impl<T: Copy> FromSpecImpl<(ArrayOrAtom<T>, ArrayOrAtom<T>)> for GenericMatchingNouns<T> {
    open spec fn obeys_from_spec() -> bool {
        true
    }

    open spec fn from_spec(aw: (ArrayOrAtom<T>, ArrayOrAtom<T>)) -> Self {
        match aw {
            (ArrayOrAtom::Array(a), ArrayOrAtom::Array(w)) => GenericMatchingNouns::ArrArr(a, w),
            (ArrayOrAtom::Array(a), ArrayOrAtom::Atom(w)) => GenericMatchingNouns::ArrAt(a, w),
            (ArrayOrAtom::Atom(a), ArrayOrAtom::Array(w)) => GenericMatchingNouns::AtArr(a, w),
            (ArrayOrAtom::Atom(a), ArrayOrAtom::Atom(w)) => GenericMatchingNouns::AtAt(a, w),
        }
    }
}

} // verus!
