//! Two operands of one kind, ready to be combined.

use crate::arrays::array::Elements;
use crate::arrays::array_or_atom::{joined_operand_shape, ArrayOrAtom};
use crate::arrays::atom::Kind;
use crate::arrays::decimal::Decimal;
use crate::arrays::generic_matching_nouns::GenericMatchingNouns;
use crate::arrays::noun::{Noun, NounView};
use crate::arrays::IntegerElt;
use crate::error::ShapeMismatch;
use vstd::prelude::*;
use vstd::std_specs::convert::{FromSpec, FromSpecImpl};

verus! {

/// A left and a right operand that have been brought to one kind, tagged
/// with that kind.
#[derive(Debug)]
pub enum MatchingNouns {
    Boolean(GenericMatchingNouns<bool>),
    Integer(GenericMatchingNouns<IntegerElt>),
    Decimal(GenericMatchingNouns<Decimal>),
}

/// The operand `x` may be the combination of the operands `g` under `f`:
/// it has their joined shape, and its element at each place is `f` of the
/// pair that meets there.
pub open spec fn combines<T, U, F>(g: GenericMatchingNouns<T>, f: F, x: ArrayOrAtom<U>) -> bool where
    T: Copy,
    U: Copy,
    F: Fn(T, T) -> U,
 {
    &&& x@.shape == joined_operand_shape(g.left().shape, g.right().shape)
    &&& x@.data.len() == g.pairs().len()
    &&& forall|k: int| 0 <= k < x@.data.len() ==> f.ensures(g.pairs()[k], #[trigger] x@.data[k])
}

/// What the combination of the operands `g` under `f` may be, as a value.
/// Where the operands agree it is a combination of them under `f` (see
/// `combines`), wrapped as a value by the conversion for the type that `f`
/// returns; where they do not, the failure that names both shapes.
pub open spec fn combined<T, U, F>(
    g: GenericMatchingNouns<T>,
    f: F,
    r: Result<Noun, ShapeMismatch>,
) -> bool where T: Copy, U: Copy, F: Fn(T, T) -> U, Noun: From<ArrayOrAtom<U>> {
    if g.agree() {
        r matches Ok(n) && exists|x: ArrayOrAtom<U>|
            {
                &&& <Noun as FromSpec<ArrayOrAtom<U>>>::obeys_from_spec() ==> n
                    == #[trigger] <Noun as FromSpec<ArrayOrAtom<U>>>::from_spec(x)
                &&& combines(g, f, x)
            }
    } else {
        r matches Err(e) && e.left@ == g.left().shape->0 && e.right@ == g.right().shape->0
    }
}

impl MatchingNouns {
    /// The kind of both operands.
    pub open spec fn spec_kind(&self) -> Kind {
        match *self {
            MatchingNouns::Boolean(_) => Kind::Boolean,
            MatchingNouns::Integer(_) => Kind::Integer,
            MatchingNouns::Decimal(_) => Kind::Decimal,
        }
    }

    /// The kind of both operands.
    #[verifier::when_used_as_spec(spec_kind)]
    pub fn kind(&self) -> (r: Kind)
        ensures
            r == self.spec_kind(),
    {
        match self {
            MatchingNouns::Boolean(_) => Kind::Boolean,
            MatchingNouns::Integer(_) => Kind::Integer,
            MatchingNouns::Decimal(_) => Kind::Decimal,
        }
    }

    /// The left operand.
    pub open spec fn left(&self) -> NounView {
        match *self {
            MatchingNouns::Boolean(g) => NounView {
                shape: g.left().shape,
                elements: Elements::Boolean(g.left().data),
            },
            MatchingNouns::Integer(g) => NounView {
                shape: g.left().shape,
                elements: Elements::Integer(g.left().data),
            },
            MatchingNouns::Decimal(g) => NounView {
                shape: g.left().shape,
                elements: Elements::Decimal(g.left().data),
            },
        }
    }

    /// The right operand.
    pub open spec fn right(&self) -> NounView {
        match *self {
            MatchingNouns::Boolean(g) => NounView {
                shape: g.right().shape,
                elements: Elements::Boolean(g.right().data),
            },
            MatchingNouns::Integer(g) => NounView {
                shape: g.right().shape,
                elements: Elements::Integer(g.right().data),
            },
            MatchingNouns::Decimal(g) => NounView {
                shape: g.right().shape,
                elements: Elements::Decimal(g.right().data),
            },
        }
    }

    /// The elementwise combination of the two operands under the function
    /// for their kind: `b` for Booleans, `i` for Integers, `d` for Decimals.
    /// The result is wrapped as a value of the kind that the function
    /// returns. It fails only for two arrays whose shapes do not agree.
    pub fn dyad<FB, OB, FI, OI, FD, OD>(self, b: FB, i: FI, d: FD) -> (r: Result<
        Noun,
        ShapeMismatch,
    >) where
        FB: Fn(bool, bool) -> OB,
        FI: Fn(IntegerElt, IntegerElt) -> OI,
        FD: Fn(Decimal, Decimal) -> OD,
        OB: Copy,
        OI: Copy,
        OD: Copy,
        Noun: From<ArrayOrAtom<OB>> + From<ArrayOrAtom<OD>> + From<ArrayOrAtom<OI>>,

        requires
            match self {
                MatchingNouns::Boolean(g) => g.agree() ==> forall|k: int|
                    0 <= k < g.pairs().len() ==> b.requires(#[trigger] g.pairs()[k]),
                MatchingNouns::Integer(g) => g.agree() ==> forall|k: int|
                    0 <= k < g.pairs().len() ==> i.requires(#[trigger] g.pairs()[k]),
                MatchingNouns::Decimal(g) => g.agree() ==> forall|k: int|
                    0 <= k < g.pairs().len() ==> d.requires(#[trigger] g.pairs()[k]),
            },
        ensures
            match self {
                MatchingNouns::Boolean(g) => combined(g, b, r),
                MatchingNouns::Integer(g) => combined(g, i, r),
                MatchingNouns::Decimal(g) => combined(g, d, r),
            },
    {
        match self {
            MatchingNouns::Boolean(nouns) => match nouns.dyad(b) {
                Ok(x) => {
                    let ghost operand = x;
                    let n = Noun::from(x);
                    assert(<Noun as FromSpec<ArrayOrAtom<OB>>>::obeys_from_spec() ==> n
                        == <Noun as FromSpec<ArrayOrAtom<OB>>>::from_spec(operand));
                    Ok(n)
                },
                Err(e) => Err(e),
            },
            MatchingNouns::Integer(nouns) => match nouns.dyad(i) {
                Ok(x) => {
                    let ghost operand = x;
                    let n = Noun::from(x);
                    assert(<Noun as FromSpec<ArrayOrAtom<OI>>>::obeys_from_spec() ==> n
                        == <Noun as FromSpec<ArrayOrAtom<OI>>>::from_spec(operand));
                    Ok(n)
                },
                Err(e) => Err(e),
            },
            MatchingNouns::Decimal(nouns) => match nouns.dyad(d) {
                Ok(x) => {
                    let ghost operand = x;
                    let n = Noun::from(x);
                    assert(<Noun as FromSpec<ArrayOrAtom<OD>>>::obeys_from_spec() ==> n
                        == <Noun as FromSpec<ArrayOrAtom<OD>>>::from_spec(operand));
                    Ok(n)
                },
                Err(e) => Err(e),
            },
        }
    }
}

impl From<GenericMatchingNouns<bool>> for MatchingNouns {
    fn from(w: GenericMatchingNouns<bool>) -> (r: Self) {
        MatchingNouns::Boolean(w)
    }
}

impl FromSpecImpl<GenericMatchingNouns<bool>> for MatchingNouns {
    open spec fn obeys_from_spec() -> bool {
        true
    }

    open spec fn from_spec(w: GenericMatchingNouns<bool>) -> Self {
        MatchingNouns::Boolean(w)
    }
}

impl From<GenericMatchingNouns<IntegerElt>> for MatchingNouns {
    fn from(w: GenericMatchingNouns<IntegerElt>) -> (r: Self) {
        MatchingNouns::Integer(w)
    }
}

impl FromSpecImpl<GenericMatchingNouns<IntegerElt>> for MatchingNouns {
    open spec fn obeys_from_spec() -> bool {
        true
    }

    open spec fn from_spec(w: GenericMatchingNouns<IntegerElt>) -> Self {
        MatchingNouns::Integer(w)
    }
}

impl From<GenericMatchingNouns<Decimal>> for MatchingNouns {
    fn from(w: GenericMatchingNouns<Decimal>) -> (r: Self) {
        MatchingNouns::Decimal(w)
    }
}

impl FromSpecImpl<GenericMatchingNouns<Decimal>> for MatchingNouns {
    open spec fn obeys_from_spec() -> bool {
        true
    }

    open spec fn from_spec(w: GenericMatchingNouns<Decimal>) -> Self {
        MatchingNouns::Decimal(w)
    }
}

} // verus!
