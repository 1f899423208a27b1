//! The universal value: an array or a scalar of one of the three kinds.

use crate::arrays::array::{Array, Elements};
use crate::arrays::array_or_atom::ArrayOrAtom;
use crate::arrays::atom::{Atom, Kind};
use crate::arrays::decimal::Decimal;
use crate::arrays::generic_array::GenericArray;
use crate::arrays::generic_matching_nouns::GenericMatchingNouns;
use crate::arrays::matching_nouns::MatchingNouns;
use crate::arrays::promote::{integer_of, Promote};
use crate::arrays::shape::shape_size;
use crate::arrays::IntegerElt;
use crate::error::PromotionFailure;
use vstd::pervasive::unreached;
use vstd::prelude::*;
use vstd::std_specs::convert::{FromSpec, FromSpecImpl};

verus! {

/// What a value is: its shape, if it is an array, and its elements in
/// row-major order. A scalar has no shape and one element.
pub struct NounView {
    pub shape: Option<Seq<usize>>,
    pub elements: Elements,
}

impl NounView {
    /// A value holds one element per position of its shape, and a scalar
    /// one element.
    pub open spec fn well_formed(self) -> bool {
        match self.shape {
            Some(s) => self.elements.len() == shape_size(s),
            None => self.elements.len() == 1,
        }
    }
}

/// The universal value that flows through the system.
#[derive(Debug)]
pub enum Noun {
    Array(Array),
    Atom(Atom),
}

impl View for Noun {
    type V = NounView;

    open spec fn view(&self) -> NounView {
        match *self {
            Noun::Array(a) => NounView { shape: Some(a.shape_view()), elements: a.elements() },
            Noun::Atom(Atom::Boolean(b)) => NounView {
                shape: None,
                elements: Elements::Boolean(seq![b]),
            },
            Noun::Atom(Atom::Integer(i)) => NounView {
                shape: None,
                elements: Elements::Integer(seq![i]),
            },
            Noun::Atom(Atom::Decimal(d)) => NounView {
                shape: None,
                elements: Elements::Decimal(seq![d]),
            },
        }
    }
}

impl Clone for Noun {
    /// A copy of the value.
    fn clone(&self) -> (r: Self)
        ensures
            r@ == self@,
    {
        match self {
            Noun::Array(a) => Noun::Array(a.clone()),
            Noun::Atom(a) => Noun::Atom(*a),
        }
    }
}

/// The integers that stand for a sequence of truth values.
pub open spec fn integers_of(s: Seq<bool>) -> Seq<IntegerElt> {
    s.map_values(|b: bool| integer_of(b))
}

/// `dst` may be what the conversion `f` makes of the integers `src`, one by
/// one.
pub open spec fn converts<F: Fn(IntegerElt) -> Decimal>(
    f: F,
    src: Seq<IntegerElt>,
    dst: Seq<Decimal>,
) -> bool {
    &&& dst.len() == src.len()
    &&& forall|k: int| 0 <= k < src.len() ==> f.ensures((src[k],), #[trigger] dst[k])
}

/// The conversion `f` can be called on every element of `src` that a
/// promotion to Decimal hands to it: on the integers, and on the integers
/// that stand for the truth values.
pub open spec fn convertible<F: Fn(IntegerElt) -> Decimal>(f: F, src: Elements) -> bool {
    match src {
        Elements::Boolean(s) => forall|k: int|
            0 <= k < s.len() ==> f.requires((#[trigger] integers_of(s)[k],)),
        Elements::Integer(s) => forall|k: int| 0 <= k < s.len() ==> f.requires((#[trigger] s[k],)),
        Elements::Decimal(_) => true,
    }
}

/// `dst` may be the elements `src`, promoted to the kind `target`. Elements
/// of the target kind stay as they are. A truth value becomes the integer 1
/// or 0. An integer becomes the decimal that the conversion `f` makes of it,
/// and a truth value the decimal that `f` makes of its integer. No kind is
/// promoted to an earlier one.
pub open spec fn promoted<F: Fn(IntegerElt) -> Decimal>(
    f: F,
    src: Elements,
    target: Kind,
    dst: Elements,
) -> bool {
    match (src, target) {
        (Elements::Boolean(_), Kind::Boolean) => dst == src,
        (Elements::Boolean(s), Kind::Integer) => dst == Elements::Integer(integers_of(s)),
        (Elements::Boolean(s), Kind::Decimal) => dst matches Elements::Decimal(d) && converts(
            f,
            integers_of(s),
            d,
        ),
        (Elements::Integer(_), Kind::Integer) => dst == src,
        (Elements::Integer(s), Kind::Decimal) => dst matches Elements::Decimal(d) && converts(
            f,
            s,
            d,
        ),
        (Elements::Decimal(_), Kind::Decimal) => dst == src,
        _ => false,
    }
}

/// Promotion to a value's own kind keeps its elements.
pub proof fn promotion_to_own_kind_is_identity<F: Fn(IntegerElt) -> Decimal>(
    f: F,
    src: Elements,
    dst: Elements,
)
    requires
        promoted(f, src, src.kind(), dst),
    ensures
        dst == src,
{
}

impl Noun {
    /// The operand of Booleans that a Boolean value is.
    fn into_booleans(self) -> (r: ArrayOrAtom<bool>)
        requires
            self.spec_kind() == Kind::Boolean,
        ensures
            r@.shape == self@.shape,
            Elements::Boolean(r@.data) == self@.elements,
    {
        match self {
            Noun::Array(Array::Boolean(a)) => ArrayOrAtom::Array(a),
            Noun::Atom(Atom::Boolean(b)) => ArrayOrAtom::Atom(b),
            _ => unreached(),
        }
    }

    /// The operand of Integers that a Boolean or Integer value is promoted
    /// to.
    fn into_integers(self) -> (r: ArrayOrAtom<IntegerElt>)
        requires
            self.spec_kind() != Kind::Decimal,
        ensures
            r@.shape == self@.shape,
            self@.elements matches Elements::Boolean(s) ==> r@.data == integers_of(s),
            self@.elements matches Elements::Integer(s) ==> r@.data == s,
    {
        match self {
            Noun::Array(Array::Boolean(a)) => ArrayOrAtom::Array(a.promote()),
            Noun::Array(Array::Integer(a)) => ArrayOrAtom::Array(a),
            Noun::Atom(Atom::Boolean(b)) => ArrayOrAtom::Atom(b.promote()),
            Noun::Atom(Atom::Integer(i)) => ArrayOrAtom::Atom(i),
            _ => unreached(),
        }
    }

    /// The operand of Decimals that a value is promoted to, with the
    /// conversion `f` from integers.
    fn into_decimals<F: Fn(IntegerElt) -> Decimal>(self, f: &F) -> (r: ArrayOrAtom<Decimal>)
        requires
            convertible(*f, self@.elements),
        ensures
            r@.shape == self@.shape,
            self@.elements matches Elements::Boolean(s) ==> converts(*f, integers_of(s), r@.data),
            self@.elements matches Elements::Integer(s) ==> converts(*f, s, r@.data),
            self@.elements matches Elements::Decimal(s) ==> r@.data == s,
    {
        match self {
            Noun::Array(Array::Boolean(a)) => {
                let convert = |b: bool| -> (d: Decimal)
                    requires
                        f.requires((integer_of(b),)),
                    ensures
                        f.ensures((integer_of(b),), d),
                    {
                        let i: IntegerElt = b.promote();
                        f(i)
                    };
                proof {
                    assert forall|k: int| 0 <= k < a@.data.len() implies convert.requires(
                        (#[trigger] a@.data[k],),
                    ) by {
                        let s = self@.elements->Boolean_0;
                        assert(integers_of(s)[k] == integer_of(a@.data[k]));
                    }
                }
                ArrayOrAtom::Array(a.map(convert))
            },
            Noun::Array(Array::Integer(a)) => {
                let convert = |i: IntegerElt| -> (d: Decimal)
                    requires
                        f.requires((i,)),
                    ensures
                        f.ensures((i,), d),
                    { f(i) };
                assert(self@.elements->Integer_0 == a@.data);
                ArrayOrAtom::Array(a.map(convert))
            },
            Noun::Array(Array::Decimal(a)) => ArrayOrAtom::Array(a),
            Noun::Atom(Atom::Boolean(b)) => {
                proof {
                    let s = self@.elements->Boolean_0;
                    assert(integers_of(s)[0] == integer_of(b));
                }
                let i: IntegerElt = b.promote();
                ArrayOrAtom::Atom(f(i))
            },
            Noun::Atom(Atom::Integer(i)) => {
                proof {
                    let s = self@.elements->Integer_0;
                    assert(s[0] == i);
                }
                ArrayOrAtom::Atom(f(i))
            },
            Noun::Atom(Atom::Decimal(d)) => ArrayOrAtom::Atom(d),
        }
    }

    /// The operand that holds, for every element of the value, what the
    /// function for its kind makes of it: `b` for Booleans, `i` for
    /// Integers, `d` for Decimals. The shape stays as it is.
    pub fn map<FB, FI, FD, V>(self, b: FB, i: FI, d: FD) -> (r: ArrayOrAtom<V>) where
        FB: Fn(bool) -> V,
        FI: Fn(IntegerElt) -> V,
        FD: Fn(Decimal) -> V,
        V: Copy,

        requires
            match self@.elements {
                Elements::Boolean(s) => forall|k: int|
                    0 <= k < s.len() ==> b.requires((#[trigger] s[k],)),
                Elements::Integer(s) => forall|k: int|
                    0 <= k < s.len() ==> i.requires((#[trigger] s[k],)),
                Elements::Decimal(s) => forall|k: int|
                    0 <= k < s.len() ==> d.requires((#[trigger] s[k],)),
            },
        ensures
            self@.well_formed(),
            r@.shape == self@.shape,
            r@.data.len() == self@.elements.len(),
            match self@.elements {
                Elements::Boolean(s) => forall|k: int|
                    0 <= k < s.len() ==> b.ensures((s[k],), #[trigger] r@.data[k]),
                Elements::Integer(s) => forall|k: int|
                    0 <= k < s.len() ==> i.ensures((s[k],), #[trigger] r@.data[k]),
                Elements::Decimal(s) => forall|k: int|
                    0 <= k < s.len() ==> d.ensures((s[k],), #[trigger] r@.data[k]),
            },
    {
        match self {
            Noun::Array(w) => ArrayOrAtom::Array(
                match w {
                    Array::Boolean(w) => {
                        assert(self@.elements->Boolean_0 == w@.data);
                        w.map(b)
                    },
                    Array::Integer(w) => {
                        assert(self@.elements->Integer_0 == w@.data);
                        w.map(i)
                    },
                    Array::Decimal(w) => {
                        assert(self@.elements->Decimal_0 == w@.data);
                        w.map(d)
                    },
                },
            ),
            Noun::Atom(w) => ArrayOrAtom::Atom(
                match w {
                    Atom::Boolean(w) => {
                        assert(self@.elements->Boolean_0[0] == w);
                        b(w)
                    },
                    Atom::Integer(w) => {
                        assert(self@.elements->Integer_0[0] == w);
                        i(w)
                    },
                    Atom::Decimal(w) => {
                        assert(self@.elements->Decimal_0[0] == w);
                        d(w)
                    },
                },
            ),
        }
    }

    /// The truth values that the value stands for: a Boolean is itself, an
    /// Integer is true where it is not 0, and a Decimal is what `nonzero`
    /// makes of it. The shape stays as it is.
    pub fn into_boolean<F: Fn(Decimal) -> bool>(self, nonzero: F) -> (r: ArrayOrAtom<bool>)
        requires
            self@.elements matches Elements::Decimal(s) ==> forall|k: int|
                0 <= k < s.len() ==> nonzero.requires((#[trigger] s[k],)),
        ensures
            self@.well_formed(),
            r@.shape == self@.shape,
            r@.data.len() == self@.elements.len(),
            match self@.elements {
                Elements::Boolean(s) => r@.data == s,
                Elements::Integer(s) => r@.data == s.map_values(|w: IntegerElt| w != 0),
                Elements::Decimal(s) => forall|k: int|
                    0 <= k < s.len() ==> nonzero.ensures((s[k],), #[trigger] r@.data[k]),
            },
    {
        let same = |w: bool| -> (v: bool)
            ensures
                v == w,
            { w };
        let differs_from_zero = |w: IntegerElt| -> (v: bool)
            ensures
                v == (w != 0),
            { w != 0 };
        self.map(same, differs_from_zero, nonzero)
    }

    /// The two values brought to one kind: the later of their two kinds in
    /// the order of promotion. The operand of the earlier kind is promoted
    /// to it, with `to_decimal` as the conversion from integers to decimals;
    /// shapes stay as they are. This never fails.
    pub fn try_promote_pair<F: Fn(IntegerElt) -> Decimal>(a: Noun, w: Noun, to_decimal: F) -> (r:
        Result<MatchingNouns, PromotionFailure>)
        requires
            a.spec_kind().spec_join(w.spec_kind()) == Kind::Decimal ==> convertible(
                to_decimal,
                a@.elements,
            ) && convertible(to_decimal, w@.elements),
        ensures
            a@.well_formed(),
            w@.well_formed(),
            r matches Ok(m) && {
                &&& m.spec_kind() == a.spec_kind().spec_join(w.spec_kind())
                &&& m.left().shape == a@.shape
                &&& m.right().shape == w@.shape
                &&& promoted(to_decimal, a@.elements, m.spec_kind(), m.left().elements)
                &&& promoted(to_decimal, w@.elements, m.spec_kind(), m.right().elements)
            },
    {
        let target = a.kind().join(w.kind());
        let m = match target {
            Kind::Boolean => MatchingNouns::Boolean(
                GenericMatchingNouns::from((a.into_booleans(), w.into_booleans())),
            ),
            Kind::Integer => MatchingNouns::Integer(
                GenericMatchingNouns::from((a.into_integers(), w.into_integers())),
            ),
            Kind::Decimal => MatchingNouns::Decimal(
                GenericMatchingNouns::from(
                    (a.into_decimals(&to_decimal), w.into_decimals(&to_decimal)),
                ),
            ),
        };
        Ok(m)
    }

    /// The kind of the value's elements.
    pub open spec fn spec_kind(&self) -> Kind {
        match *self {
            Noun::Array(a) => a.spec_kind(),
            Noun::Atom(a) => a.spec_kind(),
        }
    }

    /// The kind of the value's elements.
    #[verifier::when_used_as_spec(spec_kind)]
    pub fn kind(&self) -> (r: Kind)
        ensures
            r == self.spec_kind(),
            r == self@.elements.kind(),
            self@.well_formed(),
    {
        match self {
            Noun::Array(Array::Boolean(a)) => {
                proof {
                    use_type_invariant(a);
                }
                Kind::Boolean
            },
            Noun::Array(Array::Integer(a)) => {
                proof {
                    use_type_invariant(a);
                }
                Kind::Integer
            },
            Noun::Array(Array::Decimal(a)) => {
                proof {
                    use_type_invariant(a);
                }
                Kind::Decimal
            },
            Noun::Atom(a) => a.kind(),
        }
    }
}

impl<T> From<ArrayOrAtom<T>> for Noun where T: Copy, Atom: From<T>, Array: From<GenericArray<T>> {
    fn from(w: ArrayOrAtom<T>) -> (r: Self) {
        match w {
            ArrayOrAtom::Array(w) => Noun::Array(Array::from(w)),
            ArrayOrAtom::Atom(w) => Noun::Atom(Atom::from(w)),
        }
    }
}

impl<T> FromSpecImpl<ArrayOrAtom<T>> for Noun where T: Copy, Atom: From<T>, Array: From<GenericArray<T>> {
    open spec fn obeys_from_spec() -> bool {
        <Atom as FromSpec<T>>::obeys_from_spec() && <Array as FromSpec<
            GenericArray<T>,
        >>::obeys_from_spec()
    }

    open spec fn from_spec(w: ArrayOrAtom<T>) -> Self {
        match w {
            ArrayOrAtom::Array(w) => Noun::Array(<Array as FromSpec<GenericArray<T>>>::from_spec(w)),
            ArrayOrAtom::Atom(w) => Noun::Atom(<Atom as FromSpec<T>>::from_spec(w)),
        }
    }
}

impl<T> From<GenericArray<T>> for Noun where T: Copy, Array: From<GenericArray<T>> {
    fn from(w: GenericArray<T>) -> (r: Self) {
        Noun::Array(Array::from(w))
    }
}

impl<T> FromSpecImpl<GenericArray<T>> for Noun where T: Copy, Array: From<GenericArray<T>> {
    open spec fn obeys_from_spec() -> bool {
        <Array as FromSpec<GenericArray<T>>>::obeys_from_spec()
    }

    open spec fn from_spec(w: GenericArray<T>) -> Self {
        Noun::Array(<Array as FromSpec<GenericArray<T>>>::from_spec(w))
    }
}

impl<T> From<T> for Noun where T: Copy, Atom: From<T> {
    fn from(w: T) -> (r: Self) {
        Noun::Atom(Atom::from(w))
    }
}

impl<T> FromSpecImpl<T> for Noun where T: Copy, Atom: From<T> {
    open spec fn obeys_from_spec() -> bool {
        <Atom as FromSpec<T>>::obeys_from_spec()
    }

    open spec fn from_spec(w: T) -> Self {
        Noun::Atom(<Atom as FromSpec<T>>::from_spec(w))
    }
}

} // verus!
