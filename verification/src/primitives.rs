//! The verbs: the operations that the language applies to values.

use crate::arrays::array::{Array, Elements};
use crate::arrays::array_or_atom::{joined_operand_shape, operands_agree, ArrayOrAtom};
use crate::arrays::atom::{Atom, Kind};
use crate::arrays::decimal::Decimal;
use crate::arrays::generic_array::{checked_extents, counts_positions, extents_of, GenericArray};
use crate::arrays::generic_matching_nouns::GenericMatchingNouns;
use crate::arrays::matching_nouns::{combined, combines, MatchingNouns};
use crate::arrays::noun::{integers_of, promoted, Noun, NounView};
use crate::arrays::promote::integer_of;
use crate::arrays::shape::{lemma_suffix_not_empty, shape_size};
use crate::arrays::IntegerElt;
use crate::error::{ShapeMismatch, VerbError};
use vstd::arithmetic::div_mod::lemma_mod_pos_bound;
use vstd::prelude::*;
use vstd::std_specs::convert::FromSpec;

verus! {

/// The number of elements of the combination of two operands that agree:
/// that of the array where one is a scalar, that of the array of longer
/// shape for two arrays, and 1 for two scalars.
pub open spec fn joined_len(a: NounView, w: NounView) -> nat {
    match (a.shape, w.shape) {
        (Some(s), Some(t)) => if s.len() >= t.len() {
            a.elements.len()
        } else {
            w.elements.len()
        },
        (Some(_), None) => a.elements.len(),
        (None, Some(_)) => w.elements.len(),
        (None, None) => 1,
    }
}

/// The element of an operand that is met at place `k` of a combination: a
/// scalar is met at every place, and an array repeats along the leading axes
/// of a longer one.
pub open spec fn met(a: NounView, k: int) -> Atom {
    a.elements.at(k % (a.elements.len() as int))
}

/// The integer that a Boolean or Integer scalar stands for.
pub open spec fn integer_value(x: Atom) -> int {
    match x {
        Atom::Boolean(b) => integer_of(b) as int,
        Atom::Integer(i) => i as int,
        Atom::Decimal(_) => 0,
    }
}

/// `d` may be the decimal that a scalar stands for, with `f` as the
/// conversion from integers: a decimal is itself, and an integer, or the
/// integer of a truth value, is what `f` makes of it.
pub open spec fn decimal_value<C: Fn(IntegerElt) -> Decimal>(f: C, x: Atom, d: Decimal) -> bool {
    match x {
        Atom::Boolean(b) => f.ensures((integer_of(b),), d),
        Atom::Integer(i) => f.ensures((i,), d),
        Atom::Decimal(v) => d == v,
    }
}

/// The value `n` is laid out as a combination of `a` and `w`: it has their
/// joined shape, and one element per place of it.
pub open spec fn joins(a: NounView, w: NounView, n: NounView) -> bool {
    &&& n.shape == joined_operand_shape(a.shape, w.shape)
    &&& n.elements.len() == joined_len(a, w)
}

/// The value that wraps an operand of Booleans holds its elements.
pub proof fn lemma_noun_of_booleans(x: ArrayOrAtom<bool>)
    ensures
        <Noun as FromSpec<ArrayOrAtom<bool>>>::obeys_from_spec(),
        <Noun as FromSpec<ArrayOrAtom<bool>>>::from_spec(x)@ == (NounView {
            shape: x@.shape,
            elements: Elements::Boolean(x@.data),
        }),
{
}

/// The value that wraps an operand of Integers holds its elements.
pub proof fn lemma_noun_of_integers(x: ArrayOrAtom<IntegerElt>)
    ensures
        <Noun as FromSpec<ArrayOrAtom<IntegerElt>>>::obeys_from_spec(),
        <Noun as FromSpec<ArrayOrAtom<IntegerElt>>>::from_spec(x)@ == (NounView {
            shape: x@.shape,
            elements: Elements::Integer(x@.data),
        }),
{
}

/// The value that wraps an operand of Decimals holds its elements.
pub proof fn lemma_noun_of_decimals(x: ArrayOrAtom<Decimal>)
    ensures
        <Noun as FromSpec<ArrayOrAtom<Decimal>>>::obeys_from_spec(),
        <Noun as FromSpec<ArrayOrAtom<Decimal>>>::from_spec(x)@ == (NounView {
            shape: x@.shape,
            elements: Elements::Decimal(x@.data),
        }),
{
}

/// The operands `g` stand for the values `a` and `w`, with `is` as the
/// relation between an element of a value and the element of an operand
/// that stands for it: they agree as the values do, join to the same shape,
/// and where they agree, the pair that meets at each place stands for the
/// elements of the values that meet there.
pub open spec fn stands_for<T: Copy>(
    g: GenericMatchingNouns<T>,
    a: NounView,
    w: NounView,
    is: spec_fn(Atom, T) -> bool,
) -> bool {
    &&& g.agree() == operands_agree(a.shape, w.shape)
    &&& joined_operand_shape(g.left().shape, g.right().shape) == joined_operand_shape(
        a.shape,
        w.shape,
    )
    &&& g.pairs().len() == joined_len(a, w)
    &&& operands_agree(a.shape, w.shape) ==> forall|k: int|
        0 <= k < joined_len(a, w) ==> is(met(a, k), (#[trigger] g.pairs()[k]).0) && is(
            met(w, k),
            g.pairs()[k].1,
        )
}

/// Where two values that agree are combined, every place of the combination
/// meets an element of each.
proof fn lemma_met_in_range(a: NounView, w: NounView, k: int)
    requires
        a.well_formed(),
        w.well_formed(),
        operands_agree(a.shape, w.shape),
        0 <= k < joined_len(a, w),
    ensures
        0 <= k % (a.elements.len() as int) < a.elements.len(),
        0 <= k % (w.elements.len() as int) < w.elements.len(),
{
    match (a.shape, w.shape) {
        (Some(s), Some(t)) => {
            assert(s.subrange(0, s.len() as int) =~= s);
            assert(t.subrange(0, t.len() as int) =~= t);
            if s.len() >= t.len() {
                lemma_suffix_not_empty(t, s);
            } else {
                lemma_suffix_not_empty(s, t);
            }
        },
        _ => {},
    }
    lemma_mod_pos_bound(k, a.elements.len() as int);
    lemma_mod_pos_bound(k, w.elements.len() as int);
}

/// The operands that a pair of values is promoted to stand for the values:
/// Booleans for themselves, Integers for the integers of the elements, and
/// Decimals for their decimals.
proof fn lemma_promoted_pair<C: Fn(IntegerElt) -> Decimal>(
    a: NounView,
    w: NounView,
    f: C,
    m: MatchingNouns,
)
    requires
        a.well_formed(),
        w.well_formed(),
        m.spec_kind() == a.elements.kind().spec_join(w.elements.kind()),
        m.left().shape == a.shape,
        m.right().shape == w.shape,
        promoted(f, a.elements, m.spec_kind(), m.left().elements),
        promoted(f, w.elements, m.spec_kind(), m.right().elements),
    ensures
        match m {
            MatchingNouns::Boolean(g) => stands_for(
                g,
                a,
                w,
                |x: Atom, v: bool| x == Atom::Boolean(v),
            ),
            MatchingNouns::Integer(g) => stands_for(
                g,
                a,
                w,
                |x: Atom, v: IntegerElt| !(x is Decimal) && integer_value(x) == v,
            ),
            MatchingNouns::Decimal(g) => stands_for(
                g,
                a,
                w,
                |x: Atom, v: Decimal| decimal_value(f, x, v),
            ),
        },
{
    assert(m.left().elements.len() == a.elements.len());
    assert(m.right().elements.len() == w.elements.len());
    match m {
        MatchingNouns::Boolean(g) => {
            assert(g.pairs().len() == joined_len(a, w));
            if operands_agree(a.shape, w.shape) {
                assert forall|k: int| 0 <= k < joined_len(a, w) implies met(a, k)
                    == Atom::Boolean((#[trigger] g.pairs()[k]).0) && met(w, k) == Atom::Boolean(
                    g.pairs()[k].1,
                ) by {
                    lemma_met_in_range(a, w, k);
                }
            }
        },
        MatchingNouns::Integer(g) => {
            assert(g.pairs().len() == joined_len(a, w));
            if operands_agree(a.shape, w.shape) {
                assert forall|k: int| 0 <= k < joined_len(a, w) implies !(met(a, k) is Decimal)
                    && integer_value(met(a, k)) == (#[trigger] g.pairs()[k]).0 && !(met(
                    w,
                    k,
                ) is Decimal) && integer_value(met(w, k)) == g.pairs()[k].1 by {
                    lemma_met_in_range(a, w, k);
                }
            }
        },
        MatchingNouns::Decimal(g) => {
            assert(g.pairs().len() == joined_len(a, w));
            if operands_agree(a.shape, w.shape) {
                assert forall|k: int| 0 <= k < joined_len(a, w) implies decimal_value(
                    f,
                    met(a, k),
                    (#[trigger] g.pairs()[k]).0,
                ) && decimal_value(f, met(w, k), g.pairs()[k].1) by {
                    lemma_met_in_range(a, w, k);
                    let i = k % (a.elements.len() as int);
                    let j = k % (w.elements.len() as int);
                    match a.elements {
                        Elements::Boolean(s) => {
                            assert(integers_of(s)[i] == integer_of(s[i]));
                        },
                        _ => {},
                    }
                    match w.elements {
                        Elements::Boolean(s) => {
                            assert(integers_of(s)[j] == integer_of(s[j]));
                        },
                        _ => {},
                    }
                }
            }
        },
    }
}

/// An operand that a combination wraps as its value.
proof fn lemma_combined_witness<T, U, F>(
    g: GenericMatchingNouns<T>,
    f: F,
    r: Result<Noun, ShapeMismatch>,
) -> (x: ArrayOrAtom<U>) where T: Copy, U: Copy, F: Fn(T, T) -> U, Noun: From<ArrayOrAtom<U>>
    requires
        combined(g, f, r),
        g.agree(),
        <Noun as FromSpec<ArrayOrAtom<U>>>::obeys_from_spec(),
    ensures
        r matches Ok(n) && n == <Noun as FromSpec<ArrayOrAtom<U>>>::from_spec(x),
        combines(g, f, x),
{
    let n = r->Ok_0;
    choose|x: ArrayOrAtom<U>|
        {
            &&& <Noun as FromSpec<ArrayOrAtom<U>>>::obeys_from_spec() ==> n
                == #[trigger] <Noun as FromSpec<ArrayOrAtom<U>>>::from_spec(x)
            &&& combines(g, f, x)
        }
}

/// The sum of two scalars is defined: that of two integers, or of an
/// integer and a truth value, lies in the range of an integer element.
pub open spec fn sum_defined(x: Atom, y: Atom) -> bool {
    x.spec_kind().spec_join(y.spec_kind()) == Kind::Integer ==> IntegerElt::MIN <= integer_value(x)
        + integer_value(y) <= IntegerElt::MAX
}

/// `z` may be the sum of the scalars `x` and `y`. Truth values count as the
/// integers 1 and 0, and the sum of two of them is an integer. Where one of
/// the two is a decimal, the sum is what `plus` makes of the decimals that
/// the two stand for.
pub open spec fn is_sum<C: Fn(IntegerElt) -> Decimal, S: Fn(Decimal, Decimal) -> Decimal>(
    to_decimal: C,
    plus: S,
    x: Atom,
    y: Atom,
    z: Atom,
) -> bool {
    match x.spec_kind().spec_join(y.spec_kind()) {
        Kind::Decimal => z matches Atom::Decimal(d) && exists|dx: Decimal, dy: Decimal|
            decimal_value(to_decimal, x, dx) && decimal_value(to_decimal, y, dy)
                && #[trigger] plus.ensures((dx, dy), d),
        _ => z == Atom::Integer((integer_value(x) + integer_value(y)) as IntegerElt),
    }
}

/// The sum is defined of every pair of elements of `a` and `w` that meet.
pub open spec fn sums_defined(a: NounView, w: NounView) -> bool {
    forall|k: int| 0 <= k < joined_len(a, w) ==> #[trigger] sum_defined(met(a, k), met(w, k))
}

/// `n` may be the sum of `a` and `w`: it is laid out as a combination of
/// the two, and its element at each place is a sum of the elements that meet
/// there.
pub open spec fn sums<C: Fn(IntegerElt) -> Decimal, S: Fn(Decimal, Decimal) -> Decimal>(
    to_decimal: C,
    plus: S,
    a: NounView,
    w: NounView,
    n: NounView,
) -> bool {
    &&& joins(a, w, n)
    &&& forall|k: int|
        0 <= k < joined_len(a, w) ==> is_sum(
            to_decimal,
            plus,
            met(a, k),
            met(w, k),
            #[trigger] n.elements.at(k),
        )
}

/// What `add` may return for `a` and `w`. Operands that agree and whose
/// sums are all defined give their sum. Operands that do not agree give the
/// failure that names their shapes, and operands that agree and meet
/// somewhere in a sum that is not defined give an overflow.
pub open spec fn sum_outcome<C: Fn(IntegerElt) -> Decimal, S: Fn(Decimal, Decimal) -> Decimal>(
    to_decimal: C,
    plus: S,
    a: NounView,
    w: NounView,
    r: Result<Noun, VerbError>,
) -> bool {
    match r {
        Ok(n) => operands_agree(a.shape, w.shape) && sums_defined(a, w) && sums(to_decimal, plus, a, w, n@),
        Err(VerbError::Shape(e)) => !operands_agree(a.shape, w.shape) && e.left@ == a.shape->0
            && e.right@ == w.shape->0,
        Err(VerbError::Overflow) => operands_agree(a.shape, w.shape) && !sums_defined(a, w),
        Err(_) => false,
    }
}

/// The sum of two values, element by element. It fails where the shapes of
/// two arrays do not agree, and where a sum of integers leaves the range of
/// an integer element.
pub fn add<C, S>(a: Noun, w: Noun, to_decimal: C, plus: S) -> (r: Result<Noun, VerbError>) where
    C: Fn(IntegerElt) -> Decimal,
    S: Fn(Decimal, Decimal) -> Decimal,

    requires
        forall|x: IntegerElt| to_decimal.requires((x,)),
        forall|x: Decimal, y: Decimal| plus.requires((x, y)),
    ensures
        sum_outcome(to_decimal, plus, a@, w@, r),
{
    let ghost av = a@;
    let ghost wv = w@;
    let m = match Noun::try_promote_pair(a, w, &to_decimal) {
        Ok(m) => m,
        Err(e) => {
            return Err(VerbError::Promotion(e));
        },
    };
    proof {
        lemma_promoted_pair(av, wv, &to_decimal, m);
    }
    let fits = |x: IntegerElt, y: IntegerElt| -> (v: bool)
        ensures
            v == (IntegerElt::MIN <= x + y <= IntegerElt::MAX),
        { x.checked_add(y).is_some() };
    if let MatchingNouns::Integer(g) = &m {
        if !g.every(fits) {
            proof {
                let k = choose|k: int|
                    0 <= k < g.pairs().len() && fits.ensures(#[trigger] g.pairs()[k], false);
                assert(!sum_defined(met(av, k), met(wv, k)));
            }
            return Err(VerbError::Overflow);
        }
    }
    let of_booleans = |x: bool, y: bool| -> (z: IntegerElt)
        ensures
            z == integer_of(x) + integer_of(y),
        {
            let i: IntegerElt = if x {
                1
            } else {
                0
            };
            let j: IntegerElt = if y {
                1
            } else {
                0
            };
            i + j
        };
    let of_integers = |x: IntegerElt, y: IntegerElt| -> (z: IntegerElt)
        requires
            IntegerElt::MIN <= x + y <= IntegerElt::MAX,
        ensures
            z == x + y,
        { x + y };
    let ghost operands = m;
    let combination = m.dyad(of_booleans, of_integers, plus);
    proof {
        match operands {
            MatchingNouns::Boolean(g) => {
                if g.agree() {
                    let x = lemma_combined_witness::<bool, IntegerElt, _>(
                        g,
                        of_booleans,
                        combination,
                    );
                    lemma_noun_of_integers(x);
                    assert forall|k: int| 0 <= k < joined_len(av, wv) implies #[trigger] sum_defined(
                        met(av, k),
                        met(wv, k),
                    ) by {
                        assert(met(av, k) == Atom::Boolean(g.pairs()[k].0));
                    }
                    assert forall|k: int| 0 <= k < joined_len(av, wv) implies is_sum(
                        to_decimal,
                        plus,
                        met(av, k),
                        met(wv, k),
                        #[trigger] combination->Ok_0@.elements.at(k),
                    ) by {
                        let p = g.pairs()[k];
                        assert(of_booleans.ensures((p.0, p.1), x@.data[k]));
                    }
                }
            },
            MatchingNouns::Integer(g) => {
                if g.agree() {
                    let x = lemma_combined_witness::<IntegerElt, IntegerElt, _>(
                        g,
                        of_integers,
                        combination,
                    );
                    lemma_noun_of_integers(x);
                    assert forall|k: int| 0 <= k < joined_len(av, wv) implies #[trigger] sum_defined(
                        met(av, k),
                        met(wv, k),
                    ) by {
                        let p = g.pairs()[k];
                        assert(fits.ensures((p.0, p.1), true));
                    }
                    assert forall|k: int| 0 <= k < joined_len(av, wv) implies is_sum(
                        to_decimal,
                        plus,
                        met(av, k),
                        met(wv, k),
                        #[trigger] combination->Ok_0@.elements.at(k),
                    ) by {
                        let p = g.pairs()[k];
                        assert(fits.ensures((p.0, p.1), true));
                        assert(of_integers.ensures((p.0, p.1), x@.data[k]));
                    }
                }
            },
            MatchingNouns::Decimal(g) => {
                if g.agree() {
                    let x = lemma_combined_witness::<Decimal, Decimal, _>(g, plus, combination);
                    lemma_noun_of_decimals(x);
                    assert forall|k: int| 0 <= k < joined_len(av, wv) implies #[trigger] sum_defined(
                        met(av, k),
                        met(wv, k),
                    ) by {
                        assert(decimal_value(to_decimal, met(av, k), g.pairs()[k].0));
                    }
                    assert forall|k: int| 0 <= k < joined_len(av, wv) implies is_sum(
                        to_decimal,
                        plus,
                        met(av, k),
                        met(wv, k),
                        #[trigger] combination->Ok_0@.elements.at(k),
                    ) by {
                        let p = g.pairs()[k];
                        assert(plus.ensures((p.0, p.1), x@.data[k]));
                        assert(combination->Ok_0@.elements.at(k) == Atom::Decimal(x@.data[k]));
                        assert(met(av, k).spec_kind().spec_join(met(wv, k).spec_kind()) == Kind::Decimal);
                        assert(decimal_value(to_decimal, met(av, k), p.0));
                        assert(decimal_value(to_decimal, met(wv, k), p.1));
                        let z = combination->Ok_0@.elements.at(k);
                        assert(exists|dx: Decimal, dy: Decimal|
                            decimal_value(to_decimal, met(av, k), dx) && decimal_value(
                                to_decimal,
                                met(wv, k),
                                dy,
                            ) && #[trigger] plus.ensures((dx, dy), x@.data[k]));
                        assert(z matches Atom::Decimal(d) && d == x@.data[k]);
                        assert(is_sum(to_decimal, plus, met(av, k), met(wv, k), z));
                    }
                }
            },
        }
    }
    match combination {
        Ok(n) => Ok(n),
        Err(e) => Err(VerbError::Shape(e)),
    }
}

/// The difference of two scalars is defined: that of two integers, or of
/// an integer and a truth value, lies in the range of an integer element.
pub open spec fn difference_defined(x: Atom, y: Atom) -> bool {
    x.spec_kind().spec_join(y.spec_kind()) == Kind::Integer ==> IntegerElt::MIN <= integer_value(x)
        - integer_value(y) <= IntegerElt::MAX
}

/// `z` may be the difference of the scalars `x` and `y`, `x` less `y`.
/// Truth values count as the integers 1 and 0, and the difference of two of
/// them is an integer. Where one of the two is a decimal, the difference is
/// what `minus` makes of the decimals that the two stand for.
pub open spec fn is_difference<C: Fn(IntegerElt) -> Decimal, S: Fn(Decimal, Decimal) -> Decimal>(
    to_decimal: C,
    minus: S,
    x: Atom,
    y: Atom,
    z: Atom,
) -> bool {
    match x.spec_kind().spec_join(y.spec_kind()) {
        Kind::Decimal => z matches Atom::Decimal(d) && exists|dx: Decimal, dy: Decimal|
            decimal_value(to_decimal, x, dx) && decimal_value(to_decimal, y, dy)
                && #[trigger] minus.ensures((dx, dy), d),
        _ => z == Atom::Integer((integer_value(x) - integer_value(y)) as IntegerElt),
    }
}

/// The difference is defined of every pair of elements of `a` and `w` that
/// meet.
pub open spec fn differences_defined(a: NounView, w: NounView) -> bool {
    forall|k: int| 0 <= k < joined_len(a, w) ==> #[trigger] difference_defined(met(a, k), met(w, k))
}

/// `n` may be the difference of `a` and `w`: it is laid out as a
/// combination of the two, and its element at each place is a difference of
/// the elements that meet there.
pub open spec fn differences<C: Fn(IntegerElt) -> Decimal, S: Fn(Decimal, Decimal) -> Decimal>(
    to_decimal: C,
    minus: S,
    a: NounView,
    w: NounView,
    n: NounView,
) -> bool {
    &&& joins(a, w, n)
    &&& forall|k: int|
        0 <= k < joined_len(a, w) ==> is_difference(
            to_decimal,
            minus,
            met(a, k),
            met(w, k),
            #[trigger] n.elements.at(k),
        )
}

/// What `sub` may return for `a` and `w`. Operands that agree and whose
/// differences are all defined give their difference. Operands that do not
/// agree give the failure that names their shapes, and operands that agree
/// and meet somewhere in a difference that is not defined give an overflow.
pub open spec fn difference_outcome<C: Fn(IntegerElt) -> Decimal, S: Fn(Decimal, Decimal) -> Decimal>(
    to_decimal: C,
    minus: S,
    a: NounView,
    w: NounView,
    r: Result<Noun, VerbError>,
) -> bool {
    match r {
        Ok(n) => operands_agree(a.shape, w.shape) && differences_defined(a, w) && differences(to_decimal, minus, a, w, n@),
        Err(VerbError::Shape(e)) => !operands_agree(a.shape, w.shape) && e.left@ == a.shape->0
            && e.right@ == w.shape->0,
        Err(VerbError::Overflow) => operands_agree(a.shape, w.shape) && !differences_defined(a, w),
        Err(_) => false,
    }
}

/// The difference of two values, element by element, `a` less `w`. It fails
/// where the shapes of two arrays do not agree, and where a difference of
/// integers leaves the range of an integer element.
pub fn sub<C, S>(a: Noun, w: Noun, to_decimal: C, minus: S) -> (r: Result<Noun, VerbError>) where
    C: Fn(IntegerElt) -> Decimal,
    S: Fn(Decimal, Decimal) -> Decimal,

    requires
        forall|x: IntegerElt| to_decimal.requires((x,)),
        forall|x: Decimal, y: Decimal| minus.requires((x, y)),
    ensures
        difference_outcome(to_decimal, minus, a@, w@, r),
{
    let ghost av = a@;
    let ghost wv = w@;
    let m = match Noun::try_promote_pair(a, w, &to_decimal) {
        Ok(m) => m,
        Err(e) => {
            return Err(VerbError::Promotion(e));
        },
    };
    proof {
        lemma_promoted_pair(av, wv, &to_decimal, m);
    }
    let fits = |x: IntegerElt, y: IntegerElt| -> (v: bool)
        ensures
            v == (IntegerElt::MIN <= x - y <= IntegerElt::MAX),
        { x.checked_sub(y).is_some() };
    if let MatchingNouns::Integer(g) = &m {
        if !g.every(fits) {
            proof {
                let k = choose|k: int|
                    0 <= k < g.pairs().len() && fits.ensures(#[trigger] g.pairs()[k], false);
                assert(!difference_defined(met(av, k), met(wv, k)));
            }
            return Err(VerbError::Overflow);
        }
    }
    let of_booleans = |x: bool, y: bool| -> (z: IntegerElt)
        ensures
            z == integer_of(x) - integer_of(y),
        {
            let i: IntegerElt = if x {
                1
            } else {
                0
            };
            let j: IntegerElt = if y {
                1
            } else {
                0
            };
            i - j
        };
    let of_integers = |x: IntegerElt, y: IntegerElt| -> (z: IntegerElt)
        requires
            IntegerElt::MIN <= x - y <= IntegerElt::MAX,
        ensures
            z == x - y,
        { x - y };
    let ghost operands = m;
    let combination = m.dyad(of_booleans, of_integers, minus);
    proof {
        match operands {
            MatchingNouns::Boolean(g) => {
                if g.agree() {
                    let x = lemma_combined_witness::<bool, IntegerElt, _>(
                        g,
                        of_booleans,
                        combination,
                    );
                    lemma_noun_of_integers(x);
                    assert forall|k: int| 0 <= k < joined_len(av, wv) implies #[trigger] difference_defined(
                        met(av, k),
                        met(wv, k),
                    ) by {
                        assert(met(av, k) == Atom::Boolean(g.pairs()[k].0));
                    }
                    assert forall|k: int| 0 <= k < joined_len(av, wv) implies is_difference(
                        to_decimal,
                        minus,
                        met(av, k),
                        met(wv, k),
                        #[trigger] combination->Ok_0@.elements.at(k),
                    ) by {
                        let p = g.pairs()[k];
                        assert(of_booleans.ensures((p.0, p.1), x@.data[k]));
                    }
                }
            },
            MatchingNouns::Integer(g) => {
                if g.agree() {
                    let x = lemma_combined_witness::<IntegerElt, IntegerElt, _>(
                        g,
                        of_integers,
                        combination,
                    );
                    lemma_noun_of_integers(x);
                    assert forall|k: int| 0 <= k < joined_len(av, wv) implies #[trigger] difference_defined(
                        met(av, k),
                        met(wv, k),
                    ) by {
                        let p = g.pairs()[k];
                        assert(fits.ensures((p.0, p.1), true));
                    }
                    assert forall|k: int| 0 <= k < joined_len(av, wv) implies is_difference(
                        to_decimal,
                        minus,
                        met(av, k),
                        met(wv, k),
                        #[trigger] combination->Ok_0@.elements.at(k),
                    ) by {
                        let p = g.pairs()[k];
                        assert(fits.ensures((p.0, p.1), true));
                        assert(of_integers.ensures((p.0, p.1), x@.data[k]));
                    }
                }
            },
            MatchingNouns::Decimal(g) => {
                if g.agree() {
                    let x = lemma_combined_witness::<Decimal, Decimal, _>(g, minus, combination);
                    lemma_noun_of_decimals(x);
                    assert forall|k: int| 0 <= k < joined_len(av, wv) implies #[trigger] difference_defined(
                        met(av, k),
                        met(wv, k),
                    ) by {
                        assert(decimal_value(to_decimal, met(av, k), g.pairs()[k].0));
                    }
                    assert forall|k: int| 0 <= k < joined_len(av, wv) implies is_difference(
                        to_decimal,
                        minus,
                        met(av, k),
                        met(wv, k),
                        #[trigger] combination->Ok_0@.elements.at(k),
                    ) by {
                        let p = g.pairs()[k];
                        assert(minus.ensures((p.0, p.1), x@.data[k]));
                        assert(combination->Ok_0@.elements.at(k) == Atom::Decimal(x@.data[k]));
                        assert(met(av, k).spec_kind().spec_join(met(wv, k).spec_kind()) == Kind::Decimal);
                        assert(decimal_value(to_decimal, met(av, k), p.0));
                        assert(decimal_value(to_decimal, met(wv, k), p.1));
                        let z = combination->Ok_0@.elements.at(k);
                        assert(exists|dx: Decimal, dy: Decimal|
                            decimal_value(to_decimal, met(av, k), dx) && decimal_value(
                                to_decimal,
                                met(wv, k),
                                dy,
                            ) && #[trigger] minus.ensures((dx, dy), x@.data[k]));
                        assert(z matches Atom::Decimal(d) && d == x@.data[k]);
                        assert(is_difference(to_decimal, minus, met(av, k), met(wv, k), z));
                    }
                }
            },
        }
    }
    match combination {
        Ok(n) => Ok(n),
        Err(e) => Err(VerbError::Shape(e)),
    }
}

/// The product of two scalars is defined: that of two integers, or of an
/// integer and a truth value, lies in the range of an integer element.
pub open spec fn product_defined(x: Atom, y: Atom) -> bool {
    x.spec_kind().spec_join(y.spec_kind()) == Kind::Integer ==> IntegerElt::MIN <= integer_value(x)
        * integer_value(y) <= IntegerElt::MAX
}

/// `z` may be the product of the scalars `x` and `y`. The product of two
/// truth values is the truth value that holds where both hold. Beside an
/// integer a truth value counts as the integer 1 or 0. Where one of the two
/// is a decimal, the product is what `times` makes of the decimals that the
/// two stand for.
pub open spec fn is_product<C: Fn(IntegerElt) -> Decimal, S: Fn(Decimal, Decimal) -> Decimal>(
    to_decimal: C,
    times: S,
    x: Atom,
    y: Atom,
    z: Atom,
) -> bool {
    match x.spec_kind().spec_join(y.spec_kind()) {
        Kind::Decimal => z matches Atom::Decimal(d) && exists|dx: Decimal, dy: Decimal|
            decimal_value(to_decimal, x, dx) && decimal_value(to_decimal, y, dy)
                && #[trigger] times.ensures((dx, dy), d),
        Kind::Integer => z == Atom::Integer((integer_value(x) * integer_value(y)) as IntegerElt),
        Kind::Boolean => z == Atom::Boolean(x == Atom::Boolean(true) && y == Atom::Boolean(true)),
    }
}

/// The product is defined of every pair of elements of `a` and `w` that
/// meet.
pub open spec fn products_defined(a: NounView, w: NounView) -> bool {
    forall|k: int| 0 <= k < joined_len(a, w) ==> #[trigger] product_defined(met(a, k), met(w, k))
}

/// `n` may be the product of `a` and `w`: it is laid out as a combination
/// of the two, and its element at each place is a product of the elements
/// that meet there.
pub open spec fn products<C: Fn(IntegerElt) -> Decimal, S: Fn(Decimal, Decimal) -> Decimal>(
    to_decimal: C,
    times: S,
    a: NounView,
    w: NounView,
    n: NounView,
) -> bool {
    &&& joins(a, w, n)
    &&& forall|k: int|
        0 <= k < joined_len(a, w) ==> is_product(
            to_decimal,
            times,
            met(a, k),
            met(w, k),
            #[trigger] n.elements.at(k),
        )
}

/// What `mul` may return for `a` and `w`. Operands that agree and whose
/// products are all defined give their product. Operands that do not agree
/// give the failure that names their shapes, and operands that agree and
/// meet somewhere in a product that is not defined give an overflow.
pub open spec fn product_outcome<C: Fn(IntegerElt) -> Decimal, S: Fn(Decimal, Decimal) -> Decimal>(
    to_decimal: C,
    times: S,
    a: NounView,
    w: NounView,
    r: Result<Noun, VerbError>,
) -> bool {
    match r {
        Ok(n) => operands_agree(a.shape, w.shape) && products_defined(a, w) && products(to_decimal, times, a, w, n@),
        Err(VerbError::Shape(e)) => !operands_agree(a.shape, w.shape) && e.left@ == a.shape->0
            && e.right@ == w.shape->0,
        Err(VerbError::Overflow) => operands_agree(a.shape, w.shape) && !products_defined(a, w),
        Err(_) => false,
    }
}

/// The product of two values, element by element. It fails where the
/// shapes of two arrays do not agree, and where a product of integers leaves
/// the range of an integer element.
pub fn mul<C, S>(a: Noun, w: Noun, to_decimal: C, times: S) -> (r: Result<Noun, VerbError>) where
    C: Fn(IntegerElt) -> Decimal,
    S: Fn(Decimal, Decimal) -> Decimal,

    requires
        forall|x: IntegerElt| to_decimal.requires((x,)),
        forall|x: Decimal, y: Decimal| times.requires((x, y)),
    ensures
        product_outcome(to_decimal, times, a@, w@, r),
{
    let ghost av = a@;
    let ghost wv = w@;
    let m = match Noun::try_promote_pair(a, w, &to_decimal) {
        Ok(m) => m,
        Err(e) => {
            return Err(VerbError::Promotion(e));
        },
    };
    proof {
        lemma_promoted_pair(av, wv, &to_decimal, m);
    }
    let fits = |x: IntegerElt, y: IntegerElt| -> (v: bool)
        ensures
            v == (IntegerElt::MIN <= x * y <= IntegerElt::MAX),
        { x.checked_mul(y).is_some() };
    if let MatchingNouns::Integer(g) = &m {
        if !g.every(fits) {
            proof {
                let k = choose|k: int|
                    0 <= k < g.pairs().len() && fits.ensures(#[trigger] g.pairs()[k], false);
                assert(!product_defined(met(av, k), met(wv, k)));
            }
            return Err(VerbError::Overflow);
        }
    }
    let of_booleans = |x: bool, y: bool| -> (z: bool)
        ensures
            z == (x && y),
        { x && y };
    let of_integers = |x: IntegerElt, y: IntegerElt| -> (z: IntegerElt)
        requires
            IntegerElt::MIN <= x * y <= IntegerElt::MAX,
        ensures
            z == x * y,
        { x * y };
    let ghost operands = m;
    let combination = m.dyad(of_booleans, of_integers, times);
    proof {
        match operands {
            MatchingNouns::Boolean(g) => {
                if g.agree() {
                    let x = lemma_combined_witness::<bool, bool, _>(g, of_booleans, combination);
                    lemma_noun_of_booleans(x);
                    assert forall|k: int| 0 <= k < joined_len(av, wv) implies #[trigger] product_defined(
                        met(av, k),
                        met(wv, k),
                    ) by {
                        assert(met(av, k) == Atom::Boolean(g.pairs()[k].0));
                    }
                    assert forall|k: int| 0 <= k < joined_len(av, wv) implies is_product(
                        to_decimal,
                        times,
                        met(av, k),
                        met(wv, k),
                        #[trigger] combination->Ok_0@.elements.at(k),
                    ) by {
                        let p = g.pairs()[k];
                        assert(of_booleans.ensures((p.0, p.1), x@.data[k]));
                    }
                }
            },
            MatchingNouns::Integer(g) => {
                if g.agree() {
                    let x = lemma_combined_witness::<IntegerElt, IntegerElt, _>(
                        g,
                        of_integers,
                        combination,
                    );
                    lemma_noun_of_integers(x);
                    assert forall|k: int| 0 <= k < joined_len(av, wv) implies #[trigger] product_defined(
                        met(av, k),
                        met(wv, k),
                    ) by {
                        let p = g.pairs()[k];
                        assert(fits.ensures((p.0, p.1), true));
                    }
                    assert forall|k: int| 0 <= k < joined_len(av, wv) implies is_product(
                        to_decimal,
                        times,
                        met(av, k),
                        met(wv, k),
                        #[trigger] combination->Ok_0@.elements.at(k),
                    ) by {
                        let p = g.pairs()[k];
                        assert(fits.ensures((p.0, p.1), true));
                        assert(of_integers.ensures((p.0, p.1), x@.data[k]));
                    }
                }
            },
            MatchingNouns::Decimal(g) => {
                if g.agree() {
                    let x = lemma_combined_witness::<Decimal, Decimal, _>(g, times, combination);
                    lemma_noun_of_decimals(x);
                    assert forall|k: int| 0 <= k < joined_len(av, wv) implies #[trigger] product_defined(
                        met(av, k),
                        met(wv, k),
                    ) by {
                        assert(decimal_value(to_decimal, met(av, k), g.pairs()[k].0));
                    }
                    assert forall|k: int| 0 <= k < joined_len(av, wv) implies is_product(
                        to_decimal,
                        times,
                        met(av, k),
                        met(wv, k),
                        #[trigger] combination->Ok_0@.elements.at(k),
                    ) by {
                        let p = g.pairs()[k];
                        assert(times.ensures((p.0, p.1), x@.data[k]));
                        assert(combination->Ok_0@.elements.at(k) == Atom::Decimal(x@.data[k]));
                        assert(met(av, k).spec_kind().spec_join(met(wv, k).spec_kind()) == Kind::Decimal);
                        assert(decimal_value(to_decimal, met(av, k), p.0));
                        assert(decimal_value(to_decimal, met(wv, k), p.1));
                        let z = combination->Ok_0@.elements.at(k);
                        assert(exists|dx: Decimal, dy: Decimal|
                            decimal_value(to_decimal, met(av, k), dx) && decimal_value(
                                to_decimal,
                                met(wv, k),
                                dy,
                            ) && #[trigger] times.ensures((dx, dy), x@.data[k]));
                        assert(z matches Atom::Decimal(d) && d == x@.data[k]);
                        assert(is_product(to_decimal, times, met(av, k), met(wv, k), z));
                    }
                }
            },
        }
    }
    match combination {
        Ok(n) => Ok(n),
        Err(e) => Err(VerbError::Shape(e)),
    }
}

/// `z` may be the quotient of the scalars `x` and `y`, `x` by `y`: what
/// `divide` makes of the decimals that the two stand for. The quotient is
/// a decimal whatever the kinds of the two.
pub open spec fn is_quotient<C: Fn(IntegerElt) -> Decimal, Q: Fn(Decimal, Decimal) -> Decimal>(
    to_decimal: C,
    divide: Q,
    x: Atom,
    y: Atom,
    z: Atom,
) -> bool {
    z matches Atom::Decimal(d) && exists|dx: Decimal, dy: Decimal|
        decimal_value(to_decimal, x, dx) && decimal_value(to_decimal, y, dy)
            && #[trigger] divide.ensures((dx, dy), d)
}

/// `n` may be the quotient of `a` and `w`: it is laid out as a combination
/// of the two, and its element at each place is a quotient of the elements
/// that meet there.
pub open spec fn quotients<C: Fn(IntegerElt) -> Decimal, Q: Fn(Decimal, Decimal) -> Decimal>(
    to_decimal: C,
    divide: Q,
    a: NounView,
    w: NounView,
    n: NounView,
) -> bool {
    &&& joins(a, w, n)
    &&& forall|k: int|
        0 <= k < joined_len(a, w) ==> is_quotient(
            to_decimal,
            divide,
            met(a, k),
            met(w, k),
            #[trigger] n.elements.at(k),
        )
}

/// What `div` may return for `a` and `w`. Operands that agree give
/// their quotient, and operands that do not agree the failure that names
/// their shapes.
pub open spec fn quotient_outcome<C: Fn(IntegerElt) -> Decimal, Q: Fn(Decimal, Decimal) -> Decimal>(
    to_decimal: C,
    divide: Q,
    a: NounView,
    w: NounView,
    r: Result<Noun, VerbError>,
) -> bool {
    match r {
        Ok(n) => operands_agree(a.shape, w.shape) && quotients(to_decimal, divide, a, w, n@),
        Err(VerbError::Shape(e)) => !operands_agree(a.shape, w.shape) && e.left@ == a.shape->0
            && e.right@ == w.shape->0,
        Err(_) => false,
    }
}

/// The quotient of two values, element by element, `a` by `w`. Truth values
/// and integers are made decimals before they are divided. It fails only
/// where the shapes of two arrays do not agree.
pub fn div<C, Q>(a: Noun, w: Noun, to_decimal: C, divide: Q) -> (r: Result<Noun, VerbError>) where
    C: Fn(IntegerElt) -> Decimal,
    Q: Fn(Decimal, Decimal) -> Decimal,

    requires
        forall|x: IntegerElt| to_decimal.requires((x,)),
        forall|x: Decimal, y: Decimal| divide.requires((x, y)),
    ensures
        quotient_outcome(to_decimal, divide, a@, w@, r),
{
    let ghost av = a@;
    let ghost wv = w@;
    let m = match Noun::try_promote_pair(a, w, &to_decimal) {
        Ok(m) => m,
        Err(e) => {
            return Err(VerbError::Promotion(e));
        },
    };
    proof {
        lemma_promoted_pair(av, wv, &to_decimal, m);
    }
    let convert = &to_decimal;
    let quotient = &divide;
    let of_booleans = |x: bool, y: bool| -> (z: Decimal)
        ensures
            exists|dx: Decimal, dy: Decimal|
                convert.ensures((integer_of(x),), dx) && convert.ensures((integer_of(y),), dy)
                    && #[trigger] quotient.ensures((dx, dy), z),
        {
            let i: IntegerElt = if x {
                1
            } else {
                0
            };
            let j: IntegerElt = if y {
                1
            } else {
                0
            };
            let dx = convert(i);
            let dy = convert(j);
            let z = quotient(dx, dy);
            assert(quotient.ensures((dx, dy), z));
            z
        };
    let of_integers = |x: IntegerElt, y: IntegerElt| -> (z: Decimal)
        ensures
            exists|dx: Decimal, dy: Decimal|
                convert.ensures((x,), dx) && convert.ensures((y,), dy)
                    && #[trigger] quotient.ensures((dx, dy), z),
        {
            let dx = convert(x);
            let dy = convert(y);
            let z = quotient(dx, dy);
            assert(quotient.ensures((dx, dy), z));
            z
        };
    let ghost operands = m;
    let combination = m.dyad(of_booleans, of_integers, quotient);
    proof {
        match operands {
            MatchingNouns::Boolean(g) => {
                if g.agree() {
                    let x = lemma_combined_witness::<bool, Decimal, _>(g, of_booleans, combination);
                    lemma_noun_of_decimals(x);
                    assert forall|k: int| 0 <= k < joined_len(av, wv) implies is_quotient(
                        to_decimal,
                        divide,
                        met(av, k),
                        met(wv, k),
                        #[trigger] combination->Ok_0@.elements.at(k),
                    ) by {
                        let p = g.pairs()[k];
                        assert(of_booleans.ensures((p.0, p.1), x@.data[k]));
                        let (dx, dy) = choose|dx: Decimal, dy: Decimal|
                            convert.ensures((integer_of(p.0),), dx) && convert.ensures(
                                (integer_of(p.1),),
                                dy,
                            ) && #[trigger] quotient.ensures((dx, dy), x@.data[k]);
                        assert(decimal_value(to_decimal, met(av, k), dx));
                        assert(decimal_value(to_decimal, met(wv, k), dy));
                        assert(divide.ensures((dx, dy), x@.data[k]));
                        let z = combination->Ok_0@.elements.at(k);
                        assert(z matches Atom::Decimal(d) && d == x@.data[k]);
                        assert(is_quotient(to_decimal, divide, met(av, k), met(wv, k), z));
                    }
                }
            },
            MatchingNouns::Integer(g) => {
                if g.agree() {
                    let x = lemma_combined_witness::<IntegerElt, Decimal, _>(
                        g,
                        of_integers,
                        combination,
                    );
                    lemma_noun_of_decimals(x);
                    assert forall|k: int| 0 <= k < joined_len(av, wv) implies is_quotient(
                        to_decimal,
                        divide,
                        met(av, k),
                        met(wv, k),
                        #[trigger] combination->Ok_0@.elements.at(k),
                    ) by {
                        let p = g.pairs()[k];
                        assert(of_integers.ensures((p.0, p.1), x@.data[k]));
                        let (dx, dy) = choose|dx: Decimal, dy: Decimal|
                            convert.ensures((p.0,), dx) && convert.ensures((p.1,), dy)
                                && #[trigger] quotient.ensures((dx, dy), x@.data[k]);
                        assert(decimal_value(to_decimal, met(av, k), dx));
                        assert(decimal_value(to_decimal, met(wv, k), dy));
                        assert(divide.ensures((dx, dy), x@.data[k]));
                        let z = combination->Ok_0@.elements.at(k);
                        assert(z matches Atom::Decimal(d) && d == x@.data[k]);
                        assert(is_quotient(to_decimal, divide, met(av, k), met(wv, k), z));
                    }
                }
            },
            MatchingNouns::Decimal(g) => {
                if g.agree() {
                    let x = lemma_combined_witness::<Decimal, Decimal, _>(g, quotient, combination);
                    lemma_noun_of_decimals(x);
                    assert forall|k: int| 0 <= k < joined_len(av, wv) implies is_quotient(
                        to_decimal,
                        divide,
                        met(av, k),
                        met(wv, k),
                        #[trigger] combination->Ok_0@.elements.at(k),
                    ) by {
                        let p = g.pairs()[k];
                        assert(divide.ensures((p.0, p.1), x@.data[k]));
                        assert(decimal_value(to_decimal, met(av, k), p.0));
                        assert(decimal_value(to_decimal, met(wv, k), p.1));
                        assert(exists|dx: Decimal, dy: Decimal|
                            decimal_value(to_decimal, met(av, k), dx) && decimal_value(
                                to_decimal,
                                met(wv, k),
                                dy,
                            ) && #[trigger] divide.ensures((dx, dy), x@.data[k]));
                        let z = combination->Ok_0@.elements.at(k);
                        assert(z matches Atom::Decimal(d) && d == x@.data[k]);
                        assert(is_quotient(to_decimal, divide, met(av, k), met(wv, k), z));
                    }
                }
            },
        }
    }
    match combination {
        Ok(n) => Ok(n),
        Err(e) => Err(VerbError::Shape(e)),
    }
}

/// `z` may be the truth value of the equality of the scalars `x` and `y`.
/// Truth values are compared as such. Beside an integer a truth value counts
/// as the integer 1 or 0. Where one of the two is a decimal, the truth value
/// is what `same` makes of the decimals that the two stand for.
pub open spec fn is_equality<C: Fn(IntegerElt) -> Decimal, Q: Fn(Decimal, Decimal) -> bool>(
    to_decimal: C,
    same: Q,
    x: Atom,
    y: Atom,
    z: Atom,
) -> bool {
    z matches Atom::Boolean(v) && match x.spec_kind().spec_join(y.spec_kind()) {
        Kind::Decimal => exists|dx: Decimal, dy: Decimal|
            decimal_value(to_decimal, x, dx) && decimal_value(to_decimal, y, dy)
                && #[trigger] same.ensures((dx, dy), v),
        Kind::Integer => v == (integer_value(x) == integer_value(y)),
        Kind::Boolean => v == (x == y),
    }
}

/// `n` may be the equality of `a` and `w`: it is laid out as a combination
/// of the two, and its element at each place is the truth value of the
/// equality of the elements that meet there.
pub open spec fn equalities<C: Fn(IntegerElt) -> Decimal, Q: Fn(Decimal, Decimal) -> bool>(
    to_decimal: C,
    same: Q,
    a: NounView,
    w: NounView,
    n: NounView,
) -> bool {
    &&& joins(a, w, n)
    &&& forall|k: int|
        0 <= k < joined_len(a, w) ==> is_equality(
            to_decimal,
            same,
            met(a, k),
            met(w, k),
            #[trigger] n.elements.at(k),
        )
}

/// What `eq` may return for `a` and `w`. Operands that agree give their
/// equality, and operands that do not agree the failure that names their
/// shapes.
pub open spec fn equality_outcome<C: Fn(IntegerElt) -> Decimal, Q: Fn(Decimal, Decimal) -> bool>(
    to_decimal: C,
    same: Q,
    a: NounView,
    w: NounView,
    r: Result<Noun, VerbError>,
) -> bool {
    match r {
        Ok(n) => operands_agree(a.shape, w.shape) && equalities(to_decimal, same, a, w, n@),
        Err(VerbError::Shape(e)) => !operands_agree(a.shape, w.shape) && e.left@ == a.shape->0
            && e.right@ == w.shape->0,
        Err(_) => false,
    }
}

/// The equality of two values, element by element: a value of truth
/// values. It fails only where the shapes of two arrays do not agree.
pub fn eq<C, Q>(a: Noun, w: Noun, to_decimal: C, same: Q) -> (r: Result<Noun, VerbError>) where
    C: Fn(IntegerElt) -> Decimal,
    Q: Fn(Decimal, Decimal) -> bool,

    requires
        forall|x: IntegerElt| to_decimal.requires((x,)),
        forall|x: Decimal, y: Decimal| same.requires((x, y)),
    ensures
        equality_outcome(to_decimal, same, a@, w@, r),
{
    let ghost av = a@;
    let ghost wv = w@;
    let m = match Noun::try_promote_pair(a, w, &to_decimal) {
        Ok(m) => m,
        Err(e) => {
            return Err(VerbError::Promotion(e));
        },
    };
    proof {
        lemma_promoted_pair(av, wv, &to_decimal, m);
    }
    let of_booleans = |x: bool, y: bool| -> (z: bool)
        ensures
            z == (x == y),
        { x == y };
    let of_integers = |x: IntegerElt, y: IntegerElt| -> (z: bool)
        ensures
            z == (x == y),
        { x == y };
    let ghost operands = m;
    let combination = m.dyad(of_booleans, of_integers, same);
    proof {
        match operands {
            MatchingNouns::Boolean(g) => {
                if g.agree() {
                    let x = lemma_combined_witness::<bool, bool, _>(g, of_booleans, combination);
                    lemma_noun_of_booleans(x);
                    assert forall|k: int| 0 <= k < joined_len(av, wv) implies is_equality(
                        to_decimal,
                        same,
                        met(av, k),
                        met(wv, k),
                        #[trigger] combination->Ok_0@.elements.at(k),
                    ) by {
                        let p = g.pairs()[k];
                        assert(of_booleans.ensures((p.0, p.1), x@.data[k]));
                    }
                }
            },
            MatchingNouns::Integer(g) => {
                if g.agree() {
                    let x = lemma_combined_witness::<IntegerElt, bool, _>(
                        g,
                        of_integers,
                        combination,
                    );
                    lemma_noun_of_booleans(x);
                    assert forall|k: int| 0 <= k < joined_len(av, wv) implies is_equality(
                        to_decimal,
                        same,
                        met(av, k),
                        met(wv, k),
                        #[trigger] combination->Ok_0@.elements.at(k),
                    ) by {
                        let p = g.pairs()[k];
                        assert(of_integers.ensures((p.0, p.1), x@.data[k]));
                    }
                }
            },
            MatchingNouns::Decimal(g) => {
                if g.agree() {
                    let x = lemma_combined_witness::<Decimal, bool, _>(g, same, combination);
                    lemma_noun_of_booleans(x);
                    assert forall|k: int| 0 <= k < joined_len(av, wv) implies is_equality(
                        to_decimal,
                        same,
                        met(av, k),
                        met(wv, k),
                        #[trigger] combination->Ok_0@.elements.at(k),
                    ) by {
                        let p = g.pairs()[k];
                        assert(same.ensures((p.0, p.1), x@.data[k]));
                        assert(decimal_value(to_decimal, met(av, k), p.0));
                        assert(decimal_value(to_decimal, met(wv, k), p.1));
                        assert(exists|dx: Decimal, dy: Decimal|
                            decimal_value(to_decimal, met(av, k), dx) && decimal_value(
                                to_decimal,
                                met(wv, k),
                                dy,
                            ) && #[trigger] same.ensures((dx, dy), x@.data[k]));
                        let z = combination->Ok_0@.elements.at(k);
                        assert(z matches Atom::Boolean(v) && v == x@.data[k]);
                        assert(is_equality(to_decimal, same, met(av, k), met(wv, k), z));
                    }
                }
            },
        }
    }
    match combination {
        Ok(n) => Ok(n),
        Err(e) => Err(VerbError::Shape(e)),
    }
}

/// `b` may be the truth value that a scalar stands for: a truth value is
/// itself, an integer holds where it is not 0, and a decimal where `nonzero`
/// says so.
pub open spec fn truth_value<N: Fn(Decimal) -> bool>(nonzero: N, x: Atom, b: bool) -> bool {
    match x {
        Atom::Boolean(v) => b == v,
        Atom::Integer(i) => b == (i != 0),
        Atom::Decimal(d) => nonzero.ensures((d,), b),
    }
}

/// `z` may be the conjunction of the scalars `x` and `y`: the truth value
/// that holds where the truth values of both hold.
pub open spec fn is_conjunction<N: Fn(Decimal) -> bool>(nonzero: N, x: Atom, y: Atom, z: Atom) -> bool {
    z matches Atom::Boolean(v) && exists|bx: bool, by: bool|
        #![trigger truth_value(nonzero, x, bx), truth_value(nonzero, y, by)]
        truth_value(nonzero, x, bx) && truth_value(nonzero, y, by) && v == (bx && by)
}

/// `n` may be the conjunction of `a` and `w`: it is laid out as a
/// combination of the two, and its element at each place is the conjunction
/// of the elements that meet there.
pub open spec fn conjunctions<N: Fn(Decimal) -> bool>(
    nonzero: N,
    a: NounView,
    w: NounView,
    n: NounView,
) -> bool {
    &&& joins(a, w, n)
    &&& forall|k: int|
        0 <= k < joined_len(a, w) ==> is_conjunction(
            nonzero,
            met(a, k),
            met(w, k),
            #[trigger] n.elements.at(k),
        )
}

/// What `and` may return for `a` and `w`. Operands that agree give their
/// conjunction, and operands that do not agree the failure that names their
/// shapes.
pub open spec fn conjunction_outcome<N: Fn(Decimal) -> bool>(
    nonzero: N,
    a: NounView,
    w: NounView,
    r: Result<Noun, VerbError>,
) -> bool {
    match r {
        Ok(n) => operands_agree(a.shape, w.shape) && conjunctions(nonzero, a, w, n@),
        Err(VerbError::Shape(e)) => !operands_agree(a.shape, w.shape) && e.left@ == a.shape->0
            && e.right@ == w.shape->0,
        Err(_) => false,
    }
}

/// The conjunction of two values, element by element: a value of truth
/// values. Each operand is first read as truth values, an integer as true
/// where it is not 0 and a decimal as `nonzero` says; no operand is
/// promoted. It fails only where the shapes of two arrays do not agree.
pub fn and<N>(a: Noun, w: Noun, nonzero: N) -> (r: Result<Noun, VerbError>) where
    N: Fn(Decimal) -> bool,

    requires
        forall|d: Decimal| nonzero.requires((d,)),
    ensures
        conjunction_outcome(nonzero, a@, w@, r),
{
    let ghost av = a@;
    let ghost wv = w@;
    let test = &nonzero;
    let left = a.into_boolean(test);
    let right = w.into_boolean(test);
    let g = GenericMatchingNouns::from((left, right));
    let both = |x: bool, y: bool| -> (z: bool)
        ensures
            z == (x && y),
        { x && y };
    let ghost operands = g;
    match g.dyad(both) {
        Ok(x) => {
            let ghost truths = x;
            let n = Noun::from(x);
            proof {
                lemma_noun_of_booleans(truths);
                assert(operands.pairs().len() == joined_len(av, wv));
                assert forall|k: int| 0 <= k < joined_len(av, wv) implies is_conjunction(
                    nonzero,
                    met(av, k),
                    met(wv, k),
                    #[trigger] n@.elements.at(k),
                ) by {
                    lemma_met_in_range(av, wv, k);
                    let p = operands.pairs()[k];
                    assert(both.ensures((p.0, p.1), truths@.data[k]));
                    assert(truth_value(nonzero, met(av, k), p.0));
                    assert(truth_value(nonzero, met(wv, k), p.1));
                    let z = n@.elements.at(k);
                    assert(z matches Atom::Boolean(v) && v == truths@.data[k]);
                }
            }
            Ok(n)
        },
        Err(e) => Err(VerbError::Shape(e)),
    }
}

/// The value itself.
pub fn same(w: Noun) -> (r: Result<Noun, VerbError>)
    ensures
        r matches Ok(n) && n == w,
{
    Ok(w)
}

/// The right operand.
pub fn same_w(a: Noun, w: Noun) -> (r: Result<Noun, VerbError>)
    ensures
        r matches Ok(n) && n == w,
{
    Ok(w)
}

/// The left operand.
pub fn same_a(a: Noun, w: Noun) -> (r: Result<Noun, VerbError>)
    ensures
        r matches Ok(n) && n == a,
{
    Ok(a)
}

/// The shape that a value names as the argument of `iota`: the extent of
/// the one axis for an Integer scalar, and the extents of the axes for an
/// Integer array of one axis. No other value names a shape.
pub open spec fn named_shape(w: NounView) -> Option<Seq<IntegerElt>> {
    match (w.shape, w.elements) {
        (None, Elements::Integer(s)) => Some(s),
        (Some(axes), Elements::Integer(s)) => if axes.len() == 1 {
            Some(s)
        } else {
            None
        },
        _ => None,
    }
}

/// What `iota` may return for `w`. A value that names a shape whose
/// positions can be counted gives the array of that shape that holds the
/// integers from 0 on in row-major order. Every other value gives the
/// failure of an incompatible argument.
pub open spec fn iota_outcome(w: NounView, r: Result<Noun, VerbError>) -> bool {
    match r {
        Ok(n) => named_shape(w) matches Some(s) && counts_positions(s) && n@ == (NounView {
            shape: Some(extents_of(s)),
            elements: Elements::Integer(
                Seq::new(shape_size(extents_of(s)), |k: int| k as IntegerElt),
            ),
        }),
        Err(VerbError::IncompatibleArgument) => !(named_shape(w) matches Some(s)
            && counts_positions(s)),
        Err(_) => false,
    }
}

/// The array of the shape that `w` names which holds the integers from 0
/// on in row-major order. It fails where `w` names no shape, or one whose
/// positions cannot be counted.
pub fn iota(w: Noun) -> (r: Result<Noun, VerbError>)
    ensures
        iota_outcome(w@, r),
{
    match w {
        Noun::Atom(Atom::Integer(i)) => {
            let mut shape: Vec<IntegerElt> = Vec::new();
            shape.push(i);
            proof {
                assert(shape@ =~= seq![i]);
            }
            match checked_extents(shape.as_slice()) {
                Some(_) => Ok(Noun::Array(Array::Integer(GenericArray::iota(shape.as_slice())))),
                None => Err(VerbError::IncompatibleArgument),
            }
        },
        Noun::Array(Array::Integer(a)) => {
            if a.rank() == 1 {
                match checked_extents(a.raw_data()) {
                    Some(_) => Ok(Noun::Array(Array::Integer(GenericArray::iota(a.raw_data())))),
                    None => Err(VerbError::IncompatibleArgument),
                }
            } else {
                Err(VerbError::IncompatibleArgument)
            }
        },
        _ => Err(VerbError::IncompatibleArgument),
    }
}

} // verus!
