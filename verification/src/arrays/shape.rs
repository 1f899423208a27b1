//! Shapes, row-major flat indexing, and trailing-axis agreement.

use itertools::Itertools;
use std::ops::Range;
use vstd::arithmetic::div_mod::{lemma_fundamental_div_mod, lemma_fundamental_div_mod_converse};
use vstd::prelude::*;

verus! {

/// The number of elements that an array of shape `shape` holds: the product
/// of its extents, 1 for the empty shape.
pub open spec fn shape_size(shape: Seq<usize>) -> nat
    decreases shape.len(),
{
    if shape.len() == 0 {
        1
    } else {
        shape_size(shape.drop_last()) * (shape.last() as nat)
    }
}

/// `index` names a position of an array of shape `shape`: one component per
/// axis, each below the extent of its axis.
pub open spec fn in_bounds(shape: Seq<usize>, index: Seq<usize>) -> bool {
    &&& index.len() == shape.len()
    &&& forall|d: int| 0 <= d < shape.len() ==> index[d] < shape[d]
}

/// The row-major flat offset of `index` in an array of shape `shape`: the
/// mixed-radix fold `acc * extent + component`, from the outermost axis to the
/// innermost. Meant for `index.len() == shape.len()`.
pub open spec fn flat_index(shape: Seq<usize>, index: Seq<usize>) -> int
    decreases shape.len(),
{
    if shape.len() == 0 || index.len() != shape.len() {
        0
    } else {
        flat_index(shape.drop_last(), index.drop_last()) * (shape.last() as int) + (
        index.last() as int)
    }
}

/// The index whose flat offset in an array of shape `shape` is `offset`: the
/// mixed-radix digits of `offset`, innermost axis last.
pub open spec fn unflatten(shape: Seq<usize>, offset: int) -> Seq<usize>
    decreases shape.len(),
{
    if shape.len() == 0 {
        Seq::empty()
    } else {
        unflatten(shape.drop_last(), offset / (shape.last() as int)).push(
            (offset % (shape.last() as int)) as usize,
        )
    }
}

/// `short` equals the trailing axes of `long`.
pub open spec fn is_suffix(short: Seq<usize>, long: Seq<usize>) -> bool {
    &&& short.len() <= long.len()
    &&& long.subrange(long.len() - short.len(), long.len() as int) == short
}

/// Trailing-axis agreement: one of the two shapes is a suffix of the other.
pub open spec fn shapes_agree(a: Seq<usize>, b: Seq<usize>) -> bool {
    is_suffix(a, b) || is_suffix(b, a)
}

/// The shape of the combination of two agreeing shapes: the longer one.
pub open spec fn joined_shape(a: Seq<usize>, b: Seq<usize>) -> Seq<usize> {
    if a.len() >= b.len() {
        a
    } else {
        b
    }
}

/// A shape with a position in bounds has no empty axis, and the flat offset
/// of the position lies below the shape's size.
pub proof fn lemma_flat_index_in_range(shape: Seq<usize>, index: Seq<usize>)
    requires
        in_bounds(shape, index),
    ensures
        0 <= flat_index(shape, index) < shape_size(shape),
    decreases shape.len(),
{
    if shape.len() > 0 {
        let s = shape.drop_last();
        let i = index.drop_last();
        lemma_flat_index_in_range(s, i);
        let e = shape.last() as int;
        let f = flat_index(s, i);
        let n = shape_size(s) as int;
        assert(f * e + index.last() < n * e) by (nonlinear_arith)
            requires
                0 <= f < n,
                0 <= index.last() < e,
        ;
        assert(0 <= f * e) by (nonlinear_arith)
            requires
                0 <= f,
                0 <= e,
        ;
    }
}

/// The digits of an offset below the shape's size form a position in
/// bounds, and that position's flat offset is the offset again.
pub proof fn lemma_flat_index_of_unflatten(shape: Seq<usize>, offset: int)
    requires
        0 <= offset < shape_size(shape),
    ensures
        in_bounds(shape, unflatten(shape, offset)),
        flat_index(shape, unflatten(shape, offset)) == offset,
    decreases shape.len(),
{
    if shape.len() > 0 {
        let s = shape.drop_last();
        let e = shape.last() as int;
        let n = shape_size(s) as int;
        assert(e > 0) by (nonlinear_arith)
            requires
                0 <= offset < n * e,
                0 <= n,
                0 <= e,
        ;
        let q = offset / e;
        let r = offset % e;
        lemma_fundamental_div_mod(offset, e);
        assert(0 <= q < n) by (nonlinear_arith)
            requires
                offset == e * q + r,
                0 <= r < e,
                0 <= offset < n * e,
        ;
        lemma_flat_index_of_unflatten(s, q);
        let u = unflatten(shape, offset);
        assert(u.drop_last() == unflatten(s, q));
        assert(q * e == e * q) by (nonlinear_arith);
    }
}

/// The digits of the flat offset of a position in bounds are the position.
pub proof fn lemma_unflatten_of_flat_index(shape: Seq<usize>, index: Seq<usize>)
    requires
        in_bounds(shape, index),
    ensures
        unflatten(shape, flat_index(shape, index)) == index,
    decreases shape.len(),
{
    if shape.len() == 0 {
    } else {
        let s = shape.drop_last();
        let i = index.drop_last();
        lemma_unflatten_of_flat_index(s, i);
        let e = shape.last() as int;
        let f = flat_index(s, i);
        let c = index.last() as int;
        lemma_fundamental_div_mod_converse(f * e + c, e, f, c);
    }
}

/// Row-major flat indexing is a bijection between the positions in bounds of
/// a shape and the offsets below its size: every position is sent below the
/// size, two positions with one offset are the same position, and every
/// offset below the size is the offset of a position in bounds.
pub proof fn flat_index_is_bijection(shape: Seq<usize>)
    ensures
        forall|index: Seq<usize>|
            in_bounds(shape, index) ==> 0 <= #[trigger] flat_index(shape, index) < shape_size(
                shape,
            ),
        forall|a: Seq<usize>, b: Seq<usize>|
            in_bounds(shape, a) && in_bounds(shape, b) && #[trigger] flat_index(shape, a)
                == #[trigger] flat_index(shape, b) ==> a == b,
        forall|offset: int|
            0 <= offset < shape_size(shape) ==> in_bounds(shape, #[trigger] unflatten(shape, offset))
                && flat_index(shape, unflatten(shape, offset)) == offset,
{
    assert forall|index: Seq<usize>| in_bounds(shape, index) implies 0 <= #[trigger] flat_index(
        shape,
        index,
    ) < shape_size(shape) by {
        lemma_flat_index_in_range(shape, index);
    }
    assert forall|a: Seq<usize>, b: Seq<usize>|
        in_bounds(shape, a) && in_bounds(shape, b) && #[trigger] flat_index(shape, a)
            == #[trigger] flat_index(shape, b) implies a == b by {
        lemma_unflatten_of_flat_index(shape, a);
        lemma_unflatten_of_flat_index(shape, b);
    }
    assert forall|offset: int| 0 <= offset < shape_size(shape) implies in_bounds(
        shape,
        #[trigger] unflatten(shape, offset),
    ) && flat_index(shape, unflatten(shape, offset)) == offset by {
        lemma_flat_index_of_unflatten(shape, offset);
    }
}

/// `(a * e + c) % (m * e)` keeps the low digit `c` and reduces the rest.
proof fn lemma_mod_of_scaled(a: int, e: int, c: int, m: int)
    requires
        0 <= a,
        0 <= c < e,
        0 < m,
    ensures
        (a * e + c) % (m * e) == (a % m) * e + c,
{
    let q = a / m;
    let r = a % m;
    lemma_fundamental_div_mod(a, m);
    assert(a * e + c == q * (m * e) + (r * e + c)) by (nonlinear_arith)
        requires
            a == m * q + r,
    ;
    assert(0 <= r * e + c < m * e) by (nonlinear_arith)
        requires
            0 <= r < m,
            0 <= c < e,
    ;
    lemma_fundamental_div_mod_converse(a * e + c, m * e, q, r * e + c);
}

/// Trailing-axis alignment in flat terms. Where `short` is a suffix of
/// `long`, the trailing components of a position of `long` form a position of
/// `short`, and its flat offset is the flat offset in `long` reduced modulo
/// the size of `short`: the shorter array repeats along the leading axes of
/// the longer one.
pub proof fn lemma_suffix_flat_index(short: Seq<usize>, long: Seq<usize>, index: Seq<usize>)
    requires
        is_suffix(short, long),
        in_bounds(long, index),
    ensures
        in_bounds(short, index.subrange(long.len() - short.len(), long.len() as int)),
        flat_index(short, index.subrange(long.len() - short.len(), long.len() as int))
            == flat_index(long, index) % (shape_size(short) as int),
    decreases short.len(),
{
    let lead = long.len() - short.len();
    let tail = index.subrange(lead, long.len() as int);
    if short.len() > 0 {
        let s = short.drop_last();
        let l = long.drop_last();
        let i = index.drop_last();
        assert(l.subrange(l.len() - s.len(), l.len() as int) =~= s);
        lemma_suffix_flat_index(s, l, i);
        assert(i.subrange(l.len() - s.len(), l.len() as int) =~= tail.drop_last());
        lemma_flat_index_in_range(l, i);
        lemma_flat_index_in_range(s, tail.drop_last());
        lemma_mod_of_scaled(
            flat_index(l, i),
            long.last() as int,
            index.last() as int,
            shape_size(s) as int,
        );
    }
}

/// The size of a prefix grows by the factor of the next axis.
proof fn lemma_size_of_prefix_step(shape: Seq<usize>, k: int)
    requires
        0 <= k < shape.len(),
    ensures
        shape_size(shape.take(k + 1)) == shape_size(shape.take(k)) * (shape[k] as nat),
{
    assert(shape.take(k + 1).drop_last() =~= shape.take(k));
}

/// A shape with an empty axis has size 0.
proof fn lemma_size_with_empty_axis(shape: Seq<usize>, d: int)
    requires
        0 <= d < shape.len(),
        shape[d] == 0,
    ensures
        shape_size(shape) == 0,
    decreases shape.len(),
{
    if d < shape.len() - 1 {
        lemma_size_with_empty_axis(shape.drop_last(), d);
        assert(shape_size(shape) == 0) by (nonlinear_arith)
            requires
                shape_size(shape) == shape_size(shape.drop_last()) * (shape.last() as nat),
                shape_size(shape.drop_last()) == 0,
        ;
    } else {
        assert(shape_size(shape) == 0) by (nonlinear_arith)
            requires
                shape_size(shape) == shape_size(shape.drop_last()) * (shape.last() as nat),
                shape.last() == 0,
        ;
    }
}

/// Without an empty axis, the size of a prefix is at least 1 and at most the
/// size of the whole shape.
proof fn lemma_size_of_prefix_bound(shape: Seq<usize>, k: int)
    requires
        0 <= k <= shape.len(),
        forall|d: int| 0 <= d < shape.len() ==> shape[d] > 0,
    ensures
        1 <= shape_size(shape.take(k)) <= shape_size(shape),
    decreases shape.len() - k,
{
    if k == shape.len() {
        assert(shape.take(k) =~= shape);
        lemma_size_positive(shape);
    } else {
        lemma_size_of_prefix_bound(shape, k + 1);
        lemma_size_of_prefix_step(shape, k);
        assert(1 <= shape_size(shape.take(k)) <= shape_size(shape.take(k + 1))) by (nonlinear_arith)
            requires
                shape_size(shape.take(k + 1)) == shape_size(shape.take(k)) * (shape[k] as nat),
                shape[k] > 0,
                1 <= shape_size(shape.take(k + 1)),
        ;
    }
}

/// Without an empty axis, a shape has positive size.
proof fn lemma_size_positive(shape: Seq<usize>)
    requires
        forall|d: int| 0 <= d < shape.len() ==> shape[d] > 0,
    ensures
        shape_size(shape) >= 1,
    decreases shape.len(),
{
    if shape.len() > 0 {
        lemma_size_positive(shape.drop_last());
        assert(shape_size(shape) >= 1) by (nonlinear_arith)
            requires
                shape_size(shape) == shape_size(shape.drop_last()) * (shape.last() as nat),
                shape_size(shape.drop_last()) >= 1,
                shape.last() > 0,
        ;
    }
}

/// An array that is not empty has no empty array among those whose shape
/// is a suffix of its own.
pub proof fn lemma_suffix_not_empty(short: Seq<usize>, long: Seq<usize>)
    requires
        is_suffix(short, long),
        shape_size(long) > 0,
    ensures
        shape_size(short) > 0,
{
    if forall|d: int| 0 <= d < short.len() ==> short[d] > 0 {
        lemma_size_positive(short);
    } else {
        let d = choose|d: int| 0 <= d < short.len() && !(short[d] > 0);
        let lead = long.len() - short.len();
        lemma_size_with_empty_axis(long, lead + d);
    }
}

/// The size of `shape`, or `None` where it does not fit in `usize`.
pub fn checked_shape_size(shape: &[usize]) -> (r: Option<usize>)
    ensures
        r == if shape_size(shape@) <= usize::MAX {
            Some(shape_size(shape@) as usize)
        } else {
            None
        },
{
    let mut d: usize = 0;
    while d < shape.len()
        invariant
            d <= shape.len(),
            forall|j: int| 0 <= j < d ==> shape@[j] > 0,
        decreases shape.len() - d,
    {
        if shape[d] == 0 {
            proof {
                lemma_size_with_empty_axis(shape@, d as int);
            }
            return Some(0);
        }
        d += 1;
    }
    let mut acc: usize = 1;
    let mut k: usize = 0;
    while k < shape.len()
        invariant
            k <= shape.len(),
            forall|j: int| 0 <= j < shape.len() ==> shape@[j] > 0,
            acc == shape_size(shape@.take(k as int)),
        decreases shape.len() - k,
    {
        proof {
            lemma_size_of_prefix_step(shape@, k as int);
            lemma_size_of_prefix_bound(shape@, k + 1);
        }
        match acc.checked_mul(shape[k]) {
            Some(next) => {
                acc = next;
            },
            None => {
                return None;
            },
        }
        k += 1;
    }
    proof {
        assert(shape@.take(k as int) =~= shape@);
    }
    Some(acc)
}

/// Whether `short` equals the trailing axes of `long`.
pub fn is_shape_suffix(short: &[usize], long: &[usize]) -> (r: bool)
    ensures
        r == is_suffix(short@, long@),
{
    if short.len() > long.len() {
        return false;
    }
    let lead: usize = long.len() - short.len();
    let mut d: usize = 0;
    while d < short.len()
        invariant
            d <= short.len(),
            lead + short.len() == long.len(),
            forall|j: int| 0 <= j < d ==> short@[j] == long@[lead + j],
        decreases short.len() - d,
    {
        if short[d] != long[lead + d] {
            return false;
        }
        d += 1;
    }
    proof {
        assert(long@.subrange(lead as int, long.len() as int) =~= short@);
    }
    true
}

/// The positions in bounds of a shape, in row-major order: the position at
/// place `k` is the one whose flat offset is `k`.
pub open spec fn positions(shape: Seq<usize>) -> Seq<Seq<usize>> {
    Seq::new(shape_size(shape), |k: int| unflatten(shape, k))
}

/// The adaptor that `Itertools::multi_cartesian_product` returns.
#[verifier::external_type_specification]
#[verifier::external_body]
#[verifier::reject_recursive_types(I)]
pub struct ExMultiProduct<I>(itertools::structs::MultiProduct<I>) where
    I: Iterator + Clone,
    I::Item: Clone,
;

/// The tuples that a product of ranges has still to yield, in order.
pub uninterp spec fn yet_to_yield(product: itertools::structs::MultiProduct<Range<usize>>) -> Seq<
    Seq<usize>,
>;

/// `Itertools::multi_cartesian_product` over the ranges `0..w` of the given
/// extents. The adaptor yields the tuples of the product in lexicographic
/// order, the last range cycling fastest, and one empty tuple for no ranges
/// at all: the tuple at place `k` holds the mixed-radix digits of `k`.
#[verifier::external_body]
fn product_of_ranges(range: &[usize]) -> (r: itertools::structs::MultiProduct<Range<usize>>)
    ensures
        yet_to_yield(r) == positions(range@),
{
    range.iter().map(|&w| 0..w).multi_cartesian_product()
}

/// `Iterator::next` of the adaptor: the first of the tuples that it has
/// still to yield, which it then has no longer to yield, or nothing where
/// none is left. The adaptor is fused.
#[verifier::external_body]
fn next_of_product(product: &mut itertools::structs::MultiProduct<Range<usize>>) -> (r: Option<
    Vec<usize>,
>)
    ensures
        match r {
            Some(tuple) => yet_to_yield(*old(product)).len() > 0 && tuple@ == yet_to_yield(
                *old(product),
            )[0] && yet_to_yield(*final(product)) == yet_to_yield(*old(product)).drop_first(),
            None => yet_to_yield(*old(product)).len() == 0 && yet_to_yield(*final(product))
                == yet_to_yield(*old(product)),
        },
{
    product.next()
}

/// The odometer of a shape: it yields every position in bounds, one after
/// the other, in row-major order.
pub struct Odometer {
    product: itertools::structs::MultiProduct<Range<usize>>,
}

impl Odometer {
    /// The positions that the odometer has still to yield, in order.
    pub closed spec fn remaining(&self) -> Seq<Seq<usize>> {
        yet_to_yield(self.product)
    }

    /// The next position, or nothing where every position has been
    /// yielded.
    pub fn next(&mut self) -> (r: Option<Vec<usize>>)
        ensures
            match r {
                Some(index) => old(self).remaining().len() > 0 && index@ == old(
                    self,
                ).remaining()[0] && final(self).remaining() == old(self).remaining().drop_first(),
                None => old(self).remaining().len() == 0 && final(self).remaining() == old(
                    self,
                ).remaining(),
            },
    {
        next_of_product(&mut self.product)
    }
}

/// The odometer of a shape, before its first position.
pub fn odometer(range: &[usize]) -> (r: Odometer)
    ensures
        r.remaining() == positions(range@),
{
    Odometer { product: product_of_ranges(range) }
}

/// The position at place `k` of a shape is in bounds and has the flat
/// offset `k`.
pub proof fn lemma_positions(shape: Seq<usize>, k: int)
    requires
        0 <= k < positions(shape).len(),
    ensures
        positions(shape).len() == shape_size(shape),
        in_bounds(shape, positions(shape)[k]),
        flat_index(shape, positions(shape)[k]) == k,
{
    lemma_flat_index_of_unflatten(shape, k);
}

} // verus!
