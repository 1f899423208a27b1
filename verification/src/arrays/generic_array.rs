//! The dense, homogeneous, N-dimensional array.

use crate::arrays::shape::{
    checked_shape_size, flat_index, in_bounds, is_shape_suffix, joined_shape,
    lemma_flat_index_in_range, lemma_positions, lemma_suffix_flat_index, odometer, positions,
    shape_size, shapes_agree,
};
use crate::arrays::numeral::{numeral_value, parse_integer};
use crate::arrays::IntegerElt;
use crate::error::{LiteralParseError, ShapeMismatch};
use std::ops::{Add, Neg, Sub};
use vstd::arithmetic::div_mod::lemma_small_mod;
use vstd::prelude::*;
use vstd::std_specs::convert::TryFromSpecImpl;
use vstd::std_specs::ops::{AddSpec, NegSpec, SubSpec};

verus! {

/// What an array is: its shape, and its elements in row-major order.
pub struct ArrayView<T> {
    pub shape: Seq<usize>,
    pub data: Seq<T>,
}

/// A dense array of elements of one type. It holds as many elements as its
/// shape has positions, in row-major order.
#[derive(Debug)]
pub struct GenericArray<T: Copy> {
    shape: Vec<usize>,
    data: Vec<T>,
}

impl<T: Copy> View for GenericArray<T> {
    type V = ArrayView<T>;

    closed spec fn view(&self) -> ArrayView<T> {
        ArrayView { shape: self.shape@, data: self.data@ }
    }
}

impl<T: Copy> Clone for GenericArray<T> {
    /// A copy of the array: the same shape over the same elements.
    fn clone(&self) -> (r: Self)
        ensures
            r@ == self@,
    {
        proof {
            use_type_invariant(self);
        }
        let mut data: Vec<T> = Vec::new();
        let mut k: usize = 0;
        while k < self.data.len()
            invariant
                k <= self.data.len(),
                data@ == self.data@.take(k as int),
            decreases self.data.len() - k,
        {
            data.push(self.data[k]);
            k += 1;
        }
        proof {
            assert(self.data@.take(k as int) =~= self.data@);
        }
        let shape = self.shape.clone();
        GenericArray { shape, data }
    }
}

/// The flat offsets of all leading parts of `index` fit in `usize`, so that
/// the mixed-radix fold can be computed.
pub open spec fn flat_index_fits(shape: Seq<usize>, index: Seq<usize>) -> bool {
    forall|k: int|
        0 <= k <= shape.len() ==> #[trigger] flat_index(shape.take(k), index.take(k))
            <= usize::MAX
}

/// The flat offset that `index` names in an array of shape `shape`: the
/// mixed-radix fold, where the index has one component per axis and the fold
/// fits in `usize`.
pub open spec fn offset_of(shape: Seq<usize>, index: Seq<usize>) -> Option<usize> {
    if index.len() == shape.len() && flat_index_fits(shape, index) {
        Some(flat_index(shape, index) as usize)
    } else {
        None
    }
}

/// A position in bounds has an offset, and it lies below the size.
pub proof fn lemma_offset_of_in_bounds(shape: Seq<usize>, index: Seq<usize>)
    requires
        in_bounds(shape, index),
        shape_size(shape) <= usize::MAX,
    ensures
        offset_of(shape, index) == Some(flat_index(shape, index) as usize),
        0 <= flat_index(shape, index) < shape_size(shape),
{
    lemma_flat_index_in_range(shape, index);
    assert forall|k: int| 0 <= k <= shape.len() implies #[trigger] flat_index(
        shape.take(k),
        index.take(k),
    ) <= usize::MAX by {
        lemma_prefix_offset_bound(shape, index, k);
    }
}

/// For a position in bounds, the offset of a leading part is at most the
/// offset of the whole.
proof fn lemma_prefix_offset_bound(shape: Seq<usize>, index: Seq<usize>, k: int)
    requires
        in_bounds(shape, index),
        0 <= k <= shape.len(),
    ensures
        0 <= flat_index(shape.take(k), index.take(k)) <= flat_index(shape, index),
    decreases shape.len() - k,
{
    if k == shape.len() {
        assert(shape.take(k) =~= shape);
        assert(index.take(k) =~= index);
        lemma_flat_index_in_range(shape, index);
    } else {
        lemma_prefix_offset_bound(shape, index, k + 1);
        let s = shape.take(k + 1);
        let i = index.take(k + 1);
        assert(s.drop_last() =~= shape.take(k));
        assert(i.drop_last() =~= index.take(k));
        lemma_flat_index_in_range(shape.take(k), index.take(k));
        let f = flat_index(shape.take(k), index.take(k));
        assert(f <= f * (shape[k] as int) + (index[k] as int)) by (nonlinear_arith)
            requires
                0 <= f,
                0 <= index[k] < shape[k],
        ;
    }
}

/// How the elements of two arrays of agreeing shapes meet: one pair per
/// position of the longer shape, in row-major order. The shorter array
/// repeats along the leading axes of the longer one, so the element at place
/// `k` of the longer array meets the element at place `k` modulo its length
/// of the shorter one.
pub open spec fn paired<T, U>(a: ArrayView<T>, w: ArrayView<U>) -> Seq<(T, U)> {
    let n = if a.shape.len() >= w.shape.len() {
        a.data.len()
    } else {
        w.data.len()
    };
    Seq::new(n, |k: int| (a.data[k % (a.data.len() as int)], w.data[k % (w.data.len() as int)]))
}

impl<T: Copy> GenericArray<T> {
    /// The invariant of every array: one element per position of the shape.
    #[verifier::type_invariant]
    pub open spec fn well_formed(&self) -> bool {
        self@.data.len() == shape_size(self@.shape)
    }

    /// An array of the given shape over the given elements in row-major
    /// order, where there is one element per position; `None` otherwise.
    pub fn new(shape: Vec<usize>, data: Vec<T>) -> (r: Option<Self>)
        ensures
            r is Some <==> data@.len() == shape_size(shape@),
            r matches Some(a) ==> a@ == (ArrayView { shape: shape@, data: data@ }),
    {
        let len = data.len();
        match checked_shape_size(shape.as_slice()) {
            Some(n) => {
                if n == len {
                    Some(GenericArray { shape, data })
                } else {
                    None
                }
            },
            None => None,
        }
    }

    /// The flat offset of `index`: the mixed-radix fold over the axes,
    /// defined where the index has one component per axis. `None` also where
    /// the fold leaves the range of `usize`.
    pub fn get_index(&self, index: &[usize]) -> (r: Option<usize>)
        ensures
            r == offset_of(self@.shape, index@),
    {
        if index.len() != self.rank() {
            return None;
        }
        let mut acc: usize = 0;
        let mut k: usize = 0;
        while k < index.len()
            invariant
                k <= index.len(),
                index.len() == self.shape.len(),
                acc == flat_index(self.shape@.take(k as int), index@.take(k as int)),
                forall|j: int|
                    0 <= j <= k ==> #[trigger] flat_index(self.shape@.take(j), index@.take(j))
                        <= usize::MAX,
            decreases index.len() - k,
        {
            proof {
                assert(self.shape@.take(k + 1).drop_last() =~= self.shape@.take(k as int));
                assert(index@.take(k + 1).drop_last() =~= index@.take(k as int));
                assert(flat_index(self.shape@.take(k + 1), index@.take(k + 1)) == acc
                    * self.shape@[k as int] + index@[k as int]);
            }
            let scaled = match acc.checked_mul(self.shape[k]) {
                Some(v) => v,
                None => {
                    return None;
                },
            };
            acc = match scaled.checked_add(index[k]) {
                Some(v) => v,
                None => {
                    return None;
                },
            };
            k += 1;
        }
        proof {
            assert(self.shape@.take(k as int) =~= self.shape@);
            assert(index@.take(k as int) =~= index@);
        }
        Some(acc)
    }

    /// The element at `index`, where the index has an offset and the offset
    /// lies within the array.
    pub fn get(&self, index: &[usize]) -> (r: Option<T>)
        ensures
            r == match offset_of(self@.shape, index@) {
                Some(i) if i < self@.data.len() => Some(self@.data[i as int]),
                _ => None,
            },
    {
        match self.get_index(index) {
            Some(i) => {
                if i < self.data.len() {
                    Some(self.data[i])
                } else {
                    None
                }
            },
            None => None,
        }
    }

    /// The element at `index`, to be changed in place, where the index has
    /// an offset and the offset lies within the array. Whatever is stored
    /// through the reference replaces that element; nothing else changes.
    pub fn get_mut(&mut self, index: &[usize]) -> (r: Option<&mut T>)
        ensures
            match r {
                Some(element) => offset_of(old(self)@.shape, index@) matches Some(i) && i < old(
                    self,
                )@.data.len() && *element == old(self)@.data[i as int] && final(self)@ == (
                ArrayView {
                    shape: old(self)@.shape,
                    data: old(self)@.data.update(i as int, *final(element)),
                }),
                None => !(offset_of(old(self)@.shape, index@) matches Some(i) && i < old(
                    self,
                )@.data.len()) && final(self)@ == old(self)@,
            },
    {
        proof {
            use_type_invariant(&*self);
        }
        match self.get_index(index) {
            Some(i) => {
                if i < self.data.len() {
                    Some(&mut self.data[i])
                } else {
                    None
                }
            },
            None => None,
        }
    }

    /// The array of the same shape whose elements are those of `self` under
    /// `f`.
    pub fn map<F, U>(self, f: F) -> (r: GenericArray<U>) where F: Fn(T) -> U, U: Copy
        requires
            forall|k: int| 0 <= k < self@.data.len() ==> f.requires((#[trigger] self@.data[k],)),
        ensures
            self.well_formed(),
            r@.shape == self@.shape,
            r@.data.len() == self@.data.len(),
            forall|k: int|
                0 <= k < self@.data.len() ==> f.ensures((self@.data[k],), #[trigger] r@.data[k]),
    {
        proof {
            use_type_invariant(&self);
        }
        let mut data: Vec<U> = Vec::new();
        let mut k: usize = 0;
        while k < self.data.len()
            invariant
                k <= self.data.len(),
                data.len() == k,
                forall|j: int| 0 <= j < self@.data.len() ==> f.requires((#[trigger] self@.data[j],)),
                forall|j: int| 0 <= j < k ==> f.ensures((self@.data[j],), #[trigger] data@[j]),
            decreases self.data.len() - k,
        {
            assert(f.requires((self@.data[k as int],)));
            data.push(f(self.data[k]));
            k += 1;
        }
        GenericArray { shape: self.shape, data }
    }

    /// The array of the same shape that pairs every element of `self`, on
    /// the left, with the scalar `w`, on the right, under `f`.
    pub fn atom_map_right<F, U, V>(self, w: U, f: F) -> (r: GenericArray<V>) where
        F: Fn(T, U) -> V,
        U: Copy,
        V: Copy,

        requires
            forall|k: int| 0 <= k < self@.data.len() ==> f.requires((#[trigger] self@.data[k], w)),
        ensures
            r@.shape == self@.shape,
            r@.data.len() == self@.data.len(),
            forall|k: int|
                0 <= k < self@.data.len() ==> f.ensures((self@.data[k], w), #[trigger] r@.data[k]),
    {
        proof {
            use_type_invariant(&self);
        }
        let mut data: Vec<V> = Vec::new();
        let mut k: usize = 0;
        while k < self.data.len()
            invariant
                k <= self.data.len(),
                data.len() == k,
                forall|j: int|
                    0 <= j < self@.data.len() ==> f.requires((#[trigger] self@.data[j], w)),
                forall|j: int| 0 <= j < k ==> f.ensures((self@.data[j], w), #[trigger] data@[j]),
            decreases self.data.len() - k,
        {
            data.push(f(self.data[k], w));
            k += 1;
        }
        GenericArray { shape: self.shape, data }
    }

    /// The array of the same shape that pairs the scalar `a`, on the left,
    /// with every element of `self`, on the right, under `f`.
    pub fn atom_map_left<F, U, V>(self, a: U, f: F) -> (r: GenericArray<V>) where
        F: Fn(U, T) -> V,
        U: Copy,
        V: Copy,

        requires
            forall|k: int| 0 <= k < self@.data.len() ==> f.requires((a, #[trigger] self@.data[k])),
        ensures
            r@.shape == self@.shape,
            r@.data.len() == self@.data.len(),
            forall|k: int|
                0 <= k < self@.data.len() ==> f.ensures((a, self@.data[k]), #[trigger] r@.data[k]),
    {
        proof {
            use_type_invariant(&self);
        }
        let mut data: Vec<V> = Vec::new();
        let mut k: usize = 0;
        while k < self.data.len()
            invariant
                k <= self.data.len(),
                data.len() == k,
                forall|j: int|
                    0 <= j < self@.data.len() ==> f.requires((a, #[trigger] self@.data[j])),
                forall|j: int| 0 <= j < k ==> f.ensures((a, self@.data[j]), #[trigger] data@[j]),
            decreases self.data.len() - k,
        {
            data.push(f(a, self.data[k]));
            k += 1;
        }
        GenericArray { shape: self.shape, data }
    }

    /// The elementwise combination of two arrays under `f`, by trailing-axis
    /// agreement. Where the shapes agree, the result has the longer shape,
    /// and its element at each position is `f` of the pair that meets there
    /// (see `paired`). Where they do not, the failure names both shapes.
    pub fn agreement_map<F, U, V>(self, other: GenericArray<U>, f: F) -> (r: Result<
        GenericArray<V>,
        ShapeMismatch,
    >) where F: Fn(T, U) -> V, U: Copy, V: Copy
        requires
            shapes_agree(self@.shape, other@.shape) ==> forall|k: int|
                0 <= k < paired(self@, other@).len() ==> f.requires(
                    #[trigger] paired(self@, other@)[k],
                ),
        ensures
            r is Ok <==> shapes_agree(self@.shape, other@.shape),
            r matches Ok(a) ==> {
                &&& a@.shape == joined_shape(self@.shape, other@.shape)
                &&& a@.data.len() == paired(self@, other@).len()
                &&& forall|k: int|
                    0 <= k < a@.data.len() ==> f.ensures(
                        paired(self@, other@)[k],
                        #[trigger] a@.data[k],
                    )
            },
            r matches Err(e) ==> e.left@ == self@.shape && e.right@ == other@.shape,
    {
        if !self.agrees(&other) {
            return Err(ShapeMismatch { left: self.shape, right: other.shape });
        }
        proof {
            use_type_invariant(&self);
            use_type_invariant(&other);
        }
        let self_longer = self.rank() >= other.rank();
        let self_count = self.data.len();
        let other_count = other.data.len();
        let count: usize = if self_longer {
            self_count
        } else {
            other_count
        };
        let mut indices = if self_longer {
            odometer(self.shape.as_slice())
        } else {
            odometer(other.shape.as_slice())
        };
        let lead: usize = if self_longer {
            self.rank() - other.rank()
        } else {
            other.rank() - self.rank()
        };
        let ghost pairs = paired(self@, other@);
        let ghost long = joined_shape(self@.shape, other@.shape);
        let mut data: Vec<V> = Vec::new();
        let mut k: usize = 0;
        while k < count
            invariant
                k <= count,
                data.len() == k,
                self.well_formed(),
                other.well_formed(),
                shapes_agree(self@.shape, other@.shape),
                self_longer == (self@.shape.len() >= other@.shape.len()),
                pairs == paired(self@, other@),
                long == joined_shape(self@.shape, other@.shape),
                lead + (if self_longer {
                    other@.shape.len()
                } else {
                    self@.shape.len()
                }) == long.len(),
                count == pairs.len(),
                count == shape_size(long),
                self@.data.len() <= usize::MAX,
                other@.data.len() <= usize::MAX,
                indices.remaining() == positions(long).skip(k as int),
                forall|j: int| 0 <= j < pairs.len() ==> f.requires(#[trigger] pairs[j]),
                forall|j: int| 0 <= j < k ==> f.ensures(pairs[j], #[trigger] data@[j]),
            decreases count - k,
        {
            proof {
                lemma_positions(long, k as int);
            }
            let index = indices.next().unwrap();
            let full: &[usize] = index.as_slice();
            let tail: &[usize] = &full[lead..full.len()];
            proof {
                let short = if self_longer {
                    other@.shape
                } else {
                    self@.shape
                };
                assert(other@.shape.subrange(0, other@.shape.len() as int) =~= other@.shape);
                lemma_suffix_flat_index(short, long, full@);
                lemma_offset_of_in_bounds(long, full@);
                lemma_offset_of_in_bounds(short, tail@);
                lemma_small_mod(k as nat, shape_size(long));
            }
            let (a, w) = if self_longer {
                (self.get(full), other.get(tail))
            } else {
                (self.get(tail), other.get(full))
            };
            assert(pairs[k as int] == (a.unwrap(), w.unwrap()));
            data.push(f(a.unwrap(), w.unwrap()));
            k += 1;
        }
        let shape = if self_longer {
            self.shape
        } else {
            other.shape
        };
        Ok(GenericArray { shape, data })
    }

    /// The array of the same shape whose elements are those of `self`
    /// plus `atom`.
    pub fn add_atom<U, V>(self, atom: U) -> (r: GenericArray<V>) where
        T: Add<U, Output = V>,
        U: Copy,
        V: Copy,

        requires
            forall|k: int| 0 <= k < self@.data.len() ==> (#[trigger] self@.data[k]).add_req(atom),
        ensures
            r@.shape == self@.shape,
            r@.data.len() == self@.data.len(),
            T::obeys_add_spec() ==> forall|k: int|
                0 <= k < self@.data.len() ==> #[trigger] r@.data[k] == self@.data[k].add_spec(
                    atom,
                ),
    {
        let plus_atom = |w: T| -> (v: V)
            requires
                w.add_req(atom),
            ensures
                T::obeys_add_spec() ==> v == w.add_spec(atom),
            { w + atom };
        self.map(plus_atom)
    }

    /// The elementwise sum of two arrays of agreeing shapes (see `paired`);
    /// `None` where the shapes do not agree.
    pub fn add(self, other: GenericArray<T>) -> (r: Option<GenericArray<T>>) where
        T: Add<Output = T>,

        requires
            shapes_agree(self@.shape, other@.shape) ==> forall|k: int|
                0 <= k < paired(self@, other@).len() ==> (#[trigger] paired(
                    self@,
                    other@,
                )[k]).0.add_req(paired(self@, other@)[k].1),
        ensures
            r is Some <==> shapes_agree(self@.shape, other@.shape),
            r matches Some(a) ==> {
                &&& a@.shape == joined_shape(self@.shape, other@.shape)
                &&& a@.data.len() == paired(self@, other@).len()
                &&& T::obeys_add_spec() ==> forall|k: int|
                    0 <= k < a@.data.len() ==> #[trigger] a@.data[k] == paired(
                        self@,
                        other@,
                    )[k].0.add_spec(paired(self@, other@)[k].1)
            },
    {
        let plus = |a: T, w: T| -> (v: T)
            requires
                a.add_req(w),
            ensures
                T::obeys_add_spec() ==> v == a.add_spec(w),
            { a + w };
        match self.agreement_map(other, plus) {
            Ok(a) => Some(a),
            Err(_) => None,
        }
    }

    /// The array of the same shape whose elements are those of `self`
    /// minus `atom`.
    pub fn sub_atom<U, V>(self, atom: U) -> (r: GenericArray<V>) where
        T: Sub<U, Output = V>,
        U: Copy,
        V: Copy,

        requires
            forall|k: int| 0 <= k < self@.data.len() ==> (#[trigger] self@.data[k]).sub_req(atom),
        ensures
            r@.shape == self@.shape,
            r@.data.len() == self@.data.len(),
            T::obeys_sub_spec() ==> forall|k: int|
                0 <= k < self@.data.len() ==> #[trigger] r@.data[k] == self@.data[k].sub_spec(
                    atom,
                ),
    {
        let minus_atom = |w: T| -> (v: V)
            requires
                w.sub_req(atom),
            ensures
                T::obeys_sub_spec() ==> v == w.sub_spec(atom),
            { w - atom };
        self.map(minus_atom)
    }

    /// The elementwise difference of two arrays of agreeing shapes (see
    /// `paired`), `self` on the left; `None` where the shapes do not agree.
    pub fn sub(self, other: GenericArray<T>) -> (r: Option<GenericArray<T>>) where
        T: Sub<Output = T>,

        requires
            shapes_agree(self@.shape, other@.shape) ==> forall|k: int|
                0 <= k < paired(self@, other@).len() ==> (#[trigger] paired(
                    self@,
                    other@,
                )[k]).0.sub_req(paired(self@, other@)[k].1),
        ensures
            r is Some <==> shapes_agree(self@.shape, other@.shape),
            r matches Some(a) ==> {
                &&& a@.shape == joined_shape(self@.shape, other@.shape)
                &&& a@.data.len() == paired(self@, other@).len()
                &&& T::obeys_sub_spec() ==> forall|k: int|
                    0 <= k < a@.data.len() ==> #[trigger] a@.data[k] == paired(
                        self@,
                        other@,
                    )[k].0.sub_spec(paired(self@, other@)[k].1)
            },
    {
        let minus = |a: T, w: T| -> (v: T)
            requires
                a.sub_req(w),
            ensures
                T::obeys_sub_spec() ==> v == a.sub_spec(w),
            { a - w };
        match self.agreement_map(other, minus) {
            Ok(a) => Some(a),
            Err(_) => None,
        }
    }

    /// The array of the same shape whose elements are those of `self`,
    /// negated.
    pub fn neg(self) -> (r: Self) where T: Neg<Output = T>
        requires
            forall|k: int| 0 <= k < self@.data.len() ==> (#[trigger] self@.data[k]).neg_req(),
        ensures
            r@.shape == self@.shape,
            r@.data.len() == self@.data.len(),
            T::obeys_neg_spec() ==> forall|k: int|
                0 <= k < self@.data.len() ==> #[trigger] r@.data[k] == self@.data[k].neg_spec(),
    {
        let negate = |w: T| -> (v: T)
            requires
                w.neg_req(),
            ensures
                T::obeys_neg_spec() ==> v == w.neg_spec(),
            { w.neg() };
        self.map(negate)
    }

    /// Trailing-axis agreement: the shorter of the two shapes equals the
    /// trailing axes of the longer one.
    pub fn agrees<U: Copy>(&self, other: &GenericArray<U>) -> (r: bool)
        ensures
            r == shapes_agree(self@.shape, other@.shape),
    {
        is_shape_suffix(self.shape.as_slice(), other.shape.as_slice()) || is_shape_suffix(
            other.shape.as_slice(),
            self.shape.as_slice(),
        )
    }

    /// The number of axes.
    #[inline]
    pub fn rank(&self) -> (r: usize)
        ensures
            r == self@.shape.len(),
    {
        self.shape.len()
    }

    /// The extents of the axes, outermost first.
    #[inline]
    pub fn shape(&self) -> (r: &[usize])
        ensures
            r@ == self@.shape,
    {
        self.shape.as_slice()
    }

    /// The elements in row-major order.
    #[inline]
    pub fn raw_data(&self) -> (r: &[T])
        ensures
            r@ == self@.data,
    {
        self.data.as_slice()
    }
}

/// The extents that a sequence of integers names.
pub open spec fn extents_of(shape: Seq<IntegerElt>) -> Seq<usize> {
    shape.map_values(|e: IntegerElt| e as usize)
}

/// A sequence of integers names a shape whose positions can be counted: no
/// extent is negative or beyond `usize`, and the number of positions fits in
/// `usize` and in an integer element.
pub open spec fn counts_positions(shape: Seq<IntegerElt>) -> bool {
    &&& forall|d: int| 0 <= d < shape.len() ==> 0 <= #[trigger] shape[d] <= usize::MAX
    &&& shape_size(extents_of(shape)) <= usize::MAX
    &&& shape_size(extents_of(shape)) <= IntegerElt::MAX
}

/// The extents that `shape` names, where it names a shape whose positions
/// can be counted.
pub fn checked_extents(shape: &[IntegerElt]) -> (r: Option<Vec<usize>>)
    ensures
        r is Some <==> counts_positions(shape@),
        r matches Some(v) ==> v@ == extents_of(shape@),
{
    let mut extents: Vec<usize> = Vec::new();
    let mut d: usize = 0;
    while d < shape.len()
        invariant
            d <= shape.len(),
            extents@ == extents_of(shape@.take(d as int)),
            forall|j: int| 0 <= j < d ==> 0 <= #[trigger] shape@[j] <= usize::MAX,
        decreases shape.len() - d,
    {
        let e = shape[d];
        if e < 0 || e as u64 > usize::MAX as u64 {
            return None;
        }
        extents.push(e as usize);
        d += 1;
    }
    proof {
        assert(shape@.take(d as int) =~= shape@);
    }
    match checked_shape_size(extents.as_slice()) {
        Some(n) => {
            if n as u64 <= 0x7fff_ffff_ffff_ffff {
                Some(extents)
            } else {
                None
            }
        },
        None => None,
    }
}

/// The absolute value of an integer, as `num_traits::abs` computes it: the
/// integer itself where it is not negative, and its negation where it is.
/// The negation of the least integer overflows, so that input is left out.
#[verifier::external_body]
fn integer_abs(w: IntegerElt) -> (r: IntegerElt)
    requires
        w != IntegerElt::MIN,
    ensures
        r == if w < 0 {
            -w
        } else {
            w as int
        },
{
    num_traits::abs(w)
}

impl GenericArray<IntegerElt> {
    /// The array of the same shape whose elements are the absolute values
    /// of those of `self`.
    pub fn abs(self) -> (r: Self)
        requires
            forall|k: int| 0 <= k < self@.data.len() ==> #[trigger] self@.data[k] != IntegerElt::MIN,
        ensures
            r@.shape == self@.shape,
            r@.data.len() == self@.data.len(),
            forall|k: int|
                0 <= k < self@.data.len() ==> #[trigger] r@.data[k] == if self@.data[k] < 0 {
                    -self@.data[k]
                } else {
                    self@.data[k] as int
                },
    {
        let absolute = |w: IntegerElt| -> (v: IntegerElt)
            requires
                w != IntegerElt::MIN,
            ensures
                v == if w < 0 {
                    -w
                } else {
                    w as int
                },
            { integer_abs(w) };
        self.map(absolute)
    }

    /// The array of the named shape that holds the integers from 0 on in
    /// row-major order.
    pub fn iota(shape: &[IntegerElt]) -> (r: Self)
        requires
            counts_positions(shape@),
        ensures
            r@.shape == extents_of(shape@),
            r@.data == Seq::new(shape_size(extents_of(shape@)), |k: int| k as IntegerElt),
    {
        let extents = checked_extents(shape).unwrap();
        let n = checked_shape_size(extents.as_slice()).unwrap();
        let mut data: Vec<IntegerElt> = Vec::new();
        let mut k: usize = 0;
        while k < n
            invariant
                k <= n,
                n <= IntegerElt::MAX,
                data@ == Seq::new(k as nat, |j: int| j as IntegerElt),
            decreases n - k,
        {
            data.push(k as IntegerElt);
            k += 1;
        }
        GenericArray { shape: extents, data }
    }
}

impl TryFrom<&[String]> for GenericArray<IntegerElt> {
    type Error = LiteralParseError;

    /// The vector of the integers that the texts stand for: an array of
    /// one axis with one element per text. Where a text is no numeral, the
    /// failure holds the first such text and its fault.
    fn try_from(value: &[String]) -> (r: Result<Self, Self::Error>)
        ensures
            match r {
                Ok(a) => a@.shape == seq![value@.len() as usize] && a@.data.len() == value@.len()
                    && forall|k: int|
                    0 <= k < value@.len() ==> numeral_value((#[trigger] value@[k])@) == Ok::<
                        IntegerElt,
                        crate::error::NumeralFault,
                    >(a@.data[k]),
                Err(e) => exists|k: int|
                    {
                        &&& 0 <= k < value@.len()
                        &&& e.text@ == (#[trigger] value@[k])@
                        &&& numeral_value(value@[k]@) == Err::<
                            IntegerElt,
                            crate::error::NumeralFault,
                        >(e.cause)
                        &&& forall|j: int|
                            0 <= j < k ==> numeral_value((#[trigger] value@[j])@) is Ok
                    },
            },
    {
        let mut data: Vec<IntegerElt> = Vec::new();
        let mut k: usize = 0;
        while k < value.len()
            invariant
                k <= value.len(),
                data.len() == k,
                forall|j: int|
                    0 <= j < k ==> numeral_value((#[trigger] value@[j])@) == Ok::<
                        IntegerElt,
                        crate::error::NumeralFault,
                    >(data@[j]),
            decreases value.len() - k,
        {
            match parse_integer(value[k].as_str()) {
                Ok(w) => {
                    data.push(w);
                },
                Err(cause) => {
                    let text = value[k].clone();
                    return Err(LiteralParseError { text, cause });
                },
            }
            k += 1;
        }
        let mut shape: Vec<usize> = Vec::new();
        shape.push(value.len());
        proof {
            assert(shape_size(shape@) == value@.len()) by (nonlinear_arith)
                requires
                    shape_size(shape@) == shape_size(shape@.drop_last()) * (shape@.last() as nat),
                    shape_size(shape@.drop_last()) == 1,
                    shape@.last() == value@.len(),
            ;
        }
        Ok(GenericArray { shape, data })
    }
}

impl TryFromSpecImpl<&[String]> for GenericArray<IntegerElt> {
    open spec fn obeys_try_from_spec() -> bool {
        false
    }

    open spec fn try_from_spec(value: &[String]) -> Result<Self, Self::Error> {
        arbitrary()
    }
}

} // verus!
