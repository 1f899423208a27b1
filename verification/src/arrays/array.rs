//! Arrays of the three kinds.

use crate::arrays::atom::{Atom, Kind};
use crate::arrays::decimal::Decimal;
use crate::arrays::generic_array::GenericArray;
use crate::arrays::IntegerElt;
use vstd::prelude::*;
use vstd::std_specs::convert::FromSpecImpl;

verus! {

/// The elements of a value of one kind, in row-major order.
pub enum Elements {
    Boolean(Seq<bool>),
    Integer(Seq<IntegerElt>),
    Decimal(Seq<Decimal>),
}

impl Elements {
    /// The kind of the elements.
    pub open spec fn kind(self) -> Kind {
        match self {
            Elements::Boolean(_) => Kind::Boolean,
            Elements::Integer(_) => Kind::Integer,
            Elements::Decimal(_) => Kind::Decimal,
        }
    }

    /// The number of elements.
    pub open spec fn len(self) -> nat {
        match self {
            Elements::Boolean(s) => s.len(),
            Elements::Integer(s) => s.len(),
            Elements::Decimal(s) => s.len(),
        }
    }

    /// The element at place `k`, as a scalar.
    pub open spec fn at(self, k: int) -> Atom {
        match self {
            Elements::Boolean(s) => Atom::Boolean(s[k]),
            Elements::Integer(s) => Atom::Integer(s[k]),
            Elements::Decimal(s) => Atom::Decimal(s[k]),
        }
    }
}

/// An array of one of the three kinds.
#[derive(Debug)]
pub enum Array {
    Boolean(GenericArray<bool>),
    Integer(GenericArray<IntegerElt>),
    Decimal(GenericArray<Decimal>),
}

impl Array {
    /// The kind of the array's elements.
    pub open spec fn spec_kind(&self) -> Kind {
        match *self {
            Array::Boolean(_) => Kind::Boolean,
            Array::Integer(_) => Kind::Integer,
            Array::Decimal(_) => Kind::Decimal,
        }
    }

    /// The kind of the array's elements.
    #[verifier::when_used_as_spec(spec_kind)]
    pub fn kind(&self) -> (r: Kind)
        ensures
            r == self.spec_kind(),
    {
        match self {
            Array::Boolean(_) => Kind::Boolean,
            Array::Integer(_) => Kind::Integer,
            Array::Decimal(_) => Kind::Decimal,
        }
    }

    /// The array's shape.
    pub open spec fn shape_view(&self) -> Seq<usize> {
        match *self {
            Array::Boolean(b) => b@.shape,
            Array::Integer(i) => i@.shape,
            Array::Decimal(d) => d@.shape,
        }
    }

    /// The array's elements in row-major order.
    pub open spec fn elements(&self) -> Elements {
        match *self {
            Array::Boolean(b) => Elements::Boolean(b@.data),
            Array::Integer(i) => Elements::Integer(i@.data),
            Array::Decimal(d) => Elements::Decimal(d@.data),
        }
    }

    /// The extents of the axes, outermost first.
    pub fn shape(&self) -> (r: &[usize])
        ensures
            r@ == self.shape_view(),
    {
        match self {
            Array::Boolean(b) => b.shape(),
            Array::Integer(i) => i.shape(),
            Array::Decimal(d) => d.shape(),
        }
    }

    /// The number of axes.
    pub fn rank(&self) -> (r: usize)
        ensures
            r == self.shape_view().len(),
    {
        match self {
            Array::Boolean(b) => b.rank(),
            Array::Integer(i) => i.rank(),
            Array::Decimal(d) => d.rank(),
        }
    }
}

impl Clone for Array {
    /// A copy of the array.
    fn clone(&self) -> (r: Self)
        ensures
            r.shape_view() == self.shape_view(),
            r.elements() == self.elements(),
    {
        match self {
            Array::Boolean(b) => Array::Boolean(b.clone()),
            Array::Integer(i) => Array::Integer(i.clone()),
            Array::Decimal(d) => Array::Decimal(d.clone()),
        }
    }
}

impl From<GenericArray<bool>> for Array {
    fn from(w: GenericArray<bool>) -> (r: Self) {
        Array::Boolean(w)
    }
}

impl FromSpecImpl<GenericArray<bool>> for Array {
    open spec fn obeys_from_spec() -> bool {
        true
    }

    open spec fn from_spec(w: GenericArray<bool>) -> Self {
        Array::Boolean(w)
    }
}

impl From<GenericArray<IntegerElt>> for Array {
    fn from(w: GenericArray<IntegerElt>) -> (r: Self) {
        Array::Integer(w)
    }
}

impl FromSpecImpl<GenericArray<IntegerElt>> for Array {
    open spec fn obeys_from_spec() -> bool {
        true
    }

    open spec fn from_spec(w: GenericArray<IntegerElt>) -> Self {
        Array::Integer(w)
    }
}

impl From<GenericArray<Decimal>> for Array {
    fn from(w: GenericArray<Decimal>) -> (r: Self) {
        Array::Decimal(w)
    }
}

impl FromSpecImpl<GenericArray<Decimal>> for Array {
    open spec fn obeys_from_spec() -> bool {
        true
    }

    open spec fn from_spec(w: GenericArray<Decimal>) -> Self {
        Array::Decimal(w)
    }
}

} // verus!
