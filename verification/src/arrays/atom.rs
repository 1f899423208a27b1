//! Scalars of the three kinds.

use crate::arrays::decimal::Decimal;
use crate::arrays::IntegerElt;
use vstd::prelude::*;
use vstd::std_specs::convert::FromSpecImpl;

verus! {

/// The three kinds of element, in the order of promotion.
#[derive(Debug, Clone, Copy, PartialEq, Eq, Structural)]
pub enum Kind {
    Boolean,
    Integer,
    Decimal,
}

impl Kind {
    /// The place of the kind in the order of promotion: Boolean 0, Integer
    /// 1, Decimal 2.
    pub open spec fn spec_rank(self) -> u8 {
        match self {
            Kind::Boolean => 0,
            Kind::Integer => 1,
            Kind::Decimal => 2,
        }
    }

    /// The place of the kind in the order of promotion.
    #[verifier::when_used_as_spec(spec_rank)]
    pub fn rank(self) -> (r: u8)
        ensures
            r == self.spec_rank(),
    {
        match self {
            Kind::Boolean => 0,
            Kind::Integer => 1,
            Kind::Decimal => 2,
        }
    }

    /// The least kind to which both kinds can be promoted: the one of
    /// greater rank.
    pub open spec fn spec_join(self, other: Kind) -> Kind {
        if self.spec_rank() >= other.spec_rank() {
            self
        } else {
            other
        }
    }

    /// The least kind to which both kinds can be promoted.
    #[verifier::when_used_as_spec(spec_join)]
    pub fn join(self, other: Kind) -> (r: Kind)
        ensures
            r == self.spec_join(other),
    {
        if self.rank() >= other.rank() {
            self
        } else {
            other
        }
    }
}

/// The join of two kinds is their least upper bound in the order of
/// promotion: each of the two can be promoted to it, and it can be promoted
/// to every kind to which both can. It does not depend on the order of the
/// two.
pub proof fn join_is_least_upper_bound(a: Kind, b: Kind, c: Kind)
    ensures
        a.spec_rank() <= a.spec_join(b).spec_rank(),
        b.spec_rank() <= a.spec_join(b).spec_rank(),
        a.spec_rank() <= c.spec_rank() && b.spec_rank() <= c.spec_rank() ==> a.spec_join(
            b,
        ).spec_rank() <= c.spec_rank(),
        a.spec_join(b) == b.spec_join(a),
{
}

/// A scalar of one of the three kinds.
#[derive(Debug, Clone, Copy)]
pub enum Atom {
    Boolean(bool),
    Integer(IntegerElt),
    Decimal(Decimal),
}

impl Atom {
    /// The kind of the scalar.
    pub open spec fn spec_kind(&self) -> Kind {
        match self {
            Atom::Boolean(_) => Kind::Boolean,
            Atom::Integer(_) => Kind::Integer,
            Atom::Decimal(_) => Kind::Decimal,
        }
    }

    /// The kind of the scalar.
    #[verifier::when_used_as_spec(spec_kind)]
    pub fn kind(&self) -> (r: Kind)
        ensures
            r == self.spec_kind(),
    {
        match self {
            Atom::Boolean(_) => Kind::Boolean,
            Atom::Integer(_) => Kind::Integer,
            Atom::Decimal(_) => Kind::Decimal,
        }
    }
}

impl From<bool> for Atom {
    fn from(w: bool) -> (r: Self) {
        Atom::Boolean(w)
    }
}

impl FromSpecImpl<bool> for Atom {
    open spec fn obeys_from_spec() -> bool {
        true
    }

    open spec fn from_spec(w: bool) -> Self {
        Atom::Boolean(w)
    }
}

impl From<IntegerElt> for Atom {
    fn from(w: IntegerElt) -> (r: Self) {
        Atom::Integer(w)
    }
}

impl FromSpecImpl<IntegerElt> for Atom {
    open spec fn obeys_from_spec() -> bool {
        true
    }

    open spec fn from_spec(w: IntegerElt) -> Self {
        Atom::Integer(w)
    }
}

impl From<Decimal> for Atom {
    fn from(w: Decimal) -> (r: Self) {
        Atom::Decimal(w)
    }
}

impl FromSpecImpl<Decimal> for Atom {
    open spec fn obeys_from_spec() -> bool {
        true
    }

    open spec fn from_spec(w: Decimal) -> Self {
        Atom::Decimal(w)
    }
}

} // verus!
