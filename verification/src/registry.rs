//! The registry of verbs: which symbol names which verb.

use crate::arrays::decimal::Decimal;
use crate::arrays::noun::{Noun, NounView};
use crate::arrays::IntegerElt;
use crate::error::{Arity, UnknownVerb, VerbError};
use crate::primitives::{
    conjunction_outcome, difference_outcome, equality_outcome, iota_outcome, is_conjunction,
    joined_len, met, product_outcome, quotient_outcome, sum_outcome, truth_value,
};
use vstd::prelude::*;

verus! {

/// The verbs of one operand.
#[derive(Debug, Clone, Copy, PartialEq, Eq, Structural)]
pub enum Monad {
    /// The operand itself.
    Same,
    /// The integers from 0 on, in the shape that the operand names.
    Iota,
}

/// The verbs of two operands.
#[derive(Debug, Clone, Copy, PartialEq, Eq, Structural)]
pub enum Dyad {
    /// The right operand.
    SameW,
    /// The left operand.
    SameA,
    /// The sum.
    Add,
    /// The difference.
    Sub,
    /// The product.
    Mul,
    /// The quotient.
    Div,
    /// The conjunction.
    And,
    /// The equality.
    Eq,
}

/// The operations on decimals that the verbs need. The library computes
/// with truth values and integers itself, and leaves every computation with
/// decimals to these.
pub struct Kernels<C, P, M, T, Q, E, N> {
    /// The decimal that stands for an integer.
    pub to_decimal: C,
    /// The sum of two decimals.
    pub plus: P,
    /// The difference of two decimals, the first less the second.
    pub minus: M,
    /// The product of two decimals.
    pub times: T,
    /// The quotient of two decimals, the first by the second.
    pub divide: Q,
    /// Whether two decimals are equal.
    pub same: E,
    /// Whether a decimal is not zero.
    pub nonzero: N,
}

impl<C, P, M, T, Q, E, N> Kernels<C, P, M, T, Q, E, N> where
    C: Fn(IntegerElt) -> Decimal,
    P: Fn(Decimal, Decimal) -> Decimal,
    M: Fn(Decimal, Decimal) -> Decimal,
    T: Fn(Decimal, Decimal) -> Decimal,
    Q: Fn(Decimal, Decimal) -> Decimal,
    E: Fn(Decimal, Decimal) -> bool,
    N: Fn(Decimal) -> bool,
 {
    /// Every operation can be called on every argument.
    pub open spec fn total(&self) -> bool {
        &&& forall|x: IntegerElt| self.to_decimal.requires((x,))
        &&& forall|x: Decimal, y: Decimal| self.plus.requires((x, y))
        &&& forall|x: Decimal, y: Decimal| self.minus.requires((x, y))
        &&& forall|x: Decimal, y: Decimal| self.times.requires((x, y))
        &&& forall|x: Decimal, y: Decimal| self.divide.requires((x, y))
        &&& forall|x: Decimal, y: Decimal| self.same.requires((x, y))
        &&& forall|x: Decimal| self.nonzero.requires((x,))
    }
}

/// A conjunction under a borrowed test is a conjunction under the test.
proof fn lemma_conjunction_by_reference<N: Fn(Decimal) -> bool>(
    nonzero: &N,
    a: NounView,
    w: NounView,
    r: Result<Noun, VerbError>,
)
    requires
        conjunction_outcome(nonzero, a, w, r),
    ensures
        conjunction_outcome(*nonzero, a, w, r),
{
    if let Ok(n) = r {
        assert forall|k: int| 0 <= k < joined_len(a, w) implies is_conjunction(
            *nonzero,
            met(a, k),
            met(w, k),
            #[trigger] n@.elements.at(k),
        ) by {
            let x = met(a, k);
            let y = met(w, k);
            let v = n@.elements.at(k)->Boolean_0;
            let (bx, by) = choose|bx: bool, by: bool|
                #![trigger truth_value(nonzero, x, bx), truth_value(nonzero, y, by)]
                truth_value(nonzero, x, bx) && truth_value(nonzero, y, by) && v == (bx && by);
            assert(truth_value(*nonzero, x, bx));
            assert(truth_value(*nonzero, y, by));
        }
    }
}

impl Monad {
    /// What the verb may return for `w`.
    pub open spec fn outcome(self, w: NounView, r: Result<Noun, VerbError>) -> bool {
        match self {
            Monad::Same => r matches Ok(n) && n@ == w,
            Monad::Iota => iota_outcome(w, r),
        }
    }

    /// The verb, applied to `w`.
    pub fn apply(self, w: Noun) -> (r: Result<Noun, VerbError>)
        ensures
            self.outcome(w@, r),
    {
        match self {
            Monad::Same => crate::primitives::same(w),
            Monad::Iota => crate::primitives::iota(w),
        }
    }
}

impl Dyad {
    /// What the verb may return for `a` on the left and `w` on the right,
    /// with the given operations on decimals.
    pub open spec fn outcome<C, P, M, T, Q, E, N>(
        self,
        kernels: Kernels<C, P, M, T, Q, E, N>,
        a: NounView,
        w: NounView,
        r: Result<Noun, VerbError>,
    ) -> bool where
        C: Fn(IntegerElt) -> Decimal,
        P: Fn(Decimal, Decimal) -> Decimal,
        M: Fn(Decimal, Decimal) -> Decimal,
        T: Fn(Decimal, Decimal) -> Decimal,
        Q: Fn(Decimal, Decimal) -> Decimal,
        E: Fn(Decimal, Decimal) -> bool,
        N: Fn(Decimal) -> bool,
     {
        match self {
            Dyad::SameW => r matches Ok(n) && n@ == w,
            Dyad::SameA => r matches Ok(n) && n@ == a,
            Dyad::Add => sum_outcome(kernels.to_decimal, kernels.plus, a, w, r),
            Dyad::Sub => difference_outcome(kernels.to_decimal, kernels.minus, a, w, r),
            Dyad::Mul => product_outcome(kernels.to_decimal, kernels.times, a, w, r),
            Dyad::Div => quotient_outcome(kernels.to_decimal, kernels.divide, a, w, r),
            Dyad::And => conjunction_outcome(kernels.nonzero, a, w, r),
            Dyad::Eq => equality_outcome(kernels.to_decimal, kernels.same, a, w, r),
        }
    }

    /// The verb, applied to `a` on the left and `w` on the right, with the
    /// given operations on decimals.
    pub fn apply<C, P, M, T, Q, E, N>(
        self,
        a: Noun,
        w: Noun,
        kernels: &Kernels<C, P, M, T, Q, E, N>,
    ) -> (r: Result<Noun, VerbError>) where
        C: Fn(IntegerElt) -> Decimal,
        P: Fn(Decimal, Decimal) -> Decimal,
        M: Fn(Decimal, Decimal) -> Decimal,
        T: Fn(Decimal, Decimal) -> Decimal,
        Q: Fn(Decimal, Decimal) -> Decimal,
        E: Fn(Decimal, Decimal) -> bool,
        N: Fn(Decimal) -> bool,

        requires
            kernels.total(),
        ensures
            self.outcome(*kernels, a@, w@, r),
    {
        match self {
            Dyad::SameW => {
                let r = crate::primitives::same_w(a, w);
                assert(r matches Ok(n) && n@ == w@);
                r
            },
            Dyad::SameA => {
                let r = crate::primitives::same_a(a, w);
                assert(r matches Ok(n) && n@ == a@);
                r
            },
            Dyad::Add => {
                let r = crate::primitives::add(a, w, &kernels.to_decimal, &kernels.plus);
                assert(self.outcome(*kernels, a@, w@, r));
                r
            },
            Dyad::Sub => {
                let r = crate::primitives::sub(a, w, &kernels.to_decimal, &kernels.minus);
                assert(self.outcome(*kernels, a@, w@, r));
                r
            },
            Dyad::Mul => {
                let r = crate::primitives::mul(a, w, &kernels.to_decimal, &kernels.times);
                assert(self.outcome(*kernels, a@, w@, r));
                r
            },
            Dyad::Div => {
                let r = crate::primitives::div(a, w, &kernels.to_decimal, &kernels.divide);
                assert(self.outcome(*kernels, a@, w@, r));
                r
            },
            Dyad::And => {
                let r = crate::primitives::and(a, w, &kernels.nonzero);
                proof {
                    lemma_conjunction_by_reference(&kernels.nonzero, a@, w@, r);
                }
                r
            },
            Dyad::Eq => {
                let r = crate::primitives::eq(a, w, &kernels.to_decimal, &kernels.same);
                assert(self.outcome(*kernels, a@, w@, r));
                r
            },
        }
    }
}

/// What a symbol names: a verb of one operand, a verb of two, both, or
/// nothing.
#[derive(Debug, Clone, Copy, PartialEq, Eq, Structural)]
pub struct Verb {
    pub monad: Option<Monad>,
    pub dyad: Option<Dyad>,
}

/// What the entries of a registry give for a symbol: the verbs of the first
/// entry for it, and nothing where no entry is for it.
pub open spec fn named(entries: Seq<(Seq<char>, Verb)>, symbol: Seq<char>) -> Verb
    decreases entries.len(),
{
    if entries.len() == 0 {
        Verb { monad: None, dyad: None }
    } else if entries[0].0 == symbol {
        entries[0].1
    } else {
        named(entries.drop_first(), symbol)
    }
}

/// The entries of the standard registry.
pub open spec fn standard_entries() -> Seq<(Seq<char>, Verb)> {
    seq![
        ("]"@, Verb { monad: Some(Monad::Same), dyad: Some(Dyad::SameW) }),
        ("["@, Verb { monad: Some(Monad::Same), dyad: Some(Dyad::SameA) }),
        ("i."@, Verb { monad: Some(Monad::Iota), dyad: None }),
        ("+"@, Verb { monad: None, dyad: Some(Dyad::Add) }),
        ("-"@, Verb { monad: None, dyad: Some(Dyad::Sub) }),
        ("*"@, Verb { monad: None, dyad: Some(Dyad::Mul) }),
        ("%"@, Verb { monad: None, dyad: Some(Dyad::Div) }),
        ("*."@, Verb { monad: None, dyad: Some(Dyad::And) }),
        ("="@, Verb { monad: None, dyad: Some(Dyad::Eq) }),
    ]
}

/// A registry of verbs. It is built once and only read afterwards.
#[derive(Debug)]
pub struct Registry {
    entries: Vec<(String, Verb)>,
}

impl View for Registry {
    type V = Seq<(Seq<char>, Verb)>;

    closed spec fn view(&self) -> Seq<(Seq<char>, Verb)> {
        self.entries@.map_values(|e: (String, Verb)| (e.0@, e.1))
    }
}

impl Registry {
    /// The registry of the standard verbs: `]` and `[` for the operand
    /// itself, or the right and the left one of two, `i.` for iota, `+`,
    /// `-`, `*` and `%` for the four operations of arithmetic, `*.` for the
    /// conjunction and `=` for the equality.
    pub fn new() -> (r: Registry)
        ensures
            r@ == standard_entries(),
    {
        let mut entries: Vec<(String, Verb)> = Vec::new();
        entries.push(("]".to_owned(), Verb { monad: Some(Monad::Same), dyad: Some(Dyad::SameW) }));
        entries.push(("[".to_owned(), Verb { monad: Some(Monad::Same), dyad: Some(Dyad::SameA) }));
        entries.push(("i.".to_owned(), Verb { monad: Some(Monad::Iota), dyad: None }));
        entries.push(("+".to_owned(), Verb { monad: None, dyad: Some(Dyad::Add) }));
        entries.push(("-".to_owned(), Verb { monad: None, dyad: Some(Dyad::Sub) }));
        entries.push(("*".to_owned(), Verb { monad: None, dyad: Some(Dyad::Mul) }));
        entries.push(("%".to_owned(), Verb { monad: None, dyad: Some(Dyad::Div) }));
        entries.push(("*.".to_owned(), Verb { monad: None, dyad: Some(Dyad::And) }));
        entries.push(("=".to_owned(), Verb { monad: None, dyad: Some(Dyad::Eq) }));
        let r = Registry { entries };
        proof {
            assert(r@ =~= standard_entries());
        }
        r
    }

    /// What the symbol names.
    pub fn lookup(&self, symbol: &str) -> (r: Verb)
        ensures
            r == named(self@, symbol@),
    {
        let name = symbol.to_owned();
        let mut k: usize = 0;
        proof {
            assert(self@.skip(0) =~= self@);
        }
        while k < self.entries.len()
            invariant
                k <= self.entries.len(),
                name@ == symbol@,
                named(self@, symbol@) == named(self@.skip(k as int), symbol@),
            decreases self.entries.len() - k,
        {
            proof {
                assert(self@.skip(k as int)[0] == self@[k as int]);
                assert(self@.skip(k as int).drop_first() =~= self@.skip(k + 1));
            }
            if self.entries[k].0 == name {
                return self.entries[k].1;
            }
            k += 1;
        }
        Verb { monad: None, dyad: None }
    }

    /// The verb of one operand that the symbol names, or the failure that
    /// holds the symbol.
    pub fn monad(&self, symbol: &str) -> (r: Result<Monad, UnknownVerb>)
        ensures
            match r {
                Ok(m) => named(self@, symbol@).monad == Some(m),
                Err(e) => named(self@, symbol@).monad is None && e.symbol@ == symbol@ && e.arity
                    == Arity::Monadic,
            },
    {
        match self.lookup(symbol).monad {
            Some(m) => Ok(m),
            None => Err(UnknownVerb { symbol: symbol.to_owned(), arity: Arity::Monadic }),
        }
    }

    /// The verb of two operands that the symbol names, or the failure that
    /// holds the symbol.
    pub fn dyad(&self, symbol: &str) -> (r: Result<Dyad, UnknownVerb>)
        ensures
            match r {
                Ok(d) => named(self@, symbol@).dyad == Some(d),
                Err(e) => named(self@, symbol@).dyad is None && e.symbol@ == symbol@ && e.arity
                    == Arity::Dyadic,
            },
    {
        match self.lookup(symbol).dyad {
            Some(d) => Ok(d),
            None => Err(UnknownVerb { symbol: symbol.to_owned(), arity: Arity::Dyadic }),
        }
    }
}

} // verus!
