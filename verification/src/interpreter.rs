//! What the evaluator of a line needs from the core: the environment of
//! names, the operands that tokens stand for, and the evaluation of a line
//! of tokens from right to left.

use crate::arrays::array::{Array, Elements};
use crate::arrays::atom::Atom;
use crate::arrays::decimal::Decimal;
use crate::arrays::generic_array::GenericArray;
use crate::arrays::noun::{Noun, NounView};
use crate::arrays::numeral::{numeral_value, parse_integer};
use crate::arrays::IntegerElt;
use crate::error::{
    Arity, EvalError, LiteralParseError, NoNoun, NumeralFault, UnknownVerb, VerbError,
};
use crate::lexer::{Token, TokenView};
use crate::registry::{named, Kernels, Registry, Verb};
use vstd::prelude::*;

verus! {

/// What a name can be bound to.
#[derive(Debug)]
pub enum Variable {
    /// A value.
    Noun(Noun),
    /// The symbol of a verb.
    Verb(String),
}

/// The environment: the names that are bound, each to one variable.
#[derive(Debug)]
pub struct Environment {
    names: Vec<String>,
    values: Vec<Variable>,
}

impl View for Environment {
    type V = Map<Seq<char>, Variable>;

    closed spec fn view(&self) -> Map<Seq<char>, Variable> {
        Map::new(
            |name: Seq<char>| exists|k: int| 0 <= k < self.names@.len() && self.names@[k]@ == name,
            |name: Seq<char>|
                self.values@[choose|k: int| 0 <= k < self.names@.len() && self.names@[k]@ == name],
        )
    }
}

impl Environment {
    /// Every name has its variable, and no name stands twice.
    #[verifier::type_invariant]
    closed spec fn well_formed(&self) -> bool {
        &&& self.names@.len() == self.values@.len()
        &&& forall|i: int, j: int|
            0 <= i < j < self.names@.len() ==> self.names@[i]@ != self.names@[j]@
    }

    /// The environment in which no name is bound.
    pub fn new() -> (r: Environment)
        ensures
            r@ == Map::<Seq<char>, Variable>::empty(),
    {
        let r = Environment { names: Vec::new(), values: Vec::new() };
        proof {
            assert(r@ =~= Map::<Seq<char>, Variable>::empty());
        }
        r
    }

    /// Where the name stands, if it is bound.
    fn position(&self, name: &String) -> (r: Option<usize>)
        ensures
            match r {
                Some(k) => k < self.names@.len() && self.names@[k as int]@ == name@,
                None => forall|k: int| 0 <= k < self.names@.len() ==> self.names@[k]@ != name@,
            },
    {
        let mut k: usize = 0;
        while k < self.names.len()
            invariant
                k <= self.names.len(),
                forall|j: int| 0 <= j < k ==> self.names@[j]@ != name@,
            decreases self.names.len() - k,
        {
            if self.names[k] == *name {
                return Some(k);
            }
            k += 1;
        }
        None
    }

    /// The variable that the name is bound to, if it is bound.
    pub fn get(&self, name: &str) -> (r: Option<&Variable>)
        ensures
            match r {
                Some(v) => self@.contains_key(name@) && *v == self@[name@],
                None => !self@.contains_key(name@),
            },
    {
        proof {
            use_type_invariant(self);
        }
        let owned = name.to_owned();
        match self.position(&owned) {
            Some(k) => {
                proof {
                    let found = choose|j: int|
                        0 <= j < self.names@.len() && self.names@[j]@ == name@;
                    assert(found == k);
                }
                Some(&self.values[k])
            },
            None => None,
        }
    }

    /// Binds the name to the variable. An earlier binding of the name is
    /// replaced; every other name stays bound as it is.
    pub fn bind(&mut self, name: String, value: Variable)
        ensures
            final(self)@ == old(self)@.insert(name@, value),
    {
        proof {
            use_type_invariant(&*self);
        }
        let ghost before = self@;
        let position = self.position(&name);
        let mut taken = Environment::new();
        core::mem::swap(self, &mut taken);
        let Environment { names, values } = taken;
        let ghost old_names = names@;
        let ghost old_values = values@;
        let mut names = names;
        let mut values = values;
        match position {
            Some(k) => {
                values.set(k, value);
            },
            None => {
                names.push(name);
                values.push(value);
            },
        }
        *self = Environment { names, values };
        proof {
            let now = self@;
            let wanted = before.insert(name@, value);
            assert forall|key: Seq<char>| #[trigger] now.contains_key(key) == wanted.contains_key(
                key,
            ) by {
                if key == name@ {
                    match position {
                        Some(k) => {
                            assert(self.names@[k as int]@ == key);
                        },
                        None => {
                            assert(self.names@[self.names@.len() - 1]@ == key);
                        },
                    }
                } else if before.contains_key(key) {
                    let j = choose|j: int| 0 <= j < old_names.len() && old_names[j]@ == key;
                    assert(self.names@[j]@ == key);
                } else if now.contains_key(key) {
                    let j = choose|j: int| 0 <= j < self.names@.len() && self.names@[j]@ == key;
                    assert(old_names[j]@ == key);
                }
            }
            assert forall|key: Seq<char>| now.contains_key(key) implies #[trigger] now[key]
                == wanted[key] by {
                let found = choose|j: int| 0 <= j < self.names@.len() && self.names@[j]@ == key;
                if key == name@ {
                    match position {
                        Some(k) => {
                            assert(found == k);
                        },
                        None => {
                            assert(found == self.names@.len() - 1);
                        },
                    }
                } else {
                    assert(old_names[found]@ == key);
                    let earlier = choose|j: int| 0 <= j < old_names.len() && old_names[j]@ == key;
                    assert(found == earlier);
                }
            }
            assert(now =~= wanted);
        }
    }
}

/// The value that the fragments of a numeric literal stand for: the
/// integer of the one fragment as a scalar, and the integers of several
/// fragments as a vector. Nothing where a fragment is no numeral, or where
/// there is no fragment.
pub open spec fn literal_value(fragments: Seq<Seq<char>>) -> Option<NounView> {
    if fragments.len() == 0 {
        None
    } else if fragments.len() == 1 {
        match numeral_value(fragments[0]) {
            Ok(i) => Some(NounView { shape: None, elements: Elements::Integer(seq![i]) }),
            Err(_) => None,
        }
    } else if forall|k: int| 0 <= k < fragments.len() ==> numeral_value(#[trigger] fragments[k]) is Ok {
        Some(
            NounView {
                shape: Some(seq![fragments.len() as usize]),
                elements: Elements::Integer(
                    Seq::new(fragments.len(), |k: int| numeral_value(fragments[k])->Ok_0),
                ),
            },
        )
    } else {
        None
    }
}

/// The failure `e` is that of the numeric literal with the given
/// fragments: it holds the first fragment that is no numeral, and the fault
/// of that fragment; for no fragment at all, the empty text.
pub open spec fn literal_fault(fragments: Seq<Seq<char>>, e: LiteralParseError) -> bool {
    if fragments.len() == 0 {
        e.text@.len() == 0 && e.cause == NumeralFault::Empty
    } else {
        exists|k: int|
            {
                &&& 0 <= k < fragments.len()
                &&& e.text@ == #[trigger] fragments[k]
                &&& numeral_value(fragments[k]) == Err::<IntegerElt, NumeralFault>(e.cause)
                &&& forall|j: int| 0 <= j < k ==> numeral_value(#[trigger] fragments[j]) is Ok
            }
    }
}

/// The value of a numeric literal. One fragment is read as a scalar and
/// several as a vector with one element per fragment. The failure holds the
/// first fragment that is no numeral, and its fault.
pub fn literal(fragments: &[String]) -> (r: Result<Noun, LiteralParseError>)
    ensures
        match r {
            Ok(n) => literal_value(fragments@.map_values(|s: String| s@)) == Some(n@),
            Err(e) => literal_value(fragments@.map_values(|s: String| s@)) is None
                && literal_fault(fragments@.map_values(|s: String| s@), e),
        },
{
    let ghost texts = fragments@.map_values(|s: String| s@);
    if fragments.len() == 0 {
        Err(LiteralParseError { text: String::new(), cause: NumeralFault::Empty })
    } else if fragments.len() == 1 {
        proof {
            assert(texts[0] == fragments@[0]@);
        }
        match parse_integer(fragments[0].as_str()) {
            Ok(i) => Ok(Noun::Atom(Atom::Integer(i))),
            Err(cause) => {
                let e = LiteralParseError { text: fragments[0].clone(), cause };
                proof {
                    assert(e.text@ == texts[0]);
                }
                Err(e)
            },
        }
    } else {
        match GenericArray::<IntegerElt>::try_from(fragments) {
            Ok(a) => {
                proof {
                    assert forall|k: int| 0 <= k < texts.len() implies numeral_value(
                        #[trigger] texts[k],
                    ) is Ok by {
                        assert(texts[k] == fragments@[k]@);
                    }
                    assert(a@.data =~= Seq::new(
                        texts.len(),
                        |k: int| numeral_value(texts[k])->Ok_0,
                    )) by {
                        assert forall|k: int| 0 <= k < texts.len() implies a@.data[k]
                            == numeral_value(texts[k])->Ok_0 by {
                            assert(texts[k] == fragments@[k]@);
                        }
                    }
                }
                Ok(Noun::Array(Array::Integer(a)))
            },
            Err(e) => {
                proof {
                    let k = choose|k: int|
                        {
                            &&& 0 <= k < fragments@.len()
                            &&& e.text@ == (#[trigger] fragments@[k])@
                            &&& numeral_value(fragments@[k]@) == Err::<IntegerElt, NumeralFault>(
                                e.cause,
                            )
                            &&& forall|j: int|
                                0 <= j < k ==> numeral_value((#[trigger] fragments@[j])@) is Ok
                        };
                    assert(texts[k] == fragments@[k]@);
                    assert forall|j: int| 0 <= j < k implies numeral_value(#[trigger] texts[j])
                        is Ok by {
                        assert(texts[j] == fragments@[j]@);
                    }
                }
                Err(e)
            },
        }
    }
}

/// The value that a token stands for as an operand: the value that a name
/// is bound to, and the value of a numeric literal. Nothing for a name that
/// is not bound to a value, for a literal that is no number, and for every
/// other token.
pub open spec fn operand(env: Map<Seq<char>, Variable>, token: TokenView) -> Option<NounView> {
    match token {
        TokenView::Identifier(name) => if env.contains_key(name) {
            match env[name] {
                Variable::Noun(n) => Some(n@),
                Variable::Verb(_) => None,
            }
        } else {
            None
        },
        TokenView::Number(fragments) => literal_value(fragments),
        _ => None,
    }
}

/// `f` says why the token stands for no value: a name is not bound to a
/// value, a numeric literal has the failure of a literal, and every other
/// token is no operand.
pub open spec fn no_noun(token: TokenView, f: NoNoun) -> bool {
    match token {
        TokenView::Identifier(name) => f matches NoNoun::Unbound(s) && s@ == name,
        TokenView::Number(fragments) => f matches NoNoun::Literal(e) && literal_fault(
            fragments,
            e,
        ),
        _ => f is NotAnOperand,
    }
}

/// The value that a token stands for as an operand: the value that a name
/// is bound to, or the value of a numeric literal. Where the token stands
/// for no value, the failure says why: it holds the name that is bound to
/// no value, or the text of the first fragment that is no numeral and the
/// fault of that fragment.
pub fn get_noun(env: &Environment, tok: Token) -> (r: Result<Noun, NoNoun>)
    ensures
        match r {
            Ok(n) => operand(env@, tok@) == Some(n@),
            Err(f) => operand(env@, tok@) is None && no_noun(tok@, f),
        },
{
    match tok {
        Token::Identifier(name) => {
            match env.get(name.as_str()) {
                Some(Variable::Noun(n)) => Ok(n.clone()),
                _ => Err(NoNoun::Unbound(name)),
            }
        },
        Token::Number(v) => {
            match literal(v.as_slice()) {
                Ok(n) => Ok(n),
                Err(e) => Err(NoNoun::Literal(e)),
            }
        },
        _ => Err(NoNoun::NotAnOperand),
    }
}

/// A token that can stand for an operand: a number or a name.
pub open spec fn is_operand_token(token: TokenView) -> bool {
    token is Number || token is Identifier
}

/// What the evaluation of the tokens to the left of a value may return,
/// where `right` is that value. The tokens are read from the right. An
/// operator with a number or a name on its left is applied as a verb of two
/// operands, to the value of that token and to `right`; every other operator
/// is applied as a verb of one operand, to `right`. What the verb returns is
/// the value for the tokens further left. The evaluation fails where a
/// token is no operator, where the left operand stands for no value, where
/// the symbol names no verb of the arity, and where the verb fails.
pub open spec fn evaluates<C, P, M, T, Q, E, N>(
    registry: Seq<(Seq<char>, Verb)>,
    kernels: Kernels<C, P, M, T, Q, E, N>,
    env: Map<Seq<char>, Variable>,
    tokens: Seq<Token>,
    right: NounView,
    r: Result<Noun, EvalError>,
) -> bool where
    C: Fn(IntegerElt) -> Decimal,
    P: Fn(Decimal, Decimal) -> Decimal,
    M: Fn(Decimal, Decimal) -> Decimal,
    T: Fn(Decimal, Decimal) -> Decimal,
    Q: Fn(Decimal, Decimal) -> Decimal,
    E: Fn(Decimal, Decimal) -> bool,
    N: Fn(Decimal) -> bool,

    decreases tokens.len(),
{
    if tokens.len() == 0 {
        r matches Ok(n) && n@ == right
    } else {
        let rest = tokens.drop_last();
        match tokens.last()@ {
            TokenView::Operator(o) => {
                if rest.len() > 0 && is_operand_token(rest.last()@) {
                    match operand(env, rest.last()@) {
                        None => r matches Err(EvalError::NoLeftNoun(f)) && no_noun(
                            rest.last()@,
                            f,
                        ),
                        Some(left) => match named(registry, o).dyad {
                            None => r matches Err(EvalError::UnknownVerb(e)) && e.symbol@ == o
                                && e.arity == Arity::Dyadic,
                            Some(d) => exists|mid: Result<Noun, VerbError>|
                                #[trigger] d.outcome(kernels, left, right, mid) && match mid {
                                    Ok(n) => evaluates(
                                        registry,
                                        kernels,
                                        env,
                                        rest.drop_last(),
                                        n@,
                                        r,
                                    ),
                                    Err(c) => r matches Err(EvalError::Verb { symbol, cause })
                                        && symbol@ == o && cause == c,
                                },
                        },
                    }
                } else {
                    match named(registry, o).monad {
                        None => r matches Err(EvalError::UnknownVerb(e)) && e.symbol@ == o
                            && e.arity == Arity::Monadic,
                        Some(m) => exists|mid: Result<Noun, VerbError>|
                            #[trigger] m.outcome(right, mid) && match mid {
                                Ok(n) => evaluates(registry, kernels, env, rest, n@, r),
                                Err(c) => r matches Err(EvalError::Verb { symbol, cause })
                                    && symbol@ == o && cause == c,
                            },
                    }
                }
            },
            _ => r matches Err(EvalError::Nonsense(t)) && t@ == tokens.last()@,
        }
    }
}

/// What the evaluation of a line of tokens may return. One end of line at
/// the right end is left out. A line without tokens has no value. In every
/// other line the token at the right end must stand for a value, and the
/// tokens to its left are evaluated from that value on (see `evaluates`).
pub open spec fn interprets<C, P, M, T, Q, E, N>(
    registry: Seq<(Seq<char>, Verb)>,
    kernels: Kernels<C, P, M, T, Q, E, N>,
    env: Map<Seq<char>, Variable>,
    tokens: Seq<Token>,
    r: Result<Option<Noun>, EvalError>,
) -> bool where
    C: Fn(IntegerElt) -> Decimal,
    P: Fn(Decimal, Decimal) -> Decimal,
    M: Fn(Decimal, Decimal) -> Decimal,
    T: Fn(Decimal, Decimal) -> Decimal,
    Q: Fn(Decimal, Decimal) -> Decimal,
    E: Fn(Decimal, Decimal) -> bool,
    N: Fn(Decimal) -> bool,
 {
    let line = if tokens.len() > 0 && tokens.last()@ is Eol {
        tokens.drop_last()
    } else {
        tokens
    };
    if line.len() == 0 {
        r matches Ok(None)
    } else {
        match operand(env, line.last()@) {
            None => r matches Err(EvalError::NoRightmostNoun(f)) && no_noun(line.last()@, f),
            Some(right) => match r {
                Ok(Some(n)) => evaluates(
                    registry,
                    kernels,
                    env,
                    line.drop_last(),
                    right,
                    Ok::<Noun, EvalError>(n),
                ),
                Ok(None) => false,
                Err(e) => evaluates(
                    registry,
                    kernels,
                    env,
                    line.drop_last(),
                    right,
                    Err::<Noun, EvalError>(e),
                ),
            },
        }
    }
}

/// The value of a line of tokens, evaluated from right to left with the
/// verbs of the registry, the names of the environment and the given
/// operations on decimals.
pub fn interpret<C, P, M, T, Q, E, N>(
    csl: Vec<Token>,
    env: &Environment,
    registry: &Registry,
    kernels: &Kernels<C, P, M, T, Q, E, N>,
) -> (r: Result<Option<Noun>, EvalError>) where
    C: Fn(IntegerElt) -> Decimal,
    P: Fn(Decimal, Decimal) -> Decimal,
    M: Fn(Decimal, Decimal) -> Decimal,
    T: Fn(Decimal, Decimal) -> Decimal,
    Q: Fn(Decimal, Decimal) -> Decimal,
    E: Fn(Decimal, Decimal) -> bool,
    N: Fn(Decimal) -> bool,

    requires
        kernels.total(),
    ensures
        interprets(registry@, *kernels, env@, csl@, r),
{
    let ghost all = csl@;
    let mut tokens = csl;
    if tokens.len() == 0 {
        return Ok(None);
    }
    let ends_line = match &tokens[tokens.len() - 1] {
        Token::Eol => true,
        _ => false,
    };
    if ends_line {
        tokens.pop();
    }
    if tokens.len() == 0 {
        return Ok(None);
    }
    let ghost line = tokens@;
    let first = tokens.pop().unwrap();
    let mut right = match get_noun(env, first) {
        Ok(n) => n,
        Err(f) => {
            return Err(EvalError::NoRightmostNoun(f));
        },
    };
    let ghost start = right@;
    while tokens.len() > 0
        invariant
            kernels.total(),
            all == csl@,
            line == (if all.len() > 0 && all.last()@ is Eol {
                all.drop_last()
            } else {
                all
            }),
            line.len() > 0,
            operand(env@, line.last()@) == Some(start),
            forall|r: Result<Noun, EvalError>| #[trigger]
                evaluates(registry@, *kernels, env@, tokens@, right@, r) ==> evaluates(
                    registry@,
                    *kernels,
                    env@,
                    line.drop_last(),
                    start,
                    r,
                ),
        decreases tokens.len(),
    {
        let ghost before = tokens@;
        let ghost value = right@;
        let token = tokens.pop().unwrap();
        match token {
            Token::Operator(o) => {
                let dyadic = tokens.len() > 0 && match &tokens[tokens.len() - 1] {
                    Token::Number(_) => true,
                    Token::Identifier(_) => true,
                    _ => false,
                };
                if dyadic {
                    let left_token = tokens.pop().unwrap();
                    match get_noun(env, left_token) {
                        Err(f) => {
                            let failure = EvalError::NoLeftNoun(f);
                            proof {
                                assert(evaluates(
                                    registry@,
                                    *kernels,
                                    env@,
                                    before,
                                    value,
                                    Err::<Noun, EvalError>(failure),
                                ));
                            }
                            return Err(failure);
                        },
                        Ok(n) => {
                            let d = match registry.dyad(o.as_str()) {
                                Ok(d) => d,
                                Err(e) => {
                                    let failure = EvalError::UnknownVerb(e);
                                    proof {
                                        assert(evaluates(
                                            registry@,
                                            *kernels,
                                            env@,
                                            before,
                                            value,
                                            Err::<Noun, EvalError>(failure),
                                        ));
                                    }
                                    return Err(failure);
                                },
                            };
                            let ghost left = n@;
                            let mid = d.apply(n, right, kernels);
                            let ghost outcome = mid;
                            match mid {
                                Ok(v) => {
                                    right = v;
                                    proof {
                                        assert forall|r: Result<Noun, EvalError>| #[trigger]
                                            evaluates(
                                                registry@,
                                                *kernels,
                                                env@,
                                                tokens@,
                                                right@,
                                                r,
                                            ) implies evaluates(
                                            registry@,
                                            *kernels,
                                            env@,
                                            line.drop_last(),
                                            start,
                                            r,
                                        ) by {
                                            assert(d.outcome(*kernels, left, value, outcome));
                                            assert(evaluates(
                                                registry@,
                                                *kernels,
                                                env@,
                                                before,
                                                value,
                                                r,
                                            ));
                                        }
                                    }
                                },
                                Err(cause) => {
                                    let failure = EvalError::Verb { symbol: o, cause };
                                    proof {
                                        assert(d.outcome(*kernels, left, value, outcome));
                                        assert(evaluates(
                                            registry@,
                                            *kernels,
                                            env@,
                                            before,
                                            value,
                                            Err::<Noun, EvalError>(failure),
                                        ));
                                    }
                                    return Err(failure);
                                },
                            }
                        },
                    }
                } else {
                    let m = match registry.monad(o.as_str()) {
                        Ok(m) => m,
                        Err(e) => {
                            let failure = EvalError::UnknownVerb(e);
                            proof {
                                assert(evaluates(
                                    registry@,
                                    *kernels,
                                    env@,
                                    before,
                                    value,
                                    Err::<Noun, EvalError>(failure),
                                ));
                            }
                            return Err(failure);
                        },
                    };
                    let mid = m.apply(right);
                    let ghost outcome = mid;
                    match mid {
                        Ok(v) => {
                            right = v;
                            proof {
                                assert forall|r: Result<Noun, EvalError>| #[trigger]
                                    evaluates(
                                        registry@,
                                        *kernels,
                                        env@,
                                        tokens@,
                                        right@,
                                        r,
                                    ) implies evaluates(
                                    registry@,
                                    *kernels,
                                    env@,
                                    line.drop_last(),
                                    start,
                                    r,
                                ) by {
                                    assert(m.outcome(value, outcome));
                                    assert(evaluates(
                                        registry@,
                                        *kernels,
                                        env@,
                                        before,
                                        value,
                                        r,
                                    ));
                                }
                            }
                        },
                        Err(cause) => {
                            let failure = EvalError::Verb { symbol: o, cause };
                            proof {
                                assert(m.outcome(value, outcome));
                                assert(evaluates(
                                    registry@,
                                    *kernels,
                                    env@,
                                    before,
                                    value,
                                    Err::<Noun, EvalError>(failure),
                                ));
                            }
                            return Err(failure);
                        },
                    }
                }
            },
            t => {
                let failure = EvalError::Nonsense(t);
                proof {
                    assert(evaluates(
                        registry@,
                        *kernels,
                        env@,
                        before,
                        value,
                        Err::<Noun, EvalError>(failure),
                    ));
                }
                return Err(failure);
            },
        }
    }
    proof {
        assert(evaluates(
            registry@,
            *kernels,
            env@,
            tokens@,
            right@,
            Ok::<Noun, EvalError>(right),
        ));
    }
    Ok(Some(right))
}

} // verus!
