use array_lang::arrays::array::Array;
use array_lang::arrays::atom::Atom;
use array_lang::arrays::decimal::Decimal;
use array_lang::arrays::generic_array::GenericArray;
use array_lang::arrays::noun::Noun;
use array_lang::error::VerbError;
use array_lang::primitives;

fn dec(x: f64) -> Decimal {
    Decimal::from_bits(x.to_bits())
}

fn num(d: Decimal) -> f64 {
    f64::from_bits(d.to_bits())
}

fn to_decimal(i: i64) -> Decimal {
    dec(i as f64)
}

fn plus(a: Decimal, w: Decimal) -> Decimal {
    dec(num(a) + num(w))
}

fn minus(a: Decimal, w: Decimal) -> Decimal {
    dec(num(a) - num(w))
}

fn times(a: Decimal, w: Decimal) -> Decimal {
    dec(num(a) * num(w))
}

fn divide(a: Decimal, w: Decimal) -> Decimal {
    dec(num(a) / num(w))
}

fn same(a: Decimal, w: Decimal) -> bool {
    num(a) == num(w)
}

fn nonzero(d: Decimal) -> bool {
    num(d) != 0.0
}

fn integers(shape: &[usize], data: &[i64]) -> Noun {
    Noun::Array(Array::Integer(GenericArray::new(shape.to_vec(), data.to_vec()).unwrap()))
}

fn booleans(shape: &[usize], data: &[bool]) -> Noun {
    Noun::Array(Array::Boolean(GenericArray::new(shape.to_vec(), data.to_vec()).unwrap()))
}

fn decimals(shape: &[usize], data: &[f64]) -> Noun {
    let data: Vec<Decimal> = data.iter().map(|x| dec(*x)).collect();
    Noun::Array(Array::Decimal(GenericArray::new(shape.to_vec(), data).unwrap()))
}

fn integer(i: i64) -> Noun {
    Noun::Atom(Atom::Integer(i))
}

fn boolean(b: bool) -> Noun {
    Noun::Atom(Atom::Boolean(b))
}

fn decimal_atom(x: f64) -> Noun {
    Noun::Atom(Atom::Decimal(dec(x)))
}

fn as_integers(n: Noun) -> (Vec<usize>, Vec<i64>) {
    match n {
        Noun::Array(Array::Integer(a)) => (a.shape().to_vec(), a.raw_data().to_vec()),
        other => panic!("no Integer array: {:?}", other),
    }
}

fn as_booleans(n: Noun) -> (Vec<usize>, Vec<bool>) {
    match n {
        Noun::Array(Array::Boolean(a)) => (a.shape().to_vec(), a.raw_data().to_vec()),
        other => panic!("no Boolean array: {:?}", other),
    }
}

fn as_decimals(n: Noun) -> (Vec<usize>, Vec<f64>) {
    match n {
        Noun::Array(Array::Decimal(a)) => {
            (a.shape().to_vec(), a.raw_data().iter().map(|d| num(*d)).collect())
        }
        other => panic!("no Decimal array: {:?}", other),
    }
}

#[test]
fn same_rank_shapes_combine() {
    let r = primitives::add(
        integers(&[2, 3], &[1, 2, 3, 4, 5, 6]),
        integers(&[2, 3], &[10, 20, 30, 40, 50, 60]),
        to_decimal,
        plus,
    )
    .unwrap();
    assert_eq!(as_integers(r), (vec![2, 3], vec![11, 22, 33, 44, 55, 66]));
}

#[test]
fn suffix_is_broadcast_along_the_leading_axis() {
    let r = primitives::sub(
        integers(&[2, 3], &[1, 2, 3, 4, 5, 6]),
        integers(&[3], &[10, 20, 30]),
        to_decimal,
        minus,
    )
    .unwrap();
    assert_eq!(as_integers(r), (vec![2, 3], vec![-9, -18, -27, -6, -15, -24]));
}

#[test]
fn shapes_that_do_not_agree_fail() {
    let w = primitives::iota(integers(&[3], &[2, 3, 4])).unwrap();
    let r = primitives::add(integers(&[2], &[100, 200]), w, to_decimal, plus);
    match r {
        Err(VerbError::Shape(e)) => {
            assert_eq!(e.left, vec![2]);
            assert_eq!(e.right, vec![2, 3, 4]);
        }
        other => panic!("no shape mismatch: {:?}", other),
    }
    for verb in 0..6 {
        let a = integers(&[2], &[1, 2]);
        let w = integers(&[3], &[1, 2, 3]);
        let r = match verb {
            0 => primitives::add(a, w, to_decimal, plus),
            1 => primitives::sub(a, w, to_decimal, minus),
            2 => primitives::mul(a, w, to_decimal, times),
            3 => primitives::div(a, w, to_decimal, divide),
            4 => primitives::eq(a, w, to_decimal, same),
            _ => primitives::and(a, w, nonzero),
        };
        assert!(matches!(r, Err(VerbError::Shape(_))));
    }
}

#[test]
fn boolean_array_plus_integer_atom() {
    let r = primitives::add(booleans(&[2], &[true, false]), integer(5), to_decimal, plus).unwrap();
    assert_eq!(as_integers(r), (vec![2], vec![6, 5]));
}

#[test]
fn boolean_atom_plus_decimal_atom() {
    let r = primitives::add(boolean(true), decimal_atom(2.5), to_decimal, plus).unwrap();
    match r {
        Noun::Atom(Atom::Decimal(d)) => assert_eq!(num(d), 3.5),
        other => panic!("no Decimal scalar: {:?}", other),
    }
}

#[test]
fn sum_of_booleans_is_an_integer() {
    let r = primitives::add(
        booleans(&[3], &[true, true, false]),
        booleans(&[3], &[true, false, false]),
        to_decimal,
        plus,
    )
    .unwrap();
    assert_eq!(as_integers(r), (vec![3], vec![2, 1, 0]));
    let r = primitives::sub(boolean(false), boolean(true), to_decimal, minus).unwrap();
    assert!(matches!(r, Noun::Atom(Atom::Integer(-1))));
}

#[test]
fn sums_with_decimals() {
    let r = primitives::add(
        decimals(&[2], &[0.5, 1.5]),
        integers(&[2, 2], &[1, 2, 3, 4]),
        to_decimal,
        plus,
    )
    .unwrap();
    assert_eq!(as_decimals(r), (vec![2, 2], vec![1.5, 3.5, 3.5, 5.5]));
    let r = primitives::sub(integer(1), decimals(&[2], &[0.25, 2.0]), to_decimal, minus).unwrap();
    assert_eq!(as_decimals(r), (vec![2], vec![0.75, -1.0]));
}

#[test]
fn integer_results_that_overflow_fail() {
    let r = primitives::add(integer(i64::MAX), integer(1), to_decimal, plus);
    assert!(matches!(r, Err(VerbError::Overflow)));
    let r = primitives::add(integers(&[2], &[0, i64::MAX]), boolean(true), to_decimal, plus);
    assert!(matches!(r, Err(VerbError::Overflow)));
    let r = primitives::sub(integer(i64::MIN), integer(1), to_decimal, minus);
    assert!(matches!(r, Err(VerbError::Overflow)));
    let r = primitives::mul(integer(i64::MAX), integers(&[2], &[1, 2]), to_decimal, times);
    assert!(matches!(r, Err(VerbError::Overflow)));
    let r = primitives::mul(integer(i64::MIN), integer(-1), to_decimal, times);
    assert!(matches!(r, Err(VerbError::Overflow)));
    let r = primitives::add(integer(i64::MAX), integer(0), to_decimal, plus).unwrap();
    assert!(matches!(r, Noun::Atom(Atom::Integer(i64::MAX))));
    let r = primitives::sub(integer(i64::MIN), integer(0), to_decimal, minus).unwrap();
    assert!(matches!(r, Noun::Atom(Atom::Integer(i64::MIN))));
    let r = primitives::mul(integer(i64::MIN), integer(1), to_decimal, times).unwrap();
    assert!(matches!(r, Noun::Atom(Atom::Integer(i64::MIN))));
    let r = primitives::add(integer(i64::MAX), decimal_atom(1.0), to_decimal, plus).unwrap();
    assert!(matches!(r, Noun::Atom(Atom::Decimal(_))));
}

#[test]
fn shape_mismatch_comes_before_overflow() {
    let r = primitives::add(
        integers(&[2], &[i64::MAX, i64::MAX]),
        integers(&[3], &[1, 1, 1]),
        to_decimal,
        plus,
    );
    assert!(matches!(r, Err(VerbError::Shape(_))));
}

#[test]
fn products() {
    let r = primitives::mul(
        booleans(&[4], &[true, true, false, false]),
        booleans(&[4], &[true, false, true, false]),
        to_decimal,
        times,
    )
    .unwrap();
    assert_eq!(as_booleans(r), (vec![4], vec![true, false, false, false]));
    let r = primitives::mul(integers(&[3], &[1, -2, 3]), integer(4), to_decimal, times).unwrap();
    assert_eq!(as_integers(r), (vec![3], vec![4, -8, 12]));
    let r = primitives::mul(integers(&[2], &[3, 4]), boolean(true), to_decimal, times).unwrap();
    assert_eq!(as_integers(r), (vec![2], vec![3, 4]));
    let r = primitives::mul(decimals(&[2], &[1.5, -2.0]), integer(2), to_decimal, times).unwrap();
    assert_eq!(as_decimals(r), (vec![2], vec![3.0, -4.0]));
}

#[test]
fn quotients_are_decimals() {
    let r = primitives::div(integers(&[3], &[1, 3, -6]), integer(2), to_decimal, divide).unwrap();
    assert_eq!(as_decimals(r), (vec![3], vec![0.5, 1.5, -3.0]));
    let r = primitives::div(boolean(true), boolean(true), to_decimal, divide).unwrap();
    match r {
        Noun::Atom(Atom::Decimal(d)) => assert_eq!(num(d), 1.0),
        other => panic!("no Decimal scalar: {:?}", other),
    }
    let r = primitives::div(integer(1), integer(0), to_decimal, divide).unwrap();
    match r {
        Noun::Atom(Atom::Decimal(d)) => assert_eq!(num(d), f64::INFINITY),
        other => panic!("no Decimal scalar: {:?}", other),
    }
    let r = primitives::div(decimals(&[2], &[1.0, 9.0]), booleans(&[2], &[true, true]), to_decimal, divide)
        .unwrap();
    assert_eq!(as_decimals(r), (vec![2], vec![1.0, 9.0]));
    let r = primitives::div(integer(7), decimal_atom(2.0), to_decimal, divide).unwrap();
    match r {
        Noun::Atom(Atom::Decimal(d)) => assert_eq!(num(d), 3.5),
        other => panic!("no Decimal scalar: {:?}", other),
    }
}

#[test]
fn equalities_are_truth_values() {
    let r = primitives::eq(integers(&[3], &[1, 2, 3]), integer(2), to_decimal, same).unwrap();
    assert_eq!(as_booleans(r), (vec![3], vec![false, true, false]));
    let r = primitives::eq(booleans(&[2], &[true, false]), boolean(false), to_decimal, same).unwrap();
    assert_eq!(as_booleans(r), (vec![2], vec![false, true]));
    let r = primitives::eq(booleans(&[2], &[true, false]), integer(1), to_decimal, same).unwrap();
    assert_eq!(as_booleans(r), (vec![2], vec![true, false]));
    let r = primitives::eq(decimals(&[3], &[1.0, 1.5, f64::NAN]), integer(1), to_decimal, same).unwrap();
    assert_eq!(as_booleans(r), (vec![3], vec![true, false, false]));
    let r = primitives::eq(decimal_atom(0.0), decimal_atom(-0.0), to_decimal, same).unwrap();
    assert!(matches!(r, Noun::Atom(Atom::Boolean(true))));
}

#[test]
fn conjunction_reads_operands_as_truth_values() {
    let r = primitives::and(integers(&[4], &[0, 1, 2, -3]), boolean(true), nonzero).unwrap();
    assert_eq!(as_booleans(r), (vec![4], vec![false, true, true, true]));
    let r = primitives::and(decimals(&[3], &[0.0, 0.5, -0.0]), integer(7), nonzero).unwrap();
    assert_eq!(as_booleans(r), (vec![3], vec![false, true, false]));
    let r = primitives::and(
        booleans(&[2, 2], &[true, true, false, false]),
        booleans(&[2], &[true, false]),
        nonzero,
    )
    .unwrap();
    assert_eq!(as_booleans(r), (vec![2, 2], vec![true, false, false, false]));
    let r = primitives::and(integer(2), integer(0), nonzero).unwrap();
    assert!(matches!(r, Noun::Atom(Atom::Boolean(false))));
}

#[test]
fn same_verbs_return_an_operand() {
    assert!(matches!(primitives::same(integer(3)), Ok(Noun::Atom(Atom::Integer(3)))));
    assert!(matches!(
        primitives::same_w(integer(3), boolean(true)),
        Ok(Noun::Atom(Atom::Boolean(true)))
    ));
    assert!(matches!(
        primitives::same_a(integer(3), boolean(true)),
        Ok(Noun::Atom(Atom::Integer(3)))
    ));
}

#[test]
fn iota_of_a_shape() {
    let r = primitives::iota(integers(&[2], &[2, 3])).unwrap();
    assert_eq!(as_integers(r), (vec![2, 3], vec![0, 1, 2, 3, 4, 5]));
    let r = primitives::iota(integer(4)).unwrap();
    assert_eq!(as_integers(r), (vec![4], vec![0, 1, 2, 3]));
    let r = primitives::iota(integer(0)).unwrap();
    assert_eq!(as_integers(r), (vec![0], vec![]));
    let r = primitives::iota(integers(&[0], &[])).unwrap();
    assert_eq!(as_integers(r), (vec![], vec![0]));
}

#[test]
fn iota_of_what_names_no_shape_fails() {
    assert!(matches!(primitives::iota(boolean(true)), Err(VerbError::IncompatibleArgument)));
    assert!(matches!(primitives::iota(decimal_atom(2.0)), Err(VerbError::IncompatibleArgument)));
    assert!(matches!(
        primitives::iota(integers(&[2, 1], &[2, 3])),
        Err(VerbError::IncompatibleArgument)
    ));
    assert!(matches!(
        primitives::iota(integers(&[], &[3])),
        Err(VerbError::IncompatibleArgument)
    ));
    assert!(matches!(
        primitives::iota(booleans(&[1], &[true])),
        Err(VerbError::IncompatibleArgument)
    ));
    assert!(matches!(primitives::iota(integer(-1)), Err(VerbError::IncompatibleArgument)));
    assert!(matches!(
        primitives::iota(integers(&[2], &[i64::MAX, 2])),
        Err(VerbError::IncompatibleArgument)
    ));
}
