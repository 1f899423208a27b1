use array_lang::arrays::array::Array;
use array_lang::arrays::array_or_atom::ArrayOrAtom;
use array_lang::arrays::atom::{Atom, Kind};
use array_lang::arrays::decimal::Decimal;
use array_lang::arrays::generic_array::{checked_extents, GenericArray};
use array_lang::arrays::generic_matching_nouns::GenericMatchingNouns;
use array_lang::arrays::matching_nouns::MatchingNouns;
use array_lang::arrays::noun::Noun;
use array_lang::arrays::numeral::parse_integer;
use array_lang::arrays::promote::Promote;
use array_lang::error::NumeralFault;

fn array<T: Copy>(shape: &[usize], data: &[T]) -> GenericArray<T> {
    GenericArray::new(shape.to_vec(), data.to_vec()).unwrap()
}

fn decimal(x: f64) -> Decimal {
    Decimal::from_bits(x.to_bits())
}

fn number(d: Decimal) -> f64 {
    f64::from_bits(d.to_bits())
}

fn numbers(ds: &[Decimal]) -> Vec<f64> {
    ds.iter().map(|d| number(*d)).collect()
}

#[test]
fn new_asks_for_one_element_per_position() {
    assert!(GenericArray::new(vec![2, 3], vec![0; 6]).is_some());
    assert!(GenericArray::new(vec![2, 3], vec![0; 5]).is_none());
    assert!(GenericArray::new(vec![2, 3], vec![0; 7]).is_none());
    assert!(GenericArray::new(vec![], vec![7]).is_some());
    assert!(GenericArray::<i64>::new(vec![], vec![]).is_none());
    assert!(GenericArray::<i64>::new(vec![3, 0], vec![]).is_some());
    assert!(GenericArray::<i64>::new(vec![usize::MAX, 2], vec![]).is_none());
}

#[test]
fn rank_shape_and_raw_data() {
    let a = array(&[2, 3], &[1, 2, 3, 4, 5, 6]);
    assert_eq!(a.rank(), 2);
    assert_eq!(a.shape(), &[2, 3]);
    assert_eq!(a.raw_data(), &[1, 2, 3, 4, 5, 6]);
    let s = array(&[], &[9]);
    assert_eq!(s.rank(), 0);
    assert_eq!(s.raw_data(), &[9]);
}

#[test]
fn flat_index_is_the_mixed_radix_fold() {
    let a = array(&[2, 3], &[10, 11, 12, 13, 14, 15]);
    assert_eq!(a.get_index(&[1, 2]), Some(5));
    assert_eq!(a.get_index(&[0, 0]), Some(0));
    assert_eq!(a.get_index(&[1, 0]), Some(3));
    assert_eq!(a.get(&[1, 2]), Some(15));
    let b = array(&[2, 3, 4], &[0u8; 24]);
    assert_eq!(b.get_index(&[1, 2, 3]), Some(1 * 12 + 2 * 4 + 3));
}

#[test]
fn flat_index_is_a_bijection_on_the_positions() {
    let shape = [3usize, 4, 2];
    let a = array(&shape, &(0..24).collect::<Vec<i64>>());
    let mut seen = vec![false; 24];
    for i in 0..3 {
        for j in 0..4 {
            for k in 0..2 {
                let flat = a.get_index(&[i, j, k]).unwrap();
                assert!(flat < 24);
                assert!(!seen[flat]);
                seen[flat] = true;
                assert_eq!(a.get(&[i, j, k]), Some(flat as i64));
            }
        }
    }
    assert!(seen.iter().all(|s| *s));
}

#[test]
fn index_of_another_rank_has_no_offset() {
    let a = array(&[2, 3], &[1, 2, 3, 4, 5, 6]);
    assert_eq!(a.get_index(&[1]), None);
    assert_eq!(a.get_index(&[1, 2, 0]), None);
    assert_eq!(a.get_index(&[]), None);
    assert_eq!(a.get(&[1]), None);
    let s = array(&[], &[9]);
    assert_eq!(s.get_index(&[]), Some(0));
    assert_eq!(s.get(&[]), Some(9));
}

#[test]
fn index_beyond_the_array_has_no_element() {
    let a = array(&[2, 3], &[1, 2, 3, 4, 5, 6]);
    assert_eq!(a.get_index(&[2, 0]), Some(6));
    assert_eq!(a.get(&[2, 0]), None);
    assert_eq!(a.get_index(&[usize::MAX, 0]), None);
    assert_eq!(a.get(&[usize::MAX, 0]), None);
    assert_eq!(a.get_index(&[1, usize::MAX]), None);
}

#[test]
fn get_mut_changes_one_element() {
    let mut a = array(&[2, 3], &[1, 2, 3, 4, 5, 6]);
    *a.get_mut(&[1, 1]).unwrap() = 50;
    assert_eq!(a.raw_data(), &[1, 2, 3, 4, 50, 6]);
    assert_eq!(a.shape(), &[2, 3]);
    assert!(a.get_mut(&[1]).is_none());
    assert!(a.get_mut(&[2, 0]).is_none());
    assert_eq!(a.raw_data(), &[1, 2, 3, 4, 50, 6]);
}

#[test]
fn agrees_by_trailing_axes() {
    let a = array(&[2, 3], &[0; 6]);
    assert!(a.agrees(&array(&[2, 3], &[true; 6])));
    assert!(a.agrees(&array(&[3], &[0; 3])));
    assert!(array(&[3], &[0; 3]).agrees(&a));
    assert!(a.agrees(&array(&[], &[0])));
    assert!(!a.agrees(&array(&[2], &[0; 2])));
    assert!(!a.agrees(&array(&[3, 2], &[0; 6])));
    assert!(!array(&[2], &[0; 2]).agrees(&array(&[2, 3, 4], &[0; 24])));
}

#[test]
fn map_keeps_the_shape() {
    let a = array(&[2, 2], &[1, 2, 3, 4]).map(|x: i64| x * 10);
    assert_eq!(a.shape(), &[2, 2]);
    assert_eq!(a.raw_data(), &[10, 20, 30, 40]);
    let b = array(&[3], &[1, 0, 2]).map(|x: i64| x != 0);
    assert_eq!(b.raw_data(), &[true, false, true]);
}

#[test]
fn atom_maps_keep_the_side_of_the_scalar() {
    let right = array(&[3], &[10, 20, 30]).atom_map_right(1, |a: i64, w: i64| a - w);
    assert_eq!(right.raw_data(), &[9, 19, 29]);
    assert_eq!(right.shape(), &[3]);
    let left = array(&[3], &[10, 20, 30]).atom_map_left(1, |a: i64, w: i64| a - w);
    assert_eq!(left.raw_data(), &[-9, -19, -29]);
    assert_eq!(left.shape(), &[3]);
}

#[test]
fn agreement_of_same_rank() {
    let a = array(&[2, 3], &[1, 2, 3, 4, 5, 6]);
    let w = array(&[2, 3], &[10, 20, 30, 40, 50, 60]);
    let r = a.agreement_map(w, |x: i64, y: i64| x + y).unwrap();
    assert_eq!(r.shape(), &[2, 3]);
    assert_eq!(r.raw_data(), &[11, 22, 33, 44, 55, 66]);
}

#[test]
fn agreement_of_suffix_on_the_right() {
    let a = array(&[2, 3], &[1, 2, 3, 4, 5, 6]);
    let w = array(&[3], &[10, 20, 30]);
    let r = a.agreement_map(w, |x: i64, y: i64| x - y).unwrap();
    assert_eq!(r.shape(), &[2, 3]);
    assert_eq!(r.raw_data(), &[-9, -18, -27, -6, -15, -24]);
}

#[test]
fn agreement_of_suffix_on_the_left() {
    let a = array(&[3], &[10, 20, 30]);
    let w = array(&[2, 3], &[1, 2, 3, 4, 5, 6]);
    let r = a.agreement_map(w, |x: i64, y: i64| x - y).unwrap();
    assert_eq!(r.shape(), &[2, 3]);
    assert_eq!(r.raw_data(), &[9, 18, 27, 6, 15, 24]);
}

#[test]
fn agreement_over_two_leading_axes() {
    let a = array(&[2, 2, 2], &[0, 1, 2, 3, 4, 5, 6, 7]);
    let w = array(&[2], &[10, 20]);
    let r = a.agreement_map(w, |x: i64, y: i64| x + y).unwrap();
    assert_eq!(r.shape(), &[2, 2, 2]);
    assert_eq!(r.raw_data(), &[10, 21, 12, 23, 14, 25, 16, 27]);
    let b = array(&[2, 2, 2], &[0, 1, 2, 3, 4, 5, 6, 7]);
    let v = array(&[2, 2], &[10, 20, 30, 40]);
    let s = b.agreement_map(v, |x: i64, y: i64| x + y).unwrap();
    assert_eq!(s.raw_data(), &[10, 21, 32, 43, 14, 25, 36, 47]);
}

#[test]
fn agreement_with_arrays_of_no_axes_and_of_no_elements() {
    let a = array(&[2, 2], &[1, 2, 3, 4]);
    let w = array(&[], &[10]);
    let r = a.agreement_map(w, |x: i64, y: i64| x * y).unwrap();
    assert_eq!(r.shape(), &[2, 2]);
    assert_eq!(r.raw_data(), &[10, 20, 30, 40]);
    let e = array::<i64>(&[0, 3], &[]);
    let v = array(&[3], &[1, 2, 3]);
    let s = e.agreement_map(v, |x: i64, y: i64| x + y).unwrap();
    assert_eq!(s.shape(), &[0, 3]);
    assert_eq!(s.raw_data(), &[] as &[i64]);
}

#[test]
fn agreement_fails_on_shapes_that_do_not_agree() {
    let a = array(&[2], &[100, 200]);
    let w = GenericArray::iota(&[2, 3, 4]);
    let e = a.agreement_map(w, |x: i64, y: i64| x + y).unwrap_err();
    assert_eq!(e.left, vec![2]);
    assert_eq!(e.right, vec![2, 3, 4]);
    let b = array(&[2, 3], &[0; 6]);
    let v = array(&[3, 2], &[0; 6]);
    let f = b.agreement_map(v, |x: i64, y: i64| x + y).unwrap_err();
    assert_eq!(f.left, vec![2, 3]);
    assert_eq!(f.right, vec![3, 2]);
}

#[test]
fn iota_counts_in_row_major_order() {
    let a = GenericArray::iota(&[2, 3]);
    assert_eq!(a.shape(), &[2, 3]);
    assert_eq!(a.raw_data(), &[0, 1, 2, 3, 4, 5]);
    assert_eq!(a.get(&[1, 2]), Some(5));
    let e = GenericArray::iota(&[]);
    assert_eq!(e.shape(), &[] as &[usize]);
    assert_eq!(e.raw_data(), &[0]);
    let z = GenericArray::iota(&[3, 0]);
    assert_eq!(z.shape(), &[3, 0]);
    assert_eq!(z.raw_data(), &[] as &[i64]);
}

#[test]
fn extents_that_cannot_be_counted() {
    assert_eq!(checked_extents(&[2, 3]), Some(vec![2, 3]));
    assert_eq!(checked_extents(&[]), Some(vec![]));
    assert_eq!(checked_extents(&[-1]), None);
    assert_eq!(checked_extents(&[2, -3, 0]), None);
    assert_eq!(checked_extents(&[i64::MAX, 2]), None);
    assert_eq!(checked_extents(&[i64::MAX, 0]), Some(vec![i64::MAX as usize, 0]));
}

#[test]
fn cast_to_the_same_kind_keeps_the_array() {
    let b: GenericArray<bool> = array(&[2], &[true, false]).cast();
    assert_eq!(b.shape(), &[2]);
    assert_eq!(b.raw_data(), &[true, false]);
    let i: GenericArray<i64> = array(&[2, 2], &[1, -2, 3, i64::MIN]).cast();
    assert_eq!(i.shape(), &[2, 2]);
    assert_eq!(i.raw_data(), &[1, -2, 3, i64::MIN]);
    let d: GenericArray<Decimal> = array(&[2], &[decimal(2.5), decimal(f64::NAN)]).cast();
    assert_eq!(d.shape(), &[2]);
    assert_eq!(d.raw_data()[0].to_bits(), 2.5f64.to_bits());
    assert_eq!(d.raw_data()[1].to_bits(), f64::NAN.to_bits());
    let twice: GenericArray<i64> = i.cast::<i64>().cast();
    assert_eq!(twice.raw_data(), &[1, -2, 3, i64::MIN]);
}

#[test]
fn cast_of_booleans_to_integers() {
    let i: GenericArray<i64> = array(&[3], &[true, false, true]).cast();
    assert_eq!(i.shape(), &[3]);
    assert_eq!(i.raw_data(), &[1, 0, 1]);
    let p: i64 = true.promote();
    assert_eq!(p, 1);
    let q: i64 = false.promote();
    assert_eq!(q, 0);
}

#[test]
fn promote_of_operands() {
    let a: ArrayOrAtom<i64> = ArrayOrAtom::Atom(true).promote();
    assert!(matches!(a, ArrayOrAtom::Atom(1)));
    let b: ArrayOrAtom<i64> = ArrayOrAtom::Array(array(&[2], &[false, true])).promote();
    match b {
        ArrayOrAtom::Array(x) => assert_eq!(x.raw_data(), &[0, 1]),
        ArrayOrAtom::Atom(_) => panic!("an array stays an array"),
    }
    let m: GenericMatchingNouns<i64> =
        GenericMatchingNouns::ArrAt(array(&[2], &[true, true]), false).promote();
    match m {
        GenericMatchingNouns::ArrAt(x, y) => {
            assert_eq!(x.raw_data(), &[1, 1]);
            assert_eq!(y, 0);
        }
        _ => panic!("the configuration stays as it is"),
    }
}

#[test]
fn arithmetic_of_arrays() {
    let plus = array(&[3], &[1i64, 2, 3]).add_atom(10i64);
    assert_eq!(plus.raw_data(), &[11, 12, 13]);
    let minus = array(&[3], &[1i64, 2, 3]).sub_atom(10i64);
    assert_eq!(minus.raw_data(), &[-9, -8, -7]);
    let sum = array(&[2, 2], &[1i64, 2, 3, 4]).add(array(&[2], &[10, 20])).unwrap();
    assert_eq!(sum.shape(), &[2, 2]);
    assert_eq!(sum.raw_data(), &[11, 22, 13, 24]);
    let difference = array(&[2], &[10i64, 20]).sub(array(&[2, 2], &[1, 2, 3, 4])).unwrap();
    assert_eq!(difference.raw_data(), &[9, 18, 7, 16]);
    assert!(array(&[2], &[1i64, 2]).add(array(&[3], &[1, 2, 3])).is_none());
    assert!(array(&[2], &[1i64, 2]).sub(array(&[3], &[1, 2, 3])).is_none());
}

#[test]
fn abs_and_neg_of_integers() {
    let a = array(&[2, 2], &[1i64, -2, 0, -i64::MAX]).abs();
    assert_eq!(a.shape(), &[2, 2]);
    assert_eq!(a.raw_data(), &[1, 2, 0, i64::MAX]);
    let n = array(&[3], &[1i64, -2, 0]).neg();
    assert_eq!(n.shape(), &[3]);
    assert_eq!(n.raw_data(), &[-1, 2, 0]);
}

#[test]
fn vector_from_texts() {
    let texts = vec!["1".to_string(), "-2".to_string(), "+30".to_string()];
    let a = GenericArray::<i64>::try_from(texts.as_slice()).unwrap();
    assert_eq!(a.shape(), &[3]);
    assert_eq!(a.raw_data(), &[1, -2, 30]);
    let none: Vec<String> = Vec::new();
    let e = GenericArray::<i64>::try_from(none.as_slice()).unwrap();
    assert_eq!(e.shape(), &[0]);
    assert_eq!(e.raw_data(), &[] as &[i64]);
}

#[test]
fn vector_from_texts_names_the_first_fault() {
    let texts = vec!["1".to_string(), "2x".to_string(), "".to_string()];
    let e = GenericArray::<i64>::try_from(texts.as_slice()).unwrap_err();
    assert_eq!(e.text, "2x");
    assert_eq!(e.cause, NumeralFault::InvalidDigit);
}

#[test]
fn numerals_are_read_as_the_standard_library_reads_them() {
    let texts = [
        "0", "7", "-7", "+7", "007", "-0", "+0", "9223372036854775807",
        "-9223372036854775808", "9223372036854775808", "-9223372036854775809",
        "99999999999999999999", "-99999999999999999999", "", "+", "-", "--1", "+-1", "1_000",
        " 1", "1 ", "1.5", "x", "12x", "99999999999999999999x", "x99999999999999999999",
        "٣", "0000000000000000000000000000000000000001", "-0000000000000000000000000009",
        "922337203685477580a", "9223372036854775807a",
    ];
    for text in texts {
        let wanted = match text.parse::<i64>() {
            Ok(i) => Ok(i),
            Err(e) => Err(match e.kind() {
                std::num::IntErrorKind::Empty => NumeralFault::Empty,
                std::num::IntErrorKind::InvalidDigit => NumeralFault::InvalidDigit,
                std::num::IntErrorKind::PosOverflow => NumeralFault::PosOverflow,
                std::num::IntErrorKind::NegOverflow => NumeralFault::NegOverflow,
                other => panic!("no fault for {:?}", other),
            }),
        };
        assert_eq!(parse_integer(text), wanted, "{:?}", text);
    }
}

#[test]
fn numeral_faults() {
    assert_eq!(parse_integer("42"), Ok(42));
    assert_eq!(parse_integer(""), Err(NumeralFault::Empty));
    assert_eq!(parse_integer("4x"), Err(NumeralFault::InvalidDigit));
    assert_eq!(parse_integer("9223372036854775808"), Err(NumeralFault::PosOverflow));
    assert_eq!(parse_integer("-9223372036854775809"), Err(NumeralFault::NegOverflow));
}

#[test]
fn kinds_are_ordered_by_rank() {
    assert_eq!(Kind::Boolean.rank(), 0);
    assert_eq!(Kind::Integer.rank(), 1);
    assert_eq!(Kind::Decimal.rank(), 2);
    assert_eq!(Kind::Boolean.join(Kind::Integer), Kind::Integer);
    assert_eq!(Kind::Decimal.join(Kind::Integer), Kind::Decimal);
    assert_eq!(Kind::Boolean.join(Kind::Boolean), Kind::Boolean);
    assert_eq!(Kind::Integer.join(Kind::Decimal), Kind::Decimal);
    assert_eq!(Atom::Boolean(true).kind(), Kind::Boolean);
    assert_eq!(Atom::Integer(1).kind(), Kind::Integer);
    assert_eq!(Atom::Decimal(decimal(1.0)).kind(), Kind::Decimal);
}

#[test]
fn array_shape_and_rank() {
    let b = Array::Boolean(array(&[2], &[true, false]));
    assert_eq!(b.shape(), &[2]);
    assert_eq!(b.rank(), 1);
    assert_eq!(b.kind(), Kind::Boolean);
    let i = Array::Integer(array(&[2, 3], &[0; 6]));
    assert_eq!(i.shape(), &[2, 3]);
    assert_eq!(i.rank(), 2);
    let d = Array::Decimal(array(&[], &[decimal(1.5)]));
    assert_eq!(d.shape(), &[] as &[usize]);
    assert_eq!(d.rank(), 0);
    assert_eq!(d.kind(), Kind::Decimal);
}

#[test]
fn conversions_wrap_without_change() {
    assert!(matches!(Atom::from(true), Atom::Boolean(true)));
    assert!(matches!(Atom::from(5i64), Atom::Integer(5)));
    assert!(matches!(Array::from(array(&[1], &[true])), Array::Boolean(_)));
    assert!(matches!(Array::from(array(&[1], &[1i64])), Array::Integer(_)));
    assert!(matches!(Array::from(array(&[1], &[decimal(1.0)])), Array::Decimal(_)));
    assert!(matches!(ArrayOrAtom::from(3i64), ArrayOrAtom::Atom(3)));
    assert!(matches!(ArrayOrAtom::from(array(&[1], &[1i64])), ArrayOrAtom::Array(_)));
    assert!(matches!(Noun::from(3i64), Noun::Atom(Atom::Integer(3))));
    assert!(matches!(Noun::from(false), Noun::Atom(Atom::Boolean(false))));
    assert!(matches!(Noun::from(array(&[1], &[1i64])), Noun::Array(Array::Integer(_))));
    assert!(matches!(
        Noun::from(ArrayOrAtom::Atom(decimal(1.0))),
        Noun::Atom(Atom::Decimal(_))
    ));
    assert!(matches!(
        Noun::from(ArrayOrAtom::Array(array(&[1], &[true]))),
        Noun::Array(Array::Boolean(_))
    ));
    assert!(matches!(
        GenericMatchingNouns::from((ArrayOrAtom::Atom(1i64), ArrayOrAtom::Atom(2i64))),
        GenericMatchingNouns::AtAt(1, 2)
    ));
    assert!(matches!(
        GenericMatchingNouns::from((
            ArrayOrAtom::Array(array(&[1], &[1i64])),
            ArrayOrAtom::Atom(2i64)
        )),
        GenericMatchingNouns::ArrAt(_, 2)
    ));
    assert!(matches!(
        GenericMatchingNouns::from((
            ArrayOrAtom::Atom(2i64),
            ArrayOrAtom::Array(array(&[1], &[1i64]))
        )),
        GenericMatchingNouns::AtArr(2, _)
    ));
    assert!(matches!(
        GenericMatchingNouns::from((
            ArrayOrAtom::Array(array(&[1], &[1i64])),
            ArrayOrAtom::Array(array(&[1], &[1i64]))
        )),
        GenericMatchingNouns::ArrArr(_, _)
    ));
    assert!(matches!(
        MatchingNouns::from(GenericMatchingNouns::AtAt(true, false)),
        MatchingNouns::Boolean(_)
    ));
    assert!(matches!(
        MatchingNouns::from(GenericMatchingNouns::AtAt(1i64, 2i64)),
        MatchingNouns::Integer(_)
    ));
    assert!(matches!(
        MatchingNouns::from(GenericMatchingNouns::AtAt(decimal(1.0), decimal(2.0))),
        MatchingNouns::Decimal(_)
    ));
}

#[test]
fn clones_are_equal_values() {
    let a = array(&[2, 2], &[1, 2, 3, 4]);
    let c = a.clone();
    assert_eq!(c.shape(), a.shape());
    assert_eq!(c.raw_data(), a.raw_data());
    let n = Noun::Array(Array::Integer(a));
    match n.clone() {
        Noun::Array(Array::Integer(x)) => assert_eq!(x.raw_data(), &[1, 2, 3, 4]),
        _ => panic!("a clone has the kind of the value"),
    }
}

#[test]
fn noun_map_and_truth_values() {
    let n = Noun::Array(Array::Integer(array(&[3], &[0, 5, -1])));
    let r = n.into_boolean(|d: Decimal| number(d) != 0.0);
    match r {
        ArrayOrAtom::Array(x) => {
            assert_eq!(x.shape(), &[3]);
            assert_eq!(x.raw_data(), &[false, true, true]);
        }
        ArrayOrAtom::Atom(_) => panic!("an array stays an array"),
    }
    let d = Noun::Array(Array::Decimal(array(&[3], &[decimal(0.0), decimal(-0.0), decimal(0.5)])));
    match d.into_boolean(|d: Decimal| number(d) != 0.0) {
        ArrayOrAtom::Array(x) => assert_eq!(x.raw_data(), &[false, false, true]),
        ArrayOrAtom::Atom(_) => panic!("an array stays an array"),
    }
    let b = Noun::Atom(Atom::Boolean(true)).into_boolean(|d: Decimal| number(d) != 0.0);
    assert!(matches!(b, ArrayOrAtom::Atom(true)));
    let m = Noun::Atom(Atom::Integer(4)).map(|_b: bool| 0u8, |i: i64| i as u8 + 1, |_d: Decimal| 2u8);
    assert!(matches!(m, ArrayOrAtom::Atom(5)));
    let k = Noun::Array(Array::Boolean(array(&[2], &[true, false])))
        .map(|b: bool| if b { 10 } else { 20 }, |i: i64| i, |_d: Decimal| 0);
    match k {
        ArrayOrAtom::Array(x) => assert_eq!(x.raw_data(), &[10, 20]),
        ArrayOrAtom::Atom(_) => panic!("an array stays an array"),
    }
}

#[test]
fn promotion_of_pairs() {
    let to_decimal = |i: i64| decimal(i as f64);
    let m = Noun::try_promote_pair(
        Noun::Array(Array::Boolean(array(&[2], &[true, false]))),
        Noun::Atom(Atom::Integer(5)),
        to_decimal,
    )
    .unwrap();
    match m {
        MatchingNouns::Integer(GenericMatchingNouns::ArrAt(a, w)) => {
            assert_eq!(a.raw_data(), &[1, 0]);
            assert_eq!(w, 5);
        }
        _ => panic!("a Boolean array and an Integer scalar meet as Integers"),
    }
    let m = Noun::try_promote_pair(
        Noun::Atom(Atom::Boolean(true)),
        Noun::Atom(Atom::Decimal(decimal(2.5))),
        to_decimal,
    )
    .unwrap();
    match m {
        MatchingNouns::Decimal(GenericMatchingNouns::AtAt(a, w)) => {
            assert_eq!(number(a), 1.0);
            assert_eq!(number(w), 2.5);
        }
        _ => panic!("a Boolean and a Decimal scalar meet as Decimals"),
    }
    let m = Noun::try_promote_pair(
        Noun::Atom(Atom::Decimal(decimal(0.5))),
        Noun::Array(Array::Integer(array(&[2], &[3, -4]))),
        to_decimal,
    )
    .unwrap();
    match m {
        MatchingNouns::Decimal(GenericMatchingNouns::AtArr(a, w)) => {
            assert_eq!(number(a), 0.5);
            assert_eq!(numbers(w.raw_data()), vec![3.0, -4.0]);
        }
        _ => panic!("a Decimal scalar and an Integer array meet as Decimals"),
    }
    let m = Noun::try_promote_pair(
        Noun::Array(Array::Boolean(array(&[1], &[true]))),
        Noun::Array(Array::Boolean(array(&[1], &[false]))),
        to_decimal,
    )
    .unwrap();
    assert_eq!(m.kind(), Kind::Boolean);
    assert!(matches!(m, MatchingNouns::Boolean(GenericMatchingNouns::ArrArr(_, _))));
}

#[test]
fn promotion_covers_every_pair_of_kinds() {
    let to_decimal = |i: i64| decimal(i as f64);
    let nouns = || {
        vec![
            Noun::Atom(Atom::Boolean(true)),
            Noun::Atom(Atom::Integer(3)),
            Noun::Atom(Atom::Decimal(decimal(1.5))),
            Noun::Array(Array::Boolean(array(&[1], &[true]))),
            Noun::Array(Array::Integer(array(&[1], &[3]))),
            Noun::Array(Array::Decimal(array(&[1], &[decimal(1.5)]))),
        ]
    };
    for a in nouns() {
        for w in nouns() {
            let wanted = a.kind().join(w.kind());
            let m = Noun::try_promote_pair(a.clone(), w, to_decimal).unwrap();
            assert_eq!(m.kind(), wanted);
        }
    }
}

#[test]
fn dyad_of_generic_operands() {
    let r = GenericMatchingNouns::AtAt(2i64, 3i64).dyad(|a, w| a * w).unwrap();
    assert!(matches!(r, ArrayOrAtom::Atom(6)));
    let r = GenericMatchingNouns::ArrAt(array(&[2], &[1i64, 2]), 10).dyad(|a, w| a - w).unwrap();
    match r {
        ArrayOrAtom::Array(x) => assert_eq!(x.raw_data(), &[-9, -8]),
        ArrayOrAtom::Atom(_) => panic!("an array and a scalar give an array"),
    }
    let r = GenericMatchingNouns::AtArr(10, array(&[2], &[1i64, 2])).dyad(|a, w| a - w).unwrap();
    match r {
        ArrayOrAtom::Array(x) => assert_eq!(x.raw_data(), &[9, 8]),
        ArrayOrAtom::Atom(_) => panic!("a scalar and an array give an array"),
    }
    let e = GenericMatchingNouns::ArrArr(array(&[2], &[1i64, 2]), array(&[3], &[1, 2, 3]))
        .dyad(|a, w| a + w)
        .unwrap_err();
    assert_eq!(e.left, vec![2]);
    assert_eq!(e.right, vec![3]);
    let pairs = GenericMatchingNouns::ArrArr(array(&[2], &[1i64, 2]), array(&[2, 2], &[1, 2, 3, 5]));
    assert!(pairs.every(|a, w| a <= w));
    assert!(!pairs.every(|a, w| a < w));
}

#[test]
fn dyad_of_matching_nouns_wraps_by_kind() {
    let m = MatchingNouns::Integer(GenericMatchingNouns::ArrAt(array(&[2], &[1, 2]), 2));
    let n = m
        .dyad(|a: bool, w: bool| a == w, |a: i64, w: i64| a == w, |a: Decimal, w: Decimal| {
            number(a) == number(w)
        })
        .unwrap();
    match n {
        Noun::Array(Array::Boolean(x)) => assert_eq!(x.raw_data(), &[false, true]),
        _ => panic!("an equality of Integers is a Boolean array"),
    }
    let m = MatchingNouns::Boolean(GenericMatchingNouns::AtAt(true, true));
    let n = m
        .dyad(
            |a: bool, w: bool| a as i64 + w as i64,
            |a: i64, w: i64| a + w,
            |a: Decimal, w: Decimal| decimal(number(a) + number(w)),
        )
        .unwrap();
    assert!(matches!(n, Noun::Atom(Atom::Integer(2))));
}
