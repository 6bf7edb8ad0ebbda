use exp::combinations::Combinations;

#[test]
fn test_bool() {
    assert_eq!(false.combinations(), vec![false]);
}

#[test]
fn test_range() {
    assert_eq!((0..4).combinations(), vec![0, 1, 2, 3]);
}

#[test]
fn test_range_inclusive() {
    assert_eq!((0..=4).combinations(), vec![0, 1, 2, 3, 4]);
}

#[test]
fn test_vec() {
    assert_eq!(vec![1, 7, 34].combinations(), vec![1, 7, 34]);
}

#[test]
fn test_nested_vec() {
    assert_eq!(
        vec![vec![2, 5], vec![9, 0], vec![2, 5]].combinations(),
        vec![2, 5, 9, 0, 2, 5]
    );
}

#[test]
fn empty_and_reversed_ranges_have_no_values() {
    assert_eq!((3u8..3).combinations(), Vec::<u8>::new());
    assert_eq!((5i64..2).combinations(), Vec::<i64>::new());
    assert_eq!((5u32..=4).combinations(), Vec::<u32>::new());
}

#[test]
fn inclusive_range_reaches_the_type_maximum() {
    assert_eq!((254u8..=255).combinations(), vec![254u8, 255]);
    assert_eq!((-128i8..=-127).combinations(), vec![-128i8, -127]);
}

#[test]
fn exhausted_inclusive_range_has_no_values() {
    let mut r = 7u16..=7;
    assert_eq!(r.next(), Some(7));
    assert_eq!(r.combinations(), Vec::<u16>::new());
}

#[test]
fn scalars_stand_for_themselves() {
    assert_eq!('x'.combinations(), vec!['x']);
    assert_eq!(().combinations(), vec![()]);
    assert_eq!(String::from("a").combinations(), vec![String::from("a")]);
    assert_eq!(u128::MAX.combinations(), vec![u128::MAX]);
}
