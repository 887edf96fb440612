use streamkit::decimal::Decimal;

fn parts(d: Decimal) -> (i128, u32) {
    (d.mantissa(), d.scale())
}

#[test]
fn trailing_zeros_are_stripped() {
    assert_eq!(parts(Decimal::new(1200, 3).unwrap().normalize()), (12, 1));
    assert_eq!(parts(Decimal::new(-100, 2).unwrap().normalize()), (-1, 0));
    assert_eq!(parts(Decimal::new(100, 0).unwrap().normalize()), (100, 0));
    assert_eq!(parts(Decimal::new(0, 28).unwrap().normalize()), (0, 0));
    assert_eq!(parts(Decimal::new(101, 2).unwrap().normalize()), (101, 2));
    let max = 0xFFFF_FFFF_FFFF_FFFF_FFFF_FFFFi128;
    assert_eq!(parts(Decimal::new(-max, 28).unwrap().normalize()), (-max, 28));
    // Once stripped, nothing is left to strip.
    assert_eq!(parts(Decimal::new(1200, 3).unwrap().normalize().normalize()), (12, 1));
}

#[test]
fn numbers_are_compared_as_numbers() {
    let a = Decimal::new(1200, 3).unwrap();
    let b = Decimal::new(12, 1).unwrap();
    assert!(a.same_number(&b));
    assert!(!a.same_number(&Decimal::new(12, 0).unwrap()));
    assert!(!a.same_number(&Decimal::new(-12, 1).unwrap()));
    assert!(Decimal::default().same_number(&Decimal::new(0, 7).unwrap()));
}

#[test]
fn decimals_have_limits() {
    let max = 0xFFFF_FFFF_FFFF_FFFF_FFFF_FFFFi128;
    assert!(Decimal::new(max, 28).is_some());
    assert!(Decimal::new(max + 1, 0).is_none());
    assert!(Decimal::new(-max - 1, 0).is_none());
    assert!(Decimal::new(1, 29).is_none());
}

#[test]
fn all_words_are_serialized() {
    let d = Decimal::new(-0x0102_0304_0506_0708_090a_0b0ci128, 28).unwrap();
    assert_eq!(
        d.serialize(),
        [0, 0, 28, 0x80, 12, 11, 10, 9, 8, 7, 6, 5, 4, 3, 2, 1]
    );
}
