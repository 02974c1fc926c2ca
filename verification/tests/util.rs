use pcapng::util::pad_to_32bits;

#[test]
fn padding_of_small_lengths() {
    assert_eq!(pad_to_32bits(0), 0);
    assert_eq!(pad_to_32bits(1), 3);
    assert_eq!(pad_to_32bits(2), 2);
    assert_eq!(pad_to_32bits(3), 1);
    assert_eq!(pad_to_32bits(4), 0);
    assert_eq!(pad_to_32bits(5), 3);
    assert_eq!(pad_to_32bits(1500), 0);
    assert_eq!(pad_to_32bits(1501), 3);
}

#[test]
fn padding_is_below_four_and_aligns() {
    let mut n: usize = 0;
    while n < 1000 {
        let p = pad_to_32bits(n);
        assert!(p < 4);
        assert_eq!((n + p) % 4, 0);
        n += 1;
    }
}

#[test]
fn padding_is_the_least_that_aligns() {
    let mut n: usize = 0;
    while n < 200 {
        let p = pad_to_32bits(n);
        let mut q: usize = 0;
        while q < p {
            assert_ne!((n + q) % 4, 0);
            q += 1;
        }
        n += 1;
    }
}

#[test]
fn padding_of_the_largest_field_widths() {
    assert_eq!(pad_to_32bits(0xFFFF), 1);
    assert_eq!(pad_to_32bits(0xFFFF_FFFF), 1);
    assert_eq!(pad_to_32bits(0xFFFF_FFFC), 0);
    assert_eq!(pad_to_32bits(0xFFFF_FFFD), 3);
}
