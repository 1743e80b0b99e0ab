use pow_miner::difficulty::digest_meets_difficulty;
use pow_miner::partition::partition;
use pow_miner::text::push_decimal;
use pow_miner::text::push_hex;

#[test]
fn partition_gives_the_first_chunks_one_more() {
    assert_eq!(partition(0, 9, 3), vec![(0, 3), (4, 6), (7, 9)]);
    assert_eq!(partition(0, 10, 3), vec![(0, 3), (4, 7), (8, 10)]);
    assert_eq!(partition(100, 111, 4), vec![(100, 102), (103, 105), (106, 108), (109, 111)]);
    assert_eq!(partition(3, 9, 1), vec![(3, 9)]);
}

#[test]
fn partition_makes_no_empty_chunk() {
    assert_eq!(partition(5, 7, 10), vec![(5, 5), (6, 6), (7, 7)]);
    assert_eq!(partition(5, 5, 2345), vec![(5, 5)]);
    assert_eq!(partition(5, 7, 3), vec![(5, 5), (6, 6), (7, 7)]);
    assert_eq!(partition(u64::MAX, u64::MAX, u64::MAX), vec![(u64::MAX, u64::MAX)]);
}

#[test]
fn partition_reaches_the_largest_proof() {
    assert_eq!(partition(0, u64::MAX, 1), vec![(0, u64::MAX)]);
    assert_eq!(
        partition(0, u64::MAX, 2),
        vec![(0, 9223372036854775807), (9223372036854775808, u64::MAX)]
    );
    let thirds = partition(0, u64::MAX, 3);
    assert_eq!(
        thirds,
        vec![
            (0, 6148914691236517205),
            (6148914691236517206, 12297829382473034410),
            (12297829382473034411, u64::MAX)
        ]
    );
}

#[test]
fn partition_is_contiguous_and_exact() {
    let mut chunks: u64 = 1;
    while chunks <= 40 {
        let ranges = partition(17, 53, chunks);
        let expected_len = if chunks < 37 { chunks } else { 37 };
        assert_eq!(ranges.len() as u64, expected_len);
        assert_eq!(ranges[0].0, 17);
        assert_eq!(ranges[ranges.len() - 1].1, 53);
        let mut k = 0;
        while k < ranges.len() {
            assert!(ranges[k].0 <= ranges[k].1);
            let size = ranges[k].1 - ranges[k].0 + 1;
            let extra = if (k as u64) < 37 % expected_len { 1 } else { 0 };
            assert_eq!(size, 37 / expected_len + extra);
            if k + 1 < ranges.len() {
                assert_eq!(ranges[k].1 + 1, ranges[k + 1].0);
            }
            k += 1;
        }
        chunks += 1;
    }
}

#[test]
fn hex_text_is_lower_case_with_two_digits_per_byte() {
    let mut out = String::from("x");
    push_hex(&mut out, &[0x00, 0x0f, 0xa0, 0xff, 0x7b]);
    assert_eq!(out, "x000fa0ff7b");
    push_hex(&mut out, &[]);
    assert_eq!(out, "x000fa0ff7b");
    let mut all = String::new();
    push_hex(&mut all, &[0x01, 0x23, 0x45, 0x67, 0x89, 0xab, 0xcd, 0xef]);
    assert_eq!(all, "0123456789abcdef");
}

#[test]
fn decimal_text_has_no_leading_zero() {
    let mut out = String::new();
    push_decimal(&mut out, 0);
    assert_eq!(out, "0");
    push_decimal(&mut out, 10);
    assert_eq!(out, "010");
    push_decimal(&mut out, 9);
    assert_eq!(out, "0109");
    let mut out = String::new();
    push_decimal(&mut out, 6087348);
    assert_eq!(out, "6087348");
    let mut out = String::from(":");
    push_decimal(&mut out, u64::MAX);
    assert_eq!(out, ":18446744073709551615");
}

#[test]
fn difficulty_counts_low_order_bits_from_the_last_byte() {
    let zero = [0u8; 32];
    assert!(digest_meets_difficulty(&zero, 0));
    assert!(digest_meets_difficulty(&zero, 255));

    let ones = [0xffu8; 32];
    assert!(digest_meets_difficulty(&ones, 0));
    assert!(!digest_meets_difficulty(&ones, 1));

    let mut d = [0xffu8; 32];
    d[31] = 0x80;
    assert!(digest_meets_difficulty(&d, 7));
    assert!(!digest_meets_difficulty(&d, 8));
    d[31] = 0x00;
    d[30] = 0x00;
    d[29] = 0x10;
    assert!(digest_meets_difficulty(&d, 16));
    assert!(digest_meets_difficulty(&d, 20));
    assert!(!digest_meets_difficulty(&d, 21));
    assert!(!digest_meets_difficulty(&d, 24));

    let mut top = [0u8; 32];
    top[0] = 0x80;
    assert!(digest_meets_difficulty(&top, 255));
    top[0] = 0x40;
    assert!(digest_meets_difficulty(&top, 254));
    assert!(!digest_meets_difficulty(&top, 255));
    assert!(!digest_meets_difficulty(&top, 250 + 5));
    top[0] = 0;
    top[1] = 1;
    assert!(digest_meets_difficulty(&top, 240));
    assert!(!digest_meets_difficulty(&top, 241));
    assert!(!digest_meets_difficulty(&top, 248));
}
