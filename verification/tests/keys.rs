use randevu::calendar::CalendarDate;
use randevu::key::{create_key, encode, pad_key};

fn day(year: i32, month: u32, day: u32) -> CalendarDate {
    CalendarDate::new(year, month, day).unwrap()
}

fn text(year: i32, month: u32, day_of_month: u32, rank: Option<u32>) -> String {
    String::from_utf8(encode(&day(year, month, day_of_month), rank)).unwrap()
}

fn block(text: &str) -> [u8; 32] {
    let mut expected = [0u8; 32];
    expected[..text.len()].copy_from_slice(text.as_bytes());
    expected
}

#[test]
fn year_zero_has_four_zeros_and_no_sign() {
    assert_eq!(text(0, 1, 1, None), "0000-01-01");
    assert_eq!(create_key(&day(0, 1, 1), None), block("0000-01-01"));
}

#[test]
fn year_minus_one_has_a_minus_and_its_magnitude() {
    assert_eq!(text(-1, 12, 31, None), "-0001-12-31");
    assert_eq!(create_key(&day(-1, 12, 31), None), block("-0001-12-31"));
}

#[test]
fn year_ten_thousand_has_a_plus_and_five_digits() {
    assert_eq!(text(10000, 1, 1, None), "+10000-01-01");
    assert_eq!(create_key(&day(10000, 1, 1), None), block("+10000-01-01"));
}

#[test]
fn years_of_every_width() {
    assert_eq!(text(9999, 12, 31, None), "9999-12-31");
    assert_eq!(text(99999, 6, 15, None), "+99999-06-15");
    assert_eq!(text(100000, 6, 15, None), "+100000-06-15");
    assert_eq!(text(999999, 12, 31, None), "+999999-12-31");
    assert_eq!(text(-9999, 1, 1, None), "-9999-01-01");
    assert_eq!(text(-10000, 1, 1, None), "-10000-01-01");
    assert_eq!(text(-262143, 1, 1, None), "-262143-01-01");
    assert_eq!(text(-999999, 1, 1, None), "-999999-01-01");
    assert_eq!(text(7, 3, 4, None), "0007-03-04");
    assert_eq!(text(2024, 5, 10, None), "2024-05-10");
}

#[test]
fn rank_follows_an_underscore_without_leading_zeros() {
    assert_eq!(text(2024, 5, 10, Some(0)), "2024-05-10_0");
    assert_eq!(text(2024, 5, 10, Some(7)), "2024-05-10_7");
    assert_eq!(text(2024, 5, 10, Some(10)), "2024-05-10_10");
    assert_eq!(text(2024, 5, 10, Some(100)), "2024-05-10_100");
    assert_eq!(text(2024, 5, 10, Some(4294967295)), "2024-05-10_4294967295");
}

#[test]
fn longest_key_has_twenty_four_bytes() {
    let longest = encode(&day(-999999, 12, 31), Some(u32::MAX));
    assert_eq!(longest, b"-999999-12-31_4294967295".to_vec());
    assert_eq!(longest.len(), 24);
    assert_eq!(encode(&day(1, 1, 1), None).len(), 10);
}

#[test]
fn key_block_is_the_text_and_zeros() {
    let key = create_key(&day(2024, 5, 10), Some(100));
    assert_eq!(&key[..14], b"2024-05-10_100");
    assert!(key[14..].iter().all(|&b| b == 0));
    assert_eq!(key, block("2024-05-10_100"));
    assert_eq!(key, pad_key(&encode(&day(2024, 5, 10), Some(100))));
}

#[test]
fn pad_key_cuts_a_long_text_and_fills_a_short_one() {
    let long: Vec<u8> = (1..=40).collect();
    let cut = pad_key(&long);
    assert_eq!(cut.to_vec(), (1..=32).collect::<Vec<u8>>());
    assert_eq!(pad_key(&Vec::new()), [0u8; 32]);
    let exact: Vec<u8> = vec![9; 32];
    assert_eq!(pad_key(&exact), [9u8; 32]);
}

#[test]
fn keys_of_different_pairs_differ() {
    let dates = [
        day(2024, 5, 10),
        day(2024, 5, 11),
        day(2024, 6, 10),
        day(2025, 5, 10),
        day(-2024, 5, 10),
        day(20245, 1, 10),
        day(202, 4, 5),
        day(0, 1, 1),
        day(-1, 1, 1),
        day(1, 1, 1),
        day(10000, 1, 1),
        day(-10000, 1, 1),
        day(100000, 1, 1),
    ];
    let ranks = [None, Some(0), Some(1), Some(10), Some(100), Some(u32::MAX)];
    let mut keys: Vec<([u8; 32], usize, usize)> = Vec::new();
    for (i, date) in dates.iter().enumerate() {
        for (j, rank) in ranks.iter().enumerate() {
            keys.push((create_key(date, *rank), i, j));
        }
    }
    for a in &keys {
        for b in &keys {
            if (a.1, a.2) != (b.1, b.2) {
                assert_ne!(a.0, b.0);
            } else {
                assert_eq!(a.0, b.0);
            }
        }
    }
}

#[test]
fn no_rank_is_not_rank_zero() {
    assert_ne!(create_key(&day(2024, 5, 10), None), create_key(&day(2024, 5, 10), Some(0)));
    assert_ne!(encode(&day(2024, 5, 10), None), encode(&day(2024, 5, 10), Some(0)));
}

#[test]
fn keys_are_ascii_of_the_key_alphabet() {
    for rank in [None, Some(0), Some(987654321)] {
        for date in [day(-123456, 7, 8), day(2024, 12, 31), day(54321, 10, 20)] {
            for byte in encode(&date, rank) {
                assert!(byte == b'+' || byte == b'-' || byte == b'_' || byte.is_ascii_digit());
            }
        }
    }
}
