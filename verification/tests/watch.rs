use randevu::watch::{parse_record, white, Watched};

fn chars(text: &str) -> Vec<char> {
    text.chars().collect()
}

fn record(name: &str, threshold: u32) -> Option<Watched> {
    Some(Watched { name: chars(name), threshold })
}

#[test]
fn a_name_and_a_level_are_a_record() {
    assert_eq!(parse_record(&chars("RANDEVU 5")), record("RANDEVU", 5));
    assert_eq!(parse_record(&chars("THE_SIMPSONS 12")), record("THE_SIMPSONS", 12));
    assert_eq!(parse_record(&chars("A 0")), record("A", 0));
}

#[test]
fn a_line_without_exactly_one_space_is_no_record() {
    assert_eq!(parse_record(&chars("")), None);
    assert_eq!(parse_record(&chars("RANDEVU")), None);
    assert_eq!(parse_record(&chars("RANDEVU5")), None);
    assert_eq!(parse_record(&chars("RANDEVU  5")), None);
    assert_eq!(parse_record(&chars("THE SIMPSONS 5")), None);
    assert_eq!(parse_record(&chars(" RANDEVU 5")), None);
    assert_eq!(parse_record(&chars("RANDEVU 5 ")), None);
    assert_eq!(parse_record(&chars("RANDEVU\t5")), None);
}

#[test]
fn a_level_that_is_no_number_is_no_record() {
    assert_eq!(parse_record(&chars("RANDEVU five")), None);
    assert_eq!(parse_record(&chars("RANDEVU ")), None);
    assert_eq!(parse_record(&chars("RANDEVU -5")), None);
    assert_eq!(parse_record(&chars("RANDEVU 5.0")), None);
    assert_eq!(parse_record(&chars("RANDEVU +")), None);
    assert_eq!(parse_record(&chars("RANDEVU ++5")), None);
    assert_eq!(parse_record(&chars("RANDEVU 5x")), None);
    assert_eq!(parse_record(&chars("RANDEVU 0x10")), None);
    assert_eq!(parse_record(&chars("RANDEVU ٥")), None);
    assert_eq!(parse_record(&chars("RANDEVU 1_000")), None);
}

#[test]
fn a_level_may_have_a_plus_and_leading_zeros() {
    assert_eq!(parse_record(&chars("RANDEVU +5")), record("RANDEVU", 5));
    assert_eq!(parse_record(&chars("RANDEVU 0005")), record("RANDEVU", 5));
    assert_eq!(parse_record(&chars("RANDEVU +000")), record("RANDEVU", 0));
    assert_eq!(parse_record(&chars("RANDEVU 00000000000000000042")), record("RANDEVU", 42));
}

#[test]
fn a_level_fits_thirty_two_bits() {
    assert_eq!(parse_record(&chars("RANDEVU 4294967295")), record("RANDEVU", u32::MAX));
    assert_eq!(parse_record(&chars("RANDEVU 4294967296")), None);
    assert_eq!(parse_record(&chars("RANDEVU 4294967300")), None);
    assert_eq!(parse_record(&chars("RANDEVU 42949672950")), None);
    assert_eq!(parse_record(&chars("RANDEVU 99999999999999999999999")), None);
    assert_eq!(parse_record(&chars("RANDEVU 4294967290")), record("RANDEVU", 4294967290));
}

#[test]
fn white_space_around_both_fields_is_dropped() {
    assert_eq!(parse_record(&chars("RANDEVU 5\r")), record("RANDEVU", 5));
    assert_eq!(parse_record(&chars("\tRANDEVU\t \t5\t")), record("RANDEVU", 5));
    assert_eq!(parse_record(&chars("\u{a0}RANDEVU\u{3000} \u{2003}5\u{85}")), record("RANDEVU", 5));
    assert_eq!(parse_record(&chars("A\tB 5")), record("A\tB", 5));
    assert_eq!(parse_record(&chars("RANDEVU 5\t5")), None);
}

#[test]
fn a_name_may_be_empty() {
    assert_eq!(parse_record(&chars(" 5")), record("", 5));
    assert_eq!(parse_record(&chars("\t 5")), record("", 5));
}

#[test]
fn parsing_agrees_with_split_trim_and_parse() {
    let lines = [
        "RANDEVU 5", "RANDEVU  5", "RANDEVU", "", " ", "  ", "a b", "a +1", "a -1", "a 1 ", "\ta\t 7\t", "a 4294967295",
        "a 4294967296", "é 3", "a \u{2009}3", "a 3\u{200b}", "a +", "+ +0", "a 00", "a\u{1680} 1",
    ];
    for line in lines {
        let parts: Vec<&str> = line.split(' ').collect();
        let expected = if parts.len() == 2 {
            match parts[1].trim().parse::<u32>() {
                Ok(value) => record(parts[0].trim(), value),
                Err(_) => None,
            }
        } else {
            None
        };
        assert_eq!(parse_record(&chars(line)), expected, "{:?}", line);
    }
}

#[test]
fn white_space_is_what_unicode_lists() {
    for code in (0..=0xffffu32).chain((0x10000..=0x10ffff).step_by(257)) {
        if let Some(c) = char::from_u32(code) {
            assert_eq!(white(c), c.is_whitespace(), "{:x}", code);
        }
    }
    assert!(white(' ') && white('\t') && white('\n') && white('\r') && white('\u{3000}'));
    assert!(!white('a') && !white('0') && !white('_') && !white('\u{200b}') && !white('\0'));
}

#[test]
fn a_level_at_the_threshold_is_worth_a_notice() {
    let watched = Watched { name: chars("RANDEVU"), threshold: 5 };
    assert!(watched.reached_by(5));
    assert!(watched.reached_by(6));
    assert!(watched.reached_by(256));
    assert!(!watched.reached_by(4));
    assert!(!watched.reached_by(0));
    assert!(Watched { name: chars(""), threshold: 0 }.reached_by(0));
}
