use randevu::calendar::{CalendarDate, NANOS_PER_DAY};
use randevu::hash::HashMode;
use randevu::legacy;
use randevu::{rdv, rdv_with_mode, rdvt};

fn on(year: i32, month: u32, day: u32) -> CalendarDate {
    CalendarDate::new(year, month, day).unwrap()
}

#[test]
fn legacy_level_of_no_boilerplate() {
    assert_eq!(legacy::rdv("NO_BOILERPLATE", "2024-01-26"), 11);
    assert_eq!(rdv_with_mode(HashMode::LegacyUnkeyed, "NO_BOILERPLATE", &on(2024, 1, 26)), 11);
}

#[test]
fn legacy_level_of_shrek() {
    assert_eq!(legacy::rdv("SHREK_2001", "2024-01-26"), 8);
    assert_eq!(rdv_with_mode(HashMode::LegacyUnkeyed, "SHREK_2001", &on(2024, 1, 26)), 8);
}

#[test]
fn keyed_level_of_corejourney() {
    assert_eq!(rdv_with_mode(HashMode::KeyedCanonical, "COREJOURNEY", &on(2024, 5, 10)), 0);
}

#[test]
fn keyed_level_of_no_boilerplate() {
    assert_eq!(rdv_with_mode(HashMode::KeyedCanonical, "NO_BOILERPLATE", &on(2024, 5, 10)), 9);
}

#[test]
fn the_two_modes_give_different_levels() {
    let date = on(2024, 2, 29);
    assert_eq!(rdv_with_mode(HashMode::KeyedCanonical, "THE_SIMPSONS", &date), 3);
    assert_eq!(rdv_with_mode(HashMode::LegacyUnkeyed, "THE_SIMPSONS", &date), 0);
    assert_eq!(rdv("THE_SIMPSONS", &date), 3);
}

#[test]
fn levels_in_years_with_a_sign() {
    assert_eq!(rdv("RANDEVU", &on(0, 1, 1)), 3);
    assert_eq!(rdv("RANDEVU", &on(-1, 12, 31)), 0);
    assert_eq!(rdv("RANDEVU", &on(10000, 1, 1)), 0);
    assert_eq!(legacy::rdv("RANDEVU", "0000-01-01"), 6);
    assert_eq!(rdv_with_mode(HashMode::LegacyUnkeyed, "RANDEVU", &on(0, 1, 1)), 6);
    assert_eq!(legacy::rdv("RANDEVU", "-0001-12-31"), 2);
    assert_eq!(rdv_with_mode(HashMode::LegacyUnkeyed, "RANDEVU", &on(-1, 12, 31)), 2);
    assert_eq!(rdv_with_mode(HashMode::LegacyUnkeyed, "RANDEVU", &on(10000, 1, 1)), 0);
    assert_eq!(legacy::rdv("RANDEVU", "+10000-01-01"), 0);
}

#[test]
fn names_are_hashed_as_utf8() {
    assert_eq!(rdv("日本語", &on(2024, 5, 10)), 3);
    assert_eq!(rdv("", &on(2024, 5, 10)), 1);
}

#[test]
fn instants_in_years_with_a_sign() {
    assert_eq!(rdvt(0, "RANDEVU", &on(0, 1, 1)).nanos_since_midnight(), 81_609_702_947_151);
    assert_eq!(rdvt(u32::MAX, "RANDEVU", &on(0, 1, 1)).nanos_since_midnight(), 13_386_335_089_533);
    assert_eq!(rdvt(0, "RANDEVU", &on(-1, 12, 31)).nanos_since_midnight(), 61_706_613_393_835);
    assert_eq!(rdvt(0, "RANDEVU", &on(10000, 1, 1)).nanos_since_midnight(), 60_153_744_571_827);
    assert_eq!(rdvt(0, "THE_SIMPSONS", &on(2024, 2, 29)).nanos_since_midnight(), 26_214_489_952_459);
}

#[test]
fn instant_of_corejourney_in_nanoseconds() {
    let instant = rdvt(0, "COREJOURNEY", &on(2024, 5, 10));
    assert_eq!(instant.date(), on(2024, 5, 10));
    assert_eq!(instant.nanos_since_midnight(), ((8 * 60 + 34) * 60 + 51) * 1_000_000_000 + 226_747_801);
}

#[test]
fn instant_of_no_boilerplate_in_nanoseconds() {
    let instant = rdvt(100, "NO_BOILERPLATE", &on(2024, 5, 10));
    assert_eq!(instant.date(), on(2024, 5, 10));
    assert_eq!(instant.nanos_since_midnight(), (27 * 60 + 37) * 1_000_000_000 + 142_724_096);
}

#[test]
fn levels_are_at_most_256() {
    let names = ["", "A", "RANDEVU", "THE_SIMPSONS", "NO_BOILERPLATE", "x y z"];
    let dates = [on(2024, 5, 10), on(0, 1, 1), on(-262143, 1, 1), on(999999, 12, 31)];
    for name in names {
        for date in &dates {
            assert!(rdv(name, date) <= 256);
            assert!(rdv_with_mode(HashMode::LegacyUnkeyed, name, date) <= 256);
        }
    }
}

#[test]
fn instants_lie_within_their_day() {
    let names = ["", "A", "RANDEVU", "THE_SIMPSONS"];
    let dates = [on(2024, 5, 10), on(0, 1, 1), on(-262143, 1, 1), on(999999, 12, 31)];
    for name in names {
        for date in &dates {
            for rank in [0, 1, 2, 1000, u32::MAX] {
                let instant = rdvt(rank, name, date);
                assert_eq!(instant.date(), *date);
                assert!(instant.nanos_since_midnight() < NANOS_PER_DAY);
            }
        }
    }
}

#[test]
fn equal_inputs_give_equal_results() {
    let date = on(2024, 5, 10);
    let again = on(2024, 5, 10);
    for name in ["COREJOURNEY", "NO_BOILERPLATE", "THE_SIMPSONS"] {
        assert_eq!(rdv(name, &date), rdv(&name.to_string(), &again));
        assert_eq!(rdvt(5, name, &date), rdvt(5, &name.to_string(), &again));
        assert_eq!(legacy::rdv(name, "2024-05-10"), legacy::rdv(name, "2024-05-10"));
    }
}

#[test]
fn ranks_are_independent_draws() {
    let date = on(2024, 5, 10);
    let first = rdvt(0, "COREJOURNEY", &date);
    let second = rdvt(1, "COREJOURNEY", &date);
    assert_ne!(first, second);
    assert_ne!(rdvt(0, "COREJOURNEY", &on(2024, 5, 11)).nanos_since_midnight(), first.nanos_since_midnight());
}
