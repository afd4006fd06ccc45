use initiative_manager::dice::{
    hp_input_ready, initiative_from_roll, initiative_input_valid, initiative_modifier,
    roll_initiative, Hp, HpPart,
};
use initiative_manager::numbers::{parse_i32, parse_u32};

fn parts_of(h: &Hp) -> Vec<HpPart> {
    let mut out = Vec::new();
    let mut i = 0;
    while i < h.part_count() {
        out.push(h.part(i));
        i += 1;
    }
    out
}

#[test]
fn parse_u32_accepts_digits_and_plus() {
    assert_eq!(parse_u32("0"), Some(0));
    assert_eq!(parse_u32("42"), Some(42));
    assert_eq!(parse_u32("+42"), Some(42));
    assert_eq!(parse_u32("007"), Some(7));
    assert_eq!(parse_u32("4294967295"), Some(u32::MAX));
    assert_eq!(parse_u32("4294967296"), None);
    assert_eq!(parse_u32(""), None);
    assert_eq!(parse_u32("+"), None);
    assert_eq!(parse_u32("-1"), None);
    assert_eq!(parse_u32("1a"), None);
    assert_eq!(parse_u32(" 1"), None);
}

#[test]
fn parse_i32_handles_signs_and_limits() {
    assert_eq!(parse_i32("15"), Some(15));
    assert_eq!(parse_i32("+3"), Some(3));
    assert_eq!(parse_i32("-3"), Some(-3));
    assert_eq!(parse_i32("2147483647"), Some(i32::MAX));
    assert_eq!(parse_i32("2147483648"), None);
    assert_eq!(parse_i32("-2147483648"), Some(i32::MIN));
    assert_eq!(parse_i32("-2147483649"), None);
    assert_eq!(parse_i32("-"), None);
    assert_eq!(parse_i32(""), None);
}

#[test]
fn hp_part_parses_number_roll_and_progress() {
    assert_eq!(HpPart::from_str(""), Ok(HpPart::Number(0)));
    assert_eq!(HpPart::from_str("17"), Ok(HpPart::Number(17)));
    assert_eq!(HpPart::from_str("3d6"), Ok(HpPart::Roll { n: 3, d: 6 }));
    assert_eq!(HpPart::from_str("2d"), Ok(HpPart::RollInProgress { n: 2 }));
    assert_eq!(HpPart::from_str("d6"), Err(()));
    assert_eq!(HpPart::from_str("1d2d3"), Err(()));
    assert_eq!(HpPart::from_str("x"), Err(()));
}

#[test]
fn hp_splits_on_plus_with_spaces() {
    let h = Hp::from_str("3d6+2").unwrap();
    assert_eq!(parts_of(&h), vec![HpPart::Roll { n: 3, d: 6 }, HpPart::Number(2)]);

    let h = Hp::from_str("3d6 + 2 + 1d4").unwrap();
    assert_eq!(
        parts_of(&h),
        vec![HpPart::Roll { n: 3, d: 6 }, HpPart::Number(2), HpPart::Roll { n: 1, d: 4 }]
    );

    let h = Hp::from_str("3d6+").unwrap();
    assert_eq!(parts_of(&h), vec![HpPart::Roll { n: 3, d: 6 }, HpPart::Number(0)]);

    let h = Hp::from_str("").unwrap();
    assert_eq!(parts_of(&h), vec![HpPart::Number(0)]);

    assert!(Hp::from_str(" 5").is_err());
    assert!(Hp::from_str("5 5").is_err());
}

#[test]
fn hp_new_is_a_plain_number() {
    let h = Hp::new(12);
    assert_eq!(parts_of(&h), vec![HpPart::Number(12)]);
    assert_eq!(h.into_number(), Some(12));
}

#[test]
fn incomplete_entry_is_distinguishable() {
    let h = Hp::from_str("2d").unwrap();
    assert_eq!(parts_of(&h), vec![HpPart::RollInProgress { n: 2 }]);
    assert!(!h.is_complete());
    assert_eq!(h.into_number(), None);
    assert!(!hp_input_ready("2d"));
    assert!(hp_input_ready(""));
    assert!(hp_input_ready("3d6+2"));
    assert!(!hp_input_ready("x"));
}

#[test]
fn resolution_stays_in_range() {
    for _ in 0..1000 {
        let h = Hp::from_str("3d6+2").unwrap();
        let v = h.into_number().unwrap();
        assert!((5..=20).contains(&v));
    }
}

#[test]
fn max_total_is_exact() {
    let h = Hp::from_str("3d6+2").unwrap();
    assert_eq!(h.max_total(), Some(20));
    assert!(h.rollable());
    let h = Hp::from_str("4294967295d2").unwrap();
    assert_eq!(h.max_total(), None);
    let h = Hp::from_str("3d0").unwrap();
    assert!(!h.rollable());
    let h = Hp::from_str("0d0").unwrap();
    assert!(h.rollable());
    assert_eq!(h.into_number(), Some(0));
}

#[test]
fn initiative_entry_validation() {
    assert!(initiative_input_valid(""));
    assert!(initiative_input_valid("-"));
    assert!(initiative_input_valid("+"));
    assert!(initiative_input_valid("-3"));
    assert!(initiative_input_valid("+3"));
    assert!(initiative_input_valid("17"));
    assert!(!initiative_input_valid("3-"));
    assert!(!initiative_input_valid("abc"));
    assert!(!initiative_input_valid("3000000000"));
}

#[test]
fn initiative_modifier_defaults_to_zero() {
    assert_eq!(initiative_modifier("-2"), -2);
    assert_eq!(initiative_modifier("+5"), 5);
    assert_eq!(initiative_modifier("-"), 0);
    assert_eq!(initiative_modifier(""), 0);
}

#[test]
fn initiative_from_roll_floors_at_zero() {
    assert_eq!(initiative_from_roll(12, 3), 15);
    assert_eq!(initiative_from_roll(2, -5), 0);
    assert_eq!(initiative_from_roll(5, -5), 0);
    assert_eq!(initiative_from_roll(20, 0), 20);
}

#[test]
fn rolled_initiative_stays_in_range() {
    for _ in 0..200 {
        let v = roll_initiative(3);
        assert!((4..=23).contains(&v));
        let v = roll_initiative(-30);
        assert_eq!(v, 0);
        let v = roll_initiative(0);
        assert!((1..=20).contains(&v));
    }
}
