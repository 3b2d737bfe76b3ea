use aviation::airspeed::{Airspeed, BaseComponent, CrossComponent, WindComponents};

// Speeds are in hundredths: 2000 is 20.00.

#[test]
fn airspeed_test() {
    assert_eq!(Airspeed::from_dir_and_speed(270, 2000).speed, 2000)
}

#[test]
fn airspeed_math_test1() {
    let expected = WindComponents::from_raw(1732, -1000);
    println!("wind from {} at {:02} using runway {} {:?}", 270, 20.0, 30, expected);
    assert_eq!(Airspeed::from_dir_and_speed(270, 2000).components(300), expected);
}

#[test]
fn airspeed_math_test2() {
    let expected = WindComponents::from_raw(1732, 1000);
    println!("wind from {} at {:02} using runway {} {:?}", 270, 20.0, 24, expected);
    assert_eq!(Airspeed::from_dir_and_speed(270, 2000).components(240), expected);
}

#[test]
fn airspeed_math_test3() {
    let expected = WindComponents::from_raw(1732, -1000);
    println!("wind from {} at {:02} using runway {} {:?}", 350, 20.0, 2, expected);
    assert_eq!(Airspeed::from_dir_and_speed(350, 2000).components(20), expected);
}

#[test]
fn airspeed_math_test4() {
    let expected = WindComponents::from_raw(-1879, -684);
    println!("wind from {} at {:02} using runway {} {:?}", 270, 20.0, 7, expected);
    assert_eq!(Airspeed::from_dir_and_speed(270, 2000).components(70), expected);
}

#[test]
fn air_plus3() {
    let course = Airspeed::from_dir_and_speed(90, 12400);
    let wind = Airspeed::from_dir_and_speed(130, 1500);
    let expected = Airspeed::from_dir_and_speed(86, 13583);
    assert_eq!(course.plus(wind), expected);
}

#[test]
fn air_plus() {
    let course = Airspeed::from_dir_and_speed(90, 12400);
    let wind = Airspeed::from_dir_and_speed(50, 1500);
    let expected = Airspeed::from_dir_and_speed(94, 13583);
    assert_eq!(course.plus(wind), expected);
}

#[test]
fn components_literal_variants() {
    let w = Airspeed::from_dir_and_speed(270, 2000);
    assert_eq!(
        w.components(300),
        WindComponents { base: BaseComponent::Headwind(1732), cross: CrossComponent::LeftCross(1000) }
    );
    assert_eq!(
        w.components(240),
        WindComponents { base: BaseComponent::Headwind(1732), cross: CrossComponent::RightCross(1000) }
    );
}

#[test]
fn components_same_after_full_turn_of_heading() {
    let w = Airspeed::from_dir_and_speed(270, 2000);
    assert_eq!(w.components(300), w.components(660));
    assert_eq!(w.components(240), w.components(-120));
    let v = Airspeed::from_dir_and_speed(-35, 4321);
    assert_eq!(v.components(17), v.components(17 + 720));
}

#[test]
fn components_wrap_offset_by_full_turn() {
    // 10 - 300 = -290 is 70 degrees once a whole turn is added.
    let w = Airspeed::from_dir_and_speed(10, 2000);
    assert_eq!(
        w.components(300),
        WindComponents { base: BaseComponent::Headwind(684), cross: CrossComponent::RightCross(1879) }
    );
}

#[test]
fn components_zero_goes_to_tailwind_and_left() {
    let beam = Airspeed::from_dir_and_speed(90, 2000);
    assert_eq!(
        beam.components(0),
        WindComponents { base: BaseComponent::Tailwind(0), cross: CrossComponent::RightCross(2000) }
    );
    let calm = Airspeed::from_dir_and_speed(123, 0);
    assert_eq!(
        calm.components(45),
        WindComponents { base: BaseComponent::Tailwind(0), cross: CrossComponent::LeftCross(0) }
    );
    assert_eq!(
        WindComponents::from_raw(0, 0),
        WindComponents { base: BaseComponent::Tailwind(0), cross: CrossComponent::LeftCross(0) }
    );
}

#[test]
fn components_round_halves_away_from_zero() {
    // 0.01 * cos(60) = 0.005 rounds up to 0.01; 0.01 * cos(120) = -0.005 to -0.01.
    let w = Airspeed::from_dir_and_speed(60, 1);
    assert_eq!(w.components(0).base, BaseComponent::Headwind(1));
    let v = Airspeed::from_dir_and_speed(120, 1);
    assert_eq!(v.components(0).base, BaseComponent::Tailwind(1));
    assert_eq!(v.components(0).cross, CrossComponent::RightCross(1));
}

#[test]
fn components_headwind_and_tailwind() {
    let w = Airspeed::from_dir_and_speed(0, 1000);
    assert_eq!(
        w.components(0),
        WindComponents { base: BaseComponent::Headwind(1000), cross: CrossComponent::LeftCross(0) }
    );
    assert_eq!(
        w.components(180),
        WindComponents { base: BaseComponent::Tailwind(1000), cross: CrossComponent::LeftCross(0) }
    );
}

#[test]
fn plus_opposite_equal_vectors_is_zero() {
    let a = Airspeed::from_dir_and_speed(0, 1000);
    let b = Airspeed::from_dir_and_speed(180, 1000);
    assert_eq!(a.plus(b), Airspeed::from_dir_and_speed(0, 0));
    let still = Airspeed::from_dir_and_speed(45, 0);
    assert_eq!(still.plus(still), Airspeed::from_dir_and_speed(0, 0));
}

#[test]
fn air_plus2() {
    // Earlier expectations for these inputs gave (40, 74.00), which the law of
    // cosines does not: sqrt(100^2 + 40^2 - 2 * 100 * 40 * cos 60) = 87.18 and
    // asin(40 sin 60 / 87.18) = 23.4, so 60 - 23 = 37.
    let course = Airspeed::from_dir_and_speed(60, 10000);
    let wind = Airspeed::from_dir_and_speed(180, 4000);
    let expected = Airspeed::from_dir_and_speed(37, 8718);
    assert_eq!(course.plus(wind), expected);
}

#[test]
fn plus_small_interior_angle_keeps_precision() {
    // 200 * sin(0.5 deg) = 1.7453, which rounds to 1.75
    let a = Airspeed::from_dir_and_speed(0, 10000);
    let b = Airspeed::from_dir_and_speed(179, 10000);
    assert_eq!(a.plus(b), Airspeed::from_dir_and_speed(-89, 175));
}

#[test]
fn components_large_speed_keeps_precision() {
    // 42949672.95 * cos(1 deg) = 42943131.506778, * sin(1 deg) = 749575.148672
    let strong = Airspeed::from_dir_and_speed(1, u32::MAX);
    assert_eq!(
        strong.components(0),
        WindComponents {
            base: BaseComponent::Headwind(4_294_313_151),
            cross: CrossComponent::RightCross(74_957_515),
        }
    );
}

#[test]
fn plus_without_wind_keeps_course() {
    let course = Airspeed::from_dir_and_speed(90, 12400);
    let calm = Airspeed::from_dir_and_speed(0, 0);
    assert_eq!(course.plus(calm), course);
}

#[test]
fn plus_same_direction_adds_speeds() {
    // diff 0: interior angle 180, cos = -1, so the magnitudes add.
    let a = Airspeed::from_dir_and_speed(200, 1250);
    let b = Airspeed::from_dir_and_speed(200, 750);
    assert_eq!(a.plus(b), Airspeed::from_dir_and_speed(200, 2000));
}

#[test]
fn plus_truncates_correction() {
    // the correction is -8.95 degrees: 90 - 8 = 82, not 81; 111.3553 rounds to 111.36
    let course = Airspeed::from_dir_and_speed(90, 10000);
    let wind = Airspeed::from_dir_and_speed(150, 2000);
    assert_eq!(course.plus(wind), Airspeed::from_dir_and_speed(82, 11136));
}

#[test]
fn base_component_as_signed_value() {
    let head: i64 = BaseComponent::Headwind(1732).into();
    let tail: i64 = BaseComponent::Tailwind(684).into();
    assert_eq!(head, 1732);
    assert_eq!(tail, -684);
}

#[test]
fn largest_speeds() {
    let strong = Airspeed::from_dir_and_speed(0, u32::MAX);
    assert_eq!(
        strong.components(0),
        WindComponents { base: BaseComponent::Headwind(u32::MAX), cross: CrossComponent::LeftCross(0) }
    );
    let a = Airspeed::from_dir_and_speed(0, 2_147_483_648);
    let b = Airspeed::from_dir_and_speed(0, 2_147_483_647);
    assert_eq!(a.plus(b), Airspeed::from_dir_and_speed(0, u32::MAX));
}
