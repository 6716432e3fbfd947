use raycaster::utils::color::RGBColor;
use raycaster::utils::geometry::{Angle, Axis, Direction, Point};
use raycaster::utils::number::{fraction, integer_sqrt, multiply_divide, saturate, UNIT};

fn angle(x: i64, y: i64) -> Angle {
    Angle::from_vector(x, y).unwrap()
}

#[test]
fn unit_is_a_million() {
    assert_eq!(UNIT, 1_000_000);
}

#[test]
fn integer_sqrt_rounds_down() {
    assert_eq!(integer_sqrt(0), 0);
    assert_eq!(integer_sqrt(1), 1);
    assert_eq!(integer_sqrt(3), 1);
    assert_eq!(integer_sqrt(4), 2);
    assert_eq!(integer_sqrt(24), 4);
    assert_eq!(integer_sqrt(25), 5);
    assert_eq!(integer_sqrt(1_000_000_000_000), 1_000_000);
    assert_eq!(integer_sqrt(999_999_999_999), 999_999);
    assert_eq!(integer_sqrt(u128::MAX), u64::MAX);
}

#[test]
fn multiply_divide_rounds_toward_zero() {
    assert_eq!(multiply_divide(7, 1, 2), 3);
    assert_eq!(multiply_divide(-7, 1, 2), -3);
    assert_eq!(multiply_divide(7, 1, -2), -3);
    assert_eq!(multiply_divide(-7, -1, -2), -3);
    assert_eq!(multiply_divide(-7, 1, -2), 3);
    assert_eq!(multiply_divide(3, 5, 4), 3);
    assert_eq!(multiply_divide(-3, 5, 4), -3);
    assert_eq!(multiply_divide(3, 5, 0), 0);
    assert_eq!(multiply_divide(5, 1, i64::MIN), 0);
    assert_eq!(multiply_divide(i64::MIN, i64::MIN, 1), (i64::MIN as i128) * (i64::MIN as i128));
    assert_eq!(multiply_divide(i64::MIN, i64::MIN, -1), -(i64::MIN as i128) * (i64::MIN as i128));
    assert_eq!(multiply_divide(i64::MIN, i64::MAX, i64::MIN), i64::MAX as i128);
}

#[test]
fn fraction_is_never_negative() {
    assert_eq!(fraction(4_500_000), 500_000);
    assert_eq!(fraction(4_000_000), 0);
    assert_eq!(fraction(-500_000), 500_000);
    assert_eq!(fraction(-1_250_000), 750_000);
    assert_eq!(fraction(-3_000_000), 0);
    assert_eq!(fraction(0), 0);
}

#[test]
fn saturate_stays_within_i64() {
    assert_eq!(saturate(5), 5);
    assert_eq!(saturate(i64::MAX as i128 + 1), i64::MAX);
    assert_eq!(saturate(i64::MIN as i128 - 1), i64::MIN);
}

#[test]
fn angle_from_vector_has_unit_length() {
    let a = angle(3, 4);
    assert_eq!(a.cos(), 600_000);
    assert_eq!(a.sin(), 800_000);
    let b = angle(-5, 0);
    assert_eq!(b.cos(), -1_000_000);
    assert_eq!(b.sin(), 0);
    // the length 1.414213 of the stretched vector is rounded down
    let c = angle(1, 1);
    assert_eq!(c.cos(), 707_107);
    assert_eq!(c.sin(), 707_107);
    let d = angle(20, -1);
    assert_eq!(d.cos(), 998_752);
    assert_eq!(d.sin(), -49_937);
    let long = angle(1_000_000_000_000, 1_000_000_000_000);
    assert_eq!(long.cos(), 707_106);
    assert_eq!(long.sin(), 707_106);
    assert_eq!(angle(1_000_000_000_001, 1_000_000_000_001), long);
    let e = angle(i64::MIN, i64::MIN);
    assert_eq!(e.cos(), -707_106);
    assert_eq!(e.sin(), -707_106);
}

#[test]
fn angle_from_zero_vector_is_none() {
    assert!(Angle::from_vector(0, 0).is_none());
    assert!(Angle::from_vector(0, 1).is_some());
    assert!(Angle::from_vector(-1, 0).is_some());
}

#[test]
fn angle_plus_adds_angles() {
    let east = angle(1, 0);
    let north = angle(0, 1);
    let west = angle(-1, 0);
    let south = angle(0, -1);
    assert_eq!(east.plus(&north), north);
    assert_eq!(north.plus(&north), west);
    assert_eq!(west.plus(&north), south);
    assert_eq!(south.plus(&north), east);
    assert_eq!(north.plus(&east), north);
    let a = angle(3, 4);
    let twice = a.plus(&a);
    // cos 2a = 0.36 - 0.64, sin 2a = 2 * 0.6 * 0.8
    assert_eq!(twice.cos(), -280_000);
    assert_eq!(twice.sin(), 960_000);
}

#[test]
fn angle_negate_mirrors_at_the_x_axis() {
    let a = angle(3, 4);
    assert_eq!(a.negate().cos(), 600_000);
    assert_eq!(a.negate().sin(), -800_000);
    assert_eq!(a.plus(&a.negate()), angle(1, 0));
}

#[test]
fn direction_follows_the_sign_of_cosine_and_sine() {
    let up_right = angle(3, 4);
    assert_eq!(Direction::from_angle(&up_right, &Axis::X), Direction::Increasing);
    assert_eq!(Direction::from_angle(&up_right, &Axis::Y), Direction::Increasing);
    let down_left = angle(-3, -4);
    assert_eq!(Direction::from_angle(&down_left, &Axis::X), Direction::Decreasing);
    assert_eq!(Direction::from_angle(&down_left, &Axis::Y), Direction::Decreasing);
    // A line along an axis counts as decreasing on the other one.
    let east = angle(1, 0);
    assert_eq!(Direction::from_angle(&east, &Axis::X), Direction::Increasing);
    assert_eq!(Direction::from_angle(&east, &Axis::Y), Direction::Decreasing);
    let north = angle(0, 1);
    assert_eq!(Direction::from_angle(&north, &Axis::X), Direction::Decreasing);
    assert_eq!(Direction::from_angle(&north, &Axis::Y), Direction::Increasing);
}

#[test]
fn point_add_moves_along_the_angle() {
    let start = Point { x: 4_500_000, y: 5_500_000 };
    assert_eq!(start.add(200_000, &angle(1, 0)), Point { x: 4_700_000, y: 5_500_000 });
    assert_eq!(start.add(-200_000, &angle(1, 0)), Point { x: 4_300_000, y: 5_500_000 });
    assert_eq!(start.add(1_000_000, &angle(3, 4)), Point { x: 5_100_000, y: 6_300_000 });
    assert_eq!(start.add(1_000_000, &angle(-3, -4)), Point { x: 3_900_000, y: 4_700_000 });
    assert_eq!(start.add(0, &angle(3, 4)), start);
    // products are rounded toward zero
    assert_eq!(Point { x: 0, y: 0 }.add(3, &angle(3, 4)), Point { x: 1, y: 2 });
    assert_eq!(Point { x: 0, y: 0 }.add(-3, &angle(3, 4)), Point { x: -1, y: -2 });
}

#[test]
fn point_add_stops_at_the_end_of_the_range() {
    let far = Point { x: i64::MAX - 5, y: i64::MIN + 5 };
    assert_eq!(far.add(100, &angle(1, 0)), Point { x: i64::MAX, y: i64::MIN + 5 });
    assert_eq!(far.add(100, &angle(0, -1)), Point { x: i64::MAX - 5, y: i64::MIN });
    assert_eq!(far.add(i64::MAX, &angle(1, 0)), Point { x: i64::MAX, y: i64::MIN + 5 });
}

#[test]
fn point_component_picks_the_coordinate() {
    let point = Point { x: 1, y: 2 };
    assert_eq!(point.component(&Axis::X), 1);
    assert_eq!(point.component(&Axis::Y), 2);
}

#[test]
fn closest_grid_line_axis_compares_the_distances() {
    assert_eq!(Point { x: 10_000_000, y: 5_500_000 }.closest_grid_line_axis(), Axis::X);
    assert_eq!(Point { x: 5_500_000, y: 10_000_000 }.closest_grid_line_axis(), Axis::Y);
    assert_eq!(Point { x: 5_900_000, y: 5_200_000 }.closest_grid_line_axis(), Axis::X);
    assert_eq!(Point { x: 5_700_000, y: 5_200_000 }.closest_grid_line_axis(), Axis::Y);
    // equally near: Y
    assert_eq!(Point { x: 5_500_000, y: 5_500_000 }.closest_grid_line_axis(), Axis::Y);
    assert_eq!(Point { x: 3_000_000, y: 7_000_000 }.closest_grid_line_axis(), Axis::Y);
    // below zero the distance to the next line counts as well
    assert_eq!(Point { x: -100_000, y: -400_000 }.closest_grid_line_axis(), Axis::X);
    assert_eq!(Point { x: -600_000, y: -900_001 }.closest_grid_line_axis(), Axis::Y);
}

#[test]
fn colors_have_their_channels() {
    assert_eq!(RGBColor::black(), RGBColor { red: 0, green: 0, blue: 0 });
    assert_eq!(RGBColor::dark_gray(), RGBColor { red: 50, green: 50, blue: 50 });
    assert_eq!(RGBColor::red(), RGBColor { red: 180, green: 0, blue: 0 });
    assert_eq!(RGBColor::green(), RGBColor { red: 50, green: 128, blue: 0 });
    assert_eq!(RGBColor::blue(), RGBColor { red: 0, green: 64, blue: 128 });
    assert_eq!(RGBColor::yellow(), RGBColor { red: 255, green: 184, blue: 0 });
    assert_eq!(RGBColor::orange(), RGBColor { red: 255, green: 80, blue: 0 });
}

#[test]
fn adjust_light_intensity_darkens_each_channel() {
    let yellow = RGBColor::yellow();
    assert_eq!(yellow.adjust_light_intensity(1_000_000), yellow);
    assert_eq!(yellow.adjust_light_intensity(500_000), RGBColor { red: 127, green: 92, blue: 0 });
    assert_eq!(yellow.adjust_light_intensity(945_000), RGBColor { red: 240, green: 173, blue: 0 });
    assert_eq!(yellow.adjust_light_intensity(0), RGBColor::black());
    assert_eq!(yellow.adjust_light_intensity(1), RGBColor::black());
}

#[test]
fn adjust_light_intensity_never_brightens() {
    let blue = RGBColor::blue();
    assert_eq!(blue.adjust_light_intensity(2_000_000), blue);
    assert_eq!(blue.adjust_light_intensity(i64::MAX), blue);
    assert_eq!(blue.adjust_light_intensity(-1), RGBColor::black());
    assert_eq!(blue.adjust_light_intensity(i64::MIN), RGBColor::black());
}

#[test]
fn angle_lies_on_the_unit_circle() {
    let vectors = [
        (1, 0),
        (1, 1),
        (-7, 3),
        (20, -1),
        (-1, -1_000_000),
        (750_000, 498_750),
        (1_000_000_000_000, 1),
        (1_000_000_000_001, -1),
        (i64::MAX, i64::MIN),
        (i64::MIN, 12_345),
    ];
    for (x, y) in vectors {
        let a = angle(x, y);
        let square = a.cos() * a.cos() + a.sin() * a.sin();
        assert!(square >= 1_000_000_000_000 - 5_000_000, "too short for {} {}", x, y);
        assert!(square <= 1_000_000_000_000 + 2_000_000, "too long for {} {}", x, y);
        // the direction is that of the vector
        assert_eq!(a.cos() > 0, x > 0);
        assert_eq!(a.cos() < 0, x < 0 && (x as i128).abs() * 1_000_000 >= (y as i128).abs());
    }
}
