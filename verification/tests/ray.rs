use raycaster::renderer::ray::{Ray, REACH};
use raycaster::utils::geometry::{Angle, Point};

fn angle(x: i64, y: i64) -> Angle {
    Angle::from_vector(x, y).unwrap()
}

#[test]
fn new_ray_ends_where_it_starts() {
    let start = Point { x: 4_500_000, y: 5_500_000 };
    let ray = Ray::new(start, angle(1, 0));
    assert_eq!(ray.start, start);
    assert_eq!(ray.end, start);
    assert_eq!(ray.angle, angle(1, 0));
    assert_eq!(ray.length, 0);
}

#[test]
fn grow_along_the_x_axis_steps_from_line_to_line() {
    let start = Point { x: 4_500_000, y: 5_500_000 };
    let ray = Ray::new(start, angle(1, 0)).grow().unwrap();
    assert_eq!(ray.start, start);
    assert_eq!(ray.end, Point { x: 5_000_000, y: 5_500_000 });
    assert_eq!(ray.length, 500_000);
    let ray = ray.grow().unwrap();
    assert_eq!(ray.end, Point { x: 6_000_000, y: 5_500_000 });
    assert_eq!(ray.length, 1_500_000);
    let ray = ray.grow().unwrap();
    assert_eq!(ray.end, Point { x: 7_000_000, y: 5_500_000 });
    assert_eq!(ray.length, 2_500_000);
}

#[test]
fn grow_against_the_x_axis_steps_down() {
    let start = Point { x: 4_500_000, y: 5_500_000 };
    let ray = Ray::new(start, angle(-1, 0)).grow().unwrap();
    assert_eq!(ray.end, Point { x: 4_000_000, y: 5_500_000 });
    assert_eq!(ray.length, 500_000);
    // from a grid line the next one is a whole tile away
    let ray = ray.grow().unwrap();
    assert_eq!(ray.end, Point { x: 3_000_000, y: 5_500_000 });
    assert_eq!(ray.length, 1_500_000);
}

#[test]
fn grow_along_the_y_axis_steps_from_line_to_line() {
    let start = Point { x: 4_500_000, y: 5_250_000 };
    let up = Ray::new(start, angle(0, 1)).grow().unwrap();
    assert_eq!(up.end, Point { x: 4_500_000, y: 6_000_000 });
    assert_eq!(up.length, 750_000);
    let down = Ray::new(start, angle(0, -1)).grow().unwrap();
    assert_eq!(down.end, Point { x: 4_500_000, y: 5_000_000 });
    assert_eq!(down.length, 250_000);
    let down = down.grow().unwrap();
    assert_eq!(down.end, Point { x: 4_500_000, y: 4_000_000 });
    assert_eq!(down.length, 1_250_000);
}

#[test]
fn grow_takes_the_nearer_crossing() {
    // slope 4/3 from (0.5, 0.5): the line y = 1 is met at x = 0.875, the line x = 1 at
    // y = 1.1666
    let start = Point { x: 500_000, y: 500_000 };
    let ray = Ray::new(start, angle(3, 4)).grow().unwrap();
    assert_eq!(ray.end, Point { x: 875_000, y: 1_000_000 });
    assert_eq!(ray.length, 625_000);
    let ray = ray.grow().unwrap();
    assert_eq!(ray.end, Point { x: 1_000_000, y: 1_166_666 });
    assert_eq!(ray.length, 833_332);
    let ray = ray.grow().unwrap();
    assert_eq!(ray.end, Point { x: 1_625_000, y: 2_000_000 });
    assert_eq!(ray.length, 1_875_000);
}

#[test]
fn grow_on_equal_distance_takes_the_y_line() {
    let start = Point { x: 500_000, y: 500_000 };
    let ray = Ray::new(start, angle(1, 1)).grow().unwrap();
    assert_eq!(ray.end, Point { x: 1_000_000, y: 1_000_000 });
    assert_eq!(ray.length, 707_106);
    let ray = ray.grow().unwrap();
    assert_eq!(ray.end, Point { x: 2_000_000, y: 2_000_000 });
    assert_eq!(ray.length, 2_121_320);
}

#[test]
fn grow_downward_to_the_left() {
    let start = Point { x: 500_000, y: 500_000 };
    let ray = Ray::new(start, angle(-4, -3)).grow().unwrap();
    assert_eq!(ray.end, Point { x: 0, y: 125_000 });
    assert_eq!(ray.length, 625_000);
    let ray = ray.grow().unwrap();
    assert_eq!(ray.end, Point { x: -166_666, y: 0 });
    assert_eq!(ray.length, 833_332);
}

#[test]
fn grow_lengthens_and_lands_on_a_grid_line() {
    let start = Point { x: 4_321_987, y: -2_718_281 };
    for (x, y) in [(7, 3), (-2, 9), (-5, -1), (4, -11), (1, 0), (0, 1), (-1, 0), (0, -1), (1, 1000)]
    {
        let mut ray = Ray::new(start, angle(x, y));
        for _ in 0..200 {
            let grown = ray.grow().unwrap();
            assert!(grown.length >= ray.length);
            let before = (ray.end.x - start.x).pow(2) + (ray.end.y - start.y).pow(2);
            let after = (grown.end.x - start.x).pow(2) + (grown.end.y - start.y).pow(2);
            assert!(after > before);
            assert!(grown.end.x % 1_000_000 == 0 || grown.end.y % 1_000_000 == 0);
            assert_eq!(grown.start, start);
            assert_eq!(grown.angle, ray.angle);
            ray = grown;
        }
    }
}

#[test]
fn grow_stops_out_of_reach() {
    let start = Point { x: 0, y: 0 };
    let near_the_end = Ray {
        start,
        end: Point { x: REACH, y: 0 },
        angle: angle(1, 0),
        length: REACH,
    };
    assert_eq!(near_the_end.grow(), None);
    let before_the_end = Ray {
        start,
        end: Point { x: REACH - 1_000_000, y: 0 },
        angle: angle(1, 0),
        length: REACH - 1_000_000,
    };
    let grown = before_the_end.grow().unwrap();
    assert_eq!(grown.end, Point { x: REACH, y: 0 });
    assert_eq!(grown.length, REACH);
}

#[test]
fn grow_stops_at_the_end_of_the_range() {
    let start = Point { x: i64::MAX - 10, y: 0 };
    assert_eq!(Ray::new(start, angle(1, 0)).grow(), None);
    let start = Point { x: 0, y: i64::MIN + 10 };
    assert_eq!(Ray::new(start, angle(0, -1)).grow(), None);
    let ray = Ray::new(start, angle(0, 1)).grow().unwrap();
    assert_eq!(ray.end, Point { x: 0, y: -9_223_372_036_854_000_000 });
}

#[test]
fn grow_may_keep_the_rounded_length() {
    // The end is one millionth below a grid line of the Y axis. The step to it makes the ray
    // longer, but by less than a millionth.
    let ray = Ray {
        start: Point { x: 500_000, y: 999_978 },
        end: Point { x: 500_020, y: 999_999 },
        angle: angle(20, 21),
        length: 29,
    };
    let grown = ray.grow().unwrap();
    assert_eq!(grown.end, Point { x: 500_020, y: 1_000_000 });
    assert_eq!(grown.length, 29);
    let grown = grown.grow().unwrap();
    assert_eq!(grown.end, Point { x: 1_000_000, y: 1_524_978 });
    assert_eq!(grown.length, 725_000);
}
