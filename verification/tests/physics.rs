use hordegrid::fx::Fixed;
use hordegrid::map::MapData;
use hordegrid::physics::move_box;

#[test]
fn when_walking_into_left_border_wall_then_stops_at_edge() {
    let map = MapData::by_id(0);
    let r = Fixed::ratio(35, 100);
    let (mut x, y) = (
        Fixed::from_int(2) + Fixed::half(),
        Fixed::from_int(2) + Fixed::half(),
    );
    for _ in 0..200 {
        (x, _) = move_box(&map, x, y, Fixed::ratio(-9, 100), Fixed::zero(), r);
    }
    assert_eq!(
        x,
        Fixed::one() + r,
        "tile 0 is wall, so box rests at x = 1 + r"
    );
}

#[test]
fn moving_in_open_floor_adds_the_delta() {
    let map = MapData::by_id(0);
    let r = Fixed::ratio(35, 100);
    let x = Fixed::from_int(2) + Fixed::half();
    let y = Fixed::from_int(2) + Fixed::half();
    let (nx, ny) = move_box(&map, x, y, Fixed(1000), Fixed(-2000), r);
    assert_eq!(nx, Fixed(x.0 + 1000));
    assert_eq!(ny, Fixed(y.0 - 2000));
}

#[test]
fn walking_up_into_the_top_wall_stops_below_it() {
    let map = MapData::by_id(0);
    let r = Fixed::ratio(35, 100);
    let x = Fixed::from_int(2) + Fixed::half();
    let mut y = Fixed::from_int(2) + Fixed::half();
    for _ in 0..200 {
        (_, y) = move_box(&map, x, y, Fixed::zero(), Fixed::ratio(-9, 100), r);
    }
    assert_eq!(y, Fixed::one() + r);
}
