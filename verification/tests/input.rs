use hordegrid::input::{dir8, dir_from_delta, PlayerInput};
use hordegrid::fx::Fixed;

#[test]
fn when_bits_invalid_then_sanitized() {
    assert_eq!(PlayerInput(0x000F).sanitized().dir(), 0);
    assert_eq!(PlayerInput(PlayerInput::RESERVED | 3).sanitized().0, 3);
    assert!(PlayerInput(PlayerInput::RELOAD)
        .sanitized()
        .has(PlayerInput::RELOAD));
    assert!(PlayerInput(PlayerInput::PRESENT)
        .sanitized()
        .has(PlayerInput::PRESENT));
}

#[test]
fn when_quantizing_cardinal_and_diagonal_then_matches_table() {
    for d in 1..=8u8 {
        let (x, y) = dir8(d);
        assert_eq!(dir_from_delta(x, y), d, "dir {d}");
    }
}

#[test]
fn sanitizing_twice_changes_nothing() {
    for b in [0u16, 0x000F, 0x7C03, 0xFFFF, 0x8013, 0x0009, 0x0008] {
        let once = PlayerInput(b).sanitized();
        assert_eq!(once.sanitized(), once);
        assert!(once.dir() <= 8);
        assert_eq!(once.0 & PlayerInput::RESERVED, 0);
    }
}

#[test]
fn rising_edge_is_detected_once() {
    let prev = PlayerInput(0);
    let now = PlayerInput(PlayerInput::FIRE);
    assert!(now.pressed(prev, PlayerInput::FIRE));
    assert!(!now.pressed(now, PlayerInput::FIRE));
    assert!(!prev.pressed(now, PlayerInput::FIRE));
}

#[test]
fn zero_delta_has_no_direction() {
    assert_eq!(dir_from_delta(Fixed(0), Fixed(0)), 0);
    assert_eq!(dir8(0), (Fixed(0), Fixed(0)));
    assert_eq!(dir8(12), (Fixed(0), Fixed(0)));
    assert_eq!(dir_from_delta(Fixed(100), Fixed(-3)), 3);
    assert_eq!(dir_from_delta(Fixed(0), Fixed(-3)), 1);
}
