use hordegrid::config::{MAP_H, MAP_W, TILES};
use hordegrid::map::{yard_row, MapData};

#[test]
fn when_parsing_yard_then_rows_have_exact_width() {
    for y in 0..MAP_H {
        let row = yard_row(y);
        assert_eq!(row.len(), MAP_W, "{row}");
    }
}

#[test]
fn when_parsing_yard_then_spawns_and_starts_are_floor() {
    let m = MapData::by_id(0);
    assert!(m.spawn_count >= 4);
    for &(x, y) in &m.spawns[..m.spawn_count] {
        assert!(!m.solid(i32::from(x), i32::from(y)));
    }
    for &(x, y) in &m.starts {
        assert!(!m.solid(i32::from(x), i32::from(y)));
    }
}

#[test]
fn outside_the_map_is_solid() {
    let m = MapData::by_id(3);
    assert!(m.solid(-1, 5));
    assert!(m.solid(5, -1));
    assert!(m.solid(MAP_W as i32, 5));
    assert!(m.solid(5, MAP_H as i32));
}

#[test]
fn tiles_mirror_the_solid_map() {
    let m = MapData::by_id(0);
    let t = m.tiles();
    assert_eq!(t.len(), TILES);
    for i in 0..TILES {
        let (x, y) = ((i % MAP_W) as i32, (i / MAP_W) as i32);
        assert_eq!(t[i] == 1, m.solid(x, y));
    }
    // the yard has a wall border
    assert_eq!(t[0], 1);
    assert_eq!(t[TILES - 1], 1);
}
