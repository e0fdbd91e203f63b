use hordegrid::config::{MAX_PLAYERS, MAX_SHOTS};
use hordegrid::fx::Fixed;
use hordegrid::step::World;
use hordegrid::view::{fill, h, CAPACITY, ENEMY_STRIDE, HEADER, PLAYER_STRIDE, SHOT_STRIDE};

#[test]
fn when_filling_then_counts_and_length_agree() {
    let world = World::new(0);
    let s = world.initial_state(2, 1, 0);
    let mut v = Vec::with_capacity(CAPACITY);
    fill(&mut v, &s, 0);
    let n_e = v[h::N_ENEMIES] as usize;
    let n_s = v[h::N_SHOTS] as usize;
    assert_eq!(
        v.len(),
        HEADER + MAX_PLAYERS * PLAYER_STRIDE + n_e * ENEMY_STRIDE + n_s * SHOT_STRIDE
    );
    assert!(v.capacity() >= CAPACITY);
}

#[test]
fn view_holds_header_players_enemies_and_shots() {
    let world = World::new(0);
    let mut s = *world.initial_state(2, 1, 0);
    s.enemies.alive[7] = 1;
    s.enemies.kind[7] = 0;
    s.enemies.hp[7] = 15;
    s.enemies.x[7] = Fixed(111);
    s.enemies.y[7] = Fixed(222);
    s.shots.ttl[3] = 9;
    s.shots.vx[3] = Fixed(0);
    s.shots.vy[3] = Fixed(-5);
    s.shots.kind[3] = 2;
    let mut v = Vec::new();
    fill(&mut v, &s, -1);
    assert_eq!(v[h::N_ENEMIES], 1);
    assert_eq!(v[h::N_SHOTS], 1);
    assert_eq!(v[h::LOCAL], -1);
    assert_eq!(v[h::N_PLAYERS], MAX_PLAYERS as i32);
    assert_eq!(v[h::NUM_PLAYERS], 2);
    assert_eq!(v[h::MODE], 0);
    let p0 = HEADER;
    assert_eq!(v[p0], s.players.x[0].0);
    assert_eq!(v[p0 + 2], s.players.hp[0]);
    assert_eq!(v[p0 + 3], 1);
    let e0 = HEADER + MAX_PLAYERS * PLAYER_STRIDE;
    let walker_hp = hordegrid::config::enemy(0).hp;
    assert_eq!(&v[e0..e0 + ENEMY_STRIDE], &[7, 111, 222, 0, 15 * 1000 / walker_hp, 0]);
    let s0 = e0 + ENEMY_STRIDE;
    assert_eq!(&v[s0..s0 + SHOT_STRIDE], &[s.shots.x[3].0, s.shots.y[3].0, 2, 1]);
    assert!(v.len() <= CAPACITY);
    assert_eq!(CAPACITY, 17 + 4 * 12 + 384 * 6 + MAX_SHOTS * 4);
}

#[test]
fn hide_and_seek_view_shows_the_round() {
    let world = World::new(0);
    let s = world.initial_state(2, 1, 1);
    let mut v = Vec::new();
    fill(&mut v, &s, 1);
    assert_eq!(v[h::MODE], 1);
    assert_eq!(v[h::PHASE], 0);
    assert_eq!(v[h::TIMER], 300);
    assert_eq!(v[h::HS_WINNER], 0);
    // player 0's role is seeker
    assert_eq!(v[HEADER + 10], 1);
    assert_eq!(v[HEADER + PLAYER_STRIDE + 10], 0);
}
