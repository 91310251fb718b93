use nanorand::WyRand;
use particles::{
    cursor_world_position, hue_at, integrate, tick, Action, Angle, Direction, Mat4, Particle,
    ParticleStore, Position, Velocity, MIN_SIZE, UNIT,
};

fn unit_circle() -> Vec<Direction> {
    (0..360)
        .map(|d| {
            let r = (d as f64).to_radians();
            Direction {
                cos: (r.cos() * 1_000_000.0).round() as i32,
                sin: (r.sin() * 1_000_000.0).round() as i32,
            }
        })
        .collect()
}

fn store() -> ParticleStore {
    ParticleStore::new(unit_circle()).unwrap()
}

fn identity() -> Mat4 {
    let mut m = [0i64; 16];
    for i in 0..4 {
        m[5 * i] = UNIT;
    }
    Mat4 { m }
}

/// Inverse of an orthographic projection of world [-10, 10] squared.
fn ortho_inverse() -> Mat4 {
    let mut m = [0i64; 16];
    m[0] = 10 * UNIT;
    m[5] = 10 * UNIT;
    m[10] = -1000 * UNIT;
    m[14] = -1000 * UNIT;
    m[15] = UNIT;
    Mat4 { m }
}

#[test]
fn from_grad_wraps_to_one_turn() {
    assert_eq!(Angle::from_grad(0), Angle(0));
    assert_eq!(Angle::from_grad(359), Angle(359));
    assert_eq!(Angle::from_grad(360), Angle(0));
    assert_eq!(Angle::from_grad(1437), Angle(357));
}

#[test]
fn integrate_moves_along_heading() {
    let mut p = Position { x: 0, y: 0 };
    integrate(&mut p, Velocity(200), 16_000, Direction { cos: 1_000_000, sin: 0 });
    assert_eq!(p, Position { x: 3_200_000, y: 0 });
    integrate(&mut p, Velocity(200), 16_000, Direction { cos: 0, sin: -1_000_000 });
    assert_eq!(p, Position { x: 3_200_000, y: -3_200_000 });
}

#[test]
fn integrate_diagonal_rounds_down() {
    let mut p = Position { x: 5, y: 5 };
    integrate(&mut p, Velocity(1), 1, Direction { cos: 707_107, sin: -707_107 });
    assert_eq!(p, Position { x: 5, y: 4 });
    let mut q = Position { x: 0, y: 0 };
    integrate(&mut q, Velocity(150), 1_000_000, Direction { cos: 500_000, sin: 866_025 });
    assert_eq!(q, Position { x: 75_000_000, y: 129_903_750 });
}

#[test]
fn integrate_with_zero_time_stays() {
    let mut p = Position { x: -7, y: 9 };
    integrate(&mut p, Velocity(250), 0, Direction { cos: 1_000_000, sin: 0 });
    assert_eq!(p, Position { x: -7, y: 9 });
}

#[test]
fn tick_shrinks_then_removes() {
    let mut size: i64 = 10 * UNIT;
    assert_eq!(tick(&mut size, 1_000), Action::Shrink);
    assert_eq!(size, 10 * UNIT - 15_000);
    let mut small: i64 = MIN_SIZE;
    assert_eq!(tick(&mut small, 1_000), Action::Remove);
    assert_eq!(small, MIN_SIZE);
    let mut just_above: i64 = MIN_SIZE + 1;
    assert_eq!(tick(&mut just_above, 1_000_000), Action::Shrink);
    assert_eq!(just_above, MIN_SIZE + 1 - 15 * UNIT);
}

#[test]
fn shrink_is_linear_over_ticks() {
    let mut size: i64 = 20 * UNIT;
    let dt: u32 = 16_667;
    for n in 1..=10i64 {
        assert_eq!(tick(&mut size, dt), Action::Shrink);
        assert_eq!(size, 20 * UNIT - 15 * dt as i64 * n);
    }
}

#[test]
fn hue_cycles_every_three_point_six_seconds() {
    assert_eq!(hue_at(0), 0);
    assert_eq!(hue_at(1_000_000), 100_000_000);
    assert_eq!(hue_at(4_000_000), 40_000_000);
    assert_eq!(hue_at(3_600_000), 0);
}

#[test]
fn store_rejects_bad_tables() {
    assert!(ParticleStore::new(vec![Direction { cos: 0, sin: 0 }; 359]).is_none());
    let mut t = unit_circle();
    t[7] = Direction { cos: 1_000_001, sin: 0 };
    assert!(ParticleStore::new(t).is_none());
    assert!(ParticleStore::new(unit_circle()).is_some());
}

#[test]
fn spawn_inserts_with_next_id() {
    let mut s = store();
    let at = Position { x: 1, y: 2 };
    Particle::spawn(&mut s, 3 * UNIT, at, Velocity(160), Angle(90), 5);
    Particle::spawn(&mut s, 4 * UNIT, at, Velocity(170), Angle(180), 5);
    let ps = s.particles_ref();
    assert_eq!(ps.len(), 2);
    assert_eq!(ps[0].id, 0);
    assert_eq!(ps[1].id, 1);
    assert_eq!(ps[0].direction, Direction { cos: 0, sin: 1_000_000 });
    assert_eq!(ps[1].direction, Direction { cos: -1_000_000, sin: 0 });
    assert_eq!(s.next_id_value(), 2);
}

#[test]
fn burst_spawns_fifty_in_range() {
    let mut s = store();
    let mut rng = WyRand::new_seed(7);
    let at = Position { x: 3 * UNIT, y: -UNIT };
    s.input_handler(&mut rng, true, false, Some(at), 1_000_000);
    assert_eq!(s.len(), 50);
    for p in s.particles_ref() {
        assert!(p.size >= 10 * UNIT && p.size <= 50 * UNIT && p.size % UNIT == 0);
        assert!(p.velocity.0 >= 150 && p.velocity.0 <= 250);
        assert!(p.angle.0 < 360);
        assert_eq!(p.position, at);
        assert_eq!(p.hue, 100_000_000);
    }
}

#[test]
fn burst_headings_cover_the_circle() {
    let mut s = store();
    let mut rng = WyRand::new_seed(11);
    let at = Position { x: 0, y: 0 };
    let mut quadrants = [0usize; 4];
    for frame in 0..200u64 {
        s.input_handler(&mut rng, true, false, Some(at), frame * 16_000);
    }
    for p in s.particles_ref() {
        quadrants[(p.angle.0 / 90) as usize] += 1;
    }
    assert_eq!(s.len(), 10_000);
    for q in quadrants {
        assert!(q > 2_200 && q < 2_800, "{:?}", quadrants);
    }
}

#[test]
fn press_and_hold_in_one_frame_spawns_both() {
    let mut s = store();
    let mut rng = WyRand::new_seed(3);
    s.input_handler(&mut rng, true, true, Some(Position { x: 0, y: 0 }), 0);
    assert_eq!(s.len(), 55);
}

#[test]
fn stream_headings_cluster_in_lanes() {
    let mut s = store();
    let mut rng = WyRand::new_seed(5);
    let at = Position { x: 0, y: 0 };
    let k: u64 = 12;
    for frame in 0..k {
        let before = s.len();
        let elapsed = frame * 250_000;
        s.input_handler(&mut rng, false, true, Some(at), elapsed);
        let hue_deg = (hue_at(elapsed) / 1_000_000) as i64;
        for i in 0..5usize {
            let p = &s.particles_ref()[before + i];
            let lane = 1 + (i as i64 % 4);
            let center = 3 * hue_deg + lane * 90;
            let off = (p.angle.0 as i64 - (center - 5)).rem_euclid(360);
            assert!(off < 10, "heading {} centre {}", p.angle.0, center);
            assert!(p.size >= 10 * UNIT && p.size <= 40 * UNIT);
            assert!(p.velocity.0 >= 150 && p.velocity.0 <= 250);
        }
    }
    assert_eq!(s.len() as u64, 5 * k);
}

#[test]
fn no_position_spawns_nothing() {
    let mut s = store();
    let mut rng = WyRand::new_seed(1);
    s.input_handler(&mut rng, true, true, None, 0);
    assert_eq!(s.len(), 0);
}

#[test]
fn idle_frames_stay_empty() {
    let mut s = store();
    let mut rng = WyRand::new_seed(9);
    for frame in 0..100u64 {
        s.input_handler(&mut rng, false, false, Some(Position { x: 0, y: 0 }), frame * 16_000);
        assert!(s.can_advance_by(16_000));
        s.update_position(16_000);
        s.shrink(16_000);
        assert_eq!(s.len(), 0);
    }
}

#[test]
fn particles_age_out_and_never_return() {
    let mut s = store();
    let at = Position { x: 0, y: 0 };
    Particle::spawn(&mut s, 1 * UNIT, at, Velocity(200), Angle(0), 0);
    Particle::spawn(&mut s, 10 * UNIT, at, Velocity(200), Angle(90), 0);
    let dt: u32 = 20_000;
    s.update_position(dt);
    s.shrink(dt);
    assert_eq!(s.particles_ref()[0].size, UNIT - 300_000);
    assert_eq!(s.particles_ref()[0].position, Position { x: 4 * UNIT, y: 0 });
    assert_eq!(s.particles_ref()[1].position, Position { x: 0, y: 4 * UNIT });
    let mut frames = 0;
    while s.particles_ref().iter().any(|p| p.id == 0) {
        s.update_position(dt);
        s.shrink(dt);
        frames += 1;
    }
    // 1.0 -> 0.7 -> 0.4 -> 0.1, then removed on the next tick.
    assert_eq!(frames, 3);
    let mut rng = WyRand::new_seed(2);
    for _ in 0..5 {
        s.input_handler(&mut rng, true, true, Some(at), 0);
        s.update_position(dt);
        s.shrink(dt);
        assert!(s.particles_ref().iter().all(|p| p.id != 0));
    }
}

#[test]
fn can_advance_detects_overflow() {
    let mut s = store();
    Particle::spawn(&mut s, UNIT, Position { x: i64::MAX - 10, y: 0 }, Velocity(250), Angle(0), 0);
    assert!(!s.can_advance_by(1_000));
    assert!(s.can_advance_by(0));
}

#[test]
fn centre_of_screen_maps_to_origin() {
    let size = (800 * UNIT, 600 * UNIT);
    let r = cursor_world_position(Some((400 * UNIT, 300 * UNIT)), size, &ortho_inverse(), &identity());
    assert_eq!(r, Some(Position { x: 0, y: 0 }));
}

#[test]
fn corners_map_to_world_extent() {
    let size = (800 * UNIT, 600 * UNIT);
    let inv = ortho_inverse();
    let id = identity();
    assert_eq!(
        cursor_world_position(Some((0, 0)), size, &inv, &id),
        Some(Position { x: -10 * UNIT, y: -10 * UNIT })
    );
    assert_eq!(
        cursor_world_position(Some(size), size, &inv, &id),
        Some(Position { x: 10 * UNIT, y: 10 * UNIT })
    );
    assert_eq!(
        cursor_world_position(Some((200 * UNIT, 450 * UNIT)), size, &inv, &id),
        Some(Position { x: -5 * UNIT, y: 5 * UNIT })
    );
}

#[test]
fn camera_translation_shifts_world_point() {
    let size = (800 * UNIT, 600 * UNIT);
    let mut t = identity();
    t.m[12] = 3 * UNIT;
    t.m[13] = -2 * UNIT;
    let r = cursor_world_position(Some((400 * UNIT, 300 * UNIT)), size, &ortho_inverse(), &t);
    assert_eq!(r, Some(Position { x: 3 * UNIT, y: -2 * UNIT }));
}

#[test]
fn absent_or_degenerate_pointer_maps_to_none() {
    let inv = ortho_inverse();
    let id = identity();
    assert_eq!(cursor_world_position(None, (800 * UNIT, 600 * UNIT), &inv, &id), None);
    assert_eq!(cursor_world_position(Some((0, 0)), (0, 600 * UNIT), &inv, &id), None);
    assert_eq!(cursor_world_position(Some((900 * UNIT, 10)), (800 * UNIT, 600 * UNIT), &inv, &id), None);
    let zero = Mat4 { m: [0; 16] };
    assert_eq!(cursor_world_position(Some((1, 1)), (800 * UNIT, 600 * UNIT), &zero, &id), None);
}
