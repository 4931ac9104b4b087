use rapier::body::RigidBody;
use rapier::collider::Collider;
use rapier::manifold::ContactEvent;
use rapier::pipeline::StepConfig;
use rapier::shape::Shape;
use rapier::step::step;
use rapier::vec3::Vec3;
use rapier::world::World;

fn v(x: i64, y: i64, z: i64) -> Vec3 {
    Vec3 { x, y, z }
}

fn cfg_zero_g() -> StepConfig {
    StepConfig {
        dt: 1024,
        gravity: v(0, 0, 0),
        velocity_iterations: 8,
        warm_start: true,
        ccd_enabled: false,
        ccd_budget: 16,
        sleep_threshold: 0,
        sleep_min_steps: 1_000_000,
        workers: 1,
    }
}

#[test]
fn free_fall_adds_exactly_gravity() {
    let mut w = World::new();
    let h = w.add_body(RigidBody::dynamic(v(0, 0, 0), 1024, 0).unwrap()).unwrap();
    w.add_collider(Collider::new(Shape::ball(64).unwrap(), Some(h), v(0, 0, 0)).unwrap())
        .unwrap();
    let cfg = StepConfig { gravity: v(0, -10240, 0), ..cfg_zero_g() };
    let events = step(&mut w, &cfg).unwrap();
    assert!(events.is_empty());
    assert!(w.manifolds.is_empty());
    let b = w.body(h).unwrap();
    assert_eq!(b.vel, v(0, -10240, 0));
    assert_eq!(b.pos, v(0, -10240, 0));
}

#[test]
fn invalid_config_is_rejected_without_stepping() {
    let mut w = World::new();
    let h = w.add_body(RigidBody::dynamic(v(0, 0, 0), 1024, 0).unwrap()).unwrap();
    let bad = StepConfig { dt: 0, ..cfg_zero_g() };
    assert!(step(&mut w, &bad).is_err());
    assert_eq!(w.body(h).unwrap().pos, v(0, 0, 0));
}

#[test]
fn equal_mass_elastic_spheres_swap_velocities() {
    let mut w = World::new();
    let ha = w.add_body(RigidBody::dynamic(v(0, 0, 0), 1024, 1024).unwrap()).unwrap();
    let hb = w.add_body(RigidBody::dynamic(v(2048, 0, 0), 1024, 1024).unwrap()).unwrap();
    w.add_collider(Collider::new(Shape::ball(1024).unwrap(), Some(ha), v(0, 0, 0)).unwrap())
        .unwrap();
    w.add_collider(Collider::new(Shape::ball(1024).unwrap(), Some(hb), v(0, 0, 0)).unwrap())
        .unwrap();
    w.set_body_velocity(ha, v(512, 0, 0)).unwrap();
    w.set_body_velocity(hb, v(-512, 0, 0)).unwrap();

    let events = step(&mut w, &cfg_zero_g()).unwrap();
    assert!(events.iter().any(|e| matches!(e, ContactEvent::Started { .. })));
    assert_eq!(w.body(ha).unwrap().vel, v(-512, 0, 0));
    assert_eq!(w.body(hb).unwrap().vel, v(512, 0, 0));
}

#[test]
fn fixed_joint_equalizes_velocities() {
    let mut w = World::new();
    let ha = w.add_body(RigidBody::dynamic(v(0, 0, 0), 1024, 0).unwrap()).unwrap();
    let hb = w.add_body(RigidBody::dynamic(v(5000, 0, 0), 1024, 0).unwrap()).unwrap();
    w.add_joint(
        rapier::joint::Joint::new(ha, hb, rapier::joint::JointKind::Fixed, v(5000, 0, 0)).unwrap(),
    )
    .unwrap();
    w.set_body_velocity(ha, v(1024, 0, 0)).unwrap();
    step(&mut w, &cfg_zero_g()).unwrap();
    assert_eq!(w.body(ha).unwrap().vel, v(512, 0, 0));
    assert_eq!(w.body(hb).unwrap().vel, v(512, 0, 0));
}

#[test]
fn stack_settles_and_sleeps() {
    let mut w = World::new();
    let ground = w.add_body(RigidBody::fixed(v(0, 0, 0)).unwrap()).unwrap();
    w.add_collider(
        Collider::new(Shape::cuboid(10240, 1024, 10240).unwrap(), Some(ground), v(0, 0, 0))
            .unwrap(),
    )
    .unwrap();
    let b1 = w.add_body(RigidBody::dynamic(v(0, 1536, 0), 1024, 0).unwrap()).unwrap();
    w.add_collider(
        Collider::new(Shape::cuboid(512, 512, 512).unwrap(), Some(b1), v(0, 0, 0)).unwrap(),
    )
    .unwrap();
    let b2 = w.add_body(RigidBody::dynamic(v(0, 2560, 0), 1024, 0).unwrap()).unwrap();
    w.add_collider(
        Collider::new(Shape::cuboid(512, 512, 512).unwrap(), Some(b2), v(0, 0, 0)).unwrap(),
    )
    .unwrap();
    let cfg = StepConfig {
        dt: 16,
        gravity: v(0, -10240, 0),
        sleep_threshold: 16,
        sleep_min_steps: 3,
        ..cfg_zero_g()
    };
    for _ in 0..30 {
        step(&mut w, &cfg).unwrap();
    }
    let y1 = w.body(b1).unwrap().pos.y;
    let y2 = w.body(b2).unwrap().pos.y;
    // penetration between the boxes and into the ground stays tiny
    assert!(1536 - y1 <= 32, "box one sank: y = {}", y1);
    assert!((y1 + 1024) - y2 <= 32, "box two sank: y2 = {} vs y1 = {}", y2, y1);
    // the whole island went to sleep atomically
    assert!(w.body(b1).unwrap().sleeping);
    assert!(w.body(b2).unwrap().sleeping);
    assert_eq!(w.body(b1).unwrap().vel, v(0, 0, 0));
    assert_eq!(w.body(b2).unwrap().vel, v(0, 0, 0));
}

#[test]
fn connected_bodies_share_an_island() {
    let mut w = World::new();
    let ha = w.add_body(RigidBody::dynamic(v(0, 0, 0), 1024, 0).unwrap()).unwrap();
    let hb = w.add_body(RigidBody::dynamic(v(1800, 0, 0), 1024, 0).unwrap()).unwrap();
    let hc = w.add_body(RigidBody::dynamic(v(100_000, 0, 0), 1024, 0).unwrap()).unwrap();
    for (h, x) in [(ha, 0), (hb, 0), (hc, 0)] {
        w.add_collider(Collider::new(Shape::ball(1024).unwrap(), Some(h), v(x, 0, 0)).unwrap())
            .unwrap();
    }
    step(&mut w, &cfg_zero_g()).unwrap();
    assert_eq!(w.manifolds.len(), 1);
    let labels =
        rapier::island::build_islands(&w.bodies, &w.colliders, &w.manifolds, &w.joints);
    assert_eq!(labels[ha.index], labels[hb.index]);
    assert_ne!(labels[ha.index], labels[hc.index]);
}

#[test]
fn ccd_stops_fast_ball_at_wall() {
    let mut w = World::new();
    let wall = w.add_body(RigidBody::fixed(v(10240, 0, 0)).unwrap()).unwrap();
    w.add_collider(
        Collider::new(Shape::cuboid(64, 10240, 10240).unwrap(), Some(wall), v(0, 0, 0)).unwrap(),
    )
    .unwrap();
    let ball = w.add_body(RigidBody::dynamic(v(0, 0, 0), 1024, 0).unwrap()).unwrap();
    w.add_collider(Collider::new(Shape::ball(64).unwrap(), Some(ball), v(0, 0, 0)).unwrap())
        .unwrap();
    w.set_body_velocity(ball, v(20480, 0, 0)).unwrap();
    let cfg = StepConfig { ccd_enabled: true, ..cfg_zero_g() };
    step(&mut w, &cfg).unwrap();
    let p = w.body(ball).unwrap().pos;
    // the wall's near face is at x = 10176; the ball may not end beyond it
    assert!(p.x + 64 <= 10176, "ball tunneled to {}", p.x);
    assert_eq!(p.x, 10112);
}

#[test]
fn ccd_budget_exceeded_reports_event() {
    let mut w = World::new();
    // more static colliders than the budget allows
    for i in 0..4 {
        let s = w.add_body(RigidBody::fixed(v(50_000 + i * 1000, 0, 0)).unwrap()).unwrap();
        w.add_collider(
            Collider::new(Shape::cuboid(64, 1024, 1024).unwrap(), Some(s), v(0, 0, 0)).unwrap(),
        )
        .unwrap();
    }
    let ball = w.add_body(RigidBody::dynamic(v(0, 0, 0), 1024, 0).unwrap()).unwrap();
    w.add_collider(Collider::new(Shape::ball(64).unwrap(), Some(ball), v(0, 0, 0)).unwrap())
        .unwrap();
    w.set_body_velocity(ball, v(20480, 0, 0)).unwrap();
    let cfg = StepConfig { ccd_enabled: true, ccd_budget: 2, ..cfg_zero_g() };
    let events = step(&mut w, &cfg).unwrap();
    assert!(events.iter().any(|e| matches!(e, ContactEvent::CcdBudgetExceeded { .. })));
    // the integrated pose is kept
    assert_eq!(w.body(ball).unwrap().pos.x, 20480);
}

#[test]
fn separation_emits_stopped_event() {
    let mut w = World::new();
    let ha = w.add_body(RigidBody::dynamic(v(0, 0, 0), 1024, 0).unwrap()).unwrap();
    let hb = w.add_body(RigidBody::dynamic(v(2000, 0, 0), 1024, 0).unwrap()).unwrap();
    w.add_collider(Collider::new(Shape::ball(1024).unwrap(), Some(ha), v(0, 0, 0)).unwrap())
        .unwrap();
    w.add_collider(Collider::new(Shape::ball(1024).unwrap(), Some(hb), v(0, 0, 0)).unwrap())
        .unwrap();
    let events = step(&mut w, &cfg_zero_g()).unwrap();
    assert!(events.iter().any(|e| matches!(e, ContactEvent::Started { .. })));
    // pull them apart fast; within a few steps the pair separates for good
    w.set_body_velocity(ha, v(-20480, 0, 0)).unwrap();
    w.set_body_velocity(hb, v(20480, 0, 0)).unwrap();
    let mut saw_stopped = false;
    for _ in 0..4 {
        let evs = step(&mut w, &cfg_zero_g()).unwrap();
        saw_stopped = saw_stopped || evs.iter().any(|e| matches!(e, ContactEvent::Stopped { .. }));
    }
    assert!(saw_stopped);
    assert!(w.manifolds.is_empty());
}

#[test]
fn replay_from_snapshot_is_bit_identical_across_worker_counts() {
    let mut w = World::new();
    let ground = w.add_body(RigidBody::fixed(v(0, 0, 0)).unwrap()).unwrap();
    w.add_collider(
        Collider::new(Shape::cuboid(10240, 1024, 10240).unwrap(), Some(ground), v(0, 0, 0))
            .unwrap(),
    )
    .unwrap();
    let mut balls = Vec::new();
    for i in 0..4i64 {
        let h = w
            .add_body(RigidBody::dynamic(v(i * 700, 2048 + i * 300, i * 211), 1024, 512).unwrap())
            .unwrap();
        w.add_collider(Collider::new(Shape::ball(512).unwrap(), Some(h), v(0, 0, 0)).unwrap())
            .unwrap();
        balls.push(h);
    }
    let mut replay = w.snapshot();
    let cfg1 = StepConfig { dt: 32, gravity: v(0, -10240, 0), workers: 1, ..cfg_zero_g() };
    let cfg8 = StepConfig { workers: 8, ..cfg1 };
    for _ in 0..10 {
        step(&mut w, &cfg1).unwrap();
        step(&mut replay, &cfg8).unwrap();
    }
    for h in balls {
        let a = w.body(h).unwrap();
        let b = replay.body(h).unwrap();
        assert_eq!(a.pos, b.pos);
        assert_eq!(a.vel, b.vel);
        assert_eq!(a.sleeping, b.sleeping);
    }
    assert_eq!(w.manifolds.len(), replay.manifolds.len());
}

#[test]
fn warm_start_reaches_rest_no_slower_than_cold_start() {
    // the same resting contact, stepped twice: with warm starting the second
    // step's solver starts from the converged impulse
    let build = || {
        let mut w = World::new();
        let ground = w.add_body(RigidBody::fixed(v(0, 0, 0)).unwrap()).unwrap();
        w.add_collider(
            Collider::new(Shape::cuboid(10240, 1024, 10240).unwrap(), Some(ground), v(0, 0, 0))
                .unwrap(),
        )
        .unwrap();
        let b = w.add_body(RigidBody::dynamic(v(0, 1536, 0), 1024, 0).unwrap()).unwrap();
        w.add_collider(
            Collider::new(Shape::cuboid(512, 512, 512).unwrap(), Some(b), v(0, 0, 0)).unwrap(),
        )
        .unwrap();
        (w, b)
    };
    let cfg_warm = StepConfig {
        dt: 16,
        gravity: v(0, -10240, 0),
        velocity_iterations: 1,
        warm_start: true,
        ..cfg_zero_g()
    };
    let cfg_cold = StepConfig { warm_start: false, ..cfg_warm };
    let (mut ww, hw) = build();
    let (mut wc, hc) = build();
    for _ in 0..6 {
        step(&mut ww, &cfg_warm).unwrap();
        step(&mut wc, &cfg_cold).unwrap();
    }
    // with one velocity iteration per step, the warm-started contact keeps
    // the box at least as close to rest as the cold-started one
    let vw = ww.body(hw).unwrap().vel.y.abs();
    let vc = wc.body(hc).unwrap().vel.y.abs();
    assert!(vw <= vc, "warm {} vs cold {}", vw, vc);
}
