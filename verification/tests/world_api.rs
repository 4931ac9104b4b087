use rapier::arena::Handle;
use rapier::body::{BodyType, RigidBody};
use rapier::collider::Collider;
use rapier::fx::{FX_MAX, FX_ONE};
use rapier::joint::{Joint, JointKind};
use rapier::shape::{PhysicsError, Shape};
use rapier::vec3::Vec3;
use rapier::world::World;

fn v(x: i64, y: i64, z: i64) -> Vec3 {
    Vec3 { x, y, z }
}

#[test]
fn ball_rejects_non_positive_radius() {
    assert_eq!(Shape::ball(0), Err(PhysicsError::InvalidShapeParameters));
    assert_eq!(Shape::ball(-5), Err(PhysicsError::InvalidShapeParameters));
    assert!(Shape::ball(1024).is_ok());
    assert_eq!(Shape::ball(FX_MAX + 1), Err(PhysicsError::InvalidShapeParameters));
}

#[test]
fn cuboid_rejects_non_positive_extent() {
    assert_eq!(Shape::cuboid(0, 10, 10), Err(PhysicsError::InvalidShapeParameters));
    assert_eq!(Shape::cuboid(10, -1, 10), Err(PhysicsError::InvalidShapeParameters));
    assert!(Shape::cuboid(10, 10, 10).is_ok());
}

#[test]
fn body_construction_validates() {
    assert!(RigidBody::dynamic(v(0, 0, 0), 0, 0).is_err());
    assert!(RigidBody::dynamic(v(0, 0, 0), 1024, -1).is_err());
    let b = RigidBody::dynamic(v(1, 2, 3), 1024, 512).unwrap();
    assert_eq!(b.body_type, BodyType::Dynamic);
    assert_eq!(b.inv_mass, 1024);
    assert!(!b.sleeping);
}

#[test]
fn stale_handle_never_aliases_reused_slot() {
    let mut w = World::new();
    let b = RigidBody::dynamic(v(0, 0, 0), 1024, 0).unwrap();
    let h1 = w.add_body(b).unwrap();
    assert!(w.body(h1).is_ok());

    let removed = w.remove_body(h1).unwrap();
    assert_eq!(removed.inv_mass, 1024);
    assert_eq!(w.body(h1).unwrap_err(), PhysicsError::InvalidHandle);
    assert_eq!(w.set_body_velocity(h1, v(1, 0, 0)).unwrap_err(), PhysicsError::InvalidHandle);
    assert_eq!(w.apply_impulse(h1, v(1, 0, 0)).unwrap_err(), PhysicsError::InvalidHandle);

    // a new body reuses the slot under a fresh generation
    let h2 = w.add_body(RigidBody::dynamic(v(9, 9, 9), 2048, 0).unwrap()).unwrap();
    assert_eq!(h2.index, h1.index);
    assert!(h2.generation > h1.generation);
    assert_eq!(w.body(h1).unwrap_err(), PhysicsError::InvalidHandle);
    assert_eq!(w.body(h2).unwrap().pos, v(9, 9, 9));
}

#[test]
fn removing_body_removes_colliders_joints_and_manifolds() {
    let mut w = World::new();
    let ha = w.add_body(RigidBody::dynamic(v(0, 0, 0), 1024, 0).unwrap()).unwrap();
    let hb = w.add_body(RigidBody::dynamic(v(3000, 0, 0), 1024, 0).unwrap()).unwrap();
    let ca = w
        .add_collider(Collider::new(Shape::ball(1024).unwrap(), Some(ha), v(0, 0, 0)).unwrap())
        .unwrap();
    let _cb = w
        .add_collider(Collider::new(Shape::ball(1024).unwrap(), Some(hb), v(0, 0, 0)).unwrap())
        .unwrap();
    let j = w
        .add_joint(Joint::new(ha, hb, JointKind::Fixed, v(3000, 0, 0)).unwrap())
        .unwrap();

    w.remove_body(ha).unwrap();
    assert_eq!(w.collider(ca).unwrap_err(), PhysicsError::InvalidHandle);
    assert_eq!(w.joint(j).unwrap_err(), PhysicsError::InvalidHandle);
    assert!(w.body(hb).is_ok());
}

#[test]
fn add_collider_checks_parent_handle() {
    let mut w = World::new();
    let h = w.add_body(RigidBody::dynamic(v(0, 0, 0), 1024, 0).unwrap()).unwrap();
    w.remove_body(h).unwrap();
    let r = w.add_collider(Collider::new(Shape::ball(64).unwrap(), Some(h), v(0, 0, 0)).unwrap());
    assert_eq!(r.unwrap_err(), PhysicsError::InvalidHandle);
}

#[test]
fn add_joint_wakes_both_bodies() {
    let mut w = World::new();
    let ha = w.add_body(RigidBody::dynamic(v(0, 0, 0), 1024, 0).unwrap()).unwrap();
    let hb = w.add_body(RigidBody::dynamic(v(100, 0, 0), 1024, 0).unwrap()).unwrap();
    let j = Joint::new(ha, hb, JointKind::Prismatic { axis: rapier::joint::Axis::X }, v(100, 0, 0))
        .unwrap();
    w.add_joint(j).unwrap();
    assert!(!w.body(ha).unwrap().sleeping);
    assert!(!w.body(hb).unwrap().sleeping);
}

#[test]
fn snapshot_copies_full_state() {
    let mut w = World::new();
    let h = w.add_body(RigidBody::dynamic(v(5, 6, 7), 1024, 0).unwrap()).unwrap();
    w.add_collider(Collider::new(Shape::cuboid(10, 10, 10).unwrap(), Some(h), v(0, 0, 0)).unwrap())
        .unwrap();
    let snap = w.snapshot();
    assert_eq!(snap.body(h).unwrap().pos, v(5, 6, 7));
    // mutating the original does not touch the snapshot
    w.set_body_velocity(h, v(1, 1, 1)).unwrap();
    assert_eq!(snap.body(h).unwrap().vel, v(0, 0, 0));
}

#[test]
fn fx_saturates_instead_of_overflowing() {
    assert_eq!(rapier::fx::fx_add(FX_MAX, FX_MAX), FX_MAX);
    assert_eq!(rapier::fx::fx_sub(-FX_MAX, FX_MAX), -FX_MAX);
    assert_eq!(rapier::fx::fx_mul(2048, 512), 1024);
    assert_eq!(rapier::fx::fx_div(1024, 2048), 512);
    assert_eq!(FX_ONE, 1024);
}

#[test]
fn isqrt_is_exact_floor() {
    assert_eq!(rapier::geometry::isqrt(0), 0);
    assert_eq!(rapier::geometry::isqrt(1), 1);
    assert_eq!(rapier::geometry::isqrt(8), 2);
    assert_eq!(rapier::geometry::isqrt(9), 3);
    assert_eq!(rapier::geometry::isqrt(10), 3);
    assert_eq!(rapier::geometry::isqrt(u64::MAX), 4_294_967_295);
}

#[test]
fn handles_are_generation_checked_per_kind() {
    let mut w = World::new();
    let h = w.add_body(RigidBody::fixed(v(0, 0, 0)).unwrap()).unwrap();
    let c = w
        .add_collider(Collider::new(Shape::ball(64).unwrap(), Some(h), v(0, 0, 0)).unwrap())
        .unwrap();
    w.remove_collider(c).unwrap();
    assert_eq!(w.collider(c).unwrap_err(), PhysicsError::InvalidHandle);
    assert!(w.body(h).is_ok());
    // an unknown handle fails too
    let bogus = Handle { index: 99, generation: 1 };
    assert_eq!(w.body(bogus).unwrap_err(), PhysicsError::InvalidHandle);
}
