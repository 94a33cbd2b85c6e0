use bevy::math::{Dir3, Quat as EngineQuat, Vec3 as EngineVec3};
use wisp::scalar::Scalar;
use wisp::vector::{Quat, Vec3};

fn s(x: f32) -> Scalar {
    Scalar::from_bits(x.to_bits())
}

fn same(a: Scalar, b: f32) -> bool {
    if b.is_nan() {
        a.is_nan()
    } else {
        a.to_bits() == b.to_bits()
    }
}

fn v(a: EngineVec3) -> Vec3 {
    Vec3::new(s(a.x), s(a.y), s(a.z))
}

fn q(a: EngineQuat) -> Quat {
    Quat { x: s(a.x), y: s(a.y), z: s(a.z), w: s(a.w) }
}

fn alike(a: Vec3, b: EngineVec3) -> bool {
    same(a.x, b.x) && same(a.y, b.y) && same(a.z, b.z)
}

fn vectors() -> Vec<EngineVec3> {
    let mut all = vec![
        EngineVec3::ZERO,
        EngineVec3::X,
        EngineVec3::NEG_Y,
        EngineVec3::new(1e-30, -2e-30, 0.0),
        EngineVec3::new(1e20, 1e20, -3e20),
        EngineVec3::new(f32::INFINITY, 0.0, 1.0),
    ];
    let mut x: u32 = 0x2545_f491;
    let mut next = || {
        x ^= x << 13;
        x ^= x >> 17;
        x ^= x << 5;
        (x as f32 / u32::MAX as f32) * 20.0 - 10.0
    };
    for _ in 0..40 {
        all.push(EngineVec3::new(next(), next(), next()));
    }
    all
}

fn turns() -> Vec<EngineQuat> {
    let mut all = vec![EngineQuat::IDENTITY];
    for i in 0..12 {
        all.push(EngineQuat::from_rotation_y(i as f32 * 0.7));
        all.push(EngineQuat::from_rotation_x(i as f32 * -0.3));
        all.push(EngineQuat::from_rotation_z(i as f32 * 1.9));
    }
    all
}

#[test]
fn vector_arithmetic_matches_the_engine() {
    for a in vectors() {
        for b in vectors() {
            assert!(alike(v(a).plus(v(b)), a + b));
            assert!(alike(v(a).minus(v(b)), a - b));
            assert!(same(v(a).dot(v(b)), a.dot(b)));
            assert!(alike(v(a).cross(v(b)), a.cross(b)));
            assert!(same(v(a).distance(v(b)), a.distance(b)));
            assert!(alike(v(a).lerp(v(b), s(0.3)), a.lerp(b, 0.3)));
        }
        assert!(alike(v(a).scale(s(2.5)), a * 2.5));
        assert!(alike(v(a).shrink(s(2.5)), a / 2.5));
        assert!(same(v(a).length(), a.length()));
        assert!(same(v(a).length_squared(), a.length_squared()));
        assert_eq!(v(a).is_finite(), a.is_finite());
    }
}

#[test]
fn directions_match_the_engine() {
    for a in vectors() {
        if a != EngineVec3::ZERO && a.is_finite() && a.length_squared() > 0.0 {
            assert!(alike(v(a).normalize_or_zero(), a.normalize_or_zero()), "{a:?}");
        }
        match (v(a).direction(), Dir3::new(a)) {
            (Some(d), Ok(e)) => assert!(alike(d, *e), "{a:?}"),
            (None, Err(_)) => {}
            (d, e) => panic!("{a:?}: {d:?} {e:?}"),
        }
    }
}

#[test]
fn turns_match_the_engine() {
    for t in turns() {
        for a in vectors() {
            assert!(alike(q(t).rotate(v(a)), t * a), "{t:?} {a:?}");
        }
        for u in turns() {
            let a = q(t).compose(q(u));
            let b = t * u;
            assert!(same(a.x, b.x) && same(a.y, b.y) && same(a.z, b.z) && same(a.w, b.w));
        }
        let a = q(t).inverse();
        let b = t.inverse();
        assert!(same(a.x, b.x) && same(a.y, b.y) && same(a.z, b.z) && same(a.w, b.w));
    }
}
