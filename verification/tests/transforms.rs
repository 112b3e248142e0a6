use render_core::fixed::FX_ONE;
use render_core::mat4::Mat4;
use render_core::transform::{Quat, Transform, Vec3};

fn identity_entries() -> Vec<i64> {
    vec![
        FX_ONE, 0, 0, 0, //
        0, FX_ONE, 0, 0, //
        0, 0, FX_ONE, 0, //
        0, 0, 0, FX_ONE,
    ]
}

#[test]
fn an_unset_override_contributes_the_identity() {
    let t = Transform::unset();
    assert_eq!(t.matrix().e, identity_entries());
}

#[test]
fn a_half_turn_around_z_negates_x_and_y() {
    // The quaternion (0, 0, 1, 0) rotates half a turn around z; its matrix
    // is exactly diag(-1, -1, 1, 1) in fixed point.
    let t = Transform {
        translation: None,
        rotation: Some(Quat { x: 0, y: 0, z: FX_ONE, w: 0 }),
        scale: None,
    };
    let m = t.matrix();
    assert_eq!(
        m.e,
        vec![
            -FX_ONE, 0, 0, 0, //
            0, -FX_ONE, 0, 0, //
            0, 0, FX_ONE, 0, //
            0, 0, 0, FX_ONE,
        ]
    );
}

#[test]
fn rotation_matrices_ignore_the_quaternion_scale() {
    // The rotation matrix divides by the squared norm, so a doubled
    // quaternion yields the same matrix.
    let unit = Transform {
        translation: None,
        rotation: Some(Quat { x: 0, y: FX_ONE, z: 0, w: 0 }),
        scale: None,
    };
    let doubled = Transform {
        translation: None,
        rotation: Some(Quat { x: 0, y: 2 * FX_ONE, z: 0, w: 0 }),
        scale: None,
    };
    assert_eq!(unit.matrix().e, doubled.matrix().e);
}

#[test]
fn a_zero_quaternion_contributes_the_identity() {
    let t = Transform {
        translation: None,
        rotation: Some(Quat { x: 0, y: 0, z: 0, w: 0 }),
        scale: None,
    };
    assert_eq!(t.matrix().e, identity_entries());
}

#[test]
fn translation_and_scale_compose_in_order() {
    let t = Transform {
        translation: Some(Vec3 { x: FX_ONE, y: 0, z: 0 }),
        rotation: None,
        scale: Some(Vec3 { x: 2 * FX_ONE, y: 2 * FX_ONE, z: 2 * FX_ONE }),
    };
    let m = t.matrix();
    assert_eq!(
        m.e,
        vec![
            2 * FX_ONE, 0, 0, 0, //
            0, 2 * FX_ONE, 0, 0, //
            0, 0, 2 * FX_ONE, 0, //
            FX_ONE, 0, 0, FX_ONE,
        ]
    );
}

#[test]
fn matrix_products_keep_fixed_point_scale() {
    let a = Mat4::scaling(3 * FX_ONE, FX_ONE, FX_ONE);
    let b = Mat4::scaling(2 * FX_ONE, FX_ONE, FX_ONE);
    let p = a.mul(&b);
    assert_eq!(p.e[0], 6 * FX_ONE);
    assert_eq!(p.e[5], FX_ONE);
    assert_eq!(p.e[15], FX_ONE);
}
