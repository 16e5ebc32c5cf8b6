use voxelgas::fixed::FX_ONE;
use voxelgas::math::{cone_triangles, cube_triangles, transform_2d, unit_triangle, Fx2, Fx3, Fx4, FxMat4};
use voxelgas::user::User;

fn col(x: i64, y: i64, z: i64, w: i64) -> Fx4 {
    Fx4 { x, y, z, w }
}

fn identity() -> FxMat4 {
    FxMat4 {
        x_axis: col(FX_ONE, 0, 0, 0),
        y_axis: col(0, FX_ONE, 0, 0),
        z_axis: col(0, 0, FX_ONE, 0),
        w_axis: col(0, 0, 0, FX_ONE),
    }
}

#[test]
fn transform_2d_identity_keeps_the_point() {
    let p = Fx2 { x: 3 * FX_ONE, y: -2 * FX_ONE };
    let r = transform_2d(p, &identity());
    assert_eq!(r, p);
}

#[test]
fn transform_2d_applies_scale_and_translation() {
    // scale x by 2, y by 1/2, then translate by (1, -3)
    let mut m = identity();
    m.x_axis.x = 2 * FX_ONE;
    m.y_axis.y = FX_ONE / 2;
    m.w_axis.x = FX_ONE;
    m.w_axis.y = -3 * FX_ONE;
    let p = Fx2 { x: 5 * FX_ONE, y: 4 * FX_ONE };
    let r = transform_2d(p, &m);
    assert_eq!(r, Fx2 { x: 11 * FX_ONE, y: -FX_ONE });
}

#[test]
fn unit_triangle_vertices() {
    let t = unit_triangle();
    assert_eq!(
        t,
        vec![
            Fx3 { x: 0, y: 0, z: 0 },
            Fx3 { x: FX_ONE, y: 0, z: 0 },
            Fx3 { x: 0, y: FX_ONE, z: 0 },
        ]
    );
}

#[test]
fn cube_triangles_cover_six_faces() {
    let t = cube_triangles();
    assert_eq!(t.len(), 36);
    // every vertex is a cube corner
    for v in &t {
        assert!(v.x == 0 || v.x == FX_ONE);
        assert!(v.y == 0 || v.y == FX_ONE);
        assert!(v.z == 0 || v.z == FX_ONE);
    }
    // the front face starts at the origin corner
    assert_eq!(t[0], Fx3 { x: 0, y: 0, z: 0 });
    assert_eq!(t[1], Fx3 { x: FX_ONE, y: 0, z: 0 });
    // each corner appears: 8 distinct corners over 36 slots
    let mut corners: Vec<(i64, i64, i64)> = t.iter().map(|v| (v.x, v.y, v.z)).collect();
    corners.sort();
    corners.dedup();
    assert_eq!(corners.len(), 8);
}

#[test]
fn cone_triangles_first_segment() {
    let t = cone_triangles();
    assert_eq!(t.len(), 48);
    // base fan corner at the origin
    assert_eq!(t[0], Fx3 { x: 0, y: 0, z: 0 });
    // rim point at angle 0: radius 1/4 of one
    assert_eq!(t[1], Fx3 { x: FX_ONE / 4, y: 0, z: 0 });
    // rim point at 45 degrees: 16384 * 46341 / 65536, truncated
    assert_eq!(t[2], Fx3 { x: 11585, y: 11585, z: 0 });
    // the side triangle ends at the apex
    assert_eq!(t[4], Fx3 { x: 0, y: 0, z: FX_ONE });
    // the last segment closes back to angle 0
    assert_eq!(t[47], Fx3 { x: FX_ONE / 4, y: 0, z: 0 });
}

#[test]
fn user_mouse_goes_through_the_transform() {
    let mut u = User::default();
    assert_eq!(u.mouse_ndc, Fx2 { x: 0, y: 0 });
    u.set_mouse_ndc(&Fx2 { x: FX_ONE / 2, y: -FX_ONE / 4 });
    let mut m = identity();
    m.x_axis.x = 4 * FX_ONE;
    m.w_axis.y = FX_ONE;
    let p = u.mouse(&m);
    assert_eq!(p, Fx2 { x: 2 * FX_ONE, y: FX_ONE - FX_ONE / 4 });
}
