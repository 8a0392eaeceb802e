use voxel_terrain::fixed::{Vector3, UNIT};
use voxel_terrain::util::{calculate_normals, normalize_exec, COORD_LIMIT, NORMAL_TOLERANCE};

fn at(x: i64, y: i64, z: i64) -> Vector3 {
    Vector3 { x: x * UNIT, y: y * UNIT, z: z * UNIT }
}

#[test]
fn triangle_in_the_plane_faces_along_z() {
    let positions = vec![at(-1, -1, 0), at(1, -1, 0), at(0, 1, 0)];
    let normals = calculate_normals(&positions, &[0, 1, 2]);
    assert_eq!(normals, vec![Vector3 { x: 0, y: 0, z: UNIT }; 3]);
    let normals = calculate_normals(&positions, &[0, 2, 1]);
    assert_eq!(normals, vec![Vector3 { x: 0, y: 0, z: -UNIT }; 3]);
}

#[test]
fn vertex_of_no_triangle_gets_the_fallback() {
    let positions = vec![at(0, 0, 0), at(1, 0, 0), at(0, 0, 1), at(5, 5, 5)];
    let normals = calculate_normals(&positions, &[0, 2, 1]);
    assert_eq!(normals[0], Vector3 { x: 0, y: UNIT, z: 0 });
    assert_eq!(normals[3], Vector3 { x: 0, y: UNIT, z: 0 });
    let normals = calculate_normals(&positions, &[]);
    assert_eq!(normals, vec![Vector3 { x: 0, y: UNIT, z: 0 }; 4]);
    assert_eq!(calculate_normals(&[], &[]), vec![]);
}

#[test]
fn indices_beyond_the_last_whole_triangle_are_ignored() {
    let positions = vec![at(0, 0, 0), at(1, 0, 0), at(0, 1, 0)];
    let normals = calculate_normals(&positions, &[0, 1, 2, 2, 1]);
    assert_eq!(normals, vec![Vector3 { x: 0, y: 0, z: UNIT }; 3]);
}

#[test]
fn larger_faces_weigh_more() {
    // Vertex 0 belongs to a face of area 1/2 that faces along z and to a face
    // of area 2 that faces along x.
    let positions =
        vec![at(0, 0, 0), at(1, 0, 0), at(0, 1, 0), at(0, 2, 0), at(0, 0, 2)];
    let normals = calculate_normals(&positions, &[0, 1, 2, 0, 3, 4]);
    // The sum is (4, 0, 1) before it is scaled.
    assert_eq!(normals[0], Vector3 { x: 970_142, y: 0, z: 242_535 });
    assert_eq!(normals[1], Vector3 { x: 0, y: 0, z: UNIT });
    assert_eq!(normals[3], Vector3 { x: UNIT, y: 0, z: 0 });
}

#[test]
fn faces_that_cancel_leave_the_fallback() {
    let positions = vec![at(0, 0, 0), at(1, 0, 0), at(0, 1, 0)];
    let normals = calculate_normals(&positions, &[0, 1, 2, 0, 2, 1]);
    assert_eq!(normals, vec![Vector3 { x: 0, y: UNIT, z: 0 }; 3]);
}

#[test]
fn repeated_corner_gives_a_face_without_area() {
    let positions = vec![at(0, 0, 0), at(1, 0, 0), at(0, 1, 0)];
    let normals = calculate_normals(&positions, &[0, 0, 1]);
    assert_eq!(normals, vec![Vector3 { x: 0, y: UNIT, z: 0 }; 3]);
}

#[test]
fn coordinates_at_the_limit_do_not_overflow() {
    let l = COORD_LIMIT;
    let positions = vec![
        Vector3 { x: -l, y: -l, z: -l },
        Vector3 { x: l, y: -l, z: -l },
        Vector3 { x: -l, y: l, z: -l },
    ];
    let mut indices = Vec::new();
    for _ in 0..1000 {
        indices.extend_from_slice(&[0, 1, 2]);
    }
    let normals = calculate_normals(&positions, &indices);
    assert_eq!(normals, vec![Vector3 { x: 0, y: 0, z: UNIT }; 3]);
}

#[test]
fn normalize_scales_to_unit_length() {
    assert_eq!(normalize_exec(3, 4, 0), Vector3 { x: 600_000, y: 800_000, z: 0 });
    assert_eq!(normalize_exec(0, -5, 0), Vector3 { x: 0, y: -UNIT, z: 0 });
    assert_eq!(normalize_exec(-1, -1, -1), Vector3 { x: -577_350, y: -577_350, z: -577_350 });
    assert_eq!(normalize_exec(0, 0, 0), Vector3 { x: 0, y: UNIT, z: 0 });
    assert_eq!(
        normalize_exec(i128::MAX, 0, -i128::MAX),
        Vector3 { x: 707_106, y: 0, z: -707_106 }
    );
    assert_eq!(
        normalize_exec(3 << 70, 4 << 70, 0),
        Vector3 { x: 600_000, y: 800_000, z: 0 }
    );
}

#[test]
fn normalized_vectors_have_unit_length_within_the_tolerance() {
    let low = (UNIT - NORMAL_TOLERANCE) as i128 * (UNIT - NORMAL_TOLERANCE) as i128;
    let high = (UNIT + NORMAL_TOLERANCE) as i128 * (UNIT + NORMAL_TOLERANCE) as i128;
    let values: [i128; 9] =
        [0, 1, -1, 2, 1000, -999_999, 1 << 40, -(1 << 90), i128::MAX];
    for x in values {
        for y in values {
            for z in values {
                let n = normalize_exec(x, y, z);
                let len2 =
                    n.x as i128 * n.x as i128 + n.y as i128 * n.y as i128 + n.z as i128 * n.z as i128;
                assert!(low <= len2 && len2 <= high);
                if x != 0 || y != 0 || z != 0 {
                    assert_eq!(n.x.signum() as i128, if n.x == 0 { 0 } else { x.signum() });
                    assert_eq!(n.y.signum() as i128, if n.y == 0 { 0 } else { y.signum() });
                    assert_eq!(n.z.signum() as i128, if n.z == 0 { 0 } else { z.signum() });
                }
            }
        }
    }
}

#[test]
fn normal_points_the_way_of_the_vector() {
    let values: [i128; 9] = [0, 1, -1, 3, 1000, -999_999, 1 << 40, -(1 << 90), i128::MAX / 4];
    for x in values {
        for y in values {
            for z in values {
                if x == 0 && y == 0 && z == 0 {
                    continue;
                }
                let n = normalize_exec(x, y, z);
                let (nx, ny, nz) = (n.x as i128, n.y as i128, n.z as i128);
                assert!(nx * x.signum() >= 0 && ny * y.signum() >= 0 && nz * z.signum() >= 0);
                assert!((x != 0 || nx == 0) && (y != 0 || ny == 0) && (z != 0 || nz == 0));
                // No component of the cross product exceeds three times the
                // largest magnitude.
                let m = x.abs().max(y.abs()).max(z.abs());
                assert!((ny * z - nz * y).abs() <= 3 * m);
                assert!((nz * x - nx * z).abs() <= 3 * m);
                assert!((nx * y - ny * x).abs() <= 3 * m);
            }
        }
    }
}
