use voxel_terrain::fixed::{Vector3, UNIT};
use voxel_terrain::terrain::chunk::{Chunk, MAX_DIM};
use voxel_terrain::terrain::mesh::{Mesh, MeshError, TexCoord, MAX_VERTICES};
use voxel_terrain::terrain::surface_net::{CubeGrid, SurfaceNet, SurfaceNetCube};
use voxel_terrain::util::{COORD_LIMIT, NORMAL_TOLERANCE};

/// The record of the cube at `(x, y, z)` of a density field.
fn record_of(
    net: &SurfaceNet,
    density: &dyn Fn(usize, usize, usize) -> i64,
    x: usize,
    y: usize,
    z: usize,
) -> SurfaceNetCube {
    let mut sample = [0i64; 8];
    for c in 0..8 {
        sample[c] = density(x + (c & 1), y + ((c >> 1) & 1), z + ((c >> 2) & 1));
    }
    let mut cube = net.mk_surface_net_cube(sample);
    cube.position = Vector3 {
        x: cube.position.x + x as i64 * UNIT,
        y: cube.position.y + y as i64 * UNIT,
        z: cube.position.z + z as i64 * UNIT,
    };
    cube
}

/// The lattice of cubes of a density field with `dim` samples.
fn grid_of(dim: (usize, usize, usize), density: &dyn Fn(usize, usize, usize) -> i64) -> CubeGrid {
    let net = SurfaceNet::new();
    let size = (dim.0.saturating_sub(1), dim.1.saturating_sub(1), dim.2.saturating_sub(1));
    let mut records = Vec::with_capacity(size.0 * size.1 * size.2);
    for x in 0..size.0 {
        for y in 0..size.1 {
            for z in 0..size.2 {
                records.push(record_of(&net, density, x, y, z));
            }
        }
    }
    CubeGrid::new(size, records).unwrap()
}

fn mesh_of(
    dim: (usize, usize, usize),
    density: &dyn Fn(usize, usize, usize) -> i64,
) -> Result<Mesh, MeshError> {
    SurfaceNet::new().mk_mesh(grid_of(dim, density))
}

/// A lattice of 3 x 3 x 3 cubes whose four cubes at `(x, 1, z)`, for x and z
/// below 2, lie on the surface with the given mask.
fn layer_records(mask: u8) -> Vec<SurfaceNetCube> {
    let mut records = Vec::new();
    for x in 0..3 {
        for y in 0..3 {
            for z in 0..3 {
                if y == 1 && x < 2 && z < 2 {
                    records.push(SurfaceNetCube {
                        position: Vector3 {
                            x: x as i64 * UNIT + UNIT / 2,
                            y: 3 * UNIT / 2,
                            z: z as i64 * UNIT + UNIT / 2,
                        },
                        on_surface: true,
                        corner_mask: mask,
                    });
                } else {
                    records.push(SurfaceNetCube::default());
                }
            }
        }
    }
    records
}

fn assert_well_formed(mesh: &Mesh) {
    assert_eq!(mesh.positions.len(), mesh.tex_coords.len());
    assert_eq!(mesh.positions.len(), mesh.normals.len());
    assert_eq!(mesh.indices.len() % 3, 0);
    for index in mesh.indices.iter() {
        assert!((*index as usize) < mesh.positions.len());
    }
    for tex in mesh.tex_coords.iter() {
        assert_eq!(*tex, TexCoord { u: UNIT, v: 0 });
    }
    let low = (UNIT - NORMAL_TOLERANCE) as i128 * (UNIT - NORMAL_TOLERANCE) as i128;
    let high = (UNIT + NORMAL_TOLERANCE) as i128 * (UNIT + NORMAL_TOLERANCE) as i128;
    for n in mesh.normals.iter() {
        let len2 = n.x as i128 * n.x as i128 + n.y as i128 * n.y as i128 + n.z as i128 * n.z as i128;
        assert!(low <= len2 && len2 <= high);
    }
}

#[test]
fn solid_volume_has_no_mesh() {
    let mesh = mesh_of((6, 7, 5), &|_, _, _| UNIT).unwrap();
    assert!(mesh.positions.is_empty());
    assert!(mesh.normals.is_empty());
    assert!(mesh.tex_coords.is_empty());
    assert!(mesh.indices.is_empty());
}

#[test]
fn empty_volume_has_no_mesh() {
    let mesh = mesh_of((6, 7, 5), &|x, _, _| -(x as i64)).unwrap();
    assert!(mesh.positions.is_empty());
    assert!(mesh.indices.is_empty());
}

#[test]
fn volume_without_cubes_has_no_mesh() {
    for dim in [(0, 0, 0), (1, 1, 1), (0, 4, 4), (4, 1, 4), (2, 2, 2), (5, 5, 2)] {
        let mesh = mesh_of(dim, &|x, y, z| (x + y + z) as i64 % 2 * 2 - 1).unwrap();
        assert!(mesh.positions.is_empty());
        assert!(mesh.indices.is_empty());
    }
}

fn full_chunk(density: &dyn Fn(usize, usize, usize) -> i64) -> Chunk {
    let dim = (67, 259, 67);
    let mut data = Vec::with_capacity(dim.0 * dim.1 * dim.2);
    for x in 0..dim.0 {
        for y in 0..dim.1 {
            for z in 0..dim.2 {
                data.push(density(x, y, z));
            }
        }
    }
    Chunk::new(0, 0, dim, data).unwrap()
}

#[test]
fn cubes_are_placed_in_the_lattice() {
    let net = SurfaceNet::new();
    let chunk = full_chunk(&|_, y, _| 1_500_000 - (y as i64) * UNIT);
    let cubes = net.mk_cubes(&chunk);
    assert_eq!(cubes.dims(), (66, 258, 66));
    assert_eq!(cubes.get((66, 0, 0)), None);
    assert_eq!(cubes.get((0, 258, 0)), None);
    assert_eq!(cubes.get((0, 0, 66)), None);
    for x in [0usize, 1, 30, 65] {
        for y in 0..258usize {
            for z in [0usize, 7, 64, 65] {
                let cube = cubes.get((x, y, z)).unwrap();
                assert_eq!(cube.on_surface, y == 1);
                if y == 1 {
                    assert_eq!(cube.corner_mask, 0b0011_0011);
                    assert_eq!(
                        cube.position,
                        Vector3 {
                            x: x as i64 * UNIT + 500_000,
                            y: 1_500_000,
                            z: z as i64 * UNIT + 500_000,
                        }
                    );
                } else if y == 0 {
                    assert_eq!(cube.corner_mask, 0xff);
                    assert_eq!(cube.position, Vector3 { x: x as i64 * UNIT, y: 0, z: z as i64 * UNIT });
                } else {
                    assert_eq!(cube.corner_mask, 0);
                }
            }
        }
    }
}

#[test]
fn cubes_of_a_chunk_are_the_records_of_its_field() {
    let net = SurfaceNet::new();
    let density = |x: usize, y: usize, z: usize| -> i64 {
        let h = 3_000_000 + ((x * 7 + z * 13) % 5) as i64 * 700_000 + ((x * z) % 3) as i64 * 450_000;
        h - (y as i64) * UNIT
    };
    let cubes = net.mk_cubes(&full_chunk(&density));
    for x in 0..66 {
        for y in 0..12 {
            for z in 0..66 {
                assert_eq!(cubes.get((x, y, z)), Some(record_of(&net, &density, x, y, z)));
            }
        }
    }
    let mesh = net.mk_mesh(cubes).unwrap();
    assert!(mesh.positions.len() >= 65 * 65);
    assert_well_formed(&mesh);
}

#[test]
fn larger_chunk_gives_the_same_lattice() {
    // Samples beyond the padding are not looked at.
    let net = SurfaceNet::new();
    let density = |x: usize, y: usize, z: usize| -> i64 { 20_300_000 - (y as i64) * UNIT + (x + z) as i64 };
    let mut data = Vec::new();
    for x in 0..68 {
        for y in 0..259 {
            for z in 0..70 {
                data.push(density(x, y, z));
            }
        }
    }
    let cubes = net.mk_cubes(&Chunk::new(0, 0, (68, 259, 70), data).unwrap());
    assert_eq!(cubes.dims(), (66, 258, 66));
    assert_eq!(cubes.get((65, 20, 65)), Some(record_of(&net, &density, 65, 20, 65)));
}

#[test]
fn lattice_is_made_from_records_in_row_major_order() {
    let records = layer_records(0x33);
    let grid = CubeGrid::new((3, 3, 3), records.clone()).unwrap();
    assert_eq!(grid.dims(), (3, 3, 3));
    for x in 0..3 {
        for y in 0..3 {
            for z in 0..3 {
                assert_eq!(grid.get((x, y, z)), Some(records[(x * 3 + y) * 3 + z]));
            }
        }
    }
    assert_eq!(grid.get((3, 0, 0)), None);
    assert!(CubeGrid::new((0, 0, 0), vec![]).is_some());
    assert!(CubeGrid::new((0, 5, 2), vec![]).is_some());
}

#[test]
fn lattice_needs_one_record_for_each_cube() {
    let records = layer_records(0x33);
    assert!(CubeGrid::new((3, 3, 2), records.clone()).is_none());
    assert!(CubeGrid::new((3, 3, 4), records.clone()).is_none());
    assert!(CubeGrid::new((1, 1, MAX_DIM), vec![SurfaceNetCube::default(); MAX_DIM]).is_none());
    assert!(
        CubeGrid::new((1, 1, MAX_DIM - 1), vec![SurfaceNetCube::default(); MAX_DIM - 1]).is_some()
    );
}

#[test]
fn lattice_with_a_vertex_beyond_the_limit_is_refused() {
    let mut records = layer_records(0x33);
    records[(1 * 3 + 1) * 3 + 1].position.x = COORD_LIMIT;
    assert!(CubeGrid::new((3, 3, 3), records.clone()).is_some());
    records[(1 * 3 + 1) * 3 + 1].position.x = COORD_LIMIT + 1;
    assert!(CubeGrid::new((3, 3, 3), records.clone()).is_none());
    records[(1 * 3 + 1) * 3 + 1].position.x = 0;
    records[(0 * 3 + 1) * 3 + 0].position.z = -COORD_LIMIT - 1;
    assert!(CubeGrid::new((3, 3, 3), records.clone()).is_none());
    // A cube that the walk does not visit, or one off the surface, may lie
    // anywhere.
    let mut records = layer_records(0x33);
    records[(2 * 3 + 2) * 3 + 2] = SurfaceNetCube {
        position: Vector3 { x: i64::MAX, y: i64::MIN, z: 0 },
        on_surface: true,
        corner_mask: 1,
    };
    records[0].position.y = i64::MAX;
    assert!(CubeGrid::new((3, 3, 3), records).is_some());
}

#[test]
fn lattice_with_a_quad_that_cannot_be_closed_is_refused() {
    // The cube at (1, 1, 1) owes a quad around its edge along y; each of the
    // three other cubes around that edge must lie on the surface.
    for missing in [(1usize, 1usize, 0usize), (0, 1, 0), (0, 1, 1)] {
        let mut records = layer_records(0x33);
        records[(missing.0 * 3 + 1) * 3 + missing.2].on_surface = false;
        assert!(CubeGrid::new((3, 3, 3), records).is_none());
    }
    // Without the cube that owes the quad, nothing is missing.
    let mut records = layer_records(0x33);
    records[(1 * 3 + 1) * 3 + 1].on_surface = false;
    let mesh = SurfaceNet::new().mk_mesh(CubeGrid::new((3, 3, 3), records).unwrap()).unwrap();
    assert_eq!(mesh.positions.len(), 3);
    assert!(mesh.indices.is_empty());
    assert_eq!(mesh.normals, vec![Vector3 { x: 0, y: UNIT, z: 0 }; 3]);
}

#[test]
fn records_of_level_ground_give_one_quad_that_faces_up() {
    let grid = CubeGrid::new((3, 3, 3), layer_records(0x33)).unwrap();
    let mesh = SurfaceNet::new().mk_mesh(grid).unwrap();
    assert_eq!(
        mesh.positions,
        vec![
            Vector3 { x: 500_000, y: 1_500_000, z: 500_000 },
            Vector3 { x: 1_500_000, y: 1_500_000, z: 500_000 },
            Vector3 { x: 500_000, y: 1_500_000, z: 1_500_000 },
            Vector3 { x: 1_500_000, y: 1_500_000, z: 1_500_000 },
        ]
    );
    assert_eq!(mesh.indices, vec![3, 1, 0, 3, 0, 2]);
    assert_eq!(mesh.normals, vec![Vector3 { x: 0, y: UNIT, z: 0 }; 4]);
    assert_eq!(mesh.tex_coords, vec![TexCoord { u: UNIT, v: 0 }; 4]);
}

#[test]
fn records_of_a_ceiling_give_one_quad_that_faces_down() {
    let grid = CubeGrid::new((3, 3, 3), layer_records(0xcc)).unwrap();
    let mesh = SurfaceNet::new().mk_mesh(grid).unwrap();
    assert_eq!(mesh.positions.len(), 4);
    assert_eq!(mesh.indices, vec![3, 2, 0, 3, 0, 1]);
    assert_eq!(mesh.normals, vec![Vector3 { x: 0, y: -UNIT, z: 0 }; 4]);
    assert_eq!(mesh.tex_coords, vec![TexCoord { u: UNIT, v: 0 }; 4]);
}

#[test]
fn level_ground_gives_one_quad_that_faces_up() {
    // Solid below y = 1.5, in a volume of 4 x 4 x 4 samples: the walk visits
    // 2 x 2 x 2 cubes, four of them on the surface, and closes one quad.
    let mesh = mesh_of((4, 4, 4), &|_, y, _| 1_500_000 - (y as i64) * UNIT).unwrap();
    assert_eq!(
        mesh.positions,
        vec![
            Vector3 { x: 500_000, y: 1_500_000, z: 500_000 },
            Vector3 { x: 1_500_000, y: 1_500_000, z: 500_000 },
            Vector3 { x: 500_000, y: 1_500_000, z: 1_500_000 },
            Vector3 { x: 1_500_000, y: 1_500_000, z: 1_500_000 },
        ]
    );
    assert_eq!(mesh.indices, vec![3, 1, 0, 3, 0, 2]);
    assert_eq!(mesh.normals, vec![Vector3 { x: 0, y: UNIT, z: 0 }; 4]);
    assert_eq!(mesh.tex_coords, vec![TexCoord { u: UNIT, v: 0 }; 4]);
}

#[test]
fn ceiling_gives_one_quad_that_faces_down() {
    // Solid above y = 1.5: the same quad, wound the other way.
    let mesh = mesh_of((4, 4, 4), &|_, y, _| (y as i64) * UNIT - 1_500_000).unwrap();
    assert_eq!(mesh.positions.len(), 4);
    assert_eq!(mesh.indices, vec![3, 2, 0, 3, 0, 1]);
    assert_eq!(mesh.normals, vec![Vector3 { x: 0, y: -UNIT, z: 0 }; 4]);
}

#[test]
fn wall_across_x_faces_away_from_the_solid() {
    // Solid below x = 1.25.
    let mesh = mesh_of((4, 4, 4), &|x, _, _| 1_250_000 - (x as i64) * UNIT).unwrap();
    assert_eq!(
        mesh.positions,
        vec![
            Vector3 { x: 1_250_000, y: 500_000, z: 500_000 },
            Vector3 { x: 1_250_000, y: 1_500_000, z: 500_000 },
            Vector3 { x: 1_250_000, y: 500_000, z: 1_500_000 },
            Vector3 { x: 1_250_000, y: 1_500_000, z: 1_500_000 },
        ]
    );
    assert_eq!(mesh.indices.len(), 6);
    assert_eq!(mesh.normals, vec![Vector3 { x: UNIT, y: 0, z: 0 }; 4]);
}

#[test]
fn quad_is_split_along_its_longer_diagonal() {
    // Level ground whose height differs at one corner of the quad, so that
    // one diagonal is longer than the other.
    let ground = |x: usize, z: usize| -> i64 {
        if x == 2 && z == 2 {
            1_900_000
        } else {
            1_100_000
        }
    };
    let mesh = mesh_of((4, 4, 4), &|x, y, z| ground(x, z) - (y as i64) * UNIT).unwrap();
    assert_eq!(mesh.positions.len(), 4);
    let a = mesh.positions[3];
    let c = mesh.positions[0];
    let b = mesh.positions[1];
    let d = mesh.positions[2];
    let dist2 = |p: Vector3, q: Vector3| -> i64 {
        (p.x - q.x) * (p.x - q.x) + (p.y - q.y) * (p.y - q.y) + (p.z - q.z) * (p.z - q.z)
    };
    assert!(dist2(a, c) > dist2(b, d));
    // The two triangles share the diagonal from a to c.
    assert_eq!(mesh.indices, vec![3, 1, 0, 3, 0, 2]);
    assert_well_formed(&mesh);
}

#[test]
fn quad_with_the_other_diagonal_longer_is_split_along_that() {
    // The vertex of the cube at (1, 1, 0), the quad's corner b, lies higher
    // than the others.
    let mut records = layer_records(0x33);
    records[(1 * 3 + 1) * 3 + 0].position.y = 1_900_000;
    let mesh = SurfaceNet::new().mk_mesh(CubeGrid::new((3, 3, 3), records).unwrap()).unwrap();
    assert_eq!(mesh.positions.len(), 4);
    let a = mesh.positions[3];
    let c = mesh.positions[0];
    let b = mesh.positions[1];
    let d = mesh.positions[2];
    let dist2 = |p: Vector3, q: Vector3| -> i64 {
        (p.x - q.x) * (p.x - q.x) + (p.y - q.y) * (p.y - q.y) + (p.z - q.z) * (p.z - q.z)
    };
    assert!(dist2(a, c) < dist2(b, d));
    // The two triangles share the diagonal from b to d.
    assert_eq!(mesh.indices, vec![3, 1, 2, 2, 1, 0]);
    assert_well_formed(&mesh);
}

#[test]
fn quad_with_diagonals_of_one_length_is_split_from_its_first_corner() {
    let mesh = SurfaceNet::new()
        .mk_mesh(CubeGrid::new((3, 3, 3), layer_records(0x33)).unwrap())
        .unwrap();
    // The two triangles share the diagonal from a to c.
    assert_eq!(mesh.indices, vec![3, 1, 0, 3, 0, 2]);
}

#[test]
fn bumpy_ground_gives_a_well_formed_mesh() {
    let mesh = mesh_of(
        (12, 10, 14),
        &|x, y, z| {
            let h = 3_000_000 + ((x * 7 + z * 13) % 5) as i64 * 700_000
                + ((x * z) % 3) as i64 * 450_000;
            h - (y as i64) * UNIT
        },
    ).unwrap();
    assert!(mesh.positions.len() >= 11 * 13);
    assert!(!mesh.indices.is_empty());
    assert_well_formed(&mesh);
}

#[test]
fn sphere_gives_a_well_formed_mesh() {
    let mesh = mesh_of(
        (16, 16, 16),
        &|x, y, z| {
            let dx = x as i64 - 7;
            let dy = y as i64 - 7;
            let dz = z as i64 - 7;
            (30 - (dx * dx + dy * dy + dz * dz)) * UNIT + 250_000
        },
    ).unwrap();
    assert!(mesh.positions.len() > 100);
    assert_eq!(mesh.indices.len() % 6, 0);
    assert_well_formed(&mesh);
    // Every vertex of a closed surface inside the lattice has its triangles,
    // and its normal points away from the centre.
    for (p, n) in mesh.positions.iter().zip(mesh.normals.iter()) {
        let out = (p.x - 7 * UNIT) as i128 * n.x as i128 + (p.y - 7 * UNIT) as i128 * n.y as i128
            + (p.z - 7 * UNIT) as i128 * n.z as i128;
        assert!(out > 0);
    }
}

#[test]
fn meshing_twice_gives_the_same_mesh() {
    let density = |x: usize, y: usize, z: usize| -> i64 { ((x * 31 + y * 17 + z * 7) % 11) as i64 - 5 };
    let first = mesh_of((9, 9, 9), &density).unwrap();
    let second = mesh_of((9, 9, 9), &density).unwrap();
    assert_eq!(first.positions, second.positions);
    assert_eq!(first.indices, second.indices);
    assert_eq!(first.normals, second.normals);
    assert_well_formed(&first);
}

#[test]
fn as_many_vertices_as_indices_can_name_are_accepted() {
    // Level ground under 256 x 256 cubes of the walk.
    let mesh = mesh_of((258, 3, 258), &|_, y, _| 500_000 - (y as i64) * UNIT).unwrap();
    assert_eq!(mesh.positions.len(), MAX_VERTICES);
    assert_eq!(mesh.indices.len(), 255 * 255 * 6);
    assert_eq!(*mesh.indices.iter().max().unwrap(), 65535);
}

#[test]
fn one_vertex_too_many_is_refused() {
    let result = mesh_of((259, 3, 258), &|_, y, _| 500_000 - (y as i64) * UNIT);
    assert_eq!(result.err(), Some(MeshError::TooManyVertices));
}
