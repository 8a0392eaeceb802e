use voxel_terrain::config::generator::GeneratorConfig;
use voxel_terrain::fixed::UNIT;
use voxel_terrain::terrain::chunk::{Chunk, ChunkEvent, ChunkManager, MAX_DIM};
use voxel_terrain::terrain::coords::{ChunkPos, VoxelPos};
use voxel_terrain::terrain::mesh::MeshError;
use voxel_terrain::terrain::surface_net::SurfaceNet;
use voxel_terrain::terrain::terrain_gen::TerrainGenerator;

#[test]
fn chunk_holds_its_samples_in_row_major_order() {
    let data: Vec<i64> = (0..24).collect();
    let chunk = Chunk::new(3, -4, (2, 3, 4), data).unwrap();
    assert_eq!(chunk.dim(), (2, 3, 4));
    assert_eq!(chunk.column(), (3, -4));
    for x in 0..2 {
        for y in 0..3 {
            for z in 0..4 {
                assert_eq!(chunk.get((x, y, z)), Some(((x * 3 + y) * 4 + z) as i64));
            }
        }
    }
    assert_eq!(chunk.get((2, 0, 0)), None);
    assert_eq!(chunk.get((0, 3, 0)), None);
    assert_eq!(chunk.get((0, 0, 4)), None);
    assert_eq!(chunk.get((usize::MAX, usize::MAX, usize::MAX)), None);
}

#[test]
fn chunk_lists_its_samples_in_the_order_of_the_array() {
    let data: Vec<i64> = (10..34).collect();
    let chunk = Chunk::new(0, 0, (2, 3, 4), data.clone()).unwrap();
    let cells = chunk.iter();
    assert_eq!(cells.len(), 24);
    let mut n = 0;
    for x in 0..2 {
        for y in 0..3 {
            for z in 0..4 {
                assert_eq!(cells[n], ((x, y, z), data[n]));
                n += 1;
            }
        }
    }
    assert!(Chunk::new(0, 0, (0, 3, 4), vec![]).unwrap().iter().is_empty());
    assert!(Chunk::new(0, 0, (3, 4, 0), vec![]).unwrap().iter().is_empty());
}

#[test]
fn chunk_needs_one_sample_for_each_index() {
    assert!(Chunk::new(0, 0, (2, 3, 4), vec![0; 23]).is_none());
    assert!(Chunk::new(0, 0, (2, 3, 4), vec![0; 25]).is_none());
    assert!(Chunk::new(0, 0, (2, 3, 4), vec![0; 24]).is_some());
    assert!(Chunk::new(0, 0, (0, 3, 4), vec![]).is_some());
    assert!(Chunk::new(0, 0, (0, 0, 0), vec![]).is_some());
    assert!(Chunk::new(0, 0, (0, 0, 0), vec![1]).is_none());
}

#[test]
fn chunk_axes_are_limited() {
    assert!(Chunk::new(0, 0, (MAX_DIM, 1, 1), vec![0; MAX_DIM]).is_some());
    assert!(Chunk::new(0, 0, (MAX_DIM + 1, 1, 1), vec![0; MAX_DIM + 1]).is_none());
    assert!(Chunk::new(0, 0, (1, MAX_DIM + 1, 1), vec![0; MAX_DIM + 1]).is_none());
    assert!(Chunk::new(0, 0, (0, 0, MAX_DIM + 1), vec![]).is_none());
    assert!(Chunk::new(0, 0, (0, MAX_DIM, MAX_DIM), vec![]).is_some());
}

#[test]
fn chunk_copy_holds_the_same_samples() {
    let chunk = Chunk::new(1, 2, (2, 2, 2), vec![1, -2, 3, -4, 5, -6, 7, -8]).unwrap();
    let copy = chunk.clone();
    assert_eq!(copy.dim(), (2, 2, 2));
    assert_eq!(copy.column(), (1, 2));
    for x in 0..2 {
        for y in 0..2 {
            for z in 0..2 {
                assert_eq!(copy.get((x, y, z)), chunk.get((x, y, z)));
            }
        }
    }
}

#[test]
fn write_event_names_a_voxel_and_a_density() {
    let event = ChunkEvent::Write(VoxelPos { x: 1, y: 2, z: 3 }, -UNIT);
    assert_eq!(event, ChunkEvent::Write(VoxelPos { x: 1, y: 2, z: 3 }, -UNIT));
    assert_ne!(event, ChunkEvent::Write(VoxelPos { x: 1, y: 2, z: 3 }, UNIT));
}

fn manager(cutoff: bool) -> ChunkManager {
    let config = GeneratorConfig { scaling: UNIT, cutoff, ..GeneratorConfig::default() };
    ChunkManager::new(TerrainGenerator::new(config), SurfaceNet::new())
}

#[test]
fn manager_asks_for_the_noise_of_a_chunk() {
    let m = manager(false);
    let generator = TerrainGenerator::new(GeneratorConfig {
        scaling: UNIT,
        cutoff: false,
        ..GeneratorConfig::default()
    });
    let request = m.noise_request(ChunkPos { x: -2, y: 9, z: 5 });
    assert_eq!(request, generator.noise_request(-2, 5));
    assert_eq!((request.x_offset, request.z_offset), (-128, 320));
    assert_eq!((request.width, request.depth), (67, 67));
    assert_eq!(request.seed, 25565);
}

#[test]
fn chunk_state_copy_holds_the_same_chunk_and_mesh() {
    let mut m = manager(false);
    let pos = ChunkPos { x: 0, y: 0, z: 0 };
    assert_eq!(m.load_chunk(pos, &vec![3_500_000; 67 * 67]), Ok(()));
    let state = m.get_chunk(pos).unwrap();
    let copy = state.clone();
    assert_eq!(copy.chunk.dim(), state.chunk.dim());
    assert_eq!(copy.chunk.get((5, 3, 7)), Some(500_000));
    assert_eq!(copy.mesh.positions, state.mesh.positions);
    assert_eq!(copy.mesh.normals, state.mesh.normals);
    assert_eq!(copy.mesh.tex_coords, state.mesh.tex_coords);
    assert_eq!(copy.mesh.indices, state.mesh.indices);
    assert_eq!(copy.mesh.positions.len(), 65 * 65);
    let mesh = state.mesh.clone();
    assert_eq!(mesh.indices.len(), 64 * 64 * 6);
}

#[test]
fn manager_starts_empty() {
    let m = manager(false);
    assert!(!m.is_loaded(ChunkPos { x: 0, y: 0, z: 0 }));
    assert!(m.get_chunk(ChunkPos { x: 0, y: 0, z: 0 }).is_none());
}

#[test]
fn manager_loads_a_chunk_with_its_mesh() {
    let mut m = manager(false);
    let pos = ChunkPos { x: 2, y: 0, z: -3 };
    // Level ground at the height 10.5.
    let noise = vec![10_500_000; 67 * 67];
    assert_eq!(m.load_chunk(pos, &noise), Ok(()));
    assert!(m.is_loaded(pos));
    assert!(!m.is_loaded(ChunkPos { x: 2, y: 1, z: -3 }));
    assert!(!m.is_loaded(ChunkPos { x: -3, y: 0, z: 2 }));
    let state = m.get_chunk(pos).unwrap();
    assert_eq!(state.chunk.column(), (2, -3));
    assert_eq!(state.chunk.dim(), (67, 259, 67));
    assert_eq!(state.chunk.get((0, 10, 0)), Some(500_000));
    // One vertex for each cube of the walk in the layer of the ground.
    assert_eq!(state.mesh.positions.len(), 65 * 65);
    assert_eq!(state.mesh.indices.len(), 64 * 64 * 6);
    assert_eq!(state.mesh.normals.len(), 65 * 65);
    for p in state.mesh.positions.iter() {
        assert_eq!(p.y, 10_500_000);
    }
}

#[test]
fn manager_does_not_load_a_chunk_twice() {
    let mut m = manager(false);
    let pos = ChunkPos { x: 0, y: 0, z: 0 };
    assert_eq!(m.load_chunk(pos, &vec![10_500_000; 67 * 67]), Ok(()));
    // Other noise for the same place: the chunk stays as it was loaded.
    assert_eq!(m.load_chunk(pos, &vec![20_500_000; 67 * 67]), Ok(()));
    let state = m.get_chunk(pos).unwrap();
    assert_eq!(state.chunk.get((0, 10, 0)), Some(500_000));
    // Another place gets its own chunk.
    let other = ChunkPos { x: 0, y: 0, z: 1 };
    assert_eq!(m.load_chunk(other, &vec![20_500_000; 67 * 67]), Ok(()));
    assert_eq!(m.get_chunk(other).unwrap().chunk.get((0, 20, 0)), Some(500_000));
    assert_eq!(m.get_chunk(pos).unwrap().chunk.get((0, 10, 0)), Some(500_000));
}

#[test]
fn manager_keeps_nothing_where_the_mesh_fails() {
    let mut m = manager(false);
    let pos = ChunkPos { x: 0, y: 0, z: 0 };
    // Ground that rises and falls by more than a voxel from one column to
    // the next has a surface of many layers: too many vertices.
    let mut noise = Vec::new();
    for z in 0..67 {
        for x in 0..67 {
            noise.push(if (x + z) % 2 == 0 { 200_500_000 } else { 500_000 });
        }
    }
    assert_eq!(m.load_chunk(pos, &noise), Err(MeshError::TooManyVertices));
    assert!(!m.is_loaded(pos));
    assert!(m.get_chunk(pos).is_none());
}
