use voxel_terrain::fixed::{Vector3, UNIT};
use voxel_terrain::terrain::surface_net::{
    mk_cube_edges, mk_intersection_table, SurfaceNet, SurfaceNetCube,
};

fn samples_of(pattern: u32, solid: i64, empty: i64) -> [i64; 8] {
    let mut sample = [empty; 8];
    for c in 0..8 {
        if pattern & (1 << c) != 0 {
            sample[c] = solid;
        }
    }
    sample
}

#[test]
fn all_solid_cube_is_not_on_surface() {
    let net = SurfaceNet::new();
    let cube = net.mk_surface_net_cube([1, 1, 1, 1, 1, 1, 1, 1]);
    assert_eq!(cube.corner_mask, 0xff);
    assert!(!cube.on_surface);
    assert_eq!(cube.position, Vector3 { x: 0, y: 0, z: 0 });
}

#[test]
fn all_empty_cube_is_not_on_surface() {
    let net = SurfaceNet::new();
    let cube = net.mk_surface_net_cube([0, -1, -2, 0, -5, 0, 0, -7]);
    assert_eq!(cube.corner_mask, 0);
    assert!(!cube.on_surface);
    assert_eq!(cube, SurfaceNetCube::default());
}

#[test]
fn alternating_cube_has_its_vertex_at_the_centre() {
    let net = SurfaceNet::new();
    let cube = net.mk_surface_net_cube([1, -1, 1, -1, 1, -1, 1, -1]);
    assert!(cube.on_surface);
    assert_eq!(cube.corner_mask, 0b0101_0101);
    assert_eq!(cube.position, Vector3 { x: UNIT / 2, y: UNIT / 2, z: UNIT / 2 });
    assert!(0 < cube.position.x && cube.position.x < UNIT);
    assert!(0 < cube.position.y && cube.position.y < UNIT);
    assert!(0 < cube.position.z && cube.position.z < UNIT);
}

#[test]
fn default_cube_is_off_the_surface_at_the_origin() {
    let cube = SurfaceNetCube::default();
    assert_eq!(cube.position, Vector3 { x: 0, y: 0, z: 0 });
    assert!(!cube.on_surface);
    assert_eq!(cube.corner_mask, 0);
}

#[test]
fn cube_edges_pair_each_corner_with_its_higher_neighbours() {
    assert_eq!(
        mk_cube_edges(),
        [0, 1, 0, 2, 0, 4, 1, 3, 1, 5, 2, 3, 2, 6, 3, 7, 4, 5, 4, 6, 5, 7, 6, 7]
    );
}

#[test]
fn intersection_table_marks_the_edges_with_one_solid_end() {
    let edges = mk_cube_edges();
    let table = mk_intersection_table(&edges);
    assert_eq!(table[0], 0);
    assert_eq!(table[0xff], 0);
    // Corner 0 alone: the three edges that leave it.
    assert_eq!(table[1], 0b111);
    // The corners with x = 0: the four edges along x.
    assert_eq!(table[0x55], (1 << 0) | (1 << 5) | (1 << 8) | (1 << 11));
    for mask in 0..256usize {
        // A mask and its complement cross the same edges.
        assert_eq!(table[mask], table[255 - mask]);
        assert!(table[mask] < (1 << 12));
        for k in 0..12 {
            let lo = edges[2 * k];
            let hi = edges[2 * k + 1];
            let crossed = ((mask >> lo) & 1) != ((mask >> hi) & 1);
            assert_eq!(table[mask] & (1 << k) != 0, crossed);
        }
    }
}

#[test]
fn mask_follows_the_signs_and_surface_follows_the_mask() {
    let net = SurfaceNet::new();
    for pattern in 0..256u32 {
        let cube = net.mk_surface_net_cube(samples_of(pattern, 7, -3));
        assert_eq!(cube.corner_mask as u32, pattern);
        assert_eq!(cube.on_surface, pattern != 0 && pattern != 0xff);
        assert!(0 <= cube.position.x && cube.position.x <= UNIT);
        assert!(0 <= cube.position.y && cube.position.y <= UNIT);
        assert!(0 <= cube.position.z && cube.position.z <= UNIT);
    }
}

#[test]
fn zero_density_counts_as_empty() {
    let net = SurfaceNet::new();
    let cube = net.mk_surface_net_cube([5, 0, 0, 0, 0, 0, 0, 0]);
    assert_eq!(cube.corner_mask, 1);
    assert!(cube.on_surface);
    // Each of the three crossed edges is crossed at its far end.
    assert_eq!(cube.position, Vector3 { x: UNIT / 3, y: UNIT / 3, z: UNIT / 3 });
}

#[test]
fn vertex_is_the_mean_of_the_edge_crossings() {
    let net = SurfaceNet::new();
    // Corner 0 is solid; the density falls to zero three quarters of the way
    // along each of its edges.
    let cube = net.mk_surface_net_cube([3, -1, -1, -1, -1, -1, -1, -1]);
    assert_eq!(cube.corner_mask, 1);
    assert_eq!(cube.position, Vector3 { x: 250_000, y: 250_000, z: 250_000 });
    // The lower half is solid; the surface lies a fifth of the way up.
    let cube = net.mk_surface_net_cube([1, 1, -4, -4, 1, 1, -4, -4]);
    assert_eq!(cube.corner_mask, 0b0011_0011);
    assert_eq!(cube.position, Vector3 { x: 500_000, y: 200_000, z: 500_000 });
}

#[test]
fn crossing_fraction_is_measured_from_the_first_corner() {
    let net = SurfaceNet::new();
    // Corner 0 is empty and all others solid: the crossings lie a quarter of
    // the way from corner 0.
    let cube = net.mk_surface_net_cube([-1, 3, 3, 3, 3, 3, 3, 3]);
    assert_eq!(cube.corner_mask, 0xfe);
    assert_eq!(cube.position, Vector3 { x: 83_333, y: 83_333, z: 83_333 });
}

#[test]
fn degenerate_edge_is_counted_but_adds_nothing() {
    let net = SurfaceNet::new();
    // The densities at the ends of each crossed edge lie one millionth apart.
    let cube = net.mk_surface_net_cube([1, 0, 0, 0, 0, 0, 0, 0]);
    assert!(cube.on_surface);
    assert_eq!(cube.corner_mask, 1);
    assert_eq!(cube.position, Vector3 { x: 0, y: 0, z: 0 });
    // Two millionths apart they count in full.
    let cube = net.mk_surface_net_cube([2, 0, 0, 0, 0, 0, 0, 0]);
    assert_eq!(cube.position, Vector3 { x: UNIT / 3, y: UNIT / 3, z: UNIT / 3 });
    // One degenerate edge among three.
    let cube = net.mk_surface_net_cube([1, 0, -1, -1, -1, -1, -1, -1]);
    assert_eq!(cube.position, Vector3 { x: 0, y: 166_666, z: 166_666 });
}

#[test]
fn scaling_the_samples_changes_nothing() {
    let net = SurfaceNet::new();
    let samples = [
        [3, -1, -1, -1, -1, -1, -1, -1],
        [7, 5, -11, -2, 4, 9, -6, -13],
        [-100, 250, 30, -45, 60, -75, 80, 95],
        [1_000_000, -2_500_000, 3_000_000, 4_000_000, -500_000, 600_000, 700_000, 800_000],
    ];
    for sample in samples.iter() {
        let plain = net.mk_surface_net_cube(*sample);
        for k in [2i64, 3, 10, 1000, 123_456] {
            let mut scaled = *sample;
            for c in 0..8 {
                scaled[c] *= k;
            }
            let cube = net.mk_surface_net_cube(scaled);
            assert_eq!(cube.corner_mask, plain.corner_mask);
            assert_eq!(cube.on_surface, plain.on_surface);
            assert_eq!(cube.position, plain.position);
        }
    }
}

#[test]
fn scaling_a_degenerate_edge_at_an_empty_corner_changes_nothing() {
    let net = SurfaceNet::new();
    // The three crossed edges leave corner 0, where the density is zero, and
    // are degenerate: skipped or not, each adds the place of corner 0.
    let plain = net.mk_surface_net_cube([0, 1, 1, 1, 1, 1, 1, 1]);
    let scaled = net.mk_surface_net_cube([0, 5, 5, 5, 5, 5, 5, 5]);
    assert_eq!(plain.corner_mask, 0xfe);
    assert_eq!(plain.position, Vector3 { x: 0, y: 0, z: 0 });
    assert_eq!(scaled, plain);
}

#[test]
fn scaling_a_degenerate_edge_that_counts_moves_the_vertex() {
    let net = SurfaceNet::new();
    let plain = net.mk_surface_net_cube([1, 0, -3, -3, -3, -3, -3, -3]);
    let scaled = net.mk_surface_net_cube([2, 0, -6, -6, -6, -6, -6, -6]);
    assert_eq!(scaled.corner_mask, plain.corner_mask);
    assert_eq!(plain.position, Vector3 { x: 0, y: 83_333, z: 83_333 });
    assert_eq!(scaled.position, Vector3 { x: 333_333, y: 83_333, z: 83_333 });
}

#[test]
fn extreme_samples_do_not_overflow() {
    let net = SurfaceNet::new();
    let cube = net.mk_surface_net_cube([
        i64::MAX,
        i64::MIN,
        i64::MAX,
        i64::MIN,
        i64::MAX,
        i64::MIN,
        i64::MAX,
        i64::MIN,
    ]);
    assert!(cube.on_surface);
    assert_eq!(cube.position, Vector3 { x: 499_999, y: 500_000, z: 500_000 });
}

#[test]
fn crossed_edges_reads_the_table() {
    let net = SurfaceNet::new();
    let table = mk_intersection_table(&mk_cube_edges());
    for mask in 0..=255u8 {
        assert_eq!(net.crossed_edges(mask), table[mask as usize]);
    }
}
