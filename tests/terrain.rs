use terrain_stream::location::TerrainLocation;
use terrain_stream::mesh::build_mesh;
use terrain_stream::scheduler::{get_next_load_loc, update_terrain};
use terrain_stream::store::{require_update, sample_grid_position, TerrainData, TerrainPiece};
use terrain_stream::streaming::Terrain;

fn loc(x: i32, z: i32) -> TerrainLocation {
    TerrainLocation { x, z }
}

fn flat_piece(position: TerrainLocation, side: usize) -> TerrainPiece<f32> {
    TerrainPiece::new(position, side, vec![0.0f32; side * side]).unwrap()
}

fn chebyshev(a: TerrainLocation, b: TerrainLocation) -> i32 {
    (a.x - b.x).abs().max((a.z - b.z).abs())
}

/// Runs the loader from an empty store until it reports nothing left.
fn load_all(center: TerrainLocation, radius: i32, side: usize) -> (Vec<TerrainLocation>, TerrainData<f32>) {
    let mut data: TerrainData<f32> = TerrainData::new();
    let mut order = Vec::new();
    loop {
        match update_terrain(&mut data, &center, radius) {
            Some(next) => {
                order.push(next);
                data.insert(next, flat_piece(next, side));
            }
            None => break,
        }
        assert!(order.len() <= 10_000);
    }
    (order, data)
}

#[test]
fn end_to_end_small_window() {
    let (order, data) = load_all(loc(0, 0), 2, 2);
    let expected = vec![
        loc(0, 0),
        loc(1, -1),
        loc(1, 0),
        loc(1, 1),
        loc(-1, 1),
        loc(0, 1),
        loc(-1, -1),
        loc(-1, 0),
        loc(0, -1),
    ];
    assert_eq!(order, expected);
    let listed = [
        loc(0, 0),
        loc(1, 0),
        loc(1, 1),
        loc(0, 1),
        loc(-1, 1),
        loc(-1, 0),
        loc(-1, -1),
        loc(0, -1),
        loc(1, -1),
    ];
    for c in listed.iter() {
        assert!(order.contains(c));
    }
    assert_eq!(get_next_load_loc(&data, &loc(0, 0), 2), None);
    for c in order.iter() {
        let piece = data.get_terrain_piece(c).unwrap();
        let mesh = build_mesh(piece);
        assert_eq!(mesh.vertices.len(), 4);
        assert_eq!(mesh.indices.len(), 6);
    }
}

#[test]
fn spiral_enumerates_window_once() {
    let center = loc(5, -7);
    let (order, _) = load_all(center, 3, 2);
    assert_eq!(order.len(), 25);
    for (i, c) in order.iter().enumerate() {
        assert!(chebyshev(*c, center) <= 2);
        assert!(!order[..i].contains(c));
    }
}

#[test]
fn spiral_radius_one_is_center_only() {
    let (order, _) = load_all(loc(3, 4), 1, 2);
    assert_eq!(order, vec![loc(3, 4)]);
}

#[test]
fn center_is_loaded_first() {
    let (order, _) = load_all(loc(-2, 9), 4, 2);
    assert_eq!(order[0], loc(-2, 9));
    assert_eq!(order.len(), 49);
}

#[test]
fn small_window_loads_ring_zero_before_ring_one() {
    let center = loc(0, 0);
    let (order, _) = load_all(center, 2, 2);
    assert_eq!(chebyshev(order[0], center), 0);
    assert!(order[1..].iter().all(|c| chebyshev(*c, center) == 1));
}

#[test]
fn rings_load_in_order() {
    let center = loc(0, 0);
    let (order, _) = load_all(center, 3, 2);
    assert_eq!(order.len(), 25);
    for w in order.windows(2) {
        assert!(chebyshev(w[0], center) <= chebyshev(w[1], center));
    }
    assert_eq!(&order[..9], &[
        loc(0, 0),
        loc(1, -1),
        loc(1, 0),
        loc(1, 1),
        loc(-1, 1),
        loc(0, 1),
        loc(-1, -1),
        loc(-1, 0),
        loc(0, -1),
    ]);
    assert_eq!(order[9], loc(2, -2));
    assert_eq!(order[24], loc(1, -2));
}

#[test]
fn rings_load_in_order_off_center() {
    let center = loc(-4, 11);
    let (order, _) = load_all(center, 5, 2);
    assert_eq!(order.len(), 81);
    for w in order.windows(2) {
        assert!(chebyshev(w[0], center) <= chebyshev(w[1], center));
    }
}

#[test]
fn search_skips_loaded_chunks() {
    let mut data: TerrainData<f32> = TerrainData::new();
    data.insert(loc(0, 0), flat_piece(loc(0, 0), 2));
    data.insert(loc(-1, 0), flat_piece(loc(-1, 0), 2));
    assert_eq!(get_next_load_loc(&data, &loc(0, 0), 2), Some(loc(1, -1)));
    assert_eq!(get_next_load_loc(&data, &loc(0, 0), 1), None);
}

#[test]
fn mesh_counts_and_indices() {
    let piece = TerrainPiece::new(loc(0, 0), 2, vec![1.0f32, 2.0, 3.0, 4.0]).unwrap();
    let mesh = build_mesh(&piece);
    assert_eq!(mesh.indices, vec![0, 3, 1, 0, 2, 3]);
    let grid: Vec<(u32, u32, f32)> = mesh.vertices.iter().map(|v| (v.col, v.row, v.height)).collect();
    assert_eq!(grid, vec![(0, 0, 1.0), (1, 0, 2.0), (0, 1, 3.0), (1, 1, 4.0)]);

    let big = flat_piece(loc(0, 0), 5);
    let mesh = build_mesh(&big);
    assert_eq!(mesh.vertices.len(), 25);
    assert_eq!(mesh.indices.len(), 6 * 16);
    assert!(mesh.indices.iter().all(|i| *i < 25));
    // second cell of the second row: lowest corner (1, 1)
    assert_eq!(&mesh.indices[6 * 5..6 * 6], &[6, 12, 7, 6, 11, 12]);
}

#[test]
fn mesh_origin_follows_chunk_address() {
    let piece = flat_piece(loc(3, -2), 50);
    let mesh = build_mesh(&piece);
    assert_eq!((mesh.origin_x, mesh.origin_z), (147, -98));
    assert_eq!(mesh.vertices.len(), 2500);
    assert_eq!(mesh.indices.len(), 6 * 49 * 49);
}

#[test]
fn sample_positions_are_shared_on_borders() {
    assert_eq!(sample_grid_position(loc(2, -1), 50, 3, 4), (101, -45));
    assert_eq!(sample_grid_position(loc(0, 0), 50, 49, 0), sample_grid_position(loc(1, 0), 50, 0, 0));
}

#[test]
fn piece_rejects_bad_shapes() {
    assert!(TerrainPiece::new(loc(0, 0), 1, vec![0.0f32]).is_none());
    assert!(TerrainPiece::new(loc(0, 0), 3, vec![0.0f32; 8]).is_none());
    assert!(TerrainPiece::new(loc(0, 0), 3, vec![0.0f32; 9]).is_some());
}

#[test]
fn store_insert_and_lookup() {
    let mut data: TerrainData<f32> = TerrainData::new();
    assert!(!data.contains(&loc(1, 2)));
    assert!(data.get_terrain_piece(&loc(1, 2)).is_none());
    let piece = TerrainPiece::new(loc(1, 2), 2, vec![5.0f32, 6.0, 7.0, 8.0]).unwrap();
    data.insert(loc(1, 2), piece);
    assert!(data.contains(&loc(1, 2)));
    assert!(!data.contains(&loc(2, 1)));
    let got = data.get_terrain_piece(&loc(1, 2)).unwrap();
    assert_eq!(got.position, loc(1, 2));
    assert_eq!(got.terrain_data, vec![5.0f32, 6.0, 7.0, 8.0]);
    let extreme = loc(i32::MIN, i32::MAX);
    data.insert(extreme, flat_piece(extreme, 2));
    assert!(data.contains(&extreme));
    assert!(!data.contains(&loc(i32::MAX, i32::MIN)));
}

#[test]
fn keys_are_distinct() {
    assert_ne!(loc(0, -1).key(), loc(-1, 0).key());
    assert_ne!(loc(1, i32::MIN).key(), loc(0, i32::MAX).key());
    assert_eq!(loc(7, 7).key(), loc(7, 7).key());
}

#[test]
fn frontier_resets_only_on_move() {
    let mut data: TerrainData<f32> = TerrainData::new();
    let c = loc(0, 0);
    let c2 = loc(4, 1);
    data.begin_update(&c);
    data.mark_satisfied();
    assert!(!data.needs_reload(&c));
    data.begin_update(&c2);
    assert!(data.needs_reload(&c2));
    data.mark_satisfied();
    data.begin_update(&c2);
    assert!(!data.needs_reload(&c2));
}

#[test]
fn require_update_clears_flag_on_move() {
    let mut data: TerrainData<f32> = TerrainData::new();
    assert!(require_update(&mut data, &loc(0, 0)));
    data.mark_satisfied();
    assert!(!require_update(&mut data, &loc(0, 0)));
    assert!(require_update(&mut data, &loc(1, 0)));
    assert!(require_update(&mut data, &loc(0, 0)));
}

#[test]
fn update_marks_frontier_when_window_full() {
    let (_, mut data) = load_all(loc(0, 0), 2, 2);
    assert!(!data.needs_reload(&loc(0, 0)));
    assert_eq!(update_terrain(&mut data, &loc(1, 0), 2), Some(loc(2, -1)));
    assert!(data.needs_reload(&loc(1, 0)));
}

/// Runs ticks at `center` until the frontier is satisfied, returning every
/// activated chunk.
fn run_ticks(terrain: &mut Terrain<f32>, center: TerrainLocation) -> (Vec<TerrainLocation>, Vec<TerrainLocation>) {
    let mut activated = Vec::new();
    let mut evicted = Vec::new();
    for _ in 0..1000 {
        let planned = terrain.plan_load(&center);
        if let Some(next) = planned {
            terrain.store_piece(flat_piece(next, 2));
        }
        let changes = terrain.refresh_active(&center);
        activated.extend(changes.activated);
        evicted.extend(changes.evicted);
        if planned.is_none() {
            break;
        }
    }
    (activated, evicted)
}

#[test]
fn active_set_tracks_window() {
    let mut terrain: Terrain<f32> = Terrain::new(2);
    let (activated, evicted) = run_ticks(&mut terrain, loc(0, 0));
    assert!(evicted.is_empty());
    assert_eq!(activated.len(), 9);
    assert!(terrain.plan_load(&loc(0, 0)).is_none());

    // moving three chunks east: everything west of x = 1 leaves the window
    let (activated, evicted) = run_ticks(&mut terrain, loc(3, 0));
    let mut gone = evicted.clone();
    gone.sort_by_key(|c| (c.x, c.z));
    assert_eq!(gone, vec![loc(-1, -1), loc(-1, 0), loc(-1, 1), loc(0, -1), loc(0, 0), loc(0, 1)]);
    for c in activated.iter() {
        assert!(chebyshev(*c, loc(3, 0)) <= 2);
        assert!(terrain.terrain_data().contains(c));
    }
    // chunks at distance 2 stay shown once loaded
    assert!(!activated.contains(&loc(1, 0)));
    let changes = terrain.refresh_active(&loc(3, 0));
    assert!(changes.activated.is_empty());
    assert!(changes.evicted.is_empty());
}

#[test]
fn refresh_activates_loaded_chunks_in_window() {
    let mut terrain: Terrain<f32> = Terrain::new(1);
    terrain.store_piece(flat_piece(loc(0, 0), 2));
    terrain.store_piece(flat_piece(loc(1, 1), 2));
    terrain.store_piece(flat_piece(loc(2, 0), 2));
    let changes = terrain.refresh_active(&loc(0, 0));
    let mut shown = changes.activated.clone();
    shown.sort_by_key(|c| (c.x, c.z));
    assert_eq!(shown, vec![loc(0, 0), loc(1, 1)]);
    assert!(changes.evicted.is_empty());
    let changes = terrain.refresh_active(&loc(2, 1));
    assert_eq!(changes.evicted, vec![loc(0, 0)]);
    assert_eq!(changes.activated, vec![loc(2, 0)]);
    assert_eq!(terrain.load_dist(), 1);
}
