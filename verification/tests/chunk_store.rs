use strixcraft::chunk_manager::{BlockError, ChunkManager};
use strixcraft::persistence::{FailingSink, RecordingSink};
use strixcraft::terrain::{BoundedTerrain, FlatTerrain};

#[test]
fn generated_chunk_follows_the_height_threshold_rule() {
    let mut manager = ChunkManager::new(8, FlatTerrain { surface: 64 });
    let chunk = manager.get_chunk(0, 0, 0).expect("generation cannot fail on flat terrain");
    assert_eq!(chunk.x, 0);
    assert_eq!(chunk.z, 0);
    assert!(chunk.is_generated);
    assert!(!chunk.is_modified);
    assert_eq!(chunk.blocks.len(), 65536);
    assert_eq!(chunk.metadata.len(), 65536);
    assert_eq!(chunk.light.len(), 65536);
    assert_eq!(chunk.height_map.len(), 256);
    for col in 0..256usize {
        assert_eq!(chunk.height_map[col], 64);
        for y in 0..256usize {
            let b = chunk.blocks[y * 256 + col];
            let expected = if y == 0 {
                7 // bedrock at the floor
            } else if y <= 59 {
                1 // stone below height - 4
            } else if y <= 63 {
                3 // dirt up to the surface
            } else if y == 64 {
                2 // grass at the surface
            } else {
                0 // air above
            };
            assert_eq!(b, expected, "block at column {} height {}", col, y);
        }
    }
    assert!(chunk.metadata.iter().all(|&m| m == 0));
    assert!(chunk.light.iter().all(|&l| l == 15));
}

#[test]
fn getting_a_chunk_twice_returns_bitwise_identical_content() {
    let mut manager = ChunkManager::new(8, FlatTerrain { surface: 40 });
    let first = manager.get_chunk(3, -2, 10).unwrap();
    let second = manager.get_chunk(3, -2, 10).unwrap();
    assert_eq!(first.blocks, second.blocks);
    assert_eq!(first.metadata, second.metadata);
    assert_eq!(first.light, second.light);
    assert_eq!(first.height_map, second.height_map);
    assert_eq!(first.x, second.x);
    assert_eq!(first.z, second.z);
    assert_eq!(first.is_generated, second.is_generated);
    assert_eq!(first.is_modified, second.is_modified);
    // the second call served the cache: nothing was generated anew
    assert_eq!(manager.get_chunk_stats().total_chunks, 1);
}

#[test]
fn write_then_read_returns_the_written_block_only_when_cached() {
    let mut manager = ChunkManager::new(8, FlatTerrain { surface: 64 });
    manager.get_chunk(0, 0, 0).unwrap();
    assert_eq!(manager.set_block(5, 10, 7, 42, 1), Ok(()));
    assert_eq!(manager.get_block(5, 10, 7), Some(42));

    // the owning chunk of (100, 100) is not cached: the write is a
    // silent no-op and does not load or generate the chunk
    assert_eq!(manager.set_block(100, 10, 100, 9, 2), Ok(()));
    assert_eq!(manager.get_block(100, 10, 100), None);
    assert_eq!(manager.get_chunk_stats().total_chunks, 1);
}

#[test]
fn vertical_coordinate_out_of_range_is_rejected() {
    let mut manager = ChunkManager::new(8, FlatTerrain { surface: 64 });
    manager.get_chunk(0, 0, 0).unwrap();
    assert_eq!(manager.set_block(1, 256, 1, 5, 0), Err(BlockError::InvalidCoordinate));
    assert_eq!(manager.set_block(1, -1, 1, 5, 0), Err(BlockError::InvalidCoordinate));
    assert_eq!(manager.get_block(1, 256, 1), None);
    assert_eq!(manager.get_block(1, -1, 1), None);
    // the rejected writes changed nothing
    assert_eq!(manager.get_block(1, 0, 1), Some(7));
}

#[test]
fn sweeper_drops_stale_unmodified_chunks_and_spares_modified_ones() {
    let mut manager = ChunkManager::with_limits(8, FlatTerrain { surface: 64 }, 2, 300);
    manager.get_chunk(0, 0, 0).unwrap();
    manager.get_chunk(1, 0, 0).unwrap();
    // mark chunk (0, 0) as carrying unsaved mutations
    manager.set_block(0, 10, 0, 42, 5).unwrap();
    assert_eq!(manager.get_chunk_stats().total_chunks, 2);

    // a third insert at time 400 pushes the store over its budget of 2:
    // (1, 0) is unmodified and stale (last access 0, ttl 300) and goes;
    // (0, 0) is just as old but modified and must stay
    manager.get_chunk(2, 0, 400).unwrap();
    let stats = manager.get_chunk_stats();
    assert_eq!(stats.total_chunks, 2);
    assert_eq!(manager.get_block(0, 10, 0), Some(42));
    assert_eq!(manager.get_block(16, 10, 0), None);
}

#[test]
fn sweeper_keeps_everything_while_under_the_budget() {
    let mut manager = ChunkManager::with_limits(8, FlatTerrain { surface: 64 }, 10, 300);
    manager.get_chunk(0, 0, 0).unwrap();
    manager.get_chunk(1, 0, 0).unwrap();
    manager.get_chunk(2, 0, 1000).unwrap();
    assert_eq!(manager.get_chunk_stats().total_chunks, 3);
}

#[test]
fn flush_clears_modified_flags_and_is_idempotent() {
    let mut manager = ChunkManager::new(8, FlatTerrain { surface: 64 });
    manager.get_chunk(0, 0, 0).unwrap();
    manager.get_chunk(1, 0, 0).unwrap();
    manager.get_chunk(2, 0, 0).unwrap();
    manager.set_block(0, 10, 0, 1, 1).unwrap();
    manager.set_block(16, 10, 0, 2, 1).unwrap();
    assert_eq!(manager.get_chunk_stats().modified_chunks, 2);

    let mut sink = RecordingSink::new();
    let written = manager.save_modified_chunks(&mut sink);
    assert_eq!(written, 2);
    assert_eq!(sink.saved.len(), 2);
    assert!(sink.saved.contains(&(0, 0)));
    assert!(sink.saved.contains(&(1, 0)));
    assert_eq!(manager.get_chunk_stats().modified_chunks, 0);

    // a second flush with no intervening writes persists zero chunks
    let mut sink2 = RecordingSink::new();
    assert_eq!(manager.save_modified_chunks(&mut sink2), 0);
    assert_eq!(sink2.saved.len(), 0);
}

#[test]
fn failed_saves_leave_the_flag_set_for_retry() {
    let mut manager = ChunkManager::new(8, FlatTerrain { surface: 64 });
    manager.get_chunk(0, 0, 0).unwrap();
    manager.set_block(0, 10, 0, 1, 1).unwrap();

    let mut failing = FailingSink {};
    assert_eq!(manager.save_modified_chunks(&mut failing), 0);
    assert_eq!(manager.get_chunk_stats().modified_chunks, 1);

    // the retry on the next cycle succeeds
    let mut sink = RecordingSink::new();
    assert_eq!(manager.save_modified_chunks(&mut sink), 1);
    assert_eq!(sink.saved, vec![(0, 0)]);
    assert_eq!(manager.get_chunk_stats().modified_chunks, 0);
}

#[test]
fn radius_query_returns_the_full_window_row_major() {
    let mut manager = ChunkManager::with_limits(1, FlatTerrain { surface: 64 }, 1000, 300);
    let chunks = manager.get_chunks_in_radius(0, 0, 0);
    assert_eq!(chunks.len(), 9);
    let coords: Vec<(i32, i32)> = chunks.iter().map(|c| (c.x, c.z)).collect();
    let expected = vec![
        (-1, -1),
        (-1, 0),
        (-1, 1),
        (0, -1),
        (0, 0),
        (0, 1),
        (1, -1),
        (1, 0),
        (1, 1),
    ];
    assert_eq!(coords, expected);
    assert_eq!(manager.get_chunk_stats().total_chunks, 9);
}

#[test]
fn negative_load_distance_yields_no_chunks() {
    let mut manager = ChunkManager::new(-1, FlatTerrain { surface: 64 });
    assert!(manager.get_chunks_in_radius(0, 0, 0).is_empty());
}

#[test]
fn failed_terrain_query_caches_nothing_and_allows_retry() {
    // this terrain only covers world coordinates within 20 blocks of
    // the origin, so chunk (10, 10) cannot be generated
    let mut manager = ChunkManager::new(8, BoundedTerrain { surface: 64, limit: 20 });
    assert!(manager.get_chunk(10, 10, 0).is_none());
    assert_eq!(manager.get_chunk_stats().total_chunks, 0);
    // a coordinate inside the covered square still works
    assert!(manager.get_chunk(0, 0, 0).is_some());
    assert_eq!(manager.get_chunk_stats().total_chunks, 1);
}

#[test]
fn stats_report_totals_modified_and_capacity() {
    let mut manager = ChunkManager::with_limits(8, FlatTerrain { surface: 64 }, 77, 300);
    manager.get_chunk(0, 0, 0).unwrap();
    manager.get_chunk(1, 0, 0).unwrap();
    manager.set_block(0, 5, 0, 9, 1).unwrap();
    let stats = manager.get_chunk_stats();
    assert_eq!(stats.total_chunks, 2);
    assert_eq!(stats.modified_chunks, 1);
    assert_eq!(stats.generated_chunks, 2);
    assert_eq!(stats.max_cached_chunks, 77);
}

#[test]
fn block_type_rule_has_exact_boundaries() {
    let manager = ChunkManager::new(8, FlatTerrain { surface: 64 });
    assert_eq!(manager.get_block_type_for_height(0, 64), 7);
    assert_eq!(manager.get_block_type_for_height(59, 64), 1);
    assert_eq!(manager.get_block_type_for_height(60, 64), 3);
    assert_eq!(manager.get_block_type_for_height(63, 64), 3);
    assert_eq!(manager.get_block_type_for_height(64, 64), 2);
    assert_eq!(manager.get_block_type_for_height(65, 64), 0);
    assert_eq!(manager.get_block_type_for_height(0, 0), 7);
    assert_eq!(manager.get_block_type_for_height(1, 0), 0);
}

#[test]
fn chunks_at_the_edge_of_the_world_still_generate() {
    let mut manager = ChunkManager::new(8, FlatTerrain { surface: 1 });
    // the outermost chunk coordinates whose blocks still fit in an i32
    let edge = manager.get_chunk(134217727, -134217728, 0).unwrap();
    assert_eq!((edge.x, edge.z), (134217727, -134217728));
    assert_eq!(edge.height_map[0], 1);
    assert_eq!(manager.get_block(i32::MAX, 0, i32::MIN), Some(7));
    assert_eq!(manager.get_block(i32::MAX, 1, i32::MIN), Some(2));
    assert_eq!(manager.get_block(i32::MAX, 2, i32::MIN), Some(0));
}

#[test]
fn cache_hits_refresh_the_access_stamp() {
    let mut manager = ChunkManager::with_limits(8, FlatTerrain { surface: 64 }, 1, 300);
    manager.get_chunk(0, 0, 0).unwrap();
    // a later hit restamps the chunk, so the sweep triggered by the
    // next insert no longer sees it as stale
    manager.get_chunk(0, 0, 400).unwrap();
    manager.get_chunk(1, 0, 400).unwrap();
    assert_eq!(manager.get_chunk_stats().total_chunks, 2);
    let returned = manager.get_chunk(0, 0, 401).unwrap();
    assert_eq!(returned.last_accessed, 401);
}
