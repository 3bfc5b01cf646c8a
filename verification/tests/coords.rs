use strixcraft::coords::{block_index, chunk_of, local_of};

#[test]
fn chunk_of_uses_floor_division_for_negatives() {
    assert_eq!(chunk_of(0, 0), (0, 0));
    assert_eq!(chunk_of(15, 15), (0, 0));
    assert_eq!(chunk_of(16, 31), (1, 1));
    assert_eq!(chunk_of(-1, -16), (-1, -1));
    assert_eq!(chunk_of(-17, -32), (-2, -2));
    assert_eq!(chunk_of(i32::MIN, i32::MAX), (-134217728, 134217727));
}

#[test]
fn chunk_of_is_periodic_with_period_sixteen() {
    for &a in &[-100i32, -17, -16, -1, 0, 1, 15, 16, 12345, -54321] {
        let (cx, _) = chunk_of(a, 0);
        let (cx_shifted, _) = chunk_of(a + 16, 0);
        assert_eq!(cx_shifted, cx + 1);
    }
}

#[test]
fn local_of_stays_in_range_for_negatives() {
    for &a in &[-100i32, -17, -16, -15, -1, 0, 1, 15, 16, 31, 12345, -54321] {
        let (lx, lz) = local_of(a, a);
        assert!((0..16).contains(&lx));
        assert!((0..16).contains(&lz));
    }
    assert_eq!(local_of(-1, -16), (15, 0));
    assert_eq!(local_of(-17, 17), (15, 1));
    assert_eq!(local_of(0, 15), (0, 15));
}

#[test]
fn chunk_and_local_recompose_the_world_coordinate() {
    for &a in &[-100i32, -1, 0, 1, 15, 16, 12345, -54321] {
        let (cx, _) = chunk_of(a, 0);
        let (lx, _) = local_of(a, 0);
        assert_eq!(cx as i64 * 16 + lx as i64, a as i64);
    }
}

#[test]
fn block_index_matches_the_flat_layout() {
    assert_eq!(block_index(0, 0, 0), 0);
    assert_eq!(block_index(3, 2, 5), 2 * 256 + 5 * 16 + 3);
    assert_eq!(block_index(15, 255, 15), 65535);
}
