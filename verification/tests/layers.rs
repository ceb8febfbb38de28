use genuary::layers::{
    layered_mask, placed_tiles, upper_layer_tiles, Mask, TilePos, BASE_MAP_SIDE,
    UPPER_LAYER_SCALE,
};

fn mask(width: u32, height: u32, f: impl Fn(u32, u32) -> bool) -> Mask {
    let mut cells = Vec::new();
    for y in 0..height {
        for x in 0..width {
            cells.push(f(x, y));
        }
    }
    Mask::from_cells(width, height, cells).unwrap()
}

#[test]
fn mask_needs_every_cell() {
    assert!(Mask::from_cells(2, 3, vec![false; 5]).is_none());
    assert!(Mask::from_cells(2, 3, vec![false; 7]).is_none());
    let m = Mask::from_cells(2, 3, vec![true, false, false, false, false, true]).unwrap();
    assert_eq!((m.width(), m.height()), (2, 3));
    assert!(m.get(0, 0));
    assert!(!m.get(1, 0));
    assert!(m.get(1, 2));
}

#[test]
fn tiles_come_column_by_column() {
    let m = Mask::from_cells(2, 3, vec![true, true, false, true, true, false]).unwrap();
    assert_eq!(
        placed_tiles(&m),
        vec![
            TilePos { x: 0, y: 0 },
            TilePos { x: 0, y: 2 },
            TilePos { x: 1, y: 0 },
            TilePos { x: 1, y: 1 },
        ]
    );
}

#[test]
fn empty_mask_places_nothing() {
    assert!(placed_tiles(&mask(4, 4, |_, _| false)).is_empty());
    assert!(placed_tiles(&mask(0, 5, |_, _| true)).is_empty());
}

#[test]
fn full_base_map_places_every_tile() {
    let tiles = placed_tiles(&mask(BASE_MAP_SIDE, BASE_MAP_SIDE, |_, _| true));
    assert_eq!(tiles.len(), 28 * 28);
    assert_eq!(tiles[29], TilePos { x: 1, y: 1 });
}

#[test]
fn layered_mask_needs_matching_sizes() {
    let base = mask(2, 2, |_, _| true);
    assert!(layered_mask(&base, &mask(8, 8, |_, _| true), 4).is_some());
    assert!(layered_mask(&base, &mask(8, 7, |_, _| true), 4).is_none());
    assert!(layered_mask(&base, &mask(0, 0, |_, _| true), 0).is_none());
    assert!(upper_layer_tiles(&base, &mask(6, 6, |_, _| true)).is_none());
}

#[test]
fn upper_layer_follows_base_and_detail() {
    let base = mask(2, 2, |x, y| x == 1 && y == 0);
    let detail = mask(4, 4, |x, y| (x + y) % 2 == 0);
    let upper = layered_mask(&base, &detail, 2).unwrap();
    for y in 0..4 {
        for x in 0..4 {
            assert_eq!(upper.get(x, y), x >= 2 && y < 2 && (x + y) % 2 == 0);
        }
    }
    assert_eq!(
        placed_tiles(&upper),
        vec![TilePos { x: 2, y: 0 }, TilePos { x: 3, y: 1 }]
    );
}

#[test]
fn upper_tiles_rest_on_base_tiles() {
    let side = BASE_MAP_SIDE;
    let base = mask(side, side, |x, y| (x * 7 + y * 3) % 5 < 2);
    let detail = mask(side * UPPER_LAYER_SCALE, side * UPPER_LAYER_SCALE, |x, y| {
        (x * 11 + y * 13) % 3 != 0
    });
    let base_tiles = placed_tiles(&base);
    let upper = upper_layer_tiles(&base, &detail).unwrap();
    assert!(!upper.is_empty());
    for t in &upper {
        let under = TilePos { x: t.x / UPPER_LAYER_SCALE, y: t.y / UPPER_LAYER_SCALE };
        assert!(base_tiles.contains(&under));
        assert!(detail.get(t.x, t.y));
    }
}

#[test]
fn upper_layer_has_at_most_sixteen_tiles_per_base_tile() {
    let side = BASE_MAP_SIDE;
    let base = mask(side, side, |x, y| (x + 2 * y) % 7 == 0);
    let detail = mask(side * UPPER_LAYER_SCALE, side * UPPER_LAYER_SCALE, |_, _| true);
    let base_tiles = placed_tiles(&base);
    let upper = upper_layer_tiles(&base, &detail).unwrap();
    // With every detail cell set, each base tile carries a full 4 by 4 block.
    assert_eq!(upper.len(), 16 * base_tiles.len());
    let sparse = mask(side * UPPER_LAYER_SCALE, side * UPPER_LAYER_SCALE, |x, y| (x ^ y) % 3 == 0);
    assert!(upper_layer_tiles(&base, &sparse).unwrap().len() <= 16 * base_tiles.len());
}
