use snake_game::{GameLevel, SiblingPosition, TileType};

#[test]
fn snake_game_level_tile_coordinates() {
    let mut level = GameLevel::new(20, 10);
    let center_by_pos = level.get_tile_mut_on(10, 5).unwrap().get_index();
    let center_by_index = level.get_tile(110).unwrap().get_index();

    assert_eq!(center_by_index, center_by_pos)
}

#[test]
fn game_level_level_tile_coordinates() {
    let mut level = GameLevel::new(20, 10);
    let center_by_pos = level.get_tile_mut_on(10, 5).unwrap().get_index();
    let center_by_index = level.get_tile(110).unwrap().get_index();

    assert_eq!(center_by_index, center_by_pos)
}

#[test]
fn position_and_encoding_are_inverses() {
    let level = GameLevel::new(20, 10);
    // decode an index into coordinates
    let tile = *level.get_tile(110).unwrap();
    let pos = level.get_tile_position(&tile);
    assert_eq!(pos.x, 10);
    assert_eq!(pos.y, 5);
    // and encode the coordinates back to the same index
    assert_eq!(level.get_tile_on(pos.x, pos.y).unwrap().get_index(), 110);
    // every index of a small level round-trips
    let level = GameLevel::new(3, 4);
    for i in 0..12usize {
        let tile = *level.get_tile(i).unwrap();
        let pos = level.get_tile_position(&tile);
        assert_eq!(pos.y * 3 + pos.x, i);
    }
}

#[test]
fn neighbor_absent_exactly_at_edges() {
    let level = GameLevel::new(3, 3);
    // the top-left corner has no neighbor up or left
    let corner = *level.get_tile(0).unwrap();
    assert!(level.tile_sibling(&corner, SiblingPosition::Up).is_none());
    assert!(level.tile_sibling(&corner, SiblingPosition::Left).is_none());
    assert_eq!(level.tile_sibling(&corner, SiblingPosition::Right).unwrap().get_index(), 1);
    assert_eq!(level.tile_sibling(&corner, SiblingPosition::Down).unwrap().get_index(), 3);
    // the center tile has all four neighbors
    let center = *level.get_tile(4).unwrap();
    assert_eq!(level.tile_sibling(&center, SiblingPosition::Up).unwrap().get_index(), 1);
    assert_eq!(level.tile_sibling(&center, SiblingPosition::Down).unwrap().get_index(), 7);
    assert_eq!(level.tile_sibling(&center, SiblingPosition::Left).unwrap().get_index(), 3);
    assert_eq!(level.tile_sibling(&center, SiblingPosition::Right).unwrap().get_index(), 5);
    // the bottom-right corner has no neighbor down or right
    let corner = *level.get_tile(8).unwrap();
    assert!(level.tile_sibling(&corner, SiblingPosition::Down).is_none());
    assert!(level.tile_sibling(&corner, SiblingPosition::Right).is_none());
    // all four at once agree
    let siblings = level.tile_siblings(&center);
    assert_eq!(siblings.up.unwrap().get_index(), 1);
    assert_eq!(siblings.down.unwrap().get_index(), 7);
    assert_eq!(siblings.left.unwrap().get_index(), 3);
    assert_eq!(siblings.right.unwrap().get_index(), 5);
}

#[test]
fn new_level_is_empty_and_indexed() {
    let level = GameLevel::new(4, 3);
    let dims = level.level_dimensions();
    assert_eq!(dims.width, 4);
    assert_eq!(dims.height, 3);
    let coords = level.level_coordinates();
    assert_eq!(coords.x_min, 0);
    assert_eq!(coords.y_min, 0);
    assert_eq!(coords.x_max, 3);
    assert_eq!(coords.y_max, 2);
    let tiles = level.level();
    assert_eq!(tiles.len(), 12);
    for (i, tile) in tiles.iter().enumerate() {
        assert_eq!(tile.get_index(), i);
        assert!(matches!(tile.tile_type(), TileType::Empty));
    }
}

#[test]
fn put_fruit_only_on_empty_tiles() {
    let mut level = GameLevel::new(4, 3);
    level.put_fruit(1, 2);
    assert!(matches!(level.get_tile_on(1, 2).unwrap().tile_type(), TileType::Fruit));
    // a second fruit on the same tile is a no-op, not an error
    level.put_fruit(1, 2);
    assert!(matches!(level.get_tile_on(1, 2).unwrap().tile_type(), TileType::Fruit));
    // out of bounds is a silent no-op
    level.put_fruit(9, 9);
    let fruit_tiles = level
        .level()
        .iter()
        .filter(|t| matches!(t.tile_type(), TileType::Fruit))
        .count();
    assert_eq!(fruit_tiles, 1);
}
