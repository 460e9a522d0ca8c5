use event_engine::cave::Diagonal;
use event_engine::map::{Tile, TileMap};

#[test]
fn new_map_is_all_walls() {
    let m = TileMap::new(4, 3);
    assert_eq!(m.width, 4);
    assert_eq!(m.height, 3);
    for y in 0..3 {
        for x in 0..4 {
            assert!(m.get_tile(x, y).unwrap().wall);
        }
    }
}

#[test]
fn get_tile_mut_writes_through() {
    let mut m = TileMap::new(3, 3);
    *m.get_tile_mut(1, 2) = Tile { wall: false };
    assert!(!m.get_tile(1, 2).unwrap().wall);
    assert!(m.get_tile(1, 1).unwrap().wall);
}

#[test]
fn modulo_access_wraps_both_ways() {
    let mut m = TileMap::new(3, 2);
    *m.get_tile_mut(2, 1) = Tile { wall: false };
    // (-1, -1) wraps to (2, 1).
    assert!(!m.get_tile_modulo(-1, -1).unwrap().wall);
    // (5, 3) wraps to (2, 1) as well.
    assert!(!m.get_tile_modulo(5, 3).unwrap().wall);
    // An exact negative multiple wraps to zero.
    assert!(m.get_tile_modulo(-3, -2).unwrap().wall);
    *m.get_tile_modulo_mut(-1, 2) = Tile { wall: false };
    assert!(!m.get_tile(2, 0).unwrap().wall);
}

#[test]
fn render_draws_rows_with_newlines() {
    let mut m = TileMap::new(2, 2);
    *m.get_tile_mut(1, 0) = Tile { wall: false };
    let s = m.render();
    assert_eq!(s, "\u{2588} \n\u{2588}\u{2588}\n");
}

#[test]
fn checkerboard_detection() {
    let mut m = TileMap::new(4, 4);
    // Carve floors at (1, 0) and (0, 1): walls remain at (0, 0) and (1, 1).
    *m.get_tile_mut(1, 0) = Tile { wall: false };
    *m.get_tile_mut(0, 1) = Tile { wall: false };
    assert_eq!(m.is_part_of_checkerboard(0, 0), Some(Diagonal::Back));
    // The mirrored pattern.
    let mut m2 = TileMap::new(4, 4);
    *m2.get_tile_mut(0, 0) = Tile { wall: false };
    *m2.get_tile_mut(1, 1) = Tile { wall: false };
    assert_eq!(m2.is_part_of_checkerboard(0, 0), Some(Diagonal::Fore));
    // A solid block is no checkerboard.
    let m3 = TileMap::new(4, 4);
    assert_eq!(m3.is_part_of_checkerboard(0, 0), None);
}

#[test]
fn wall_neighbor_counts() {
    let m = TileMap::new(3, 3);
    assert_eq!(m.num_wall_neighbors(1, 1), 8);
    let mut m2 = TileMap::new(3, 3);
    *m2.get_tile_mut(0, 0) = Tile { wall: false };
    *m2.get_tile_mut(1, 0) = Tile { wall: false };
    assert_eq!(m2.num_wall_neighbors(1, 1), 6);
}

#[test]
fn smooth_leaves_a_solid_block_alone() {
    let mut m = TileMap::new(3, 3);
    m.smooth();
    for y in 0..3 {
        for x in 0..3 {
            assert!(m.get_tile(x, y).unwrap().wall);
        }
    }
}

#[test]
fn smooth_removes_an_isolated_wall() {
    let mut m = TileMap::new(3, 3);
    for y in 0..3 {
        for x in 0..3 {
            if !(x == 1 && y == 1) {
                *m.get_tile_mut(x, y) = Tile { wall: false };
            }
        }
    }
    m.smooth();
    for y in 0..3 {
        for x in 0..3 {
            assert!(!m.get_tile(x, y).unwrap().wall);
        }
    }
}

#[test]
fn smooth_is_idempotent() {
    let mut m = TileMap::new(6, 5);
    // Carve an irregular shape, then smooth to a fixpoint.
    for (x, y) in [(1, 1), (2, 1), (2, 2), (4, 3), (0, 4), (5, 0)] {
        *m.get_tile_mut(x, y) = Tile { wall: false };
    }
    m.smooth();
    let once = m.render();
    m.smooth();
    let twice = m.render();
    assert_eq!(once, twice);
}

#[test]
fn smooth_opens_a_checkerboard() {
    // A four-by-four grid of floor except a two-by-two checkerboard.
    let mut m = TileMap::new(4, 4);
    for y in 0..4 {
        for x in 0..4 {
            *m.get_tile_mut(x, y) = Tile { wall: false };
        }
    }
    *m.get_tile_mut(1, 1) = Tile { wall: true };
    *m.get_tile_mut(2, 2) = Tile { wall: true };
    m.smooth();
    for y in 0..4 {
        for x in 0..4 {
            assert!(!m.get_tile(x, y).unwrap().wall, "wall left at ({x}, {y})");
        }
    }
}
