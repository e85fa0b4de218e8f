use shadowcast::{ShadowMap, BLOCK, EMPTY, PLAYER, VISIBLE};

#[test]
fn cell_states_are_distinct() {
    assert_eq!(EMPTY, 0);
    assert_eq!(BLOCK, 1);
    assert_eq!(VISIBLE, 2);
    assert_eq!(PLAYER, 3);
}

#[test]
fn new_with_empty_cells_is_all_empty() {
    let map = ShadowMap::new_with_empty_cells(4, 3);
    assert_eq!(map.width(), 4);
    assert_eq!(map.height(), 3);
    for y in 0..3 {
        for x in 0..4 {
            assert_eq!(map.get(x, y), EMPTY);
        }
    }
}

#[test]
fn new_with_obstacles_is_all_blocking() {
    let map = ShadowMap::new_with_obstacles(5, 2);
    assert_eq!(map.width(), 5);
    assert_eq!(map.height(), 2);
    for y in 0..2 {
        for x in 0..5 {
            assert_eq!(map.get(x, y), BLOCK);
        }
    }
}

#[test]
fn new_filled_holds_the_fill_everywhere() {
    let map = ShadowMap::new_filled(3, 4, PLAYER);
    assert_eq!(map.width(), 3);
    assert_eq!(map.height(), 4);
    for y in 0..4 {
        for x in 0..3 {
            assert_eq!(map.get(x, y), PLAYER);
        }
    }
}

#[test]
fn set_then_get_reads_the_value_back() {
    let mut map = ShadowMap::new_with_empty_cells(4, 3);
    map.set(3, 2, BLOCK);
    map.set(0, 0, VISIBLE);
    map.set(1, 2, 200);
    for y in 0..3 {
        for x in 0..4 {
            let expected = match (x, y) {
                (3, 2) => BLOCK,
                (0, 0) => VISIBLE,
                (1, 2) => 200,
                _ => EMPTY,
            };
            assert_eq!(map.get(x, y), expected);
        }
    }
    map.set(3, 2, EMPTY);
    assert_eq!(map.get(3, 2), EMPTY);
}

#[test]
fn get_outside_reads_empty() {
    let map = ShadowMap::new_with_obstacles(4, 3);
    assert_eq!(map.get(-1, 0), EMPTY);
    assert_eq!(map.get(0, -1), EMPTY);
    assert_eq!(map.get(4, 0), EMPTY);
    assert_eq!(map.get(0, 3), EMPTY);
    assert_eq!(map.get(3, 3), EMPTY);
    assert_eq!(map.get(4, 2), EMPTY);
    assert_eq!(map.get(-1, -1), EMPTY);
    assert_eq!(map.get(isize::MAX, 0), EMPTY);
    assert_eq!(map.get(0, isize::MAX), EMPTY);
    assert_eq!(map.get(isize::MIN, isize::MIN), EMPTY);
    assert_eq!(map.get(3, 2), BLOCK);
    assert_eq!(map.get(0, 0), BLOCK);
}

#[test]
fn set_outside_changes_nothing() {
    let mut map = ShadowMap::new_with_obstacles(4, 3);
    map.set(1, 1, PLAYER);
    let outside = [
        (-1, 0),
        (0, -1),
        (4, 0),
        (0, 3),
        (4, 3),
        (-1, -1),
        (isize::MAX, 1),
        (1, isize::MAX),
        (isize::MIN, isize::MIN),
    ];
    for (x, y) in outside {
        map.set(x, y, VISIBLE);
        assert_eq!(map.get(x, y), EMPTY);
    }
    assert_eq!(map.width(), 4);
    assert_eq!(map.height(), 3);
    for y in 0..3 {
        for x in 0..4 {
            let expected = if (x, y) == (1, 1) { PLAYER } else { BLOCK };
            assert_eq!(map.get(x, y), expected);
        }
    }
}

#[test]
fn grid_without_rows_stores_nothing() {
    let mut map = ShadowMap::new_with_obstacles(5, 0);
    assert_eq!(map.height(), 0);
    assert_eq!(map.width(), 0);
    assert_eq!(map.get(0, 0), EMPTY);
    map.set(0, 0, BLOCK);
    assert_eq!(map.get(0, 0), EMPTY);
    map.full_scan((0, 0), 5);
    assert_eq!(map.get(0, 0), EMPTY);
}

#[test]
fn grid_without_columns_stores_nothing() {
    let mut map = ShadowMap::new_with_obstacles(0, 5);
    assert_eq!(map.height(), 5);
    assert_eq!(map.width(), 0);
    assert_eq!(map.get(0, 0), EMPTY);
    assert_eq!(map.get(0, 4), EMPTY);
    map.set(0, 2, BLOCK);
    assert_eq!(map.get(0, 2), EMPTY);
    map.full_scan((0, 2), 5);
    assert_eq!(map.get(0, 2), EMPTY);
}

#[test]
fn grid_of_one_cell() {
    let mut map = ShadowMap::new_with_empty_cells(1, 1);
    assert_eq!(map.get(0, 0), EMPTY);
    map.full_scan((0, 0), 3);
    assert_eq!(map.get(0, 0), VISIBLE);
    assert_eq!(map.get(1, 0), EMPTY);
    assert_eq!(map.get(0, 1), EMPTY);
}

#[test]
fn rows_copy_the_grid() {
    let mut map = ShadowMap::new_with_empty_cells(3, 2);
    map.set(2, 0, BLOCK);
    map.set(0, 1, VISIBLE);
    let expected: Vec<Vec<u8>> = vec![vec![0, 0, 1], vec![2, 0, 0]];
    assert_eq!(map.rows(), expected);
    assert_eq!(ShadowMap::new_with_obstacles(2, 0).rows(), Vec::<Vec<u8>>::new());
    let narrow: Vec<Vec<u8>> = vec![vec![], vec![]];
    assert_eq!(ShadowMap::new_with_obstacles(0, 2).rows(), narrow);
}
