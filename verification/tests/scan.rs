use shadowcast::rotation::Rotation;
use shadowcast::slope::Slope;
use shadowcast::{ShadowMap, BLOCK, EMPTY, PLAYER, SIGHT_RADIUS, VISIBLE};

fn rows_of(map: &ShadowMap) -> Vec<Vec<u8>> {
    let mut rows = Vec::new();
    for y in 0..map.height() {
        let mut row = Vec::new();
        for x in 0..map.width() {
            row.push(map.get(x as isize, y as isize));
        }
        rows.push(row);
    }
    rows
}

fn grid_with(width: usize, height: usize, obstacles: &[(isize, isize)]) -> ShadowMap {
    let mut map = ShadowMap::new_with_empty_cells(width, height);
    for &(x, y) in obstacles {
        map.set(x, y, BLOCK);
    }
    map
}

#[test]
fn test_raycast() {
    let mut map = ShadowMap::new_with_empty_cells(16, 17);

    let obstacles = vec![
        (3, 3),
        (4, 3),
        (5, 3),
        (8, 7),
        (8, 5),
        (6, 9),
        (6, 10),
        (6, 11),
        (7, 11),
        (7, 10),
        (7, 9),
    ];

    for obstacle in obstacles {
        map.set(obstacle.0, obstacle.1, BLOCK);
    }

    let center = (4, 5);
    map.full_scan(center, 20);

    map.set(4, 5, PLAYER);
    println!("");
    for row in rows_of(&map) {
        println!("{:?}", row);
    }

    let expected_map = vec![
        [2, 0, 0, 0, 0, 0, 0, 0, 2, 2, 2, 2, 2, 2, 2, 2],
        [2, 2, 0, 0, 0, 0, 0, 2, 2, 2, 2, 2, 2, 2, 2, 2],
        [2, 2, 0, 0, 0, 0, 0, 2, 2, 2, 2, 2, 2, 2, 2, 2],
        [2, 2, 2, 1, 1, 1, 2, 2, 2, 2, 2, 2, 2, 2, 2, 2],
        [2, 2, 2, 2, 2, 2, 2, 2, 2, 2, 2, 2, 2, 0, 0, 0],
        [2, 2, 2, 2, 3, 2, 2, 2, 1, 0, 0, 0, 0, 0, 0, 0],
        [2, 2, 2, 2, 2, 2, 2, 2, 2, 2, 2, 2, 2, 0, 0, 0],
        [2, 2, 2, 2, 2, 2, 2, 2, 1, 0, 2, 2, 2, 2, 2, 2],
        [2, 2, 2, 2, 2, 2, 2, 2, 2, 0, 0, 0, 2, 2, 2, 2],
        [2, 2, 2, 2, 2, 2, 1, 1, 2, 2, 2, 0, 0, 0, 0, 2],
        [2, 2, 2, 2, 2, 2, 1, 1, 0, 2, 2, 2, 2, 0, 0, 0],
        [2, 2, 2, 2, 2, 2, 1, 1, 0, 0, 2, 2, 2, 2, 0, 0],
        [2, 2, 2, 2, 2, 2, 0, 0, 0, 0, 0, 2, 2, 2, 2, 2],
        [2, 2, 2, 2, 2, 2, 2, 0, 0, 0, 0, 2, 2, 2, 2, 2],
        [2, 2, 2, 2, 2, 2, 2, 0, 0, 0, 0, 0, 2, 2, 2, 2],
        [2, 2, 2, 2, 2, 2, 2, 0, 0, 0, 0, 0, 0, 2, 2, 2],
        [2, 2, 2, 2, 2, 2, 2, 0, 0, 0, 0, 0, 0, 0, 2, 2],
    ];

    for y in 0..expected_map.len() {
        for x in 0..expected_map[y].len() {
            assert_eq!(map.get(x as isize, y as isize), expected_map[y][x]);
        }
    }
}

#[test]
fn default_radius_is_twenty_rows() {
    assert_eq!(SIGHT_RADIUS, 20);
    let mut map = ShadowMap::new_with_empty_cells(23, 1);
    map.full_scan((0, 0), SIGHT_RADIUS);
    assert_eq!(map.get(20, 0), VISIBLE);
    assert_eq!(map.get(21, 0), EMPTY);
}

#[test]
fn empty_grid_is_seen_whole() {
    let mut map = ShadowMap::new_with_empty_cells(9, 7);
    map.full_scan((4, 3), 20);
    for y in 0..7 {
        for x in 0..9 {
            assert_eq!(map.get(x, y), VISIBLE);
        }
    }
}

#[test]
fn radius_counts_rows_not_steps() {
    let mut map = ShadowMap::new_with_empty_cells(9, 9);
    map.full_scan((4, 4), 2);
    for y in 0..9isize {
        for x in 0..9isize {
            let near = (x - 4).abs() <= 2 && (y - 4).abs() <= 2;
            assert_eq!(map.get(x, y), if near { VISIBLE } else { EMPTY });
        }
    }
}

#[test]
fn obstacles_at_radius_two() {
    let mut map = grid_with(7, 7, &[(3, 2), (2, 3)]);
    map.full_scan((3, 3), 2);
    let expected: Vec<Vec<u8>> = vec![
        vec![0, 0, 0, 0, 0, 0, 0],
        vec![0, 2, 2, 0, 2, 2, 0],
        vec![0, 2, 2, 1, 2, 2, 0],
        vec![0, 0, 1, 2, 2, 2, 0],
        vec![0, 2, 2, 2, 2, 2, 0],
        vec![0, 2, 2, 2, 2, 2, 0],
        vec![0, 0, 0, 0, 0, 0, 0],
    ];
    assert_eq!(rows_of(&map), expected);
}

#[test]
fn viewer_boxed_in_on_four_sides() {
    let mut map = grid_with(9, 9, &[(5, 4), (4, 5), (3, 4), (4, 3)]);
    map.full_scan((4, 4), 8);
    let expected: Vec<Vec<u8>> = vec![
        vec![2, 2, 2, 0, 0, 0, 2, 2, 2],
        vec![2, 2, 2, 0, 0, 0, 2, 2, 2],
        vec![2, 2, 2, 2, 0, 2, 2, 2, 2],
        vec![0, 0, 2, 2, 1, 2, 2, 0, 0],
        vec![0, 0, 0, 1, 2, 1, 0, 0, 0],
        vec![0, 0, 2, 2, 1, 2, 2, 0, 0],
        vec![2, 2, 2, 2, 0, 2, 2, 2, 2],
        vec![2, 2, 2, 0, 0, 0, 2, 2, 2],
        vec![2, 2, 2, 0, 0, 0, 2, 2, 2],
    ];
    assert_eq!(rows_of(&map), expected);
}

#[test]
fn viewer_outside_the_grid() {
    let mut map = grid_with(6, 5, &[(1, 2)]);
    map.full_scan((-2, 2), 10);
    let expected: Vec<Vec<u8>> = vec![
        vec![2, 2, 2, 2, 2, 2],
        vec![2, 2, 2, 2, 2, 0],
        vec![2, 1, 0, 0, 0, 0],
        vec![2, 2, 2, 2, 2, 0],
        vec![2, 2, 2, 2, 2, 2],
    ];
    assert_eq!(rows_of(&map), expected);
}

#[test]
fn viewer_on_a_blocking_cell_sees_nothing() {
    let mut map = grid_with(5, 5, &[(2, 2)]);
    map.full_scan((2, 2), 5);
    for y in 0..5 {
        for x in 0..5 {
            let expected = if (x, y) == (2, 2) { BLOCK } else { EMPTY };
            assert_eq!(map.get(x, y), expected);
        }
    }
}

#[test]
fn viewer_at_the_ends_of_the_coordinate_range() {
    let corners = [
        (isize::MAX, isize::MAX),
        (isize::MIN, isize::MIN),
        (isize::MAX, isize::MIN),
        (isize::MIN, 0),
        (0, isize::MAX),
    ];
    for center in corners {
        let mut map = grid_with(4, 4, &[(1, 1)]);
        map.full_scan(center, 6);
        for y in 0..4 {
            for x in 0..4 {
                let expected = if (x, y) == (1, 1) { BLOCK } else { EMPTY };
                assert_eq!(map.get(x, y), expected);
            }
        }
    }
}

#[test]
fn viewer_marker_is_seen_through() {
    let mut map = ShadowMap::new_with_empty_cells(5, 1);
    map.set(2, 0, PLAYER);
    map.full_scan((0, 0), 10);
    for x in 0..5 {
        assert_eq!(map.get(x, 0), VISIBLE);
    }
}

#[test]
fn cell_on_the_edge_of_an_arc_is_seen() {
    // The obstacle at (11, 7) closes an arc at the slope 13/22. The centre of
    // (22, 13) lies on that slope exactly, so the cell belongs to the arc; the
    // next one lies behind the obstacle.
    let mut map = grid_with(24, 16, &[(11, 7)]);
    map.full_scan((0, 0), 30);
    assert_eq!(map.get(22, 12), VISIBLE);
    assert_eq!(map.get(22, 13), VISIBLE);
    assert_eq!(map.get(22, 14), EMPTY);
    assert_eq!(map.get(11, 7), BLOCK);
}

#[test]
fn scan_arc_sweeps_between_its_slopes() {
    let mut map = ShadowMap::new_with_empty_cells(7, 7);
    map.scan_arc((3, 3), 1, Slope { num: 0, den: 1 }, Slope { num: 1, den: 2 }, Rotation::Zero, 3);
    let expected: Vec<Vec<u8>> = vec![
        vec![0, 0, 0, 0, 0, 0, 0],
        vec![0, 0, 0, 0, 0, 0, 0],
        vec![0, 0, 0, 0, 0, 0, 0],
        vec![0, 0, 0, 0, 2, 2, 2],
        vec![0, 0, 0, 0, 0, 2, 2],
        vec![0, 0, 0, 0, 0, 0, 0],
        vec![0, 0, 0, 0, 0, 0, 0],
    ];
    assert_eq!(rows_of(&map), expected);
}

#[test]
fn scan_arc_follows_its_rotation() {
    let mut map = ShadowMap::new_with_empty_cells(7, 7);
    map.scan_arc(
        (3, 3),
        1,
        Slope { num: -1, den: 2 },
        Slope { num: 0, den: 1 },
        Rotation::Quarter,
        2,
    );
    let expected: Vec<Vec<u8>> = vec![
        vec![0, 0, 0, 0, 0, 0, 0],
        vec![0, 0, 2, 2, 0, 0, 0],
        vec![0, 0, 0, 2, 0, 0, 0],
        vec![0, 0, 0, 0, 0, 0, 0],
        vec![0, 0, 0, 0, 0, 0, 0],
        vec![0, 0, 0, 0, 0, 0, 0],
        vec![0, 0, 0, 0, 0, 0, 0],
    ];
    assert_eq!(rows_of(&map), expected);
}

#[test]
fn scan_arc_past_the_radius_does_nothing() {
    let mut map = ShadowMap::new_with_empty_cells(7, 7);
    map.scan_arc((3, 3), 3, Slope::whole(-1), Slope::whole(1), Rotation::Zero, 2);
    for y in 0..7 {
        for x in 0..7 {
            assert_eq!(map.get(x, y), EMPTY);
        }
    }
}

#[test]
fn scan_arc_of_no_width_does_nothing() {
    let mut map = ShadowMap::new_with_empty_cells(7, 7);
    map.scan_arc((3, 3), 0, Slope { num: 1, den: 2 }, Slope { num: 1, den: 2 }, Rotation::Zero, 5);
    map.scan_arc((3, 3), 1, Slope { num: 1, den: 2 }, Slope { num: -1, den: 2 }, Rotation::Half, 5);
    for y in 0..7 {
        for x in 0..7 {
            assert_eq!(map.get(x, y), EMPTY);
        }
    }
}

#[test]
fn scan_arc_of_each_quadrant_from_the_viewer() {
    let quadrants = [
        (Rotation::Zero, (1isize, 0isize)),
        (Rotation::Quarter, (0, -1)),
        (Rotation::Half, (-1, 0)),
        (Rotation::ThreeQuarter, (0, 1)),
    ];
    for (rotate, (fx, fy)) in quadrants {
        let mut map = ShadowMap::new_with_empty_cells(5, 5);
        map.scan_arc((2, 2), 0, Slope::whole(-1), Slope::whole(1), rotate, 2);
        for y in 0..5isize {
            for x in 0..5isize {
                let (dx, dy) = (x - 2, y - 2);
                let forward = dx * fx + dy * fy;
                let lateral = if fx != 0 { dy } else { dx };
                let inside = forward >= 0 && lateral.abs() <= forward;
                assert_eq!(map.get(x, y), if inside { VISIBLE } else { EMPTY });
            }
        }
    }
}
