use collision_grid::CollisionMap;
use collision_grid::EDGE_COST;

fn shortest_path(map: &CollisionMap, start: usize, goal: usize) -> Option<Vec<usize>> {
    let cells = map.cell_count() as usize;
    let mut came_from: Vec<Option<usize>> = vec![None; cells];
    let mut seen = vec![false; cells];
    let mut frontier = std::collections::VecDeque::new();
    seen[start] = true;
    frontier.push_back(start);
    while let Some(cell) = frontier.pop_front() {
        if cell == goal {
            let mut path = vec![goal];
            let mut at = goal;
            while let Some(before) = came_from[at] {
                path.push(before);
                at = before;
            }
            path.reverse();
            return Some(path);
        }
        for (next, _) in map.get_available_exits(cell) {
            if !seen[next] {
                seen[next] = true;
                came_from[next] = Some(cell);
                frontier.push_back(next);
            }
        }
    }
    None
}

#[test]
fn edge_cost_is_one() {
    assert_eq!(EDGE_COST, 1);
}

#[test]
fn interior_cell_of_free_map_has_four_exits() {
    let map = CollisionMap::new(5, 5);
    assert_eq!(map.get_available_exits(12), vec![(13, 1), (11, 1), (17, 1), (7, 1)]);
}

#[test]
fn corner_cells_of_free_map_have_two_exits() {
    let map = CollisionMap::new(5, 4);
    assert_eq!(map.get_available_exits(0), vec![(1, 1), (5, 1)]);
    assert_eq!(map.get_available_exits(4), vec![(3, 1), (9, 1)]);
    assert_eq!(map.get_available_exits(15), vec![(16, 1), (10, 1)]);
    assert_eq!(map.get_available_exits(19), vec![(18, 1), (14, 1)]);
}

#[test]
fn edge_cells_of_free_map_have_three_exits() {
    let map = CollisionMap::new(5, 4);
    assert_eq!(map.get_available_exits(2), vec![(3, 1), (1, 1), (7, 1)]);
    assert_eq!(map.get_available_exits(5), vec![(6, 1), (10, 1), (0, 1)]);
    assert_eq!(map.get_available_exits(9), vec![(8, 1), (14, 1), (4, 1)]);
    assert_eq!(map.get_available_exits(17), vec![(18, 1), (16, 1), (12, 1)]);
}

#[test]
fn blocked_neighbours_are_not_exits() {
    let mut map = CollisionMap::new(5, 5);
    map.set(3, 2);
    assert_eq!(map.get_available_exits(12), vec![(11, 1), (17, 1), (7, 1)]);
    map.set(2, 1);
    assert_eq!(map.get_available_exits(12), vec![(11, 1), (17, 1)]);
    map.set(1, 2);
    map.set(2, 3);
    assert_eq!(map.get_available_exits(12), vec![]);
    map.unset(2, 3);
    assert_eq!(map.get_available_exits(12), vec![(17, 1)]);
    for (next, _) in map.get_available_exits(6) {
        assert!(!map.is_opaque(next));
    }
}

#[test]
fn blocked_cell_still_reports_its_exits() {
    let mut map = CollisionMap::new(5, 5);
    map.set(2, 2);
    assert!(map.is_opaque(12));
    assert_eq!(map.get_available_exits(12), vec![(13, 1), (11, 1), (17, 1), (7, 1)]);
}

#[test]
fn narrow_maps_have_exits_along_one_axis() {
    let column = CollisionMap::new(1, 3);
    assert_eq!(column.get_available_exits(0), vec![(1, 1)]);
    assert_eq!(column.get_available_exits(1), vec![(2, 1), (0, 1)]);
    assert_eq!(column.get_available_exits(2), vec![(1, 1)]);
    let row = CollisionMap::new(3, 1);
    assert_eq!(row.get_available_exits(0), vec![(1, 1)]);
    assert_eq!(row.get_available_exits(1), vec![(2, 1), (0, 1)]);
    assert_eq!(row.get_available_exits(2), vec![(1, 1)]);
    let single = CollisionMap::new(1, 1);
    assert_eq!(single.get_available_exits(0), vec![]);
}

#[test]
fn is_opaque_follows_the_cell() {
    let mut map = CollisionMap::new(5, 5);
    for idx in 0..25 {
        assert!(!map.is_opaque(idx));
    }
    map.set(3, 1);
    for idx in 0..25 {
        assert_eq!(map.is_opaque(idx), idx == 8);
    }
    map.unset(3, 1);
    assert!(!map.is_opaque(8));
}

#[test]
fn is_opaque_is_false_off_the_map() {
    let mut map = CollisionMap::new(5, 5);
    map.set(4, 4);
    assert!(map.is_opaque(24));
    assert!(!map.is_opaque(25));
    assert!(!map.is_opaque(usize::MAX));
}

#[test]
fn distance_to_self_is_zero() {
    let map = CollisionMap::new(6, 4);
    for idx in 0..24 {
        assert_eq!(map.pathing_distance_squared(idx, idx), 0);
    }
}

#[test]
fn distance_is_symmetric() {
    let map = CollisionMap::new(6, 4);
    for a in 0..24 {
        for b in 0..24 {
            assert_eq!(map.pathing_distance_squared(a, b), map.pathing_distance_squared(b, a));
        }
    }
}

#[test]
fn distance_squared_adds_the_squared_sides() {
    let map = CollisionMap::new(6, 6);
    // (0, 0) to (3, 4)
    assert_eq!(map.pathing_distance_squared(0, 27), 25);
    // (5, 0) to (0, 5)
    assert_eq!(map.pathing_distance_squared(5, 30), 50);
    // (2, 3) to (2, 5)
    assert_eq!(map.pathing_distance_squared(20, 32), 4);
    assert_eq!((map.pathing_distance_squared(0, 27) as f64).sqrt(), 5.0);
}

#[test]
fn distance_squared_exceeds_32_bits_on_a_long_map() {
    let map = CollisionMap::new(100_000, 2);
    assert_eq!(map.pathing_distance_squared(0, 99_999), 9_999_800_001);
    assert_eq!(map.pathing_distance_squared(0, 199_999), 9_999_800_002);
}

#[test]
fn every_exit_is_one_step_away() {
    let map = CollisionMap::new(4, 3);
    for idx in 0..12 {
        for (next, cost) in map.get_available_exits(idx) {
            assert_eq!(cost, EDGE_COST);
            assert_eq!(map.pathing_distance_squared(idx, next), 1);
        }
    }
}

#[test]
fn path_routes_through_the_gap_in_a_wall() {
    let mut map = CollisionMap::new(5, 5);
    for y in 0..4 {
        map.set(2, y);
    }
    let start = map.index_of(0, 0) as usize;
    let goal = map.index_of(4, 0) as usize;
    let gap = map.index_of(2, 4) as usize;
    let path = shortest_path(&map, start, goal).unwrap();
    assert_eq!(path[0], start);
    assert_eq!(path[path.len() - 1], goal);
    assert!(path.contains(&gap));
    // four rows down, four columns across, four rows up
    assert_eq!(path.len() - 1, 12);
    for pair in path.windows(2) {
        assert!(!map.is_opaque(pair[1]));
        assert_eq!(map.pathing_distance_squared(pair[0], pair[1]), 1);
    }
}

#[test]
fn no_path_crosses_a_closed_wall() {
    let mut map = CollisionMap::new(5, 5);
    for y in 0..5 {
        map.set(2, y);
    }
    assert_eq!(shortest_path(&map, 0, 4), None);
    assert_eq!(shortest_path(&map, 0, 21).unwrap().len() - 1, 5);
}
