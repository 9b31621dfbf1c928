use galos_db::error::Error;
use galos_db::geometry::Coordinate;
use galos_db::Database;
use galos_db::systems::System;

fn at(x: i32, y: i32, z: i32) -> Coordinate {
    Coordinate { x, y, z }
}

fn store(systems: &[(u64, &str, (i32, i32, i32))]) -> Database {
    let mut db = Database::new();
    for (address, name, (x, y, z)) in systems {
        System::create(&mut db, *address, name, at(*x, *y, *z), None, None, None, None, None, None, 0)
            .unwrap();
    }
    db
}

fn names(path: &[System]) -> Vec<String> {
    path.iter().map(|s| s.name.clone()).collect()
}

#[test]
fn one_jump_when_the_goal_is_in_range() {
    let db = store(&[(1, "A", (0, 0, 0)), (2, "B", (5, 0, 0))]);
    let a = System::fetch(&db, 1).unwrap();
    let b = System::fetch(&db, 2).unwrap();
    let (path, cost) = a.route_to(&db, &b, 6).unwrap().unwrap();
    assert_eq!(names(&path), vec!["A", "B"]);
    assert_eq!(cost, 1);
}

#[test]
fn two_jumps_through_the_system_in_the_middle() {
    let db = store(&[(1, "A", (0, 0, 0)), (2, "M", (4, 0, 0)), (3, "B", (8, 0, 0))]);
    let a = System::fetch(&db, 1).unwrap();
    let b = System::fetch(&db, 3).unwrap();
    let (path, cost) = a.route_to(&db, &b, 5).unwrap().unwrap();
    assert_eq!(names(&path), vec!["A", "M", "B"]);
    assert_eq!(cost, 2);
    let (path, cost) = a.route_to(&db, &b, 10).unwrap().unwrap();
    assert_eq!(names(&path), vec!["A", "B"]);
    assert_eq!(cost, 1);
}

#[test]
fn no_route_when_the_goal_is_out_of_range() {
    let db = store(&[(1, "A", (0, 0, 0)), (2, "B", (100, 0, 0))]);
    let a = System::fetch(&db, 1).unwrap();
    let b = System::fetch(&db, 2).unwrap();
    assert_eq!(a.route_to(&db, &b, 5), Ok(None));
}

#[test]
fn either_branch_of_equal_length_is_taken() {
    let db = store(&[
        (1, "A", (0, 0, 0)),
        (2, "X", (3, 0, 0)),
        (3, "Y", (0, 3, 0)),
        (4, "B", (3, 3, 0)),
    ]);
    let a = System::fetch(&db, 1).unwrap();
    let b = System::fetch(&db, 4).unwrap();
    let (path, cost) = a.route_to(&db, &b, 4).unwrap().unwrap();
    let via = names(&path);
    assert!(via == vec!["A", "X", "B"] || via == vec!["A", "Y", "B"]);
    assert_eq!(path.len(), 3);
    assert_eq!(cost, 2);
}

#[test]
fn the_range_bound_is_inclusive_on_a_diagonal() {
    let db = store(&[(1, "A", (0, 0, 0)), (2, "B", (3, 4, 12))]);
    let a = System::fetch(&db, 1).unwrap();
    let b = System::fetch(&db, 2).unwrap();
    assert_eq!(a.distance(&b), 13);
    let (path, cost) = a.route_to(&db, &b, 13).unwrap().unwrap();
    assert_eq!(names(&path), vec!["A", "B"]);
    assert_eq!(cost, 1);
    assert_eq!(a.route_to(&db, &b, 12), Ok(None));
}

#[test]
fn a_route_to_itself_has_no_jumps() {
    let db = store(&[(1, "A", (0, 0, 0)), (2, "B", (5, 0, 0))]);
    let a = System::fetch(&db, 1).unwrap();
    let (path, cost) = a.route_to(&db, &a, 1).unwrap().unwrap();
    assert_eq!(names(&path), vec!["A"]);
    assert_eq!(cost, 0);
}

#[test]
fn fetching_an_unknown_address_is_not_found() {
    let db = store(&[(1, "A", (0, 0, 0))]);
    assert_eq!(System::fetch(&db, 7).err(), Some(Error::NotFound));
}

#[test]
fn routing_twice_gives_the_same_route() {
    let db = store(&[
        (1, "A", (0, 0, 0)),
        (2, "X", (3, 0, 0)),
        (3, "Y", (0, 3, 0)),
        (4, "B", (3, 3, 0)),
    ]);
    let a = System::fetch(&db, 1).unwrap();
    let b = System::fetch(&db, 4).unwrap();
    let (first, first_cost) = a.route_to(&db, &b, 4).unwrap().unwrap();
    let (second, second_cost) = a.route_to(&db, &b, 4).unwrap().unwrap();
    assert_eq!(names(&first), names(&second));
    assert_eq!(first_cost, second_cost);
}

#[test]
fn the_way_back_is_as_long_as_the_way_there() {
    let db = store(&[
        (1, "A", (0, 0, 0)),
        (2, "P", (4, 1, 0)),
        (3, "Q", (7, -2, 1)),
        (4, "R", (2, 6, 0)),
        (5, "B", (11, 0, 0)),
        (6, "LONE", (500, 500, 500)),
    ]);
    let a = System::fetch(&db, 1).unwrap();
    let b = System::fetch(&db, 5).unwrap();
    let lone = System::fetch(&db, 6).unwrap();
    let (there, there_cost) = a.route_to(&db, &b, 5).unwrap().unwrap();
    let (back, back_cost) = b.route_to(&db, &a, 5).unwrap().unwrap();
    assert_eq!(there.len(), back.len());
    assert_eq!(there_cost, back_cost);
    assert_eq!(there_cost, 3);
    assert_eq!(a.route_to(&db, &lone, 5), Ok(None));
    assert_eq!(lone.route_to(&db, &a, 5), Ok(None));
}

#[test]
fn every_leg_of_a_route_is_within_range_and_the_cost_counts_the_legs() {
    let mut db = Database::new();
    let mut address = 0;
    for x in 0..6 {
        for y in 0..6 {
            address += 1;
            System::create(&mut db, address, &format!("S{}", address), at(x * 3, y * 3, (x + y) % 2), None, None, None, None, None, None, 0)
                .unwrap();
        }
    }
    let start = System::fetch(&db, 1).unwrap();
    let end = System::fetch(&db, 36).unwrap();
    let (path, cost) = start.route_to(&db, &end, 5).unwrap().unwrap();
    assert_eq!(path.first().unwrap().address, 1);
    assert_eq!(path.last().unwrap().address, 36);
    assert_eq!(cost as usize, path.len() - 1);
    for leg in path.windows(2) {
        assert!(leg[0].position.is_within(&leg[1].position, 5));
        assert!(db.contains(&leg[1]));
    }
    // Diagonal steps of (3, 3, 0) are within 5, so five jumps cross the grid.
    assert_eq!(cost, 5);
}

#[test]
fn successors_pair_each_neighbor_with_a_cost_of_one() {
    let db = store(&[(1, "A", (0, 0, 0)), (2, "B", (5, 0, 0)), (3, "C", (0, 9, 0))]);
    let a = System::fetch(&db, 1).unwrap();
    let next = a.successors(&db, 5);
    let listed: Vec<(u64, u128)> = next.iter().map(|(s, c)| (s.address, *c)).collect();
    assert_eq!(listed, vec![(1, 1), (2, 1)]);
}

#[test]
fn the_estimate_is_the_distance_over_the_range_rounded_up() {
    let db = store(&[(1, "A", (0, 0, 0)), (2, "B", (3, 4, 12))]);
    let a = System::fetch(&db, 1).unwrap();
    let b = System::fetch(&db, 2).unwrap();
    assert_eq!(a.estimate(&b, 13), 1);
    assert_eq!(a.estimate(&b, 12), 2);
    assert_eq!(a.estimate(&b, 1), 13);
    assert_eq!(a.estimate(&a, 1), 0);
}

#[test]
fn a_detour_is_taken_when_the_straight_line_has_a_gap() {
    let db = store(&[
        (1, "A", (0, 0, 0)),
        (2, "B", (20, 0, 0)),
        (3, "U1", (0, 5, 0)),
        (4, "U2", (5, 8, 0)),
        (5, "U3", (10, 9, 0)),
        (6, "U4", (15, 8, 0)),
        (7, "U5", (20, 5, 0)),
        (8, "NEAR", (6, 0, 0)),
    ]);
    let a = System::fetch(&db, 1).unwrap();
    let b = System::fetch(&db, 2).unwrap();
    let (path, cost) = a.route_to(&db, &b, 6).unwrap().unwrap();
    assert_eq!(names(&path), vec!["A", "U1", "U2", "U3", "U4", "U5", "B"]);
    assert_eq!(cost, 6);
}

#[test]
fn routes_are_planned_by_name_in_any_case() {
    let db = store(&[(1, "Alpha", (0, 0, 0)), (2, "Mid", (4, 0, 0)), (3, "Beta", (8, 0, 0))]);
    let (path, cost) = db.route("alpha", "BETA", 5).unwrap().unwrap();
    assert_eq!(names(&path), vec!["ALPHA", "MID", "BETA"]);
    assert_eq!(cost, 2);
    assert_eq!(db.route("alpha", "beta", 3), Ok(None));
    let alpha = System::fetch(&db, 1).unwrap();
    let beta = System::fetch(&db, 3).unwrap();
    assert_eq!(db.route("Alpha", "Beta", 5), alpha.route_to(&db, &beta, 5));
}

#[test]
fn a_route_between_unknown_names_is_not_found() {
    let db = store(&[(1, "Alpha", (0, 0, 0))]);
    assert_eq!(db.route("alpha", "omega", 5), Err(Error::NotFound));
    assert_eq!(db.route("omega", "alpha", 5), Err(Error::NotFound));
    assert_eq!(db.route("omega", "psi", 5), Err(Error::NotFound));
    let (path, cost) = db.route("alpha", "alpha", 5).unwrap().unwrap();
    assert_eq!(names(&path), vec!["ALPHA"]);
    assert_eq!(cost, 0);
}

/// The number of jumps of a shortest route, by plain breadth-first search.
fn fewest_jumps(points: &[Coordinate], from: usize, to: usize, range: u32) -> Option<u64> {
    let mut jumps: Vec<Option<u64>> = vec![None; points.len()];
    let mut queue = std::collections::VecDeque::new();
    jumps[from] = Some(0);
    queue.push_back(from);
    while let Some(i) = queue.pop_front() {
        for j in 0..points.len() {
            let limit = (range as u128) * (range as u128);
            if jumps[j].is_none() && points[i].distance_squared(&points[j]) <= limit {
                jumps[j] = Some(jumps[i].unwrap() + 1);
                queue.push_back(j);
            }
        }
    }
    jumps[to]
}

#[test]
fn no_route_is_shorter_than_the_planned_one() {
    // A scattered field of systems, from a fixed linear congruential sequence.
    let mut state: u64 = 0x2545_f491_4f6c_dd1d;
    let mut next = || {
        state = state.wrapping_mul(6364136223846793005).wrapping_add(1442695040888963407);
        ((state >> 33) % 41) as i32 - 20
    };
    let mut points = Vec::new();
    let mut db = Database::new();
    for address in 0..40u64 {
        let point = at(next(), next(), next());
        points.push(point);
        System::create(&mut db, address, &format!("S{}", address), point, None, None, None, None, None, None, 0)
            .unwrap();
    }
    for range in [6u32, 9, 14] {
        for from in 0..points.len() {
            for to in 0..points.len() {
                let start = System::fetch(&db, from as u64).unwrap();
                let end = System::fetch(&db, to as u64).unwrap();
                let planned = start.route_to(&db, &end, range).unwrap();
                let expected = fewest_jumps(&points, from, to, range);
                assert_eq!(planned.as_ref().map(|(_, cost)| *cost), expected);
                if let Some((path, cost)) = planned {
                    assert_eq!(path.len() as u64, cost + 1);
                    assert_eq!(path[0].address, from as u64);
                    assert_eq!(path[path.len() - 1].address, to as u64);
                    for leg in path.windows(2) {
                        assert!(leg[0].position.is_within(&leg[1].position, range));
                    }
                }
            }
        }
    }
}
