use cherry_rogue::geom::Pos;
use cherry_rogue::grid::Arr2d;
use cherry_rogue::mapgen::carve;
use cherry_rogue::mapgen::carve_step;
use cherry_rogue::mapgen::CellType;
use cherry_rogue::mapgen::RoomCell;
use cherry_rogue::mapgen::SepGrid;
use cherry_rogue::mapgen::Separator;
use cherry_rogue::rng::ScriptedRandom;

fn fresh_rooms() -> Arr2d<RoomCell> {
    Arr2d::new(4, 3, RoomCell { kind: CellType::Room, visited: false })
}

// Dead-end backtracking: a stack top without any admissible unvisited
// neighbor is popped, and nothing else changes.
#[test]
fn dead_end_pops_the_stack_top() {
    let mut rooms = fresh_rooms();
    // every neighbor of (1, 1) is already visited
    for (x, y) in [(0i32, 1i32), (2, 1), (1, 0), (1, 2)] {
        rooms.set(x, y, RoomCell { kind: CellType::Room, visited: true });
    }
    let mut walls = SepGrid::new(4, 3);
    let mut stack = vec![Pos { x: 0, y: 1 }, Pos { x: 1, y: 1 }];
    let mut rng = ScriptedRandom::new(vec![0, 0, 0, 0]);
    carve_step(&mut rooms, &mut walls, &mut stack, &mut rng);
    assert_eq!(stack, vec![Pos { x: 0, y: 1 }]);
    // no cell changed: the visited pattern is exactly as before
    assert!(!rooms.get(1, 1).unwrap().visited);
    assert!(rooms.get(2, 1).unwrap().visited);
}

#[test]
fn carve_step_into_a_neighbor_clears_the_separator() {
    let mut rooms = fresh_rooms();
    let mut walls = SepGrid::new(4, 3);
    let mut stack = vec![Pos { x: 0, y: 0 }];
    // choose the first candidate, do not turn the top into corridors
    let mut rng = ScriptedRandom::new(vec![0, 1]);
    carve_step(&mut rooms, &mut walls, &mut stack, &mut rng);
    assert_eq!(stack, vec![Pos { x: 0, y: 0 }, Pos { x: 1, y: 0 }]);
    assert!(rooms.get(1, 0).unwrap().visited);
    assert_eq!(
        walls.get_between(Pos { x: 0, y: 0 }, Pos { x: 1, y: 0 }, 4, 3),
        Separator::Nothing
    );
    // an uncarved edge stays a wall
    assert_eq!(
        walls.get_between(Pos { x: 2, y: 2 }, Pos { x: 3, y: 2 }, 4, 3),
        Separator::Wall
    );
}

// Generation connectivity: the carve visits every cell reachable under
// the carve rule, whatever the random choices were.
#[test]
fn carve_visits_every_reachable_cell() {
    let mut rooms = fresh_rooms();
    let mut walls = SepGrid::new(4, 3);
    let mut rng = ScriptedRandom::new(vec![3, 2, 7, 1, 9, 4, 5, 8, 2, 6, 1, 3, 0, 4, 7, 2]);
    carve(&mut rooms, &mut walls, Pos { x: 1, y: 1 }, &mut rng);
    for x in 0..4i32 {
        for y in 0..3i32 {
            if !(x == 1 && y == 1) {
                assert!(rooms.get(x, y).unwrap().visited, "cell ({x}, {y}) not carved");
            }
        }
    }
}

#[test]
fn carve_never_enters_void_cells() {
    let mut rooms = fresh_rooms();
    rooms.set(2, 1, RoomCell { kind: CellType::Nothing, visited: false });
    let mut walls = SepGrid::new(4, 3);
    let mut rng = ScriptedRandom::new(vec![1, 4, 2, 8, 5, 7, 3, 6, 0, 2, 9, 1]);
    carve(&mut rooms, &mut walls, Pos { x: 0, y: 0 }, &mut rng);
    assert!(!rooms.get(2, 1).unwrap().visited);
    assert_eq!(rooms.get(2, 1).unwrap().kind, CellType::Nothing);
}

// End-to-end carve scenario: with the random source scripted to always
// choose the first candidate neighbor and never branch into corridors,
// the carve walks one serpentine path of rooms that visits every
// non-void cell exactly once, backtracking only at dead ends.
#[test]
fn scripted_carve_walks_a_serpentine_path() {
    let mut rooms = fresh_rooms();
    rooms.set(3, 0, RoomCell { kind: CellType::Nothing, visited: false });
    rooms.set(3, 2, RoomCell { kind: CellType::Nothing, visited: false });
    let mut walls = SepGrid::new(4, 3);
    // alternating draws: 0 picks the first candidate neighbor, 1 fails
    // the one-in-five corridors roll
    let mut script = Vec::new();
    for _ in 0..20 {
        script.push(0);
        script.push(1);
    }
    let mut rng = ScriptedRandom::new(script);

    let mut stack = vec![Pos { x: 0, y: 0 }];
    let mut visit_order = Vec::new();
    while !stack.is_empty() {
        let before = stack.len();
        carve_step(&mut rooms, &mut walls, &mut stack, &mut rng);
        if stack.len() > before {
            visit_order.push(*stack.last().unwrap());
        }
    }

    let expected = vec![
        Pos { x: 1, y: 0 },
        Pos { x: 2, y: 0 },
        Pos { x: 2, y: 1 },
        Pos { x: 3, y: 1 },
        Pos { x: 1, y: 1 },
        Pos { x: 0, y: 1 },
        Pos { x: 0, y: 2 },
        Pos { x: 1, y: 2 },
        Pos { x: 2, y: 2 },
        Pos { x: 0, y: 0 },
    ];
    assert_eq!(visit_order, expected);

    // every non-void cell was visited exactly once and stayed a room
    for x in 0..4i32 {
        for y in 0..3i32 {
            let cell = *rooms.get(x, y).unwrap();
            if cell.kind == CellType::Nothing {
                assert!(!cell.visited);
            } else {
                assert_eq!(cell.kind, CellType::Room);
                assert!(cell.visited);
                assert_eq!(
                    visit_order.iter().filter(|p| p.x == x && p.y == y).count(),
                    1
                );
            }
        }
    }
}
