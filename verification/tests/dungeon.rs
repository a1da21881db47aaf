use cherry_rogue::game_map::Fog;
use cherry_rogue::game_map::GameMap;
use cherry_rogue::game_map::MAP_SIZE_X;
use cherry_rogue::game_map::MAP_SIZE_Y;
use cherry_rogue::game_map::Tile;
use cherry_rogue::geom::Pos;
use cherry_rogue::mapgen::generate_game_map;
use cherry_rogue::rng::ScriptedRandom;

fn fog_snapshot(map: &GameMap) -> Vec<Fog> {
    let mut snap = Vec::new();
    for y in 0..MAP_SIZE_Y as i32 {
        for x in 0..MAP_SIZE_X as i32 {
            snap.push(map.tile_visibility(Pos { x, y }));
        }
    }
    snap
}

/// A small dungeon: an open floor room with walls around it.
fn walled_room() -> GameMap {
    let mut map = GameMap::new(MAP_SIZE_X, MAP_SIZE_Y);
    map.add_room(2, 2, 10, 8);
    map
}

#[test]
fn blocking_tile_per_variant() {
    assert!(GameMap::blocking_tile(Tile::Wall));
    assert!(GameMap::blocking_tile(Tile::Door { is_open: false }));
    assert!(!GameMap::blocking_tile(Tile::Door { is_open: true }));
    assert!(!GameMap::blocking_tile(Tile::Floor));
    assert!(!GameMap::blocking_tile(Tile::Void));
}

#[test]
fn add_room_carves_floor_with_wall_border() {
    let map = walled_room();
    assert_eq!(map.tile_at(Pos { x: 2, y: 2 }), Some(Tile::Floor));
    assert_eq!(map.tile_at(Pos { x: 11, y: 9 }), Some(Tile::Floor));
    assert_eq!(map.tile_at(Pos { x: 1, y: 1 }), Some(Tile::Wall));
    assert_eq!(map.tile_at(Pos { x: 12, y: 5 }), Some(Tile::Wall));
    assert_eq!(map.tile_at(Pos { x: 14, y: 5 }), Some(Tile::Void));
}

#[test]
fn add_room_keeps_adjoining_floor() {
    let mut map = GameMap::new(MAP_SIZE_X, MAP_SIZE_Y);
    map.add_room(2, 2, 5, 5);
    // a second room sharing the border column keeps the shared floor
    map.add_room(6, 2, 5, 5);
    assert_eq!(map.tile_at(Pos { x: 6, y: 3 }), Some(Tile::Floor));
}

// A ray aimed at a wall visits the cells up to and including the wall.
#[test]
fn dda_stops_at_blocking_cell() {
    let mut map = walled_room();
    map.set_tile(Pos { x: 7, y: 5 }, Tile::Wall);
    let (visited, last) = map.dda(Pos { x: 5, y: 5 }, Pos { x: 1, y: 0 }, 4);
    assert_eq!(
        visited,
        vec![Pos { x: 5, y: 5 }, Pos { x: 6, y: 5 }, Pos { x: 7, y: 5 }]
    );
    assert_eq!(last, Some(Pos { x: 7, y: 5 }));
}

#[test]
fn dda_runs_out_of_budget_unblocked() {
    let map = walled_room();
    let (visited, last) = map.dda(Pos { x: 5, y: 5 }, Pos { x: 1, y: 0 }, 4);
    assert_eq!(
        visited,
        vec![
            Pos { x: 5, y: 5 },
            Pos { x: 6, y: 5 },
            Pos { x: 7, y: 5 },
            Pos { x: 8, y: 5 },
        ]
    );
    assert_eq!(last, None);
}

// Ray marcher termination boundary case: a zero distance budget
// visits no cell at all.
#[test]
fn dda_zero_budget_visits_nothing() {
    let map = walled_room();
    let (visited, last) = map.dda(Pos { x: 5, y: 5 }, Pos { x: 1, y: 0 }, 0);
    assert!(visited.is_empty());
    assert_eq!(last, Some(Pos { x: 5, y: 5 }));
    let (visited2, _) = map.dda(Pos { x: 5, y: 5 }, Pos { x: -2, y: 3 }, 0);
    assert!(visited2.is_empty());
}

#[test]
fn update_fog_lights_player_tile_and_leaves_far_cells_dark() {
    let mut map = walled_room();
    map.update_fog(Pos { x: 5, y: 5 });
    assert_eq!(map.tile_visibility(Pos { x: 5, y: 5 }), Fog::Visible);
    assert_eq!(map.tile_visibility(Pos { x: 6, y: 5 }), Fog::Visible);
    // beyond the fog radius nothing is revealed
    assert_eq!(map.tile_visibility(Pos { x: 15, y: 12 }), Fog::Dark);
    assert_eq!(map.tile_visibility(Pos { x: 18, y: 2 }), Fog::Dark);
}

#[test]
fn update_fog_does_not_see_through_walls() {
    let mut map = walled_room();
    // a wall right next to the player hides the cells behind it
    map.set_tile(Pos { x: 6, y: 5 }, Tile::Wall);
    map.update_fog(Pos { x: 5, y: 5 });
    assert_eq!(map.tile_visibility(Pos { x: 6, y: 5 }), Fog::Visible);
    assert_eq!(map.tile_visibility(Pos { x: 7, y: 5 }), Fog::Dark);
    assert_eq!(map.tile_visibility(Pos { x: 8, y: 5 }), Fog::Dark);
}

// Idempotence: a second update from the same unchanged position
// yields exactly the same fog, Visible cells included.
#[test]
fn update_fog_twice_is_idempotent() {
    let mut map = walled_room();
    map.update_fog(Pos { x: 5, y: 5 });
    let first = fog_snapshot(&map);
    map.update_fog(Pos { x: 5, y: 5 });
    let second = fog_snapshot(&map);
    assert_eq!(first, second);
}

// Monotonic fog: once a cell is Seen or Visible it never returns to
// Dark, however the player moves afterwards.
#[test]
fn fog_never_regresses_to_dark() {
    let mut map = walled_room();
    map.update_fog(Pos { x: 3, y: 3 });
    let before = fog_snapshot(&map);
    map.update_fog(Pos { x: 9, y: 8 });
    map.update_fog(Pos { x: 11, y: 9 });
    let after = fog_snapshot(&map);
    for (b, a) in before.iter().zip(after.iter()) {
        if *b != Fog::Dark {
            assert_ne!(*a, Fog::Dark);
        }
    }
}

#[test]
fn visible_decays_to_seen_when_player_leaves() {
    let mut map = walled_room();
    map.update_fog(Pos { x: 3, y: 3 });
    assert_eq!(map.tile_visibility(Pos { x: 3, y: 3 }), Fog::Visible);
    // after moving far away, the old spot is remembered but stale
    map.update_fog(Pos { x: 11, y: 9 });
    assert_eq!(map.tile_visibility(Pos { x: 3, y: 3 }), Fog::Seen);
}

// For all positions outside a freshly generated map's bounds, the fog
// reads Dark and the tile query reports absence.
#[test]
fn fresh_map_rejects_out_of_bounds_queries() {
    let mut rng = ScriptedRandom::new(vec![2, 1, 0, 3, 0, 1, 2, 1, 0, 1, 2, 1, 0, 1, 2, 1]);
    let (map, char_pos, items, enemies) = generate_game_map(&mut rng);
    let outside = [
        Pos { x: -1, y: 0 },
        Pos { x: 0, y: -1 },
        Pos { x: MAP_SIZE_X as i32, y: 0 },
        Pos { x: 0, y: MAP_SIZE_Y as i32 },
        Pos { x: 4000, y: -4000 },
    ];
    for p in outside {
        assert_eq!(map.tile_visibility(p), Fog::Dark);
        assert_eq!(map.tile_at(p), None);
    }
    // the player starts at the center tile of a room, on floor
    assert!([2, 6, 10, 14].contains(&char_pos.x));
    assert!([2, 6, 10].contains(&char_pos.y));
    assert_eq!(map.tile_at(char_pos), Some(Tile::Floor));
    for dx in -1..=1 {
        for dy in -1..=1 {
            let p = Pos { x: char_pos.x + dx, y: char_pos.y + dy };
            assert_eq!(map.tile_at(p), Some(Tile::Floor));
        }
    }
    // every placed entity sits at the center of some room
    for k in 0..items.len() {
        let (_, item) = items.entry_at(k);
        assert!([2, 6, 10, 14].contains(&item.pos.x));
        assert!([2, 6, 10].contains(&item.pos.y));
    }
    for k in 0..enemies.len() {
        let (_, enemy) = enemies.entry_at(k);
        assert!([2, 6, 10, 14].contains(&enemy.pos.x));
        assert!([2, 6, 10].contains(&enemy.pos.y));
    }
}
