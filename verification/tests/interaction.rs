use cherry_rogue::entity::Enemy;
use cherry_rogue::entity::EnemyType;
use cherry_rogue::entity::Item;
use cherry_rogue::entity::ItemType;
use cherry_rogue::game_map::GameMap;
use cherry_rogue::game_map::MAP_SIZE_X;
use cherry_rogue::game_map::MAP_SIZE_Y;
use cherry_rogue::game_map::Tile;
use cherry_rogue::geom::Pos;
use cherry_rogue::incmap::IncMap;
use cherry_rogue::rng::RandomSource;
use cherry_rogue::rng::ScriptedRandom;
use cherry_rogue::rng::ThreadRandom;
use cherry_rogue::state::Interaction;
use cherry_rogue::state::Key;
use cherry_rogue::state::State;

const KEY_T: Key = Key::Char(116);
const KEY_I: Key = Key::Char(105);
const KEY_D: Key = Key::Char(100);
const KEY_O: Key = Key::Char(111);
const KEY_A: Key = Key::Char(97);

fn open_room_state(char_pos: Pos) -> State {
    let mut map = GameMap::new(MAP_SIZE_X, MAP_SIZE_Y);
    map.add_room(2, 2, 10, 8);
    State {
        char_pos,
        game_map: map,
        items: IncMap::new(),
        enemies: IncMap::new(),
        inventory: Vec::new(),
        active_interaction: Interaction::Walking,
        status_text: None,
    }
}

// End-to-end scenario: the player stands next to a closed door, issues
// the open interaction toward it, and the door becomes an open,
// non-blocking tile that can then be walked through.
#[test]
fn open_interaction_opens_adjacent_door() {
    let mut state = open_room_state(Pos { x: 6, y: 5 });
    state.game_map.set_tile(Pos { x: 7, y: 5 }, Tile::Door { is_open: false });
    assert!(!state.game_map.is_open_tile(Pos { x: 7, y: 5 }));

    let mut rng = ScriptedRandom::new(vec![]);
    state.handle_keypress(KEY_O, &mut rng);
    assert!(matches!(state.active_interaction, Interaction::Open));
    assert!(state.status_text.is_some());

    state.handle_keypress(Key::Right, &mut rng);
    assert_eq!(
        state.game_map.tile_at(Pos { x: 7, y: 5 }),
        Some(Tile::Door { is_open: true })
    );
    assert!(state.game_map.is_open_tile(Pos { x: 7, y: 5 }));
    assert!(matches!(state.active_interaction, Interaction::Walking));
    assert!(state.status_text.is_none());

    // the opened door no longer blocks movement
    state.handle_keypress(Key::Right, &mut rng);
    assert_eq!(state.char_pos, Pos { x: 7, y: 5 });
}

#[test]
fn open_interaction_ignores_a_plain_wall() {
    let mut state = open_room_state(Pos { x: 2, y: 5 });
    let mut rng = ScriptedRandom::new(vec![]);
    state.handle_keypress(KEY_O, &mut rng);
    state.handle_keypress(Key::Left, &mut rng);
    assert_eq!(state.game_map.tile_at(Pos { x: 1, y: 5 }), Some(Tile::Wall));
    assert!(matches!(state.active_interaction, Interaction::Walking));
}

#[test]
fn movement_rejected_by_wall() {
    let mut state = open_room_state(Pos { x: 2, y: 5 });
    let mut rng = ScriptedRandom::new(vec![]);
    state.handle_keypress(Key::Left, &mut rng);
    assert_eq!(state.char_pos, Pos { x: 2, y: 5 });
    state.handle_keypress(Key::Right, &mut rng);
    assert_eq!(state.char_pos, Pos { x: 3, y: 5 });
}

#[test]
fn movement_rejected_by_enemy() {
    let mut state = open_room_state(Pos { x: 3, y: 3 });
    state.enemies.insert(Enemy {
        pos: Pos { x: 4, y: 3 },
        enemy_type: EnemyType::Gin,
    });
    // the enemy turn rolls a miss so it stays put
    let mut rng = ScriptedRandom::new(vec![1]);
    state.handle_keypress(Key::Right, &mut rng);
    assert_eq!(state.char_pos, Pos { x: 3, y: 3 });
}

#[test]
fn enemy_takes_a_single_open_step() {
    let mut state = open_room_state(Pos { x: 9, y: 9 });
    state.enemies.insert(Enemy {
        pos: Pos { x: 5, y: 5 },
        enemy_type: EnemyType::Gin,
    });
    // one-in-two roll hits, direction roll picks the downward step
    let mut rng = ScriptedRandom::new(vec![0, 0]);
    state.process_ai(&mut rng);
    let (_, enemy) = state.enemies.entry_at(0);
    assert_eq!(enemy.pos, Pos { x: 5, y: 6 });
}

#[test]
fn enemy_never_steps_onto_the_player() {
    let mut state = open_room_state(Pos { x: 5, y: 6 });
    state.enemies.insert(Enemy {
        pos: Pos { x: 5, y: 5 },
        enemy_type: EnemyType::Gin,
    });
    let mut rng = ScriptedRandom::new(vec![0, 0]);
    state.process_ai(&mut rng);
    let (_, enemy) = state.enemies.entry_at(0);
    assert_eq!(enemy.pos, Pos { x: 5, y: 5 });
}

#[test]
fn take_menu_picks_the_named_item() {
    let mut state = open_room_state(Pos { x: 5, y: 5 });
    state.items.insert(Item {
        pos: Pos { x: 5, y: 5 },
        item_type: ItemType::Cherry,
    });
    let mut rng = ScriptedRandom::new(vec![]);
    state.handle_keypress(KEY_T, &mut rng);
    assert!(matches!(state.active_interaction, Interaction::Take { .. }));
    state.handle_keypress(KEY_A, &mut rng);
    assert!(matches!(state.active_interaction, Interaction::Walking));
    assert_eq!(state.inventory, vec![ItemType::Cherry]);
    assert_eq!(state.items.len(), 0);
}

#[test]
fn take_menu_ignores_an_invalid_selection() {
    let mut state = open_room_state(Pos { x: 5, y: 5 });
    state.items.insert(Item {
        pos: Pos { x: 5, y: 5 },
        item_type: ItemType::Coin,
    });
    let mut rng = ScriptedRandom::new(vec![]);
    state.handle_keypress(KEY_T, &mut rng);
    // the letter names no entry: nothing happens, the menu stays open
    state.handle_keypress(Key::Char(122), &mut rng);
    assert!(matches!(state.active_interaction, Interaction::Take { .. }));
    assert!(state.inventory.is_empty());
    assert_eq!(state.items.len(), 1);
    // escape closes the menu without taking anything
    state.handle_keypress(Key::Escape, &mut rng);
    assert!(matches!(state.active_interaction, Interaction::Walking));
    assert_eq!(state.items.len(), 1);
}

#[test]
fn take_command_without_items_stays_walking() {
    let mut state = open_room_state(Pos { x: 5, y: 5 });
    let mut rng = ScriptedRandom::new(vec![]);
    state.handle_keypress(KEY_T, &mut rng);
    assert!(matches!(state.active_interaction, Interaction::Walking));
}

#[test]
fn inventory_view_closes_on_any_key() {
    let mut state = open_room_state(Pos { x: 5, y: 5 });
    let mut rng = ScriptedRandom::new(vec![]);
    state.handle_keypress(KEY_I, &mut rng);
    assert!(matches!(state.active_interaction, Interaction::Inventory));
    state.handle_keypress(Key::Char(120), &mut rng);
    assert!(matches!(state.active_interaction, Interaction::Walking));
}

#[test]
fn drinking_a_gin_drops_a_dead_gin() {
    let mut state = open_room_state(Pos { x: 3, y: 3 });
    state.enemies.insert(Enemy {
        pos: Pos { x: 4, y: 3 },
        enemy_type: EnemyType::Gin,
    });
    let mut rng = ScriptedRandom::new(vec![]);
    state.handle_keypress(KEY_D, &mut rng);
    assert!(matches!(state.active_interaction, Interaction::Drink));
    state.handle_keypress(Key::Right, &mut rng);
    assert_eq!(state.enemies.len(), 0);
    assert_eq!(state.items.len(), 1);
    let (_, dropped) = state.items.entry_at(0);
    assert_eq!(dropped.item_type, ItemType::DeadGin);
    assert_eq!(dropped.pos, Pos { x: 4, y: 3 });
    assert!(matches!(state.active_interaction, Interaction::Walking));
}

#[test]
fn drinking_at_nothing_changes_nothing() {
    let mut state = open_room_state(Pos { x: 3, y: 3 });
    let mut rng = ScriptedRandom::new(vec![]);
    state.handle_keypress(KEY_D, &mut rng);
    state.handle_keypress(Key::Up, &mut rng);
    assert_eq!(state.enemies.len(), 0);
    assert_eq!(state.items.len(), 0);
    assert!(matches!(state.active_interaction, Interaction::Walking));
}

#[test]
fn scripted_random_replays_and_exhausts() {
    let mut rng = ScriptedRandom::new(vec![5, 1, 7]);
    assert_eq!(rng.pick(3), 2); // 5 mod 3
    assert_eq!(rng.pick(10), 1);
    assert_eq!(rng.pick(2), 1); // 7 mod 2
    assert_eq!(rng.pick(9), 0); // script exhausted
    assert_eq!(rng.pick(4), 0);
}

// Entropy-backed draws always land inside the requested range.
#[test]
fn thread_random_draws_stay_in_range() {
    let mut rng = ThreadRandom::new();
    for n in 1..=10u32 {
        for _ in 0..50 {
            assert!(rng.pick(n) < n);
        }
    }
    assert_eq!(rng.pick(1), 0);
}

// A whole game starts on real entropy: the player always stands on a
// floor tile of the generated dungeon.
#[test]
fn new_game_on_real_entropy() {
    let mut rng = ThreadRandom::new();
    for _ in 0..5 {
        let state = State::new(&mut rng);
        assert!(matches!(state.active_interaction, Interaction::Walking));
        assert_eq!(state.game_map.tile_at(state.char_pos), Some(Tile::Floor));
        // the player's own tile is lit after the initial fog pass
        assert_eq!(
            state.game_map.tile_visibility(state.char_pos),
            cherry_rogue::game_map::Fog::Visible
        );
    }
}
