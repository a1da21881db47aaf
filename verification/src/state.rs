//! The turn-based interaction layer: player movement, modal menus,
//! enemy turns, and the door-opening command.  A tick advances only on
//! player input; every successful move runs the enemy turn and the fog
//! recomputation as one atomic turn.

use vstd::prelude::*;
use crate::entity::Enemy;
use crate::entity::EnemyId;
use crate::entity::EnemyType;
use crate::entity::Item;
use crate::entity::ItemId;
use crate::entity::ItemType;
use crate::fog::lemma_visible_same_tiles;
use crate::fog::spec_fog_after;
use crate::fog::spec_visible_from;
use crate::game_map::on_room_border;
use crate::game_map::Fog;
use crate::game_map::GameMap;
use crate::game_map::MAP_SIZE_X;
use crate::game_map::MAP_SIZE_Y;
use crate::game_map::Tile;
use crate::geom::Pos;
use crate::incmap::IncMap;
use crate::fog::is_perimeter_offset;
use crate::mapgen::adjacent4;
use crate::mapgen::generate_game_map;
use crate::raycast::ray_cell_x;
use crate::raycast::ray_cell_y;
use crate::raycast::ray_runs;
use crate::rng::RandomSource;

verus! {

/// A discrete key-down event, as the input collaborator reports it.
#[derive(Copy, Clone, PartialEq, Eq, Structural, Debug)]
pub enum Key {
    Up,
    Left,
    Down,
    Right,
    Escape,
    /// A letter key, by its ASCII code (`t`, `i`, `d`, `o` select
    /// commands while walking; letters pick entries in the take menu).
    Char(u8),
}

/// The modal interaction the next key press is interpreted in.
pub enum Interaction {
    Walking,
    Take { available_items: Vec<(ItemId, ItemType)> },
    Inventory,
    Drink,
    Open,
}

/// The direction a movement key stands for, if any.
pub open spec fn spec_key_dir(key: Key) -> Option<Pos> {
    match key {
        Key::Up => Some(Pos { x: 0 as i32, y: -1 as i32 }),
        Key::Left => Some(Pos { x: -1 as i32, y: 0 as i32 }),
        Key::Down => Some(Pos { x: 0 as i32, y: 1 as i32 }),
        Key::Right => Some(Pos { x: 1 as i32, y: 0 as i32 }),
        _ => None,
    }
}

pub fn map_key_to_dir(key: Key) -> (r: Option<Pos>)
    ensures
        r == spec_key_dir(key),
{
    match key {
        Key::Up => Some(Pos { x: 0, y: -1 }),
        Key::Left => Some(Pos { x: -1, y: 0 }),
        Key::Down => Some(Pos { x: 0, y: 1 }),
        Key::Right => Some(Pos { x: 1, y: 0 }),
        _ => None,
    }
}

/// Whether some enemy stands at `(x, y)`.
pub open spec fn spec_enemy_at(entries: Seq<(u32, Enemy)>, x: int, y: int) -> bool {
    exists|k: int|
        0 <= k < entries.len() && (#[trigger] entries[k]).1.pos.x == x && entries[k].1.pos.y
            == y
}

/// Whether some item lies at `(x, y)`.
pub open spec fn spec_item_at(entries: Seq<(u32, Item)>, x: int, y: int) -> bool {
    exists|k: int|
        0 <= k < entries.len() && (#[trigger] entries[k]).1.pos.x == x && entries[k].1.pos.y
            == y
}

/// The whole roguelike game state.
pub struct State {
    pub char_pos: Pos,
    pub game_map: GameMap,
    pub items: IncMap<Item>,
    pub enemies: IncMap<Enemy>,
    pub inventory: Vec<ItemType>,
    pub active_interaction: Interaction,
    pub status_text: Option<String>,
}

impl State {
    /// The map has the standard dungeon size and the player stands on
    /// it; the entity stores are sound.
    pub open spec fn wf(self) -> bool {
        &&& self.game_map.wf()
        &&& self.game_map.spec_width() == MAP_SIZE_X
        &&& self.game_map.spec_height() == MAP_SIZE_Y
        &&& self.game_map.in_bounds(self.char_pos.x as int, self.char_pos.y as int)
        &&& self.items.wf()
        &&& self.enemies.wf()
    }

    /// A fresh game: a generated dungeon whose fog holds exactly one
    /// visibility pass from the player's start tile, which is a floor
    /// tile at the center of a room.
    pub fn new<R: RandomSource>(rng: &mut R) -> (r: State)
        ensures
            r.wf(),
            r.active_interaction is Walking,
            r.status_text is None,
            r.inventory@.len() == 0,
            r.game_map.spec_tile(r.char_pos.x as int, r.char_pos.y as int) == Tile::Floor,
            r.game_map.spec_fog(r.char_pos.x as int, r.char_pos.y as int) == Fog::Visible,
            forall|i: int, j: int|
                r.game_map.in_bounds(i, j) ==> #[trigger] r.game_map.spec_fog(i, j) == (
                if spec_visible_from(r.game_map, r.char_pos.x as int, r.char_pos.y as int,
                    i, j) {
                    Fog::Visible
                } else {
                    Fog::Dark
                }),
    {
        let mut state = State {
            char_pos: Pos { x: 10, y: 5 },
            game_map: GameMap::new(MAP_SIZE_X, MAP_SIZE_Y),
            items: IncMap::new(),
            enemies: IncMap::new(),
            inventory: Vec::new(),
            active_interaction: Interaction::Walking,
            status_text: None,
        };
        state.generate_game_map(rng);
        let ghost pre_fog = state.game_map;
        let pos = state.char_pos;
        state.game_map.update_fog(pos);
        proof {
            assert forall|i: int, j: int| state.game_map.in_bounds(i, j)
                implies #[trigger] state.game_map.spec_fog(i, j) == (if spec_visible_from(
                state.game_map,
                pos.x as int,
                pos.y as int,
                i,
                j,
            ) {
                Fog::Visible
            } else {
                Fog::Dark
            }) by {
                lemma_visible_same_tiles(pre_fog, state.game_map, pos.x as int, pos.y as int,
                    i, j);
            }
            // the player's own tile is lit: the very first step of any
            // perimeter ray visits the start cell
            assert(spec_visible_from(state.game_map, pos.x as int, pos.y as int,
                pos.x as int, pos.y as int)) by {
                assert(ray_runs(state.game_map, pos.x as int, pos.y as int, 4, 0, 4, 0));
                assert(ray_cell_x(pos.x as int, 4, 0, 0) == pos.x as int);
                assert(ray_cell_y(pos.y as int, 4, 0, 0) == pos.y as int);
                assert(is_perimeter_offset(4, 0));
            }
        }
        state
    }

    /// Replaces the dungeon with a freshly generated one and puts the
    /// player at the center tile of its start room: the room's floor
    /// block surrounds the player, ringed by wall except where a
    /// neighboring room's floor already adjoins, and the fresh fog is
    /// all dark.
    pub fn generate_game_map<R: RandomSource>(&mut self, rng: &mut R)
        ensures
            final(self).wf(),
            final(self).game_map.spec_tile(
                final(self).char_pos.x as int,
                final(self).char_pos.y as int,
            ) == Tile::Floor,
            final(self).char_pos.x == 2 || final(self).char_pos.x == 6 || final(
                self).char_pos.x == 10 || final(self).char_pos.x == 14,
            final(self).char_pos.y == 2 || final(self).char_pos.y == 6 || final(
                self).char_pos.y == 10,
            forall|i: int, j: int|
                final(self).char_pos.x - 1 <= i <= final(self).char_pos.x + 1 && final(
                    self).char_pos.y - 1 <= j <= final(self).char_pos.y + 1
                    ==> #[trigger] final(self).game_map.spec_tile(i, j) == Tile::Floor,
            forall|i: int, j: int|
                on_room_border(
                    final(self).char_pos.x - 1,
                    final(self).char_pos.y - 1,
                    3,
                    3,
                    i,
                    j,
                ) ==> #[trigger] final(self).game_map.spec_tile(i, j) == Tile::Wall || final(
                    self).game_map.spec_tile(i, j) == Tile::Floor,
            forall|i: int, j: int|
                final(self).game_map.in_bounds(i, j) ==> #[trigger] final(
                    self).game_map.spec_fog(i, j) == Fog::Dark,
            final(self).inventory == old(self).inventory,
            final(self).status_text == old(self).status_text,
            final(self).active_interaction == old(self).active_interaction,
    {
        let (map, char_pos, items, enemies) = generate_game_map(rng);
        self.game_map = map;
        self.char_pos = char_pos;
        self.items = items;
        self.enemies = enemies;
    }

    /// Registers an item lying at `(x, y)`.
    pub fn add_item(&mut self, x: i32, y: i32, item_type: ItemType)
        requires
            old(self).items.wf(),
            old(self).items.can_insert(),
        ensures
            final(self).items.wf(),
            final(self).items.entries() =~= old(self).items.entries().push(
                (old(self).items.spec_next_id(), Item { pos: Pos { x, y }, item_type }),
            ),
            final(self).game_map == old(self).game_map,
            final(self).char_pos == old(self).char_pos,
            final(self).enemies == old(self).enemies,
    {
        self.items.insert(Item { pos: Pos { x, y }, item_type });
    }

    /// Registers an enemy standing at `(x, y)`.
    pub fn add_enemy(&mut self, x: i32, y: i32, enemy_type: EnemyType)
        requires
            old(self).enemies.wf(),
            old(self).enemies.can_insert(),
        ensures
            final(self).enemies.wf(),
            final(self).enemies.entries() =~= old(self).enemies.entries().push(
                (old(self).enemies.spec_next_id(), Enemy { pos: Pos { x, y }, enemy_type }),
            ),
            final(self).game_map == old(self).game_map,
            final(self).char_pos == old(self).char_pos,
            final(self).items == old(self).items,
    {
        self.enemies.insert(Enemy { pos: Pos { x, y }, enemy_type });
    }

    /// Whether some enemy stands at `pos`.
    fn enemy_at(&self, pos: Pos) -> (r: bool)
        ensures
            r == spec_enemy_at(self.enemies.entries(), pos.x as int, pos.y as int),
    {
        let n = self.enemies.len();
        let mut k: usize = 0;
        while k < n
            invariant
                k <= n,
                n == self.enemies.entries().len(),
                forall|i: int|
                    0 <= i < k ==> !((#[trigger] self.enemies.entries()[i]).1.pos.x == pos.x
                        && self.enemies.entries()[i].1.pos.y == pos.y),
            decreases n - k,
        {
            let (_, enemy) = self.enemies.entry_at(k);
            if enemy.pos.x == pos.x && enemy.pos.y == pos.y {
                return true;
            }
            k = k + 1;
        }
        false
    }

    /// Runs one enemy turn: each enemy independently has a one-in-two
    /// chance to attempt a single random axis-aligned step, rejected
    /// if the target tile blocks or the player stands there.
    pub fn process_ai<R: RandomSource>(&mut self, rng: &mut R)
        requires
            old(self).wf(),
        ensures
            final(self).wf(),
            final(self).game_map == old(self).game_map,
            final(self).char_pos == old(self).char_pos,
            final(self).items == old(self).items,
            final(self).inventory == old(self).inventory,
            final(self).active_interaction == old(self).active_interaction,
            final(self).status_text == old(self).status_text,
            final(self).enemies.entries().len() == old(self).enemies.entries().len(),
            final(self).enemies.spec_next_id() == old(self).enemies.spec_next_id(),
            forall|k: int|
                0 <= k < old(self).enemies.entries().len() ==> {
                    let before = (#[trigger] old(self).enemies.entries()[k]);
                    let after = final(self).enemies.entries()[k];
                    &&& after.0 == before.0
                    &&& after.1.enemy_type == before.1.enemy_type
                    &&& (after.1.pos == before.1.pos || (adjacent4(
                        before.1.pos.x as int,
                        before.1.pos.y as int,
                        after.1.pos.x as int,
                        after.1.pos.y as int,
                    ) && !old(self).game_map.spec_blocked_at(
                        after.1.pos.x as int,
                        after.1.pos.y as int,
                    ) && after.1.pos != old(self).char_pos))
                },
    {
        proof {
            self.game_map.lemma_wf_dims();
        }
        let n = self.enemies.len();
        let mut k: usize = 0;
        while k < n
            invariant
                self.wf(),
                k <= n,
                n == self.enemies.entries().len(),
                self.game_map == old(self).game_map,
                self.char_pos == old(self).char_pos,
                self.items == old(self).items,
                self.inventory == old(self).inventory,
                self.active_interaction == old(self).active_interaction,
                self.status_text == old(self).status_text,
                self.enemies.entries().len() == old(self).enemies.entries().len(),
                self.enemies.spec_next_id() == old(self).enemies.spec_next_id(),
                forall|i: int|
                    0 <= i < old(self).enemies.entries().len() ==> {
                        let before = (#[trigger] old(self).enemies.entries()[i]);
                        let after = self.enemies.entries()[i];
                        &&& after.0 == before.0
                        &&& after.1.enemy_type == before.1.enemy_type
                        &&& (after.1.pos == before.1.pos || (adjacent4(
                            before.1.pos.x as int,
                            before.1.pos.y as int,
                            after.1.pos.x as int,
                            after.1.pos.y as int,
                        ) && !old(self).game_map.spec_blocked_at(
                            after.1.pos.x as int,
                            after.1.pos.y as int,
                        ) && after.1.pos != old(self).char_pos))
                    },
                forall|i: int|
                    k <= i < old(self).enemies.entries().len()
                        ==> (#[trigger] self.enemies.entries()[i]) == old(
                        self).enemies.entries()[i],
            decreases n - k,
        {
            if rng.pick(2) == 0 {
                let roll = rng.pick(4);
                let movement_dir: Pos = if roll == 0 {
                    Pos { x: 0, y: 1 }
                } else if roll == 1 {
                    Pos { x: 1, y: 0 }
                } else if roll == 2 {
                    Pos { x: 0, y: -1 }
                } else {
                    Pos { x: -1, y: 0 }
                };
                let (_, enemy) = self.enemies.entry_at(k);
                if enemy.pos.x > i32::MIN + 1 && enemy.pos.x < i32::MAX - 1 && enemy.pos.y
                    > i32::MIN + 1 && enemy.pos.y < i32::MAX - 1 {
                    let next_pos = Pos {
                        x: enemy.pos.x + movement_dir.x,
                        y: enemy.pos.y + movement_dir.y,
                    };
                    let player = self.char_pos;
                    if self.game_map.is_open_tile(next_pos) && !(player.x == next_pos.x
                        && player.y == next_pos.y) {
                        self.enemies.update_at(
                            k,
                            Enemy { pos: next_pos, enemy_type: enemy.enemy_type },
                        );
                    }
                }
            }
            k = k + 1;
        }
    }

    /// Opens the door at `pos` if there is a closed one: the tile
    /// becomes an open door and stops blocking.  Any other target
    /// leaves the map unchanged.
    pub fn open_door_at(&mut self, pos: Pos)
        requires
            old(self).wf(),
        ensures
            final(self).wf(),
            final(self).char_pos == old(self).char_pos,
            final(self).items == old(self).items,
            final(self).enemies == old(self).enemies,
            final(self).inventory == old(self).inventory,
            final(self).active_interaction == old(self).active_interaction,
            final(self).status_text == old(self).status_text,
            final(self).game_map.spec_width() == old(self).game_map.spec_width(),
            final(self).game_map.spec_height() == old(self).game_map.spec_height(),
            old(self).game_map.in_bounds(pos.x as int, pos.y as int) && old(
                self).game_map.spec_tile(pos.x as int, pos.y as int) == (Tile::Door {
                is_open: false,
            }) ==> final(self).game_map.spec_tile(pos.x as int, pos.y as int) == (Tile::Door {
                is_open: true,
            }) && !final(self).game_map.spec_blocked_at(pos.x as int, pos.y as int),
            !(old(self).game_map.in_bounds(pos.x as int, pos.y as int) && old(
                self).game_map.spec_tile(pos.x as int, pos.y as int) == (Tile::Door {
                is_open: false,
            })) ==> final(self).game_map == old(self).game_map,
            forall|i: int, j: int|
                old(self).game_map.in_bounds(i, j) && (i != pos.x || j != pos.y)
                    ==> #[trigger] final(self).game_map.spec_tile(i, j) == old(
                    self).game_map.spec_tile(i, j),
            forall|i: int, j: int|
                old(self).game_map.in_bounds(i, j) ==> #[trigger] final(self).game_map.spec_fog(
                    i, j) == old(self).game_map.spec_fog(i, j),
    {
        match self.game_map.tile_at(pos) {
            Some(Tile::Door { is_open: false }) => {
                self.game_map.set_tile(pos, Tile::Door { is_open: true });
            },
            _ => {},
        }
    }

    /// One movement turn: the step is rejected if the target tile
    /// blocks or an enemy stands there; afterwards the enemies take
    /// their turn and the fog is recomputed for the player's position,
    /// all as one atomic tick.
    pub fn move_player<R: RandomSource>(&mut self, move_dir: Pos, rng: &mut R)
        requires
            old(self).wf(),
            spec_key_dir(Key::Up) == Some(move_dir) || spec_key_dir(Key::Left) == Some(
                move_dir) || spec_key_dir(Key::Down) == Some(move_dir) || spec_key_dir(
                Key::Right) == Some(move_dir),
        ensures
            final(self).wf(),
            final(self).items == old(self).items,
            final(self).inventory == old(self).inventory,
            final(self).active_interaction == old(self).active_interaction,
            final(self).status_text == old(self).status_text,
            forall|i: int, j: int|
                old(self).game_map.in_bounds(i, j) ==> #[trigger] final(
                    self).game_map.spec_tile(i, j) == old(self).game_map.spec_tile(i, j),
            // the movement rule
            (!old(self).game_map.spec_blocked_at(
                old(self).char_pos.x + move_dir.x,
                old(self).char_pos.y + move_dir.y,
            ) && !spec_enemy_at(
                old(self).enemies.entries(),
                old(self).char_pos.x + move_dir.x,
                old(self).char_pos.y + move_dir.y,
            )) ==> final(self).char_pos.x == old(self).char_pos.x + move_dir.x && final(
                self).char_pos.y == old(self).char_pos.y + move_dir.y,
            (old(self).game_map.spec_blocked_at(
                old(self).char_pos.x + move_dir.x,
                old(self).char_pos.y + move_dir.y,
            ) || spec_enemy_at(
                old(self).enemies.entries(),
                old(self).char_pos.x + move_dir.x,
                old(self).char_pos.y + move_dir.y,
            )) ==> final(self).char_pos == old(self).char_pos,
            // the fog after the turn
            forall|i: int, j: int|
                old(self).game_map.in_bounds(i, j) ==> #[trigger] final(self).game_map.spec_fog(
                    i,
                    j,
                ) == spec_fog_after(
                    old(self).game_map,
                    final(self).char_pos.x as int,
                    final(self).char_pos.y as int,
                    i,
                    j,
                ),
            // the enemy turn
            final(self).enemies.entries().len() == old(self).enemies.entries().len(),
            forall|k: int|
                0 <= k < old(self).enemies.entries().len() ==> {
                    let before = (#[trigger] old(self).enemies.entries()[k]);
                    let after = final(self).enemies.entries()[k];
                    &&& after.0 == before.0
                    &&& after.1.enemy_type == before.1.enemy_type
                    &&& (after.1.pos == before.1.pos || (adjacent4(
                        before.1.pos.x as int,
                        before.1.pos.y as int,
                        after.1.pos.x as int,
                        after.1.pos.y as int,
                    ) && !old(self).game_map.spec_blocked_at(
                        after.1.pos.x as int,
                        after.1.pos.y as int,
                    ) && after.1.pos != final(self).char_pos))
                },
    {
        proof {
            self.game_map.lemma_wf_dims();
        }
        let next_pos = Pos {
            x: self.char_pos.x + move_dir.x,
            y: self.char_pos.y + move_dir.y,
        };
        let no_blocking_enemy = !self.enemy_at(next_pos);
        let no_blocking_wall = self.game_map.is_open_tile(next_pos);
        if no_blocking_wall && no_blocking_enemy {
            self.char_pos = next_pos;
        }
        self.process_ai(rng);
        let pos = self.char_pos;
        self.game_map.update_fog(pos);
    }

    /// Collects the items lying at the player's tile, as selection
    /// pairs in store order.
    fn items_here(&self) -> (av: Vec<(ItemId, ItemType)>)
        ensures
            forall|j: int|
                0 <= j < av@.len() ==> exists|k: int|
                    0 <= k < self.items.entries().len() && #[trigger] self.items.entries()[k]
                        == ((#[trigger] av@[j]).0, Item {
                        pos: self.char_pos,
                        item_type: av@[j].1,
                    }),
            forall|k: int|
                0 <= k < self.items.entries().len() && (#[trigger] self.items.entries()[
                k]).1.pos == self.char_pos ==> exists|j: int|
                    0 <= j < av@.len() && #[trigger] av@[j] == (self.items.entries()[k].0,
                    self.items.entries()[k].1.item_type),
            av@.len() > 0 <==> spec_item_at(
                self.items.entries(),
                self.char_pos.x as int,
                self.char_pos.y as int,
            ),
    {
        let n = self.items.len();
        let mut av: Vec<(ItemId, ItemType)> = Vec::new();
        let mut k: usize = 0;
        while k < n
            invariant
                k <= n,
                n == self.items.entries().len(),
                forall|j: int|
                    0 <= j < av@.len() ==> exists|kk: int|
                        0 <= kk < self.items.entries().len()
                            && #[trigger] self.items.entries()[kk] == ((#[trigger] av@[j]).0,
                        Item { pos: self.char_pos, item_type: av@[j].1 }),
                forall|kk: int|
                    0 <= kk < k && (#[trigger] self.items.entries()[kk]).1.pos
                        == self.char_pos ==> exists|j: int|
                        0 <= j < av@.len() && #[trigger] av@[j] == (self.items.entries()[
                        kk].0, self.items.entries()[kk].1.item_type),
                av@.len() > 0 ==> spec_item_at(
                    self.items.entries(),
                    self.char_pos.x as int,
                    self.char_pos.y as int,
                ),
            decreases n - k,
        {
            let (id, item) = self.items.entry_at(k);
            let ghost av0 = av@;
            let hit = item.pos.x == self.char_pos.x && item.pos.y == self.char_pos.y;
            if hit {
                av.push((id, item.item_type));
            }
            proof {
                assert forall|j: int|
                    0 <= j < av@.len() implies exists|kk: int|
                        0 <= kk < self.items.entries().len()
                            && #[trigger] self.items.entries()[kk] == ((#[trigger] av@[j]).0,
                        Item { pos: self.char_pos, item_type: av@[j].1 }) by {
                    if j < av0.len() {
                        assert(av@[j] == av0[j]);
                        let kk = choose|kk: int|
                            0 <= kk < self.items.entries().len()
                                && #[trigger] self.items.entries()[kk] == ((av0[j]).0, Item {
                                pos: self.char_pos,
                                item_type: av0[j].1,
                            });
                        assert(self.items.entries()[kk] == ((av@[j]).0, Item {
                            pos: self.char_pos,
                            item_type: av@[j].1,
                        }));
                    } else {
                        assert(hit);
                        assert(av@[j] == (id, item.item_type));
                        assert(self.items.entries()[k as int] == (id, item));
                        assert(item == (Item { pos: self.char_pos, item_type: item.item_type }));
                    }
                }
                assert forall|kk: int|
                    0 <= kk < k + 1 && (#[trigger] self.items.entries()[kk]).1.pos
                        == self.char_pos implies exists|j: int|
                        0 <= j < av@.len() && #[trigger] av@[j] == (self.items.entries()[
                        kk].0, self.items.entries()[kk].1.item_type) by {
                    if kk < k {
                        let j = choose|j: int|
                            0 <= j < av0.len() && #[trigger] av0[j] == (self.items.entries()[
                            kk].0, self.items.entries()[kk].1.item_type);
                        assert(av@[j] == av0[j]);
                    } else {
                        assert(self.items.entries()[kk] == (id, item));
                        assert(hit);
                        assert(av@[av@.len() - 1] == (id, item.item_type));
                    }
                }
            }
            k = k + 1;
        }
        proof {
            if spec_item_at(self.items.entries(), self.char_pos.x as int,
                self.char_pos.y as int) {
                let kk = choose|kk: int|
                    0 <= kk < self.items.entries().len() && (#[trigger] self.items.entries()[
                    kk]).1.pos.x == self.char_pos.x && self.items.entries()[kk].1.pos.y
                        == self.char_pos.y;
                assert(self.items.entries()[kk].1.pos == self.char_pos);
            }
        }
        av
    }

    /// Interprets one key press in the current interaction mode:
    /// movement and menu commands while walking, a selection in the
    /// take menu, a direction for drinking or opening, and a dismissal
    /// of the inventory view.  Invalid input leaves the state
    /// unchanged.
    pub fn handle_keypress<R: RandomSource>(&mut self, key: Key, rng: &mut R)
        requires
            old(self).wf(),
        ensures
            final(self).wf(),
            // walking: a direction key is one movement turn
            (old(self).active_interaction is Walking && spec_key_dir(key) is Some) ==> {
                let d = spec_key_dir(key)->Some_0;
                &&& final(self).active_interaction is Walking
                &&& final(self).items == old(self).items
                &&& final(self).inventory == old(self).inventory
                &&& (forall|i: int, j: int|
                    old(self).game_map.in_bounds(i, j) ==> #[trigger] final(
                        self).game_map.spec_tile(i, j) == old(self).game_map.spec_tile(i, j))
                &&& ((!old(self).game_map.spec_blocked_at(
                    old(self).char_pos.x + d.x,
                    old(self).char_pos.y + d.y,
                ) && !spec_enemy_at(
                    old(self).enemies.entries(),
                    old(self).char_pos.x + d.x,
                    old(self).char_pos.y + d.y,
                )) ==> final(self).char_pos.x == old(self).char_pos.x + d.x && final(
                    self).char_pos.y == old(self).char_pos.y + d.y)
                &&& ((old(self).game_map.spec_blocked_at(
                    old(self).char_pos.x + d.x,
                    old(self).char_pos.y + d.y,
                ) || spec_enemy_at(
                    old(self).enemies.entries(),
                    old(self).char_pos.x + d.x,
                    old(self).char_pos.y + d.y,
                )) ==> final(self).char_pos == old(self).char_pos)
                &&& (forall|i: int, j: int|
                    old(self).game_map.in_bounds(i, j) ==> #[trigger] final(
                        self).game_map.spec_fog(i, j) == spec_fog_after(
                        old(self).game_map,
                        final(self).char_pos.x as int,
                        final(self).char_pos.y as int,
                        i,
                        j,
                    ))
                &&& final(self).enemies.entries().len() == old(self).enemies.entries().len()
                &&& (forall|k: int|
                    0 <= k < old(self).enemies.entries().len() ==> {
                        let before = (#[trigger] old(self).enemies.entries()[k]);
                        let after = final(self).enemies.entries()[k];
                        &&& after.0 == before.0
                        &&& after.1.enemy_type == before.1.enemy_type
                        &&& (after.1.pos == before.1.pos || (adjacent4(
                            before.1.pos.x as int,
                            before.1.pos.y as int,
                            after.1.pos.x as int,
                            after.1.pos.y as int,
                        ) && !old(self).game_map.spec_blocked_at(
                            after.1.pos.x as int,
                            after.1.pos.y as int,
                        ) && after.1.pos != final(self).char_pos))
                    })
            },
            // walking: menu commands
            (old(self).active_interaction is Walking && spec_key_dir(key) is None) ==> {
                &&& final(self).game_map == old(self).game_map
                &&& final(self).char_pos == old(self).char_pos
                &&& final(self).items == old(self).items
                &&& final(self).enemies == old(self).enemies
                &&& final(self).inventory == old(self).inventory
                &&& (key == Key::Char(116) && spec_item_at(
                    old(self).items.entries(),
                    old(self).char_pos.x as int,
                    old(self).char_pos.y as int,
                ) ==> final(self).active_interaction is Take)
                &&& (key == Key::Char(116) && !spec_item_at(
                    old(self).items.entries(),
                    old(self).char_pos.x as int,
                    old(self).char_pos.y as int,
                ) ==> final(self).active_interaction is Walking)
                &&& (key == Key::Char(105) ==> final(self).active_interaction is Inventory)
                &&& (key == Key::Char(100) ==> final(self).active_interaction is Drink)
                &&& (key == Key::Char(111) ==> final(self).active_interaction is Open)
                &&& (!(key == Key::Char(116) || key == Key::Char(105) || key == Key::Char(
                    100) || key == Key::Char(111)) ==> final(self).active_interaction
                    is Walking && final(self).status_text == old(self).status_text)
            },
            // the take menu: a letter picks the item it names
            old(self).active_interaction matches Interaction::Take { available_items } ==> {
                &&& final(self).game_map == old(self).game_map
                &&& final(self).char_pos == old(self).char_pos
                &&& final(self).enemies == old(self).enemies
                &&& (key == Key::Escape ==> final(self).active_interaction is Walking
                    && final(self).items == old(self).items && final(self).inventory == old(
                    self).inventory)
                &&& (forall|c: u8|
                    key == Key::Char(c) && 97 <= c && c - 97 < available_items@.len() ==> {
                        let sel = (#[trigger] available_items@[c - 97]);
                        &&& final(self).active_interaction is Walking
                        &&& final(self).inventory@ == old(self).inventory@.push(sel.1)
                        &&& !final(self).items.contains_id(sel.0)
                        &&& (forall|other: u32|
                            other != sel.0 ==> (final(self).items.contains_id(other) <==> old(
                                self).items.contains_id(other)))
                        &&& (old(self).items.contains_id(sel.0) ==> exists|i: int|
                            0 <= i < old(self).items.entries().len() && (#[trigger] old(
                                self).items.entries()[i]).0 == sel.0 && final(
                                self).items.entries() =~= old(self).items.entries().remove(
                                i))
                        &&& (!old(self).items.contains_id(sel.0) ==> final(
                            self).items.entries() =~= old(self).items.entries())
                    })
                &&& (key != Key::Escape && (forall|c: u8|
                    key == Key::Char(c) ==> !(97 <= c && c - 97 < available_items@.len()))
                    ==> *final(self) == *old(self))
            },
            // the inventory view closes on any key
            (old(self).active_interaction is Inventory) ==> final(self).active_interaction
                is Walking && final(self).game_map == old(self).game_map && final(
                self).char_pos == old(self).char_pos && final(self).items == old(self).items
                && final(self).enemies == old(self).enemies && final(self).inventory == old(
                self).inventory,
            // drinking toward a direction fells the gin standing there
            (old(self).active_interaction is Drink) ==> {
                &&& final(self).active_interaction is Walking
                &&& final(self).status_text is None
                &&& final(self).game_map == old(self).game_map
                &&& final(self).char_pos == old(self).char_pos
                &&& final(self).inventory == old(self).inventory
                &&& (spec_key_dir(key) is None ==> final(self).items == old(self).items
                    && final(self).enemies == old(self).enemies)
                &&& (spec_key_dir(key) matches Some(d) ==> {
                    let tx = old(self).char_pos.x + d.x;
                    let ty = old(self).char_pos.y + d.y;
                    &&& (!spec_enemy_at(old(self).enemies.entries(), tx, ty) ==> final(
                        self).items == old(self).items && final(self).enemies == old(
                        self).enemies)
                    &&& (spec_enemy_at(old(self).enemies.entries(), tx, ty) && old(
                        self).items.can_insert() ==> (exists|i: int|
                        0 <= i < old(self).enemies.entries().len() && (#[trigger] old(
                            self).enemies.entries()[i]).1.pos.x == tx && old(
                            self).enemies.entries()[i].1.pos.y == ty && final(
                            self).enemies.entries() =~= old(self).enemies.entries().remove(
                            i)) && final(self).items.entries() =~= old(
                        self).items.entries().push(
                        (old(self).items.spec_next_id(), Item {
                            pos: Pos { x: tx as i32, y: ty as i32 },
                            item_type: ItemType::DeadGin,
                        }),
                    ))
                })
            },
            // opening toward a direction opens the closed door there
            (old(self).active_interaction is Open) ==> {
                &&& final(self).active_interaction is Walking
                &&& final(self).status_text is None
                &&& final(self).char_pos == old(self).char_pos
                &&& final(self).items == old(self).items
                &&& final(self).enemies == old(self).enemies
                &&& final(self).inventory == old(self).inventory
                &&& final(self).game_map.spec_width() == old(self).game_map.spec_width()
                &&& final(self).game_map.spec_height() == old(self).game_map.spec_height()
                &&& (forall|i: int, j: int|
                    old(self).game_map.in_bounds(i, j) ==> #[trigger] final(
                        self).game_map.spec_fog(i, j) == old(self).game_map.spec_fog(i, j))
                &&& (spec_key_dir(key) is None ==> final(self).game_map == old(self).game_map)
                &&& (spec_key_dir(key) matches Some(d) ==> {
                    let tx = old(self).char_pos.x + d.x;
                    let ty = old(self).char_pos.y + d.y;
                    &&& (old(self).game_map.in_bounds(tx, ty) && old(self).game_map.spec_tile(
                        tx,
                        ty,
                    ) == (Tile::Door { is_open: false }) ==> final(self).game_map.spec_tile(
                        tx,
                        ty,
                    ) == (Tile::Door { is_open: true }) && !final(self).game_map.spec_blocked_at(
                        tx,
                        ty,
                    ))
                    &&& (forall|i: int, j: int|
                        old(self).game_map.in_bounds(i, j) && (i != tx || j != ty)
                            ==> #[trigger] final(self).game_map.spec_tile(i, j) == old(
                            self).game_map.spec_tile(i, j))
                })
            },
    {
        proof {
            self.game_map.lemma_wf_dims();
        }
        let mode: u8 = match &self.active_interaction {
            Interaction::Walking => 0,
            Interaction::Take { .. } => 1,
            Interaction::Inventory => 2,
            Interaction::Drink => 3,
            Interaction::Open => 4,
        };
        if mode == 0 {
            match map_key_to_dir(key) {
                Some(move_dir) => {
                    self.move_player(move_dir, rng);
                },
                None => {
                    match key {
                        Key::Char(116) => {
                            let available_items = self.items_here();
                            if available_items.len() > 0 {
                                self.active_interaction = Interaction::Take {
                                    available_items,
                                };
                            }
                        },
                        Key::Char(105) => {
                            self.active_interaction = Interaction::Inventory;
                        },
                        Key::Char(100) => {
                            self.active_interaction = Interaction::Drink;
                            self.status_text = Some("select drink direction".to_string());
                        },
                        Key::Char(111) => {
                            self.active_interaction = Interaction::Open;
                            self.status_text = Some("select open direction".to_string());
                        },
                        _ => {},
                    }
                },
            }
        } else if mode == 1 {
            match (&self.active_interaction, key) {
                (Interaction::Take { .. }, Key::Escape) => {
                    self.active_interaction = Interaction::Walking;
                },
                (Interaction::Take { available_items }, Key::Char(c)) => {
                    proof {
                        assert(key == Key::Char(c));
                    }
                    if 97 <= c && ((c - 97) as usize) < available_items.len() {
                        let (item_id, item_type) = available_items[(c - 97) as usize];
                        self.inventory.push(item_type);
                        self.items.remove(item_id);
                        self.active_interaction = Interaction::Walking;
                    }
                },
                _ => {},
            }
        } else if mode == 2 {
            self.active_interaction = Interaction::Walking;
        } else if mode == 3 {
            match map_key_to_dir(key) {
                Some(drink_dir) => {
                    let target = Pos {
                        x: self.char_pos.x + drink_dir.x,
                        y: self.char_pos.y + drink_dir.y,
                    };
                    let n = self.enemies.len();
                    let mut found: Option<EnemyId> = None;
                    let mut k: usize = 0;
                    while k < n
                        invariant
                            k <= n,
                            n == self.enemies.entries().len(),
                            match found {
                                None => forall|i: int|
                                    0 <= i < k ==> !((#[trigger] self.enemies.entries()[
                                    i]).1.pos.x == target.x && self.enemies.entries()[
                                    i].1.pos.y == target.y),
                                Some(id) => exists|i: int|
                                    0 <= i < self.enemies.entries().len()
                                        && (#[trigger] self.enemies.entries()[i]).0 == id
                                        && self.enemies.entries()[i].1.pos.x == target.x
                                        && self.enemies.entries()[i].1.pos.y == target.y,
                            },
                        decreases n - k,
                    {
                        let (id, enemy) = self.enemies.entry_at(k);
                        if enemy.pos.x == target.x && enemy.pos.y == target.y {
                            found = Some(id);
                            k = n;
                        } else {
                            k = k + 1;
                        }
                    }
                    match found {
                        Some(gin_id) => {
                            if self.items.has_capacity() {
                                self.enemies.remove(gin_id);
                                self.items.insert(
                                    Item { pos: target, item_type: ItemType::DeadGin },
                                );
                            }
                        },
                        None => {},
                    }
                },
                None => {},
            }
            self.active_interaction = Interaction::Walking;
            self.status_text = None;
        } else {
            match map_key_to_dir(key) {
                Some(open_dir) => {
                    let target = Pos {
                        x: self.char_pos.x + open_dir.x,
                        y: self.char_pos.y + open_dir.y,
                    };
                    self.open_door_at(target);
                },
                None => {},
            }
            self.active_interaction = Interaction::Walking;
            self.status_text = None;
        }
    }

}

} // verus!
