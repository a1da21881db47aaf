use cherry_rogue::entity::EnemyType;
use cherry_rogue::entity::ItemType;
use cherry_rogue::grid::Arr2d;
use cherry_rogue::hash::hash;
use cherry_rogue::hash::hash_v2;
use cherry_rogue::incmap::IncMap;
use cherry_rogue::names::sprite;
use cherry_rogue::names::sprite_sheet;
use cherry_rogue::names::surface;

#[test]
fn arr2d_new_fills_with_default() {
    let grid: Arr2d<u8> = Arr2d::new(3, 2, 7);
    assert_eq!(grid.width(), 3);
    assert_eq!(grid.height(), 2);
    for x in 0..3 {
        for y in 0..2 {
            assert_eq!(grid.get(x, y), Some(&7));
        }
    }
    for d in grid.data() {
        assert_eq!(*d, 7);
    }
}

#[test]
fn arr2d_get_rejects_out_of_bounds() {
    let grid: Arr2d<u8> = Arr2d::new(3, 2, 0);
    assert_eq!(grid.get(-1, 0), None);
    assert_eq!(grid.get(0, -1), None);
    assert_eq!(grid.get(3, 0), None);
    assert_eq!(grid.get(0, 2), None);
    assert_eq!(grid.get(1000, 1000), None);
}

#[test]
fn arr2d_empty_grid_has_no_cells() {
    let grid: Arr2d<u8> = Arr2d::new(0, 0, 1);
    assert_eq!(grid.get(0, 0), None);
    assert_eq!(grid.data().len(), 0);
}

#[test]
fn arr2d_set_and_get_roundtrip() {
    let mut grid: Arr2d<u32> = Arr2d::new(4, 4, 0);
    grid.set(2, 3, 99);
    assert_eq!(grid.get(2, 3), Some(&99));
    assert_eq!(grid.get(3, 2), Some(&0));
    assert_eq!(*grid.get_unsafe(2, 3), 99);
}

#[test]
fn arr2d_get_mut_updates_one_cell() {
    let mut grid: Arr2d<u32> = Arr2d::new(4, 4, 0);
    if let Some(cell) = grid.get_mut(1, 1) {
        *cell = 5;
    }
    assert_eq!(grid.get(1, 1), Some(&5));
    assert_eq!(grid.get(0, 1), Some(&0));
    assert!(grid.get_mut(-1, 0).is_none());
    *grid.get_mut_unsafe(0, 0) = 8;
    assert_eq!(grid.get(0, 0), Some(&8));
}

#[test]
fn arr2d_set_from_function_fills_by_coordinate() {
    let mut grid: Arr2d<i32> = Arr2d::new(3, 3, 0);
    grid.set_from_function(|x: i32, y: i32| x + 10 * y);
    assert_eq!(grid.get(0, 0), Some(&0));
    assert_eq!(grid.get(2, 1), Some(&12));
    assert_eq!(grid.get(1, 2), Some(&21));
}

#[test]
fn arr2d_update_applies_everywhere() {
    let mut grid: Arr2d<i32> = Arr2d::new(3, 2, 4);
    grid.set(1, 1, 10);
    grid.update(|v: i32| v + 1);
    assert_eq!(grid.get(0, 0), Some(&5));
    assert_eq!(grid.get(1, 1), Some(&11));
    assert_eq!(grid.get(2, 1), Some(&5));
}

#[test]
fn incmap_insert_get_remove() {
    let mut store: IncMap<u8> = IncMap::new();
    assert_eq!(store.len(), 0);
    store.insert(10);
    store.insert(20);
    store.insert(30);
    assert_eq!(store.len(), 3);
    assert_eq!(store.get(0), Some(&10));
    assert_eq!(store.get(1), Some(&20));
    assert_eq!(store.get(2), Some(&30));
    assert_eq!(store.get(3), None);
    store.remove(1);
    assert_eq!(store.len(), 2);
    assert_eq!(store.get(1), None);
    assert_eq!(store.get(0), Some(&10));
    assert_eq!(store.get(2), Some(&30));
}

#[test]
fn incmap_identifiers_are_never_reused() {
    let mut store: IncMap<u8> = IncMap::new();
    store.insert(1);
    store.insert(2);
    store.remove(1);
    store.insert(3);
    // the freed identifier 1 is not handed out again
    assert_eq!(store.get(1), None);
    assert_eq!(store.get(2), Some(&3));
    assert_eq!(store.entry_at(0), (0, 1));
    assert_eq!(store.entry_at(1), (2, 3));
    assert!(store.has_capacity());
}

#[test]
fn incmap_get_mut_changes_value_in_place() {
    let mut store: IncMap<u8> = IncMap::new();
    store.insert(1);
    if let Some(v) = store.get_mut(0) {
        *v = 42;
    }
    assert_eq!(store.get(0), Some(&42));
    assert!(store.get_mut(9).is_none());
}

#[test]
fn hash_matches_known_values() {
    assert_eq!(hash(0), 3232319850);
    assert_eq!(hash(1), 663891101);
    assert_eq!(hash(12345), 232713235);
    assert_eq!(hash(0xffffffff), 1895078355);
}

#[test]
fn hash_v2_folds_both_coordinates() {
    assert_eq!(hash_v2(3, 7), 2270155856);
    assert_eq!(hash_v2(3, 7), hash(3 ^ (7 << 16)));
    assert_ne!(hash_v2(3, 7), hash_v2(7, 3));
}

#[test]
fn asset_names_keep_their_text() {
    assert_eq!(surface("backdrop").0, "backdrop");
    assert_eq!(sprite_sheet("font").0, "font");
    assert_eq!(sprite("wall").0, "wall");
}

#[test]
fn entity_type_names() {
    assert_eq!(ItemType::Cherry.name(), "cherry");
    assert_eq!(ItemType::Coin.name(), "coin");
    assert_eq!(ItemType::DeadGin.name(), "dead gin");
    assert_eq!(EnemyType::Gin.name(), "gin");
}
