//! Items and enemies: positioned entities living on the dungeon grid.

use vstd::prelude::*;
use crate::geom::Pos;

verus! {

#[derive(Copy, Clone, PartialEq, Eq, Structural, Debug)]
pub enum ItemType {
    Cherry,
    Coin,
    DeadGin,
}

#[derive(Copy, Clone, PartialEq, Eq, Structural, Debug)]
pub enum EnemyType {
    Gin,
}

#[derive(Copy, Clone, PartialEq, Eq, Structural, Debug)]
pub struct Item {
    pub pos: Pos,
    pub item_type: ItemType,
}

#[derive(Copy, Clone, PartialEq, Eq, Structural, Debug)]
pub struct Enemy {
    pub pos: Pos,
    pub enemy_type: EnemyType,
}

pub type ItemId = u32;

pub type EnemyId = u32;

impl ItemType {
    /// The sprite name a render layer shows for this item.
    pub fn name(&self) -> (r: &'static str)
        ensures
            *self is Cherry ==> r@ == "cherry"@,
            *self is Coin ==> r@ == "coin"@,
            *self is DeadGin ==> r@ == "dead gin"@,
    {
        match self {
            ItemType::Cherry => "cherry",
            ItemType::Coin => "coin",
            ItemType::DeadGin => "dead gin",
        }
    }
}

impl EnemyType {
    /// The sprite name a render layer shows for this enemy.
    pub fn name(&self) -> (r: &'static str)
        ensures
            r@ == "gin"@,
    {
        match self {
            EnemyType::Gin => "gin",
        }
    }
}

} // verus!
