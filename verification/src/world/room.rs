//! A single room: its tile grid, enemies, items, and the encounter
//! populator that fills it from a day's records.

use vstd::prelude::*;
use crate::entity::{Enemy, EnemyType, spec_base_hp, spec_base_damage};
use crate::item::{Item, ItemEffect, ItemType, Rarity, Stat, calculate_rarity, spec_rarity};
use crate::records::{CommitData, spec_lines_changed};
use crate::rng::rng_below;
use crate::text::{spec_text_contains_ci, text_contains_ci};
use crate::tile::{Tile, spec_walkable};
use super::types::RoomType;

verus! {

/// A single room in the dungeon.
#[derive(Debug)]
pub struct Room {
    pub id: usize,
    pub tiles: Vec<Vec<Tile>>,
    pub width: u8,
    pub height: u8,
    pub enemies: Vec<Enemy>,
    pub items: Vec<Item>,
    /// Day number of the source date (days since the Common Era).
    pub source_day: i32,
    pub source_commits: Vec<CommitData>,
    pub room_type: RoomType,
    pub cleared: bool,
}

/// The tile grid matches the declared dimensions: one row per unit of
/// height, each row one tile per unit of width.
pub open spec fn spec_room_wf(room: Room) -> bool {
    &&& room.tiles@.len() == room.height as int
    &&& forall|y: int| 0 <= y < room.height as int
        ==> (#[trigger] room.tiles@[y])@.len() == room.width as int
}

/// The tile at (x, y); meaningful only in bounds.
pub open spec fn spec_tile_at(room: Room, x: int, y: int) -> Tile {
    room.tiles@[y]@[x]
}

/// (x, y) lies inside the room's grid.
pub open spec fn spec_in_bounds(room: Room, x: int, y: int) -> bool {
    0 <= x < room.width as int && 0 <= y < room.height as int
}

/// (x, y) is in bounds and its tile is walkable.
pub open spec fn spec_walkable_at(room: Room, x: int, y: int) -> bool {
    spec_in_bounds(room, x, y) && spec_walkable(spec_tile_at(room, x, y))
}

/// Some enemy stands at (x, y).
pub open spec fn spec_has_enemy_at(s: Seq<Enemy>, x: int, y: int) -> bool {
    exists|k: int| 0 <= k < s.len() && (#[trigger] s[k]).x == x && s[k].y == y
}

/// Some item lies at (x, y).
pub open spec fn spec_has_item_at(s: Seq<Item>, x: int, y: int) -> bool {
    exists|k: int| 0 <= k < s.len() && (#[trigger] s[k]).x == x && s[k].y == y
}

impl Room {
    /// Create a new room filled with floor tiles, with no enemies or items.
    pub fn new(id: usize, width: u8, height: u8, room_type: RoomType, day: i32) -> (room: Room)
        ensures
            spec_room_wf(room),
            room.id == id,
            room.width == width && room.height == height,
            room.room_type == room_type,
            room.source_day == day,
            room.enemies@.len() == 0 && room.items@.len() == 0,
            room.source_commits@.len() == 0,
            !room.cleared,
            forall|x: int, y: int| spec_in_bounds(room, x, y)
                ==> spec_tile_at(room, x, y) == Tile::Floor,
    {
        let mut tiles: Vec<Vec<Tile>> = Vec::new();
        let mut y: usize = 0;
        while y < height as usize
            invariant
                0 <= y <= height as usize,
                tiles@.len() == y,
                forall|yy: int| 0 <= yy < y ==> (#[trigger] tiles@[yy])@.len() == width as int,
                forall|yy: int, xx: int| #![trigger tiles@[yy]@[xx]]
                    0 <= yy < y && 0 <= xx < width as int
                    ==> tiles@[yy]@[xx] == Tile::Floor,
            decreases height as usize - y,
        {
            let mut row: Vec<Tile> = Vec::new();
            let mut x: usize = 0;
            while x < width as usize
                invariant
                    0 <= x <= width as usize,
                    row@.len() == x,
                    forall|xx: int| 0 <= xx < x ==> row@[xx] == Tile::Floor,
                decreases width as usize - x,
            {
                row.push(Tile::Floor);
                x += 1;
            }
            tiles.push(row);
            y += 1;
        }
        Room {
            id,
            tiles,
            width,
            height,
            enemies: Vec::new(),
            items: Vec::new(),
            source_day: day,
            source_commits: Vec::new(),
            room_type,
            cleared: false,
        }
    }

    /// Check if a position is walkable; out-of-range positions are not.
    pub fn is_walkable(&self, x: i32, y: i32) -> (r: bool)
        requires
            spec_room_wf(*self),
        ensures
            r == spec_walkable_at(*self, x as int, y as int),
    {
        if x < 0 || y < 0 {
            return false;
        }
        let ux = x as usize;
        let uy = y as usize;
        if ux >= self.width as usize || uy >= self.height as usize {
            return false;
        }
        self.tiles[uy][ux].is_walkable()
    }

    /// Get the tile at a position; out-of-range positions yield nothing.
    pub fn get_tile(&self, x: i32, y: i32) -> (r: Option<&Tile>)
        requires
            spec_room_wf(*self),
        ensures
            spec_in_bounds(*self, x as int, y as int)
                ==> (r matches Some(t) && *t == spec_tile_at(*self, x as int, y as int)),
            !spec_in_bounds(*self, x as int, y as int) ==> r is None,
    {
        if x < 0 || y < 0 {
            return None;
        }
        let ux = x as usize;
        let uy = y as usize;
        if ux >= self.width as usize || uy >= self.height as usize {
            return None;
        }
        Some(&self.tiles[uy][ux])
    }

    /// Set the tile at a position; out-of-range positions are ignored.
    pub fn set_tile(&mut self, x: i32, y: i32, tile: Tile)
        requires
            spec_room_wf(*old(self)),
        ensures
            spec_room_wf(*final(self)),
            spec_in_bounds(*old(self), x as int, y as int) ==> {
                &&& spec_tile_at(*final(self), x as int, y as int) == tile
                &&& forall|xx: int, yy: int| spec_in_bounds(*old(self), xx, yy)
                    && (xx != x as int || yy != y as int)
                    ==> spec_tile_at(*final(self), xx, yy) == spec_tile_at(*old(self), xx, yy)
                &&& *final(self) == (Room { tiles: final(self).tiles, ..*old(self) })
            },
            !spec_in_bounds(*old(self), x as int, y as int) ==> *final(self) == *old(self),
    {
        if x >= 0 && y >= 0 {
            let ux = x as usize;
            let uy = y as usize;
            if uy < self.height as usize && ux < self.width as usize {
                self.tiles[uy][ux] = tile;
            }
        }
    }

    /// Get the enemy occupying a position, if any.
    pub fn get_enemy_at(&self, x: i32, y: i32) -> (r: Option<&Enemy>)
        ensures
            r matches Some(e) ==> e.x == x && e.y == y && self.enemies@.contains(*e),
            r is None ==> !spec_has_enemy_at(self.enemies@, x as int, y as int),
    {
        let n = self.enemies.len();
        let mut k: usize = 0;
        while k < n
            invariant
                n == self.enemies@.len(),
                0 <= k <= n,
                forall|a: int| 0 <= a < k
                    ==> !((#[trigger] self.enemies@[a]).x == x && self.enemies@[a].y == y),
            decreases n - k,
        {
            if self.enemies[k].x == x && self.enemies[k].y == y {
                return Some(&self.enemies[k]);
            }
            k += 1;
        }
        None
    }

    /// Get the item lying at a position, if any.
    pub fn get_item_at(&self, x: i32, y: i32) -> (r: Option<&Item>)
        ensures
            r matches Some(it) ==> it.x == x && it.y == y && self.items@.contains(*it),
            r is None ==> !spec_has_item_at(self.items@, x as int, y as int),
    {
        let n = self.items.len();
        let mut k: usize = 0;
        while k < n
            invariant
                n == self.items@.len(),
                0 <= k <= n,
                forall|a: int| 0 <= a < k
                    ==> !((#[trigger] self.items@[a]).x == x && self.items@[a].y == y),
            decreases n - k,
        {
            if self.items[k].x == x && self.items[k].y == y {
                return Some(&self.items[k]);
            }
            k += 1;
        }
        None
    }

    /// A room counts as cleared when no enemies remain or the cleared flag
    /// was set.
    pub fn is_cleared(&self) -> (r: bool)
        ensures
            r == (self.enemies@.len() == 0 || self.cleared),
    {
        self.enemies.is_empty() || self.cleared
    }
}

/// (x, y) is an interior walkable position of the given grid, free of the
/// given enemies and items.
pub open spec fn spec_interior_free_of(
    tiles: Seq<Vec<Tile>>,
    w: int,
    h: int,
    enemies: Seq<Enemy>,
    items: Seq<Item>,
    x: int,
    y: int,
) -> bool {
    &&& 1 <= x < w - 1
    &&& 1 <= y < h - 1
    &&& spec_walkable(tiles[y]@[x])
    &&& !spec_has_enemy_at(enemies, x, y)
    &&& !spec_has_item_at(items, x, y)
}

/// (x, y) is an interior walkable position free of enemies and items.
pub open spec fn spec_interior_free(room: Room, x: int, y: int) -> bool {
    spec_interior_free_of(room.tiles@, room.width as int, room.height as int,
        room.enemies@, room.items@, x, y)
}

/// The free positions of row `y` from column `x` on, in ascending column
/// order.
pub open spec fn spec_free_row_of(
    tiles: Seq<Vec<Tile>>,
    w: int,
    h: int,
    enemies: Seq<Enemy>,
    items: Seq<Item>,
    y: int,
    x: int,
) -> Seq<(i32, i32)>
    decreases w - x,
{
    if x >= w - 1 || x < 0 {
        Seq::empty()
    } else {
        (if spec_interior_free_of(tiles, w, h, enemies, items, x, y) {
            seq![(x as i32, y as i32)]
        } else {
            Seq::empty()
        }) + spec_free_row_of(tiles, w, h, enemies, items, y, x + 1)
    }
}

/// The free positions of the rows from `y` down, in row-major order.
pub open spec fn spec_free_rows_of(
    tiles: Seq<Vec<Tile>>,
    w: int,
    h: int,
    enemies: Seq<Enemy>,
    items: Seq<Item>,
    y: int,
) -> Seq<(i32, i32)>
    decreases h - y,
{
    if y >= h - 1 || y < 0 {
        Seq::empty()
    } else {
        spec_free_row_of(tiles, w, h, enemies, items, y, 1)
            + spec_free_rows_of(tiles, w, h, enemies, items, y + 1)
    }
}

/// All interior walkable positions of a grid free of the given enemies and
/// items, in row-major order.
pub open spec fn spec_free_positions_of(
    tiles: Seq<Vec<Tile>>,
    w: int,
    h: int,
    enemies: Seq<Enemy>,
    items: Seq<Item>,
) -> Seq<(i32, i32)> {
    spec_free_rows_of(tiles, w, h, enemies, items, 1)
}

/// The free positions of row `y` from column `x` on (room form).
pub open spec fn spec_free_row(room: Room, y: int, x: int) -> Seq<(i32, i32)> {
    spec_free_row_of(room.tiles@, room.width as int, room.height as int,
        room.enemies@, room.items@, y, x)
}

/// The free positions of the rows from `y` down (room form).
pub open spec fn spec_free_rows(room: Room, y: int) -> Seq<(i32, i32)> {
    spec_free_rows_of(room.tiles@, room.width as int, room.height as int,
        room.enemies@, room.items@, y)
}

/// All interior walkable positions free of enemies and items, in row-major
/// order.
pub open spec fn spec_free_positions(room: Room) -> Seq<(i32, i32)> {
    spec_free_rows(room, 1)
}

proof fn lemma_free_row_props(room: Room, y: int, x: int)
    requires
        0 <= x,
        0 <= y < 256,
    ensures
        forall|i: int| 0 <= i < spec_free_row(room, y, x).len()
            ==> ((#[trigger] spec_free_row(room, y, x)[i]).1 == y
                && x <= spec_free_row(room, y, x)[i].0 < room.width as int - 1
                && spec_interior_free(room, spec_free_row(room, y, x)[i].0 as int,
                    spec_free_row(room, y, x)[i].1 as int)),
        forall|i: int, j: int| 0 <= i < j < spec_free_row(room, y, x).len()
            ==> (#[trigger] spec_free_row(room, y, x)[i]).0
                < (#[trigger] spec_free_row(room, y, x)[j]).0,
    decreases room.width as int - x,
{
    if x >= room.width as int - 1 {
    } else {
        lemma_free_row_props(room, y, x + 1);
        let s = spec_free_row(room, y, x);
        let rest = spec_free_row(room, y, x + 1);
        if spec_interior_free(room, x, y) {
            assert(s == seq![(x as i32, y as i32)] + rest);
            assert(s[0] == (x as i32, y as i32));
            assert(s[0].0 == x && s[0].1 == y);
            assert(forall|i: int| 1 <= i < s.len() ==> #[trigger] s[i] == rest[i - 1]);
        } else {
            assert(s == Seq::<(i32, i32)>::empty() + rest);
            assert(forall|i: int| 0 <= i < s.len() ==> #[trigger] s[i] == rest[i]);
        }
    }
}

proof fn lemma_free_rows_props(room: Room, y: int)
    requires
        0 <= y,
        room.height as int <= 256,
    ensures
        forall|i: int| 0 <= i < spec_free_rows(room, y).len()
            ==> (y <= (#[trigger] spec_free_rows(room, y)[i]).1 < room.height as int - 1
                && spec_interior_free(room, spec_free_rows(room, y)[i].0 as int,
                    spec_free_rows(room, y)[i].1 as int)),
        spec_free_rows(room, y).no_duplicates(),
    decreases room.height as int - y,
{
    if y >= room.height as int - 1 {
    } else {
        lemma_free_row_props(room, y, 1);
        lemma_free_rows_props(room, y + 1);
        let row = spec_free_row(room, y, 1);
        let rest = spec_free_rows(room, y + 1);
        let whole = spec_free_rows(room, y);
        assert(whole == row + rest);
        assert forall|i: int, j: int| 0 <= i < j < whole.len()
            implies whole[i] != whole[j] by {
            if i < row.len() && j < row.len() {
                assert(whole[i] == row[i] && whole[j] == row[j]);
                assert(row[i].0 < row[j].0);
            } else if i < row.len() {
                assert(whole[i] == row[i] && whole[j] == rest[j - row.len()]);
                assert(row[i].1 == y && rest[j - row.len()].1 > y);
            } else {
                assert(whole[i] == rest[i - row.len()] && whole[j] == rest[j - row.len()]);
            }
        }
    }
}

/// `spec_free_positions` lists exactly the interior free positions, each
/// once.
pub proof fn lemma_free_positions_props(room: Room)
    requires
        room.height as int <= 256,
    ensures
        forall|i: int| 0 <= i < spec_free_positions(room).len()
            ==> spec_interior_free(room, (#[trigger] spec_free_positions(room)[i]).0 as int,
                spec_free_positions(room)[i].1 as int),
        spec_free_positions(room).no_duplicates(),
{
    lemma_free_rows_props(room, 1);
}

/// The number of enemies a room takes: the record count, capped by a
/// quarter of the room area and by 10.
pub open spec fn spec_enemy_cap(n_records: int, width: int, height: int) -> int {
    let by_area = (width * height) / 4;
    let c = if n_records <= by_area { n_records } else { by_area };
    if c <= 10 { c } else { 10 }
}

/// The enemy type a record produces: a special (merge) record makes a
/// MergeConflict; a revert/rollback message makes a Regression; a
/// debt/refactor/cleanup message, or a magnitude of at least 20, makes
/// TechDebt; anything smaller makes a Bug.
pub open spec fn spec_enemy_type_for(c: CommitData) -> EnemyType {
    if c.is_merge {
        EnemyType::MergeConflict
    } else if spec_text_contains_ci(c.message@, "revert"@)
        || spec_text_contains_ci(c.message@, "rollback"@) {
        EnemyType::Regression
    } else if spec_text_contains_ci(c.message@, "debt"@)
        || spec_text_contains_ci(c.message@, "refactor"@)
        || spec_text_contains_ci(c.message@, "cleanup"@) {
        EnemyType::TechDebt
    } else if spec_lines_changed(c) < 20 {
        EnemyType::Bug
    } else {
        EnemyType::TechDebt
    }
}

/// A freshly spawned enemy for record `c`: the type's base stats, the
/// record's hash, no turns survived.
pub open spec fn spec_spawned_enemy(e: Enemy, c: CommitData) -> bool {
    &&& e.enemy_type == spec_enemy_type_for(c)
    &&& e.hp == spec_base_hp(e.enemy_type) && e.max_hp == e.hp
    &&& e.damage == spec_base_damage(e.enemy_type)
    &&& e.source_commit@ == c.hash@
    &&& e.turns_alive == 0
}

fn enemy_type_from_commit(commit: &CommitData) -> (t: EnemyType)
    ensures
        t == spec_enemy_type_for(*commit),
{
    if commit.is_merge {
        return EnemyType::MergeConflict;
    }
    let msg = commit.message.as_str();
    if text_contains_ci(msg, "revert") || text_contains_ci(msg, "rollback") {
        return EnemyType::Regression;
    }
    if text_contains_ci(msg, "debt") || text_contains_ci(msg, "refactor")
        || text_contains_ci(msg, "cleanup") {
        return EnemyType::TechDebt;
    }
    if commit.lines_changed() < 20 {
        return EnemyType::Bug;
    }
    EnemyType::TechDebt
}

/// The item a record produces: doc/readme messages give a map scroll,
/// test messages a healing potion, config/setting messages a focus buff,
/// anything else an energy vial; amounts scale with rarity.
pub open spec fn spec_item_effect_for(c: CommitData) -> ItemEffect {
    let r = spec_rarity(spec_lines_changed(c));
    if spec_text_contains_ci(c.message@, "doc"@)
        || spec_text_contains_ci(c.message@, "readme"@) {
        ItemEffect::RevealMap
    } else if spec_text_contains_ci(c.message@, "test"@) {
        ItemEffect::Heal(match r {
            Rarity::Common => 10,
            Rarity::Uncommon => 20,
            Rarity::Rare => 35,
            Rarity::Legendary => 50,
        })
    } else if spec_text_contains_ci(c.message@, "config"@)
        || spec_text_contains_ci(c.message@, "setting"@) {
        ItemEffect::Buff(Stat::Focus, match r {
            Rarity::Common => 2,
            Rarity::Uncommon => 4,
            Rarity::Rare => 6,
            Rarity::Legendary => 10,
        }, 5)
    } else {
        ItemEffect::RestoreEnergy(match r {
            Rarity::Common => 5,
            Rarity::Uncommon => 10,
            Rarity::Rare => 20,
            Rarity::Legendary => 30,
        })
    }
}

/// The name of the item a record produces.
pub open spec fn spec_item_name_for(c: CommitData) -> Seq<char> {
    if spec_text_contains_ci(c.message@, "doc"@)
        || spec_text_contains_ci(c.message@, "readme"@) {
        "Map Scroll"@
    } else if spec_text_contains_ci(c.message@, "test"@) {
        "Health Potion"@
    } else if spec_text_contains_ci(c.message@, "config"@)
        || spec_text_contains_ci(c.message@, "setting"@) {
        "Focus Crystal"@
    } else {
        "Energy Vial"@
    }
}

/// The item type a record produces: a scroll for doc records, a consumable
/// otherwise.
pub open spec fn spec_item_type_for(c: CommitData) -> ItemType {
    if spec_text_contains_ci(c.message@, "doc"@)
        || spec_text_contains_ci(c.message@, "readme"@) {
        ItemType::Scroll
    } else {
        ItemType::Consumable
    }
}

/// A freshly spawned item for record `c`.
pub open spec fn spec_spawned_item(it: Item, c: CommitData) -> bool {
    &&& it.name@ == spec_item_name_for(c)
    &&& it.item_type == spec_item_type_for(c)
    &&& it.effect == spec_item_effect_for(c)
    &&& it.rarity == spec_rarity(spec_lines_changed(c))
    &&& (it.source_commit matches Some(h) && h@ == c.hash@)
}

fn item_from_commit(commit: &CommitData) -> (item: Item)
    ensures
        spec_spawned_item(item, *commit),
        item.x == 0 && item.y == 0,
{
    let msg = commit.message.as_str();
    let rarity = calculate_rarity(commit.lines_changed());

    let built = if text_contains_ci(msg, "doc") || text_contains_ci(msg, "readme") {
        Item::new("Map Scroll", ItemType::Scroll, ItemEffect::RevealMap, rarity)
    } else if text_contains_ci(msg, "test") {
        let heal: i32 = match rarity {
            Rarity::Common => 10,
            Rarity::Uncommon => 20,
            Rarity::Rare => 35,
            Rarity::Legendary => 50,
        };
        Item::new("Health Potion", ItemType::Consumable, ItemEffect::Heal(heal), rarity)
    } else if text_contains_ci(msg, "config") || text_contains_ci(msg, "setting") {
        let amount: i32 = match rarity {
            Rarity::Common => 2,
            Rarity::Uncommon => 4,
            Rarity::Rare => 6,
            Rarity::Legendary => 10,
        };
        Item::new("Focus Crystal", ItemType::Consumable,
            ItemEffect::Buff(Stat::Focus, amount, 5), rarity)
    } else {
        let energy: i32 = match rarity {
            Rarity::Common => 5,
            Rarity::Uncommon => 10,
            Rarity::Rare => 20,
            Rarity::Legendary => 30,
        };
        Item::new("Energy Vial", ItemType::Consumable, ItemEffect::RestoreEnergy(energy), rarity)
    };
    built.from_commit(commit.hash.as_str())
}

impl Room {
    fn get_free_positions(&self) -> (positions: Vec<(i32, i32)>)
        requires
            spec_room_wf(*self),
        ensures
            positions@ == spec_free_positions(*self),
    {
        let w = self.width as i32;
        let h = self.height as i32;
        let mut positions: Vec<(i32, i32)> = Vec::new();
        let mut y: i32 = 1;
        while y < h - 1
            invariant
                spec_room_wf(*self),
                w == self.width as int,
                h == self.height as int,
                1 <= y,
                y <= (if h - 1 >= 1 { h - 1 } else { 1 }),
                spec_free_positions(*self)
                    == positions@ + spec_free_rows(*self, y as int),
            decreases h - y,
        {
            let ghost outer0 = positions@;
            let mut x: i32 = 1;
            proof {
                assert(spec_free_rows(*self, y as int)
                    == spec_free_row(*self, y as int, 1) + spec_free_rows(*self, y + 1));
            }
            while x < w - 1
                invariant
                    spec_room_wf(*self),
                    w == self.width as int,
                    h == self.height as int,
                    1 <= y < h - 1,
                    1 <= x,
                    x <= (if w - 1 >= 1 { w - 1 } else { 1 }),
                    spec_free_positions(*self)
                        == positions@ + spec_free_row(*self, y as int, x as int)
                            + spec_free_rows(*self, y + 1),
                decreases w - x,
            {
                let ghost pos0 = positions@;
                let walk = self.is_walkable(x, y);
                let enemy_here = self.get_enemy_at(x, y);
                let item_here = self.get_item_at(x, y);
                let free = walk && enemy_here.is_none() && item_here.is_none();
                proof {
                    if free {
                        assert(!spec_has_enemy_at(self.enemies@, x as int, y as int));
                        assert(!spec_has_item_at(self.items@, x as int, y as int));
                        assert(spec_interior_free(*self, x as int, y as int));
                    } else {
                        if walk {
                            match enemy_here {
                                Some(e) => {
                                    let k = choose|k: int| 0 <= k < self.enemies@.len()
                                        && self.enemies@[k] == *e;
                                    assert(spec_has_enemy_at(self.enemies@, x as int, y as int));
                                }
                                None => {
                                    match item_here {
                                        Some(it) => {
                                            let k = choose|k: int| 0 <= k < self.items@.len()
                                                && self.items@[k] == *it;
                                            assert(spec_has_item_at(self.items@,
                                                x as int, y as int));
                                        }
                                        None => {}
                                    }
                                }
                            }
                        }
                        assert(!spec_interior_free(*self, x as int, y as int));
                    }
                    assert(spec_free_row(*self, y as int, x as int)
                        == (if spec_interior_free(*self, x as int, y as int) {
                            seq![(x, y)]
                        } else {
                            Seq::empty()
                        }) + spec_free_row(*self, y as int, x + 1));
                }
                if free {
                    positions.push((x, y));
                    proof {
                        assert(positions@ + spec_free_row(*self, y as int, x + 1)
                            =~= pos0 + spec_free_row(*self, y as int, x as int));
                    }
                } else {
                    proof {
                        assert(positions@ + spec_free_row(*self, y as int, x + 1)
                            =~= pos0 + spec_free_row(*self, y as int, x as int));
                    }
                }
                x += 1;
            }
            proof {
                assert(spec_free_row(*self, y as int, x as int) =~= Seq::<(i32, i32)>::empty());
                assert(positions@ + spec_free_row(*self, y as int, x as int)
                        + spec_free_rows(*self, y + 1)
                    =~= positions@ + spec_free_rows(*self, y + 1));
            }
            y += 1;
        }
        proof {
            assert(spec_free_rows(*self, y as int) =~= Seq::<(i32, i32)>::empty());
            assert(positions@ + spec_free_rows(*self, y as int) =~= positions@);
        }
        positions
    }
}

/// How many entities a populator pass adds: the intended count, limited by
/// the free positions available.
pub open spec fn spec_capped(count: int, free: int) -> int {
    if count <= free { count } else { free }
}

/// What an enemy-spawning pass leaves behind: the old enemies kept in
/// place, followed by one fresh enemy per record taken, each on its own
/// interior free position of the room as it stood before the pass.
pub open spec fn spec_enemies_spawned(before: Room, after: Seq<Enemy>, commits: Seq<CommitData>) -> bool {
    let old_n = before.enemies@.len() as int;
    let appended = after.skip(old_n);
    &&& after.len() == old_n + spec_capped(
        spec_enemy_cap(commits.len() as int, before.width as int, before.height as int),
        spec_free_positions(before).len() as int,
    )
    &&& after.take(old_n) == before.enemies@
    &&& forall|j: int| 0 <= j < appended.len()
        ==> spec_spawned_enemy(#[trigger] appended[j], commits[j])
            && spec_interior_free(before, appended[j].x as int, appended[j].y as int)
    &&& forall|a: int, b: int| 0 <= a < b < appended.len()
        ==> !((#[trigger] appended[a]).x == (#[trigger] appended[b]).x
            && appended[a].y == appended[b].y)
}

impl Room {
    /// Spawn enemies from the day's records: one per record, up to a
    /// quarter of the room area and at most 10, each of the type its
    /// record dictates, on a uniformly drawn free interior position (no
    /// two share a tile). Sanctuary rooms stay free of enemies.
    #[verifier::rlimit(50)]
    pub fn spawn_enemies(&mut self, commits: &Vec<CommitData>, rng: &mut rand_chacha::ChaCha8Rng)
        requires
            spec_room_wf(*old(self)),
        ensures
            spec_room_wf(*final(self)),
            *final(self) == (Room { enemies: final(self).enemies, ..*old(self) }),
            old(self).room_type == RoomType::Sanctuary ==> final(self).enemies == old(self).enemies,
            old(self).room_type != RoomType::Sanctuary
                ==> spec_enemies_spawned(*old(self), final(self).enemies@, commits@),
    {
        if self.room_type == RoomType::Sanctuary {
            return;
        }

        let w = self.width as usize;
        let h = self.height as usize;
        proof {
            assert(0 <= w * h <= 65025) by (nonlinear_arith)
                requires
                    0 <= w <= 255,
                    0 <= h <= 255,
            ;
        }
        let area4 = w * h / 4;
        let mut count = commits.len();
        if count > area4 {
            count = area4;
        }
        if count > 10 {
            count = 10;
        }

        let mut positions = self.get_free_positions();
        let take = if count <= positions.len() { count } else { positions.len() };
        let ghost free0 = positions@;
        let ghost old_n = self.enemies@.len() as int;
        proof {
            lemma_free_positions_props(*old(self));
            assert(take as int == spec_capped(
                spec_enemy_cap(commits@.len() as int, old(self).width as int,
                    old(self).height as int),
                free0.len() as int,
            ));
        }

        let mut j: usize = 0;
        while j < take
            invariant
                spec_room_wf(*old(self)),
                take <= commits@.len(),
                0 <= j <= take,
                free0 == spec_free_positions(*old(self)),
                take <= free0.len(),
                positions@.len() == free0.len() - j,
                positions@.no_duplicates(),
                old_n == old(self).enemies@.len(),
                forall|i: int| 0 <= i < positions@.len()
                    ==> spec_interior_free(*old(self), (#[trigger] positions@[i]).0 as int,
                        positions@[i].1 as int),
                forall|i: int, a: int|
                    0 <= i < positions@.len() && old_n <= a < self.enemies@.len()
                    ==> !((#[trigger] self.enemies@[a]).x == (#[trigger] positions@[i]).0
                        && self.enemies@[a].y == positions@[i].1),
                self.enemies@.len() == old_n + j,
                self.enemies@.take(old_n) == old(self).enemies@,
                forall|a: int| 0 <= a < j
                    ==> spec_spawned_enemy(#[trigger] self.enemies@[old_n + a], commits@[a])
                        && spec_interior_free(*old(self), self.enemies@[old_n + a].x as int,
                            self.enemies@[old_n + a].y as int),
                forall|a: int, b: int| old_n <= a < b < self.enemies@.len()
                    ==> !((#[trigger] self.enemies@[a]).x == (#[trigger] self.enemies@[b]).x
                        && self.enemies@[a].y == self.enemies@[b].y),
                *self == (Room { enemies: self.enemies, ..*old(self) }),
            decreases take - j,
        {
            let ghost pos0 = positions@;
            let ghost enemies0 = self.enemies@;
            let pos_idx = rng_below(rng, positions.len());
            let chosen = positions.remove(pos_idx);
            let x = chosen.0;
            let y = chosen.1;
            proof {
                pos0.remove_ensures(pos_idx as int);
            }
            let et = enemy_type_from_commit(&commits[j]);
            let enemy = Enemy::new(et, x, y, commits[j].hash.as_str());
            self.enemies.push(enemy);
            proof {
                assert(self.enemies@ == enemies0.push(enemy));
                assert(self.enemies@.take(old_n) =~= enemies0.take(old_n));
                // the freshly placed enemy sits on no remaining position
                assert forall|i: int, a: int|
                    0 <= i < positions@.len() && old_n <= a < self.enemies@.len()
                    implies !((#[trigger] self.enemies@[a]).x == (#[trigger] positions@[i]).0
                        && self.enemies@[a].y == positions@[i].1) by {
                    let p = positions@[i];
                    if a < self.enemies@.len() - 1 {
                        assert(self.enemies@[a] == enemies0[a]);
                        if i < pos_idx {
                            assert(p == pos0[i]);
                        } else {
                            assert(p == pos0[i + 1]);
                        }
                    } else {
                        assert(self.enemies@[a] == enemy);
                        if i < pos_idx {
                            assert(p == pos0[i]);
                            assert(pos0[i] != pos0[pos_idx as int]);
                        } else {
                            assert(p == pos0[i + 1]);
                            assert(pos0[i + 1] != pos0[pos_idx as int]);
                        }
                        assert((enemy.x, enemy.y) == pos0[pos_idx as int]);
                    }
                }
                assert forall|i: int| 0 <= i < positions@.len()
                    implies spec_interior_free(*old(self), (#[trigger] positions@[i]).0 as int,
                        positions@[i].1 as int) by {
                    if i < pos_idx {
                        assert(positions@[i] == pos0[i]);
                    } else {
                        assert(positions@[i] == pos0[i + 1]);
                    }
                }
                assert(positions@.no_duplicates()) by {
                    assert forall|a: int, b: int| 0 <= a < b < positions@.len()
                        implies positions@[a] != positions@[b] by {
                        let pa = if a < pos_idx { pos0[a] } else { pos0[a + 1] };
                        let pb = if b < pos_idx { pos0[b] } else { pos0[b + 1] };
                        assert(positions@[a] == pa && positions@[b] == pb);
                    }
                }
            }
            j += 1;
        }
        proof {
            assert(self.enemies@.skip(old_n).len() == take as int);
            assert forall|a: int| 0 <= a < self.enemies@.skip(old_n).len()
                implies spec_spawned_enemy(#[trigger] self.enemies@.skip(old_n)[a], commits@[a])
                    && spec_interior_free(*old(self), self.enemies@.skip(old_n)[a].x as int,
                        self.enemies@.skip(old_n)[a].y as int) by {
                assert(self.enemies@.skip(old_n)[a] == self.enemies@[old_n + a]);
            }
            assert forall|a: int, b: int| 0 <= a < b < self.enemies@.skip(old_n).len()
                implies !((#[trigger] self.enemies@.skip(old_n)[a]).x
                        == (#[trigger] self.enemies@.skip(old_n)[b]).x
                    && self.enemies@.skip(old_n)[a].y == self.enemies@.skip(old_n)[b].y) by {
                assert(self.enemies@.skip(old_n)[a] == self.enemies@[old_n + a]);
                assert(self.enemies@.skip(old_n)[b] == self.enemies@[old_n + b]);
            }
        }
    }

    /// Spawn items from the day's records: Treasure rooms take a random
    /// count of 2 or 3, other rooms one item per four records (at least 1,
    /// at most 3). Each item matches its record and lies on its own free
    /// interior position.
    #[verifier::rlimit(50)]
    pub fn spawn_items(&mut self, commits: &Vec<CommitData>, rng: &mut rand_chacha::ChaCha8Rng)
        requires
            spec_room_wf(*old(self)),
        ensures
            spec_room_wf(*final(self)),
            *final(self) == (Room { items: final(self).items, ..*old(self) }),
            old(self).room_type == RoomType::Treasure
                ==> exists|k: int| 2 <= k <= 3
                    && spec_items_spawned(*old(self), final(self).items@, commits@, k),
            old(self).room_type != RoomType::Treasure
                ==> spec_items_spawned(*old(self), final(self).items@, commits@,
                    spec_base_item_count(commits@.len() as int)),
    {
        let item_count: usize = if self.room_type == RoomType::Treasure {
            2 + rng_below(rng, 2)
        } else {
            let base = commits.len() / 4;
            if base < 1 {
                1
            } else if base > 3 {
                3
            } else {
                base
            }
        };

        let mut positions = self.get_free_positions();
        let c = if item_count <= commits.len() { item_count } else { commits.len() };
        let take = if c <= positions.len() { c } else { positions.len() };
        let ghost free0 = positions@;
        let ghost old_n = self.items@.len() as int;
        proof {
            lemma_free_positions_props(*old(self));
        }

        let mut j: usize = 0;
        while j < take
            invariant
                spec_room_wf(*old(self)),
                take <= commits@.len(),
                0 <= j <= take,
                free0 == spec_free_positions(*old(self)),
                take <= free0.len(),
                positions@.len() == free0.len() - j,
                positions@.no_duplicates(),
                old_n == old(self).items@.len(),
                forall|i: int| 0 <= i < positions@.len()
                    ==> spec_interior_free(*old(self), (#[trigger] positions@[i]).0 as int,
                        positions@[i].1 as int),
                forall|i: int, a: int|
                    0 <= i < positions@.len() && old_n <= a < self.items@.len()
                    ==> !((#[trigger] self.items@[a]).x == (#[trigger] positions@[i]).0
                        && self.items@[a].y == positions@[i].1),
                self.items@.len() == old_n + j,
                self.items@.take(old_n) == old(self).items@,
                forall|a: int| 0 <= a < j
                    ==> spec_spawned_item(#[trigger] self.items@[old_n + a], commits@[a])
                        && spec_interior_free(*old(self), self.items@[old_n + a].x as int,
                            self.items@[old_n + a].y as int),
                forall|a: int, b: int| old_n <= a < b < self.items@.len()
                    ==> !((#[trigger] self.items@[a]).x == (#[trigger] self.items@[b]).x
                        && self.items@[a].y == self.items@[b].y),
                *self == (Room { items: self.items, ..*old(self) }),
            decreases take - j,
        {
            let ghost pos0 = positions@;
            let ghost items0 = self.items@;
            let pos_idx = rng_below(rng, positions.len());
            let chosen = positions.remove(pos_idx);
            let x = chosen.0;
            let y = chosen.1;
            proof {
                pos0.remove_ensures(pos_idx as int);
            }
            let item = item_from_commit(&commits[j]).at(x, y);
            self.items.push(item);
            proof {
                assert(self.items@ == items0.push(item));
                assert(self.items@.take(old_n) =~= items0.take(old_n));
                assert forall|i: int, a: int|
                    0 <= i < positions@.len() && old_n <= a < self.items@.len()
                    implies !((#[trigger] self.items@[a]).x == (#[trigger] positions@[i]).0
                        && self.items@[a].y == positions@[i].1) by {
                    let p = positions@[i];
                    if a < self.items@.len() - 1 {
                        assert(self.items@[a] == items0[a]);
                        if i < pos_idx {
                            assert(p == pos0[i]);
                        } else {
                            assert(p == pos0[i + 1]);
                        }
                    } else {
                        assert(self.items@[a] == item);
                        if i < pos_idx {
                            assert(p == pos0[i]);
                            assert(pos0[i] != pos0[pos_idx as int]);
                        } else {
                            assert(p == pos0[i + 1]);
                            assert(pos0[i + 1] != pos0[pos_idx as int]);
                        }
                        assert((item.x, item.y) == pos0[pos_idx as int]);
                    }
                }
                assert forall|i: int| 0 <= i < positions@.len()
                    implies spec_interior_free(*old(self), (#[trigger] positions@[i]).0 as int,
                        positions@[i].1 as int) by {
                    if i < pos_idx {
                        assert(positions@[i] == pos0[i]);
                    } else {
                        assert(positions@[i] == pos0[i + 1]);
                    }
                }
                assert(positions@.no_duplicates()) by {
                    assert forall|a: int, b: int| 0 <= a < b < positions@.len()
                        implies positions@[a] != positions@[b] by {
                        let pa = if a < pos_idx { pos0[a] } else { pos0[a + 1] };
                        let pb = if b < pos_idx { pos0[b] } else { pos0[b + 1] };
                        assert(positions@[a] == pa && positions@[b] == pb);
                    }
                }
            }
            j += 1;
        }
        proof {
            assert(self.items@.skip(old_n).len() == take as int);
            assert forall|a: int| 0 <= a < self.items@.skip(old_n).len()
                implies spec_spawned_item(#[trigger] self.items@.skip(old_n)[a], commits@[a])
                    && spec_interior_free(*old(self), self.items@.skip(old_n)[a].x as int,
                        self.items@.skip(old_n)[a].y as int) by {
                assert(self.items@.skip(old_n)[a] == self.items@[old_n + a]);
            }
            assert forall|a: int, b: int| 0 <= a < b < self.items@.skip(old_n).len()
                implies !((#[trigger] self.items@.skip(old_n)[a]).x
                        == (#[trigger] self.items@.skip(old_n)[b]).x
                    && self.items@.skip(old_n)[a].y == self.items@.skip(old_n)[b].y) by {
                assert(self.items@.skip(old_n)[a] == self.items@[old_n + a]);
                assert(self.items@.skip(old_n)[b] == self.items@[old_n + b]);
            }
            if old(self).room_type == RoomType::Treasure {
                assert(spec_items_spawned(*old(self), self.items@, commits@, item_count as int));
            }
        }
    }
}

/// The base item count of a non-treasure room: one item per four records,
/// clamped to [1, 3].
pub open spec fn spec_base_item_count(n_records: int) -> int {
    let base = n_records / 4;
    if base < 1 {
        1
    } else if base > 3 {
        3
    } else {
        base
    }
}

/// What an item-spawning pass with intended count `k` leaves behind: the
/// old items kept in place, followed by one fresh item per record taken,
/// each on its own interior free position of the room as it stood before
/// the pass.
pub open spec fn spec_items_spawned(
    before: Room,
    after: Seq<Item>,
    commits: Seq<CommitData>,
    k: int,
) -> bool {
    let old_n = before.items@.len() as int;
    let appended = after.skip(old_n);
    let c = if k <= commits.len() { k } else { commits.len() as int };
    &&& after.len() == old_n + spec_capped(c, spec_free_positions(before).len() as int)
    &&& after.take(old_n) == before.items@
    &&& forall|j: int| 0 <= j < appended.len()
        ==> spec_spawned_item(#[trigger] appended[j], commits[j])
            && spec_interior_free(before, appended[j].x as int, appended[j].y as int)
    &&& forall|a: int, b: int| 0 <= a < b < appended.len()
        ==> !((#[trigger] appended[a]).x == (#[trigger] appended[b]).x
            && appended[a].y == appended[b].y)
}

} // verus!
