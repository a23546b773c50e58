//! Entities: the player, enemies, and their types and stats.

use vstd::prelude::*;
use crate::item::Item;

verus! {

/// Player class; determines starting stat bonuses.
#[derive(Debug, Clone, Copy, PartialEq, Eq, Structural)]
pub enum PlayerClass {
    CodeWarrior,
    MeetingSurvivor,
    InboxKnight,
    Wanderer,
}

/// Enemy type; fixes base hit points and base damage.
#[derive(Debug, Clone, Copy, PartialEq, Eq, Structural)]
pub enum EnemyType {
    Bug,
    Regression,
    TechDebt,
    MergeConflict,
}

/// Base hit points of each enemy type: Bug 10, Regression 20, TechDebt 30,
/// MergeConflict 50.
pub open spec fn spec_base_hp(t: EnemyType) -> int {
    match t {
        EnemyType::Bug => 10,
        EnemyType::Regression => 20,
        EnemyType::TechDebt => 30,
        EnemyType::MergeConflict => 50,
    }
}

/// Base damage of each enemy type: Bug 3, Regression 5, TechDebt 4,
/// MergeConflict 8.
pub open spec fn spec_base_damage(t: EnemyType) -> int {
    match t {
        EnemyType::Bug => 3,
        EnemyType::Regression => 5,
        EnemyType::TechDebt => 4,
        EnemyType::MergeConflict => 8,
    }
}

impl EnemyType {
    /// Base HP for this enemy type.
    pub fn base_hp(&self) -> (hp: i32)
        ensures
            hp == spec_base_hp(*self),
    {
        match self {
            EnemyType::Bug => 10,
            EnemyType::Regression => 20,
            EnemyType::TechDebt => 30,
            EnemyType::MergeConflict => 50,
        }
    }

    /// Base damage for this enemy type.
    pub fn base_damage(&self) -> (damage: i32)
        ensures
            damage == spec_base_damage(*self),
    {
        match self {
            EnemyType::Bug => 3,
            EnemyType::Regression => 5,
            EnemyType::TechDebt => 4,
            EnemyType::MergeConflict => 8,
        }
    }

    /// ASCII symbol for this enemy type.
    pub fn symbol(&self) -> (c: char)
        ensures
            c == (match *self {
                EnemyType::Bug => 'B',
                EnemyType::Regression => 'R',
                EnemyType::TechDebt => 'D',
                EnemyType::MergeConflict => 'M',
            }),
    {
        match self {
            EnemyType::Bug => 'B',
            EnemyType::Regression => 'R',
            EnemyType::TechDebt => 'D',
            EnemyType::MergeConflict => 'M',
        }
    }
}

/// An enemy in the dungeon.
#[derive(Debug, Clone)]
pub struct Enemy {
    pub x: i32,
    pub y: i32,
    pub hp: i32,
    pub max_hp: i32,
    pub damage: i32,
    pub enemy_type: EnemyType,
    pub source_commit: String,
    pub turns_alive: u32,
}

impl Enemy {
    /// Create a new enemy of the given type at (x, y), with the base stats of
    /// its type.
    pub fn new(enemy_type: EnemyType, x: i32, y: i32, commit_hash: &str) -> (e: Enemy)
        ensures
            e.x == x && e.y == y,
            e.hp == spec_base_hp(enemy_type),
            e.max_hp == spec_base_hp(enemy_type),
            e.damage == spec_base_damage(enemy_type),
            e.enemy_type == enemy_type,
            e.source_commit@ == commit_hash@,
            e.turns_alive == 0,
    {
        let hp = enemy_type.base_hp();
        Enemy {
            x,
            y,
            hp,
            max_hp: hp,
            damage: enemy_type.base_damage(),
            enemy_type,
            source_commit: String::from_str(commit_hash),
            turns_alive: 0,
        }
    }

    /// Take damage (at least 1), and report whether the enemy is still alive.
    pub fn take_damage(&mut self, amount: i32) -> (alive: bool)
        requires
            0 <= amount <= 1_000_000,
            -1_100_000_000 <= old(self).hp <= 1_100_000_000,
        ensures
            final(self).hp == old(self).hp - (if amount >= 1 { amount as int } else { 1 }),
            alive == (final(self).hp > 0),
            *final(self) == (Enemy { hp: final(self).hp, ..*old(self) }),
    {
        let dealt = if amount >= 1 { amount } else { 1 };
        self.hp = self.hp - dealt;
        self.hp > 0
    }

    /// Get the enemy's ASCII symbol.
    pub fn symbol(&self) -> (c: char)
        ensures
            c == (match self.enemy_type {
                EnemyType::Bug => 'B',
                EnemyType::Regression => 'R',
                EnemyType::TechDebt => 'D',
                EnemyType::MergeConflict => 'M',
            }),
    {
        self.enemy_type.symbol()
    }

    /// Check if the enemy is at or below half of its maximum health.
    pub fn at_half_health(&self) -> (r: bool)
        requires
            0 <= self.max_hp,
        ensures
            r == (self.hp <= self.max_hp / 2),
    {
        self.hp <= self.max_hp / 2
    }
}

/// The player character.
#[derive(Debug, Clone)]
pub struct Player {
    pub x: i32,
    pub y: i32,
    pub hp: i32,
    pub max_hp: i32,
    pub energy: i32,
    pub max_energy: i32,
    pub focus: i32,
    pub max_focus: i32,
    pub damage: i32,
    pub inventory: Vec<Item>,
    pub class: PlayerClass,
    pub level: u32,
    pub xp: u32,
    pub defending: bool,
}

/// The starting (hp, focus, damage) bonuses of each class.
pub open spec fn spec_class_bonuses(class: PlayerClass) -> (int, int, int) {
    match class {
        PlayerClass::CodeWarrior => (0, 0, 10),
        PlayerClass::MeetingSurvivor => (20, 0, 0),
        PlayerClass::InboxKnight => (0, 10, 0),
        PlayerClass::Wanderer => (5, 5, 5),
    }
}

impl Player {
    /// Create a new player of the given class at (1, 1), with full stats.
    pub fn new(class: PlayerClass) -> (p: Player)
        ensures
            p.x == 1 && p.y == 1,
            p.hp == 50 + spec_class_bonuses(class).0 && p.hp == p.max_hp,
            p.energy == 100 && p.max_energy == 100,
            p.focus == 50 + spec_class_bonuses(class).1 && p.focus == p.max_focus,
            p.damage == 10 + spec_class_bonuses(class).2,
            p.inventory@.len() == 0,
            p.class == class,
            p.level == 1 && p.xp == 0,
            !p.defending,
    {
        let (hp_bonus, focus_bonus, damage_bonus): (i32, i32, i32) = match class {
            PlayerClass::CodeWarrior => (0, 0, 10),
            PlayerClass::MeetingSurvivor => (20, 0, 0),
            PlayerClass::InboxKnight => (0, 10, 0),
            PlayerClass::Wanderer => (5, 5, 5),
        };
        Player {
            x: 1,
            y: 1,
            hp: 50 + hp_bonus,
            max_hp: 50 + hp_bonus,
            energy: 100,
            max_energy: 100,
            focus: 50 + focus_bonus,
            max_focus: 50 + focus_bonus,
            damage: 10 + damage_bonus,
            inventory: Vec::new(),
            class,
            level: 1,
            xp: 0,
            defending: false,
        }
    }

    /// Take damage, halved (integer division) while defending and floored at
    /// 1; the defending stance is consumed either way. Reports whether the
    /// player is still alive.
    pub fn take_damage(&mut self, amount: i32) -> (alive: bool)
        requires
            0 <= amount <= 1_000_000,
            -1_100_000_000 <= old(self).hp <= 1_100_000_000,
        ensures
            final(self).hp == old(self).hp - spec_damage_taken(amount as int, old(self).defending),
            !final(self).defending,
            alive == (final(self).hp > 0),
            *final(self) == (Player { hp: final(self).hp, defending: false, ..*old(self) }),
    {
        let actual = if self.defending { amount / 2 } else { amount };
        let dealt = if actual >= 1 { actual } else { 1 };
        self.hp = self.hp - dealt;
        self.defending = false;
        self.hp > 0
    }

    /// Heal up to the maximum hit points.
    pub fn heal(&mut self, amount: i32)
        requires
            0 <= amount <= 1_000_000,
            -1_100_000_000 <= old(self).hp <= 1_100_000_000,
            -1_100_000_000 <= old(self).max_hp <= 1_100_000_000,
        ensures
            final(self).hp == (if old(self).hp + amount <= old(self).max_hp {
                old(self).hp + amount
            } else {
                old(self).max_hp as int
            }),
            *final(self) == (Player { hp: final(self).hp, ..*old(self) }),
    {
        let raised = self.hp + amount;
        self.hp = if raised <= self.max_hp { raised } else { self.max_hp };
    }

    /// Spend energy; returns true (and deducts) only when there is enough.
    pub fn use_energy(&mut self, amount: i32) -> (had_enough: bool)
        requires
            0 <= amount,
            -1_100_000_000 <= old(self).energy <= 1_100_000_000,
        ensures
            had_enough == (old(self).energy >= amount),
            final(self).energy == (if old(self).energy >= amount {
                old(self).energy - amount
            } else {
                old(self).energy as int
            }),
            *final(self) == (Player { energy: final(self).energy, ..*old(self) }),
    {
        if self.energy >= amount {
            self.energy = self.energy - amount;
            true
        } else {
            false
        }
    }

    /// Regenerate energy up to the maximum.
    pub fn regen_energy(&mut self, amount: i32)
        requires
            0 <= amount <= 1_000_000,
            -1_100_000_000 <= old(self).energy <= 1_100_000_000,
            -1_100_000_000 <= old(self).max_energy <= 1_100_000_000,
        ensures
            final(self).energy == (if old(self).energy + amount <= old(self).max_energy {
                old(self).energy + amount
            } else {
                old(self).max_energy as int
            }),
            *final(self) == (Player { energy: final(self).energy, ..*old(self) }),
    {
        let raised = self.energy + amount;
        self.energy = if raised <= self.max_energy { raised } else { self.max_energy };
    }

    /// Add experience. At the threshold of 100 times the current level, one
    /// level-up fires: the threshold is deducted (carrying the remainder),
    /// the level rises by one, maximum hit points rise by 10, and hit points
    /// are restored to the new maximum.
    pub fn add_xp(&mut self, amount: u32) -> (leveled: bool)
        requires
            old(self).xp + amount <= 1_000_000_000,
            1 <= old(self).level <= 1_000_000,
            -1_100_000_000 <= old(self).max_hp <= 1_100_000_000,
        ensures
            leveled == (old(self).xp + amount >= old(self).level * 100),
            leveled ==> *final(self) == (Player {
                xp: (old(self).xp + amount - old(self).level * 100) as u32,
                level: (old(self).level + 1) as u32,
                max_hp: (old(self).max_hp + 10) as i32,
                hp: (old(self).max_hp + 10) as i32,
                ..*old(self)
            }),
            !leveled ==> *final(self) == (Player { xp: (old(self).xp + amount) as u32, ..*old(self) }),
    {
        self.xp = self.xp + amount;
        let threshold = self.level * 100;
        if self.xp >= threshold {
            self.xp = self.xp - threshold;
            self.level = self.level + 1;
            self.max_hp = self.max_hp + 10;
            self.hp = self.max_hp;
            true
        } else {
            false
        }
    }

    /// Pick up an item; fails when the inventory already holds 10 items.
    pub fn pickup_item(&mut self, item: Item) -> (picked: bool)
        ensures
            picked == (old(self).inventory@.len() < 10),
            picked ==> final(self).inventory@ == old(self).inventory@.push(item),
            !picked ==> final(self).inventory@ == old(self).inventory@,
            *final(self) == (Player { inventory: final(self).inventory, ..*old(self) }),
    {
        if self.inventory.len() < 10 {
            self.inventory.push(item);
            true
        } else {
            false
        }
    }
}

/// Hit points lost by the player from a raw `amount`: halved (integer
/// division) while defending, floored at 1.
pub open spec fn spec_damage_taken(amount: int, defending: bool) -> int {
    let actual = if defending { amount / 2 } else { amount };
    if actual >= 1 { actual } else { 1 }
}

} // verus!
