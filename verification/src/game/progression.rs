//! Meta-progression: persistent unlocks and upgrades that carry over
//! between runs, and the record of a completed run.

use vstd::prelude::*;
use crate::entity::PlayerClass;

verus! {

/// Record of a completed run; timestamps are unix seconds.
#[derive(Debug, Clone)]
pub struct RunRecord {
    pub started_at: i64,
    pub ended_at: i64,
    pub victory: bool,
    pub turns: u32,
    pub rooms_cleared: usize,
    pub enemies_killed: usize,
    pub final_level: u32,
    pub death_cause: Option<String>,
}

/// Permanent upgrades purchasable with essence.
#[derive(Debug, Clone, Copy, PartialEq, Eq, Structural)]
pub struct Upgrades {
    /// Bonus starting HP (+5 per level).
    pub hp_bonus: u8,
    /// Bonus starting energy (+2 per level).
    pub energy_bonus: u8,
    /// Bonus starting damage (+1 per level).
    pub damage_bonus: u8,
    /// Starting weapon tier (0-2).
    pub starting_weapon: u8,
    /// Chance to find better items (0-3, +5% per level).
    pub loot_luck: u8,
}

/// The cost of buying an upgrade that currently sits at `level`:
/// 10, 25, 50, 100, 200, then 500 for anything higher.
pub open spec fn spec_upgrade_cost(level: int) -> int {
    if level == 0 {
        10
    } else if level == 1 {
        25
    } else if level == 2 {
        50
    } else if level == 3 {
        100
    } else if level == 4 {
        200
    } else {
        500
    }
}

impl Upgrades {
    /// Max level for the HP upgrade.
    pub const MAX_HP: u8 = 5;

    /// Max level for the energy upgrade.
    pub const MAX_ENERGY: u8 = 5;

    /// Max level for the damage upgrade.
    pub const MAX_DAMAGE: u8 = 3;

    /// Max level for the starting weapon upgrade.
    pub const MAX_WEAPON: u8 = 2;

    /// Max level for the loot luck upgrade.
    pub const MAX_LUCK: u8 = 3;

    /// Cost for an upgrade at a given level.
    pub fn cost(level: u8) -> (c: u32)
        ensures
            c == spec_upgrade_cost(level as int),
    {
        match level {
            0 => 10,
            1 => 25,
            2 => 50,
            3 => 100,
            4 => 200,
            _ => 500,
        }
    }

    /// Total bonus HP from upgrades: 5 per level.
    pub fn bonus_hp(&self) -> (r: i32)
        ensures
            r == self.hp_bonus * 5,
    {
        self.hp_bonus as i32 * 5
    }

    /// Total bonus energy from upgrades: 2 per level.
    pub fn bonus_energy(&self) -> (r: i32)
        ensures
            r == self.energy_bonus * 2,
    {
        self.energy_bonus as i32 * 2
    }

    /// Total bonus damage from upgrades: 1 per level.
    pub fn bonus_damage(&self) -> (r: i32)
        ensures
            r == self.damage_bonus,
    {
        self.damage_bonus as i32
    }

    /// Loot luck percentage bonus: 5 per level.
    pub fn loot_luck_bonus(&self) -> (r: i32)
        ensures
            r == self.loot_luck * 5,
    {
        self.loot_luck as i32 * 5
    }
}

impl Default for Upgrades {
    /// All upgrades start at level zero.
    fn default() -> (r: Self)
        ensures
            r == (Upgrades {
                hp_bonus: 0,
                energy_bonus: 0,
                damage_bonus: 0,
                starting_weapon: 0,
                loot_luck: 0,
            }),
    {
        Upgrades {
            hp_bonus: 0,
            energy_bonus: 0,
            damage_bonus: 0,
            starting_weapon: 0,
            loot_luck: 0,
        }
    }
}

/// Persistent progression data.
#[derive(Debug)]
pub struct Progression {
    /// Total runs completed (win or lose).
    pub total_runs: u32,
    /// Total victories.
    pub victories: u32,
    /// Total enemies killed across all runs.
    pub total_kills: u32,
    /// Total rooms cleared across all runs.
    pub total_rooms: u32,
    /// Meta-currency earned (1 per kill, 5 per room, 20 per victory).
    pub essence: u32,
    /// Unlocked classes (by name, each listed once).
    pub unlocked_classes: Vec<String>,
    /// Unlocked items (by name).
    pub unlocked_items: Vec<String>,
    /// Purchased permanent upgrades.
    pub upgrades: Upgrades,
    /// Best run (most rooms cleared).
    pub best_rooms: u32,
    /// Fastest victory (fewest turns).
    pub fastest_victory: Option<u32>,
}

/// The list holds the given name.
pub open spec fn spec_has_name(s: Seq<String>, n: Seq<char>) -> bool {
    exists|k: int| 0 <= k < s.len() && (#[trigger] s[k])@ == n
}

fn holds_name(v: &Vec<String>, name: &String) -> (r: bool)
    ensures
        r == spec_has_name(v@, name@),
{
    let n = v.len();
    let mut k: usize = 0;
    while k < n
        invariant
            n == v@.len(),
            0 <= k <= n,
            forall|a: int| 0 <= a < k ==> (#[trigger] v@[a])@ != name@,
        decreases n - k,
    {
        if v[k].eq(name) {
            proof {
                assert(v@[k as int]@ == name@);
            }
            return true;
        }
        k += 1;
    }
    false
}

impl PlayerClass {
    /// The class's display name.
    pub fn class_name(&self) -> (r: &'static str)
        ensures
            r@ == (match *self {
                PlayerClass::CodeWarrior => "CodeWarrior"@,
                PlayerClass::MeetingSurvivor => "MeetingSurvivor"@,
                PlayerClass::InboxKnight => "InboxKnight"@,
                PlayerClass::Wanderer => "Wanderer"@,
            }),
    {
        match self {
            PlayerClass::CodeWarrior => "CodeWarrior",
            PlayerClass::MeetingSurvivor => "MeetingSurvivor",
            PlayerClass::InboxKnight => "InboxKnight",
            PlayerClass::Wanderer => "Wanderer",
        }
    }
}

/// The display name of a class.
pub open spec fn spec_class_name(class: PlayerClass) -> Seq<char> {
    match class {
        PlayerClass::CodeWarrior => "CodeWarrior"@,
        PlayerClass::MeetingSurvivor => "MeetingSurvivor"@,
        PlayerClass::InboxKnight => "InboxKnight"@,
        PlayerClass::Wanderer => "Wanderer"@,
    }
}

impl Default for Progression {
    /// Fresh progression: everything at zero, nothing unlocked.
    fn default() -> (r: Self)
        ensures
            r.total_runs == 0 && r.victories == 0 && r.total_kills == 0,
            r.total_rooms == 0 && r.essence == 0,
            r.unlocked_classes@.len() == 0 && r.unlocked_items@.len() == 0,
            r.upgrades == (Upgrades {
                hp_bonus: 0,
                energy_bonus: 0,
                damage_bonus: 0,
                starting_weapon: 0,
                loot_luck: 0,
            }),
            r.best_rooms == 0,
            r.fastest_victory is None,
    {
        Progression {
            total_runs: 0,
            victories: 0,
            total_kills: 0,
            total_rooms: 0,
            essence: 0,
            unlocked_classes: Vec::new(),
            unlocked_items: Vec::new(),
            upgrades: Upgrades {
                hp_bonus: 0,
                energy_bonus: 0,
                damage_bonus: 0,
                starting_weapon: 0,
                loot_luck: 0,
            },
            best_rooms: 0,
            fastest_victory: None,
        }
    }
}

impl Progression {
    /// Create new progression with the starter class unlocked.
    pub fn new() -> (r: Progression)
        ensures
            r.total_runs == 0 && r.victories == 0 && r.total_kills == 0,
            r.total_rooms == 0 && r.essence == 0,
            r.unlocked_classes@.len() == 1,
            spec_has_name(r.unlocked_classes@, "CodeWarrior"@),
            r.unlocked_items@.len() == 0,
            r.upgrades == (Upgrades {
                hp_bonus: 0,
                energy_bonus: 0,
                damage_bonus: 0,
                starting_weapon: 0,
                loot_luck: 0,
            }),
            r.best_rooms == 0,
            r.fastest_victory is None,
    {
        let mut prog = Progression::default();
        prog.unlocked_classes.push(String::from_str("CodeWarrior"));
        proof {
            assert(prog.unlocked_classes@[0]@ == "CodeWarrior"@);
        }
        prog
    }

    /// Award essence and update statistics from a completed run: one
    /// essence per kill, five per room, twenty more for a victory; the
    /// fastest victory and the deepest run are tracked.
    pub fn complete_run(&mut self, victory: bool, kills: u32, rooms: u32, turns: u32)
        requires
            old(self).total_runs < u32::MAX,
            old(self).victories < u32::MAX,
            old(self).total_kills + kills <= u32::MAX,
            old(self).total_rooms + rooms <= u32::MAX,
            old(self).essence + kills + rooms * 5 + 20 <= u32::MAX,
        ensures
            final(self).total_runs == old(self).total_runs + 1,
            final(self).total_kills == old(self).total_kills + kills,
            final(self).total_rooms == old(self).total_rooms + rooms,
            final(self).victories == old(self).victories + (if victory { 1int } else { 0int }),
            final(self).essence == old(self).essence + kills + rooms * 5
                + (if victory { 20int } else { 0int }),
            final(self).fastest_victory == (if victory {
                match old(self).fastest_victory {
                    Some(best) => if turns < best { Some(turns) } else { Some(best) },
                    None => Some(turns),
                }
            } else {
                old(self).fastest_victory
            }),
            final(self).best_rooms == (if rooms > old(self).best_rooms {
                rooms
            } else {
                old(self).best_rooms
            }),
            final(self).unlocked_classes == old(self).unlocked_classes,
            final(self).unlocked_items == old(self).unlocked_items,
            final(self).upgrades == old(self).upgrades,
    {
        self.total_runs = self.total_runs + 1;
        self.total_kills = self.total_kills + kills;
        self.total_rooms = self.total_rooms + rooms;

        let mut essence_earned: u32 = kills;
        essence_earned = essence_earned + rooms * 5;

        if victory {
            self.victories = self.victories + 1;
            essence_earned = essence_earned + 20;

            match self.fastest_victory {
                Some(best) => {
                    if turns < best {
                        self.fastest_victory = Some(turns);
                    }
                }
                None => {
                    self.fastest_victory = Some(turns);
                }
            }
        }

        self.essence = self.essence + essence_earned;

        if rooms > self.best_rooms {
            self.best_rooms = rooms;
        }
    }

    /// Check if a class is unlocked.
    pub fn is_class_unlocked(&self, class: &PlayerClass) -> (r: bool)
        ensures
            r == spec_has_name(self.unlocked_classes@, spec_class_name(*class)),
    {
        let name = String::from_str(class.class_name());
        holds_name(&self.unlocked_classes, &name)
    }

    /// Unlock a class for the given essence cost; fails when the essence
    /// is short or the class is already unlocked.
    pub fn unlock_class(&mut self, class: &PlayerClass, cost: u32) -> (unlocked: bool)
        ensures
            unlocked == (old(self).essence >= cost
                && !spec_has_name(old(self).unlocked_classes@, spec_class_name(*class))),
            unlocked ==> final(self).essence == old(self).essence - cost
                && final(self).unlocked_classes@.len()
                    == old(self).unlocked_classes@.len() + 1
                && spec_has_name(final(self).unlocked_classes@, spec_class_name(*class))
                && *final(self) == (Progression {
                    essence: final(self).essence,
                    unlocked_classes: final(self).unlocked_classes,
                    ..*old(self)
                }),
            !unlocked ==> *final(self) == *old(self),
    {
        if self.essence < cost {
            return false;
        }
        let name = String::from_str(class.class_name());
        if holds_name(&self.unlocked_classes, &name) {
            return false;
        }
        self.essence = self.essence - cost;
        let ghost before = self.unlocked_classes@;
        self.unlocked_classes.push(name);
        proof {
            assert(self.unlocked_classes@[before.len() as int]@ == spec_class_name(*class));
        }
        true
    }

    /// Purchase an HP upgrade.
    pub fn upgrade_hp(&mut self) -> (bought: bool)
        ensures
            bought == (old(self).upgrades.hp_bonus < 5
                && old(self).essence >= spec_upgrade_cost(old(self).upgrades.hp_bonus as int)),
            bought ==> *final(self) == (Progression {
                essence: (old(self).essence
                    - spec_upgrade_cost(old(self).upgrades.hp_bonus as int)) as u32,
                upgrades: (Upgrades {
                    hp_bonus: (old(self).upgrades.hp_bonus + 1) as u8,
                    ..old(self).upgrades
                }),
                ..*old(self)
            }),
            !bought ==> *final(self) == *old(self),
    {
        if self.upgrades.hp_bonus >= Upgrades::MAX_HP {
            return false;
        }
        let cost = Upgrades::cost(self.upgrades.hp_bonus);
        if self.essence < cost {
            return false;
        }
        self.essence = self.essence - cost;
        self.upgrades.hp_bonus = self.upgrades.hp_bonus + 1;
        true
    }

    /// Purchase an energy upgrade.
    pub fn upgrade_energy(&mut self) -> (bought: bool)
        ensures
            bought == (old(self).upgrades.energy_bonus < 5
                && old(self).essence >= spec_upgrade_cost(old(self).upgrades.energy_bonus as int)),
            bought ==> *final(self) == (Progression {
                essence: (old(self).essence
                    - spec_upgrade_cost(old(self).upgrades.energy_bonus as int)) as u32,
                upgrades: (Upgrades {
                    energy_bonus: (old(self).upgrades.energy_bonus + 1) as u8,
                    ..old(self).upgrades
                }),
                ..*old(self)
            }),
            !bought ==> *final(self) == *old(self),
    {
        if self.upgrades.energy_bonus >= Upgrades::MAX_ENERGY {
            return false;
        }
        let cost = Upgrades::cost(self.upgrades.energy_bonus);
        if self.essence < cost {
            return false;
        }
        self.essence = self.essence - cost;
        self.upgrades.energy_bonus = self.upgrades.energy_bonus + 1;
        true
    }

    /// Purchase a damage upgrade.
    pub fn upgrade_damage(&mut self) -> (bought: bool)
        ensures
            bought == (old(self).upgrades.damage_bonus < 3
                && old(self).essence >= spec_upgrade_cost(old(self).upgrades.damage_bonus as int)),
            bought ==> *final(self) == (Progression {
                essence: (old(self).essence
                    - spec_upgrade_cost(old(self).upgrades.damage_bonus as int)) as u32,
                upgrades: (Upgrades {
                    damage_bonus: (old(self).upgrades.damage_bonus + 1) as u8,
                    ..old(self).upgrades
                }),
                ..*old(self)
            }),
            !bought ==> *final(self) == *old(self),
    {
        if self.upgrades.damage_bonus >= Upgrades::MAX_DAMAGE {
            return false;
        }
        let cost = Upgrades::cost(self.upgrades.damage_bonus);
        if self.essence < cost {
            return false;
        }
        self.essence = self.essence - cost;
        self.upgrades.damage_bonus = self.upgrades.damage_bonus + 1;
        true
    }

    /// Purchase a starting weapon upgrade.
    pub fn upgrade_weapon(&mut self) -> (bought: bool)
        ensures
            bought == (old(self).upgrades.starting_weapon < 2
                && old(self).essence
                    >= spec_upgrade_cost(old(self).upgrades.starting_weapon as int)),
            bought ==> *final(self) == (Progression {
                essence: (old(self).essence
                    - spec_upgrade_cost(old(self).upgrades.starting_weapon as int)) as u32,
                upgrades: (Upgrades {
                    starting_weapon: (old(self).upgrades.starting_weapon + 1) as u8,
                    ..old(self).upgrades
                }),
                ..*old(self)
            }),
            !bought ==> *final(self) == *old(self),
    {
        if self.upgrades.starting_weapon >= Upgrades::MAX_WEAPON {
            return false;
        }
        let cost = Upgrades::cost(self.upgrades.starting_weapon);
        if self.essence < cost {
            return false;
        }
        self.essence = self.essence - cost;
        self.upgrades.starting_weapon = self.upgrades.starting_weapon + 1;
        true
    }

    /// Purchase a loot luck upgrade.
    pub fn upgrade_loot_luck(&mut self) -> (bought: bool)
        ensures
            bought == (old(self).upgrades.loot_luck < 3
                && old(self).essence >= spec_upgrade_cost(old(self).upgrades.loot_luck as int)),
            bought ==> *final(self) == (Progression {
                essence: (old(self).essence
                    - spec_upgrade_cost(old(self).upgrades.loot_luck as int)) as u32,
                upgrades: (Upgrades {
                    loot_luck: (old(self).upgrades.loot_luck + 1) as u8,
                    ..old(self).upgrades
                }),
                ..*old(self)
            }),
            !bought ==> *final(self) == *old(self),
    {
        if self.upgrades.loot_luck >= Upgrades::MAX_LUCK {
            return false;
        }
        let cost = Upgrades::cost(self.upgrades.loot_luck);
        if self.essence < cost {
            return false;
        }
        self.essence = self.essence - cost;
        self.upgrades.loot_luck = self.upgrades.loot_luck + 1;
        true
    }
}

} // verus!
