//! Items: categories, rarity, effects, and their application to the player.

use vstd::prelude::*;
use crate::entity::Player;
use crate::text::{spec_text_contains_ci, text_contains_ci};

verus! {

/// Category of item.
#[derive(Debug, Clone, Copy, PartialEq, Eq, Structural)]
pub enum ItemType {
    Consumable,
    Equipment,
    Scroll,
}

/// Item rarity, derived from the magnitude of the originating record.
#[derive(Debug, Clone, Copy, PartialEq, Eq, Structural)]
pub enum Rarity {
    Common,
    Uncommon,
    Rare,
    Legendary,
}

/// Stat that a buff can modify.
#[derive(Debug, Clone, Copy, PartialEq, Eq, Structural)]
pub enum Stat {
    MaxHP,
    MaxEnergy,
    Focus,
    Damage,
}

/// Effect an item can have when used.
#[derive(Debug, Clone, Copy, PartialEq, Eq, Structural)]
pub enum ItemEffect {
    Heal(i32),
    RestoreEnergy(i32),
    Damage(i32),
    Buff(Stat, i32, u32),
    RevealMap,
}

/// An item in the dungeon or in the player's inventory.
#[derive(Debug, Clone)]
pub struct Item {
    pub name: String,
    pub item_type: ItemType,
    pub effect: ItemEffect,
    pub rarity: Rarity,
    pub source_commit: Option<String>,
    pub x: i32,
    pub y: i32,
}

impl Item {
    /// Create a new item at the origin, with no source record.
    pub fn new(name: &str, item_type: ItemType, effect: ItemEffect, rarity: Rarity) -> (item: Item)
        ensures
            item.name@ == name@,
            item.item_type == item_type,
            item.effect == effect,
            item.rarity == rarity,
            item.source_commit is None,
            item.x == 0 && item.y == 0,
    {
        Item {
            name: String::from_str(name),
            item_type,
            effect,
            rarity,
            source_commit: None,
            x: 0,
            y: 0,
        }
    }

    /// Set the item's position.
    pub fn at(self, x: i32, y: i32) -> (item: Item)
        ensures
            item == (Item { x, y, ..self }),
    {
        Item { x, y, ..self }
    }

    /// Record the hash of the originating record.
    pub fn from_commit(self, hash: &str) -> (item: Item)
        ensures
            item.name == self.name,
            item.item_type == self.item_type,
            item.effect == self.effect,
            item.rarity == self.rarity,
            item.x == self.x && item.y == self.y,
            item.source_commit matches Some(h) && h@ == hash@,
    {
        Item {
            source_commit: Some(String::from_str(hash)),
            ..self
        }
    }
}

/// Rarity from a record's magnitude: below 50 Common, below 200 Uncommon,
/// below 500 Rare, otherwise Legendary.
pub open spec fn spec_rarity(lines: int) -> Rarity {
    if lines < 50 {
        Rarity::Common
    } else if lines < 200 {
        Rarity::Uncommon
    } else if lines < 500 {
        Rarity::Rare
    } else {
        Rarity::Legendary
    }
}

/// Calculate item rarity from lines changed.
pub fn calculate_rarity(lines_changed: u32) -> (r: Rarity)
    ensures
        r == spec_rarity(lines_changed as int),
{
    if lines_changed < 50 {
        Rarity::Common
    } else if lines_changed < 200 {
        Rarity::Uncommon
    } else if lines_changed < 500 {
        Rarity::Rare
    } else {
        Rarity::Legendary
    }
}

/// An effect whose amounts are small enough to apply without overflow.
pub open spec fn spec_effect_bounded(effect: ItemEffect) -> bool {
    match effect {
        ItemEffect::Heal(n) => 0 <= n <= 1_000_000,
        ItemEffect::RestoreEnergy(n) => 0 <= n <= 1_000_000,
        _ => true,
    }
}

/// The player state that results from applying `effect` to `p`: healing and
/// energy restoration cap at the respective maximum, everything else is a
/// message-only effect that leaves the player unchanged.
pub open spec fn spec_apply_effect(effect: ItemEffect, p: Player) -> Player {
    match effect {
        ItemEffect::Heal(n) => Player {
            hp: if p.hp + n <= p.max_hp { (p.hp + n) as i32 } else { p.max_hp },
            ..p
        },
        ItemEffect::RestoreEnergy(n) => Player {
            energy: if p.energy + n <= p.max_energy { (p.energy + n) as i32 } else { p.max_energy },
            ..p
        },
        _ => p,
    }
}

/// Apply an item effect to the player and describe what happened.
pub fn apply_effect(effect: &ItemEffect, player: &mut Player) -> (msg: String)
    requires
        spec_effect_bounded(*effect),
        -1_100_000_000 <= old(player).hp <= 1_100_000_000,
        -1_100_000_000 <= old(player).max_hp <= 1_100_000_000,
        -1_100_000_000 <= old(player).energy <= 1_100_000_000,
        -1_100_000_000 <= old(player).max_energy <= 1_100_000_000,
    ensures
        *final(player) == spec_apply_effect(*effect, *old(player)),
        msg@.len() > 0,
{
    proof {
        reveal_strlit("Healed some HP");
        reveal_strlit("Restored some energy");
        reveal_strlit("Damage items target enemies");
        reveal_strlit("Buffed a stat");
        reveal_strlit("Map revealed");
    }
    match effect {
        ItemEffect::Heal(amount) => {
            player.heal(*amount);
            String::from_str("Healed some HP")
        }
        ItemEffect::RestoreEnergy(amount) => {
            player.regen_energy(*amount);
            String::from_str("Restored some energy")
        }
        ItemEffect::Damage(_) => String::from_str("Damage items target enemies"),
        ItemEffect::Buff(_, _, _) => String::from_str("Buffed a stat"),
        ItemEffect::RevealMap => String::from_str("Map revealed"),
    }
}

/// Generate a loot item from one record: documentation records give a map
/// scroll, test records a healing item scaled by rarity, config records
/// an energy scroll scaled by rarity, and anything else one of three
/// stock consumables drawn at random. The item always carries the
/// record's hash and its magnitude's rarity.
pub fn generate_item(commit: &crate::records::CommitData, rng: &mut rand_chacha::ChaCha8Rng)
    -> (item: Item)
    ensures
        item.rarity == spec_rarity(crate::records::spec_lines_changed(*commit)),
        (item.source_commit matches Some(h) && h@ == commit.hash@),
        ({
            let msg = commit.message@;
            let r = item.rarity;
            if spec_text_contains_ci(msg, "doc"@) || spec_text_contains_ci(msg, "readme"@) {
                item.name@ == "Map Scroll"@ && item.effect == ItemEffect::RevealMap
                    && item.item_type == ItemType::Scroll
            } else if spec_text_contains_ci(msg, "test"@) || spec_text_contains_ci(msg, "spec"@) {
                item.name@ == "Healing Commit"@ && item.item_type == ItemType::Consumable
                    && item.effect == ItemEffect::Heal(match r {
                        Rarity::Common => 10,
                        Rarity::Uncommon => 20,
                        Rarity::Rare => 35,
                        Rarity::Legendary => 50,
                    })
            } else if spec_text_contains_ci(msg, "config"@)
                || spec_text_contains_ci(msg, "setting"@) {
                item.name@ == "Config Scroll"@ && item.item_type == ItemType::Scroll
                    && item.effect == ItemEffect::RestoreEnergy(match r {
                        Rarity::Common => 20,
                        Rarity::Uncommon => 40,
                        Rarity::Rare => 60,
                        Rarity::Legendary => 100,
                    })
            } else {
                (item.name@ == "Small Heal"@ && item.effect == ItemEffect::Heal(10)
                        && item.item_type == ItemType::Consumable)
                    || (item.name@ == "Energy Drink"@
                        && item.effect == ItemEffect::RestoreEnergy(20)
                        && item.item_type == ItemType::Consumable)
                    || (item.name@ == "Mystery Scroll"@ && item.effect == ItemEffect::RevealMap
                        && item.item_type == ItemType::Scroll)
            }
        }),
{
    let rarity = calculate_rarity(commit.lines_changed());
    let msg = commit.message.as_str();

    let built = if text_contains_ci(msg, "doc") || text_contains_ci(msg, "readme") {
        Item::new("Map Scroll", ItemType::Scroll, ItemEffect::RevealMap, rarity)
    } else if text_contains_ci(msg, "test") || text_contains_ci(msg, "spec") {
        let heal: i32 = match rarity {
            Rarity::Common => 10,
            Rarity::Uncommon => 20,
            Rarity::Rare => 35,
            Rarity::Legendary => 50,
        };
        Item::new("Healing Commit", ItemType::Consumable, ItemEffect::Heal(heal), rarity)
    } else if text_contains_ci(msg, "config") || text_contains_ci(msg, "setting") {
        let energy: i32 = match rarity {
            Rarity::Common => 20,
            Rarity::Uncommon => 40,
            Rarity::Rare => 60,
            Rarity::Legendary => 100,
        };
        Item::new("Config Scroll", ItemType::Scroll, ItemEffect::RestoreEnergy(energy), rarity)
    } else {
        let roll = crate::rng::rng_below(rng, 3);
        if roll == 0 {
            Item::new("Small Heal", ItemType::Consumable, ItemEffect::Heal(10), rarity)
        } else if roll == 1 {
            Item::new("Energy Drink", ItemType::Consumable, ItemEffect::RestoreEnergy(20), rarity)
        } else {
            Item::new("Mystery Scroll", ItemType::Scroll, ItemEffect::RevealMap, rarity)
        }
    };
    built.from_commit(commit.hash.as_str())
}

} // verus!
