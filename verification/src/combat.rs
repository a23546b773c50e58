//! Combat: player actions and costs, hit chances, damage, and the
//! resolution of player and enemy attacks.
//!
//! Chance is measured in permille: a draw in `0..1000` hits when it is
//! below the permille hit chance.

use vstd::prelude::*;
use crate::entity::{Enemy, EnemyType, Player, spec_base_hp, spec_base_damage};
use crate::entity::spec_damage_taken;
use crate::rng::rng_below;
use crate::tile::Direction;
use crate::world::room::{Room, spec_room_wf, spec_walkable_at};

verus! {

/// Energy cost of a move.
pub const MOVE_COST: i32 = 1;

/// Energy cost of an attack.
pub const ATTACK_COST: i32 = 5;

/// Energy cost of taking a defensive stance.
pub const DEFEND_COST: i32 = 3;

/// Energy cost of using an item.
pub const USE_ITEM_COST: i32 = 2;

/// Energy regained by waiting.
pub const WAIT_REGEN: i32 = 2;

/// Actions the player can take.
#[derive(Debug, Clone, Copy, PartialEq, Eq, Structural)]
pub enum PlayerAction {
    /// Move by a unit cardinal vector.
    Move(i32, i32),
    /// Attack in a direction.
    Attack(Direction),
    /// Defend (reduce incoming damage).
    Defend,
    /// Use an item from the inventory.
    UseItem(usize),
    /// Wait and regenerate energy.
    Wait,
}

/// The fixed energy cost of each action: Move 1, Attack 5, Defend 3,
/// UseItem 2, Wait 0.
pub open spec fn spec_energy_cost(a: PlayerAction) -> int {
    match a {
        PlayerAction::Move(_, _) => 1,
        PlayerAction::Attack(_) => 5,
        PlayerAction::Defend => 3,
        PlayerAction::UseItem(_) => 2,
        PlayerAction::Wait => 0,
    }
}

impl PlayerAction {
    /// Get the energy cost of this action.
    pub fn energy_cost(&self) -> (cost: i32)
        ensures
            cost == spec_energy_cost(*self),
    {
        match self {
            PlayerAction::Move(_, _) => MOVE_COST,
            PlayerAction::Attack(_) => ATTACK_COST,
            PlayerAction::Defend => DEFEND_COST,
            PlayerAction::UseItem(_) => USE_ITEM_COST,
            PlayerAction::Wait => 0,
        }
    }

    /// Check if this is a movement action.
    pub fn is_movement(&self) -> (r: bool)
        ensures
            r == (self matches PlayerAction::Move(_, _)),
    {
        match self {
            PlayerAction::Move(_, _) => true,
            _ => false,
        }
    }

    /// Check if this is an attack action.
    pub fn is_attack(&self) -> (r: bool)
        ensures
            r == (self matches PlayerAction::Attack(_)),
    {
        match self {
            PlayerAction::Attack(_) => true,
            _ => false,
        }
    }
}

/// Result of a combat action.
#[derive(Debug, Clone, Copy, PartialEq, Eq, Structural)]
pub struct CombatResult {
    pub hit: bool,
    pub damage: i32,
    pub killed: bool,
    pub critical: bool,
}

/// Hit chance in permille: 800 plus the focus, clamped to [50, 950].
pub open spec fn spec_hit_chance(focus: int) -> int {
    if focus < -750 {
        50
    } else if focus > 150 {
        950
    } else {
        800 + focus
    }
}

/// Hit chance in permille from the focus stat: a base of 800 permille
/// (80%), one permille per point of focus, clamped to [50, 950].
pub fn calculate_hit_chance(focus: i32) -> (chance: i32)
    ensures
        chance == spec_hit_chance(focus as int),
{
    if focus < -750 {
        50
    } else if focus > 150 {
        950
    } else {
        800 + focus
    }
}

/// The hit chance never decreases as focus grows.
pub proof fn lemma_hit_chance_monotone(f1: int, f2: int)
    requires
        f1 <= f2,
    ensures
        spec_hit_chance(f1) <= spec_hit_chance(f2),
{
}

/// The hit chance always stays within [50, 950] permille.
pub proof fn lemma_hit_chance_clamped(f: int)
    ensures
        50 <= spec_hit_chance(f) <= 950,
{
}

/// Scaled damage: `base` grows by 10% per level above 1, is halved (integer
/// division) while defending, and never drops below 1.
pub open spec fn spec_damage(base: int, level: int, defending: bool) -> int {
    let scaled = base * (9 + level) / 10;
    let after_defense = if defending { scaled / 2 } else { scaled };
    if after_defense < 1 { 1 } else { after_defense }
}

/// Damage dealt by an attacker with the given base damage and level,
/// halved when the target is defending, floored at 1. The stat bounds
/// mirror the engine invariant `spec_state_ok` maintains; both sit far
/// inside the i32 overflow limit of the scaling product.
pub fn calculate_damage(base: i32, level: u32, defending: bool) -> (damage: i32)
    requires
        0 <= base <= 1000,
        1 <= level <= 1000,
    ensures
        damage == spec_damage(base as int, level as int, defending),
{
    let factor: i32 = 9 + level as i32;
    proof {
        assert(0 <= base * factor <= 1_009_000) by (nonlinear_arith)
            requires
                0 <= base <= 1000,
                10 <= factor <= 1009,
        ;
    }
    let scaled = base * factor / 10;
    let after_defense = if defending { scaled / 2 } else { scaled };
    if after_defense < 1 { 1 } else { after_defense }
}

/// Damage while defending is the non-defending damage halved by integer
/// division, floored at 1.
pub proof fn lemma_defending_halves_damage(base: int, level: int)
    requires
        base >= 0,
        level >= 1,
    ensures
        spec_damage(base, level, true) == (if spec_damage(base, level, false) / 2 >= 1 {
            spec_damage(base, level, false) / 2
        } else {
            1
        }),
{
    let scaled = base * (9 + level) / 10;
    assert(base * (9 + level) >= 0) by (nonlinear_arith)
        requires
            base >= 0,
            level >= 1,
    ;
    assert(scaled >= 0);
}

/// The damage formula never returns less than 1.
pub proof fn lemma_damage_at_least_one(base: int, level: int, defending: bool)
    ensures
        spec_damage(base, level, defending) >= 1,
{
}

/// In the engine's working stat ranges the damage formula stays within
/// [1, 100900].
pub proof fn lemma_damage_bounds(base: int, level: int, defending: bool)
    requires
        0 <= base <= 1000,
        1 <= level <= 1000,
    ensures
        1 <= spec_damage(base, level, defending) <= 100_900,
{
    assert(0 <= base * (9 + level) <= 1_009_000) by (nonlinear_arith)
        requires
            0 <= base <= 1000,
            1 <= level <= 1000,
    ;
}

/// A player whose combat stats are in the engine's working ranges: the
/// bounds `spec_state_ok` maintains across every turn (class bonuses and
/// meta-upgrades keep damage far below 1000, and a level rises by one per
/// hundred-experience threshold), kept well under the overflow limit.
pub open spec fn spec_player_combat_ready(p: Player) -> bool {
    &&& 0 <= p.damage <= 1000
    &&& 1 <= p.level <= 1000
}

/// The raw (pre-critical) damage of a player attack.
pub open spec fn spec_player_raw_damage(p: Player) -> int {
    spec_damage(p.damage as int, p.level as int, false)
}

/// Resolve a player attack given the two pseudo-random permille draws: the
/// hit roll and the critical roll. A roll at or above the hit chance
/// misses; a hit is critical when the second draw is below 50 permille
/// (5%), doubling the damage. The enemy loses the damage dealt.
pub fn resolve_player_attack(player: &Player, enemy: &mut Enemy, roll: u32, crit_roll: u32)
    -> (result: CombatResult)
    requires
        roll < 1000,
        crit_roll < 1000,
        spec_player_combat_ready(*player),
        -1_000_000_000 <= old(enemy).hp <= 1_000_000_000,
    ensures
        result.hit == (roll < spec_hit_chance(player.focus as int)),
        !result.hit ==> *final(enemy) == *old(enemy)
            && result == (CombatResult { hit: false, damage: 0, killed: false, critical: false }),
        result.hit ==> {
            &&& result.critical == (crit_roll < 50)
            &&& result.damage == (if result.critical {
                2 * spec_player_raw_damage(*player)
            } else {
                spec_player_raw_damage(*player)
            })
            &&& final(enemy).hp == old(enemy).hp - result.damage
            &&& *final(enemy) == (Enemy { hp: final(enemy).hp, ..*old(enemy) })
            &&& result.killed == (final(enemy).hp <= 0)
        },
{
    let hit_chance = calculate_hit_chance(player.focus);
    if roll as i32 >= hit_chance {
        return CombatResult { hit: false, damage: 0, killed: false, critical: false };
    }

    let critical = crit_roll < 50;
    let base_damage = calculate_damage(player.damage, player.level, false);
    proof {
        lemma_damage_bounds(player.damage as int, player.level as int, false);
    }
    let damage = if critical { base_damage * 2 } else { base_damage };

    let killed = !enemy.take_damage(damage);

    CombatResult { hit: true, damage, killed, critical }
}

/// What a player attack can leave behind, whatever the generator returned:
/// either a miss that changes nothing, or a hit for the player's raw damage
/// (doubled on a critical) with `killed` reporting whether the enemy's hit
/// points were exhausted.
pub open spec fn spec_player_attack_outcome(
    player: Player,
    before: Enemy,
    after: Enemy,
    result: CombatResult,
) -> bool {
    &&& (!result.hit ==> after == before
        && result == (CombatResult { hit: false, damage: 0, killed: false, critical: false }))
    &&& (result.hit ==> {
        &&& result.damage == (if result.critical {
            2 * spec_player_raw_damage(player)
        } else {
            spec_player_raw_damage(player)
        })
        &&& after.hp == before.hp - result.damage
        &&& after == (Enemy { hp: after.hp, ..before })
        &&& result.killed == (after.hp <= 0)
    })
}

/// Resolve a player attack on an enemy, drawing a hit roll and a critical
/// roll from the generator.
pub fn player_attack(player: &Player, enemy: &mut Enemy, rng: &mut rand_chacha::ChaCha8Rng)
    -> (result: CombatResult)
    requires
        spec_player_combat_ready(*player),
        -1_000_000_000 <= old(enemy).hp <= 1_000_000_000,
    ensures
        spec_player_attack_outcome(*player, *old(enemy), *final(enemy), result),
{
    let roll = rng_below(rng, 1000);
    let crit_roll = rng_below(rng, 1000);
    resolve_player_attack(player, enemy, roll as u32, crit_roll as u32)
}

/// An enemy whose combat stats are in the engine's working ranges: the
/// bounds `spec_state_ok` maintains (base damage tops out at 8 and growth
/// stops at twice the base), kept well under the overflow limit.
pub open spec fn spec_enemy_combat_ready(e: Enemy) -> bool {
    0 <= e.damage <= 1000
}

/// The raw damage of an enemy attack against the player: the enemy's damage
/// at level 1, halved once while the player defends.
pub open spec fn spec_enemy_raw_damage(e: Enemy, defending: bool) -> int {
    spec_damage(e.damage as int, 1, defending)
}

/// Resolve an enemy attack given the pseudo-random permille hit roll.
/// Enemies hit with a fixed 800-permille (80%) chance; the player's
/// defensive stance halves the damage and is consumed whatever the
/// outcome.
pub fn resolve_enemy_attack(enemy: &Enemy, player: &mut Player, roll: u32) -> (result: CombatResult)
    requires
        roll < 1000,
        spec_enemy_combat_ready(*enemy),
        -1_000_000_000 <= old(player).hp <= 1_000_000_000,
    ensures
        result.hit == (roll < 800),
        !result.critical,
        !final(player).defending,
        !result.hit ==> *final(player) == (Player { defending: false, ..*old(player) })
            && result.damage == 0 && !result.killed,
        result.hit ==> {
            &&& result.damage == spec_enemy_raw_damage(*enemy, old(player).defending)
            &&& final(player).hp == old(player).hp
                - spec_damage_taken(result.damage as int, old(player).defending)
            &&& *final(player) == (Player {
                hp: final(player).hp,
                defending: false,
                ..*old(player)
            })
            &&& result.killed == (final(player).hp <= 0)
        },
{
    if roll >= 800 {
        player.defending = false;
        return CombatResult { hit: false, damage: 0, killed: false, critical: false };
    }

    let damage = calculate_damage(enemy.damage, 1, player.defending);
    let killed = !player.take_damage(damage);

    CombatResult { hit: true, damage, killed, critical: false }
}

/// What an enemy attack can leave behind, whatever the generator returned:
/// the defensive stance is consumed either way; a miss changes nothing
/// else; a hit costs the player the enemy's raw damage (halved once more,
/// floored at 1, while defending), with `killed` reporting whether the
/// player's hit points were exhausted.
pub open spec fn spec_enemy_attack_outcome(
    enemy: Enemy,
    before: Player,
    after: Player,
    result: CombatResult,
) -> bool {
    &&& !result.critical
    &&& !after.defending
    &&& (!result.hit ==> after == (Player { defending: false, ..before })
        && result.damage == 0 && !result.killed)
    &&& (result.hit ==> {
        &&& result.damage == spec_enemy_raw_damage(enemy, before.defending)
        &&& after.hp == before.hp - spec_damage_taken(result.damage as int, before.defending)
        &&& after == (Player { hp: after.hp, defending: false, ..before })
        &&& result.killed == (after.hp <= 0)
    })
}

/// Resolve an enemy attack on the player, drawing the hit roll from the
/// generator.
pub fn enemy_attack(enemy: &Enemy, player: &mut Player, rng: &mut rand_chacha::ChaCha8Rng)
    -> (result: CombatResult)
    requires
        spec_enemy_combat_ready(*enemy),
        -1_000_000_000 <= old(player).hp <= 1_000_000_000,
    ensures
        spec_enemy_attack_outcome(*enemy, *old(player), *final(player), result),
{
    let roll = rng_below(rng, 1000);
    resolve_enemy_attack(enemy, player, roll as u32)
}

/// Action an enemy can take; one tagged intent produced by a single
/// decision function and consumed by one executor.
#[derive(Debug, Clone, Copy, PartialEq, Eq, Structural)]
pub enum EnemyAction {
    /// Move by a unit vector.
    Move { dx: i32, dy: i32 },
    /// Attack the player.
    Attack,
    /// Regenerate hit points (Regression).
    Regenerate(i32),
    /// Split in two (MergeConflict).
    Split,
    /// Grow damage (TechDebt).
    Grow(i32),
    /// Do nothing.
    Wait,
}

/// The special an enemy would use: a Regression below half health
/// regenerates 2; a TechDebt that has survived a turn and is below twice
/// its base damage grows by 1; a MergeConflict at or below half health
/// splits; a Bug has no special.
pub open spec fn spec_special(e: Enemy) -> Option<EnemyAction> {
    match e.enemy_type {
        EnemyType::Regression => if e.hp < e.max_hp / 2 {
            Some(EnemyAction::Regenerate(2))
        } else {
            None
        },
        EnemyType::TechDebt => if e.turns_alive > 0 && e.damage < 2 * spec_base_damage(e.enemy_type) {
            Some(EnemyAction::Grow(1))
        } else {
            None
        },
        EnemyType::MergeConflict => if e.hp <= e.max_hp / 2 {
            Some(EnemyAction::Split)
        } else {
            None
        },
        EnemyType::Bug => None,
    }
}

/// Check if the enemy should use its special ability this turn.
pub fn should_use_special(enemy: &Enemy) -> (r: Option<EnemyAction>)
    requires
        0 <= enemy.max_hp,
    ensures
        r == spec_special(*enemy),
{
    match enemy.enemy_type {
        EnemyType::Regression => {
            if enemy.hp < enemy.max_hp / 2 {
                return Some(EnemyAction::Regenerate(2));
            }
        }
        EnemyType::TechDebt => {
            if enemy.turns_alive > 0 && enemy.damage < enemy.enemy_type.base_damage() * 2 {
                return Some(EnemyAction::Grow(1));
            }
        }
        EnemyType::MergeConflict => {
            if enemy.at_half_health() {
                return Some(EnemyAction::Split);
            }
        }
        EnemyType::Bug => {}
    }
    None
}

/// The four cardinal deltas, in the fixed visitation order north, south,
/// west, east.
pub fn get_adjacent_deltas() -> (r: [(i32, i32); 4])
    ensures
        r@ =~= seq![(0i32, -1i32), (0i32, 1i32), (-1i32, 0i32), (1i32, 0i32)],
{
    [(0, -1), (0, 1), (-1, 0), (1, 0)]
}

/// The four positions cardinally adjacent to `pos`, in north, south,
/// west, east order.
pub fn get_adjacent_positions(pos: (i32, i32)) -> (r: Vec<(i32, i32)>)
    requires
        -1_000_000 <= pos.0 <= 1_000_000,
        -1_000_000 <= pos.1 <= 1_000_000,
    ensures
        r@ =~= seq![
            (pos.0, (pos.1 - 1) as i32),
            (pos.0, (pos.1 + 1) as i32),
            ((pos.0 - 1) as i32, pos.1),
            ((pos.0 + 1) as i32, pos.1),
        ],
{
    let mut r: Vec<(i32, i32)> = Vec::new();
    r.push((pos.0, pos.1 - 1));
    r.push((pos.0, pos.1 + 1));
    r.push((pos.0 - 1, pos.1));
    r.push((pos.0 + 1, pos.1));
    r
}

/// The Manhattan distance between two points.
pub open spec fn spec_manhattan(a: (i32, i32), b: (i32, i32)) -> int {
    let dx = if a.0 >= b.0 { a.0 - b.0 } else { b.0 - a.0 };
    let dy = if a.1 >= b.1 { a.1 - b.1 } else { b.1 - a.1 };
    dx + dy
}

/// Manhattan distance between two points.
pub fn manhattan_distance(a: (i32, i32), b: (i32, i32)) -> (d: i32)
    requires
        -1_000_000 <= a.0 <= 1_000_000,
        -1_000_000 <= a.1 <= 1_000_000,
        -1_000_000 <= b.0 <= 1_000_000,
        -1_000_000 <= b.1 <= 1_000_000,
    ensures
        d == spec_manhattan(a, b),
{
    let dx = if a.0 >= b.0 { a.0 - b.0 } else { b.0 - a.0 };
    let dy = if a.1 >= b.1 { a.1 - b.1 } else { b.1 - a.1 };
    dx + dy
}

/// `b` is one cardinal unit step away from `a`.
pub open spec fn spec_unit_step(a: (i32, i32), b: (i32, i32)) -> bool {
    spec_manhattan(a, b) == 1
}

fn vec_holds(v: &Vec<(i32, i32)>, p: (i32, i32)) -> (r: bool)
    ensures
        r == v@.contains(p),
{
    let n = v.len();
    let mut k: usize = 0;
    while k < n
        invariant
            n == v@.len(),
            0 <= k <= n,
            forall|a: int| 0 <= a < k ==> #[trigger] v@[a] != p,
        decreases n - k,
    {
        if v[k].0 == p.0 && v[k].1 == p.1 {
            proof {
                assert(v@[k as int] == p);
            }
            return true;
        }
        k += 1;
    }
    false
}

/// A queued search path: it starts at `from`, moves one cardinal unit at
/// a time, every cell after the first is walkable, no cell is the target,
/// and it holds at most 49 positions (leaving room for the target under
/// the 50-position cap).
pub open spec fn spec_entry_ok(room: Room, from: (i32, i32), to: (i32, i32), p: Seq<(i32, i32)>) -> bool {
    &&& 1 <= p.len() <= 49
    &&& p[0] == from
    &&& forall|i: int| 0 <= i < p.len() - 1 ==> spec_unit_step(#[trigger] p[i], p[i + 1])
    &&& forall|i: int| 1 <= i < p.len()
        ==> spec_walkable_at(room, (#[trigger] p[i]).0 as int, p[i].1 as int)
    &&& forall|i: int| 0 <= i < p.len() ==> #[trigger] p[i] != to
}

/// The well-formed state of the breadth-first search: entry 0 is the
/// start alone; every entry is a valid search path; entry lengths never
/// decrease along the queue; and the visited list pairs one-to-one, in
/// order, with the entries' final cells, each cell listed once.
pub open spec fn spec_bfs_wf(
    room: Room,
    from: (i32, i32),
    to: (i32, i32),
    qs: Seq<Vec<(i32, i32)>>,
    vis: Seq<(i32, i32)>,
) -> bool {
    &&& 1 <= qs.len()
    &&& qs[0]@ == seq![from]
    &&& vis.len() == qs.len()
    &&& vis.no_duplicates()
    &&& forall|j: int| 0 <= j < qs.len() ==> spec_entry_ok(room, from, to, (#[trigger] qs[j])@)
    &&& forall|j: int| 0 <= j < qs.len() ==> (#[trigger] qs[j])@.last() == vis[j]
    &&& forall|i: int, j: int| 0 <= i <= j < qs.len()
        ==> (#[trigger] qs[i])@.len() <= (#[trigger] qs[j])@.len()
}

/// Every entry is at most one step longer than the frontier entry.
pub open spec fn spec_bfs_frontier(qs: Seq<Vec<(i32, i32)>>, head: int) -> bool {
    0 <= head < qs.len() ==> forall|j: int| 0 <= j < qs.len()
        ==> (#[trigger] qs[j])@.len() <= qs[head]@.len() + 1
}

/// The entry at `j` is fully expanded: none of the four neighbours of its
/// final cell is the target, and each neighbour is unwalkable, or owned
/// by some entry at most one step longer, or out of reach under the
/// 50-position cap.
pub open spec fn spec_expanded(room: Room, to: (i32, i32), qs: Seq<Vec<(i32, i32)>>, j: int) -> bool {
    forall|dx: i32, dy: i32| #![trigger spec_manhattan((0i32, 0i32), (dx, dy))]
        spec_manhattan((0i32, 0i32), (dx, dy)) == 1 ==> {
            &&& !(qs[j]@.last().0 + dx == to.0 && qs[j]@.last().1 + dy == to.1)
            &&& (!spec_walkable_at(room, qs[j]@.last().0 + dx, qs[j]@.last().1 + dy)
                || (exists|j2: int| 0 <= j2 < qs.len()
                    && (#[trigger] qs[j2])@.last().0 == qs[j]@.last().0 + dx
                    && qs[j2]@.last().1 == qs[j]@.last().1 + dy
                    && qs[j2]@.len() <= qs[j]@.len() + 1)
                || qs[j]@.len() + 1 >= 50)
        }
}

/// A walkable route from `from` to `to` within the 50-position cap: it
/// starts at `from`, ends at `to`, moves one cardinal unit at a time, and
/// every cell strictly between the ends is walkable.
pub open spec fn spec_connecting_path(room: Room, from: (i32, i32), to: (i32, i32), p: Seq<(i32, i32)>) -> bool {
    &&& 2 <= p.len() <= 50
    &&& p[0] == from
    &&& p.last() == to
    &&& forall|i: int| 0 <= i < p.len() - 1 ==> spec_unit_step(#[trigger] p[i], p[i + 1])
    &&& forall|i: int| 1 <= i < p.len() - 1
        ==> spec_walkable_at(room, (#[trigger] p[i]).0 as int, p[i].1 as int)
}

proof fn lemma_expanded_extend(
    room: Room,
    to: (i32, i32),
    qs1: Seq<Vec<(i32, i32)>>,
    qs2: Seq<Vec<(i32, i32)>>,
    j: int,
)
    requires
        0 <= j < qs1.len(),
        qs1.len() <= qs2.len(),
        forall|q: int| 0 <= q < qs1.len() ==> #[trigger] qs2[q] == qs1[q],
        spec_expanded(room, to, qs1, j),
    ensures
        spec_expanded(room, to, qs2, j),
{
    assert forall|dx: i32, dy: i32| #![trigger spec_manhattan((0i32, 0i32), (dx, dy))]
        spec_manhattan((0i32, 0i32), (dx, dy)) == 1 implies {
            &&& !(qs2[j]@.last().0 + dx == to.0 && qs2[j]@.last().1 + dy == to.1)
            &&& (!spec_walkable_at(room, qs2[j]@.last().0 + dx, qs2[j]@.last().1 + dy)
                || (exists|j2: int| 0 <= j2 < qs2.len()
                    && (#[trigger] qs2[j2])@.last().0 == qs2[j]@.last().0 + dx
                    && qs2[j2]@.last().1 == qs2[j]@.last().1 + dy
                    && qs2[j2]@.len() <= qs2[j]@.len() + 1)
                || qs2[j]@.len() + 1 >= 50)
        } by {
        assert(qs2[j] == qs1[j]);
        if spec_walkable_at(room, qs1[j]@.last().0 + dx, qs1[j]@.last().1 + dy)
            && qs1[j]@.len() + 1 < 50 {
            let j2 = choose|j2: int| 0 <= j2 < qs1.len()
                && (#[trigger] qs1[j2])@.last().0 == qs1[j]@.last().0 + dx
                && qs1[j2]@.last().1 == qs1[j]@.last().1 + dy
                && qs1[j2]@.len() <= qs1[j]@.len() + 1;
            assert(qs2[j2] == qs1[j2]);
        }
    }
}

proof fn lemma_first_to(p: Seq<(i32, i32)>, to: (i32, i32), k: int) -> (m: int)
    requires
        0 <= k < p.len(),
        p.last() == to,
        forall|i: int| 0 <= i < k ==> #[trigger] p[i] != to,
    ensures
        k <= m < p.len(),
        p[m] == to,
        forall|i: int| 0 <= i < m ==> #[trigger] p[i] != to,
    decreases p.len() - k,
{
    if p[k] == to {
        k
    } else {
        lemma_first_to(p, to, k + 1)
    }
}

proof fn lemma_bfs_reaches(
    room: Room,
    from: (i32, i32),
    to: (i32, i32),
    qs: Seq<Vec<(i32, i32)>>,
    p: Seq<(i32, i32)>,
    bound: int,
    i: int,
)
    requires
        qs.len() >= 1,
        qs[0]@ == seq![from],
        forall|j: int| 0 <= j < qs.len() ==> spec_entry_ok(room, from, to, (#[trigger] qs[j])@),
        forall|j: int| 0 <= j < qs.len() && qs[j]@.len() <= bound
            ==> #[trigger] spec_expanded(room, to, qs, j),
        i <= bound,
        2 <= p.len() <= 50,
        p[0] == from,
        p.last() == to,
        forall|k: int| 0 <= k < p.len() - 1 ==> spec_unit_step(#[trigger] p[k], p[k + 1]),
        forall|k: int| 1 <= k < p.len() - 1
            ==> spec_walkable_at(room, (#[trigger] p[k]).0 as int, p[k].1 as int),
        forall|k: int| 0 <= k < p.len() - 1 ==> #[trigger] p[k] != to,
        0 <= i <= p.len() - 2,
    ensures
        exists|j: int| 0 <= j < qs.len() && (#[trigger] qs[j])@.last() == p[i]
            && qs[j]@.len() <= i + 1,
    decreases i,
{
    if i == 0 {
        assert(qs[0]@.last() == from);
        assert(qs[0]@.len() == 1);
    } else {
        lemma_bfs_reaches(room, from, to, qs, p, bound, i - 1);
        let j = choose|j: int| 0 <= j < qs.len() && (#[trigger] qs[j])@.last() == p[i - 1]
            && qs[j]@.len() <= i;
        assert(qs[j]@.len() <= bound);
        assert(spec_expanded(room, to, qs, j));
        assert(spec_unit_step(p[i - 1], p[i]));
        let dx = (p[i].0 - p[i - 1].0) as i32;
        let dy = (p[i].1 - p[i - 1].1) as i32;
        assert(spec_manhattan((0i32, 0i32), (dx, dy)) == 1);
        assert(spec_expanded(room, to, qs, j));
        assert(qs[j]@.last().0 + dx == p[i].0 && qs[j]@.last().1 + dy == p[i].1);
        assert(spec_walkable_at(room, p[i].0 as int, p[i].1 as int));
        assert(qs[j]@.len() + 1 <= i + 1 <= p.len() - 1 <= 49);
        let j2 = choose|j2: int| 0 <= j2 < qs.len()
            && (#[trigger] qs[j2])@.last().0 == qs[j]@.last().0 + dx
            && qs[j2]@.last().1 == qs[j]@.last().1 + dy
            && qs[j2]@.len() <= qs[j]@.len() + 1;
        assert(qs[j2]@.last() == p[i]);
        assert(qs[j2]@.len() <= i + 1);
    }
}

proof fn lemma_bfs_no_short_path(
    room: Room,
    from: (i32, i32),
    to: (i32, i32),
    qs: Seq<Vec<(i32, i32)>>,
    p: Seq<(i32, i32)>,
    bound: int,
)
    requires
        from != to,
        qs.len() >= 1,
        qs[0]@ == seq![from],
        forall|j: int| 0 <= j < qs.len() ==> spec_entry_ok(room, from, to, (#[trigger] qs[j])@),
        forall|j: int| 0 <= j < qs.len() && qs[j]@.len() <= bound
            ==> #[trigger] spec_expanded(room, to, qs, j),
        0 <= bound,
    ensures
        !(spec_connecting_path(room, from, to, p) && p.len() <= bound + 1),
{
    if !(spec_connecting_path(room, from, to, p) && p.len() <= bound + 1) {
        return;
    }
    // truncate the route at its first target cell
    assert(p[0] != to);
    let m = lemma_first_to(p, to, 0);
    assert(m >= 1);
    let p2 = p.subrange(0, m + 1);
    assert(p2.len() == m + 1);
    assert(p2[0] == from);
    assert(p2.last() == p[m]);
    assert forall|k: int| 0 <= k < p2.len() - 1
        implies spec_unit_step(#[trigger] p2[k], p2[k + 1]) by {
        assert(p2[k] == p[k] && p2[k + 1] == p[k + 1]);
    }
    assert forall|k: int| 1 <= k < p2.len() - 1
        implies spec_walkable_at(room, (#[trigger] p2[k]).0 as int, p2[k].1 as int) by {
        assert(p2[k] == p[k]);
        assert(1 <= k < p.len() - 1);
    }
    assert forall|k: int| 0 <= k < p2.len() - 1 implies #[trigger] p2[k] != to by {
        assert(p2[k] == p[k]);
    }
    lemma_bfs_reaches(room, from, to, qs, p2, bound, m - 1);
    let j = choose|j: int| 0 <= j < qs.len() && (#[trigger] qs[j])@.last() == p2[m - 1]
        && qs[j]@.len() <= m;
    assert(qs[j]@.len() <= bound);
    assert(spec_expanded(room, to, qs, j));
    let dx = (p2[m].0 - p2[m - 1].0) as i32;
    let dy = (p2[m].1 - p2[m - 1].1) as i32;
    assert(spec_unit_step(p2[m - 1], p2[m]));
    assert(spec_manhattan((0i32, 0i32), (dx, dy)) == 1);
    assert(spec_expanded(room, to, qs, j + 0));
    // the owner's neighbour is the target, which expansion rules out
    assert(qs[j]@.last().0 + dx == to.0 && qs[j]@.last().1 + dy == to.1);
    assert(false);
}



proof fn lemma_visited_bound(room: Room, from: (i32, i32), vis: Seq<(i32, i32)>)
    requires
        vis.no_duplicates(),
        forall|i: int| 0 <= i < vis.len() ==> #[trigger] vis[i] == from
            || spec_walkable_at(room, vis[i].0 as int, vis[i].1 as int),
    ensures
        vis.len() <= room.width * room.height + 1,
{
    let w = room.width as int;
    let h = room.height as int;
    let codes = Seq::new(vis.len(), |i: int| if vis[i] == from {
        w * h
    } else {
        (vis[i].1 as int) * w + (vis[i].0 as int)
    });
    assert forall|i: int| 0 <= i < codes.len() implies 0 <= #[trigger] codes[i] <= w * h by {
        if vis[i] != from {
            let x = vis[i].0 as int;
            let y = vis[i].1 as int;
            assert(0 <= x < w && 0 <= y < h);
            assert(0 <= y * w + x <= w * h - 1) by (nonlinear_arith)
                requires
                    0 <= x < w,
                    0 <= y < h,
            ;
        }
    }
    assert forall|i: int, j: int| 0 <= i < j < codes.len()
        implies #[trigger] codes[i] != #[trigger] codes[j] by {
        assert(vis[i] != vis[j]);
        if vis[i] == from || vis[j] == from {
            // exactly one holds, and in-grid codes stay below the start code
            if vis[i] == from {
                let x = vis[j].0 as int;
                let y = vis[j].1 as int;
                assert(y * w + x <= w * h - 1) by (nonlinear_arith)
                    requires
                        0 <= x < w,
                        0 <= y < h,
                ;
            } else {
                let x = vis[i].0 as int;
                let y = vis[i].1 as int;
                assert(y * w + x <= w * h - 1) by (nonlinear_arith)
                    requires
                        0 <= x < w,
                        0 <= y < h,
                ;
            }
        } else {
            let x1 = vis[i].0 as int;
            let y1 = vis[i].1 as int;
            let x2 = vis[j].0 as int;
            let y2 = vis[j].1 as int;
            assert(y1 * w + x1 != y2 * w + x2) by (nonlinear_arith)
                requires
                    0 <= x1 < w,
                    0 <= y1 < h,
                    0 <= x2 < w,
                    0 <= y2 < h,
                    !(x1 == x2 && y1 == y2),
            ;
        }
    }
    codes.unique_seq_to_set();
    let range = vstd::set_lib::set_int_range(0, w * h + 1);
    vstd::set_lib::lemma_int_range(0, w * h + 1);
    assert(codes.to_set().subset_of(range));
    vstd::set_lib::lemma_len_subset(codes.to_set(), range);
}

/// The running state of the breadth-first search: the queue of paths and
/// the visited cells.
#[verifier::ext_equal]
pub struct BfsState {
    pub q: Seq<Seq<(i32, i32)>>,
    pub vis: Seq<(i32, i32)>,
}

/// The search's fixed neighbour visitation order: north, south, west,
/// east.
pub open spec fn spec_bfs_delta(d: int) -> (i32, i32) {
    if d == 0 {
        (0i32, -1i32)
    } else if d == 1 {
        (0i32, 1i32)
    } else if d == 2 {
        (-1i32, 0i32)
    } else {
        (1i32, 0i32)
    }
}

/// One neighbour of the frontier path: the target completes the path; a
/// fresh walkable cell is visited and, under the cap, enqueued; anything
/// else changes nothing.
pub open spec fn spec_bfs_neighbor(
    room: Room,
    to: (i32, i32),
    st: BfsState,
    head: int,
    next: (i32, i32),
) -> (Option<Seq<(i32, i32)>>, BfsState) {
    let path = st.q[head];
    if next == to {
        (Some(path.push(next)), st)
    } else if !st.vis.contains(next)
        && spec_walkable_at(room, next.0 as int, next.1 as int) {
        if path.len() < 49 {
            (None, BfsState { q: st.q.push(path.push(next)), vis: st.vis.push(next) })
        } else {
            (None, st)
        }
    } else {
        (None, st)
    }
}

/// The four neighbours of the frontier path, visited in order; the first
/// hit on the target wins.
pub open spec fn spec_bfs_expand(
    room: Room,
    to: (i32, i32),
    st: BfsState,
    head: int,
    d: int,
) -> (Option<Seq<(i32, i32)>>, BfsState)
    decreases 4 - d,
{
    if d >= 4 {
        (None, st)
    } else {
        let last = st.q[head].last();
        let delta = spec_bfs_delta(d);
        let next = ((last.0 + delta.0) as i32, (last.1 + delta.1) as i32);
        let step = spec_bfs_neighbor(room, to, st, head, next);
        if step.0 is Some {
            step
        } else {
            spec_bfs_expand(room, to, step.1, head, d + 1)
        }
    }
}

/// The search loop: expand each queued path in turn until the target is
/// found or the queue (or the search budget) runs out.
pub open spec fn spec_bfs_loop(room: Room, to: (i32, i32), st: BfsState, head: int)
    -> Option<Seq<(i32, i32)>>
    decreases 1_000_000 - head,
{
    if head >= st.q.len() || head >= 1_000_000 || head < 0 {
        None
    } else {
        let step = spec_bfs_expand(room, to, st, head, 0);
        if step.0 is Some {
            step.0
        } else {
            spec_bfs_loop(room, to, step.1, head + 1)
        }
    }
}

/// The path the breadth-first search finds, as a function of its inputs
/// alone: identical inputs always yield the identical result.
pub open spec fn spec_find_path(room: Room, from: (i32, i32), to: (i32, i32))
    -> Option<Seq<(i32, i32)>> {
    if from == to {
        Some(seq![from])
    } else {
        spec_bfs_loop(room, to, BfsState { q: seq![seq![from]], vis: seq![from] }, 0)
    }
}

/// The abstract view of the search queue.
pub open spec fn spec_qviews(q: Seq<Vec<(i32, i32)>>) -> Seq<Seq<(i32, i32)>> {
    q.map_values(|v: Vec<(i32, i32)>| v@)
}

#[verifier::rlimit(100)]
fn try_neighbor(
    from: (i32, i32),
    to: (i32, i32),
    room: &Room,
    queue: &mut Vec<Vec<(i32, i32)>>,
    visited: &mut Vec<(i32, i32)>,
    head: usize,
    next: (i32, i32),
) -> (r: Option<Vec<(i32, i32)>>)
    requires
        spec_room_wf(*room),
        head < old(queue)@.len(),
        spec_unit_step(old(queue)@[head as int]@.last(), next),
        spec_bfs_wf(*room, from, to, old(queue)@, old(visited)@),
        spec_bfs_frontier(old(queue)@, head as int),
    ensures
        r matches Some(p) ==> {
            &&& 1 <= p@.len() <= 50
            &&& p@.len() == old(queue)@[head as int]@.len() + 1
            &&& p@[0] == from
            &&& p@.last() == to
            &&& forall|i: int| 0 <= i < p@.len() - 1 ==> spec_unit_step(#[trigger] p@[i], p@[i + 1])
            &&& forall|i: int| 1 <= i < p@.len() - 1
                ==> spec_walkable_at(*room, (#[trigger] p@[i]).0 as int, p@[i].1 as int)
            &&& spec_bfs_neighbor(*room, to, BfsState {
                    q: spec_qviews(old(queue)@),
                    vis: old(visited)@,
                }, head as int, next).0 == Some(p@)
            &&& final(queue)@ == old(queue)@ && final(visited)@ == old(visited)@
        },
        r is None ==> {
            &&& final(queue)@.len() >= old(queue)@.len()
            &&& forall|q: int| 0 <= q < old(queue)@.len()
                ==> #[trigger] final(queue)@[q] == old(queue)@[q]
            &&& spec_bfs_wf(*room, from, to, final(queue)@, final(visited)@)
            &&& spec_bfs_frontier(final(queue)@, head as int)
            &&& spec_bfs_neighbor(*room, to, BfsState {
                    q: spec_qviews(old(queue)@),
                    vis: old(visited)@,
                }, head as int, next)
                == (None::<Seq<(i32, i32)>>, BfsState {
                    q: spec_qviews(final(queue)@),
                    vis: final(visited)@,
                })
            &&& !(next.0 == to.0 && next.1 == to.1)
            &&& (!spec_walkable_at(*room, next.0 as int, next.1 as int)
                || (exists|j2: int| 0 <= j2 < final(queue)@.len()
                    && (#[trigger] final(queue)@[j2])@.last() == next
                    && final(queue)@[j2]@.len() <= old(queue)@[head as int]@.len() + 1)
                || old(queue)@[head as int]@.len() + 1 >= 50)
        },
{
    let ghost base = queue@[head as int]@;

    if next.0 == to.0 && next.1 == to.1 {
        let mut new_path = clone_positions(&queue[head]);
        new_path.push(next);
        proof {
            let np = new_path@;
            assert(np.len() == base.len() + 1);
            assert(np[0] == from);
            assert(np.last() == to);
            assert forall|i: int| 0 <= i < np.len() - 1
                implies spec_unit_step(#[trigger] np[i], np[i + 1]) by {
                if i < base.len() - 1 {
                    assert(np[i] == base[i] && np[i + 1] == base[i + 1]);
                } else {
                    assert(np[i] == base.last() && np[i + 1] == next);
                }
            }
            assert forall|i: int| 1 <= i < np.len() - 1
                implies spec_walkable_at(*room, (#[trigger] np[i]).0 as int,
                    np[i].1 as int) by {
                assert(np[i] == base[i]);
            }
            // the model takes the same completion step
            let st0 = BfsState { q: spec_qviews(old(queue)@), vis: old(visited)@ };
            assert(st0.q[head as int] == base);
            assert(next == to) by {
                assert(next.0 == to.0 && next.1 == to.1);
            }
            assert(spec_bfs_neighbor(*room, to, st0, head as int, next).0 == Some(np));
        }
        return Some(new_path);
    }

    let already = vec_holds(visited, next);
    let walk = room.is_walkable(next.0, next.1);
    if !already && walk {
        if queue[head].len() < 49 {
            let ghost q0 = queue@;
            let ghost v0 = visited@;
            visited.push(next);
            let mut new_path = clone_positions(&queue[head]);
            new_path.push(next);
            proof {
                let np = new_path@;
                assert(np[0] == from);
                assert forall|i: int| 0 <= i < np.len() - 1
                    implies spec_unit_step(#[trigger] np[i], np[i + 1]) by {
                    if i < base.len() - 1 {
                        assert(np[i] == base[i] && np[i + 1] == base[i + 1]);
                    } else {
                        assert(np[i] == base.last() && np[i + 1] == next);
                    }
                }
                assert forall|i: int| 1 <= i < np.len()
                    implies spec_walkable_at(*room, (#[trigger] np[i]).0 as int,
                        np[i].1 as int) by {
                    if i < base.len() {
                        assert(np[i] == base[i]);
                    } else {
                        assert(np[i] == next);
                    }
                }
                assert forall|i: int| 0 <= i < np.len() implies #[trigger] np[i] != to by {
                    if i < base.len() {
                        assert(np[i] == base[i]);
                    } else {
                        assert(np[i] == next);
                        assert(next != to) by {
                            if next == to {
                                assert(next.0 == to.0 && next.1 == to.1);
                            }
                        }
                    }
                }
                assert(spec_entry_ok(*room, from, to, np));
            }
            queue.push(new_path);
            proof {
                let qs = queue@;
                let vs = visited@;
                let new_idx = q0.len() as int;
                assert(qs[new_idx]@ == new_path@);
                assert(qs[new_idx]@.last() == next);
                // the visited list still pairs with the entries, each once
                assert(vs.no_duplicates()) by {
                    assert forall|a: int, b: int| 0 <= a < b < vs.len()
                        implies vs[a] != vs[b] by {
                        if b < v0.len() {
                            assert(vs[a] == v0[a] && vs[b] == v0[b]);
                        } else {
                            assert(vs[b] == next && vs[a] == v0[a]);
                            assert(v0.contains(v0[a]));
                        }
                    }
                }
                assert forall|j: int| 0 <= j < qs.len()
                    implies spec_entry_ok(*room, from, to, (#[trigger] qs[j])@)
                        && qs[j]@.last() == vs[j] by {
                    if j < new_idx {
                        assert(qs[j] == q0[j] && vs[j] == v0[j]);
                    }
                }
                assert forall|i: int, j: int| 0 <= i <= j < qs.len()
                    implies (#[trigger] qs[i])@.len() <= (#[trigger] qs[j])@.len() by {
                    if j < new_idx {
                        assert(qs[i] == q0[i] && qs[j] == q0[j]);
                    } else {
                        assert(qs[j]@.len() == base.len() + 1);
                        if i < new_idx {
                            assert(qs[i] == q0[i]);
                            assert(q0[i]@.len() <= q0[head as int]@.len() + 1);
                        }
                    }
                }
                assert(spec_bfs_wf(*room, from, to, qs, vs));
                assert forall|j: int| 0 <= j < qs.len()
                    implies (#[trigger] qs[j])@.len() <= qs[head as int]@.len() + 1 by {
                    if j < new_idx {
                        assert(qs[j] == q0[j]);
                    }
                }
            }
        }
    }
    proof {
        if !already && spec_walkable_at(*room, next.0 as int, next.1 as int)
            && base.len() + 1 < 50 {
            // just enqueued: the new final entry owns the neighbour
            assert(queue@[queue@.len() - 1]@.last() == next);
        }
        if already {
            // an earlier entry owns the neighbour, within a step of the frontier
            let idx = choose|idx: int| 0 <= idx < old(visited)@.len()
                && old(visited)@[idx] == next;
            assert(queue@[idx]@.last() == next);
            assert(queue@[idx]@.len() <= queue@[head as int]@.len() + 1);
        }
        // the model takes the same step and lands on the same state
        let st0 = BfsState { q: spec_qviews(old(queue)@), vis: old(visited)@ };
        let st1 = BfsState { q: spec_qviews(queue@), vis: visited@ };
        assert(st0.q[head as int] == base);
        assert(next != to) by {
            if next == to {
                assert(next.0 == to.0 && next.1 == to.1);
            }
        }
        assert(already == st0.vis.contains(next));
        if !already && walk && base.len() < 49 {
            assert(st1.vis =~= st0.vis.push(next));
            assert(st1.q =~= st0.q.push(base.push(next))) by {
                assert forall|k: int| 0 <= k < st1.q.len()
                    implies st1.q[k] == #[trigger] st0.q.push(base.push(next))[k] by {
                    if k < st0.q.len() {
                        assert(queue@[k] == old(queue)@[k]);
                    } else {
                        assert(queue@[k]@ == base.push(next));
                    }
                }
            }
            assert(st1 =~= spec_bfs_neighbor(*room, to, st0, head as int, next).1);
        } else {
            assert(st1 =~= st0);
            assert(st1 =~= spec_bfs_neighbor(*room, to, st0, head as int, next).1);
        }
        assert(spec_bfs_neighbor(*room, to, st0, head as int, next).0 is None);
        assert(spec_bfs_neighbor(*room, to, st0, head as int, next)
            == (None::<Seq<(i32, i32)>>, st1));
    }
    None
}

#[verifier::rlimit(100)]
fn expand_node(
    from: (i32, i32),
    to: (i32, i32),
    room: &Room,
    queue: &mut Vec<Vec<(i32, i32)>>,
    visited: &mut Vec<(i32, i32)>,
    head: usize,
) -> (r: Option<Vec<(i32, i32)>>)
    requires
        spec_room_wf(*room),
        -1_000_000 <= from.0 <= 1_000_000,
        -1_000_000 <= from.1 <= 1_000_000,
        head < old(queue)@.len(),
        spec_bfs_wf(*room, from, to, old(queue)@, old(visited)@),
        spec_bfs_frontier(old(queue)@, head as int),
    ensures
        r matches Some(p) ==> {
            &&& 1 <= p@.len() <= 50
            &&& p@.len() == old(queue)@[head as int]@.len() + 1
            &&& p@[0] == from
            &&& p@.last() == to
            &&& forall|i: int| 0 <= i < p@.len() - 1 ==> spec_unit_step(#[trigger] p@[i], p@[i + 1])
            &&& forall|i: int| 1 <= i < p@.len() - 1
                ==> spec_walkable_at(*room, (#[trigger] p@[i]).0 as int, p@[i].1 as int)
        },
        r matches Some(p) ==> spec_bfs_expand(*room, to, BfsState {
                q: spec_qviews(old(queue)@),
                vis: old(visited)@,
            }, head as int, 0).0 == Some(p@),
        r is None ==> {
            &&& final(queue)@.len() >= old(queue)@.len()
            &&& forall|q: int| 0 <= q < old(queue)@.len()
                ==> #[trigger] final(queue)@[q] == old(queue)@[q]
            &&& spec_bfs_wf(*room, from, to, final(queue)@, final(visited)@)
            &&& spec_bfs_frontier(final(queue)@, head as int)
            &&& spec_expanded(*room, to, final(queue)@, head as int)
            &&& spec_bfs_expand(*room, to, BfsState {
                    q: spec_qviews(old(queue)@),
                    vis: old(visited)@,
                }, head as int, 0)
                == (None::<Seq<(i32, i32)>>, BfsState {
                    q: spec_qviews(final(queue)@),
                    vis: final(visited)@,
                })
        },
{
    let path_len = queue[head].len();
    let cur = queue[head][path_len - 1];
    proof {
        let base = queue@[head as int]@;
        assert(base.last() == cur);
        // the tail of any queued path is the start or a walkable tile
        if base.len() == 1 {
            assert(cur == from);
        } else {
            assert(spec_walkable_at(*room, base[base.len() - 1].0 as int,
                base[base.len() - 1].1 as int));
        }
    }
    let ghost hl = queue@[head as int]@.len();
    let ghost st0 = BfsState { q: spec_qviews(old(queue)@), vis: old(visited)@ };
    proof {
        assert(st0.q[head as int] == old(queue)@[head as int]@);
        assert(st0.q[head as int].last() == cur);
    }

    let r0 = try_neighbor(from, to, room, queue, visited, head, (cur.0, cur.1 - 1));
    if let Some(p) = r0 {
        proof {
            assert(spec_bfs_expand(*room, to, st0, head as int, 0).0 == Some(p@));
        }
        return Some(p);
    }
    let ghost qa = queue@;
    let ghost sta = BfsState { q: spec_qviews(queue@), vis: visited@ };
    proof {
        assert(sta.q[head as int] == old(queue)@[head as int]@);
        assert(spec_bfs_expand(*room, to, st0, head as int, 0)
            == spec_bfs_expand(*room, to, sta, head as int, 1));
    }
    let r1 = try_neighbor(from, to, room, queue, visited, head, (cur.0, cur.1 + 1));
    if let Some(p) = r1 {
        proof {
            assert(spec_bfs_expand(*room, to, sta, head as int, 1).0 == Some(p@));
        }
        return Some(p);
    }
    let ghost qb = queue@;
    let ghost stb = BfsState { q: spec_qviews(queue@), vis: visited@ };
    proof {
        assert(stb.q[head as int] == old(queue)@[head as int]@);
        assert(spec_bfs_expand(*room, to, sta, head as int, 1)
            == spec_bfs_expand(*room, to, stb, head as int, 2));
    }
    let r2 = try_neighbor(from, to, room, queue, visited, head, (cur.0 - 1, cur.1));
    if let Some(p) = r2 {
        proof {
            assert(spec_bfs_expand(*room, to, stb, head as int, 2).0 == Some(p@));
        }
        return Some(p);
    }
    let ghost qc = queue@;
    let ghost stc = BfsState { q: spec_qviews(queue@), vis: visited@ };
    proof {
        assert(stc.q[head as int] == old(queue)@[head as int]@);
        assert(spec_bfs_expand(*room, to, stb, head as int, 2)
            == spec_bfs_expand(*room, to, stc, head as int, 3));
    }
    let r3 = try_neighbor(from, to, room, queue, visited, head, (cur.0 + 1, cur.1));
    if let Some(p) = r3 {
        proof {
            assert(spec_bfs_expand(*room, to, stc, head as int, 3).0 == Some(p@));
        }
        return Some(p);
    }
    proof {
        let std_ = BfsState { q: spec_qviews(queue@), vis: visited@ };
        let next3 = ((cur.0 + 1) as i32, cur.1);
        assert(spec_bfs_delta(3) == (1i32, 0i32));
        assert(spec_bfs_neighbor(*room, to, stc, head as int, next3)
            == (None::<Seq<(i32, i32)>>, std_));
        assert(spec_bfs_expand(*room, to, std_, head as int, 4)
            == (None::<Seq<(i32, i32)>>, std_));
        assert(spec_bfs_expand(*room, to, stc, head as int, 3)
            == (None::<Seq<(i32, i32)>>, std_));
        assert(spec_bfs_expand(*room, to, st0, head as int, 0)
            == (None::<Seq<(i32, i32)>>, std_));
    }
    proof {
        let qs = queue@;
        // each neighbour's owner survives the later pushes
        assert forall|dx: i32, dy: i32| #![trigger spec_manhattan((0i32, 0i32), (dx, dy))]
            spec_manhattan((0i32, 0i32), (dx, dy)) == 1 implies {
                &&& !(qs[head as int]@.last().0 + dx == to.0
                    && qs[head as int]@.last().1 + dy == to.1)
                &&& (!spec_walkable_at(*room, qs[head as int]@.last().0 + dx,
                        qs[head as int]@.last().1 + dy)
                    || (exists|j2: int| 0 <= j2 < qs.len()
                        && (#[trigger] qs[j2])@.last().0 == qs[head as int]@.last().0 + dx
                        && qs[j2]@.last().1 == qs[head as int]@.last().1 + dy
                        && qs[j2]@.len() <= qs[head as int]@.len() + 1)
                    || qs[head as int]@.len() + 1 >= 50)
            } by {
            assert(qs[head as int]@.last() == cur);
            assert((dx == 0 && (dy == 1 || dy == -1)) || (dy == 0 && (dx == 1 || dx == -1)));
            let n = (cur.0 + dx, cur.1 + dy);
            if spec_walkable_at(*room, cur.0 + dx as int, cur.1 + dy as int) && hl + 1 < 50 {
                if dx == 0 && dy == -1 {
                    let j2 = choose|j2: int| 0 <= j2 < qa.len()
                        && (#[trigger] qa[j2])@.last() == (cur.0, (cur.1 - 1) as i32)
                        && qa[j2]@.len() <= hl + 1;
                    assert(qs[j2] == qa[j2]);
                } else if dx == 0 && dy == 1 {
                    let j2 = choose|j2: int| 0 <= j2 < qb.len()
                        && (#[trigger] qb[j2])@.last() == (cur.0, (cur.1 + 1) as i32)
                        && qb[j2]@.len() <= hl + 1;
                    assert(qs[j2] == qb[j2]);
                } else if dx == -1 && dy == 0 {
                    let j2 = choose|j2: int| 0 <= j2 < qc.len()
                        && (#[trigger] qc[j2])@.last() == ((cur.0 - 1) as i32, cur.1)
                        && qc[j2]@.len() <= hl + 1;
                    assert(qs[j2] == qc[j2]);
                } else {
                    let j2 = choose|j2: int| 0 <= j2 < qs.len()
                        && (#[trigger] qs[j2])@.last() == ((cur.0 + 1) as i32, cur.1)
                        && qs[j2]@.len() <= hl + 1;
                }
            }
        }
        assert(spec_expanded(*room, to, qs, head as int));
    }
    None
}

/// Find a path from `from` to `to` by breadth-first search over
/// 4-connected walkable tiles, visiting neighbours north, south, west,
/// east, with paths capped at 50 positions. Whenever any walkable route
/// within the cap connects the two points, a path is returned; a returned
/// path starts at `from`, ends at `to`, moves one cardinal unit at a
/// time, and walks only on walkable tiles in between — so two points
/// separated by a complete wall barrier never yield one. The result
/// equals `spec_find_path` on the same inputs, so identical inputs
/// always yield the identical answer.
#[verifier::rlimit(100)]
pub fn find_path(from: (i32, i32), to: (i32, i32), room: &Room) -> (r: Option<Vec<(i32, i32)>>)
    requires
        spec_room_wf(*room),
        -1_000_000 <= from.0 <= 1_000_000,
        -1_000_000 <= from.1 <= 1_000_000,
    ensures
        r matches Some(p) ==> {
            &&& 1 <= p@.len() <= 50
            &&& p@[0] == from
            &&& p@.last() == to
            &&& forall|i: int| 0 <= i < p@.len() - 1 ==> spec_unit_step(#[trigger] p@[i], p@[i + 1])
            &&& forall|i: int| 1 <= i < p@.len() - 1
                ==> spec_walkable_at(*room, (#[trigger] p@[i]).0 as int, p@[i].1 as int)
            &&& forall|p2: Seq<(i32, i32)>| #[trigger] spec_connecting_path(*room, from, to, p2)
                ==> p2.len() >= p@.len()
        },
        from == to ==> (r matches Some(pp) && pp@ =~= seq![from]),
        (exists|p: Seq<(i32, i32)>| #[trigger] spec_connecting_path(*room, from, to, p))
            ==> r is Some,
        r matches Some(p) ==> spec_find_path(*room, from, to) == Some(p@),
        r is None ==> spec_find_path(*room, from, to) is None,
{
    if from.0 == to.0 && from.1 == to.1 {
        let mut p: Vec<(i32, i32)> = Vec::new();
        p.push(from);
        proof {
            assert(p@ =~= seq![from]);
            assert(p@.len() == 1);
            assert(from == to);
            assert(spec_find_path(*room, from, to) == Some(p@));
        }
        return Some(p);
    }
    proof {
        assert(from != to) by {
            if from == to {
                assert(from.0 == to.0 && from.1 == to.1);
            }
        }
    }

    let mut visited: Vec<(i32, i32)> = Vec::new();
    let mut queue: Vec<Vec<(i32, i32)>> = Vec::new();
    let mut first: Vec<(i32, i32)> = Vec::new();
    first.push(from);
    proof {
        assert(first@ =~= seq![from]);
    }
    queue.push(first);
    visited.push(from);
    proof {
        assert(queue@[0]@ == seq![from]);
        assert(queue@[0]@.last() == from);
        assert(spec_bfs_wf(*room, from, to, queue@, visited@));
        assert(spec_qviews(queue@) =~= seq![seq![from]]);
        assert(visited@ =~= seq![from]);
        assert(spec_find_path(*room, from, to)
            == spec_bfs_loop(*room, to, BfsState { q: spec_qviews(queue@), vis: visited@ }, 0));
    }

    let mut head: usize = 0;
    while head < queue.len() && head < 1_000_000
        invariant
            spec_room_wf(*room),
            from != to,
            -1_000_000 <= from.0 <= 1_000_000,
            -1_000_000 <= from.1 <= 1_000_000,
            0 <= head <= queue@.len(),
            spec_bfs_wf(*room, from, to, queue@, visited@),
            spec_bfs_frontier(queue@, head as int),
            forall|j: int| 0 <= j < head ==> #[trigger] spec_expanded(*room, to, queue@, j),
            spec_find_path(*room, from, to) == spec_bfs_loop(*room, to, BfsState {
                q: spec_qviews(queue@),
                vis: visited@,
            }, head as int),
        decreases 1_000_000 - head,
    {
        let ghost q_before = queue@;
        let ghost v_before = visited@;
        let ghost st_before = BfsState { q: spec_qviews(q_before), vis: v_before };
        let found = expand_node(from, to, room, &mut queue, &mut visited, head);
        match found {
            Some(p) => {
                proof {
                    // a breadth-first hit: nothing shorter can connect the
                    // points, since every strictly shorter entry was expanded
                    let hl = q_before[head as int]@.len();
                    assert forall|p2: Seq<(i32, i32)>|
                        #[trigger] spec_connecting_path(*room, from, to, p2)
                        implies p2.len() >= p@.len() by {
                        if p2.len() < hl + 1 {
                            assert forall|j: int| 0 <= j < q_before.len()
                                && q_before[j]@.len() <= hl - 1
                                implies #[trigger] spec_expanded(*room, to, q_before, j) by {
                                if j >= head {
                                    assert(q_before[head as int]@.len()
                                        <= q_before[j]@.len());
                                }
                                assert(j < head);
                            }
                            lemma_bfs_no_short_path(*room, from, to, q_before, p2, hl - 1);
                        }
                    }
                    // the model's step finds the same path here
                    assert(spec_bfs_expand(*room, to, st_before, head as int, 0).0 == Some(p@));
                    assert(spec_bfs_loop(*room, to, st_before, head as int) == Some(p@));
                }
                return Some(p);
            }
            None => {}
        }
        proof {
            // the model takes the same step
            let st_after = BfsState { q: spec_qviews(queue@), vis: visited@ };
            assert(spec_bfs_expand(*room, to, st_before, head as int, 0)
                == (None::<Seq<(i32, i32)>>, st_after));
            assert(spec_bfs_loop(*room, to, st_before, head as int)
                == spec_bfs_loop(*room, to, st_after, head as int + 1));
            assert forall|j: int| 0 <= j < head + 1
                implies #[trigger] spec_expanded(*room, to, queue@, j) by {
                if j < head {
                    assert(spec_expanded(*room, to, q_before, j));
                    lemma_expanded_extend(*room, to, q_before, queue@, j);
                }
            }
            // the next frontier entry is no shorter, so the one-step bound holds on
            if head + 1 < queue@.len() {
                assert(queue@[head as int]@.len() <= queue@[head + 1]@.len());
            }
        }
        head += 1;
    }

    proof {
        // the visited list fits the grid (plus the start), so the search
        // budget never binds and the queue was fully processed
        assert forall|i: int| 0 <= i < visited@.len()
            implies #[trigger] visited@[i] == from
                || spec_walkable_at(*room, visited@[i].0 as int, visited@[i].1 as int) by {
            assert(queue@[i]@.last() == visited@[i]);
            let e = queue@[i]@;
            if e.len() == 1 {
                assert(e.last() == e[0]);
            } else {
                assert(spec_walkable_at(*room, e[e.len() - 1].0 as int, e[e.len() - 1].1 as int));
            }
        }
        lemma_visited_bound(*room, from, visited@);
        assert(room.width * room.height <= 65025) by (nonlinear_arith)
            requires
                0 <= room.width < 256,
                0 <= room.height < 256,
        ;
        assert(queue@.len() <= 65026);
        assert(head == queue@.len());
        assert(!(exists|p: Seq<(i32, i32)>| #[trigger] spec_connecting_path(*room, from, to, p)))
            by {
            if exists|p: Seq<(i32, i32)>| #[trigger] spec_connecting_path(*room, from, to, p) {
                let p = choose|p: Seq<(i32, i32)>|
                    #[trigger] spec_connecting_path(*room, from, to, p);
                assert forall|j: int| 0 <= j < queue@.len()
                    implies #[trigger] spec_expanded(*room, to, queue@, j) by {
                }
                lemma_bfs_no_short_path(*room, from, to, queue@, p, 49);
            }
        }
        // the model's queue runs out at the same point
        assert(spec_bfs_loop(*room, to, BfsState {
            q: spec_qviews(queue@),
            vis: visited@,
        }, head as int) is None);
    }
    None
}

fn clone_positions(v: &Vec<(i32, i32)>) -> (r: Vec<(i32, i32)>)
    ensures
        r@ == v@,
{
    let n = v.len();
    let mut r: Vec<(i32, i32)> = Vec::new();
    let mut i: usize = 0;
    while i < n
        invariant
            n == v@.len(),
            0 <= i <= n,
            r@ == v@.take(i as int),
        decreases n - i,
    {
        r.push(v[i]);
        proof {
            assert(r@ =~= v@.take(i + 1));
        }
        i += 1;
    }
    proof {
        assert(v@.take(n as int) =~= v@);
    }
    r
}

/// The step (dx, dy) starts a shortest walkable route from `from` to the
/// player: some path of at most 50 positions begins at `from` with this
/// step, moves one cardinal unit at a time over walkable interior tiles,
/// ends on the player, and no connecting route is shorter.
pub open spec fn spec_step_toward_player(
    room: Room,
    from: (i32, i32),
    player: (i32, i32),
    step: (i32, i32),
) -> bool {
    exists|p: Seq<(i32, i32)>| {
        &&& 2 <= #[trigger] p.len() <= 50
        &&& p[0] == from
        &&& p.last() == player
        &&& p[1].0 == from.0 + step.0 && p[1].1 == from.1 + step.1
        &&& forall|i: int| 0 <= i < p.len() - 1 ==> spec_unit_step(#[trigger] p[i], p[i + 1])
        &&& forall|i: int| 1 <= i < p.len() - 1
            ==> spec_walkable_at(room, (#[trigger] p[i]).0 as int, p[i].1 as int)
        &&& forall|p2: Seq<(i32, i32)>| #[trigger] spec_connecting_path(room, from, player, p2)
            ==> p2.len() >= p.len()
    }
}

/// Decide what action an enemy takes: adjacent to the player it uses its
/// special if one applies, else attacks; away from the player it uses its
/// special if one applies, else takes one step along a breadth-first path
/// toward the player, or waits when no path was found.
pub fn decide_action(enemy: &Enemy, player: &Player, room: &Room) -> (action: EnemyAction)
    requires
        spec_room_wf(*room),
        0 <= enemy.max_hp,
        -1_000_000 <= enemy.x <= 1_000_000,
        -1_000_000 <= enemy.y <= 1_000_000,
        -1_000_000 <= player.x <= 1_000_000,
        -1_000_000 <= player.y <= 1_000_000,
    ensures
        spec_manhattan((enemy.x, enemy.y), (player.x, player.y)) == 1
            ==> action == (match spec_special(*enemy) {
                Some(s) => s,
                None => EnemyAction::Attack,
            }),
        spec_manhattan((enemy.x, enemy.y), (player.x, player.y)) != 1
            && spec_special(*enemy) is Some
            ==> Some(action) == spec_special(*enemy),
        spec_manhattan((enemy.x, enemy.y), (player.x, player.y)) != 1
            && spec_special(*enemy) is None
            ==> (action matches EnemyAction::Move { dx, dy }
                    && spec_manhattan((0, 0), (dx, dy)) == 1
                    && spec_walkable_at(*room, enemy.x + dx, enemy.y + dy)
                    && spec_step_toward_player(*room, (enemy.x, enemy.y),
                        (player.x, player.y), (dx, dy)))
                || (action == EnemyAction::Wait
                    && ((enemy.x, enemy.y) == (player.x, player.y)
                        || !(exists|p: Seq<(i32, i32)>| #[trigger] spec_connecting_path(
                            *room, (enemy.x, enemy.y), (player.x, player.y), p)))),
{
    let dist = manhattan_distance((enemy.x, enemy.y), (player.x, player.y));

    if dist == 1 {
        if let Some(special) = should_use_special(enemy) {
            return special;
        }
        return EnemyAction::Attack;
    }

    if let Some(special) = should_use_special(enemy) {
        return special;
    }

    let route = find_path((enemy.x, enemy.y), (player.x, player.y), room);
    proof {
        if route is None {
            // pathfinding is complete: a None means no route exists
            assert(!(exists|p: Seq<(i32, i32)>| #[trigger] spec_connecting_path(
                *room, (enemy.x, enemy.y), (player.x, player.y), p)));
        }
    }
    if let Some(path) = route {
        if path.len() > 1 {
            let next = path[1];
            proof {
                assert(path@[0] == (enemy.x, enemy.y));
                assert(spec_unit_step(path@[0], path@[1]));
                if path@.len() == 2 {
                    // a two-step path ends on the player, who is not adjacent
                    assert(path@.last() == (player.x, player.y));
                    assert(false);
                }
                assert(spec_walkable_at(*room, path@[1].0 as int, path@[1].1 as int));
                // the found path itself witnesses the step toward the player
                assert(2 <= path@.len() <= 50);
                assert(spec_step_toward_player(*room, (enemy.x, enemy.y),
                    (player.x, player.y),
                    ((next.0 - enemy.x) as i32, (next.1 - enemy.y) as i32)));
            }
            return EnemyAction::Move {
                dx: next.0 - enemy.x,
                dy: next.1 - enemy.y,
            };
        }
        proof {
            // a one-cell route means the enemy already stands on the player
            assert(path@.last() == path@[0]);
            assert((enemy.x, enemy.y) == (player.x, player.y));
        }
    }

    EnemyAction::Wait
}

} // verus!
