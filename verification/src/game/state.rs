//! The game state machine: the turn loop over player actions, the enemy
//! sweep, room transitions, and terminal win/loss states.

use vstd::prelude::*;
use crate::combat::{PlayerAction, EnemyAction, WAIT_REGEN, spec_energy_cost, decide_action,
    enemy_attack, player_attack, spec_player_attack_outcome, spec_enemy_attack_outcome,
    spec_manhattan, spec_special, CombatResult};
use crate::entity::{Enemy, EnemyType, Player, PlayerClass};
use crate::fov::{calculate_fov, spec_sees};
use crate::item::{spec_apply_effect, spec_effect_bounded, apply_effect};
use crate::records::CommitData;
use crate::rng::rng_from_seed;
use crate::tile::Tile;
use crate::world::generator::{generate_dungeon, spec_world_generated};
use crate::world::room::{Room, spec_room_wf, spec_tile_at, spec_in_bounds, spec_has_enemy_at,
    spec_walkable_at};
use crate::world::types::{RoomType, World};

verus! {

/// Events that occur during gameplay.
#[derive(Debug, Clone)]
pub enum GameEvent {
    PlayerMoved { x: i32, y: i32 },
    PlayerAttacked { damage: i32, killed: bool },
    PlayerDefending,
    PlayerUsedItem { name: String },
    PlayerLevelUp { level: u32 },
    EnemyAttacked { damage: i32, enemy_type: EnemyType },
    EnemyKilled { enemy_type: EnemyType, xp: u32 },
    RoomEntered { room_id: usize },
    RoomCleared { room_id: usize },
    GameOver { victory: bool },
    Message(String),
}

/// Complete game state: the world and player it exclusively owns, the
/// turn counter, the derived visible-tile set, a bounded message log, the
/// terminal flags, and the generation seed.
#[derive(Debug)]
pub struct GameState {
    pub world: World,
    pub player: Player,
    pub turn: u32,
    pub visible_tiles: Vec<(i32, i32)>,
    pub messages: Vec<String>,
    pub game_over: bool,
    pub victory: bool,
    pub seed: u64,
}

/// The current room index points at a room.
pub open spec fn spec_has_room(s: GameState) -> bool {
    s.world.current_room < s.world.rooms@.len()
}

/// The current room.
pub open spec fn spec_cur(s: GameState) -> Room {
    s.world.rooms@[s.world.current_room as int]
}

/// A state whose numbers sit inside the engine's working ranges: player
/// and enemy stats bounded, grids well-formed, counters short of their
/// limits.
pub open spec fn spec_state_ok(s: GameState) -> bool {
    &&& -100_000 <= s.player.x <= 100_000
    &&& -100_000 <= s.player.y <= 100_000
    &&& (s.game_over || -1_000_000_000 <= s.player.hp)
    &&& s.player.hp <= 1_000_000_000
    &&& -1_000_000_000 <= s.player.max_hp
    &&& s.player.max_hp <= 1000 + s.player.level * 10
    &&& -1_000_000_000 <= s.player.energy <= 1_000_000_000
    &&& -1_000_000_000 <= s.player.max_energy <= 1_000_000_000
    &&& 0 <= s.player.damage <= 1000
    &&& 1 <= s.player.level <= 1000
    &&& s.player.xp <= s.player.level * 100 + 1000
    &&& s.turn < u32::MAX
    &&& forall|i: int| 0 <= i < s.world.rooms@.len()
        ==> spec_room_wf(#[trigger] s.world.rooms@[i])
    &&& forall|i: int, k: int| 0 <= i < s.world.rooms@.len()
        && 0 <= k < (#[trigger] s.world.rooms@[i]).enemies@.len()
        ==> spec_enemy_ok(#[trigger] s.world.rooms@[i].enemies@[k])
    &&& forall|k: int| 0 <= k < s.player.inventory@.len()
        ==> spec_effect_bounded((#[trigger] s.player.inventory@[k]).effect)
}

/// An enemy whose numbers sit inside the engine's working ranges.
pub open spec fn spec_enemy_ok(e: Enemy) -> bool {
    &&& -100_000 <= e.x <= 100_000
    &&& -100_000 <= e.y <= 100_000
    &&& -1_000_000_000 <= e.hp <= 1_000_000_000
    &&& 0 <= e.max_hp <= 1_000_000_000
    &&& 0 <= e.damage <= 1000
    &&& e.turns_alive < u32::MAX
}

/// The energy left after a failed action is refunded: the deduction and
/// refund cancel, except that the refund never raises energy past its
/// maximum.
pub open spec fn spec_energy_refunded(p: Player) -> int {
    if p.energy <= p.max_energy {
        p.energy as int
    } else {
        p.max_energy as int
    }
}

/// The event list reports a kill.
pub open spec fn spec_has_kill_event(s: Seq<GameEvent>) -> bool {
    exists|k: int| 0 <= k < s.len() && (#[trigger] s[k]) is EnemyKilled
}

/// The event list reports the room cleared.
pub open spec fn spec_has_cleared_event(s: Seq<GameEvent>) -> bool {
    exists|k: int| 0 <= k < s.len() && (#[trigger] s[k]) is RoomCleared
}

/// What the message log looks like after one entry `m` was appended: the
/// oldest entry is evicted once the log holds 100.
pub open spec fn spec_logged(before: Seq<String>, after: Seq<String>, m: Seq<char>) -> bool {
    exists|s: String| #[trigger] s@ == m && after == (if before.len() >= 100 {
        before.push(s).skip(1)
    } else {
        before.push(s)
    })
}

impl GameState {
    /// Add a message to the log, evicting the oldest entry beyond 100.
    pub fn log(&mut self, message: String)
        ensures
            spec_logged(old(self).messages@, final(self).messages@, message@),
            *final(self) == (GameState { messages: final(self).messages, ..*old(self) }),
    {
        let ghost m = message@;
        let ghost before = self.messages@;
        self.messages.push(message);
        let ghost mid = self.messages@;
        if self.messages.len() > 100 {
            self.messages.remove(0);
            proof {
                let s = mid[before.len() as int];
                assert(s@ == m);
                assert(self.messages@ =~= before.push(s).skip(1));
            }
        } else {
            proof {
                let s = mid[before.len() as int];
                assert(s@ == m);
                assert(self.messages@ =~= before.push(s));
            }
        }
    }

    /// Recompute the visible-tile set from the player's position at the
    /// fixed radius of 5; out-of-bounds cells count as blocking. Without a
    /// current room the set is left as it is.
    pub fn update_fov(&mut self)
        requires
            -100_000 <= old(self).player.x <= 100_000,
            -100_000 <= old(self).player.y <= 100_000,
        ensures
            *final(self) == (GameState { visible_tiles: final(self).visible_tiles, ..*old(self) }),
            spec_has_room(*old(self)) ==> {
                &&& spec_sees(final(self).visible_tiles@, old(self).player.x as int,
                    old(self).player.y as int)
                &&& forall|x: int, y: int| #![trigger spec_sees(final(self).visible_tiles@, x, y)]
                    spec_sees(final(self).visible_tiles@, x, y)
                        ==> (x - old(self).player.x) * (x - old(self).player.x)
                            + (y - old(self).player.y) * (y - old(self).player.y) <= 25
                &&& crate::fov::spec_seen(final(self).visible_tiles@)
                    == crate::fov::spec_fov(&spec_cur(*old(self)),
                        (old(self).player.x, old(self).player.y), 5)
            },
            !spec_has_room(*old(self)) ==> final(self).visible_tiles == old(self).visible_tiles,
    {
        if self.world.current_room >= self.world.rooms.len() {
            return;
        }
        let idx = self.world.current_room;
        let origin = (self.player.x, self.player.y);
        let visible = calculate_fov(origin, 5, &self.world.rooms[idx]);
        self.visible_tiles = visible;
    }

    /// Check whether the player stands on the exit of a cleared room, and
    /// handle the transition: in the last room this is victory; otherwise
    /// the world advances one room and the player enters at the west
    /// midline.
    pub fn check_room_exit(&mut self) -> (transitioned: bool)
        requires
            spec_state_ok(*old(self)),
        ensures
            ({
                let s = *old(self);
                let at_exit = spec_has_room(s)
                    && spec_in_bounds(spec_cur(s), s.player.x as int, s.player.y as int)
                    && spec_tile_at(spec_cur(s), s.player.x as int, s.player.y as int)
                        == Tile::Exit;
                let cleared = spec_has_room(s)
                    && (spec_cur(s).enemies@.len() == 0 || spec_cur(s).cleared);
                &&& transitioned == (at_exit && cleared)
                &&& !at_exit ==> *final(self) == s
                &&& (at_exit && !cleared) ==> *final(self) == (GameState {
                    messages: final(self).messages,
                    ..s
                })
                &&& (at_exit && cleared && s.world.current_room + 1 >= s.world.rooms@.len())
                    ==> *final(self) == (GameState {
                        game_over: true,
                        victory: true,
                        messages: final(self).messages,
                        ..s
                    })
                &&& (at_exit && cleared && s.world.current_room + 1 < s.world.rooms@.len()) ==> {
                    &&& final(self).world.current_room == s.world.current_room + 1
                    &&& final(self).world.rooms == s.world.rooms
                    &&& final(self).player.x == 1
                    &&& final(self).player.y == spec_cur(*final(self)).height as int / 2
                    &&& final(self).player == (Player {
                        x: 1,
                        y: final(self).player.y,
                        ..s.player
                    })
                    &&& final(self).turn == s.turn
                    &&& final(self).game_over == s.game_over
                    &&& final(self).victory == s.victory
                    &&& final(self).seed == s.seed
                }
            }),
    {
        if self.world.current_room >= self.world.rooms.len() {
            return false;
        }
        let idx = self.world.current_room;

        let at_exit = match self.world.rooms[idx].get_tile(self.player.x, self.player.y) {
            Some(Tile::Exit) => true,
            _ => false,
        };
        if !at_exit {
            return false;
        }

        if !self.world.rooms[idx].is_cleared() {
            self.log(String::from_str("You must defeat all enemies before leaving!"));
            return false;
        }

        if self.world.is_last_room() {
            self.game_over = true;
            self.victory = true;
            self.log(String::from_str("Victory! You have conquered the dungeon!"));
            return true;
        }

        let advanced = self.world.next_room();
        if advanced {
            let new_idx = self.world.current_room;
            let mid = self.world.rooms[new_idx].height as i32 / 2;
            self.player.x = 1;
            self.player.y = mid;
            self.update_fov();
            self.log(String::from_str("You enter the next chamber"));
            return true;
        }
        false
    }
}

/// The experience a kill of each enemy type awards: Bug 10, Regression
/// 20, TechDebt 30, MergeConflict 50.
pub open spec fn spec_xp_for(t: EnemyType) -> int {
    match t {
        EnemyType::Bug => 10,
        EnemyType::Regression => 20,
        EnemyType::TechDebt => 30,
        EnemyType::MergeConflict => 50,
    }
}

/// The player after an experience award: at the threshold of 100 times
/// the level, one level-up fires, carrying the remainder, raising the
/// level and maximum hit points, and restoring hit points to the maximum.
pub open spec fn spec_award_xp(p: Player, amount: int) -> Player {
    if p.xp + amount >= p.level * 100 {
        Player {
            xp: (p.xp + amount - p.level * 100) as u32,
            level: (p.level + 1) as u32,
            max_hp: (p.max_hp + 10) as i32,
            hp: (p.max_hp + 10) as i32,
            ..p
        }
    } else {
        Player { xp: (p.xp + amount) as u32, ..p }
    }
}

/// Energy capped at a maximum.
pub open spec fn spec_cap_energy(e: int, max: int) -> int {
    if e <= max { e } else { max }
}

/// The enemy with its survival counter advanced by one turn (saturating
/// just below the counter's limit).
pub open spec fn spec_turns_bumped(e: Enemy) -> Enemy {
    Enemy {
        turns_alive: if e.turns_alive + 1 < u32::MAX {
            (e.turns_alive + 1) as u32
        } else {
            e.turns_alive
        },
        ..e
    }
}

/// What one enemy's turn leaves of the enemy itself. Its special fires
/// exactly when `spec_special` says so: a Regression regenerates (capped
/// at its maximum), a TechDebt grows its damage, a MergeConflict splits
/// (an intent with no population effect). Without a special, an adjacent
/// enemy attacks (only its survival counter moves here; the player's side
/// is covered by the attack outcome), and a distant enemy either takes
/// one cardinal step onto a walkable tile of the room or waits.
pub open spec fn spec_enemy_acted(room: Room, player_pos: (i32, i32), e0: Enemy, e1: Enemy) -> bool {
    let adjacent = spec_manhattan((e0.x, e0.y), player_pos) == 1;
    match spec_special(e0) {
        Some(EnemyAction::Regenerate(n)) => e1 == (Enemy {
            hp: (if e0.hp + n <= e0.max_hp { e0.hp + n } else { e0.max_hp as int }) as i32,
            ..spec_turns_bumped(e0)
        }),
        Some(EnemyAction::Grow(n)) => e1 == (Enemy {
            damage: (if e0.damage <= 900 { e0.damage + n } else { e0.damage as int }) as i32,
            ..spec_turns_bumped(e0)
        }),
        Some(EnemyAction::Split) => e1 == spec_turns_bumped(e0),
        Some(_) => e1 == spec_turns_bumped(e0),
        None => {
            if adjacent {
                e1 == spec_turns_bumped(e0)
            } else {
                (exists|dx: i32, dy: i32| {
                    &&& spec_manhattan((0i32, 0i32), (dx, dy)) == 1
                    &&& #[trigger] spec_walkable_at(room, e0.x + dx, e0.y + dy)
                    &&& e1 == (Enemy { x: (e0.x + dx) as i32, y: (e0.y + dy) as i32, ..e0 })
                }) || e1 == spec_turns_bumped(e0)
            }
        }
    }
}

/// The enemies among the first `processed` of the snapshot that attack
/// the player this sweep: those adjacent to the player's position with no
/// special to use, in index order.
pub open spec fn spec_attackers(before: Seq<Enemy>, ppos: (i32, i32), processed: int) -> Seq<Enemy>
    decreases processed,
{
    if processed <= 0 {
        Seq::empty()
    } else {
        let rest = spec_attackers(before, ppos, processed - 1);
        let e = before[processed - 1];
        if spec_manhattan((e.x, e.y), ppos) == 1 && spec_special(e) is None {
            rest + seq![e]
        } else {
            rest
        }
    }
}

/// The player's hit points evolve through exactly one enemy-attack
/// outcome per attacker, in order; a killing blow ends the chain, and
/// `halted` records whether one fell.
pub open spec fn spec_attack_chain(attackers: Seq<Enemy>, p0: Player, p1: Player, halted: bool) -> bool
    decreases attackers.len(),
{
    if attackers.len() == 0 {
        p1 == p0 && !halted
    } else {
        exists|mid: Player, res: CombatResult|
            #[trigger] spec_enemy_attack_outcome(attackers[0], p0, mid, res)
            && (if res.killed {
                halted && p1 == mid
            } else {
                spec_attack_chain(attackers.skip(1), mid, p1, halted)
            })
    }
}

proof fn lemma_chain_append(attackers: Seq<Enemy>, e: Enemy, p0: Player, p1: Player, p2: Player,
    res: CombatResult, halted: bool)
    requires
        spec_attack_chain(attackers, p0, p1, false),
        spec_enemy_attack_outcome(e, p1, p2, res),
        halted == res.killed,
    ensures
        spec_attack_chain(attackers + seq![e], p0, p2, halted),
    decreases attackers.len(),
{
    if attackers.len() == 0 {
        assert(p1 == p0);
        let ext = attackers + seq![e];
        assert(ext[0] == e);
        assert(ext.skip(1) =~= Seq::<Enemy>::empty());
        if res.killed {
            assert(spec_enemy_attack_outcome(ext[0], p0, p2, res));
        } else {
            assert(spec_enemy_attack_outcome(ext[0], p0, p2, res));
            assert(spec_attack_chain(ext.skip(1), p2, p2, halted));
        }
    } else {
        let (mid, res0) = choose|mid: Player, res0: CombatResult|
            #[trigger] spec_enemy_attack_outcome(attackers[0], p0, mid, res0)
            && !res0.killed && spec_attack_chain(attackers.skip(1), mid, p1, false);
        lemma_chain_append(attackers.skip(1), e, mid, p1, p2, res, halted);
        let ext = attackers + seq![e];
        assert(ext[0] == attackers[0]);
        assert(ext.skip(1) =~= attackers.skip(1) + seq![e]);
        assert(spec_enemy_attack_outcome(ext[0], p0, mid, res0));
        assert(spec_attack_chain(ext.skip(1), mid, p2, halted));
    }
}

/// What an enemy sweep leaves of the room: the first `processed` enemies
/// of the call-start snapshot each acted once, in index order, against
/// the player's fixed position; the rest stand untouched (the sweep was
/// halted by a killing blow before reaching them).
pub open spec fn spec_swept(before: Room, player_pos: (i32, i32), after: Room, processed: int) -> bool {
    &&& 0 <= processed <= before.enemies@.len()
    &&& after.enemies@.len() == before.enemies@.len()
    &&& forall|k: int| 0 <= k < processed
        ==> spec_enemy_acted(before, player_pos, #[trigger] before.enemies@[k],
            after.enemies@[k])
    &&& forall|k: int| processed <= k < before.enemies@.len()
        ==> #[trigger] after.enemies@[k] == before.enemies@[k]
}

/// The delta a move action names.
pub open spec fn spec_move_delta(a: PlayerAction) -> (int, int) {
    match a {
        PlayerAction::Move(dx, dy) => (dx as int, dy as int),
        _ => (0int, 0int),
    }
}

/// The direction an attack action names.
pub open spec fn spec_attack_dir(a: PlayerAction) -> crate::tile::Direction {
    match a {
        PlayerAction::Attack(d) => d,
        _ => crate::tile::Direction::North,
    }
}

/// The unit delta of a direction; north is negative y.
pub open spec fn spec_dir_delta(d: crate::tile::Direction) -> (int, int) {
    match d {
        crate::tile::Direction::North => (0int, -1int),
        crate::tile::Direction::South => (0int, 1int),
        crate::tile::Direction::East => (1int, 0int),
        crate::tile::Direction::West => (-1int, 0int),
    }
}

/// The inventory index an item-use action names.
pub open spec fn spec_useitem_index(a: PlayerAction) -> int {
    match a {
        PlayerAction::UseItem(i) => i as int,
        _ => 0,
    }
}

fn enemy_index_at(room: &Room, x: i32, y: i32) -> (r: Option<usize>)
    ensures
        r matches Some(i) ==> i < room.enemies@.len()
            && room.enemies@[i as int].x == x && room.enemies@[i as int].y == y,
        r is None ==> !spec_has_enemy_at(room.enemies@, x as int, y as int),
{
    let n = room.enemies.len();
    let mut k: usize = 0;
    while k < n
        invariant
            n == room.enemies@.len(),
            0 <= k <= n,
            forall|a: int| 0 <= a < k
                ==> !((#[trigger] room.enemies@[a]).x == x && room.enemies@[a].y == y),
        decreases n - k,
    {
        if room.enemies[k].x == x && room.enemies[k].y == y {
            return Some(k);
        }
        k += 1;
    }
    None
}

impl GameState {
    /// Process one player action: deduct its energy cost (rejecting the
    /// action outright, with no other change and no turn taken, when the
    /// energy is short), apply it, and advance the turn counter — also
    /// for no-ops such as blocked moves, whose cost is refunded.
    #[verifier::rlimit(100)]
    pub fn process_action(&mut self, action: PlayerAction) -> (events: Vec<GameEvent>)
        requires
            spec_state_ok(*old(self)),
            action matches PlayerAction::Move(dx, dy) ==> spec_manhattan((0, 0), (dx, dy)) == 1,
        ensures
            old(self).game_over ==> *final(self) == *old(self) && events@.len() == 0,
            (!old(self).game_over && spec_energy_cost(action) > 0
                && old(self).player.energy < spec_energy_cost(action))
                ==> *final(self) == (GameState { messages: final(self).messages, ..*old(self) })
                    && events@.len() == 0,
            (!old(self).game_over && old(self).player.energy >= spec_energy_cost(action)) ==> {
                &&& final(self).turn == old(self).turn + 1
                &&& final(self).seed == old(self).seed
                &&& final(self).world.rooms@.len() == old(self).world.rooms@.len()
            },
            // the working ranges are preserved, short of the theoretical
            // level and turn ceilings, so a driving loop can keep calling
            (!old(self).game_over && old(self).player.level < 1000
                && old(self).turn < u32::MAX - 1)
                ==> spec_state_ok(*final(self)),
            (!old(self).game_over && action == PlayerAction::Wait) ==> {
                let bonus_room = spec_has_room(*old(self))
                    && spec_cur(*old(self)).room_type == RoomType::Sanctuary;
                let e1 = spec_cap_energy(old(self).player.energy + 2,
                    old(self).player.max_energy as int);
                let e2 = if bonus_room {
                    spec_cap_energy(e1 + 5, old(self).player.max_energy as int)
                } else {
                    e1
                };
                *final(self) == (GameState {
                    player: (Player { energy: e2 as i32, ..old(self).player }),
                    turn: (old(self).turn + 1) as u32,
                    messages: final(self).messages,
                    ..*old(self)
                })
            },
            (!old(self).game_over && action == PlayerAction::Defend
                && old(self).player.energy >= 3)
                ==> *final(self) == (GameState {
                    player: (Player {
                        energy: (old(self).player.energy - 3) as i32,
                        defending: true,
                        ..old(self).player
                    }),
                    turn: (old(self).turn + 1) as u32,
                    messages: final(self).messages,
                    ..*old(self)
                }),
            // a move: a tile held by an enemy or an unwalkable tile refunds
            // the cost; a legal move lands on the tile, completing the room
            // when it is a cleared exit
            (!old(self).game_over && action is Move
                    && old(self).player.energy >= 1) ==> {
                let s = *old(self);
                let nx = s.player.x + spec_move_delta(action).0;
                let ny = s.player.y + spec_move_delta(action).1;
                let blocked = spec_has_room(s)
                    && spec_has_enemy_at(spec_cur(s).enemies@, nx, ny);
                let walk = spec_has_room(s) && spec_walkable_at(spec_cur(s), nx, ny);
                let at_exit = spec_has_room(s) && spec_in_bounds(spec_cur(s), nx, ny)
                    && spec_tile_at(spec_cur(s), nx, ny) == Tile::Exit;
                let cleared = spec_has_room(s)
                    && (spec_cur(s).enemies@.len() == 0 || spec_cur(s).cleared);
                &&& (blocked || !walk) ==> *final(self) == (GameState {
                    player: (Player {
                        energy: spec_energy_refunded(s.player) as i32,
                        ..s.player
                    }),
                    turn: (s.turn + 1) as u32,
                    messages: final(self).messages,
                    ..s
                })
                &&& (!blocked && walk && !(at_exit && cleared)) ==> {
                    &&& final(self).player == (Player {
                        x: nx as i32,
                        y: ny as i32,
                        energy: (s.player.energy - 1) as i32,
                        ..s.player
                    })
                    &&& final(self).world.current_room == s.world.current_room
                    &&& final(self).world.rooms == s.world.rooms
                    &&& final(self).game_over == s.game_over
                    &&& final(self).victory == s.victory
                }
                &&& (!blocked && walk && at_exit && cleared
                        && s.world.current_room + 1 >= s.world.rooms@.len())
                    ==> final(self).game_over && final(self).victory
                &&& (!blocked && walk && at_exit && cleared
                        && s.world.current_room + 1 < s.world.rooms@.len()) ==> {
                    &&& final(self).world.current_room == s.world.current_room + 1
                    &&& final(self).world.rooms == s.world.rooms
                    &&& final(self).player == (Player {
                        x: 1,
                        y: final(self).player.y,
                        energy: (s.player.energy - 1) as i32,
                        ..s.player
                    })
                    &&& final(self).player.y == spec_cur(*final(self)).height as int / 2
                    &&& final(self).game_over == s.game_over
                    &&& final(self).victory == s.victory
                }
            },
            // an attack: an empty target tile refunds the cost; a target
            // enemy takes one resolver outcome, a kill removing it, paying
            // its experience, and clearing an emptied room
            (!old(self).game_over && action is Attack
                    && old(self).player.energy >= 5) ==> {
                let s = *old(self);
                let tx = s.player.x + spec_dir_delta(spec_attack_dir(action)).0;
                let ty = s.player.y + spec_dir_delta(spec_attack_dir(action)).1;
                let p1 = Player { energy: (s.player.energy - 5) as i32, ..s.player };
                &&& (!spec_has_room(s)
                        || !spec_has_enemy_at(spec_cur(s).enemies@, tx, ty))
                    ==> *final(self) == (GameState {
                        player: (Player {
                            energy: spec_energy_refunded(s.player) as i32,
                            ..s.player
                        }),
                        turn: (s.turn + 1) as u32,
                        messages: final(self).messages,
                        ..s
                    })
                &&& (spec_has_room(s)
                        && spec_has_enemy_at(spec_cur(s).enemies@, tx, ty)) ==> {
                    let cur0 = spec_cur(s);
                    let cur1 = spec_cur(*final(self));
                    &&& final(self).world.current_room == s.world.current_room
                    &&& final(self).game_over == s.game_over
                    &&& final(self).victory == s.victory
                    &&& exists|idx: int, after: Enemy, res: crate::combat::CombatResult| {
                        &&& 0 <= idx < cur0.enemies@.len()
                        &&& cur0.enemies@[idx].x == tx
                        &&& cur0.enemies@[idx].y == ty
                        &&& #[trigger] spec_player_attack_outcome(p1, cur0.enemies@[idx],
                            after, res)
                        &&& (!res.hit ==> cur1.enemies@ == cur0.enemies@
                            && final(self).player == p1)
                        &&& ((res.hit && !res.killed) ==> cur1.enemies@
                                == cur0.enemies@.update(idx, after)
                            && final(self).player == p1)
                        &&& ((res.hit && res.killed) ==> {
                            &&& cur1.enemies@ == cur0.enemies@.remove(idx)
                            &&& cur1.cleared == (cur1.enemies@.len() == 0 || cur0.cleared)
                            &&& final(self).player == spec_award_xp(p1,
                                spec_xp_for(cur0.enemies@[idx].enemy_type))
                            &&& spec_has_kill_event(events@)
                            &&& (cur1.enemies@.len() == 0 ==> spec_has_cleared_event(events@))
                        })
                    }
                }
            },
            (!old(self).game_over && action is UseItem
                && old(self).player.energy >= 2) ==> {
                let i = spec_useitem_index(action);
                let p1 = Player {
                    energy: (old(self).player.energy - 2) as i32,
                    ..old(self).player
                };
                if i < old(self).player.inventory@.len() {
                    let removed = Player {
                        inventory: final(self).player.inventory,
                        ..p1
                    };
                    &&& final(self).player.inventory@ == p1.inventory@.remove(i as int)
                    &&& *final(self) == (GameState {
                        player: spec_apply_effect(old(self).player.inventory@[i as int].effect,
                            removed),
                        turn: (old(self).turn + 1) as u32,
                        messages: final(self).messages,
                        ..*old(self)
                    })
                } else {
                    *final(self) == (GameState {
                        player: (Player {
                            energy: spec_energy_refunded(old(self).player) as i32,
                            ..old(self).player
                        }),
                        turn: (old(self).turn + 1) as u32,
                        messages: final(self).messages,
                        ..*old(self)
                    })
                }
            },
    {
        if self.game_over {
            let events: Vec<GameEvent> = Vec::new();
            return events;
        }

        let mut events: Vec<GameEvent> = Vec::new();
        let ghost entry = *self;

        let cost = action.energy_cost();
        if cost > 0 && !self.player.use_energy(cost) {
            self.log(String::from_str("Not enough energy!"));
            proof {
                assert(*self == (GameState { messages: self.messages, ..entry }));
            }
            return events;
        }

        match action {
            PlayerAction::Move(dx, dy) => {
                let new_x = self.player.x + dx;
                let new_y = self.player.y + dy;
                self.move_step(new_x, new_y, cost, &mut events);
            }
            PlayerAction::Attack(direction) => {
                let (dx, dy) = direction.delta();
                let target_x = self.player.x + dx;
                let target_y = self.player.y + dy;
                self.attack_square(target_x, target_y, cost, &mut events);
            }
            PlayerAction::Defend => {
                self.player.defending = true;
                events.push(GameEvent::PlayerDefending);
                self.log(String::from_str("You take a defensive stance."));
            }
            PlayerAction::UseItem(index) => {
                if index < self.player.inventory.len() {
                    let item = self.player.inventory.remove(index);
                    let msg = apply_effect(&item.effect, &mut self.player);
                    self.log(msg);
                    events.push(GameEvent::PlayerUsedItem { name: item.name });
                } else {
                    self.player.regen_energy(cost);
                }
            }
            PlayerAction::Wait => {
                self.player.regen_energy(WAIT_REGEN);
                let in_sanctuary = if self.world.current_room < self.world.rooms.len() {
                    let idx = self.world.current_room;
                    self.world.rooms[idx].room_type == RoomType::Sanctuary
                } else {
                    false
                };
                if in_sanctuary {
                    self.player.regen_energy(5);
                }
                self.log(String::from_str("You wait and recover energy."));
            }
        }

        self.turn = self.turn + 1;
        events
    }

    /// One movement step: a tile occupied by an enemy or an unwalkable
    /// tile rejects the move and refunds the cost; a legal move updates
    /// the position, recomputes visibility, and checks the room exit.
    #[verifier::rlimit(100)]
    fn move_step(&mut self, new_x: i32, new_y: i32, cost: i32, events: &mut Vec<GameEvent>)
        requires
            spec_state_ok(*old(self)),
            -200_000 <= new_x <= 200_000,
            -200_000 <= new_y <= 200_000,
            0 <= cost <= 5,
            !old(self).game_over,
        ensures
            final(self).turn == old(self).turn,
            final(self).seed == old(self).seed,
            final(self).world.rooms@.len() == old(self).world.rooms@.len(),
            spec_state_ok(*final(self)),
            ({
                let s = *old(self);
                let blocked = spec_has_room(s)
                    && spec_has_enemy_at(spec_cur(s).enemies@, new_x as int, new_y as int);
                let walk = spec_has_room(s)
                    && spec_walkable_at(spec_cur(s), new_x as int, new_y as int);
                let moved = GameState {
                    player: (Player { x: new_x, y: new_y, ..s.player }),
                    ..s
                };
                let at_exit = spec_in_bounds(spec_cur(s), new_x as int, new_y as int)
                    && spec_tile_at(spec_cur(s), new_x as int, new_y as int) == Tile::Exit;
                let cleared = spec_cur(s).enemies@.len() == 0 || spec_cur(s).cleared;
                // a blocked or illegal move only refunds the cost
                &&& (blocked || !walk) ==> *final(self) == (GameState {
                    player: (Player {
                        energy: spec_cap_energy(s.player.energy + cost,
                            s.player.max_energy as int) as i32,
                        ..s.player
                    }),
                    messages: final(self).messages,
                    ..s
                })
                // a legal move lands on the tile, unless it completes the room
                &&& (!blocked && walk && !(at_exit && cleared)) ==> {
                    &&& final(self).player == moved.player
                    &&& final(self).world.current_room == s.world.current_room
                    &&& final(self).world.rooms == s.world.rooms
                    &&& final(self).game_over == s.game_over
                    &&& final(self).victory == s.victory
                }
                // exiting the cleared last room is victory
                &&& (!blocked && walk && at_exit && cleared
                        && s.world.current_room + 1 >= s.world.rooms@.len()) ==> {
                    &&& final(self).player == moved.player
                    &&& final(self).world.current_room == s.world.current_room
                    &&& final(self).game_over && final(self).victory
                }
                // exiting a cleared inner room advances to the next room
                &&& (!blocked && walk && at_exit && cleared
                        && s.world.current_room + 1 < s.world.rooms@.len()) ==> {
                    &&& final(self).world.current_room == s.world.current_room + 1
                    &&& final(self).world.rooms == s.world.rooms
                    &&& final(self).player.x == 1
                    &&& final(self).player.y == spec_cur(*final(self)).height as int / 2
                    &&& final(self).player == (Player {
                        x: 1,
                        y: final(self).player.y,
                        ..moved.player
                    })
                    &&& final(self).game_over == s.game_over
                    &&& final(self).victory == s.victory
                }
            }),
    {
        let has_room = self.world.current_room < self.world.rooms.len();
        let blocked_by_enemy = if has_room {
            let idx = self.world.current_room;
            match self.world.rooms[idx].get_enemy_at(new_x, new_y) {
                Some(_) => true,
                None => false,
            }
        } else {
            false
        };
        let can_move = if has_room && !blocked_by_enemy {
            let idx = self.world.current_room;
            self.world.rooms[idx].is_walkable(new_x, new_y)
        } else {
            false
        };

        if blocked_by_enemy {
            self.log(String::from_str("An enemy blocks the way!"));
            self.player.regen_energy(cost);
        } else if can_move {
            self.player.x = new_x;
            self.player.y = new_y;
            events.push(GameEvent::PlayerMoved { x: new_x, y: new_y });
            self.update_fov();
            let transitioned = self.check_room_exit();
            if transitioned {
                events.push(GameEvent::RoomEntered { room_id: self.world.current_room });
            }
        } else {
            self.player.regen_energy(cost);
        }
    }

    /// One attack: with no enemy on the target tile the cost is refunded;
    /// otherwise the combat resolver runs on a generator reseeded from
    /// (seed, turn), and a kill removes the enemy, awards experience by
    /// type (with at most one level-up), and marks the room cleared when
    /// no enemies remain.
    #[verifier::rlimit(100)]
    fn attack_square(&mut self, target_x: i32, target_y: i32, cost: i32, events: &mut Vec<GameEvent>)
        requires
            spec_state_ok(*old(self)),
            -200_000 <= target_x <= 200_000,
            -200_000 <= target_y <= 200_000,
            0 <= cost <= 5,
            !old(self).game_over,
        ensures
            final(self).turn == old(self).turn,
            final(self).seed == old(self).seed,
            final(self).world.rooms@.len() == old(self).world.rooms@.len(),
            final(self).game_over == old(self).game_over,
            final(self).victory == old(self).victory,
            final(self).world.current_room == old(self).world.current_room,
            old(self).player.level < 1000 ==> spec_state_ok(*final(self)),
            // no target: only the energy refund and the log change
            (!spec_has_room(*old(self))
                || !spec_has_enemy_at(spec_cur(*old(self)).enemies@, target_x as int,
                    target_y as int))
                ==> *final(self) == (GameState {
                    player: (Player {
                        energy: spec_cap_energy(old(self).player.energy + cost,
                            old(self).player.max_energy as int) as i32,
                        ..old(self).player
                    }),
                    messages: final(self).messages,
                    ..*old(self)
                }),
            (!spec_has_room(*old(self))
                || !spec_has_enemy_at(spec_cur(*old(self)).enemies@, target_x as int,
                    target_y as int))
                ==> final(events)@ == old(events)@,
            // a target: some enemy on the tile was attacked; a miss leaves
            // the room unchanged; a hit wounds or removes that enemy, a
            // removal awarding its experience, possibly clearing the room,
            // and reporting both in the event list
            (spec_has_room(*old(self))
                && spec_has_enemy_at(spec_cur(*old(self)).enemies@, target_x as int,
                    target_y as int)) ==> {
                let cur0 = spec_cur(*old(self));
                let cur1 = spec_cur(*final(self));
                exists|idx: int, after: Enemy, res: crate::combat::CombatResult| {
                    &&& 0 <= idx < cur0.enemies@.len()
                    &&& cur0.enemies@[idx].x == target_x
                    &&& cur0.enemies@[idx].y == target_y
                    &&& #[trigger] spec_player_attack_outcome(old(self).player, cur0.enemies@[idx],
                        after, res)
                    &&& (!res.hit ==> cur1.enemies@ == cur0.enemies@
                        && cur1 == (Room { enemies: cur1.enemies, ..cur0 })
                        && final(self).player == old(self).player)
                    &&& ((res.hit && !res.killed) ==> cur1 == (Room {
                            enemies: cur1.enemies,
                            ..cur0
                        }) && cur1.enemies@ == cur0.enemies@.update(idx, after)
                        && final(self).player == old(self).player)
                    &&& ((res.hit && res.killed) ==> {
                        &&& cur1.enemies@ == cur0.enemies@.remove(idx)
                        &&& cur1 == (Room {
                            enemies: cur1.enemies,
                            cleared: cur1.cleared,
                            ..cur0
                        })
                        &&& cur1.cleared == (cur1.enemies@.len() == 0 || cur0.cleared)
                        &&& final(self).player == spec_award_xp(old(self).player,
                            spec_xp_for(cur0.enemies@[idx].enemy_type))
                        &&& spec_has_kill_event(final(events)@)
                        &&& (cur1.enemies@.len() == 0
                            ==> spec_has_cleared_event(final(events)@))
                    })
                }
            },
    {
        let ghost entry = *self;
        if self.world.current_room >= self.world.rooms.len() {
            self.log(String::from_str("Nothing to attack there."));
            self.player.regen_energy(cost);
            return;
        }
        let idx = self.world.current_room;

        let enemy_idx = enemy_index_at(&self.world.rooms[idx], target_x, target_y);
        match enemy_idx {
            None => {
                proof {
                    assert(!spec_has_enemy_at(spec_cur(entry).enemies@, target_x as int,
                        target_y as int));
                }
                self.log(String::from_str("Nothing to attack there."));
                self.player.regen_energy(cost);
            }
            Some(e_idx) => {
                let mut rng = rng_from_seed(self.seed.wrapping_add(self.turn as u64));
                let ghost before_enemy = spec_cur(*self).enemies@[e_idx as int];
                let result = {
                    let room = &mut self.world.rooms[idx];
                    player_attack(&self.player, &mut room.enemies[e_idx], &mut rng)
                };
                let ghost wounded = spec_cur(*self).enemies@[e_idx as int];

                events.push(GameEvent::PlayerAttacked {
                    damage: result.damage,
                    killed: result.killed,
                });

                if result.killed {
                    let enemy = {
                        let room = &mut self.world.rooms[idx];
                        room.enemies.remove(e_idx)
                    };
                    let xp: u32 = match enemy.enemy_type {
                        EnemyType::Bug => 10,
                        EnemyType::Regression => 20,
                        EnemyType::TechDebt => 30,
                        EnemyType::MergeConflict => 50,
                    };

                    if self.player.add_xp(xp) {
                        events.push(GameEvent::PlayerLevelUp { level: self.player.level });
                        self.log(String::from_str("Level up!"));
                    }

                    events.push(GameEvent::EnemyKilled { enemy_type: enemy.enemy_type, xp });

                    proof {
                        let k = events@.len() - 1;
                        assert(events@[k] is EnemyKilled);
                        assert(spec_has_kill_event(events@));
                    }
                    let none_left = {
                        let room = &mut self.world.rooms[idx];
                        room.enemies.is_empty()
                    };
                    if none_left {
                        let ghost ev0 = events@;
                        let room_id = {
                            let room = &mut self.world.rooms[idx];
                            room.cleared = true;
                            room.id
                        };
                        events.push(GameEvent::RoomCleared { room_id });
                        self.log(String::from_str("Room cleared!"));
                        proof {
                            let k = events@.len() - 1;
                            assert(events@[k] is RoomCleared);
                            assert(spec_has_cleared_event(events@));
                            let k0 = choose|k0: int| 0 <= k0 < ev0.len()
                                && (#[trigger] ev0[k0]) is EnemyKilled;
                            assert(events@[k0] == ev0[k0]);
                            assert(spec_has_kill_event(events@));
                        }
                    } else {
                        proof {
                            assert(spec_has_kill_event(events@));
                        }
                    }
                    proof {
                        let cur0 = spec_cur(entry);
                        let cur1 = spec_cur(*self);
                        assert(spec_player_attack_outcome(entry.player,
                            cur0.enemies@[e_idx as int], wounded, result));
                        let mid = cur0.enemies@.update(e_idx as int, wounded);
                        mid.remove_ensures(e_idx as int);
                        cur0.enemies@.remove_ensures(e_idx as int);
                        assert(mid.remove(e_idx as int) =~= cur0.enemies@.remove(e_idx as int));
                        assert(cur1.enemies@ =~= cur0.enemies@.remove(e_idx as int));
                        assert(self.player == spec_award_xp(entry.player,
                            spec_xp_for(cur0.enemies@[e_idx as int].enemy_type)));
                    }
                } else if result.hit {
                    self.log(String::from_str("You hit!"));
                    proof {
                        let cur0 = spec_cur(entry);
                        let cur1 = spec_cur(*self);
                        assert(spec_player_attack_outcome(entry.player,
                            cur0.enemies@[e_idx as int], wounded, result));
                        assert(cur1.enemies@ =~= cur0.enemies@.update(e_idx as int, wounded));
                    }
                } else {
                    self.log(String::from_str("You missed!"));
                    proof {
                        let cur0 = spec_cur(entry);
                        let cur1 = spec_cur(*self);
                        assert(spec_player_attack_outcome(entry.player,
                            cur0.enemies@[e_idx as int], wounded, result));
                        assert(cur1.enemies@ =~= cur0.enemies@.update(e_idx as int, wounded));
                        assert(wounded == cur0.enemies@[e_idx as int]);
                        assert(cur1.enemies@ =~= cur0.enemies@);
                    }
                }
            }
        }
    }

    /// Create a new game from an activity history and a seed: the world
    /// is generated, the player starts as a Wanderer at the west midline
    /// of the first room, and the visible set is computed.
    #[verifier::rlimit(100)]
    pub fn new(git_data: Vec<CommitData>, seed: u64) -> (s: GameState)
        requires
            1 <= git_data@.len() <= 1_000_000,
        ensures
            spec_world_generated(s.world, git_data@),
            s.player.class == PlayerClass::Wanderer,
            s.turn == 0,
            !s.game_over && !s.victory,
            s.seed == seed,
            spec_state_ok(s),
            s.world.rooms@.len() > 0 ==> s.player.x == 1
                && s.player.y == s.world.rooms@[0].height as int / 2,
            spec_has_room(s) ==> crate::fov::spec_seen(s.visible_tiles@)
                == crate::fov::spec_fov(&spec_cur(s), (s.player.x, s.player.y), 5),
    {
        GameState::new_with_class(git_data, seed, Some(PlayerClass::Wanderer))
    }

    /// Create a new game with an explicit class, or detect one from the
    /// activity patterns when none is given.
    #[verifier::rlimit(100)]
    pub fn new_with_class(git_data: Vec<CommitData>, seed: u64, class: Option<PlayerClass>)
        -> (s: GameState)
        requires
            1 <= git_data@.len() <= 1_000_000,
        ensures
            spec_world_generated(s.world, git_data@),
            s.player.class == (match class {
                Some(c) => c,
                None => crate::records::spec_detect_class(git_data@),
            }),
            s.turn == 0,
            !s.game_over && !s.victory,
            s.seed == seed,
            spec_state_ok(s),
            s.world.rooms@.len() > 0 ==> s.player.x == 1
                && s.player.y == s.world.rooms@[0].height as int / 2,
            spec_has_room(s) ==> crate::fov::spec_seen(s.visible_tiles@)
                == crate::fov::spec_fov(&spec_cur(s), (s.player.x, s.player.y), 5),
    {
        let world = match generate_dungeon(&git_data, seed) {
            Ok(w) => w,
            Err(_) => {
                // a non-empty history never fails generation
                proof {
                    assert(false);
                }
                World { rooms: Vec::new(), current_room: 0 }
            }
        };
        let chosen = match class {
            Some(c) => c,
            None => PlayerClass::detect(&git_data),
        };
        let player = Player::new(chosen);

        let mut state = GameState {
            world,
            player,
            turn: 0,
            visible_tiles: Vec::new(),
            messages: Vec::new(),
            game_over: false,
            victory: false,
            seed,
        };

        if state.world.rooms.len() > 0 {
            let mid = state.world.rooms[0].height as i32 / 2;
            state.player.x = 1;
            state.player.y = mid;
        }

        proof {
            lemma_generated_state_ok(state, git_data@);
        }
        state.update_fov();
        state.log(String::from_str("You enter the dungeon generated from your history..."));
        state
    }

    /// Run the enemy sweep for the current room: each enemy of the index
    /// snapshot taken at call start acts once, in order, per the single
    /// decision function — its special where one applies, an attack when
    /// adjacent, else one breadth-first step toward the player or a wait
    /// (`spec_enemy_acted` pins each case). A killing blow on the player
    /// sets the loss state and halts the rest of the sweep. All draws
    /// come from one generator reseeded from (seed, turn).
    #[verifier::rlimit(100)]
    pub fn process_enemies(&mut self) -> (events: Vec<GameEvent>)
        requires
            spec_state_ok(*old(self)),
        ensures
            old(self).game_over ==> *final(self) == *old(self) && events@.len() == 0,
            !old(self).game_over ==> {
                &&& final(self).turn == old(self).turn
                &&& final(self).seed == old(self).seed
                &&& final(self).world.rooms@.len() == old(self).world.rooms@.len()
                &&& final(self).world.current_room == old(self).world.current_room
                &&& final(self).player.x == old(self).player.x
                &&& final(self).player.y == old(self).player.y
                &&& final(self).player.level == old(self).player.level
                &&& final(self).player.xp == old(self).player.xp
                &&& final(self).player.inventory == old(self).player.inventory
                &&& final(self).player.hp <= old(self).player.hp
                &&& (spec_has_room(*old(self))
                    ==> spec_cur(*final(self)).enemies@.len()
                        == spec_cur(*old(self)).enemies@.len())
                &&& (spec_has_room(*old(self)) ==> {
                    &&& spec_cur(*final(self)) == (Room {
                        enemies: spec_cur(*final(self)).enemies,
                        ..spec_cur(*old(self))
                    })
                    &&& exists|processed: int| #[trigger] spec_swept(spec_cur(*old(self)),
                            (old(self).player.x, old(self).player.y),
                            spec_cur(*final(self)), processed)
                        && (!final(self).game_over
                            ==> processed == spec_cur(*old(self)).enemies@.len())
                        && spec_attack_chain(
                            spec_attackers(spec_cur(*old(self)).enemies@,
                                (old(self).player.x, old(self).player.y), processed),
                            old(self).player, final(self).player,
                            final(self).game_over != old(self).game_over)
                })
                &&& forall|i: int| 0 <= i < old(self).world.rooms@.len()
                    && i != old(self).world.current_room as int
                    ==> #[trigger] final(self).world.rooms@[i] == old(self).world.rooms@[i]
                &&& final(self).victory == (if final(self).game_over == old(self).game_over {
                    old(self).victory
                } else {
                    false
                })
                &&& (final(self).game_over != old(self).game_over ==> final(self).player.hp <= 0)
                &&& spec_state_ok(*final(self))
            },
    {
        if self.game_over {
            let events: Vec<GameEvent> = Vec::new();
            return events;
        }

        let mut events: Vec<GameEvent> = Vec::new();
        let ghost entry = *self;
        let mut rng = rng_from_seed(self.seed.wrapping_add(self.turn as u64));

        if self.world.current_room >= self.world.rooms.len() {
            return events;
        }
        let idx = self.world.current_room;
        let enemy_count = self.world.rooms[idx].enemies.len();

        let mut i: usize = 0;
        while i < enemy_count
            invariant
                entry == *old(self),
                !entry.game_over,
                spec_state_ok(entry),
                idx == entry.world.current_room,
                idx < self.world.rooms@.len(),
                0 <= i <= enemy_count,
                self.turn == entry.turn,
                self.seed == entry.seed,
                self.world.rooms@.len() == entry.world.rooms@.len(),
                self.world.current_room == entry.world.current_room,
                self.player.x == entry.player.x,
                self.player.y == entry.player.y,
                self.player.level == entry.player.level,
                self.player.xp == entry.player.xp,
                self.player.inventory == entry.player.inventory,
                self.player.hp <= entry.player.hp,
                self.player.hp > 0 || self.player.hp == entry.player.hp,
                spec_attack_chain(spec_attackers(spec_cur(entry).enemies@,
                    (entry.player.x, entry.player.y), i as int), entry.player,
                    self.player, false),
                self.player.damage == entry.player.damage,
                self.player.max_hp == entry.player.max_hp,
                self.player.max_energy == entry.player.max_energy,
                self.player.energy == entry.player.energy,
                !self.game_over,
                self.victory == entry.victory,
                self.messages == entry.messages,
                self.visible_tiles == entry.visible_tiles,
                spec_room_wf(spec_cur(*self)),
                spec_cur(*self) == (Room { enemies: spec_cur(*self).enemies, ..spec_cur(entry) }),
                spec_cur(*self).enemies@.len() == spec_cur(entry).enemies@.len(),
                i <= spec_cur(entry).enemies@.len(),
                enemy_count == spec_cur(entry).enemies@.len(),
                forall|k: int| 0 <= k < i
                    ==> spec_enemy_acted(spec_cur(entry), (entry.player.x, entry.player.y),
                        #[trigger] spec_cur(entry).enemies@[k], spec_cur(*self).enemies@[k]),
                forall|k: int| i <= k < spec_cur(entry).enemies@.len()
                    ==> #[trigger] spec_cur(*self).enemies@[k] == spec_cur(entry).enemies@[k],
                forall|k: int| 0 <= k < spec_cur(*self).enemies@.len()
                    ==> spec_enemy_ok(#[trigger] spec_cur(*self).enemies@[k]),
                forall|q: int| 0 <= q < entry.world.rooms@.len()
                    && q != entry.world.current_room as int
                    ==> #[trigger] self.world.rooms@[q] == entry.world.rooms@[q],
            decreases enemy_count - i,
        {
            let still_there = i < self.world.rooms[idx].enemies.len();
            if still_there {
                let ghost e0 = spec_cur(entry).enemies@[i as int];
                let ghost ppos = (entry.player.x, entry.player.y);
                proof {
                    assert(spec_cur(*self).enemies@[i as int] == e0);
                }
                let action = {
                    let room = &self.world.rooms[idx];
                    decide_action(&room.enemies[i], &self.player, room)
                };
                let (ex, ey) = {
                    let room = &self.world.rooms[idx];
                    (room.enemies[i].x, room.enemies[i].y)
                };
                proof {
                    // walkability reads only the grid, which the sweep never touches
                    assert(spec_cur(*self).tiles == spec_cur(entry).tiles);
                    assert(spec_cur(*self).width == spec_cur(entry).width);
                    assert(spec_cur(*self).height == spec_cur(entry).height);
                }

                match action {
                    EnemyAction::Move { dx, dy } => {
                        proof {
                            // a move is decided only away from the player, with no special
                            assert(spec_manhattan((e0.x, e0.y), ppos) != 1);
                            assert(spec_special(e0) is None);
                            assert(spec_manhattan((0i32, 0i32), (dx, dy)) == 1);
                            assert(spec_walkable_at(spec_cur(entry), e0.x + dx, e0.y + dy));
                        }
                        if -1 <= dx && dx <= 1 && -1 <= dy && dy <= 1 {
                            let nx = ex + dx;
                            let ny = ey + dy;
                            let can_move = self.world.rooms[idx].is_walkable(nx, ny);
                            if can_move {
                                let room = &mut self.world.rooms[idx];
                                room.enemies[i].x = nx;
                                room.enemies[i].y = ny;
                            }
                            proof {
                                assert(can_move);
                                assert(spec_cur(*self).enemies@[i as int]
                                    == (Enemy { x: nx, y: ny, ..e0 }));
                                assert(spec_enemy_acted(spec_cur(entry), ppos, e0,
                                    spec_cur(*self).enemies@[i as int]));
                            }
                        }
                    }
                    EnemyAction::Attack => {
                        proof {
                            // only an adjacent enemy without a special attacks
                            assert(spec_manhattan((e0.x, e0.y), ppos) == 1);
                            assert(spec_special(e0) is None);
                        }
                        {
                            let room = &mut self.world.rooms[idx];
                            let t = room.enemies[i].turns_alive;
                            room.enemies[i].turns_alive = if t + 1 < u32::MAX { t + 1 } else { t };
                        }
                        proof {
                            assert(spec_cur(*self).enemies@[i as int] == spec_turns_bumped(e0));
                            assert(spec_enemy_acted(spec_cur(entry), ppos, e0,
                                spec_cur(*self).enemies@[i as int]));
                        }
                        let ghost p_before = self.player;
                        let result = {
                            let room = &self.world.rooms[idx];
                            enemy_attack(&room.enemies[i], &mut self.player, &mut rng)
                        };
                        proof {
                            // the survival-counter bump leaves the attack damage as it was
                            assert(spec_cur(*self).enemies@[i as int].damage == e0.damage);
                            assert(spec_enemy_attack_outcome(e0, p_before, self.player, result));
                            assert(spec_attackers(spec_cur(entry).enemies@, ppos, i + 1)
                                == spec_attackers(spec_cur(entry).enemies@, ppos, i as int)
                                    + seq![e0]);
                            lemma_chain_append(
                                spec_attackers(spec_cur(entry).enemies@, ppos, i as int),
                                e0, entry.player, p_before, self.player, result, result.killed);
                        }
                        events.push(GameEvent::EnemyAttacked {
                            damage: result.damage,
                            enemy_type: {
                                let room = &self.world.rooms[idx];
                                room.enemies[i].enemy_type
                            },
                        });
                        if result.killed {
                            self.game_over = true;
                            self.victory = false;
                            events.push(GameEvent::GameOver { victory: false });
                            self.log(String::from_str("You have been defeated!"));
                            proof {
                                assert(spec_swept(spec_cur(entry), ppos, spec_cur(*self),
                                    i + 1));
                                assert(spec_attack_chain(
                                    spec_attackers(spec_cur(entry).enemies@, ppos, i + 1),
                                    entry.player, self.player, true));
                            }
                            return events;
                        }
                    }
                    EnemyAction::Regenerate(amount) => {
                        proof {
                            assert(spec_special(e0) == Some(EnemyAction::Regenerate(amount)));
                            assert(amount == 2);
                        }
                        if 0 <= amount && amount <= 1000 {
                            let room = &mut self.world.rooms[idx];
                            let hp = room.enemies[i].hp;
                            let max_hp = room.enemies[i].max_hp;
                            let raised = hp + amount;
                            room.enemies[i].hp = if raised <= max_hp { raised } else { max_hp };
                            let t = room.enemies[i].turns_alive;
                            room.enemies[i].turns_alive = if t + 1 < u32::MAX { t + 1 } else { t };
                        }
                        proof {
                            assert(spec_cur(*self).enemies@[i as int] == (Enemy {
                                hp: (if e0.hp + amount <= e0.max_hp {
                                    e0.hp + amount
                                } else {
                                    e0.max_hp as int
                                }) as i32,
                                ..spec_turns_bumped(e0)
                            }));
                            assert(spec_enemy_acted(spec_cur(entry), ppos, e0,
                                spec_cur(*self).enemies@[i as int]));
                        }
                    }
                    EnemyAction::Grow(amount) => {
                        proof {
                            assert(spec_special(e0) == Some(EnemyAction::Grow(amount)));
                            assert(amount == 1);
                        }
                        if 0 <= amount && amount <= 100 {
                            let room = &mut self.world.rooms[idx];
                            let d = room.enemies[i].damage;
                            room.enemies[i].damage = if d <= 900 { d + amount } else { d };
                            let t = room.enemies[i].turns_alive;
                            room.enemies[i].turns_alive = if t + 1 < u32::MAX { t + 1 } else { t };
                        }
                        proof {
                            assert(spec_cur(*self).enemies@[i as int] == (Enemy {
                                damage: (if e0.damage <= 900 {
                                    e0.damage + amount
                                } else {
                                    e0.damage as int
                                }) as i32,
                                ..spec_turns_bumped(e0)
                            }));
                            assert(spec_enemy_acted(spec_cur(entry), ppos, e0,
                                spec_cur(*self).enemies@[i as int]));
                        }
                    }
                    EnemyAction::Split => {
                        proof {
                            assert(spec_special(e0) == Some(EnemyAction::Split));
                        }
                        let room = &mut self.world.rooms[idx];
                        let t = room.enemies[i].turns_alive;
                        room.enemies[i].turns_alive = if t + 1 < u32::MAX { t + 1 } else { t };
                        proof {
                            assert(spec_cur(*self).enemies@[i as int] == spec_turns_bumped(e0));
                        }
                    }
                    EnemyAction::Wait => {
                        proof {
                            assert(spec_manhattan((e0.x, e0.y), ppos) != 1);
                            assert(spec_special(e0) is None);
                        }
                        let room = &mut self.world.rooms[idx];
                        let t = room.enemies[i].turns_alive;
                        room.enemies[i].turns_alive = if t + 1 < u32::MAX { t + 1 } else { t };
                        proof {
                            assert(spec_cur(*self).enemies@[i as int] == spec_turns_bumped(e0));
                        }
                    }
                }
                proof {
                    assert(spec_enemy_acted(spec_cur(entry), ppos, e0,
                        spec_cur(*self).enemies@[i as int]));
                    if !(spec_manhattan((e0.x, e0.y), ppos) == 1 && spec_special(e0) is None) {
                        // no attack happened: the chain is untouched
                        assert(spec_attackers(spec_cur(entry).enemies@, ppos, i + 1)
                            == spec_attackers(spec_cur(entry).enemies@, ppos, i as int));
                    }
                }
            }
            i += 1;
        }
        proof {
            assert(spec_swept(spec_cur(entry), (entry.player.x, entry.player.y),
                spec_cur(*self), spec_cur(entry).enemies@.len() as int));
        }
        events
    }
}

proof fn lemma_generated_state_ok(s: GameState, records: Seq<CommitData>)
    requires
        spec_world_generated(s.world, records),
        -100_000 <= s.player.x <= 100_000,
        -100_000 <= s.player.y <= 100_000,
        !s.game_over,
        -1_000_000_000 <= s.player.hp <= 1_000_000_000,
        -1_000_000_000 <= s.player.max_hp,
        s.player.max_hp <= 1000 + s.player.level * 10,
        -1_000_000_000 <= s.player.energy <= 1_000_000_000,
        -1_000_000_000 <= s.player.max_energy <= 1_000_000_000,
        0 <= s.player.damage <= 1000,
        1 <= s.player.level <= 1000,
        s.player.xp <= s.player.level * 100 + 1000,
        s.player.inventory@.len() == 0,
        s.turn < u32::MAX,
    ensures
        spec_state_ok(s),
{
    assert forall|i: int| 0 <= i < s.world.rooms@.len()
        implies spec_room_wf(#[trigger] s.world.rooms@[i]) by {
        assert(crate::world::generator::spec_dungeon_room(s.world.rooms@[i], records, i,
            s.world.rooms@.len() as int));
    }
    assert forall|i: int, k: int| 0 <= i < s.world.rooms@.len()
        && 0 <= k < (#[trigger] s.world.rooms@[i]).enemies@.len()
        implies spec_enemy_ok(#[trigger] s.world.rooms@[i].enemies@[k]) by {
        let room = s.world.rooms@[i];
        assert(crate::world::generator::spec_dungeon_room(room, records, i,
            s.world.rooms@.len() as int));
        let commits = crate::records::spec_on_day(records, room.source_day as int);
        assert(crate::world::generator::spec_room_populated(room, commits));
        if room.room_type != RoomType::Sanctuary {
            let e = room.enemies@[k];
            assert(crate::world::room::spec_spawned_enemy(e, commits[k]));
            assert(crate::world::room::spec_interior_free_of(room.tiles@,
                room.width as int, room.height as int, Seq::empty(), Seq::empty(),
                e.x as int, e.y as int));
        }
    }
}

} // verus!\n