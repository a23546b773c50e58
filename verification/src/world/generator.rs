//! Dungeon generation: one room per distinct day of activity, sized by
//! total magnitude, typed by the day's records, laid out, connected, and
//! populated from a per-room generator stream.

use vstd::prelude::*;
use crate::records::{CommitData, spec_lines_changed, spec_grouped_by_day, spec_on_day,
    group_by_date, clone_records, lemma_on_day_len};
use crate::text::{spec_text_contains_ci, text_contains_ci};
use crate::tile::Tile;
use super::room::Room;
use super::room::{spec_room_wf, spec_tile_at, spec_in_bounds, spec_free_positions,
    spec_free_positions_of, spec_free_row_of, spec_free_rows_of, spec_interior_free,
    spec_interior_free_of,
    spec_capped, spec_enemy_cap, spec_spawned_enemy, spec_spawned_item, spec_base_item_count,
    spec_enemies_spawned, spec_items_spawned};
use crate::entity::Enemy;
use crate::item::Item;
use crate::records::{lemma_on_day_nonempty, spec_has_day, Dated};
use crate::calendar::{EventData, EventCategory, spec_intensity, spec_event_record};
use super::types::RoomType;

verus! {

/// The total magnitude of a day's records.
pub open spec fn spec_total_lines(s: Seq<CommitData>) -> int
    decreases s.len(),
{
    if s.len() == 0 {
        0
    } else {
        spec_lines_changed(s[0]) + spec_total_lines(s.skip(1))
    }
}

proof fn lemma_total_lines_nonneg(s: Seq<CommitData>)
    ensures
        spec_total_lines(s) >= 0,
    decreases s.len(),
{
    if s.len() > 0 {
        lemma_total_lines_nonneg(s.skip(1));
    }
}

/// The side length of a room for a day's total magnitude: below 20 lines a
/// 3-by-3 room, below 50 a 5-by-5, below 200 a 7-by-7, else a 9-by-9.
pub open spec fn spec_room_dim(total: int) -> int {
    if total < 20 {
        3
    } else if total < 50 {
        5
    } else if total < 200 {
        7
    } else {
        9
    }
}

/// Calculate square room dimensions from the total lines changed.
pub fn calculate_room_size(total_lines: u32) -> (dims: (u8, u8))
    ensures
        dims.0 == spec_room_dim(total_lines as int),
        dims.1 == dims.0,
{
    if total_lines < 20 {
        (3, 3)
    } else if total_lines < 50 {
        (5, 5)
    } else if total_lines < 200 {
        (7, 7)
    } else {
        (9, 9)
    }
}

/// Some record of the day is a special (merge) record.
pub open spec fn spec_has_merge(s: Seq<CommitData>) -> bool {
    exists|k: int| 0 <= k < s.len() && (#[trigger] s[k]).is_merge
}

/// The summed file-category counts of a day's records:
/// (test, config, doc, other).
pub open spec fn spec_sum_cats(s: Seq<CommitData>) -> (int, int, int, int)
    decreases s.len(),
{
    if s.len() == 0 {
        (0, 0, 0, 0)
    } else {
        let rest = spec_sum_cats(s.skip(1));
        (s[0].file_categories.test_files + rest.0,
         s[0].file_categories.config_files + rest.1,
         s[0].file_categories.doc_files + rest.2,
         s[0].file_categories.other_files + rest.3)
    }
}

proof fn lemma_sum_cats_bounds(s: Seq<CommitData>)
    ensures
        0 <= spec_sum_cats(s).0 <= s.len() * (u32::MAX as int),
        0 <= spec_sum_cats(s).1 <= s.len() * (u32::MAX as int),
        0 <= spec_sum_cats(s).2 <= s.len() * (u32::MAX as int),
        0 <= spec_sum_cats(s).3 <= s.len() * (u32::MAX as int),
    decreases s.len(),
{
    let n = s.len() as int;
    if s.len() > 0 {
        lemma_sum_cats_bounds(s.skip(1));
        assert((n - 1) * (u32::MAX as int) + u32::MAX as int == n * (u32::MAX as int))
            by (nonlinear_arith);
    } else {
        assert(n * (u32::MAX as int) == 0) by (nonlinear_arith)
            requires
                n == 0,
        ;
    }
}

/// A message that marks a test-flavoured record: it holds "test" or
/// "spec".
pub open spec fn spec_testish_message(c: CommitData) -> bool {
    spec_text_contains_ci(c.message@, "test"@) || spec_text_contains_ci(c.message@, "spec"@)
}

/// A message that marks a config-flavoured record: it holds "config" or
/// "setting".
pub open spec fn spec_configish_message(c: CommitData) -> bool {
    spec_text_contains_ci(c.message@, "config"@) || spec_text_contains_ci(c.message@, "setting"@)
}

/// How many records of the day have a test-flavoured message.
pub open spec fn spec_count_testish(s: Seq<CommitData>) -> int
    decreases s.len(),
{
    if s.len() == 0 {
        0
    } else {
        (if spec_testish_message(s[0]) { 1int } else { 0int }) + spec_count_testish(s.skip(1))
    }
}

/// How many records of the day have a config-flavoured message.
pub open spec fn spec_count_configish(s: Seq<CommitData>) -> int
    decreases s.len(),
{
    if s.len() == 0 {
        0
    } else {
        (if spec_configish_message(s[0]) { 1int } else { 0int }) + spec_count_configish(s.skip(1))
    }
}

proof fn lemma_counts_bounds(s: Seq<CommitData>)
    ensures
        0 <= spec_count_testish(s) <= s.len(),
        0 <= spec_count_configish(s) <= s.len(),
    decreases s.len(),
{
    if s.len() > 0 {
        lemma_counts_bounds(s.skip(1));
    }
}

/// The type of the room a day's records produce. A special (merge) record
/// makes a Boss room, overriding everything. Otherwise, where file
/// category counts exist, a strict majority of test files makes a
/// Sanctuary and a strict majority of config files a Treasure room. With
/// no category data at all, the same majority rule runs over message
/// keywords. Anything else is Normal.
pub open spec fn spec_room_type(s: Seq<CommitData>) -> RoomType {
    if spec_has_merge(s) {
        RoomType::Boss
    } else {
        let cats = spec_sum_cats(s);
        let total_files = cats.0 + cats.1 + cats.2 + cats.3;
        if total_files > 0 {
            if cats.0 * 2 > total_files {
                RoomType::Sanctuary
            } else if cats.1 * 2 > total_files {
                RoomType::Treasure
            } else {
                RoomType::Normal
            }
        } else if s.len() > 0 {
            if spec_count_testish(s) * 2 > s.len() {
                RoomType::Sanctuary
            } else if spec_count_configish(s) * 2 > s.len() {
                RoomType::Treasure
            } else {
                RoomType::Normal
            }
        } else {
            RoomType::Normal
        }
    }
}

/// Determine the room type from a day's records.
#[verifier::rlimit(50)]
pub fn determine_room_type(commits: &Vec<CommitData>) -> (rt: RoomType)
    requires
        commits@.len() <= 1_000_000,
    ensures
        rt == spec_room_type(commits@),
{
    let n = commits.len();

    // a special (merge) record overrides everything
    let mut i: usize = 0;
    while i < n
        invariant
            n == commits@.len(),
            0 <= i <= n,
            forall|k: int| 0 <= k < i ==> !(#[trigger] commits@[k]).is_merge,
        decreases n - i,
    {
        if commits[i].is_merge {
            return RoomType::Boss;
        }
        i += 1;
    }
    proof {
        assert(!spec_has_merge(commits@));
    }

    // aggregate file categories across all records
    let mut test_files: u64 = 0;
    let mut config_files: u64 = 0;
    let mut doc_files: u64 = 0;
    let mut other_files: u64 = 0;
    let mut j: usize = 0;
    proof {
        assert(commits@.skip(0) =~= commits@);
        lemma_sum_cats_bounds(commits@);
    }
    while j < n
        invariant
            n == commits@.len(),
            n <= 1_000_000,
            0 <= j <= n,
            ({
                let full = spec_sum_cats(commits@);
                let rest = spec_sum_cats(commits@.skip(j as int));
                &&& test_files == full.0 - rest.0
                &&& config_files == full.1 - rest.1
                &&& doc_files == full.2 - rest.2
                &&& other_files == full.3 - rest.3
            }),
            test_files <= (j as int) * (u32::MAX as int),
            config_files <= (j as int) * (u32::MAX as int),
            doc_files <= (j as int) * (u32::MAX as int),
            other_files <= (j as int) * (u32::MAX as int),
        decreases n - j,
    {
        proof {
            assert(commits@.skip(j as int)[0] == commits@[j as int]);
            assert(commits@.skip(j as int).skip(1) =~= commits@.skip(j + 1));
            lemma_sum_cats_bounds(commits@.skip(j as int));
            lemma_sum_cats_bounds(commits@.skip(j + 1));
            assert((j as int) * (u32::MAX as int) + u32::MAX as int
                == (j + 1) * (u32::MAX as int)) by (nonlinear_arith);
            assert((j + 1) * (u32::MAX as int) <= 1_000_001 * (u32::MAX as int))
                by (nonlinear_arith)
                requires j + 1 <= 1_000_001,
            ;
        }
        let c = &commits[j];
        test_files = test_files + c.file_categories.test_files as u64;
        config_files = config_files + c.file_categories.config_files as u64;
        doc_files = doc_files + c.file_categories.doc_files as u64;
        other_files = other_files + c.file_categories.other_files as u64;
        j += 1;
    }
    proof {
        assert(commits@.skip(n as int) =~= Seq::<CommitData>::empty());
        assert((n as int) * (u32::MAX as int) <= 1_000_000 * (u32::MAX as int))
            by (nonlinear_arith)
            requires n <= 1_000_000,
        ;
    }

    let total_files = test_files + config_files + doc_files + other_files;
    if total_files > 0 {
        if test_files * 2 > total_files {
            return RoomType::Sanctuary;
        }
        if config_files * 2 > total_files {
            return RoomType::Treasure;
        }
        return RoomType::Normal;
    }

    // fall back to message keywords when no file data exists at all
    let mut testish: usize = 0;
    let mut configish: usize = 0;
    let mut k: usize = 0;
    proof {
        assert(commits@.skip(0) =~= commits@);
        lemma_counts_bounds(commits@);
    }
    while k < n
        invariant
            n == commits@.len(),
            0 <= k <= n,
            testish <= k,
            configish <= k,
            spec_count_testish(commits@)
                == testish + spec_count_testish(commits@.skip(k as int)),
            spec_count_configish(commits@)
                == configish + spec_count_configish(commits@.skip(k as int)),
        decreases n - k,
    {
        proof {
            assert(commits@.skip(k as int)[0] == commits@[k as int]);
            assert(commits@.skip(k as int).skip(1) =~= commits@.skip(k + 1));
        }
        let msg = commits[k].message.as_str();
        if text_contains_ci(msg, "test") || text_contains_ci(msg, "spec") {
            testish += 1;
        }
        if text_contains_ci(msg, "config") || text_contains_ci(msg, "setting") {
            configish += 1;
        }
        k += 1;
    }
    proof {
        assert(commits@.skip(n as int) =~= Seq::<CommitData>::empty());
    }

    if n > 0 {
        if testish * 2 > n {
            return RoomType::Sanctuary;
        }
        if configish * 2 > n {
            return RoomType::Treasure;
        }
    }
    RoomType::Normal
}

/// The tile the layout stage puts at (x, y): perimeter wall, healing zone
/// inside a Sanctuary, floor everywhere else.
pub open spec fn spec_layout_tile(rt: RoomType, w: int, h: int, x: int, y: int) -> Tile {
    if x == 0 || x == w - 1 || y == 0 || y == h - 1 {
        Tile::Wall
    } else if rt == RoomType::Sanctuary {
        Tile::HealingZone
    } else {
        Tile::Floor
    }
}

/// The tile of a connected room at (x, y): an exit on the east midline
/// where one exists, an entrance on the west midline where one exists,
/// else the layout tile.
pub open spec fn spec_connected_tile(
    rt: RoomType,
    w: int,
    h: int,
    x: int,
    y: int,
    has_entrance: bool,
    has_exit: bool,
) -> Tile {
    if has_exit && x == w - 1 && y == h / 2 {
        Tile::Exit
    } else if has_entrance && x == 0 && y == h / 2 {
        Tile::Entrance
    } else {
        spec_layout_tile(rt, w, h, x, y)
    }
}

/// Lay a room out: perimeter walls, and a healing interior for Sanctuary
/// rooms. Expects the freshly created all-floor grid.
#[verifier::rlimit(50)]
fn generate_layout(room: &mut Room)
    requires
        spec_room_wf(*old(room)),
        forall|x: int, y: int| spec_in_bounds(*old(room), x, y)
            ==> spec_tile_at(*old(room), x, y) == Tile::Floor,
    ensures
        spec_room_wf(*final(room)),
        *final(room) == (Room { tiles: final(room).tiles, ..*old(room) }),
        forall|x: int, y: int| spec_in_bounds(*final(room), x, y)
            ==> spec_tile_at(*final(room), x, y)
                == spec_layout_tile(old(room).room_type, old(room).width as int,
                    old(room).height as int, x, y),
{
    let w = room.width as i32;
    let h = room.height as i32;

    let mut x: i32 = 0;
    while x < w
        invariant
            spec_room_wf(*room),
            w == room.width as int,
            h == room.height as int,
            0 <= x <= w,
            *room == (Room { tiles: room.tiles, ..*old(room) }),
            forall|xx: int, yy: int| spec_in_bounds(*room, xx, yy)
                ==> spec_tile_at(*room, xx, yy) == (if (yy == 0 || yy == h - 1) && xx < x {
                    Tile::Wall
                } else {
                    Tile::Floor
                }),
        decreases w - x,
    {
        room.set_tile(x, 0, Tile::Wall);
        room.set_tile(x, h - 1, Tile::Wall);
        x += 1;
    }

    let mut y: i32 = 0;
    while y < h
        invariant
            spec_room_wf(*room),
            w == room.width as int,
            h == room.height as int,
            0 <= y <= h,
            *room == (Room { tiles: room.tiles, ..*old(room) }),
            forall|xx: int, yy: int| spec_in_bounds(*room, xx, yy)
                ==> spec_tile_at(*room, xx, yy) == (if yy == 0 || yy == h - 1
                        || ((xx == 0 || xx == w - 1) && yy < y) {
                    Tile::Wall
                } else {
                    Tile::Floor
                }),
        decreases h - y,
    {
        room.set_tile(0, y, Tile::Wall);
        room.set_tile(w - 1, y, Tile::Wall);
        y += 1;
    }

    if room.room_type == RoomType::Sanctuary {
        let mut yy: i32 = 1;
        while yy < h - 1
            invariant
                spec_room_wf(*room),
                w == room.width as int,
                h == room.height as int,
                room.room_type == old(room).room_type,
                1 <= yy,
                yy <= (if h - 1 >= 1 { h - 1 } else { 1 }),
                *room == (Room { tiles: room.tiles, ..*old(room) }),
                forall|a: int, b: int| spec_in_bounds(*room, a, b)
                    ==> spec_tile_at(*room, a, b) == (if a == 0 || a == w - 1 || b == 0
                            || b == h - 1 {
                        Tile::Wall
                    } else if b < yy {
                        Tile::HealingZone
                    } else {
                        Tile::Floor
                    }),
            decreases h - yy,
        {
            let mut xx: i32 = 1;
            while xx < w - 1
                invariant
                    spec_room_wf(*room),
                    w == room.width as int,
                    h == room.height as int,
                    room.room_type == old(room).room_type,
                    1 <= yy < h - 1,
                    1 <= xx,
                    xx <= (if w - 1 >= 1 { w - 1 } else { 1 }),
                    *room == (Room { tiles: room.tiles, ..*old(room) }),
                    forall|a: int, b: int| spec_in_bounds(*room, a, b)
                        ==> spec_tile_at(*room, a, b) == (if a == 0 || a == w - 1 || b == 0
                                || b == h - 1 {
                            Tile::Wall
                        } else if b < yy || (b == yy && a < xx) {
                            Tile::HealingZone
                        } else {
                            Tile::Floor
                        }),
                decreases w - xx,
            {
                room.set_tile(xx, yy, Tile::HealingZone);
                xx += 1;
            }
            yy += 1;
        }
    }
}

proof fn lemma_free_row_interior_only(
    t1: Seq<Vec<Tile>>,
    t2: Seq<Vec<Tile>>,
    w: int,
    h: int,
    enemies: Seq<Enemy>,
    items: Seq<Item>,
    y: int,
    x: int,
)
    requires
        forall|a: int, b: int| #![trigger t1[b]@[a]]
            1 <= a < w - 1 && 1 <= b < h - 1 ==> t1[b]@[a] == t2[b]@[a],
    ensures
        spec_free_row_of(t1, w, h, enemies, items, y, x)
            == spec_free_row_of(t2, w, h, enemies, items, y, x),
    decreases w - x,
{
    if x >= w - 1 || x < 0 {
    } else {
        lemma_free_row_interior_only(t1, t2, w, h, enemies, items, y, x + 1);
        if 1 <= x && 1 <= y && y < h - 1 {
            assert(t1[y]@[x] == t2[y]@[x]);
        } else {
            assert(!spec_interior_free_of(t1, w, h, enemies, items, x, y));
            assert(!spec_interior_free_of(t2, w, h, enemies, items, x, y));
        }
    }
}

/// Two grids that agree on every interior tile have the same free
/// positions.
pub proof fn lemma_free_positions_interior_only(
    t1: Seq<Vec<Tile>>,
    t2: Seq<Vec<Tile>>,
    w: int,
    h: int,
    enemies: Seq<Enemy>,
    items: Seq<Item>,
    y: int,
)
    requires
        forall|a: int, b: int| #![trigger t1[b]@[a]]
            1 <= a < w - 1 && 1 <= b < h - 1 ==> t1[b]@[a] == t2[b]@[a],
    ensures
        spec_free_rows_of(t1, w, h, enemies, items, y)
            == spec_free_rows_of(t2, w, h, enemies, items, y),
    decreases h - y,
{
    if y >= h - 1 || y < 0 {
    } else {
        lemma_free_row_interior_only(t1, t2, w, h, enemies, items, y, 1);
        lemma_free_positions_interior_only(t1, t2, w, h, enemies, items, y + 1);
    }
}

/// Place an entrance on the west midline of every room but the first, and
/// an exit on the east midline of every room but the last.
#[verifier::rlimit(50)]
pub fn place_connections(rooms: &mut Vec<Room>)
    requires
        forall|i: int| 0 <= i < old(rooms)@.len() ==> spec_room_wf(#[trigger] old(rooms)@[i]),
    ensures
        final(rooms)@.len() == old(rooms)@.len(),
        forall|i: int| 0 <= i < final(rooms)@.len() ==> {
            let o = old(rooms)@[i];
            let r = #[trigger] final(rooms)@[i];
            &&& r == (Room { tiles: r.tiles, ..o })
            &&& spec_room_wf(r)
            &&& forall|x: int, y: int| #![trigger spec_tile_at(r, x, y)]
                spec_in_bounds(o, x, y)
                ==> spec_tile_at(r, x, y) == (
                    if i < final(rooms)@.len() - 1 && x == o.width as int - 1
                        && y == o.height as int / 2 {
                        Tile::Exit
                    } else if i > 0 && x == 0 && y == o.height as int / 2 {
                        Tile::Entrance
                    } else {
                        spec_tile_at(o, x, y)
                    })
        },
{
    let n = rooms.len();
    let mut i: usize = 0;
    while i < n
        invariant
            n == rooms@.len(),
            n == old(rooms)@.len(),
            0 <= i <= n,
            forall|k: int| i <= k < n ==> rooms@[k] == old(rooms)@[k],
            forall|k: int| 0 <= k < n ==> spec_room_wf(#[trigger] old(rooms)@[k]),
            forall|k: int| 0 <= k < i ==> {
                let o = old(rooms)@[k];
                let r = #[trigger] rooms@[k];
                &&& r == (Room { tiles: r.tiles, ..o })
                &&& spec_room_wf(r)
                &&& forall|x: int, y: int| #![trigger spec_tile_at(r, x, y)]
                    spec_in_bounds(o, x, y)
                    ==> spec_tile_at(r, x, y) == (
                        if k < n - 1 && x == o.width as int - 1 && y == o.height as int / 2 {
                            Tile::Exit
                        } else if k > 0 && x == 0 && y == o.height as int / 2 {
                            Tile::Entrance
                        } else {
                            spec_tile_at(o, x, y)
                        })
            },
        decreases n - i,
    {
        let mid_y = (rooms[i].height as i32) / 2;
        let east_x = rooms[i].width as i32 - 1;
        if i > 0 {
            let room = &mut rooms[i];
            room.set_tile(0, mid_y, Tile::Entrance);
        }
        if i + 1 < n {
            let room = &mut rooms[i];
            room.set_tile(east_x, mid_y, Tile::Exit);
        }
        i += 1;
    }
}

/// The intended item count of a room: a Treasure room takes a random 2 or
/// 3; any other room takes one item per four records, clamped to [1, 3].
pub open spec fn spec_item_quota(rt: RoomType, n_records: int, k: int) -> bool {
    if rt == RoomType::Treasure {
        2 <= k <= 3
    } else {
        k == spec_base_item_count(n_records)
    }
}

/// A room whose enemies and items are exactly what the populator leaves
/// for the given records: one enemy per record up to the cap, each of its
/// record's type on its own free interior tile (none in a Sanctuary), and
/// one item per record up to the item quota, each matching its record on
/// its own free tile.
pub open spec fn spec_room_populated(room: Room, commits: Seq<CommitData>) -> bool {
    let w = room.width as int;
    let h = room.height as int;
    let free_e = spec_free_positions_of(room.tiles@, w, h, Seq::empty(), Seq::empty());
    let free_i = spec_free_positions_of(room.tiles@, w, h, room.enemies@, Seq::empty());
    &&& (room.room_type == RoomType::Sanctuary ==> room.enemies@.len() == 0)
    &&& (room.room_type != RoomType::Sanctuary ==> {
        &&& room.enemies@.len() == spec_capped(
            spec_enemy_cap(commits.len() as int, w, h), free_e.len() as int)
        &&& forall|j: int| 0 <= j < room.enemies@.len()
            ==> spec_spawned_enemy(#[trigger] room.enemies@[j], commits[j])
                && spec_interior_free_of(room.tiles@, w, h, Seq::empty(), Seq::empty(),
                    room.enemies@[j].x as int, room.enemies@[j].y as int)
        &&& forall|a: int, b: int| 0 <= a < b < room.enemies@.len()
            ==> !((#[trigger] room.enemies@[a]).x == (#[trigger] room.enemies@[b]).x
                && room.enemies@[a].y == room.enemies@[b].y)
    })
    &&& (exists|k: int| #[trigger] spec_item_quota(room.room_type, commits.len() as int, k)
        && room.items@.len() == spec_capped(
            if k <= commits.len() { k } else { commits.len() as int },
            free_i.len() as int))
    &&& forall|j: int| 0 <= j < room.items@.len()
        ==> spec_spawned_item(#[trigger] room.items@[j], commits[j])
            && spec_interior_free_of(room.tiles@, w, h, room.enemies@, Seq::empty(),
                room.items@[j].x as int, room.items@[j].y as int)
    &&& forall|a: int, b: int| 0 <= a < b < room.items@.len()
        ==> !((#[trigger] room.items@[a]).x == (#[trigger] room.items@[b]).x
            && room.items@[a].y == room.items@[b].y)
}

/// A freshly generated (not yet connected) room for a day's records.
pub open spec fn spec_generated_room(room: Room, day: int, commits: Seq<CommitData>, index: int) -> bool {
    let w = spec_room_dim(spec_total_lines(commits));
    let rt = spec_room_type(commits);
    &&& spec_room_wf(room)
    &&& room.id == index
    &&& room.source_day == day
    &&& room.width as int == w && room.height as int == w
    &&& room.room_type == rt
    &&& !room.cleared
    &&& room.source_commits@ == commits
    &&& forall|x: int, y: int| #![trigger spec_tile_at(room, x, y)]
        spec_in_bounds(room, x, y)
        ==> spec_tile_at(room, x, y) == spec_layout_tile(rt, w, w, x, y)
    &&& spec_room_populated(room, commits)
}

/// Generate a single room from one day's records, populating it from the
/// given generator stream.
#[verifier::rlimit(50)]
pub fn generate_room(
    day: i32,
    commits: &Vec<CommitData>,
    index: usize,
    rng: &mut rand_chacha::ChaCha8Rng,
) -> (room: Room)
    requires
        commits@.len() <= 1_000_000,
    ensures
        spec_generated_room(room, day as int, commits@, index as int),
{
    // size from total magnitude, saturating high above the top threshold
    let n = commits.len();
    let mut total: u64 = 0;
    let mut i: usize = 0;
    proof {
        assert(commits@.skip(0) =~= commits@);
        lemma_total_lines_nonneg(commits@);
    }
    while i < n
        invariant
            n == commits@.len(),
            0 <= i <= n,
            total <= 200,
            ({
                let done = spec_total_lines(commits@) - spec_total_lines(commits@.skip(i as int));
                total == (if done <= 200 { done } else { 200int })
            }),
        decreases n - i,
    {
        proof {
            assert(commits@.skip(i as int)[0] == commits@[i as int]);
            assert(commits@.skip(i as int).skip(1) =~= commits@.skip(i + 1));
            lemma_total_lines_nonneg(commits@.skip(i as int));
            lemma_total_lines_nonneg(commits@.skip(i + 1));
        }
        let lines = commits[i].lines_changed();
        let raised = total + lines as u64;
        total = if raised > 200 { 200 } else { raised };
        i += 1;
    }
    proof {
        assert(commits@.skip(n as int) =~= Seq::<CommitData>::empty());
    }
    let dim: u8 = if total < 20 {
        3
    } else if total < 50 {
        5
    } else {
        if total < 200 { 7 } else { 9 }
    };
    proof {
        assert(dim as int == spec_room_dim(spec_total_lines(commits@)));
    }

    let room_type = determine_room_type(commits);
    let mut room = Room::new(index, dim, dim, room_type, day);
    let ghost fresh = room;
    room.source_commits = clone_records(commits);
    proof {
        assert(room.tiles == fresh.tiles);
        assert(spec_room_wf(room));
        assert forall|x: int, y: int| spec_in_bounds(room, x, y)
            implies spec_tile_at(room, x, y) == Tile::Floor by {
            assert(spec_in_bounds(fresh, x, y));
            assert(spec_tile_at(fresh, x, y) == Tile::Floor);
        }
    }
    generate_layout(&mut room);
    let ghost laid_out = room;
    room.spawn_enemies(commits, rng);
    let ghost with_enemies = room;
    room.spawn_items(commits, rng);
    proof {
        let ghost rt = spec_room_type(commits@);
        let ghost wd = spec_room_dim(spec_total_lines(commits@));
        let r = room;
        assert(r.tiles == laid_out.tiles && r.width == laid_out.width
            && r.height == laid_out.height && r.room_type == laid_out.room_type
            && r.source_commits == laid_out.source_commits && r.cleared == laid_out.cleared
            && r.id == laid_out.id && r.source_day == laid_out.source_day);
        assert(r.enemies == with_enemies.enemies);
        assert(spec_room_wf(r));
        assert forall|x: int, y: int| #![trigger spec_tile_at(r, x, y)]
            spec_in_bounds(r, x, y)
            implies spec_tile_at(r, x, y) == spec_layout_tile(rt, wd, wd, x, y) by {
            assert(spec_in_bounds(laid_out, x, y));
            assert(spec_tile_at(laid_out, x, y) == spec_layout_tile(rt, wd, wd, x, y));
            assert(spec_tile_at(r, x, y) == spec_tile_at(laid_out, x, y));
        }

        assert(laid_out.enemies@ =~= Seq::<Enemy>::empty());
        assert(laid_out.items@ =~= Seq::<Item>::empty());
        let free_e = spec_free_positions_of(r.tiles@, wd, wd, Seq::empty(), Seq::empty());
        assert(spec_free_positions(laid_out) == free_e);
        if rt != RoomType::Sanctuary {
            assert(spec_enemies_spawned(laid_out, with_enemies.enemies@, commits@));
            let appended = with_enemies.enemies@.skip(0);
            assert(appended =~= r.enemies@);
            assert(r.enemies@.len() == spec_capped(
                spec_enemy_cap(commits@.len() as int, wd, wd), free_e.len() as int));
            assert forall|j: int| 0 <= j < r.enemies@.len()
                implies spec_spawned_enemy(#[trigger] r.enemies@[j], commits@[j])
                    && spec_interior_free_of(r.tiles@, wd, wd, Seq::empty(), Seq::empty(),
                        r.enemies@[j].x as int, r.enemies@[j].y as int) by {
                assert(appended[j] == r.enemies@[j]);
                assert(spec_spawned_enemy(appended[j], commits@[j]));
                assert(spec_interior_free(laid_out, appended[j].x as int, appended[j].y as int));
            }
            assert forall|a: int, b: int| 0 <= a < b < r.enemies@.len()
                implies !((#[trigger] r.enemies@[a]).x == (#[trigger] r.enemies@[b]).x
                    && r.enemies@[a].y == r.enemies@[b].y) by {
                assert(appended[a] == r.enemies@[a] && appended[b] == r.enemies@[b]);
            }
        } else {
            assert(with_enemies.enemies == laid_out.enemies);
            assert(r.enemies@.len() == 0);
        }

        assert(with_enemies.items@ =~= Seq::<Item>::empty());
        let free_i = spec_free_positions_of(r.tiles@, wd, wd, r.enemies@, Seq::empty());
        assert(with_enemies.tiles == r.tiles && with_enemies.enemies == r.enemies);
        assert(spec_free_positions(with_enemies) == free_i);
        let i_appended = r.items@.skip(0);
        assert(i_appended =~= r.items@);
        if rt == RoomType::Treasure {
            let k = choose|k: int| 2 <= k <= 3
                && spec_items_spawned(with_enemies, r.items@, commits@, k);
            assert(spec_item_quota(rt, commits@.len() as int, k));
            assert(r.items@.len() == spec_capped(
                if k <= commits@.len() { k } else { commits@.len() as int },
                free_i.len() as int));
        } else {
            let k = spec_base_item_count(commits@.len() as int);
            assert(spec_items_spawned(with_enemies, r.items@, commits@, k));
            assert(spec_item_quota(rt, commits@.len() as int, k));
            assert(r.items@.len() == spec_capped(
                if k <= commits@.len() { k } else { commits@.len() as int },
                free_i.len() as int));
        }
        assert forall|j: int| 0 <= j < r.items@.len()
            implies spec_spawned_item(#[trigger] r.items@[j], commits@[j])
                && spec_interior_free_of(r.tiles@, wd, wd, r.enemies@, Seq::empty(),
                    r.items@[j].x as int, r.items@[j].y as int) by {
            assert(i_appended[j] == r.items@[j]);
            assert(spec_spawned_item(i_appended[j], commits@[j]));
            assert(spec_interior_free(with_enemies, i_appended[j].x as int,
                i_appended[j].y as int));
        }
        assert forall|a: int, b: int| 0 <= a < b < r.items@.len()
            implies !((#[trigger] r.items@[a]).x == (#[trigger] r.items@[b]).x
                && r.items@[a].y == r.items@[b].y) by {
            assert(i_appended[a] == r.items@[a] && i_appended[b] == r.items@[b]);
        }
        assert(spec_room_populated(r, commits@));
    }
    room
}

/// The failure of dungeon generation: the filtered input held no
/// records at all, so there is no day to build a room from.
#[derive(Debug, Clone, Copy, PartialEq, Eq, Structural)]
pub enum GenerateError {
    NoRecords,
}

/// Some room of the sequence is labelled with day `d`.
pub open spec fn spec_room_on_day(rooms: Seq<Room>, d: int) -> bool {
    exists|i: int| 0 <= i < rooms.len() && (#[trigger] rooms[i]).source_day as int == d
}

/// One room of a generated world: generated from the records of its own
/// day, connected to its neighbours, holding at least one record.
pub open spec fn spec_dungeon_room(room: Room, records: Seq<CommitData>, index: int, n_rooms: int) -> bool {
    let commits = spec_on_day(records, room.source_day as int);
    let w = spec_room_dim(spec_total_lines(commits));
    let rt = spec_room_type(commits);
    &&& commits.len() > 0
    &&& spec_room_wf(room)
    &&& room.id == index
    &&& room.width as int == w && room.height as int == w
    &&& room.room_type == rt
    &&& !room.cleared
    &&& room.source_commits@ == commits
    &&& forall|x: int, y: int| #![trigger spec_tile_at(room, x, y)]
        spec_in_bounds(room, x, y)
        ==> spec_tile_at(room, x, y)
            == spec_connected_tile(rt, w, w, x, y, index > 0, index < n_rooms - 1)
    &&& spec_room_populated(room, commits)
}

/// A world generated from an activity history: one room per distinct day
/// in ascending date order, each generated from exactly its day's records
/// and connected to its neighbours.
pub open spec fn spec_world_generated(w: super::types::World, records: Seq<CommitData>) -> bool {
    &&& w.current_room == 0
    &&& forall|i: int, j: int| 0 <= i < j < w.rooms@.len()
        ==> (#[trigger] w.rooms@[i]).source_day < (#[trigger] w.rooms@[j]).source_day
    &&& forall|i: int| 0 <= i < w.rooms@.len()
        ==> spec_dungeon_room(#[trigger] w.rooms@[i], records, i, w.rooms@.len() as int)
    &&& forall|k: int| 0 <= k < records.len()
        ==> spec_room_on_day(w.rooms@, (#[trigger] records[k]).day as int)
}

/// Generate a complete dungeon from an activity history and a seed: one
/// room per distinct day, in ascending date order; the room layouts, types
/// and connections are a function of the records alone, and each room's
/// encounters draw from a generator stream keyed by (seed, room index).
/// An empty history is rejected loudly rather than yielding a silently
/// empty world.
#[verifier::rlimit(100)]
pub fn generate_dungeon(git_data: &Vec<CommitData>, seed: u64)
    -> (r: Result<super::types::World, GenerateError>)
    requires
        git_data@.len() <= 1_000_000,
    ensures
        r is Err <==> git_data@.len() == 0,
        r matches Err(e) ==> e == GenerateError::NoRecords,
        r matches Ok(world) ==> spec_world_generated(world, git_data@),
{
    if git_data.len() == 0 {
        return Err(GenerateError::NoRecords);
    }
    let groups = group_by_date(git_data);
    let n = groups.len();
    let mut rooms: Vec<Room> = Vec::new();
    let mut i: usize = 0;
    while i < n
        invariant
            n == groups@.len(),
            0 <= i <= n,
            rooms@.len() == i,
            spec_grouped_by_day(git_data@, groups@),
            git_data@.len() <= 1_000_000,
            forall|a: int| 0 <= a < i
                ==> spec_generated_room(#[trigger] rooms@[a], groups@[a].0 as int,
                    groups@[a].1@, a),
            forall|a: int| 0 <= a < i
                ==> (#[trigger] rooms@[a]).source_day == groups@[a].0,
        decreases n - i,
    {
        let day = groups[i].0;
        proof {
            lemma_on_day_len(git_data@, day as int);
            assert(groups@[i as int].1@ == spec_on_day(git_data@, day as int));
        }
        let mut room_rng = crate::rng::rng_from_seed(seed.wrapping_add(i as u64));
        let room = generate_room(day, &groups[i].1, i, &mut room_rng);
        rooms.push(room);
        i += 1;
    }

    let ghost pre = rooms@;
    place_connections(&mut rooms);
    proof {
        assert forall|a: int| 0 <= a < rooms@.len()
            implies spec_dungeon_room(#[trigger] rooms@[a], git_data@, a,
                rooms@.len() as int) by {
            let o = pre[a];
            let r = rooms@[a];
            let commits = groups@[a].1@;
            assert(spec_generated_room(o, groups@[a].0 as int, commits, a));
            assert(commits == spec_on_day(git_data@, o.source_day as int));
            lemma_on_day_nonempty_for_group(git_data@, groups@, a);
            // the overlay only touches border tiles, so population facts carry over
            let w = o.width as int;
            let h = o.height as int;
            assert forall|x: int, y: int| #![trigger r.tiles@[y]@[x]]
                1 <= x < w - 1 && 1 <= y < h - 1
                implies r.tiles@[y]@[x] == o.tiles@[y]@[x] by {
                assert(spec_tile_at(r, x, y) == spec_tile_at(o, x, y));
            }
            lemma_free_positions_interior_only(r.tiles@, o.tiles@, w, h,
                Seq::empty(), Seq::empty(), 1);
            lemma_free_positions_interior_only(r.tiles@, o.tiles@, w, h,
                r.enemies@, Seq::empty(), 1);
            assert(r.enemies@ == o.enemies@ && r.items@ == o.items@);
            let k0 = choose|k0: int| #[trigger] spec_item_quota(o.room_type,
                commits.len() as int, k0)
                && o.items@.len() == spec_capped(
                    if k0 <= commits.len() { k0 } else { commits.len() as int },
                    spec_free_positions_of(o.tiles@, w, h, o.enemies@, Seq::empty()).len() as int);
            assert(spec_item_quota(r.room_type, commits.len() as int, k0));
            assert(spec_room_populated(r, commits));
        }
        assert forall|k: int| 0 <= k < git_data@.len()
            implies spec_room_on_day(rooms@, (#[trigger] git_data@[k]).day as int) by {
            assert(crate::records::spec_group_for_day(groups@, git_data@[k].day as int));
            let q = choose|q: int| 0 <= q < groups@.len()
                && (#[trigger] groups@[q]).0 as int == git_data@[k].day as int;
            assert(rooms@[q].source_day as int == git_data@[k].day as int);
        }
    }
    Ok(super::types::World::new(rooms))
}

proof fn lemma_on_day_nonempty_for_group(
    records: Seq<CommitData>,
    groups: Seq<(i32, Vec<CommitData>)>,
    a: int,
)
    requires
        spec_grouped_by_day(records, groups),
        0 <= a < groups.len(),
    ensures
        groups[a].1@.len() > 0,
{
}

/// The total intensity of a day's calendar events.
pub open spec fn spec_total_intensity(s: Seq<EventData>) -> int
    decreases s.len(),
{
    if s.len() == 0 {
        0
    } else {
        spec_intensity(s[0]) + spec_total_intensity(s.skip(1))
    }
}

proof fn lemma_total_intensity_nonneg(s: Seq<EventData>)
    ensures
        spec_total_intensity(s) >= 0,
    decreases s.len(),
{
    if s.len() > 0 {
        lemma_total_intensity_nonneg(s.skip(1));
    }
}

/// The side length of a room for a day's total event intensity: up to 4 a
/// 3-by-3 room, up to 10 a 5-by-5, up to 20 a 7-by-7, else a 9-by-9.
pub open spec fn spec_event_room_dim(total: int) -> int {
    if total <= 4 {
        3
    } else if total <= 10 {
        5
    } else if total <= 20 {
        7
    } else {
        9
    }
}

/// Calculate square room dimensions from the total event intensity.
pub fn calculate_room_size_from_intensity(intensity: u32) -> (dims: (u8, u8))
    ensures
        dims.0 == spec_event_room_dim(intensity as int),
        dims.1 == dims.0,
{
    if intensity <= 4 {
        (3, 3)
    } else if intensity <= 10 {
        (5, 5)
    } else if intensity <= 20 {
        (7, 7)
    } else {
        (9, 9)
    }
}

/// Some event of the day is an all-hands or a large (10 or more
/// attendees) meeting.
pub open spec fn spec_has_big_meeting(s: Seq<EventData>) -> bool {
    exists|k: int| 0 <= k < s.len()
        && ((#[trigger] s[k]).category == EventCategory::AllHands || s[k].attendee_count >= 10)
}

/// How many events of the day are one-on-ones.
pub open spec fn spec_count_one_on_one(s: Seq<EventData>) -> int
    decreases s.len(),
{
    if s.len() == 0 {
        0
    } else {
        (if s[0].category == EventCategory::OneOnOne { 1int } else { 0int })
            + spec_count_one_on_one(s.skip(1))
    }
}

/// How many events of the day are focus time or breaks.
pub open spec fn spec_count_restful(s: Seq<EventData>) -> int
    decreases s.len(),
{
    if s.len() == 0 {
        0
    } else {
        (if s[0].category == EventCategory::FocusTime
            || s[0].category == EventCategory::Break { 1int } else { 0int })
            + spec_count_restful(s.skip(1))
    }
}

proof fn lemma_event_counts_bounds(s: Seq<EventData>)
    ensures
        0 <= spec_count_one_on_one(s) <= s.len(),
        0 <= spec_count_restful(s) <= s.len(),
    decreases s.len(),
{
    if s.len() > 0 {
        lemma_event_counts_bounds(s.skip(1));
    }
}

/// The type of the room a day's events produce: an all-hands or large
/// meeting makes a Boss room; a strict majority of focus/break events a
/// Sanctuary; a strict majority of one-on-ones a Treasure room; anything
/// else (and an empty day) is Normal.
pub open spec fn spec_event_room_type(s: Seq<EventData>) -> RoomType {
    if spec_has_big_meeting(s) {
        RoomType::Boss
    } else if s.len() == 0 {
        RoomType::Normal
    } else if spec_count_restful(s) * 2 > s.len() {
        RoomType::Sanctuary
    } else if spec_count_one_on_one(s) * 2 > s.len() {
        RoomType::Treasure
    } else {
        RoomType::Normal
    }
}

/// Determine the room type from a day's calendar events.
#[verifier::rlimit(50)]
pub fn determine_room_type_from_events(events: &Vec<EventData>) -> (rt: RoomType)
    ensures
        rt == spec_event_room_type(events@),
{
    let n = events.len();

    let mut i: usize = 0;
    while i < n
        invariant
            n == events@.len(),
            0 <= i <= n,
            forall|k: int| 0 <= k < i
                ==> !((#[trigger] events@[k]).category == EventCategory::AllHands
                    || events@[k].attendee_count >= 10),
        decreases n - i,
    {
        if events[i].category == EventCategory::AllHands || events[i].attendee_count >= 10 {
            return RoomType::Boss;
        }
        i += 1;
    }
    proof {
        assert(!spec_has_big_meeting(events@));
    }

    if n == 0 {
        return RoomType::Normal;
    }

    let mut one_on_one: usize = 0;
    let mut restful: usize = 0;
    let mut j: usize = 0;
    proof {
        assert(events@.skip(0) =~= events@);
        lemma_event_counts_bounds(events@);
    }
    while j < n
        invariant
            n == events@.len(),
            0 <= j <= n,
            one_on_one <= j,
            restful <= j,
            spec_count_one_on_one(events@)
                == one_on_one + spec_count_one_on_one(events@.skip(j as int)),
            spec_count_restful(events@)
                == restful + spec_count_restful(events@.skip(j as int)),
        decreases n - j,
    {
        proof {
            assert(events@.skip(j as int)[0] == events@[j as int]);
            assert(events@.skip(j as int).skip(1) =~= events@.skip(j + 1));
        }
        let cat = events[j].category;
        if cat == EventCategory::OneOnOne {
            one_on_one += 1;
        }
        if cat == EventCategory::FocusTime || cat == EventCategory::Break {
            restful += 1;
        }
        j += 1;
    }
    proof {
        assert(events@.skip(n as int) =~= Seq::<EventData>::empty());
    }

    if restful > n / 2 {
        return RoomType::Sanctuary;
    }
    if one_on_one > n / 2 {
        return RoomType::Treasure;
    }
    RoomType::Normal
}

/// The shared activity-record forms of a day's events.
pub open spec fn spec_event_records(events: Seq<EventData>) -> Seq<CommitData> {
    events.map_values(|e: EventData| spec_event_record(e))
}

/// A freshly generated (not yet connected) room for a day's events,
/// populated from their shared activity-record forms.
pub open spec fn spec_generated_event_room(room: Room, day: int, events: Seq<EventData>, index: int) -> bool {
    let w = spec_event_room_dim(spec_total_intensity(events));
    let rt = spec_event_room_type(events);
    &&& spec_room_wf(room)
    &&& room.id == index
    &&& room.source_day == day
    &&& room.width as int == w && room.height as int == w
    &&& room.room_type == rt
    &&& !room.cleared
    &&& room.source_commits@ == spec_event_records(events)
    &&& forall|x: int, y: int| #![trigger spec_tile_at(room, x, y)]
        spec_in_bounds(room, x, y)
        ==> spec_tile_at(room, x, y) == spec_layout_tile(rt, w, w, x, y)
    &&& spec_room_populated(room, spec_event_records(events))
}

/// Generate a single room from one day's calendar events, populating it
/// from the given generator stream.
#[verifier::rlimit(50)]
pub fn generate_room_from_events(
    day: i32,
    events: &Vec<EventData>,
    index: usize,
    rng: &mut rand_chacha::ChaCha8Rng,
) -> (room: Room)
    ensures
        spec_generated_event_room(room, day as int, events@, index as int),
{
    let n = events.len();
    let mut total: u64 = 0;
    let mut i: usize = 0;
    proof {
        assert(events@.skip(0) =~= events@);
        lemma_total_intensity_nonneg(events@);
    }
    while i < n
        invariant
            n == events@.len(),
            0 <= i <= n,
            total <= 21,
            ({
                let done = spec_total_intensity(events@)
                    - spec_total_intensity(events@.skip(i as int));
                total == (if done <= 21 { done } else { 21int })
            }),
        decreases n - i,
    {
        proof {
            assert(events@.skip(i as int)[0] == events@[i as int]);
            assert(events@.skip(i as int).skip(1) =~= events@.skip(i + 1));
            lemma_total_intensity_nonneg(events@.skip(i as int));
            lemma_total_intensity_nonneg(events@.skip(i + 1));
        }
        let e = &events[i];
        let base = (e.duration_minutes / 15) as u64;
        let bonus = (if e.attendee_count >= 1 { e.attendee_count - 1 } else { 0 }) as u64;
        let raised = total + base + bonus;
        total = if raised > 21 { 21 } else { raised };
        i += 1;
    }
    proof {
        assert(events@.skip(n as int) =~= Seq::<EventData>::empty());
    }
    let dim: u8 = if total <= 4 {
        3
    } else if total <= 10 {
        5
    } else {
        if total <= 20 { 7 } else { 9 }
    };
    proof {
        assert(dim as int == spec_event_room_dim(spec_total_intensity(events@)));
    }

    let room_type = determine_room_type_from_events(events);
    let records = crate::calendar::event_records(events);
    let mut room = Room::new(index, dim, dim, room_type, day);
    let ghost fresh = room;
    room.source_commits = records;
    proof {
        assert(room.tiles == fresh.tiles);
        assert(spec_room_wf(room));
        assert forall|x: int, y: int| spec_in_bounds(room, x, y)
            implies spec_tile_at(room, x, y) == Tile::Floor by {
            assert(spec_in_bounds(fresh, x, y));
            assert(spec_tile_at(fresh, x, y) == Tile::Floor);
        }
    }
    generate_layout(&mut room);
    let ghost laid_out = room;
    let commits = crate::calendar::event_records(events);
    room.spawn_enemies(&commits, rng);
    let ghost with_enemies = room;
    room.spawn_items(&commits, rng);
    proof {
        let ghost rt = spec_event_room_type(events@);
        let ghost wd = spec_event_room_dim(spec_total_intensity(events@));
        let r = room;
        assert(r.tiles == laid_out.tiles && r.width == laid_out.width
            && r.height == laid_out.height && r.room_type == laid_out.room_type
            && r.source_commits == laid_out.source_commits && r.cleared == laid_out.cleared
            && r.id == laid_out.id && r.source_day == laid_out.source_day);
        assert(r.enemies == with_enemies.enemies);
        assert(spec_room_wf(r));
        assert(r.source_commits@ == spec_event_records(events@));
        assert(commits@ == spec_event_records(events@));
        assert forall|x: int, y: int| #![trigger spec_tile_at(r, x, y)]
            spec_in_bounds(r, x, y)
            implies spec_tile_at(r, x, y) == spec_layout_tile(rt, wd, wd, x, y) by {
            assert(spec_in_bounds(laid_out, x, y));
            assert(spec_tile_at(laid_out, x, y) == spec_layout_tile(rt, wd, wd, x, y));
            assert(spec_tile_at(r, x, y) == spec_tile_at(laid_out, x, y));
        }

        assert(laid_out.enemies@ =~= Seq::<Enemy>::empty());
        assert(laid_out.items@ =~= Seq::<Item>::empty());
        let free_e = spec_free_positions_of(r.tiles@, wd, wd, Seq::empty(), Seq::empty());
        assert(spec_free_positions(laid_out) == free_e);
        if rt != RoomType::Sanctuary {
            assert(spec_enemies_spawned(laid_out, with_enemies.enemies@, commits@));
            let appended = with_enemies.enemies@.skip(0);
            assert(appended =~= r.enemies@);
            assert(r.enemies@.len() == spec_capped(
                spec_enemy_cap(commits@.len() as int, wd, wd), free_e.len() as int));
            assert forall|j: int| 0 <= j < r.enemies@.len()
                implies spec_spawned_enemy(#[trigger] r.enemies@[j], commits@[j])
                    && spec_interior_free_of(r.tiles@, wd, wd, Seq::empty(), Seq::empty(),
                        r.enemies@[j].x as int, r.enemies@[j].y as int) by {
                assert(appended[j] == r.enemies@[j]);
                assert(spec_spawned_enemy(appended[j], commits@[j]));
                assert(spec_interior_free(laid_out, appended[j].x as int, appended[j].y as int));
            }
            assert forall|a: int, b: int| 0 <= a < b < r.enemies@.len()
                implies !((#[trigger] r.enemies@[a]).x == (#[trigger] r.enemies@[b]).x
                    && r.enemies@[a].y == r.enemies@[b].y) by {
                assert(appended[a] == r.enemies@[a] && appended[b] == r.enemies@[b]);
            }
        } else {
            assert(with_enemies.enemies == laid_out.enemies);
            assert(r.enemies@.len() == 0);
        }

        assert(with_enemies.items@ =~= Seq::<Item>::empty());
        let free_i = spec_free_positions_of(r.tiles@, wd, wd, r.enemies@, Seq::empty());
        assert(with_enemies.tiles == r.tiles && with_enemies.enemies == r.enemies);
        assert(spec_free_positions(with_enemies) == free_i);
        let i_appended = r.items@.skip(0);
        assert(i_appended =~= r.items@);
        if rt == RoomType::Treasure {
            let k = choose|k: int| 2 <= k <= 3
                && spec_items_spawned(with_enemies, r.items@, commits@, k);
            assert(spec_item_quota(rt, commits@.len() as int, k));
            assert(r.items@.len() == spec_capped(
                if k <= commits@.len() { k } else { commits@.len() as int },
                free_i.len() as int));
        } else {
            let k = spec_base_item_count(commits@.len() as int);
            assert(spec_items_spawned(with_enemies, r.items@, commits@, k));
            assert(spec_item_quota(rt, commits@.len() as int, k));
            assert(r.items@.len() == spec_capped(
                if k <= commits@.len() { k } else { commits@.len() as int },
                free_i.len() as int));
        }
        assert forall|j: int| 0 <= j < r.items@.len()
            implies spec_spawned_item(#[trigger] r.items@[j], commits@[j])
                && spec_interior_free_of(r.tiles@, wd, wd, r.enemies@, Seq::empty(),
                    r.items@[j].x as int, r.items@[j].y as int) by {
            assert(i_appended[j] == r.items@[j]);
            assert(spec_spawned_item(i_appended[j], commits@[j]));
            assert(spec_interior_free(with_enemies, i_appended[j].x as int,
                i_appended[j].y as int));
        }
        assert forall|a: int, b: int| 0 <= a < b < r.items@.len()
            implies !((#[trigger] r.items@[a]).x == (#[trigger] r.items@[b]).x
                && r.items@[a].y == r.items@[b].y) by {
            assert(i_appended[a] == r.items@[a] && i_appended[b] == r.items@[b]);
        }
        assert(spec_room_populated(r, commits@));
    }
    room
}

/// One room of a calendar-generated world: generated and populated from
/// the shared record forms of its own day's events, connected to its
/// neighbours.
pub open spec fn spec_event_dungeon_room(room: Room, events: Seq<EventData>, index: int, n_rooms: int) -> bool {
    let day_events = spec_on_day(events, room.source_day as int);
    let w = spec_event_room_dim(spec_total_intensity(day_events));
    let rt = spec_event_room_type(day_events);
    &&& day_events.len() > 0
    &&& spec_room_wf(room)
    &&& room.id == index
    &&& room.width as int == w && room.height as int == w
    &&& room.room_type == rt
    &&& !room.cleared
    &&& room.source_commits@ == spec_event_records(day_events)
    &&& forall|x: int, y: int| #![trigger spec_tile_at(room, x, y)]
        spec_in_bounds(room, x, y)
        ==> spec_tile_at(room, x, y)
            == spec_connected_tile(rt, w, w, x, y, index > 0, index < n_rooms - 1)
    &&& spec_room_populated(room, spec_event_records(day_events))
}

/// A world generated from a calendar history: one room per distinct day
/// in ascending date order.
pub open spec fn spec_event_world_generated(w: super::types::World, events: Seq<EventData>) -> bool {
    &&& w.current_room == 0
    &&& forall|i: int, j: int| 0 <= i < j < w.rooms@.len()
        ==> (#[trigger] w.rooms@[i]).source_day < (#[trigger] w.rooms@[j]).source_day
    &&& forall|i: int| 0 <= i < w.rooms@.len()
        ==> spec_event_dungeon_room(#[trigger] w.rooms@[i], events, i, w.rooms@.len() as int)
    &&& forall|k: int| 0 <= k < events.len()
        ==> spec_room_on_day(w.rooms@, (#[trigger] events[k]).day as int)
}

/// Generate a complete dungeon from calendar event data: one room per
/// distinct day, in ascending date order, sized by intensity and typed by
/// the day's events. An empty history is rejected loudly.
#[verifier::rlimit(100)]
pub fn generate_dungeon_from_calendar(events: &Vec<EventData>, seed: u64)
    -> (r: Result<super::types::World, GenerateError>)
    ensures
        r is Err <==> events@.len() == 0,
        r matches Err(e) ==> e == GenerateError::NoRecords,
        r matches Ok(world) ==> spec_event_world_generated(world, events@),
{
    if events.len() == 0 {
        return Err(GenerateError::NoRecords);
    }
    let groups = crate::calendar::group_by_date(events);
    let n = groups.len();
    let mut rooms: Vec<Room> = Vec::new();
    let mut i: usize = 0;
    while i < n
        invariant
            n == groups@.len(),
            0 <= i <= n,
            rooms@.len() == i,
            spec_grouped_by_day(events@, groups@),
            forall|a: int| 0 <= a < i
                ==> spec_generated_event_room(#[trigger] rooms@[a], groups@[a].0 as int,
                    groups@[a].1@, a),
            forall|a: int| 0 <= a < i
                ==> (#[trigger] rooms@[a]).source_day == groups@[a].0,
        decreases n - i,
    {
        let day = groups[i].0;
        proof {
            assert(groups@[i as int].1@ == spec_on_day(events@, day as int));
        }
        let mut room_rng = crate::rng::rng_from_seed(seed.wrapping_add(i as u64));
        let room = generate_room_from_events(day, &groups[i].1, i, &mut room_rng);
        rooms.push(room);
        i += 1;
    }

    let ghost pre = rooms@;
    place_connections(&mut rooms);
    proof {
        assert forall|a: int| 0 <= a < rooms@.len()
            implies spec_event_dungeon_room(#[trigger] rooms@[a], events@, a,
                rooms@.len() as int) by {
            let o = pre[a];
            let r = rooms@[a];
            let day_events = groups@[a].1@;
            assert(spec_generated_event_room(o, groups@[a].0 as int, day_events, a));
            assert(day_events == spec_on_day(events@, o.source_day as int));
            // the overlay only touches border tiles, so population facts carry over
            let w = o.width as int;
            let h = o.height as int;
            assert forall|x: int, y: int| #![trigger r.tiles@[y]@[x]]
                1 <= x < w - 1 && 1 <= y < h - 1
                implies r.tiles@[y]@[x] == o.tiles@[y]@[x] by {
                assert(spec_tile_at(r, x, y) == spec_tile_at(o, x, y));
            }
            lemma_free_positions_interior_only(r.tiles@, o.tiles@, w, h,
                Seq::empty(), Seq::empty(), 1);
            lemma_free_positions_interior_only(r.tiles@, o.tiles@, w, h,
                r.enemies@, Seq::empty(), 1);
            assert(r.enemies@ == o.enemies@ && r.items@ == o.items@);
            let recs = spec_event_records(day_events);
            let k0 = choose|k0: int| #[trigger] spec_item_quota(o.room_type,
                recs.len() as int, k0)
                && o.items@.len() == spec_capped(
                    if k0 <= recs.len() { k0 } else { recs.len() as int },
                    spec_free_positions_of(o.tiles@, w, h, o.enemies@, Seq::empty()).len() as int);
            assert(spec_item_quota(r.room_type, recs.len() as int, k0));
            assert(spec_room_populated(r, recs));
        }
        assert forall|k: int| 0 <= k < events@.len()
            implies spec_room_on_day(rooms@, (#[trigger] events@[k]).day as int) by {
            assert(crate::records::spec_group_for_day(groups@, events@[k].day as int));
            let q = choose|q: int| 0 <= q < groups@.len()
                && (#[trigger] groups@[q]).0 as int == events@[k].day as int;
            assert(rooms@[q].source_day as int == events@[k].day as int);
        }
    }
    Ok(super::types::World::new(rooms))
}


proof fn lemma_sorted_days_unique(d1: Seq<i32>, d2: Seq<i32>)
    requires
        forall|a: int, b: int| 0 <= a < b < d1.len() ==> d1[a] < d1[b],
        forall|a: int, b: int| 0 <= a < b < d2.len() ==> d2[a] < d2[b],
        forall|x: i32| #[trigger] d1.contains(x) <==> d2.contains(x),
    ensures
        d1 =~= d2,
    decreases d1.len(),
{
    if d1.len() == 0 {
        if d2.len() > 0 {
            assert(d2.contains(d2[0]));
            assert(d1.contains(d2[0]));
        }
    } else {
        assert(d1.contains(d1[0]));
        assert(d2.contains(d1[0]));
        if d2.len() == 0 {
            assert(false);
        }
        // both heads are the minimum of the same set
        let j = choose|j: int| 0 <= j < d2.len() && d2[j] == d1[0];
        assert(d2[0] <= d2[j]);
        assert(d2.contains(d2[0]));
        assert(d1.contains(d2[0]));
        let k = choose|k: int| 0 <= k < d1.len() && d1[k] == d2[0];
        assert(d1[0] <= d1[k]);
        assert(d1[0] == d2[0]);

        let t1 = d1.skip(1);
        let t2 = d2.skip(1);
        assert forall|x: i32| #[trigger] t1.contains(x) implies t2.contains(x) by {
            let a = choose|a: int| 0 <= a < t1.len() && t1[a] == x;
            assert(d1[a + 1] == x);
            assert(d1.contains(x));
            assert(d2.contains(x));
            let b = choose|b: int| 0 <= b < d2.len() && d2[b] == x;
            assert(d1[0] < d1[a + 1]);
            assert(b != 0);
            assert(t2[b - 1] == x);
        }
        assert forall|x: i32| #[trigger] t2.contains(x) implies t1.contains(x) by {
            let a = choose|a: int| 0 <= a < t2.len() && t2[a] == x;
            assert(d2[a + 1] == x);
            assert(d2.contains(x));
            assert(d1.contains(x));
            let b = choose|b: int| 0 <= b < d1.len() && d1[b] == x;
            assert(d2[0] < d2[a + 1]);
            assert(b != 0);
            assert(t1[b - 1] == x);
        }
        lemma_sorted_days_unique(t1, t2);
        assert forall|i: int| 0 <= i < d1.len() implies d1[i] == d2[i] by {
            if i > 0 {
                assert(t1[i - 1] == t2[i - 1]);
            }
        }
    }
}

/// Generation is deterministic in everything the records pin down: two
/// worlds generated from the same history have the same room count, and
/// room for room the same day, dimensions, type, and tile layout.
pub proof fn lemma_generation_deterministic(w1: super::types::World, w2: super::types::World, records: Seq<CommitData>)
    requires
        spec_world_generated(w1, records),
        spec_world_generated(w2, records),
    ensures
        w1.rooms@.len() == w2.rooms@.len(),
        forall|i: int| 0 <= i < w1.rooms@.len() ==> {
            let r1 = #[trigger] w1.rooms@[i];
            let r2 = w2.rooms@[i];
            &&& r1.source_day == r2.source_day
            &&& r1.width == r2.width && r1.height == r2.height
            &&& r1.room_type == r2.room_type
            &&& forall|x: int, y: int| #![trigger spec_tile_at(r1, x, y)]
                spec_in_bounds(r1, x, y)
                ==> spec_tile_at(r1, x, y) == spec_tile_at(r2, x, y)
        },
{
    let n1 = w1.rooms@.len() as int;
    let n2 = w2.rooms@.len() as int;
    let d1 = Seq::new(n1 as nat, |i: int| w1.rooms@[i].source_day);
    let d2 = Seq::new(n2 as nat, |i: int| w2.rooms@[i].source_day);

    assert forall|x: i32| #[trigger] d1.contains(x) implies d2.contains(x) by {
        let i = choose|i: int| 0 <= i < d1.len() && d1[i] == x;
        assert(spec_dungeon_room(w1.rooms@[i], records, i, n1));
        let commits = spec_on_day(records, x as int);
        lemma_on_day_nonempty(records, x as int);
        assert(spec_has_day(records, x as int));
        lemma_has_day_exists_pub(records, x as int);
        let k = choose|k: int| 0 <= k < records.len()
            && (#[trigger] records[k]).spec_day() == x as int;
        assert(spec_room_on_day(w2.rooms@, records[k].day as int));
        let j = choose|j: int| 0 <= j < w2.rooms@.len()
            && (#[trigger] w2.rooms@[j]).source_day as int == records[k].day as int;
        assert(d2[j] == x);
    }
    assert forall|x: i32| #[trigger] d2.contains(x) implies d1.contains(x) by {
        let i = choose|i: int| 0 <= i < d2.len() && d2[i] == x;
        assert(spec_dungeon_room(w2.rooms@[i], records, i, n2));
        let commits = spec_on_day(records, x as int);
        lemma_on_day_nonempty(records, x as int);
        assert(spec_has_day(records, x as int));
        lemma_has_day_exists_pub(records, x as int);
        let k = choose|k: int| 0 <= k < records.len()
            && (#[trigger] records[k]).spec_day() == x as int;
        assert(spec_room_on_day(w1.rooms@, records[k].day as int));
        let j = choose|j: int| 0 <= j < w1.rooms@.len()
            && (#[trigger] w1.rooms@[j]).source_day as int == records[k].day as int;
        assert(d1[j] == x);
    }
    assert(forall|a: int, b: int| 0 <= a < b < d1.len() ==> d1[a] < d1[b]);
    assert(forall|a: int, b: int| 0 <= a < b < d2.len() ==> d2[a] < d2[b]);
    lemma_sorted_days_unique(d1, d2);
    assert(n1 == n2);

    assert forall|i: int| 0 <= i < w1.rooms@.len() implies {
        let r1 = #[trigger] w1.rooms@[i];
        let r2 = w2.rooms@[i];
        &&& r1.source_day == r2.source_day
        &&& r1.width == r2.width && r1.height == r2.height
        &&& r1.room_type == r2.room_type
        &&& forall|x: int, y: int| #![trigger spec_tile_at(r1, x, y)]
            spec_in_bounds(r1, x, y)
            ==> spec_tile_at(r1, x, y) == spec_tile_at(r2, x, y)
    } by {
        let r1 = w1.rooms@[i];
        let r2 = w2.rooms@[i];
        assert(d1[i] == d2[i]);
        assert(r1.source_day == r2.source_day);
        assert(spec_dungeon_room(r1, records, i, n1));
        assert(spec_dungeon_room(r2, records, i, n2));
        let commits = spec_on_day(records, r1.source_day as int);
        assert forall|x: int, y: int| #![trigger spec_tile_at(r1, x, y)]
            spec_in_bounds(r1, x, y)
            implies spec_tile_at(r1, x, y) == spec_tile_at(r2, x, y) by {
            assert(spec_in_bounds(r2, x, y));
            assert(spec_tile_at(r2, x, y) == spec_connected_tile(r2.room_type,
                r2.width as int, r2.width as int, x, y, i > 0, i < n2 - 1));
        }
    }
}

proof fn lemma_has_day_exists_pub(s: Seq<CommitData>, day: int)
    requires
        spec_has_day(s, day),
    ensures
        exists|k: int| 0 <= k < s.len() && (#[trigger] s[k]).spec_day() == day,
    decreases s.len(),
{
    if s[0].spec_day() == day {
        assert(s[0].spec_day() == day);
    } else {
        lemma_has_day_exists_pub(s.skip(1), day);
        let k = choose|k: int| 0 <= k < s.skip(1).len()
            && (#[trigger] s.skip(1)[k]).spec_day() == day;
        assert(s[k + 1] == s.skip(1)[k]);
    }
}

} // verus!\n