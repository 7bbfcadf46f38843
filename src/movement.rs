use vstd::prelude::*;
use crate::enemies::{half_extent, in_tiles, splat, Enemies, EnemiesView};
use crate::grid::{copies, not_enemy, not_player, repeated, times_listed, WorldGrid};
use crate::types::{
    cell_in_bounds, cell_of, clamp, speed_in_limit, vec_in_limit, ChunkPos, ChunkVec3, EnemyHandle,
    EnemyType, EntityType, Vec3, CHUNK_SIZE, GRAVITY_PER_TICK, MOVE_SPEED, SPEED_LIMIT,
    TICKS_PER_SECOND, UNIT,
};

verus! {

/// Farthest an enemy's leading border may move to on any axis (14.49 cells).
pub const ENEMY_MAX_XYZ: i64 = 14490;

/// Largest coordinate magnitude that collision tests accept.
pub const WIDE_LIMIT: i64 = 4294967296;

/// Divisor that turns the offset toward the player into a chase speed.
pub const CHASE_DIVISOR: i64 = 5;

/// `-1` for a negative value, `1` otherwise.
pub open spec fn sign(v: int) -> int {
    if v < 0 {
        -1
    } else {
        1
    }
}

/// `a / b` rounded toward zero, for `b > 0`.
pub open spec fn trunc_div(a: int, b: int) -> int {
    if a >= 0 {
        a / b
    } else {
        -((-a) / b)
    }
}

/// Distance covered in one tick at speed `v`.
pub open spec fn tick_disp(v: int) -> int {
    trunc_div(v, TICKS_PER_SECOND as int)
}

/// Two axis-aligned boxes, given by centers and half extents, overlap:
/// on every axis the centers are at most the sum of the half extents apart.
pub open spec fn boxes_overlap(p1: Vec3, h1: Vec3, p2: Vec3, h2: Vec3) -> bool {
    &&& abs_int(p1.x - p2.x) <= h1.x + h2.x
    &&& abs_int(p1.y - p2.y) <= h1.y + h2.y
    &&& abs_int(p1.z - p2.z) <= h1.z + h2.z
}

pub open spec fn abs_int(v: int) -> int {
    if v < 0 {
        -v
    } else {
        v
    }
}

pub open spec fn wide(v: Vec3) -> bool {
    &&& -WIDE_LIMIT <= v.x <= WIDE_LIMIT
    &&& -WIDE_LIMIT <= v.y <= WIDE_LIMIT
    &&& -WIDE_LIMIT <= v.z <= WIDE_LIMIT
}

/// Every component of `v` has magnitude at most `b`.
pub open spec fn near(v: Vec3, b: int) -> bool {
    &&& -b <= v.x <= b
    &&& -b <= v.y <= b
    &&& -b <= v.z <= b
}

pub open spec fn small_half(h: Vec3) -> bool {
    0 <= h.x <= 1048576 && 0 <= h.y <= 1048576 && 0 <= h.z <= 1048576
}

/// Whether tag `tag`, found in the cell of candidate position `pos`, stops
/// the enemy `handle` with half extents `half`: blocks always do; another
/// live enemy does when the two boxes overlap; the player never does.
pub open spec fn enemy_blocked_by(
    tag: EntityType,
    pos: ChunkVec3,
    handle: EnemyHandle,
    half: Vec3,
    ev: EnemiesView,
) -> bool {
    match tag {
        EntityType::Enemy(h) => h != handle && ev.is_live(h.0 as int) && boxes_overlap(
            pos.0,
            half,
            ev.positions[h.0 as int].0,
            splat(half_extent(ev.size[h.0 as int])),
        ),
        EntityType::Player => false,
        _ => true,
    }
}

/// What the cells hold: `has(q, t)` says that cell `q` holds tag `t`.
pub type CellContents = spec_fn(ChunkPos, EntityType) -> bool;

/// The contents of a grid.
pub open spec fn grid_has(grid: WorldGrid) -> CellContents {
    |q: ChunkPos, t: EntityType| grid.at(q).contains(t)
}

/// Nothing in the cell of `pos` stops the enemy.
pub open spec fn enemy_pos_valid(
    pos: ChunkVec3,
    handle: EnemyHandle,
    half: Vec3,
    ev: EnemiesView,
    has: CellContents,
) -> bool {
    forall|t: EntityType| #[trigger] has(cell_of(pos), t) ==> !enemy_blocked_by(t, pos, handle, half, ev)
}

/// The velocity an enemy moves with this tick: gravity is applied to the
/// stored vertical velocity (bounded below), and ground enemies steer toward
/// the player.
pub open spec fn enemy_velocity(player: ChunkVec3, pos: ChunkVec3, vel: Vec3, kind: EnemyType) -> (
    int,
    int,
    int,
) {
    let vy = fallen(vel.y as int);
    if kind == EnemyType::Regular {
        (
            trunc_div(player.0.x - pos.0.x, CHASE_DIVISOR as int),
            vy,
            trunc_div(player.0.z - pos.0.z, CHASE_DIVISOR as int),
        )
    } else {
        (vel.x as int, vy, vel.z as int)
    }
}

/// The position tested for one axis: the box's leading border on that axis
/// after one tick, other axes unchanged.
pub open spec fn with_axis(p: Vec3, axis: int, v: int) -> ChunkVec3 {
    if axis == 0 {
        ChunkVec3(Vec3 { x: v as i64, ..p })
    } else if axis == 1 {
        ChunkVec3(Vec3 { y: v as i64, ..p })
    } else {
        ChunkVec3(Vec3 { z: v as i64, ..p })
    }
}

pub open spec fn axis_of(p: Vec3, axis: int) -> int {
    if axis == 0 {
        p.x as int
    } else if axis == 1 {
        p.y as int
    } else {
        p.z as int
    }
}

/// One axis of an enemy's move: the leading border after one tick must stay
/// below `ENEMY_MAX_XYZ` and be valid; then the center moves by the tick's
/// distance, else it stays.
pub open spec fn enemy_axis_step(
    p: Vec3,
    axis: int,
    v: int,
    half: int,
    handle: EnemyHandle,
    ev: EnemiesView,
    has: CellContents,
) -> Vec3 {
    if enemy_axis_moves(p, axis, v, half, handle, ev, has) {
        with_axis(p, axis, axis_of(p, axis) + tick_disp(v)).0
    } else {
        p
    }
}

/// The enemy may move on this axis: its leading border after one tick
/// stays below `ENEMY_MAX_XYZ`, and nothing in that border's cell stops it.
pub open spec fn enemy_axis_moves(
    p: Vec3,
    axis: int,
    v: int,
    half: int,
    handle: EnemyHandle,
    ev: EnemiesView,
    has: CellContents,
) -> bool {
    let border = axis_of(p, axis) + half * sign(v) + tick_disp(v);
    let cand = with_axis(p, axis, border);
    border < ENEMY_MAX_XYZ && enemy_pos_valid(cand, handle, splat(half), ev, has)
}

/// An axis step touches only its own axis, and when anything in the cell of
/// the candidate position stops the enemy, it does not move on that axis
/// and counts as blocked there, so `enemy_step_vel` zeroes that axis's
/// speed alone: a block on one axis never stops the other two.
pub proof fn lemma_blocked_axis_only(
    p: Vec3,
    axis: int,
    v: int,
    half: int,
    handle: EnemyHandle,
    ev: EnemiesView,
    has: CellContents,
    t: EntityType,
)
    requires
        0 <= axis < 3,
    ensures
        forall|a: int|
            0 <= a < 3 && a != axis ==> #[trigger] axis_of(
                enemy_axis_step(p, axis, v, half, handle, ev, has),
                a,
            ) == axis_of(p, a),
        ({
            let cand = with_axis(p, axis, axis_of(p, axis) + half * sign(v) + tick_disp(v));
            has(cell_of(cand), t) && enemy_blocked_by(t, cand, handle, splat(half), ev)
                ==> enemy_axis_step(p, axis, v, half, handle, ev, has) == p
                && !enemy_axis_moves(p, axis, v, half, handle, ev, has)
        }),
{
}

/// Keep an enemy inside the world: one cell from the side walls, and
/// between the floor and one cell below the top.
pub open spec fn enemy_clamp(p: Vec3) -> Vec3 {
    Vec3 {
        x: clamp(p.x as int, UNIT as int, 15000) as i64,
        y: clamp(p.y as int, 0, 15000) as i64,
        z: clamp(p.z as int, UNIT as int, 15000) as i64,
    }
}

/// Where enemy `i` ends this tick: Y, then X, then Z, each resolved on its
/// own, then clamped into the world.
pub open spec fn enemy_step(player: ChunkVec3, ev: EnemiesView, i: int, has: CellContents) -> ChunkVec3 {
    let pos = ev.positions[i];
    let (vx, vy, vz) = enemy_velocity(player, pos, ev.velocities[i], ev.e_type[i]);
    let half = half_extent(ev.size[i]);
    let h = EnemyHandle(i as u16);
    let p1 = enemy_axis_step(pos.0, 1, vy, half, h, ev, has);
    let p2 = enemy_axis_step(p1, 0, vx, half, h, ev, has);
    let p3 = enemy_axis_step(p2, 2, vz, half, h, ev, has);
    ChunkVec3(enemy_clamp(p3))
}

/// The velocity enemy `i` keeps after this tick: the tick's velocity on
/// every axis it moved along, and zero on every axis that was blocked.
pub open spec fn enemy_step_vel(player: ChunkVec3, ev: EnemiesView, i: int, has: CellContents) -> Vec3 {
    let pos = ev.positions[i];
    let (vx, vy, vz) = enemy_velocity(player, pos, ev.velocities[i], ev.e_type[i]);
    let half = half_extent(ev.size[i]);
    let h = EnemyHandle(i as u16);
    let p1 = enemy_axis_step(pos.0, 1, vy, half, h, ev, has);
    let p2 = enemy_axis_step(p1, 0, vx, half, h, ev, has);
    Vec3 {
        x: (if enemy_axis_moves(p1, 0, vx, half, h, ev, has) { vx } else { 0 }) as i64,
        y: (if enemy_axis_moves(pos.0, 1, vy, half, h, ev, has) { vy } else { 0 }) as i64,
        z: (if enemy_axis_moves(p2, 2, vz, half, h, ev, has) { vz } else { 0 }) as i64,
    }
}

/// Whether tag `tag`, in the cell of the player's candidate position,
/// stops the player: blocks always do; an enemy does when its box overlaps
/// the player's; player tags never do.
pub open spec fn player_blocked_by(tag: EntityType, pos: ChunkVec3, half: Vec3, ev: EnemiesView) -> bool {
    match tag {
        EntityType::Enemy(h) => (h.0 as int) < ev.len() && boxes_overlap(
            pos.0,
            half,
            ev.positions[h.0 as int].0,
            splat(half_extent(ev.size[h.0 as int])),
        ),
        EntityType::Player => false,
        _ => true,
    }
}

/// Nothing in the cell of `pos` stops the player.
pub open spec fn player_pos_valid(pos: ChunkVec3, half: Vec3, ev: EnemiesView, grid: WorldGrid) -> bool {
    forall|k: int|
        0 <= k < grid.at(cell_of(pos)).len() ==> !player_blocked_by(
            #[trigger] grid.at(cell_of(pos))[k],
            pos,
            half,
            ev,
        )
}

/// Half the player's box on every axis (half a cell).
pub open spec fn player_half() -> Vec3 {
    Vec3 { x: 500, y: 500, z: 500 }
}

/// The player at `pos` collides: it is below zero on an axis, its cell is
/// on the last layer of an axis, or something in its cell stops it.
pub open spec fn player_collides(pos: ChunkVec3, ev: EnemiesView, grid: WorldGrid) -> bool {
    if pos.0.x < 0 || pos.0.y < 0 || pos.0.z < 0 {
        true
    } else {
        let c = cell_of(pos);
        if c.x >= CHUNK_SIZE - 1 || c.y >= CHUNK_SIZE - 1 || c.z >= CHUNK_SIZE - 1 {
            true
        } else {
            !player_pos_valid(pos, player_half(), ev, grid)
        }
    }
}

/// Distance the player covers in one tick at stored speed `v`.
pub open spec fn player_disp(v: int) -> int {
    trunc_div(v * MOVE_SPEED, TICKS_PER_SECOND as int)
}

/// The player's vertical speed after one tick of gravity, bounded below.
pub open spec fn fallen(vy: int) -> int {
    if vy - GRAVITY_PER_TICK < -SPEED_LIMIT {
        -SPEED_LIMIT as int
    } else {
        vy - GRAVITY_PER_TICK
    }
}

/// One tick of player movement: gravity, then Y (tested one cell below the
/// new position), X and Z, each blocked on its own, where a blocked axis
/// loses its speed and keeps its old coordinate; the result is clamped one
/// cell inside the world.
pub open spec fn player_step(pos: ChunkVec3, vel: Vec3, ev: EnemiesView, grid: WorldGrid) -> (ChunkVec3, Vec3) {
    let p = pos.0;
    let vy = fallen(vel.y as int);
    let y1 = p.y + player_disp(vy);
    let below = ChunkVec3(Vec3 { x: p.x, y: (y1 - UNIT) as i64, z: p.z });
    let block_y = player_collides(below, ev, grid);
    let y = if block_y { p.y as int } else { y1 };
    let vy2 = if block_y { 0 } else { vy };
    let x1 = p.x + player_disp(vel.x as int);
    let block_x = player_collides(ChunkVec3(Vec3 { x: x1 as i64, y: y as i64, z: p.z }), ev, grid);
    let x = if block_x { p.x as int } else { x1 };
    let vx2 = if block_x { 0 } else { vel.x as int };
    let z1 = p.z + player_disp(vel.z as int);
    let block_z = player_collides(ChunkVec3(Vec3 { x: x as i64, y: y as i64, z: z1 as i64 }), ev, grid);
    let z = if block_z { p.z as int } else { z1 };
    let vz2 = if block_z { 0 } else { vel.z as int };
    (
        ChunkVec3(Vec3 {
            x: clamp(x, UNIT as int, 15000) as i64,
            y: clamp(y, UNIT as int, 15000) as i64,
            z: clamp(z, UNIT as int, 15000) as i64,
        }),
        Vec3 { x: vx2 as i64, y: vy2 as i64, z: vz2 as i64 },
    )
}

/// Two contents descriptions agree on every in-bounds cell.
pub open spec fn same_contents(has1: CellContents, has2: CellContents) -> bool {
    forall|q: ChunkPos, t: EntityType|
        #![trigger has1(q, t)]
        #![trigger has2(q, t)]
        cell_in_bounds(q) ==> has1(q, t) == has2(q, t)
}

/// The pool as enemy `i` sees it during a pass: the enemies before it at
/// their new positions (taken from `after`), the others where they started.
pub open spec fn pool_at_turn(before: EnemiesView, after: EnemiesView, i: int) -> EnemiesView {
    EnemiesView {
        positions: Seq::new(
            before.positions.len(),
            |k: int|
                if k < i {
                    after.positions[k]
                } else {
                    before.positions[k]
                },
        ),
        velocities: Seq::new(
            before.velocities.len(),
            |k: int|
                if k < i {
                    after.velocities[k]
                } else {
                    before.velocities[k]
                },
        ),
        ..before
    }
}

/// The grid as enemy `i` sees it during a pass: the starting grid without
/// its enemy tags, plus the tags of the live enemies before `i` at their
/// new positions (taken from `after`).
pub open spec fn cells_at_turn(start: WorldGrid, after: EnemiesView, i: int) -> CellContents {
    |q: ChunkPos, t: EntityType|
        match t {
            EntityType::Enemy(h) => (h.0 as int) < i && tags_cell(after, h, q),
            _ => start.at(q).contains(t),
        }
}

pub proof fn lemma_cell_of_in_bounds(p: ChunkVec3)
    ensures
        cell_in_bounds(cell_of(p)),
{
}

proof fn lemma_valid_same_contents(
    pos: ChunkVec3,
    handle: EnemyHandle,
    half: Vec3,
    ev: EnemiesView,
    has1: CellContents,
    has2: CellContents,
)
    requires
        same_contents(has1, has2),
    ensures
        enemy_pos_valid(pos, handle, half, ev, has1) == enemy_pos_valid(pos, handle, half, ev, has2),
{
    lemma_cell_of_in_bounds(pos);
    let c = cell_of(pos);
    assert forall|t: EntityType| #[trigger] has1(c, t) == has2(c, t) by {}
}

proof fn lemma_axis_same_contents(
    p: Vec3,
    axis: int,
    v: int,
    half: int,
    handle: EnemyHandle,
    ev: EnemiesView,
    has1: CellContents,
    has2: CellContents,
)
    requires
        same_contents(has1, has2),
    ensures
        enemy_axis_step(p, axis, v, half, handle, ev, has1) == enemy_axis_step(
            p,
            axis,
            v,
            half,
            handle,
            ev,
            has2,
        ),
        enemy_axis_moves(p, axis, v, half, handle, ev, has1) == enemy_axis_moves(
            p,
            axis,
            v,
            half,
            handle,
            ev,
            has2,
        ),
{
    let cand = with_axis(p, axis, axis_of(p, axis) + half * sign(v) + tick_disp(v));
    lemma_valid_same_contents(cand, handle, splat(half), ev, has1, has2);
}

/// An enemy's step depends on the cells only through what they hold.
pub proof fn lemma_step_same_contents(
    player: ChunkVec3,
    ev: EnemiesView,
    i: int,
    has1: CellContents,
    has2: CellContents,
)
    requires
        same_contents(has1, has2),
    ensures
        enemy_step(player, ev, i, has1) == enemy_step(player, ev, i, has2),
        enemy_step_vel(player, ev, i, has1) == enemy_step_vel(player, ev, i, has2),
{
    let pos = ev.positions[i];
    let (vx, vy, vz) = enemy_velocity(player, pos, ev.velocities[i], ev.e_type[i]);
    let half = half_extent(ev.size[i]);
    let h = EnemyHandle(i as u16);
    lemma_axis_same_contents(pos.0, 1, vy, half, h, ev, has1, has2);
    let p1 = enemy_axis_step(pos.0, 1, vy, half, h, ev, has1);
    lemma_axis_same_contents(p1, 0, vx, half, h, ev, has1, has2);
    let p2 = enemy_axis_step(p1, 0, vx, half, h, ev, has1);
    lemma_axis_same_contents(p2, 2, vz, half, h, ev, has1, has2);
}

/// A position inside the box that enemies are clamped into.
pub open spec fn in_world(p: ChunkVec3) -> bool {
    &&& UNIT <= p.0.x <= 15000
    &&& 0 <= p.0.y <= 15000
    &&& UNIT <= p.0.z <= 15000
}

/// Cell `q` carries the tag of enemy `h`: the enemy is live and its hitbox
/// covers `q`.
pub open spec fn tags_cell(ev: EnemiesView, h: EnemyHandle, q: ChunkPos) -> bool {
    ev.is_live(h.0 as int) && in_tiles(
        ev.positions[h.0 as int],
        splat(half_extent(ev.size[h.0 as int])),
        q,
    )
}

fn sign_i64(v: i64) -> (r: i64)
    ensures
        r == sign(v as int),
{
    if v < 0 {
        -1
    } else {
        1
    }
}

fn trunc_div_i64(a: i64, b: i64) -> (r: i64)
    requires
        b > 0,
        a > i64::MIN,
    ensures
        r == trunc_div(a as int, b as int),
        abs_int(r as int) <= abs_int(a as int),
{
    if a >= 0 {
        a / b
    } else {
        -((-a) / b)
    }
}

fn clamp_i64(v: i64, lo: i64, hi: i64) -> (r: i64)
    requires
        lo <= hi,
    ensures
        r == clamp(v as int, lo as int, hi as int),
{
    if v < lo {
        lo
    } else if v > hi {
        hi
    } else {
        v
    }
}

fn abs_diff(a: i64, b: i64) -> (r: i64)
    requires
        -WIDE_LIMIT <= a <= WIDE_LIMIT,
        -WIDE_LIMIT <= b <= WIDE_LIMIT,
    ensures
        r == abs_int(a - b),
{
    if a < b {
        b - a
    } else {
        a - b
    }
}

/// Unit type that groups the movement and collision rules.
pub struct MovementSystem;

impl MovementSystem {
    /// Whether two boxes, given by centers and half extents, overlap.
    pub fn intersect_hitbox(p1: &Vec3, half_hb1: &Vec3, p2: &Vec3, half_hb2: &Vec3) -> (r: bool)
        requires
            wide(*p1),
            wide(*p2),
            small_half(*half_hb1),
            small_half(*half_hb2),
        ensures
            r == boxes_overlap(*p1, *half_hb1, *p2, *half_hb2),
    {
        let x_overlap = abs_diff(p1.x, p2.x) <= half_hb1.x + half_hb2.x;
        let y_overlap = abs_diff(p1.y, p2.y) <= half_hb1.y + half_hb2.y;
        let z_overlap = abs_diff(p1.z, p2.z) <= half_hb1.z + half_hb2.z;
        x_overlap && y_overlap && z_overlap
    }

    /// Whether enemy `handle` may stand at `pos`: nothing in that position's
    /// cell stops it.
    pub fn enemy_check_if_chunk_is_valid_pos(
        pos: ChunkVec3,
        handle: EnemyHandle,
        half_hb1: &Vec3,
        enemies: &Enemies,
        chunk: &WorldGrid,
    ) -> (r: bool)
        requires
            enemies@.wf(),
            chunk.wf(),
            wide(pos.0),
            small_half(*half_hb1),
        ensures
            r == enemy_pos_valid(pos, handle, *half_hb1, enemies@, grid_has(*chunk)),
    {
        let chunk_pos = pos.to_chunk();
        let entities = chunk.cell(chunk_pos);
        let mut k: usize = 0;
        while k < entities.len()
            invariant
                enemies@.wf(),
                chunk_pos == cell_of(pos),
                entities@ == chunk.at(cell_of(pos)),
                wide(pos.0),
                small_half(*half_hb1),
                k <= entities.len(),
                forall|j: int|
                    0 <= j < k ==> !enemy_blocked_by(
                        #[trigger] entities@[j],
                        pos,
                        handle,
                        *half_hb1,
                        enemies@,
                    ),
            decreases entities.len() - k,
        {
            let e = entities[k];
            proof {
                assert(entities@[k as int] == e);
                assert(entities@.contains(e));
                assert(grid_has(*chunk)(cell_of(pos), e));
            }
            match e {
                EntityType::Enemy(h_other) => {
                    let idx = h_other.0 as usize;
                    if h_other != handle && idx < enemies.e_type.len()
                        && enemies.e_type[idx] != EnemyType::Empty {
                        let half_hb2 = Enemies::get_vec3_size(enemies.size[idx]);
                        let pos2 = enemies.positions[idx];
                        if Self::intersect_hitbox(&pos.0, half_hb1, &pos2.0, &half_hb2) {
                            return false;
                        }
                    }
                },
                EntityType::Player => {},
                EntityType::SolidBlock | EntityType::InteractableBlock(_) => {
                    return false;
                },
            }
            k = k + 1;
        }
        proof {
            assert forall|t: EntityType| #[trigger] grid_has(*chunk)(cell_of(pos), t) implies !enemy_blocked_by(
                t,
                pos,
                handle,
                *half_hb1,
                enemies@,
            ) by {
                let j = choose|j: int| 0 <= j < entities@.len() && entities@[j] == t;
                assert(!enemy_blocked_by(entities@[j], pos, handle, *half_hb1, enemies@));
            }
        }
        true
    }

    /// Add tag `enemy_type` to every cell of `occupied_tiles`.
    pub(crate) fn update_enemy_world_position(
        occupied_tiles: &Vec<ChunkPos>,
        chunk: &mut WorldGrid,
        enemy_type: EntityType,
    )
        requires
            old(chunk).wf(),
            enemy_type is Enemy,
            forall|k: int| 0 <= k < occupied_tiles.len() ==> cell_in_bounds(#[trigger] occupied_tiles@[k]),
        ensures
            final(chunk).wf(),
            forall|q: ChunkPos|
                cell_in_bounds(q) ==> (#[trigger] final(chunk).at(q)).filter(not_enemy()) == old(
                    chunk,
                ).at(q).filter(not_enemy()),
            forall|q: ChunkPos, e: EntityType|
                cell_in_bounds(q) ==> (#[trigger] final(chunk).at(q).contains(e) <==> (old(
                    chunk,
                ).at(q).contains(e) || (e == enemy_type && occupied_tiles@.contains(q)))),
            forall|q: ChunkPos|
                cell_in_bounds(q) ==> #[trigger] final(chunk).at(q) == old(chunk).at(q) + repeated(
                    times_listed(occupied_tiles@, q),
                    enemy_type,
                ),
    {
        proof {
            assert forall|q: ChunkPos| cell_in_bounds(q) implies #[trigger] chunk.at(q) == old(chunk).at(q)
                + repeated(times_listed(occupied_tiles@.subrange(0, 0), q), enemy_type) by {
                assert(chunk.at(q) + repeated(0, enemy_type) =~= chunk.at(q));
            }
        }
        let mut k: usize = 0;
        while k < occupied_tiles.len()
            invariant
                chunk.wf(),
                enemy_type is Enemy,
                k <= occupied_tiles.len(),
                forall|j: int| 0 <= j < occupied_tiles.len() ==> cell_in_bounds(#[trigger] occupied_tiles@[j]),
                forall|q: ChunkPos|
                    cell_in_bounds(q) ==> (#[trigger] chunk.at(q)).filter(not_enemy()) == old(
                        chunk,
                    ).at(q).filter(not_enemy()),
                forall|q: ChunkPos, e: EntityType|
                    cell_in_bounds(q) ==> (#[trigger] chunk.at(q).contains(e) <==> (old(
                        chunk,
                    ).at(q).contains(e) || (e == enemy_type && occupied_tiles@.subrange(0, k as int).contains(q)))),
                forall|q: ChunkPos|
                    cell_in_bounds(q) ==> #[trigger] chunk.at(q) == old(chunk).at(q) + repeated(
                        times_listed(occupied_tiles@.subrange(0, k as int), q),
                        enemy_type,
                    ),
            decreases occupied_tiles.len() - k,
        {
            let tile = occupied_tiles[k];
            let ghost before = *chunk;
            chunk.occupy(tile, enemy_type);
            proof {
                before.at(tile).lemma_filter_push(enemy_type, not_enemy());
                let pre = occupied_tiles@.subrange(0, k as int);
                let post = occupied_tiles@.subrange(0, k as int + 1);
                assert(post =~= pre.push(tile));
                assert forall|q: ChunkPos| #[trigger] post.contains(q) <==> (pre.contains(q) || q == tile) by {
                    if q == tile {
                        assert(post[k as int] == tile);
                    }
                    if pre.contains(q) {
                        let j = choose|j: int| 0 <= j < pre.len() && pre[j] == q;
                        assert(post[j] == q);
                    }
                    if post.contains(q) && q != tile {
                        let j = choose|j: int| 0 <= j < post.len() && post[j] == q;
                        assert(pre[j] == q);
                    }
                }
                assert forall|q: ChunkPos, e: EntityType| cell_in_bounds(q) implies (#[trigger] chunk.at(q).contains(e) <==> (old(
                    chunk,
                ).at(q).contains(e) || (e == enemy_type && post.contains(q)))) by {
                    if q == tile {
                        let s = before.at(tile);
                        if s.push(enemy_type).contains(e) && e != enemy_type {
                            let j = choose|j: int| 0 <= j < s.len() + 1 && s.push(enemy_type)[j] == e;
                            assert(s[j] == e);
                        }
                        if s.contains(e) {
                            let j = choose|j: int| 0 <= j < s.len() && s[j] == e;
                            assert(s.push(enemy_type)[j] == e);
                        }
                        assert(s.push(enemy_type)[s.len() as int] == enemy_type);
                    }
                }
                assert forall|q: ChunkPos| cell_in_bounds(q) implies #[trigger] chunk.at(q) == old(chunk).at(q)
                    + repeated(times_listed(post, q), enemy_type) by {
                    assert(post.drop_last() =~= pre);
                    if q == tile {
                        assert(old(chunk).at(q) + repeated(times_listed(post, q), enemy_type) =~= (old(
                            chunk,
                        ).at(q) + repeated(times_listed(pre, q), enemy_type)).push(enemy_type));
                    } else {
                        assert(chunk.at(q) == before.at(q));
                    }
                }
            }
            k = k + 1;
        }
        proof {
            assert(occupied_tiles@.subrange(0, occupied_tiles.len() as int) =~= occupied_tiles@);
        }
    }

    /// Move every live enemy by one tick, in handle order, and rebuild the
    /// grid's enemy tags: all enemy tags are cleared first, then each enemy,
    /// once moved, tags every cell its hitbox covers. Each enemy collides
    /// against the enemies moved before it, at their new positions.
    pub fn update_enemies(player_pos: &ChunkVec3, enemies: &mut Enemies, chunk: &mut WorldGrid)
        requires
            old(enemies)@.wf(),
            old(chunk).wf(),
            vec_in_limit(player_pos.0),
        ensures
            final(enemies)@.wf(),
            final(chunk).wf(),
            final(enemies)@.e_type == old(enemies)@.e_type,
            final(enemies)@.size == old(enemies)@.size,
            final(enemies)@.healths == old(enemies)@.healths,
            forall|i: int|
                0 <= i < old(enemies)@.len() && !old(enemies)@.is_live(i)
                    ==> final(enemies)@.positions[i] == old(enemies)@.positions[i]
                    && final(enemies)@.velocities[i] == old(enemies)@.velocities[i],
            forall|i: int|
                old(enemies)@.is_live(i) ==> in_world(#[trigger] final(enemies)@.positions[i]),
            forall|i: int|
                old(enemies)@.is_live(i) ==> #[trigger] final(enemies)@.positions[i] == enemy_step(
                    *player_pos,
                    pool_at_turn(old(enemies)@, final(enemies)@, i),
                    i,
                    cells_at_turn(*old(chunk), final(enemies)@, i),
                ),
            forall|i: int|
                old(enemies)@.is_live(i) ==> #[trigger] final(enemies)@.velocities[i] == enemy_step_vel(
                    *player_pos,
                    pool_at_turn(old(enemies)@, final(enemies)@, i),
                    i,
                    cells_at_turn(*old(chunk), final(enemies)@, i),
                ),
            forall|q: ChunkPos|
                cell_in_bounds(q) ==> (#[trigger] final(chunk).at(q)).filter(not_enemy()) == old(
                    chunk,
                ).at(q).filter(not_enemy()),
            forall|q: ChunkPos, h: EnemyHandle|
                cell_in_bounds(q) ==> (#[trigger] final(chunk).at(q).contains(EntityType::Enemy(h))
                    <==> tags_cell(final(enemies)@, h, q)),
            forall|q: ChunkPos, h: EnemyHandle|
                cell_in_bounds(q) ==> #[trigger] copies(final(chunk).at(q), EntityType::Enemy(h)) == if tags_cell(
                    final(enemies)@,
                    h,
                    q,
                ) {
                    1nat
                } else {
                    0nat
                },
    {
        let ghost start_grid = *chunk;
        let ghost start = enemies@;
        chunk.clear_enemies();
        proof {
            assert forall|q: ChunkPos| cell_in_bounds(q) implies (#[trigger] chunk.at(q)).filter(
                not_enemy(),
            ) == start_grid.at(q).filter(not_enemy()) by {
                crate::grid::lemma_filter_twice(start_grid.at(q), not_enemy());
            }
            assert forall|q: ChunkPos, h: EnemyHandle| cell_in_bounds(q) implies !#[trigger] chunk.at(
                q,
            ).contains(EntityType::Enemy(h)) by {
                crate::grid::lemma_filter_excludes(start_grid.at(q), not_enemy(), EntityType::Enemy(h));
            }
            assert forall|q: ChunkPos, h: EnemyHandle| cell_in_bounds(q) implies #[trigger] copies(
                chunk.at(q),
                EntityType::Enemy(h),
            ) == 0 by {
                crate::grid::lemma_copies_absent(chunk.at(q), EntityType::Enemy(h));
            }
            assert forall|q: ChunkPos, t: EntityType| cell_in_bounds(q) && !(t is Enemy) implies (
            #[trigger] chunk.at(q).contains(t) <==> start_grid.at(q).contains(t)) by {
                crate::grid::lemma_filter_keeps(start_grid.at(q), not_enemy(), t);
            }
        }
        let n = enemies.e_type.len();
        let mut i: usize = 0;
        while i < n
            invariant
                chunk.wf(),
                enemies@.wf(),
                start.wf(),
                vec_in_limit(player_pos.0),
                n == enemies@.len(),
                i <= n,
                enemies@.e_type == start.e_type,
                enemies@.size == start.size,
                enemies@.healths == start.healths,
                forall|j: int| i <= j < n ==> #[trigger] enemies@.positions[j] == start.positions[j],
                forall|j: int| i <= j < n ==> #[trigger] enemies@.velocities[j] == start.velocities[j],
                forall|j: int|
                    0 <= j < n && !start.is_live(j) ==> #[trigger] enemies@.positions[j] == start.positions[j],
                forall|j: int|
                    0 <= j < n && !start.is_live(j) ==> #[trigger] enemies@.velocities[j] == start.velocities[j],
                forall|j: int|
                    0 <= j < i && start.is_live(j) ==> #[trigger] enemies@.velocities[j] == enemy_step_vel(
                        *player_pos,
                        pool_at_turn(start, enemies@, j),
                        j,
                        cells_at_turn(start_grid, enemies@, j),
                    ),
                forall|j: int| 0 <= j < i && start.is_live(j) ==> in_world(#[trigger] enemies@.positions[j]),
                forall|q: ChunkPos|
                    cell_in_bounds(q) ==> (#[trigger] chunk.at(q)).filter(not_enemy())
                        == start_grid.at(q).filter(not_enemy()),
                forall|q: ChunkPos, h: EnemyHandle|
                    cell_in_bounds(q) ==> (#[trigger] chunk.at(q).contains(EntityType::Enemy(h))
                        <==> (h.0 < i && tags_cell(enemies@, h, q))),
                forall|q: ChunkPos, h: EnemyHandle|
                    cell_in_bounds(q) ==> #[trigger] copies(chunk.at(q), EntityType::Enemy(h)) == if h.0 < i
                        && tags_cell(enemies@, h, q) {
                        1nat
                    } else {
                        0nat
                    },
                forall|q: ChunkPos, t: EntityType|
                    cell_in_bounds(q) && !(t is Enemy) ==> (#[trigger] chunk.at(q).contains(t)
                        <==> start_grid.at(q).contains(t)),
                forall|j: int|
                    0 <= j < i && start.is_live(j) ==> #[trigger] enemies@.positions[j] == enemy_step(
                        *player_pos,
                        pool_at_turn(start, enemies@, j),
                        j,
                        cells_at_turn(start_grid, enemies@, j),
                    ),
            decreases n - i,
        {
            if enemies.e_type[i] != EnemyType::Empty {
                let half = Enemies::get_vec3_size(enemies.size[i]);
                let (new_pos, new_vel) = Self::enemy_next_position(player_pos, enemies, i, chunk);
                let ghost before = enemies@;
                proof {
                    assert(before.positions =~= pool_at_turn(start, before, i as int).positions);
                    assert(before.velocities =~= pool_at_turn(start, before, i as int).velocities);
                    assert(before == pool_at_turn(start, before, i as int));
                    assert forall|q: ChunkPos, t: EntityType|
                        #![trigger grid_has(*chunk)(q, t)]
                        #![trigger cells_at_turn(start_grid, before, i as int)(q, t)]
                        cell_in_bounds(q) implies grid_has(*chunk)(q, t) == cells_at_turn(
                        start_grid,
                        before,
                        i as int,
                    )(q, t) by {
                        match t {
                            EntityType::Enemy(h) => {
                                assert(chunk.at(q).contains(EntityType::Enemy(h)) <==> (h.0 < i
                                    && tags_cell(before, h, q)));
                            },
                            _ => {
                                assert(chunk.at(q).contains(t) <==> start_grid.at(q).contains(t));
                            },
                        }
                    }
                    lemma_step_same_contents(
                        *player_pos,
                        before,
                        i as int,
                        grid_has(*chunk),
                        cells_at_turn(start_grid, before, i as int),
                    );
                }
                enemies.positions.set(i, new_pos);
                enemies.velocities.set(i, new_vel);
                proof {
                    assert(enemies@.positions == before.positions.update(i as int, new_pos));
                    assert(enemies@.velocities == before.velocities.update(i as int, new_vel));
                    assert forall|j: int| 0 <= j < enemies@.len() implies vec_in_limit(
                        #[trigger] enemies@.positions[j].0,
                    ) by {
                        if j != i {
                            assert(enemies@.positions[j] == before.positions[j]);
                        }
                    }
                    assert forall|j: int| 0 <= j < enemies@.len() implies speed_in_limit(
                        #[trigger] enemies@.velocities[j],
                    ) by {
                        if j != i {
                            assert(enemies@.velocities[j] == before.velocities[j]);
                        }
                    }
                }
                let tiles = Enemies::get_occupied_tiles(&new_pos, &half);
                proof {
                    assert forall|k: int| 0 <= k < tiles.len() implies cell_in_bounds(
                        #[trigger] tiles@[k],
                    ) by {
                        assert(tiles@.contains(tiles@[k]));
                    }
                }
                let ghost mid = *chunk;
                Self::update_enemy_world_position(&tiles, chunk, EntityType::Enemy(EnemyHandle(i as u16)));
                proof {
                    assert forall|q: ChunkPos, h: EnemyHandle| cell_in_bounds(q) implies (
                    #[trigger] chunk.at(q).contains(EntityType::Enemy(h)) <==> (h.0 < i + 1
                        && tags_cell(enemies@, h, q))) by {
                        if h.0 as int != i as int && (h.0 as int) < n as int {
                            assert(enemies@.positions[h.0 as int] == before.positions[h.0 as int]);
                        }
                        if h.0 as int == i as int {
                            assert(EnemyHandle(i as u16) == h);
                            assert(enemies@.positions[i as int] == new_pos);
                        }
                    }
                    assert forall|q: ChunkPos, h: EnemyHandle| cell_in_bounds(q) implies #[trigger] copies(
                        chunk.at(q),
                        EntityType::Enemy(h),
                    ) == if h.0 < i + 1 && tags_cell(enemies@, h, q) {
                        1nat
                    } else {
                        0nat
                    } by {
                        let tag = EntityType::Enemy(EnemyHandle(i as u16));
                        crate::grid::lemma_listed_once(tiles@, q);
                        crate::grid::lemma_copies_concat(mid.at(q), repeated(times_listed(tiles@, q), tag), EntityType::Enemy(h));
                        crate::grid::lemma_copies_repeated(times_listed(tiles@, q), tag, EntityType::Enemy(h));
                        if h.0 as int != i as int && (h.0 as int) < n as int {
                            assert(enemies@.positions[h.0 as int] == before.positions[h.0 as int]);
                        }
                        if h.0 as int == i as int {
                            assert(EnemyHandle(i as u16) == h);
                        } else {
                            assert(tag != EntityType::Enemy(h));
                        }
                    }
                    assert forall|j: int|
                        0 <= j < i + 1 && start.is_live(j) implies #[trigger] enemies@.positions[j]
                        == enemy_step(
                        *player_pos,
                        pool_at_turn(start, enemies@, j),
                        j,
                        cells_at_turn(start_grid, enemies@, j),
                    ) && enemies@.velocities[j] == enemy_step_vel(
                        *player_pos,
                        pool_at_turn(start, enemies@, j),
                        j,
                        cells_at_turn(start_grid, enemies@, j),
                    ) by {
                        assert(pool_at_turn(start, enemies@, j).positions =~= pool_at_turn(
                            start,
                            before,
                            j,
                        ).positions);
                        assert(pool_at_turn(start, enemies@, j).velocities =~= pool_at_turn(
                            start,
                            before,
                            j,
                        ).velocities);
                        assert(pool_at_turn(start, enemies@, j) == pool_at_turn(start, before, j));
                        assert forall|q: ChunkPos, t: EntityType|
                            #![trigger cells_at_turn(start_grid, enemies@, j)(q, t)]
                            #![trigger cells_at_turn(start_grid, before, j)(q, t)]
                            cell_in_bounds(q) implies cells_at_turn(start_grid, enemies@, j)(q, t)
                            == cells_at_turn(start_grid, before, j)(q, t) by {
                            match t {
                                EntityType::Enemy(h) => {
                                    if (h.0 as int) < j {
                                        assert(enemies@.positions[h.0 as int] == before.positions[h.0 as int]);
                                    }
                                },
                                _ => {},
                            }
                        }
                        lemma_step_same_contents(
                            *player_pos,
                            pool_at_turn(start, before, j),
                            j,
                            cells_at_turn(start_grid, enemies@, j),
                            cells_at_turn(start_grid, before, j),
                        );
                        if j < i {
                            assert(enemies@.positions[j] == before.positions[j]);
                            assert(enemies@.velocities[j] == before.velocities[j]);
                        }
                    }
                    assert forall|j: int|
                        0 <= j < i + 1 && start.is_live(j) implies #[trigger] enemies@.velocities[j]
                        == enemy_step_vel(
                        *player_pos,
                        pool_at_turn(start, enemies@, j),
                        j,
                        cells_at_turn(start_grid, enemies@, j),
                    ) by {
                        let _ = enemies@.positions[j];
                    }
                }
            }
            i = i + 1;
        }
    }

    /// One axis of an enemy's move, as `enemy_axis_step` states it.
    fn enemy_axis_move(
        p: Vec3,
        axis: u8,
        v: i64,
        half: i64,
        handle: EnemyHandle,
        enemies: &Enemies,
        chunk: &WorldGrid,
    ) -> (r: (Vec3, bool))
        requires
            axis < 3,
            enemies@.wf(),
            chunk.wf(),
            near(p, 1342177280),
            -2147483648 <= v <= 2147483648,
            0 <= half <= 1250,
        ensures
            r.0 == enemy_axis_step(
                p,
                axis as int,
                v as int,
                half as int,
                handle,
                enemies@,
                grid_has(*chunk),
            ),
            r.1 == enemy_axis_moves(
                p,
                axis as int,
                v as int,
                half as int,
                handle,
                enemies@,
                grid_has(*chunk),
            ),
            abs_int(r.0.x - p.x) <= 67108864,
            abs_int(r.0.y - p.y) <= 67108864,
            abs_int(r.0.z - p.z) <= 67108864,
    {
        let d = trunc_div_i64(v, TICKS_PER_SECOND);
        let s = sign_i64(v);
        let cur = if axis == 0 {
            p.x
        } else if axis == 1 {
            p.y
        } else {
            p.z
        };
        let hs = if s < 0 {
            -half
        } else {
            half
        };
        assert(hs == half * s) by (nonlinear_arith)
            requires
                s == 1 || s == -1,
                s < 0 ==> hs == -half,
                s >= 0 ==> hs == half,
        ;
        let border = cur + hs + d;
        let cand = if axis == 0 {
            ChunkVec3(Vec3 { x: border, ..p })
        } else if axis == 1 {
            ChunkVec3(Vec3 { y: border, ..p })
        } else {
            ChunkVec3(Vec3 { z: border, ..p })
        };
        let half3 = Vec3 { x: half, y: half, z: half };
        if border < ENEMY_MAX_XYZ && Self::enemy_check_if_chunk_is_valid_pos(
            cand,
            handle,
            &half3,
            enemies,
            chunk,
        ) {
            if axis == 0 {
                (Vec3 { x: cur + d, ..p }, true)
            } else if axis == 1 {
                (Vec3 { y: cur + d, ..p }, true)
            } else {
                (Vec3 { z: cur + d, ..p }, true)
            }
        } else {
            (p, false)
        }
    }

    /// Where live enemy `i` ends this tick, and the velocity it keeps,
    /// against the current pool and grid.
    pub fn enemy_next_position(
        player_pos: &ChunkVec3,
        enemies: &Enemies,
        i: usize,
        chunk: &WorldGrid,
    ) -> (r: (ChunkVec3, Vec3))
        requires
            enemies@.wf(),
            chunk.wf(),
            i < enemies@.len(),
            vec_in_limit(player_pos.0),
        ensures
            r.0 == enemy_step(*player_pos, enemies@, i as int, grid_has(*chunk)),
            r.1 == enemy_step_vel(*player_pos, enemies@, i as int, grid_has(*chunk)),
            vec_in_limit(r.0.0),
            in_world(r.0),
            speed_in_limit(r.1),
    {
        let pos = enemies.positions[i];
        let vel = enemies.velocities[i];
        let kind = enemies.e_type[i];
        let half = Enemies::get_vec3_size(enemies.size[i]).x;
        let vy = if vel.y - GRAVITY_PER_TICK < -SPEED_LIMIT {
            -SPEED_LIMIT
        } else {
            vel.y - GRAVITY_PER_TICK
        };
        let (vx, vz) = if kind == EnemyType::Regular {
            (
                trunc_div_i64(player_pos.0.x - pos.0.x, CHASE_DIVISOR),
                trunc_div_i64(player_pos.0.z - pos.0.z, CHASE_DIVISOR),
            )
        } else {
            (vel.x, vel.z)
        };
        let h = EnemyHandle(i as u16);
        let (p1, my) = Self::enemy_axis_move(pos.0, 1, vy, half, h, enemies, chunk);
        let (p2, mx) = Self::enemy_axis_move(p1, 0, vx, half, h, enemies, chunk);
        let (p3, mz) = Self::enemy_axis_move(p2, 2, vz, half, h, enemies, chunk);
        let new_pos = ChunkVec3(
            Vec3 {
                x: clamp_i64(p3.x, UNIT, 15000),
                y: clamp_i64(p3.y, 0, 15000),
                z: clamp_i64(p3.z, UNIT, 15000),
            },
        );
        let new_vel = Vec3 {
            x: if mx {
                vx
            } else {
                0
            },
            y: if my {
                vy
            } else {
                0
            },
            z: if mz {
                vz
            } else {
                0
            },
        };
        (new_pos, new_vel)
    }

    /// Whether the player may stand at `pos`: nothing in that position's
    /// cell stops it.
    fn player_check_if_chunk_is_valid_pos(
        pos: &ChunkVec3,
        half_hb1: &Vec3,
        enemies: &Enemies,
        chunk: &WorldGrid,
    ) -> (r: bool)
        requires
            enemies@.wf(),
            chunk.wf(),
            wide(pos.0),
            small_half(*half_hb1),
        ensures
            r == player_pos_valid(*pos, *half_hb1, enemies@, *chunk),
    {
        let chunk_pos = pos.to_chunk();
        let entities = chunk.cell(chunk_pos);
        let mut k: usize = 0;
        while k < entities.len()
            invariant
                enemies@.wf(),
                entities@ == chunk.at(cell_of(*pos)),
                wide(pos.0),
                small_half(*half_hb1),
                k <= entities.len(),
                forall|j: int|
                    0 <= j < k ==> !player_blocked_by(#[trigger] entities@[j], *pos, *half_hb1, enemies@),
            decreases entities.len() - k,
        {
            match entities[k] {
                EntityType::Enemy(h_other) => {
                    let idx = h_other.0 as usize;
                    if idx < enemies.positions.len() {
                        let half_hb2 = Enemies::get_vec3_size(enemies.size[idx]);
                        let pos2 = enemies.positions[idx];
                        if Self::intersect_hitbox(&pos.0, half_hb1, &pos2.0, &half_hb2) {
                            return false;
                        }
                    }
                },
                EntityType::Player => {},
                EntityType::SolidBlock | EntityType::InteractableBlock(_) => {
                    return false;
                },
            }
            k = k + 1;
        }
        true
    }

    /// Whether the player at `pos` collides, as `player_collides` states it.
    fn check_collision_player(pos: &ChunkVec3, enemies: &Enemies, chunk: &WorldGrid) -> (r: bool)
        requires
            enemies@.wf(),
            chunk.wf(),
            wide(pos.0),
        ensures
            r == player_collides(*pos, enemies@, *chunk),
    {
        if pos.0.x < 0 || pos.0.z < 0 || pos.0.y < 0 {
            return true;
        }
        let chunk_pos = pos.to_chunk();
        if chunk_pos.x >= CHUNK_SIZE - 1 || chunk_pos.z >= CHUNK_SIZE - 1 || chunk_pos.y >= CHUNK_SIZE - 1 {
            return true;
        }
        let half = Vec3 { x: 500, y: 500, z: 500 };
        !Self::player_check_if_chunk_is_valid_pos(pos, &half, enemies, chunk)
    }

    /// Move the tags of `entity_type` to the cells a box centered on `pos`
    /// with half extents `half_hitbox` covers: every tag of that kind is
    /// removed first, then one is added to each covered cell.
    fn update_world_position(chunk: &mut WorldGrid, pos: &ChunkVec3, half_hitbox: &Vec3)
        requires
            old(chunk).wf(),
            vec_in_limit(pos.0),
            small_half(*half_hitbox),
        ensures
            final(chunk).wf(),
            forall|q: ChunkPos|
                cell_in_bounds(q) ==> (#[trigger] final(chunk).at(q)).filter(not_player()) == old(
                    chunk,
                ).at(q).filter(not_player()),
            forall|q: ChunkPos|
                cell_in_bounds(q) ==> (#[trigger] final(chunk).at(q).contains(EntityType::Player)
                    <==> in_tiles(*pos, *half_hitbox, q)),
    {
        let ghost g0 = *chunk;
        chunk.clear_player();
        let tiles = Enemies::get_occupied_tiles(pos, half_hitbox);
        proof {
            assert forall|q: ChunkPos| cell_in_bounds(q) implies (#[trigger] chunk.at(q)).filter(
                not_player(),
            ) == g0.at(q).filter(not_player()) by {
                crate::grid::lemma_filter_twice(g0.at(q), not_player());
            }
            assert forall|q: ChunkPos| cell_in_bounds(q) implies !#[trigger] chunk.at(q).contains(
                EntityType::Player,
            ) by {
                crate::grid::lemma_filter_excludes(g0.at(q), not_player(), EntityType::Player);
            }
        }
        let mut k: usize = 0;
        while k < tiles.len()
            invariant
                chunk.wf(),
                k <= tiles.len(),
                forall|c: ChunkPos| tiles@.contains(c) <==> in_tiles(*pos, *half_hitbox, c),
                forall|q: ChunkPos|
                    cell_in_bounds(q) ==> (#[trigger] chunk.at(q)).filter(not_player()) == g0.at(
                        q,
                    ).filter(not_player()),
                forall|q: ChunkPos|
                    cell_in_bounds(q) ==> (#[trigger] chunk.at(q).contains(EntityType::Player)
                        <==> tiles@.subrange(0, k as int).contains(q)),
            decreases tiles.len() - k,
        {
            let t = tiles[k];
            proof {
                assert(tiles@.contains(t));
            }
            let ghost before = *chunk;
            chunk.occupy(t, EntityType::Player);
            proof {
                before.at(t).lemma_filter_push(EntityType::Player, not_player());
                let pre = tiles@.subrange(0, k as int);
                let post = tiles@.subrange(0, k as int + 1);
                assert forall|q: ChunkPos| #[trigger] post.contains(q) <==> (pre.contains(q) || q == t) by {
                    if q == t {
                        assert(post[k as int] == t);
                    }
                    if pre.contains(q) {
                        let j = choose|j: int| 0 <= j < pre.len() && pre[j] == q;
                        assert(post[j] == q);
                    }
                    if post.contains(q) && q != t {
                        let j = choose|j: int| 0 <= j < post.len() && post[j] == q;
                        assert(pre[j] == q);
                    }
                }
                let s = before.at(t);
                assert(s.push(EntityType::Player)[s.len() as int] == EntityType::Player);
                assert forall|q: ChunkPos| cell_in_bounds(q) implies (#[trigger] chunk.at(q).contains(
                    EntityType::Player,
                ) <==> post.contains(q)) by {
                    if q == t {
                        assert(chunk.at(q)[s.len() as int] == EntityType::Player);
                    }
                }
            }
            k = k + 1;
        }
        proof {
            assert(tiles@.subrange(0, tiles.len() as int) =~= tiles@);
        }
    }

    /// One tick of player movement, as `player_step` states it; the grid's
    /// player tags move to the cells the player's box now covers.
    pub fn update_player(pos: &mut ChunkVec3, vel: &mut Vec3, enemies: &Enemies, chunk: &mut WorldGrid)
        requires
            enemies@.wf(),
            old(chunk).wf(),
            vec_in_limit(old(pos).0),
            speed_in_limit(*old(vel)),
        ensures
            final(chunk).wf(),
            (*final(pos), *final(vel)) == player_step(*old(pos), *old(vel), enemies@, *old(chunk)),
            vec_in_limit(final(pos).0),
            speed_in_limit(*final(vel)),
            forall|q: ChunkPos|
                cell_in_bounds(q) ==> (#[trigger] final(chunk).at(q)).filter(not_player()) == old(
                    chunk,
                ).at(q).filter(not_player()),
            forall|q: ChunkPos|
                cell_in_bounds(q) ==> (#[trigger] final(chunk).at(q).contains(EntityType::Player)
                    <==> in_tiles(*final(pos), player_half(), q)),
    {
        let p = pos.0;
        let vy = if vel.y - GRAVITY_PER_TICK < -SPEED_LIMIT {
            -SPEED_LIMIT
        } else {
            vel.y - GRAVITY_PER_TICK
        };
        let y1 = p.y + trunc_div_i64(vy * MOVE_SPEED, TICKS_PER_SECOND);
        let below = ChunkVec3(Vec3 { x: p.x, y: y1 - UNIT, z: p.z });
        let block_y = Self::check_collision_player(&below, enemies, chunk);
        let y = if block_y {
            p.y
        } else {
            y1
        };
        let vy2 = if block_y {
            0
        } else {
            vy
        };
        let x1 = p.x + trunc_div_i64(vel.x * MOVE_SPEED, TICKS_PER_SECOND);
        let block_x = Self::check_collision_player(&ChunkVec3(Vec3 { x: x1, y, z: p.z }), enemies, chunk);
        let x = if block_x {
            p.x
        } else {
            x1
        };
        let vx2 = if block_x {
            0
        } else {
            vel.x
        };
        let z1 = p.z + trunc_div_i64(vel.z * MOVE_SPEED, TICKS_PER_SECOND);
        let block_z = Self::check_collision_player(&ChunkVec3(Vec3 { x, y, z: z1 }), enemies, chunk);
        let z = if block_z {
            p.z
        } else {
            z1
        };
        let vz2 = if block_z {
            0
        } else {
            vel.z
        };
        let new_pos = ChunkVec3(
            Vec3 { x: clamp_i64(x, UNIT, 15000), y: clamp_i64(y, UNIT, 15000), z: clamp_i64(z, UNIT, 15000) },
        );
        *pos = new_pos;
        *vel = Vec3 { x: vx2, y: vy2, z: vz2 };
        let half = Vec3 { x: 500, y: 500, z: 500 };
        Self::update_world_position(chunk, &new_pos, &half);
    }
}

} // verus!
