use vstd::prelude::*;
use crate::enemies::{half_extent, Enemies, EnemiesView};
use crate::grid::WorldGrid;
use crate::types::{
    cell_of, vec_in_limit, ChunkPos, ChunkVec3, EnemyHandle, EntityType, Vec3, WeaponType,
    WorldEvent, UNIT,
};
use crate::world::Player;

verus! {

/// Largest direction component magnitude that a shot accepts.
pub const DIR_LIMIT: i64 = 1048576;

/// A ray direction whose components are small enough for exact arithmetic.
pub open spec fn dir_in_limit(d: Vec3) -> bool {
    &&& -DIR_LIMIT <= d.x <= DIR_LIMIT
    &&& -DIR_LIMIT <= d.y <= DIR_LIMIT
    &&& -DIR_LIMIT <= d.z <= DIR_LIMIT
}

/// Fraction `a.0 / a.1` is below `b.0 / b.1` (denominators positive).
pub open spec fn frac_lt(a: (int, int), b: (int, int)) -> bool {
    a.0 * b.1 < b.0 * a.1
}

pub open spec fn frac_max(a: (int, int), b: (int, int)) -> (int, int) {
    if frac_lt(a, b) {
        b
    } else {
        a
    }
}

/// Along one axis, the ray parameter at which the ray enters the slab
/// `[mn, mx]`, as a fraction, for a nonzero direction component `d`.
pub open spec fn slab_enter(o: int, d: int, mn: int, mx: int) -> (int, int) {
    if d > 0 {
        (mn - o, d)
    } else {
        (o - mx, -d)
    }
}

/// Along one axis, the ray parameter at which the ray leaves the slab.
pub open spec fn slab_exit(o: int, d: int, mn: int, mx: int) -> (int, int) {
    if d > 0 {
        (mx - o, d)
    } else {
        (o - mn, -d)
    }
}

/// The latest entry over the axes that move, and not before the origin.
pub open spec fn entry_after(t: (int, int), o: int, d: int, mn: int, mx: int) -> (int, int) {
    if d == 0 {
        t
    } else {
        frac_max(t, slab_enter(o, d, mn, mx))
    }
}

/// Parameter `t` lies within the slab of one axis; a still axis requires the
/// origin inside the slab.
pub open spec fn slab_holds(t: (int, int), o: int, d: int, mn: int, mx: int) -> bool {
    if d == 0 {
        mn <= o <= mx
    } else {
        !frac_lt(slab_exit(o, d, mn, mx), t)
    }
}

/// Slab test of the ray `o + t·d, t >= 0` against the box `[mn, mx]`: the
/// smallest `t >= 0` inside every slab, if there is one.
pub open spec fn ray_box(o: Vec3, d: Vec3, mn: Vec3, mx: Vec3) -> Option<(int, int)> {
    let t0 = (0int, 1int);
    let t1 = entry_after(t0, o.x as int, d.x as int, mn.x as int, mx.x as int);
    let t2 = entry_after(t1, o.y as int, d.y as int, mn.y as int, mx.y as int);
    let t3 = entry_after(t2, o.z as int, d.z as int, mn.z as int, mx.z as int);
    if slab_holds(t3, o.x as int, d.x as int, mn.x as int, mx.x as int) && slab_holds(
        t3,
        o.y as int,
        d.y as int,
        mn.y as int,
        mx.y as int,
    ) && slab_holds(t3, o.z as int, d.z as int, mn.z as int, mx.z as int) {
        Some(t3)
    } else {
        None
    }
}

pub open spec fn offset(p: Vec3, k: int) -> Vec3 {
    Vec3 { x: (p.x + k) as i64, y: (p.y + k) as i64, z: (p.z + k) as i64 }
}

/// Where the ray meets the hitbox of the enemy a tag names, if it does.
pub open spec fn tag_hit(tag: EntityType, o: Vec3, d: Vec3, ev: EnemiesView) -> Option<(int, int)> {
    match tag {
        EntityType::Enemy(h) => {
            if (h.0 as int) < ev.len() {
                let p = ev.positions[h.0 as int].0;
                let k = half_extent(ev.size[h.0 as int]);
                ray_box(o, d, offset(p, -k), offset(p, k))
            } else {
                None
            }
        },
        _ => None,
    }
}

/// The closest enemy hit among the tags of a cell; the earliest tag wins a tie.
pub open spec fn cell_best(s: Seq<EntityType>, o: Vec3, d: Vec3, ev: EnemiesView) -> Option<
    (EnemyHandle, (int, int)),
>
    decreases s.len(),
{
    if s.len() == 0 {
        None
    } else {
        let prev = cell_best(s.drop_last(), o, d, ev);
        match tag_hit(s.last(), o, d, ev) {
            Some(t) => {
                let h = s.last()->Enemy_0;
                match prev {
                    Some((h0, t0)) => if frac_lt(t, t0) {
                        Some((h, t))
                    } else {
                        prev
                    },
                    None => Some((h, t)),
                }
            },
            None => prev,
        }
    }
}

pub open spec fn in_grid(c: (int, int, int)) -> bool {
    0 <= c.0 < 16 && 0 <= c.1 < 16 && 0 <= c.2 < 16
}

pub open spec fn abs_i(v: int) -> int {
    if v < 0 {
        -v
    } else {
        v
    }
}

/// `a / da < b / db`, where a zero denominator stands for an infinite distance.
pub open spec fn dist_lt(a: int, da: int, b: int, db: int) -> bool {
    if da == 0 {
        false
    } else if db == 0 {
        true
    } else {
        a * db < b * da
    }
}

pub open spec fn step_of(v: int) -> int {
    if v > 0 {
        1
    } else {
        -1
    }
}

/// One step of the voxel walk: advance along the axis whose next cell
/// boundary is nearest, and push that axis's boundary one cell further.
/// X is taken only when strictly nearer than both others, Y only when
/// strictly nearer than Z; so ties go to the later axis. `b` holds the distances to the next boundary
/// scaled by each direction component's magnitude.
pub open spec fn dda_step(c: (int, int, int), b: (int, int, int), d: Vec3) -> (
    (int, int, int),
    (int, int, int),
) {
    let ax = abs_i(d.x as int);
    let ay = abs_i(d.y as int);
    let az = abs_i(d.z as int);
    if dist_lt(b.0, ax, b.1, ay) && dist_lt(b.0, ax, b.2, az) {
        ((c.0 + step_of(d.x as int), c.1, c.2), (b.0 + UNIT, b.1, b.2))
    } else if dist_lt(b.1, ay, b.2, az) {
        ((c.0, c.1 + step_of(d.y as int), c.2), (b.0, b.1 + UNIT, b.2))
    } else {
        ((c.0, c.1, c.2 + step_of(d.z as int)), (b.0, b.1, b.2 + UNIT))
    }
}

/// Cells left before the walk leaves the grid along each axis.
pub open spec fn walk_measure(c: (int, int, int), d: Vec3) -> int {
    (if d.x > 0 {
        16 - c.0
    } else {
        c.0 + 1
    }) + (if d.y > 0 {
        16 - c.1
    } else {
        c.1 + 1
    }) + (if d.z > 0 {
        16 - c.2
    } else {
        c.2 + 1
    })
}

pub open spec fn as_cell(c: (int, int, int)) -> ChunkPos {
    ChunkPos { x: c.0 as u8, y: c.1 as u8, z: c.2 as u8 }
}

/// The voxel walk from cell `c`: the first cell, in walk order, holding an
/// enemy that the ray hits decides the result; leaving the grid gives none.
pub open spec fn walk(
    o: Vec3,
    d: Vec3,
    ev: EnemiesView,
    grid: WorldGrid,
    c: (int, int, int),
    b: (int, int, int),
) -> Option<EnemyHandle>
    decreases walk_measure(c, d),
{
    if !in_grid(c) {
        None
    } else {
        match cell_best(grid.at(as_cell(c)), o, d, ev) {
            Some((h, _)) => Some(h),
            None => {
                let (c2, b2) = dda_step(c, b, d);
                walk(o, d, ev, grid, c2, b2)
            },
        }
    }
}

/// Distance numerator from the origin to the first boundary of its cell
/// along one axis.
pub open spec fn first_boundary(o: int, cell: int, d: int) -> int {
    if d < 0 {
        o - cell * UNIT
    } else {
        cell * UNIT + UNIT - o
    }
}

/// What a shot from `origin` along `dir` hits: the walk from the origin's cell.
pub open spec fn shot_result(
    origin: ChunkVec3,
    dir: Vec3,
    ev: EnemiesView,
    grid: WorldGrid,
) -> Option<EnemyHandle> {
    let c = cell_of(origin);
    let o = origin.0;
    walk(
        o,
        dir,
        ev,
        grid,
        (c.x as int, c.y as int, c.z as int),
        (
            first_boundary(o.x as int, c.x as int, dir.x as int),
            first_boundary(o.y as int, c.y as int, dir.y as int),
            first_boundary(o.z as int, c.z as int, dir.z as int),
        ),
    )
}

proof fn lemma_mul_small(a: int, b: int, ka: int, kb: int)
    requires
        -ka <= a <= ka,
        0 <= b <= kb,
    ensures
        -(ka * kb) <= a * b <= ka * kb,
{
    assert(-(ka * kb) <= a * b <= ka * kb) by (nonlinear_arith)
        requires
            -ka <= a <= ka,
            0 <= b <= kb,
    ;
}

fn frac_lt_exec(a: (i64, i64), b: (i64, i64)) -> (r: bool)
    requires
        -8589934592 <= a.0 <= 8589934592,
        -8589934592 <= b.0 <= 8589934592,
        0 <= a.1 <= DIR_LIMIT,
        0 <= b.1 <= DIR_LIMIT,
    ensures
        r == frac_lt((a.0 as int, a.1 as int), (b.0 as int, b.1 as int)),
{
    proof {
        lemma_mul_small(a.0 as int, b.1 as int, 8589934592, DIR_LIMIT as int);
        lemma_mul_small(b.0 as int, a.1 as int, 8589934592, DIR_LIMIT as int);
    }
    a.0 * b.1 < b.0 * a.1
}

fn abs_i64(v: i64) -> (r: i64)
    requires
        v > i64::MIN,
    ensures
        r == abs_i(v as int),
{
    if v < 0 {
        -v
    } else {
        v
    }
}

pub open spec fn coord_ok(v: int) -> bool {
    -4294967296 <= v <= 4294967296
}

/// Entry fraction after one more axis, as `entry_after` states it.
fn entry_after_exec(t: (i64, i64), o: i64, d: i64, mn: i64, mx: i64) -> (r: (i64, i64))
    requires
        -8589934592 <= t.0 <= 8589934592,
        0 < t.1 <= DIR_LIMIT,
        coord_ok(o as int),
        coord_ok(mn as int),
        coord_ok(mx as int),
        -DIR_LIMIT <= d <= DIR_LIMIT,
    ensures
        (r.0 as int, r.1 as int) == entry_after(
            (t.0 as int, t.1 as int),
            o as int,
            d as int,
            mn as int,
            mx as int,
        ),
        -8589934592 <= r.0 <= 8589934592,
        0 < r.1 <= DIR_LIMIT,
{
    if d == 0 {
        t
    } else {
        let e = if d > 0 {
            (mn - o, d)
        } else {
            (o - mx, -d)
        };
        if frac_lt_exec(t, e) {
            e
        } else {
            t
        }
    }
}

fn slab_holds_exec(t: (i64, i64), o: i64, d: i64, mn: i64, mx: i64) -> (r: bool)
    requires
        -8589934592 <= t.0 <= 8589934592,
        0 < t.1 <= DIR_LIMIT,
        coord_ok(o as int),
        coord_ok(mn as int),
        coord_ok(mx as int),
        -DIR_LIMIT <= d <= DIR_LIMIT,
    ensures
        r == slab_holds((t.0 as int, t.1 as int), o as int, d as int, mn as int, mx as int),
{
    if d == 0 {
        mn <= o && o <= mx
    } else {
        let e = if d > 0 {
            (mx - o, d)
        } else {
            (o - mn, -d)
        };
        !frac_lt_exec(e, t)
    }
}

/// Slab test of a ray against a box, exactly as `ray_box` states it; the
/// hit parameter comes back as a fraction with a positive denominator.
fn ray_box_intersection(ray_origin: Vec3, ray_direction: Vec3, box_min: Vec3, box_max: Vec3) -> (r:
    Option<(i64, i64)>)
    requires
        coord_ok(ray_origin.x as int),
        coord_ok(ray_origin.y as int),
        coord_ok(ray_origin.z as int),
        coord_ok(box_min.x as int),
        coord_ok(box_min.y as int),
        coord_ok(box_min.z as int),
        coord_ok(box_max.x as int),
        coord_ok(box_max.y as int),
        coord_ok(box_max.z as int),
        dir_in_limit(ray_direction),
    ensures
        match r {
            Some(t) => ray_box(ray_origin, ray_direction, box_min, box_max) == Some(
                (t.0 as int, t.1 as int),
            ) && -8589934592 <= t.0 <= 8589934592 && 0 < t.1 <= DIR_LIMIT,
            None => ray_box(ray_origin, ray_direction, box_min, box_max) is None,
        },
{
    let o = ray_origin;
    let d = ray_direction;
    let t0: (i64, i64) = (0, 1);
    let t1 = entry_after_exec(t0, o.x, d.x, box_min.x, box_max.x);
    let t2 = entry_after_exec(t1, o.y, d.y, box_min.y, box_max.y);
    let t3 = entry_after_exec(t2, o.z, d.z, box_min.z, box_max.z);
    if slab_holds_exec(t3, o.x, d.x, box_min.x, box_max.x) && slab_holds_exec(
        t3,
        o.y,
        d.y,
        box_min.y,
        box_max.y,
    ) && slab_holds_exec(t3, o.z, d.z, box_min.z, box_max.z) {
        Some(t3)
    } else {
        None
    }
}

/// The exec form of a cell's best hit, read as a spec value.
pub open spec fn lift(r: Option<(EnemyHandle, (i64, i64))>) -> Option<(EnemyHandle, (int, int))> {
    match r {
        Some((h, t)) => Some((h, (t.0 as int, t.1 as int))),
        None => None,
    }
}

/// The closest enemy hit among the tags of one cell, as `cell_best` states it.
fn closest_in_cell(tags: &Vec<EntityType>, o: Vec3, d: Vec3, enemies: &Enemies) -> (r: Option<
    (EnemyHandle, (i64, i64)),
>)
    requires
        enemies@.wf(),
        vec_in_limit(o),
        dir_in_limit(d),
    ensures
        lift(r) == cell_best(tags@, o, d, enemies@),
        match r {
            Some((_, t)) => -8589934592 <= t.0 <= 8589934592 && 0 < t.1 <= DIR_LIMIT,
            None => true,
        },
{
    let mut best: Option<(EnemyHandle, (i64, i64))> = None;
    let mut k: usize = 0;
    while k < tags.len()
        invariant
            enemies@.wf(),
            vec_in_limit(o),
            dir_in_limit(d),
            k <= tags.len(),
            lift(best) == cell_best(tags@.subrange(0, k as int), o, d, enemies@),
            match best {
                Some((_, t)) => -8589934592 <= t.0 <= 8589934592 && 0 < t.1 <= DIR_LIMIT,
                None => true,
            },
        decreases tags.len() - k,
    {
        let tag = tags[k];
        proof {
            let s = tags@.subrange(0, k as int + 1);
            assert(s.drop_last() =~= tags@.subrange(0, k as int));
            assert(s.last() == tag);
        }
        match tag {
            EntityType::Enemy(h) => {
                let idx = h.0 as usize;
                if idx < enemies.positions.len() {
                    let p = enemies.positions[idx].0;
                    let half = Enemies::get_vec3_size(enemies.size[idx]);
                    let box_min = Vec3 { x: p.x - half.x, y: p.y - half.y, z: p.z - half.z };
                    let box_max = Vec3 { x: p.x + half.x, y: p.y + half.y, z: p.z + half.z };
                    let hit = ray_box_intersection(o, d, box_min, box_max);
                    match hit {
                        Some(t) => {
                            match best {
                                Some((_, t0)) => {
                                    if frac_lt_exec(t, t0) {
                                        best = Some((h, t));
                                    }
                                },
                                None => {
                                    best = Some((h, t));
                                },
                            }
                        },
                        None => {},
                    }
                }
            },
            _ => {},
        }
        k = k + 1;
    }
    proof {
        assert(tags@.subrange(0, tags.len() as int) =~= tags@);
    }
    best
}

fn dist_lt_exec(a: i64, da: i64, b: i64, db: i64) -> (r: bool)
    requires
        -8589934592 <= a <= 8589934592,
        -8589934592 <= b <= 8589934592,
        0 <= da <= DIR_LIMIT,
        0 <= db <= DIR_LIMIT,
    ensures
        r == dist_lt(a as int, da as int, b as int, db as int),
{
    if da == 0 {
        false
    } else if db == 0 {
        true
    } else {
        frac_lt_exec((a, da), (b, db))
    }
}

/// Cells walked along one axis since the start, counted in the direction
/// of travel.
pub open spec fn walked(c: int, c0: int, d: int) -> int {
    if d > 0 {
        c - c0
    } else {
        c0 - c
    }
}

/// Walk the grid from the origin's cell along `target_dir` and report a hit
/// on the enemy closest to the origin within the first cell, in walk order,
/// that holds any enemy the ray meets; `None` once the walk leaves the grid.
pub fn shotgun_shoot(origin: ChunkVec3, target_dir: Vec3, enemies: &Enemies, world_layout: &WorldGrid) -> (r:
    Option<WorldEvent>)
    requires
        enemies@.wf(),
        world_layout.wf(),
        vec_in_limit(origin.0),
        dir_in_limit(target_dir),
    ensures
        r == match shot_result(origin, target_dir, enemies@, *world_layout) {
            Some(h) => Some(WorldEvent::HitEnemy(h)),
            None => None,
        },
{
    let o = origin.0;
    let d = target_dir;
    let ax = abs_i64(d.x);
    let ay = abs_i64(d.y);
    let az = abs_i64(d.z);
    let c0 = origin.to_chunk();
    let mut cx: i64 = c0.x as i64;
    let mut cy: i64 = c0.y as i64;
    let mut cz: i64 = c0.z as i64;
    let mut bx: i64 = if d.x < 0 {
        o.x - cx * UNIT
    } else {
        cx * UNIT + UNIT - o.x
    };
    let mut by: i64 = if d.y < 0 {
        o.y - cy * UNIT
    } else {
        cy * UNIT + UNIT - o.y
    };
    let mut bz: i64 = if d.z < 0 {
        o.z - cz * UNIT
    } else {
        cz * UNIT + UNIT - o.z
    };
    let ghost b0 = (bx as int, by as int, bz as int);
    let ghost start = (cx as int, cy as int, cz as int);
    while 0 <= cx && cx < 16 && 0 <= cy && cy < 16 && 0 <= cz && cz < 16
        invariant
            enemies@.wf(),
            world_layout.wf(),
            vec_in_limit(o),
            dir_in_limit(d),
            o == origin.0,
            d == target_dir,
            ax == abs_i(d.x as int),
            ay == abs_i(d.y as int),
            az == abs_i(d.z as int),
            0 <= start.0 < 16 && 0 <= start.1 < 16 && 0 <= start.2 < 16,
            -1 <= cx <= 16 && -1 <= cy <= 16 && -1 <= cz <= 16,
            -1073758824 <= b0.0 <= 1073758824,
            -1073758824 <= b0.1 <= 1073758824,
            -1073758824 <= b0.2 <= 1073758824,
            walked(cx as int, start.0, d.x as int) >= 0,
            walked(cy as int, start.1, d.y as int) >= 0,
            walked(cz as int, start.2, d.z as int) >= 0,
            bx == b0.0 + UNIT * walked(cx as int, start.0, d.x as int),
            by == b0.1 + UNIT * walked(cy as int, start.1, d.y as int),
            bz == b0.2 + UNIT * walked(cz as int, start.2, d.z as int),
            walk(o, d, enemies@, *world_layout, (cx as int, cy as int, cz as int), (bx as int, by as int, bz as int))
                == shot_result(origin, target_dir, enemies@, *world_layout),
        decreases walk_measure((cx as int, cy as int, cz as int), d),
    {
        let cell = ChunkPos::new(cx as u8, cy as u8, cz as u8);
        let tags = world_layout.cell(cell);
        match closest_in_cell(tags, o, d, enemies) {
            Some((h, _)) => {
                return Some(WorldEvent::HitEnemy(h));
            },
            None => {},
        }
        if dist_lt_exec(bx, ax, by, ay) && dist_lt_exec(bx, ax, bz, az) {
            cx = if d.x > 0 {
                cx + 1
            } else {
                cx - 1
            };
            bx = bx + UNIT;
        } else if dist_lt_exec(by, ay, bz, az) {
            cy = if d.y > 0 {
                cy + 1
            } else {
                cy - 1
            };
            by = by + UNIT;
        } else {
            cz = if d.z > 0 {
                cz + 1
            } else {
                cz - 1
            };
            bz = bz + UNIT;
        }
    }
    None
}

/// Fire the weapon in hand from the player's position along `dir`: the
/// events the shot causes.
pub fn shoot(player: &Player, dir: Vec3, enemies: &Enemies, world_layout: &WorldGrid) -> (r: Vec<
    WorldEvent,
>)
    requires
        enemies@.wf(),
        world_layout.wf(),
        vec_in_limit(player.pos.0),
        dir_in_limit(dir),
        player.curr_weapon.0 < 1,
    ensures
        r@ == match shot_result(player.pos, dir, enemies@, *world_layout) {
            Some(h) => seq![WorldEvent::HitEnemy(h)],
            None => Seq::<WorldEvent>::empty(),
        },
{
    let mut res: Vec<WorldEvent> = Vec::new();
    match player.get_current_weapon().w_type {
        WeaponType::Shotgun => {
            let event = shotgun_shoot(player.pos, dir, enemies, world_layout);
            match event {
                Some(e) => {
                    res.push(e);
                    proof {
                        assert(res@ =~= seq![e]);
                    }
                },
                None => {},
            }
        },
    }
    res
}

} // verus!
