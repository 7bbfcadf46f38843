use vstd::prelude::*;
use crate::enemies::{half_extent, in_tiles, splat, Enemies, EnemiesView};
use crate::grid::not_enemy;
use crate::movement::MovementSystem;
use crate::types::{
    cell_in_bounds, ChunkPos, ChunkVec3, EnemyHandle, EnemyType, EntityType, PossibleEnemySizes,
    Vec3,
};
use crate::world::World;

verus! {

/// Nanoseconds in one minute.
pub const MINUTE_NS: u64 = 60000000000;

/// Nanoseconds in one simulation tick (1/60 s, rounded).
pub const TICK_NS: u64 = 16666667;

/// Scale of the size weights and of the size roll: weights are per mille.
pub const WEIGHT_SCALE: u32 = 1000;

/// Width of the spawn band along the near border of an axis (3.51 cells).
pub const NEAR_BAND: u32 = 3510;

/// Start of the spawn band along the far border (16 - 3.51 cells).
pub const FAR_BAND_START: i64 = 12490;

/// Width of the spawn band along the far border (up to 16 - 1.51 cells).
pub const FAR_BAND: u32 = 2000;

/// Height at which enemies appear (8 cells).
pub const SPAWN_HEIGHT: i64 = 8000;

/// Spread of the random horizontal spawn speed: speeds lie in
/// `[-SPEED_SPREAD/2, SPEED_SPREAD/2)` length units per second.
pub const SPEED_SPREAD: u32 = 2000;

/// Relies on macroquad::rand::gen_range (quad-rand): for integers it
/// returns `low + (high - low) * f` truncated, with `f` in `[0, 1)` drawn
/// from the process-wide generator; for `high <= 65536` the product is
/// exact in `f64`, so the result lies in `[0, high)`.
#[verifier::external_body]
fn random_below(high: u32) -> (r: u32)
    requires
        0 < high <= 65536,
    ensures
        r < high,
{
    macroquad::rand::gen_range(0u32, high)
}

/// One minute's row of the difficulty table.
pub struct SpawnConfig {
    pub enemies_per_minute: usize,
    /// Per-mille weights of the sizes SMALL, MEDIUM, LARGE and BOSS.
    pub size_weights: [u32; 4],
    pub boss_spawn_minutes: Vec<u32>,
}

/// The random values one spawn consumes.
#[derive(Clone, Copy, Debug, PartialEq, Eq, Structural)]
pub struct SpawnDraws {
    /// Uniform in `[0, WEIGHT_SCALE)`; picks the size.
    pub size_roll: u32,
    /// Spawn near the low border of X (else near the high border).
    pub near_x: bool,
    /// Offset inside the chosen band on X.
    pub off_x: u32,
    pub near_z: bool,
    pub off_z: u32,
    /// Uniform in `[0, SPEED_SPREAD)`; shifted to a signed speed.
    pub vel_x: u32,
    pub vel_z: u32,
}

impl SpawnDraws {
    pub open spec fn valid(self) -> bool {
        &&& self.size_roll < WEIGHT_SCALE
        &&& self.off_x < if self.near_x {
            NEAR_BAND
        } else {
            FAR_BAND
        }
        &&& self.off_z < if self.near_z {
            NEAR_BAND
        } else {
            FAR_BAND
        }
        &&& self.vel_x < SPEED_SPREAD
        &&& self.vel_z < SPEED_SPREAD
    }
}

/// Hit points by size.
pub open spec fn health_of(size: PossibleEnemySizes) -> u8 {
    match size {
        PossibleEnemySizes::SMALL => 1,
        PossibleEnemySizes::MEDIUM => 3,
        PossibleEnemySizes::LARGE => 5,
        PossibleEnemySizes::BOSS => 10,
    }
}

/// Cumulative-weight sampling: the first size whose running weight total
/// exceeds the roll; SMALL when none does.
pub open spec fn size_for_roll(w: [u32; 4], roll: int) -> PossibleEnemySizes {
    if roll < w[0] {
        PossibleEnemySizes::SMALL
    } else if roll < w[0] + w[1] {
        PossibleEnemySizes::MEDIUM
    } else if roll < w[0] + w[1] + w[2] {
        PossibleEnemySizes::LARGE
    } else if roll < w[0] + w[1] + w[2] + w[3] {
        PossibleEnemySizes::BOSS
    } else {
        PossibleEnemySizes::SMALL
    }
}

/// A spawn coordinate: inside the band along the near or the far border.
pub open spec fn band_coord(near: bool, off: u32) -> int {
    if near {
        off as int
    } else {
        FAR_BAND_START + off
    }
}

/// Where an enemy spawned with these draws appears.
pub open spec fn spawn_position(d: SpawnDraws) -> ChunkVec3 {
    ChunkVec3(
        Vec3 {
            x: band_coord(d.near_x, d.off_x) as i64,
            y: SPAWN_HEIGHT as i64,
            z: band_coord(d.near_z, d.off_z) as i64,
        },
    )
}

/// The horizontal speed an enemy spawned with these draws starts with.
pub open spec fn spawn_velocity(d: SpawnDraws) -> Vec3 {
    Vec3 { x: (d.vel_x - 1000) as i64, y: 0, z: (d.vel_z - 1000) as i64 }
}

/// Time between two regular spawns at a given rate.
pub open spec fn spawn_interval(enemies_per_minute: int) -> int {
    MINUTE_NS as int / enemies_per_minute
}

/// A regular spawn is due: the interval has passed since the last one and
/// the minute's quota is not used up.
pub open spec fn spawn_due(since_last: int, interval: int, spawned: int, quota: int) -> bool {
    since_last >= interval && spawned < quota
}

/// The pool and grid after placing an enemy: the pool as `new_enemy` leaves
/// it, and its tag added to every cell its hitbox covers.
pub open spec fn placed(old_w: World, new_w: World, pos: ChunkVec3, vel: Vec3, size: PossibleEnemySizes) -> bool {
    let h = old_w.enemies@.alloc_slot();
    &&& new_w.enemies@ == old_w.enemies@.with_new(pos, vel, size, health_of(size), EnemyType::Regular)
    &&& forall|q: ChunkPos|
        cell_in_bounds(q) ==> (#[trigger] new_w.world_layout.at(q)).filter(not_enemy())
            == old_w.world_layout.at(q).filter(not_enemy())
    &&& forall|q: ChunkPos, e: EntityType|
        cell_in_bounds(q) ==> (#[trigger] new_w.world_layout.at(q).contains(e) <==> (
        old_w.world_layout.at(q).contains(e) || (e == EntityType::Enemy(EnemyHandle(h as u16))
            && in_tiles(pos, splat(half_extent(size)), q))))
}

/// Every live enemy's tags sit exactly in the cells its hitbox covers, and
/// no other enemy tag is in the grid.
pub open spec fn enemy_tags_match(w: World) -> bool {
    forall|q: ChunkPos, h: EnemyHandle|
        cell_in_bounds(q) ==> (#[trigger] w.world_layout.at(q).contains(EntityType::Enemy(h))
            <==> crate::movement::tags_cell(w.enemies@, h, q))
}

/// Placing an enemy keeps every live enemy's tags on its covered cells and
/// leaves all other tags where they were.
pub proof fn lemma_placed_keeps_tags(
    old_w: World,
    new_w: World,
    pos: ChunkVec3,
    vel: Vec3,
    size: PossibleEnemySizes,
)
    requires
        old_w.wf(),
        old_w.enemies@.has_room(),
        placed(old_w, new_w, pos, vel, size),
    ensures
        enemy_tags_match(old_w) ==> enemy_tags_match(new_w),
        forall|q: ChunkPos, t: EntityType|
            cell_in_bounds(q) && !(t is Enemy) ==> (#[trigger] new_w.world_layout.at(q).contains(t)
                <==> old_w.world_layout.at(q).contains(t)),
{
    let v = old_w.enemies@;
    let k = v.alloc_slot();
    crate::enemies::lemma_first_free_bounds(v.e_type);
    if enemy_tags_match(old_w) {
        assert forall|q: ChunkPos, h: EnemyHandle| cell_in_bounds(q) implies (
        #[trigger] new_w.world_layout.at(q).contains(EntityType::Enemy(h))
            <==> crate::movement::tags_cell(new_w.enemies@, h, q)) by {
            assert(old_w.world_layout.at(q).contains(EntityType::Enemy(h))
                <==> crate::movement::tags_cell(v, h, q));
            if h.0 as int == k {
                assert(EnemyHandle(k as u16) == h);
                assert(!v.is_live(k));
            } else {
                assert(EnemyHandle(k as u16) != h);
                if (h.0 as int) < v.len() {
                    assert(new_w.enemies@.positions[h.0 as int] == v.positions[h.0 as int]);
                    assert(new_w.enemies@.size[h.0 as int] == v.size[h.0 as int]);
                    assert(new_w.enemies@.e_type[h.0 as int] == v.e_type[h.0 as int]);
                }
            }
        }
    }
}

/// The time-driven spawner: a clock, the difficulty table, and the counters
/// of the current minute.
pub struct SpawningSystem {
    /// Simulated time since the start, in nanoseconds.
    pub elapsed_time: u64,
    /// Difficulty, in per mille; grows by a tenth each minute.
    pub difficulty_multiplier: u64,
    pub current_minute: u32,
    pub spawn_configs: Vec<SpawnConfig>,
    /// Time since the last regular spawn, in nanoseconds.
    pub time_since_last_spawn: u64,
    pub enemies_spawned_this_minute: usize,
    pub boss_spawned_this_minute: bool,
}

/// A table row holds the given rate, weights and boss minutes.
pub open spec fn row_is(c: &SpawnConfig, epm: int, w0: int, w1: int, w2: int, w3: int, boss: Seq<u32>) -> bool {
    &&& c.enemies_per_minute == epm
    &&& c.size_weights[0] == w0
    &&& c.size_weights[1] == w1
    &&& c.size_weights[2] == w2
    &&& c.size_weights[3] == w3
    &&& c.boss_spawn_minutes@ == boss
}

fn make_config(enemies_per_minute: usize, size_weights: [u32; 4], boss_minute: Option<u32>) -> (r: SpawnConfig)
    ensures
        r.enemies_per_minute == enemies_per_minute,
        r.size_weights == size_weights,
        r.boss_spawn_minutes@ == match boss_minute {
            Some(m) => seq![m],
            None => Seq::<u32>::empty(),
        },
{
    let mut boss_spawn_minutes: Vec<u32> = Vec::new();
    match boss_minute {
        Some(m) => {
            boss_spawn_minutes.push(m);
            proof {
                assert(boss_spawn_minutes@ =~= seq![m]);
            }
        },
        None => {},
    }
    SpawnConfig { enemies_per_minute, size_weights, boss_spawn_minutes }
}

impl SpawningSystem {
    /// The table is non-empty and every row spawns at least one enemy a
    /// minute and at most one a nanosecond.
    pub open spec fn wf(&self) -> bool {
        &&& self.spawn_configs.len() > 0
        &&& forall|i: int|
            0 <= i < self.spawn_configs.len() ==> 0 < (#[trigger] self.spawn_configs@[i]).enemies_per_minute
                <= MINUTE_NS
    }

    /// The table row in force: the current minute's, or the last one.
    pub open spec fn config_index(&self, minute: int) -> int {
        if minute < self.spawn_configs.len() - 1 {
            minute
        } else {
            self.spawn_configs.len() - 1
        }
    }

    /// The built-in ten-minute difficulty curve, with bosses at minutes five
    /// and ten.
    pub fn new() -> (r: SpawningSystem)
        ensures
            r.wf(),
            r.elapsed_time == 0,
            r.time_since_last_spawn == 0,
            r.current_minute == 0,
            r.enemies_spawned_this_minute == 0,
            !r.boss_spawned_this_minute,
            r.difficulty_multiplier == 1000,
            r.spawn_configs.len() == 11,
            row_is(&r.spawn_configs@[0], 28, 800, 200, 0, 0, Seq::<u32>::empty()),
            row_is(&r.spawn_configs@[1], 35, 750, 250, 0, 0, Seq::<u32>::empty()),
            row_is(&r.spawn_configs@[2], 42, 700, 300, 0, 0, Seq::<u32>::empty()),
            row_is(&r.spawn_configs@[3], 45, 650, 300, 50, 0, Seq::<u32>::empty()),
            row_is(&r.spawn_configs@[4], 45, 600, 350, 50, 0, Seq::<u32>::empty()),
            row_is(&r.spawn_configs@[5], 51, 550, 350, 100, 0, seq![5u32]),
            row_is(&r.spawn_configs@[6], 60, 500, 400, 100, 0, Seq::<u32>::empty()),
            row_is(&r.spawn_configs@[7], 72, 450, 400, 150, 0, Seq::<u32>::empty()),
            row_is(&r.spawn_configs@[8], 80, 400, 450, 150, 0, Seq::<u32>::empty()),
            row_is(&r.spawn_configs@[9], 50, 350, 450, 200, 0, Seq::<u32>::empty()),
            row_is(&r.spawn_configs@[10], 3, 300, 450, 250, 0, seq![10u32]),
    {
        let mut spawn_configs: Vec<SpawnConfig> = Vec::new();
        spawn_configs.push(make_config(28, [800, 200, 0, 0], None));
        spawn_configs.push(make_config(35, [750, 250, 0, 0], None));
        spawn_configs.push(make_config(42, [700, 300, 0, 0], None));
        spawn_configs.push(make_config(45, [650, 300, 50, 0], None));
        spawn_configs.push(make_config(45, [600, 350, 50, 0], None));
        spawn_configs.push(make_config(51, [550, 350, 100, 0], Some(5)));
        spawn_configs.push(make_config(60, [500, 400, 100, 0], None));
        spawn_configs.push(make_config(72, [450, 400, 150, 0], None));
        spawn_configs.push(make_config(80, [400, 450, 150, 0], None));
        spawn_configs.push(make_config(50, [350, 450, 200, 0], None));
        spawn_configs.push(make_config(3, [300, 450, 250, 0], Some(10)));
        SpawningSystem {
            elapsed_time: 0,
            difficulty_multiplier: 1000,
            current_minute: 0,
            spawn_configs,
            time_since_last_spawn: 0,
            enemies_spawned_this_minute: 0,
            boss_spawned_this_minute: false,
        }
    }

    /// Hit points of a new enemy of the given size.
    pub fn get_health_based_on_size(size: PossibleEnemySizes) -> (r: u8)
        ensures
            r == health_of(size),
    {
        match size {
            PossibleEnemySizes::SMALL => 1,
            PossibleEnemySizes::BOSS => 10,
            PossibleEnemySizes::LARGE => 5,
            PossibleEnemySizes::MEDIUM => 3,
        }
    }

    /// Cumulative-weight sampling of a size from a roll.
    pub fn get_random_size(weights: &[u32; 4], roll: u32) -> (r: PossibleEnemySizes)
        ensures
            r == size_for_roll(*weights, roll as int),
    {
        let r = roll as u64;
        let mut cumulative: u64 = weights[0] as u64;
        if r < cumulative {
            return PossibleEnemySizes::SMALL;
        }
        cumulative = cumulative + weights[1] as u64;
        if r < cumulative {
            return PossibleEnemySizes::MEDIUM;
        }
        cumulative = cumulative + weights[2] as u64;
        if r < cumulative {
            return PossibleEnemySizes::LARGE;
        }
        cumulative = cumulative + weights[3] as u64;
        if r < cumulative {
            return PossibleEnemySizes::BOSS;
        }
        PossibleEnemySizes::SMALL
    }

    /// A spawn point near the world's border, away from the center where the
    /// player starts.
    pub fn get_random_position_ground_enemy(draws: &SpawnDraws) -> (r: ChunkVec3)
        requires
            draws.valid(),
        ensures
            r == spawn_position(*draws),
    {
        let x = if draws.near_x {
            draws.off_x as i64
        } else {
            FAR_BAND_START + draws.off_x as i64
        };
        let z = if draws.near_z {
            draws.off_z as i64
        } else {
            FAR_BAND_START + draws.off_z as i64
        };
        ChunkVec3(Vec3 { x, y: SPAWN_HEIGHT, z })
    }

    /// A small random horizontal speed.
    pub fn get_random_velocity(draws: &SpawnDraws) -> (r: Vec3)
        requires
            draws.valid(),
        ensures
            r == spawn_velocity(*draws),
    {
        Vec3 { x: draws.vel_x as i64 - 1000, y: 0, z: draws.vel_z as i64 - 1000 }
    }

    /// Draw the random values of one spawn from the process-wide generator.
    pub fn draw() -> (r: SpawnDraws)
        ensures
            r.valid(),
    {
        let size_roll = random_below(WEIGHT_SCALE);
        let near_x = random_below(2) == 1;
        let off_x = random_below(if near_x { NEAR_BAND } else { FAR_BAND });
        let near_z = random_below(2) == 1;
        let off_z = random_below(if near_z { NEAR_BAND } else { FAR_BAND });
        let vel_x = random_below(SPEED_SPREAD);
        let vel_z = random_below(SPEED_SPREAD);
        SpawnDraws { size_roll, near_x, off_x, near_z, off_z, vel_x, vel_z }
    }
}

/// Put a regular enemy of the given size into the pool and tag the cells its
/// hitbox covers. Does nothing when the pool has no room; says whether it
/// placed the enemy.
fn place_enemy(world: &mut World, pos: ChunkVec3, vel: Vec3, size: PossibleEnemySizes) -> (r: bool)
    requires
        old(world).wf(),
        crate::types::vec_in_limit(pos.0),
        crate::types::speed_in_limit(vel),
    ensures
        final(world).wf(),
        r == old(world).enemies@.has_room(),
        r ==> placed(*old(world), *final(world), pos, vel, size),
        enemy_tags_match(*old(world)) ==> enemy_tags_match(*final(world)),
        forall|q: ChunkPos, t: EntityType|
            cell_in_bounds(q) && !(t is Enemy) ==> (#[trigger] final(world).world_layout.at(q).contains(t)
                <==> old(world).world_layout.at(q).contains(t)),
        !r ==> final(world).enemies@ == old(world).enemies@ && final(world).world_layout.same_cells(
            &old(world).world_layout,
        ),
        final(world).world_event_queue@ == old(world).world_event_queue@,
        final(world).player == old(world).player,
{
    let n = world.enemies.e_type.len();
    let mut room = n < 65536;
    let mut k: usize = 0;
    while k < n && !room
        invariant
            n == world.enemies@.len(),
            world.enemies@ == old(world).enemies@,
            k <= n,
            room == (n < 65536 || exists|j: int| 0 <= j < k && world.enemies@.e_type[j] == EnemyType::Empty),
        decreases n - k,
    {
        if world.enemies.e_type[k] == EnemyType::Empty {
            room = true;
        }
        k = k + 1;
    }
    proof {
        crate::enemies::lemma_first_free_bounds(world.enemies@.e_type);
    }
    if !room {
        return false;
    }
    let health = SpawningSystem::get_health_based_on_size(size);
    let h = world.enemies.new_enemy(pos, vel, size, health, EnemyType::Regular);
    let half = Enemies::get_vec3_size(size);
    let tiles = Enemies::get_occupied_tiles(&pos, &half);
    proof {
        assert forall|k: int| 0 <= k < tiles.len() implies cell_in_bounds(#[trigger] tiles@[k]) by {
            assert(tiles@.contains(tiles@[k]));
        }
    }
    MovementSystem::update_enemy_world_position(&tiles, &mut world.world_layout, EntityType::Enemy(h));
    proof {
        lemma_placed_keeps_tags(*old(world), *world, pos, vel, size);
    }
    true
}

/// `a + b`, or the largest `u64` when that overflows.
pub open spec fn sat_add(a: int, b: int) -> int {
    if a + b > u64::MAX {
        u64::MAX as int
    } else {
        a + b
    }
}

/// The difficulty after one more minute: a tenth more, unless that overflows.
pub open spec fn grown(m: int) -> int {
    if m <= u64::MAX / 11 {
        m * 11 / 10
    } else {
        m
    }
}

fn sat_add_u64(a: u64, b: u64) -> (r: u64)
    ensures
        r == sat_add(a as int, b as int),
{
    if u64::MAX - a < b {
        u64::MAX
    } else {
        a + b
    }
}

/// Which spawns one update performed.
#[derive(Clone, Copy, Debug, PartialEq, Eq, Structural)]
pub struct SpawnReport {
    pub regular: bool,
    pub boss: bool,
}

impl SpawningSystem {
    /// The clock fields after advancing by `delta`, before any spawn:
    /// the minute rolls over when the elapsed time enters a later minute,
    /// raising the difficulty and resetting the minute's counters.
    pub open spec fn clock_after(&self, next: &SpawningSystem, delta: int) -> bool {
        let elapsed = sat_add(self.elapsed_time as int, delta);
        let minute = elapsed / MINUTE_NS as int;
        let rolled = minute > self.current_minute;
        &&& next.elapsed_time == elapsed
        &&& next.current_minute == if rolled {
            minute
        } else {
            self.current_minute as int
        }
        &&& next.difficulty_multiplier == if rolled {
            grown(self.difficulty_multiplier as int)
        } else {
            self.difficulty_multiplier as int
        }
        &&& next.spawn_configs@ == self.spawn_configs@
    }

    /// When an update spawns: a regular enemy when the interval has passed
    /// since the last one and the minute's quota is not used up; a boss when
    /// none of these happened, the current minute is listed for a boss, no
    /// regular enemy and no boss has spawned this minute. Either needs room.
    pub open spec fn spawn_decided(&self, next: &SpawningSystem, delta: int, pool: EnemiesView, r: SpawnReport) -> bool {
        let cfg = self.spawn_configs@[self.config_index(next.current_minute as int)];
        let minute = sat_add(self.elapsed_time as int, delta) / MINUTE_NS as int;
        let rolled = minute > self.current_minute;
        let spawned = if rolled { 0 } else { self.enemies_spawned_this_minute as int };
        let boss_done = if rolled { false } else { self.boss_spawned_this_minute };
        let due = spawn_due(
            sat_add(self.time_since_last_spawn as int, delta),
            spawn_interval(cfg.enemies_per_minute as int),
            spawned,
            cfg.enemies_per_minute as int,
        );
        &&& r.regular == (due && pool.has_room())
        &&& r.boss == (!r.regular && spawned == 0 && !boss_done
            && cfg.boss_spawn_minutes@.contains(next.current_minute) && pool.has_room())
    }

    /// What an update adds to the world for the given draws: a regular enemy
    /// of the size the roll picks from the row in force, or a boss, each at
    /// the position and speed the draws give; nothing else when neither
    /// spawned.
    pub open spec fn spawn_placed(
        &self,
        next: &SpawningSystem,
        old_w: World,
        new_w: World,
        r: SpawnReport,
        regular: SpawnDraws,
        boss: SpawnDraws,
    ) -> bool {
        let cfg = self.spawn_configs@[self.config_index(next.current_minute as int)];
        &&& r.regular ==> placed(
            old_w,
            new_w,
            spawn_position(regular),
            spawn_velocity(regular),
            size_for_roll(cfg.size_weights, regular.size_roll as int),
        )
        &&& r.boss ==> placed(
            old_w,
            new_w,
            spawn_position(boss),
            spawn_velocity(boss),
            PossibleEnemySizes::BOSS,
        )
    }

    /// The counters after an update: the minute's counters start over on a
    /// rollover; a regular spawn resets the interval timer and counts one
    /// more; a boss spawn marks the minute's boss as done.
    pub open spec fn counters_after(&self, next: &SpawningSystem, delta: int, report: SpawnReport) -> bool {
        let minute = sat_add(self.elapsed_time as int, delta) / MINUTE_NS as int;
        let rolled = minute > self.current_minute;
        let spawned = if rolled {
            0
        } else {
            self.enemies_spawned_this_minute as int
        };
        let boss_done = if rolled {
            false
        } else {
            self.boss_spawned_this_minute
        };
        &&& next.time_since_last_spawn == if report.regular {
            0
        } else {
            sat_add(self.time_since_last_spawn as int, delta)
        }
        &&& next.enemies_spawned_this_minute == if report.regular {
            spawned + 1
        } else {
            spawned
        }
        &&& next.boss_spawned_this_minute == (boss_done || report.boss)
    }

    /// Advance the spawner by `delta_time` nanoseconds, taking its random
    /// values from `regular` (for a regular spawn) and `boss` (for a boss).
    ///
    /// A regular enemy spawns when the minute's spawn interval has passed
    /// since the last one and the minute's quota is not used up; a boss
    /// spawns when the current minute is listed for one, no regular enemy has
    /// spawned this minute and no boss yet. Either needs room in the pool.
    pub fn update_with(
        &mut self,
        delta_time: u64,
        world: &mut World,
        regular: &SpawnDraws,
        boss: &SpawnDraws,
    ) -> (r: SpawnReport)
        requires
            old(self).wf(),
            old(world).wf(),
            regular.valid(),
            boss.valid(),
        ensures
            final(self).wf(),
            final(world).wf(),
            old(self).clock_after(final(self), delta_time as int),
            old(self).counters_after(final(self), delta_time as int, r),
            old(self).spawn_decided(final(self), delta_time as int, old(world).enemies@, r),
            old(self).spawn_placed(final(self), *old(world), *final(world), r, *regular, *boss),
            !r.regular && !r.boss ==> final(world).enemies@ == old(world).enemies@
                && final(world).world_layout.same_cells(&old(world).world_layout),
            final(world).world_event_queue@ == old(world).world_event_queue@,
            final(world).player == old(world).player,
            enemy_tags_match(*old(world)) ==> enemy_tags_match(*final(world)),
            forall|q: ChunkPos, t: EntityType|
                cell_in_bounds(q) && !(t is Enemy) ==> (#[trigger] final(world).world_layout.at(
                    q,
                ).contains(t) <==> old(world).world_layout.at(q).contains(t)),
    {
        self.elapsed_time = sat_add_u64(self.elapsed_time, delta_time);
        self.time_since_last_spawn = sat_add_u64(self.time_since_last_spawn, delta_time);
        let new_minute = (self.elapsed_time / MINUTE_NS) as u32;
        if new_minute > self.current_minute {
            self.current_minute = new_minute;
            self.difficulty_multiplier = if self.difficulty_multiplier <= u64::MAX / 11 {
                self.difficulty_multiplier * 11 / 10
            } else {
                self.difficulty_multiplier
            };
            self.enemies_spawned_this_minute = 0;
            self.boss_spawned_this_minute = false;
        }
        let last = self.spawn_configs.len() - 1;
        let idx = if (self.current_minute as usize) < last {
            self.current_minute as usize
        } else {
            last
        };
        let epm = self.spawn_configs[idx].enemies_per_minute;
        let weights = self.spawn_configs[idx].size_weights;
        let spawn_interval = MINUTE_NS / (epm as u64);
        let mut report = SpawnReport { regular: false, boss: false };
        if self.time_since_last_spawn >= spawn_interval && self.enemies_spawned_this_minute < epm {
            let size = Self::get_random_size(&weights, regular.size_roll);
            let position = Self::get_random_position_ground_enemy(regular);
            let velocity = Self::get_random_velocity(regular);
            if place_enemy(world, position, velocity, size) {
                self.time_since_last_spawn = 0;
                self.enemies_spawned_this_minute = self.enemies_spawned_this_minute + 1;
                report.regular = true;
            }
        }
        if !report.regular && self.enemies_spawned_this_minute == 0 && !self.boss_spawned_this_minute
            && contains_u32(&self.spawn_configs[idx].boss_spawn_minutes, self.current_minute) {
            let position = Self::get_random_position_ground_enemy(boss);
            let velocity = Self::get_random_velocity(boss);
            if place_enemy(world, position, velocity, PossibleEnemySizes::BOSS) {
                self.boss_spawned_this_minute = true;
                report.boss = true;
            }
        }
        report
    }

    /// Advance the spawner by `delta_time` nanoseconds, drawing its random
    /// values from the process-wide generator.
    pub fn update(&mut self, delta_time: u64, world: &mut World) -> (r: SpawnReport)
        requires
            old(self).wf(),
            old(world).wf(),
        ensures
            final(self).wf(),
            final(world).wf(),
            old(self).clock_after(final(self), delta_time as int),
            old(self).counters_after(final(self), delta_time as int, r),
            old(self).spawn_decided(final(self), delta_time as int, old(world).enemies@, r),
            exists|regular: SpawnDraws, boss: SpawnDraws|
                regular.valid() && boss.valid() && #[trigger] old(self).spawn_placed(
                    final(self),
                    *old(world),
                    *final(world),
                    r,
                    regular,
                    boss,
                ),
            !r.regular && !r.boss ==> final(world).enemies@ == old(world).enemies@
                && final(world).world_layout.same_cells(&old(world).world_layout),
            final(world).world_event_queue@ == old(world).world_event_queue@,
            final(world).player == old(world).player,
            enemy_tags_match(*old(world)) ==> enemy_tags_match(*final(world)),
            forall|q: ChunkPos, t: EntityType|
                cell_in_bounds(q) && !(t is Enemy) ==> (#[trigger] final(world).world_layout.at(
                    q,
                ).contains(t) <==> old(world).world_layout.at(q).contains(t)),
    {
        let regular = Self::draw();
        let boss = Self::draw();
        self.update_with(delta_time, world, &regular, &boss)
    }
}

fn contains_u32(v: &Vec<u32>, x: u32) -> (r: bool)
    ensures
        r == v@.contains(x),
{
    let mut i: usize = 0;
    while i < v.len()
        invariant
            i <= v.len(),
            forall|j: int| 0 <= j < i ==> v@[j] != x,
        decreases v.len() - i,
    {
        if v[i] == x {
            assert(v@[i as int] == x);
            return true;
        }
        i = i + 1;
    }
    false
}

/// With only the first weight nonzero, every roll gives a small enemy.
pub proof fn lemma_only_small_weight(w: [u32; 4], roll: int)
    requires
        w[1] == 0,
        w[2] == 0,
        w[3] == 0,
    ensures
        size_for_roll(w, roll) == PossibleEnemySizes::SMALL,
{
}

/// At sixty enemies a minute the spawn interval is one second: after a
/// spawn, the next is due on the sixtieth tick and not before, provided
/// the minute's quota is not used up.
pub proof fn lemma_one_spawn_per_second(spawned: int)
    requires
        0 <= spawned < 60,
    ensures
        spawn_interval(60) == 1000000000,
        forall|k: int| 1 <= k < 60 ==> !#[trigger] spawn_due(k * TICK_NS, spawn_interval(60), spawned, 60),
        spawn_due(60 * TICK_NS as int, spawn_interval(60), spawned, 60),
{
    assert forall|k: int| 1 <= k < 60 implies !#[trigger] spawn_due(k * TICK_NS, spawn_interval(60), spawned, 60) by {
        assert(k * TICK_NS <= 59 * TICK_NS) by (nonlinear_arith)
            requires
                k < 60,
        ;
    }
}

} // verus!
