use vstd::prelude::*;
use std::collections::VecDeque;
use crate::enemies::{half_extent, in_tiles, splat, Enemies, EnemiesView};
use crate::events::{drain, event_step, follow_up};
use crate::grid::{copies, not_enemy, not_player, not_tag, WorldGrid};
use crate::movement::MovementSystem;
use crate::shooting::{dir_in_limit, shoot, shot_result};
use crate::spawning::{enemy_tags_match, SpawnDraws, SpawnReport, SpawningSystem, TICK_NS};
use crate::movement::{
    cells_at_turn, enemy_step, enemy_step_vel, player_half, player_step, pool_at_turn, tags_cell,
};
use crate::types::{
    cell_in_bounds, speed_in_limit, vec_in_limit, ChunkPos, ChunkVec3, CurrWeapon, EnemyHandle,
    EnemyType, EntityType, MaxWeapon, PossibleEnemySizes, Vec3, WeaponType, WorldEvent,
};

verus! {

/// A weapon the player can hold.
#[derive(Clone, Copy, Debug, PartialEq, Eq, Structural)]
pub struct Weapon {
    pub w_type: WeaponType,
}

impl Weapon {
    pub fn new_shotgun() -> (r: Weapon)
        ensures
            r.w_type == WeaponType::Shotgun,
    {
        Weapon { w_type: WeaponType::Shotgun }
    }
}

/// The player: position and velocity, and the weapons it carries.
pub struct Player {
    pub pos: ChunkVec3,
    pub vel: Vec3,
    pub weapon_unlocked: MaxWeapon,
    pub weapons: [Weapon; 1],
    pub curr_weapon: CurrWeapon,
}

/// Where the player starts: cell (7, 1, 7).
pub open spec fn initial_player_pos() -> ChunkVec3 {
    ChunkVec3(Vec3 { x: 7000, y: 1000, z: 7000 })
}

impl Player {
    /// A player at the start position, at rest, holding the shotgun.
    pub fn new() -> (r: Player)
        ensures
            r.pos == initial_player_pos(),
            r.vel == (Vec3 { x: 0, y: 0, z: 0 }),
            r.weapon_unlocked == MaxWeapon(1),
            r.curr_weapon == CurrWeapon(0),
            r.weapons[0].w_type == WeaponType::Shotgun,
    {
        Player {
            pos: ChunkVec3(Vec3 { x: 7000, y: 1000, z: 7000 }),
            vel: Vec3 { x: 0, y: 0, z: 0 },
            weapon_unlocked: MaxWeapon(1),
            weapons: [Weapon::new_shotgun()],
            curr_weapon: CurrWeapon(0),
        }
    }

    /// The weapon in hand.
    pub fn get_current_weapon(&self) -> (r: &Weapon)
        requires
            self.curr_weapon.0 < 1,
        ensures
            *r == self.weapons[self.curr_weapon.0 as int],
    {
        &self.weapons[self.curr_weapon.0]
    }

    /// Take the weapon of the given type in hand.
    pub fn swap_to_weapon(&mut self, w_type: WeaponType)
        ensures
            final(self).curr_weapon == CurrWeapon(0),
            final(self).pos == old(self).pos,
            final(self).vel == old(self).vel,
            final(self).weapons == old(self).weapons,
            final(self).weapon_unlocked == old(self).weapon_unlocked,
    {
        match w_type {
            WeaponType::Shotgun => {
                self.curr_weapon = CurrWeapon(0);
            },
        }
    }

    /// Cycle to the next weapon: the index advances modulo one less than the
    /// number unlocked.
    pub fn swap_next_weapon(&mut self)
        requires
            old(self).weapon_unlocked.0 >= 2,
            old(self).curr_weapon.0 < usize::MAX,
        ensures
            final(self).curr_weapon.0 == (old(self).curr_weapon.0 + 1) % (old(
                self,
            ).weapon_unlocked.0 - 1) as int,
            final(self).pos == old(self).pos,
            final(self).vel == old(self).vel,
            final(self).weapons == old(self).weapons,
            final(self).weapon_unlocked == old(self).weapon_unlocked,
    {
        self.curr_weapon = CurrWeapon((self.curr_weapon.0 + 1) % (self.weapon_unlocked.0 - 1));
    }
}

/// The positions of the solid blocks, which never move.
pub struct SolidBlocks {
    pub positions: Vec<ChunkVec3>,
}

impl SolidBlocks {
    pub fn new() -> (r: SolidBlocks)
        ensures
            r.positions@ == Seq::<ChunkVec3>::empty(),
    {
        SolidBlocks { positions: Vec::new() }
    }

    pub fn new_block(&mut self, pos: ChunkVec3)
        ensures
            final(self).positions@ == old(self).positions@.push(pos),
    {
        self.positions.push(pos);
    }
}

/// The whole simulation state: the player, the enemy pool, the blocks, the
/// grid, and the queue of events waiting for the next tick.
pub struct World {
    pub player: Player,
    pub enemies: Enemies,
    pub solid_blocks: SolidBlocks,
    pub world_layout: WorldGrid,
    pub world_event_queue: VecDeque<WorldEvent>,
}

/// The grid after killing enemy `h` of pool `ev`: if it was live, its tag
/// is gone from every cell its hitbox covers.
pub open spec fn grid_after_kill(
    old_grid: WorldGrid,
    new_grid: WorldGrid,
    ev: crate::enemies::EnemiesView,
    h: EnemyHandle,
) -> bool {
    forall|q: ChunkPos|
        cell_in_bounds(q) ==> #[trigger] new_grid.at(q) == if ev.is_live(h.0 as int) && in_tiles(
            ev.positions[h.0 as int],
            splat(half_extent(ev.size[h.0 as int])),
            q,
        ) {
            old_grid.at(q).filter(not_tag(EntityType::Enemy(h)))
        } else {
            old_grid.at(q)
        }
}

/// Whether tag `e` of cell `q` survives the kills that turned pool `before`
/// into pool `after`: an enemy's tag goes from the cells its hitbox covered
/// when it was live before and is not after; every other tag stays.
pub open spec fn survives_kills(before: EnemiesView, after: EnemiesView, q: ChunkPos) -> spec_fn(
    EntityType,
) -> bool {
    |e: EntityType|
        match e {
            EntityType::Enemy(h) => !(before.is_live(h.0 as int) && !after.is_live(h.0 as int)
                && in_tiles(
                before.positions[h.0 as int],
                splat(half_extent(before.size[h.0 as int])),
                q,
            )),
            _ => true,
        }
}

/// Killing an enemy keeps every live enemy's tags on its covered cells.
pub proof fn lemma_kill_keeps_tags(old_w: World, new_w: World, h: EnemyHandle)
    requires
        old_w.wf(),
        grid_after_kill(old_w.world_layout, new_w.world_layout, old_w.enemies@, h),
        new_w.enemies@ == event_step(old_w.enemies@, WorldEvent::KillEnemy(h)).0,
    ensures
        enemy_tags_match(old_w) ==> enemy_tags_match(new_w),
{
    let v = old_w.enemies@;
    if enemy_tags_match(old_w) {
        assert forall|q: ChunkPos, g: EnemyHandle| cell_in_bounds(q) implies (
        #[trigger] new_w.world_layout.at(q).contains(EntityType::Enemy(g))
            <==> crate::movement::tags_cell(new_w.enemies@, g, q)) by {
            assert(old_w.world_layout.at(q).contains(EntityType::Enemy(g))
                <==> crate::movement::tags_cell(v, g, q));
            let s = old_w.world_layout.at(q);
            if g == h {
                crate::grid::lemma_filter_excludes(s, not_tag(EntityType::Enemy(h)), EntityType::Enemy(g));
            } else {
                crate::grid::lemma_filter_keeps(s, not_tag(EntityType::Enemy(h)), EntityType::Enemy(g));
                if (g.0 as int) < v.len() && v.is_live(h.0 as int) {
                    assert(g.0 != h.0);
                    assert(new_w.enemies@.e_type[g.0 as int] == v.e_type[g.0 as int]);
                }
            }
        }
    }
}

/// The first stage of a tick: every queued event handled. The pool is the
/// drained pool, each killed enemy's tags are gone from its covered cells,
/// and nothing else changed.
pub open spec fn events_handled(w0: World, w1: World) -> bool {
    &&& w1.enemies@ == drain(w0.enemies@, w0.world_event_queue@)
    &&& w1.world_event_queue@.len() == 0
    &&& w1.player == w0.player
    &&& forall|q: ChunkPos|
        cell_in_bounds(q) ==> #[trigger] w1.world_layout.at(q) == w0.world_layout.at(q).filter(
            survives_kills(w0.enemies@, w1.enemies@, q),
        )
}

/// The second stage: the player moves as `player_step` says, and its tags
/// move to the cells it now covers.
pub open spec fn player_moved(w1: World, w2: World) -> bool {
    &&& (w2.player.pos, w2.player.vel) == player_step(
        w1.player.pos,
        w1.player.vel,
        w1.enemies@,
        w1.world_layout,
    )
    &&& w2.enemies@ == w1.enemies@
    &&& forall|q: ChunkPos|
        cell_in_bounds(q) ==> (#[trigger] w2.world_layout.at(q)).filter(not_player())
            == w1.world_layout.at(q).filter(not_player())
    &&& forall|q: ChunkPos|
        cell_in_bounds(q) ==> (#[trigger] w2.world_layout.at(q).contains(EntityType::Player)
            <==> in_tiles(w2.player.pos, player_half(), q))
}

/// The third stage: every live enemy moves as `enemy_step` says and keeps
/// the velocity `enemy_step_vel` gives, in handle order; the grid's enemy
/// tags are rebuilt, one per covered cell, and no other tag changes.
pub open spec fn enemies_moved(w2: World, w3: World) -> bool {
    let p = w2.player.pos;
    &&& w3.player == w2.player
    &&& w3.enemies@.e_type == w2.enemies@.e_type
    &&& w3.enemies@.size == w2.enemies@.size
    &&& w3.enemies@.healths == w2.enemies@.healths
    &&& w3.enemies@.len() == w2.enemies@.len()
    &&& forall|i: int|
        0 <= i < w2.enemies@.len() && !w2.enemies@.is_live(i) ==> w3.enemies@.positions[i]
            == w2.enemies@.positions[i] && w3.enemies@.velocities[i] == w2.enemies@.velocities[i]
    &&& forall|i: int|
        w2.enemies@.is_live(i) ==> #[trigger] w3.enemies@.positions[i] == enemy_step(
            p,
            pool_at_turn(w2.enemies@, w3.enemies@, i),
            i,
            cells_at_turn(w2.world_layout, w3.enemies@, i),
        ) && w3.enemies@.velocities[i] == enemy_step_vel(
            p,
            pool_at_turn(w2.enemies@, w3.enemies@, i),
            i,
            cells_at_turn(w2.world_layout, w3.enemies@, i),
        )
    &&& forall|q: ChunkPos|
        cell_in_bounds(q) ==> (#[trigger] w3.world_layout.at(q)).filter(not_enemy())
            == w2.world_layout.at(q).filter(not_enemy())
    &&& forall|q: ChunkPos, h: EnemyHandle|
        cell_in_bounds(q) ==> #[trigger] copies(w3.world_layout.at(q), EntityType::Enemy(h)) == if tags_cell(
            w3.enemies@,
            h,
            q,
        ) {
            1nat
        } else {
            0nat
        }
}

/// The stages of one tick, from `w0` through `w1`, `w2` and `w3`, to `w4`
/// after the spawner's step `r` with the given draws.
pub open spec fn tick_stages(
    w0: World,
    w1: World,
    w2: World,
    w3: World,
    w4: World,
    s0: &SpawningSystem,
    s1: &SpawningSystem,
    r: SpawnReport,
    regular: SpawnDraws,
    boss: SpawnDraws,
) -> bool {
    &&& events_handled(w0, w1)
    &&& player_moved(w1, w2)
    &&& enemies_moved(w2, w3)
    &&& s0.spawn_decided(s1, TICK_NS as int, w3.enemies@, r)
    &&& regular.valid() && boss.valid()
    &&& s0.spawn_placed(s1, w3, w4, r, regular, boss)
}

proof fn lemma_filter_all(s: Seq<EntityType>, f: spec_fn(EntityType) -> bool)
    requires
        forall|e: EntityType| #[trigger] f(e),
    ensures
        s.filter(f) == s,
    decreases s.len(),
{
    reveal(Seq::filter);
    if s.len() > 0 {
        lemma_filter_all(s.drop_last(), f);
        assert(s.drop_last().push(s.last()) =~= s);
    }
}

/// One kill during a drain keeps the grid equal to the starting grid with
/// the tags of every enemy killed so far removed from its covered cells.
proof fn lemma_kill_filters(
    start: EnemiesView,
    cur: EnemiesView,
    next: EnemiesView,
    g_cur: WorldGrid,
    g_next: WorldGrid,
    g_start: WorldGrid,
    h: EnemyHandle,
)
    requires
        cur.positions == start.positions,
        cur.size == start.size,
        cur.len() == start.len(),
        start.wf(),
        forall|g: int| #[trigger] cur.is_live(g) ==> start.is_live(g),
        next == event_step(cur, WorldEvent::KillEnemy(h)).0,
        grid_after_kill(g_cur, g_next, cur, h),
        forall|q: ChunkPos|
            cell_in_bounds(q) ==> #[trigger] g_cur.at(q) == g_start.at(q).filter(
                survives_kills(start, cur, q),
            ),
    ensures
        forall|q: ChunkPos|
            cell_in_bounds(q) ==> #[trigger] g_next.at(q) == g_start.at(q).filter(
                survives_kills(start, next, q),
            ),
        forall|g: int| #[trigger] next.is_live(g) ==> start.is_live(g),
        next.positions == start.positions,
        next.size == start.size,
        next.len() == start.len(),
{
    assert forall|q: ChunkPos| cell_in_bounds(q) implies #[trigger] g_next.at(q) == g_start.at(
        q,
    ).filter(survives_kills(start, next, q)) by {
        let s = g_start.at(q);
        let fc = survives_kills(start, cur, q);
        let fnx = survives_kills(start, next, q);
        let nt = not_tag(EntityType::Enemy(h));
        if cur.is_live(h.0 as int) && in_tiles(
            cur.positions[h.0 as int],
            splat(half_extent(cur.size[h.0 as int])),
            q,
        ) {
            crate::grid::lemma_filter_and(s, fc, nt);
            assert((|e: EntityType| fc(e) && nt(e)) =~= fnx);
        } else {
            assert(fc =~= fnx);
        }
    }
    assert forall|g: int| #[trigger] next.is_live(g) implies start.is_live(g) by {
        if g != h.0 as int {
            assert(next.is_live(g) == cur.is_live(g));
        }
    }
}

impl World {
    pub open spec fn wf(&self) -> bool {
        &&& self.enemies@.wf()
        &&& self.world_layout.wf()
        &&& vec_in_limit(self.player.pos.0)
        &&& speed_in_limit(self.player.vel)
    }

    /// The starting world: a floor of solid blocks on layer zero, the player
    /// at cell (7, 1, 7), and two small ground enemies at cells (3, 8, 3) and
    /// (12, 8, 3) heading toward each other.
    pub fn new() -> (r: World)
        ensures
            r.wf(),
            r.world_event_queue@.len() == 0,
            r.player.pos == initial_player_pos(),
            r.enemies@.len() == 2,
            r.enemies@.e_type == seq![EnemyType::Regular, EnemyType::Regular],
            r.enemies@.positions == seq![
                ChunkVec3(Vec3 { x: 3000, y: 8000, z: 3000 }),
                ChunkVec3(Vec3 { x: 12000, y: 8000, z: 3000 }),
            ],
            r.enemies@.velocities == seq![
                Vec3 { x: 1000i64, y: 0i64, z: 0i64 },
                Vec3 { x: -1000i64, y: 0i64, z: 0i64 },
            ],
            r.enemies@.size == seq![PossibleEnemySizes::SMALL, PossibleEnemySizes::SMALL],
            r.enemies@.healths == seq![1u8, 1u8],
            r.solid_blocks.positions@.len() == 256,
            forall|q: ChunkPos|
                cell_in_bounds(q) ==> (#[trigger] r.world_layout.at(q).contains(EntityType::SolidBlock)
                    <==> q.y == 0),
            forall|q: ChunkPos|
                cell_in_bounds(q) ==> (#[trigger] r.world_layout.at(q).contains(EntityType::Player)
                    <==> q == ChunkPos { x: 7, y: 1, z: 7 }),
            enemy_tags_match(r),
    {
        let mut grid = WorldGrid::new();
        let start = ChunkPos::new(7, 1, 7);
        grid.occupy(start, EntityType::Player);
        proof {
            assert forall|q: ChunkPos| cell_in_bounds(q) implies (#[trigger] grid.at(q).contains(EntityType::Player)
                <==> q == ChunkPos { x: 7, y: 1, z: 7 }) by {
                if q != start {
                    assert(grid.at(q) =~= Seq::<EntityType>::empty());
                }
            }
            assert forall|q: ChunkPos| cell_in_bounds(q) implies !(#[trigger] grid.at(q).contains(EntityType::SolidBlock)) by {
                if q != start {
                    assert(grid.at(q) =~= Seq::<EntityType>::empty());
                }
            }
            assert forall|q: ChunkPos, h: EnemyHandle| cell_in_bounds(q) implies !#[trigger] grid.at(q).contains(EntityType::Enemy(h)) by {
                if q != start {
                    assert(grid.at(q) =~= Seq::<EntityType>::empty());
                }
            }
        }
        let mut solid_blocks = SolidBlocks::new();
        let mut x: u8 = 0;
        while x < 16
            invariant
                grid.wf(),
                x <= 16,
                solid_blocks.positions@.len() == 16 * x,
                forall|q: ChunkPos|
                    cell_in_bounds(q) ==> (#[trigger] grid.at(q).contains(EntityType::SolidBlock)
                        <==> (q.y == 0 && q.x < x)),
                forall|q: ChunkPos|
                    cell_in_bounds(q) ==> (#[trigger] grid.at(q).contains(EntityType::Player)
                        <==> q == ChunkPos { x: 7, y: 1, z: 7 }),
                forall|q: ChunkPos, h: EnemyHandle|
                    cell_in_bounds(q) ==> !#[trigger] grid.at(q).contains(EntityType::Enemy(h)),
            decreases 16 - x,
        {
            let mut z: u8 = 0;
            while z < 16
                invariant
                    grid.wf(),
                    x < 16,
                    z <= 16,
                    solid_blocks.positions@.len() == 16 * x + z,
                    forall|q: ChunkPos|
                        cell_in_bounds(q) ==> (#[trigger] grid.at(q).contains(EntityType::SolidBlock)
                            <==> (q.y == 0 && (q.x < x || (q.x == x && q.z < z)))),
                    forall|q: ChunkPos|
                        cell_in_bounds(q) ==> (#[trigger] grid.at(q).contains(EntityType::Player)
                            <==> q == ChunkPos { x: 7, y: 1, z: 7 }),
                    forall|q: ChunkPos, h: EnemyHandle|
                        cell_in_bounds(q) ==> !#[trigger] grid.at(q).contains(EntityType::Enemy(h)),
                decreases 16 - z,
            {
                let c = ChunkPos::new(x, 0, z);
                let ghost before = grid;
                grid.occupy(c, EntityType::SolidBlock);
                proof {
                    assert forall|q: ChunkPos| cell_in_bounds(q) implies (#[trigger] grid.at(q).contains(EntityType::SolidBlock)
                        <==> (q.y == 0 && (q.x < x || (q.x == x && q.z < z + 1)))) by {
                        if q != c {
                            assert(grid.at(q) == before.at(q));
                        }
                    }
                    assert forall|q: ChunkPos| cell_in_bounds(q) implies (#[trigger] grid.at(q).contains(EntityType::Player)
                        <==> q == ChunkPos { x: 7, y: 1, z: 7 }) by {
                        if q != c {
                            assert(grid.at(q) == before.at(q));
                        }
                    }
                    assert forall|q: ChunkPos, h: EnemyHandle| cell_in_bounds(q) implies !#[trigger] grid.at(q).contains(EntityType::Enemy(h)) by {
                        if q != c {
                            assert(grid.at(q) == before.at(q));
                        }
                    }
                }
                solid_blocks.new_block(ChunkVec3(Vec3 { x: x as i64 * 1000, y: 0, z: z as i64 * 1000 }));
                z = z + 1;
            }
            x = x + 1;
        }
        let mut enemies = Enemies::new();
        let first = ChunkVec3(Vec3 { x: 3000, y: 8000, z: 3000 });
        let second = ChunkVec3(Vec3 { x: 12000, y: 8000, z: 3000 });
        proof {
            crate::enemies::lemma_first_free_bounds(enemies@.e_type);
        }
        let h0 = enemies.new_enemy(
            first,
            Vec3 { x: 1000, y: 0, z: 0 },
            PossibleEnemySizes::SMALL,
            1,
            EnemyType::Regular,
        );
        proof {
            crate::enemies::lemma_first_free_bounds(enemies@.e_type);
        }
        let h1 = enemies.new_enemy(
            second,
            Vec3 { x: -1000, y: 0, z: 0 },
            PossibleEnemySizes::SMALL,
            1,
            EnemyType::Regular,
        );
        proof {
            assert(enemies@.e_type =~= seq![EnemyType::Regular, EnemyType::Regular]);
            assert(enemies@.positions =~= seq![first, second]);
            assert(enemies@.velocities =~= seq![Vec3 { x: 1000i64, y: 0i64, z: 0i64 }, Vec3 { x: -1000i64, y: 0i64, z: 0i64 }]);
            assert(enemies@.size =~= seq![PossibleEnemySizes::SMALL, PossibleEnemySizes::SMALL]);
            assert(enemies@.healths =~= seq![1u8, 1u8]);
        }
        let ghost g1 = grid;
        let c0 = ChunkPos::new(3, 8, 3);
        let c1 = ChunkPos::new(12, 8, 3);
        grid.occupy(c0, EntityType::Enemy(h0));
        let ghost g2 = grid;
        grid.occupy(c1, EntityType::Enemy(h1));
        proof {
            assert forall|q: ChunkPos| cell_in_bounds(q) implies (#[trigger] grid.at(q).contains(EntityType::SolidBlock)
                <==> g1.at(q).contains(EntityType::SolidBlock)) && (grid.at(q).contains(EntityType::Player)
                <==> g1.at(q).contains(EntityType::Player)) by {
                if q != c0 {
                    assert(g2.at(q) == g1.at(q));
                }
                if q != c1 {
                    assert(grid.at(q) == g2.at(q));
                }
            }
            assert forall|q: ChunkPos, h: EnemyHandle| cell_in_bounds(q) implies (
            #[trigger] grid.at(q).contains(EntityType::Enemy(h)) <==> crate::movement::tags_cell(
                enemies@,
                h,
                q,
            )) by {
                if q != c0 {
                    assert(g2.at(q) == g1.at(q));
                }
                if q != c1 {
                    assert(grid.at(q) == g2.at(q));
                }
                assert(!g1.at(q).contains(EntityType::Enemy(h)));
                if (h.0 as int) < 2 {
                    assert(enemies@.size[h.0 as int] == PossibleEnemySizes::SMALL);
                }
            }
        }
        let r = World {
            player: Player::new(),
            enemies,
            solid_blocks,
            world_layout: grid,
            world_event_queue: VecDeque::new(),
        };
        r
    }

    /// Kill enemy `h`: remove its tag from the cells its hitbox covers, then
    /// tombstone its slot. Free or unknown handles are ignored.
    pub fn remove_enemy(&mut self, h: EnemyHandle)
        requires
            old(self).wf(),
        ensures
            final(self).wf(),
            final(self).enemies@ == event_step(old(self).enemies@, WorldEvent::KillEnemy(h)).0,
            grid_after_kill(old(self).world_layout, final(self).world_layout, old(self).enemies@, h),
            final(self).world_event_queue@ == old(self).world_event_queue@,
            final(self).player == old(self).player,
            final(self).solid_blocks == old(self).solid_blocks,
            enemy_tags_match(*old(self)) ==> enemy_tags_match(*final(self)),
    {
        let index = h.0 as usize;
        if index < self.enemies.e_type.len() && self.enemies.e_type[index] != EnemyType::Empty {
            let position = self.enemies.positions[index];
            let half = Enemies::get_vec3_size(self.enemies.size[index]);
            let tiles = Enemies::get_occupied_tiles(&position, &half);
            let tag = EntityType::Enemy(h);
            let ghost g0 = self.world_layout;
            let mut k: usize = 0;
            while k < tiles.len()
                invariant
                    self.world_layout.wf(),
                    self.player == old(self).player,
                    self.solid_blocks == old(self).solid_blocks,
                    self.enemies@ == old(self).enemies@,
                    self.world_event_queue@ == old(self).world_event_queue@,
                    index < self.enemies@.len(),
                    k <= tiles.len(),
                    forall|c: ChunkPos| tiles@.contains(c) <==> in_tiles(position, half, c),
                    forall|q: ChunkPos|
                        cell_in_bounds(q) ==> #[trigger] self.world_layout.at(q) == if tiles@.subrange(
                            0,
                            k as int,
                        ).contains(q) {
                            g0.at(q).filter(not_tag(tag))
                        } else {
                            g0.at(q)
                        },
                decreases tiles.len() - k,
            {
                let t = tiles[k];
                proof {
                    assert(tiles@.contains(t));
                }
                let ghost before = self.world_layout;
                self.world_layout.vacate(t, tag);
                proof {
                    crate::grid::lemma_filter_twice(g0.at(t), not_tag(tag));
                    let pre = tiles@.subrange(0, k as int);
                    let post = tiles@.subrange(0, k as int + 1);
                    assert forall|q: ChunkPos| #[trigger] post.contains(q) <==> (pre.contains(q)
                        || q == t) by {
                        if q == t {
                            assert(post[k as int] == t);
                        }
                        if pre.contains(q) {
                            let j = choose|j: int| 0 <= j < pre.len() && pre[j] == q;
                            assert(post[j] == q);
                        }
                        if post.contains(q) && q != t {
                            let j = choose|j: int| 0 <= j < post.len() && post[j] == q;
                            assert(pre[j] == q);
                        }
                    }
                }
                k = k + 1;
            }
            proof {
                assert(tiles@.subrange(0, tiles.len() as int) =~= tiles@);
            }
            self.enemies.remove_enemy(h);
            proof {
                lemma_kill_keeps_tags(*old(self), *self, h);
            }
        }
    }

    /// Handle every queued event, front to back, including the kills that
    /// hits queue at the back, until the queue is empty.
    pub fn handle_world_events(&mut self)
        requires
            old(self).wf(),
        ensures
            final(self).wf(),
            final(self).world_event_queue@.len() == 0,
            final(self).enemies@ == drain(old(self).enemies@, old(self).world_event_queue@),
            final(self).player == old(self).player,
            final(self).solid_blocks == old(self).solid_blocks,
            enemy_tags_match(*old(self)) ==> enemy_tags_match(*final(self)),
            forall|q: ChunkPos|
                cell_in_bounds(q) ==> #[trigger] final(self).world_layout.at(q) == old(
                    self,
                ).world_layout.at(q).filter(
                    survives_kills(old(self).enemies@, final(self).enemies@, q),
                ),
    {
        proof {
            assert forall|q: ChunkPos| cell_in_bounds(q) implies #[trigger] self.world_layout.at(q)
                == old(self).world_layout.at(q).filter(
                survives_kills(old(self).enemies@, self.enemies@, q),
            ) by {
                let s = old(self).world_layout.at(q);
                let f = survives_kills(old(self).enemies@, self.enemies@, q);
                assert forall|e: EntityType| #[trigger] f(e) by {}
                lemma_filter_all(s, f);
            }
        }
        loop
            invariant
                self.wf(),
                self.player == old(self).player,
                self.solid_blocks == old(self).solid_blocks,
                old(self).enemies@.wf(),
                self.enemies@.positions == old(self).enemies@.positions,
                self.enemies@.size == old(self).enemies@.size,
                self.enemies@.len() == old(self).enemies@.len(),
                forall|g: int| #[trigger] self.enemies@.is_live(g) ==> old(self).enemies@.is_live(g),
                forall|q: ChunkPos|
                    cell_in_bounds(q) ==> #[trigger] self.world_layout.at(q) == old(
                        self,
                    ).world_layout.at(q).filter(
                        survives_kills(old(self).enemies@, self.enemies@, q),
                    ),
                enemy_tags_match(*old(self)) ==> enemy_tags_match(*self),
                drain(self.enemies@, self.world_event_queue@) == drain(
                    old(self).enemies@,
                    old(self).world_event_queue@,
                ),
            ensures
                self.wf(),
                self.player == old(self).player,
                self.solid_blocks == old(self).solid_blocks,
                forall|q: ChunkPos|
                    cell_in_bounds(q) ==> #[trigger] self.world_layout.at(q) == old(
                        self,
                    ).world_layout.at(q).filter(
                        survives_kills(old(self).enemies@, self.enemies@, q),
                    ),
                enemy_tags_match(*old(self)) ==> enemy_tags_match(*self),
                self.world_event_queue@.len() == 0,
                drain(self.enemies@, self.world_event_queue@) == drain(
                    old(self).enemies@,
                    old(self).world_event_queue@,
                ),
            decreases crate::events::weight(self.world_event_queue@),
        {
            let ghost q = self.world_event_queue@;
            let ghost v = self.enemies@;
            let ghost g0 = self.world_layout;
            match self.world_event_queue.pop_front() {
                None => {
                    break;
                },
                Some(event) => {
                    proof {
                        assert(self.world_event_queue@ =~= q.drop_first());
                        crate::events::lemma_weight_concat(
                            q.drop_first(),
                            follow_up(event_step(v, event).1),
                        );
                        reveal_with_fuel(crate::events::weight, 2);
                    }
                    match event {
                        WorldEvent::KillEnemy(h) => {
                            self.remove_enemy(h);
                            proof {
                                lemma_kill_filters(old(self).enemies@, v, self.enemies@, g0, self.world_layout, old(self).world_layout, h);
                                assert(self.world_event_queue@ =~= q.drop_first() + follow_up(
                                    event_step(v, event).1,
                                ));
                            }
                        },
                        WorldEvent::HitEnemy(h) => {
                            let index = h.0 as usize;
                            if index < self.enemies.e_type.len() && self.enemies.e_type[index]
                                != EnemyType::Empty {
                                if self.enemies.healths[index] > 1 {
                                    let hp = self.enemies.healths[index];
                                    self.enemies.healths.set(index, hp - 1);
                                    proof {
                                        assert(self.enemies@ =~= event_step(v, event).0);
                                    }
                                } else {
                                    self.world_event_queue.push_back(WorldEvent::KillEnemy(h));
                                }
                            }
                            proof {
                                assert(self.world_event_queue@ =~= q.drop_first() + follow_up(
                                    event_step(v, event).1,
                                ));
                                assert forall|g: int| #[trigger] self.enemies@.is_live(g) == v.is_live(g) by {}
                                assert forall|q: ChunkPos| cell_in_bounds(q) implies #[trigger] self.world_layout.at(q)
                                    == old(self).world_layout.at(q).filter(
                                    survives_kills(old(self).enemies@, self.enemies@, q),
                                ) by {
                                    assert(survives_kills(old(self).enemies@, self.enemies@, q) =~= survives_kills(old(self).enemies@, v, q));
                                }
                            }
                        },
                    }
                },
            }
        }
    }

    /// Fire the weapon in hand along `dir` and queue the events the shot
    /// causes; they take effect at the start of the next tick.
    pub fn fire(&mut self, dir: Vec3)
        requires
            old(self).wf(),
            dir_in_limit(dir),
            old(self).player.curr_weapon.0 < 1,
        ensures
            final(self).wf(),
            final(self).enemies@ == old(self).enemies@,
            final(self).world_layout == old(self).world_layout,
            final(self).player == old(self).player,
            final(self).solid_blocks == old(self).solid_blocks,
            final(self).world_event_queue@ == old(self).world_event_queue@ + match shot_result(
                old(self).player.pos,
                dir,
                old(self).enemies@,
                old(self).world_layout,
            ) {
                Some(h) => seq![WorldEvent::HitEnemy(h)],
                None => Seq::<WorldEvent>::empty(),
            },
    {
        let events = shoot(&self.player, dir, &self.enemies, &self.world_layout);
        let ghost q0 = self.world_event_queue@;
        let mut k: usize = 0;
        while k < events.len()
            invariant
                self.wf(),
                self.enemies@ == old(self).enemies@,
                self.world_layout == old(self).world_layout,
                self.player == old(self).player,
                self.solid_blocks == old(self).solid_blocks,
                k <= events.len(),
                self.world_event_queue@ == q0 + events@.subrange(0, k as int),
            decreases events.len() - k,
        {
            self.world_event_queue.push_back(events[k]);
            proof {
                assert(q0 + events@.subrange(0, k as int + 1) =~= (q0 + events@.subrange(0, k as int)).push(events@[k as int]));
            }
            k = k + 1;
        }
        proof {
            assert(events@.subrange(0, events.len() as int) =~= events@);
        }
    }

    /// One fixed tick: handle the queued events, move the player, move the
    /// enemies, then let the spawner advance by one tick.
    pub fn update(&mut self, spawner: &mut SpawningSystem) -> (r: SpawnReport)
        requires
            old(self).wf(),
            old(spawner).wf(),
        ensures
            final(self).wf(),
            final(spawner).wf(),
            final(self).world_event_queue@.len() == 0,
            old(spawner).clock_after(final(spawner), TICK_NS as int),
            old(spawner).counters_after(final(spawner), TICK_NS as int, r),
            enemy_tags_match(*final(self)),
            forall|q: ChunkPos|
                cell_in_bounds(q) ==> (#[trigger] final(self).world_layout.at(q).contains(
                    EntityType::Player,
                ) <==> in_tiles(final(self).player.pos, player_half(), q)),
            exists|w1: World, w2: World, w3: World, regular: SpawnDraws, boss: SpawnDraws|
                #[trigger] tick_stages(
                    *old(self),
                    w1,
                    w2,
                    w3,
                    *final(self),
                    old(spawner),
                    final(spawner),
                    r,
                    regular,
                    boss,
                ),
    {
        self.handle_world_events();
        let ghost w1 = *self;
        MovementSystem::update_player(
            &mut self.player.pos,
            &mut self.player.vel,
            &self.enemies,
            &mut self.world_layout,
        );
        let ghost g1 = self.world_layout;
        let ghost w2 = *self;
        MovementSystem::update_enemies(&self.player.pos, &mut self.enemies, &mut self.world_layout);
        let ghost w3 = *self;
        proof {
            assert forall|q: ChunkPos| cell_in_bounds(q) implies (#[trigger] self.world_layout.at(
                q,
            ).contains(EntityType::Player) <==> g1.at(q).contains(EntityType::Player)) by {
                crate::grid::lemma_filter_keeps(self.world_layout.at(q), not_enemy(), EntityType::Player);
                crate::grid::lemma_filter_keeps(g1.at(q), not_enemy(), EntityType::Player);
            }
        }
        let r = spawner.update(TICK_NS, self);
        proof {
            assert(events_handled(*old(self), w1));
            assert(player_moved(w1, w2));
            assert(enemies_moved(w2, w3));
            let (regular, boss) = choose|regular: SpawnDraws, boss: SpawnDraws|
                regular.valid() && boss.valid() && #[trigger] old(spawner).spawn_placed(
                    final(spawner),
                    w3,
                    *self,
                    r,
                    regular,
                    boss,
                );
            assert(tick_stages(*old(self), w1, w2, w3, *self, old(spawner), final(spawner), r, regular, boss));
        }
        r
    }
}

} // verus!
