use voxel_arena::enemies::Enemies;
use voxel_arena::grid::WorldGrid;
use voxel_arena::movement::MovementSystem;
use voxel_arena::shooting::{shoot, shotgun_shoot};
use voxel_arena::types::{
    ChunkPos, ChunkVec3, EnemyHandle, EnemyType, EntityType, PossibleEnemySizes, Vec3, WorldEvent,
};
use voxel_arena::world::{Player, World};

fn at(x: i64, y: i64, z: i64) -> ChunkVec3 {
    ChunkVec3(Vec3 { x, y, z })
}

fn tag_tiles(grid: &mut WorldGrid, enemies: &Enemies, h: EnemyHandle) {
    let i = h.0 as usize;
    let half = Enemies::get_vec3_size(enemies.size[i]);
    for t in Enemies::get_occupied_tiles(&enemies.positions[i], &half) {
        grid.occupy(t, EntityType::Enemy(h));
    }
}

fn all_cells() -> Vec<ChunkPos> {
    let mut v = Vec::new();
    for x in 0..16u8 {
        for y in 0..16u8 {
            for z in 0..16u8 {
                v.push(ChunkPos::new(x, y, z));
            }
        }
    }
    v
}

#[test]
fn intersect_hitbox_uses_inclusive_half_extents() {
    let h = Vec3 { x: 250, y: 250, z: 250 };
    let a = Vec3 { x: 0, y: 0, z: 0 };
    assert!(MovementSystem::intersect_hitbox(&a, &h, &Vec3 { x: 500, y: -500, z: 500 }, &h));
    assert!(!MovementSystem::intersect_hitbox(&a, &h, &Vec3 { x: 501, y: 0, z: 0 }, &h));
    assert!(!MovementSystem::intersect_hitbox(&a, &h, &Vec3 { x: 0, y: 0, z: -501 }, &h));
}

#[test]
fn ground_enemy_falls_and_chases_player() {
    let mut world = World::new();
    let player = world.player.pos;
    MovementSystem::update_enemies(&player, &mut world.enemies, &mut world.world_layout);
    // chase speed (7000 - 3000) / 5 = 800 per second, 13 per tick; gravity 163 per
    // second gives 2 per tick; the second enemy chases at -1000, 16 per tick.
    assert_eq!(world.enemies.positions[0], at(3013, 7998, 3013));
    assert_eq!(world.enemies.positions[1], at(11984, 7998, 3013));
    // the tick's velocities are stored: chase speeds and one tick of gravity
    assert_eq!(world.enemies.velocities[0], Vec3 { x: 800, y: -163, z: 800 });
    assert_eq!(world.enemies.velocities[1], Vec3 { x: -1000, y: -163, z: 800 });
}

#[test]
fn enemy_resting_on_floor_does_not_sink() {
    let mut grid = WorldGrid::new();
    for x in 0..16u8 {
        for z in 0..16u8 {
            grid.occupy(ChunkPos::new(x, 0, z), EntityType::SolidBlock);
        }
    }
    let mut enemies = Enemies::new();
    let h = enemies.new_enemy(
        at(5000, 750, 5000),
        Vec3 { x: 0, y: 0, z: 0 },
        PossibleEnemySizes::SMALL,
        1,
        EnemyType::Flying,
    );
    MovementSystem::update_enemies(&at(7000, 1000, 7000), &mut enemies, &mut grid);
    assert_eq!(enemies.positions[h.0 as usize], at(5000, 750, 5000));
    // the floor blocks the fall, so the vertical speed is zeroed
    assert_eq!(enemies.velocities[h.0 as usize], Vec3 { x: 0, y: 0, z: 0 });
    assert!(grid.contains(ChunkPos::new(5, 1, 5), EntityType::Enemy(h)));
    assert!(grid.contains(ChunkPos::new(5, 0, 5), EntityType::SolidBlock));
}

#[test]
fn grid_tags_match_occupied_tiles_after_update() {
    let mut world = World::new();
    let v = Vec3 { x: 3000, y: 600, z: -2400 };
    let h = world.enemies.new_enemy(at(9400, 4600, 9500), v, PossibleEnemySizes::BOSS, 10, EnemyType::Flying);
    tag_tiles(&mut world.world_layout, &world.enemies, h);
    world.enemies.remove_enemy(EnemyHandle(1));
    let player = world.player.pos;
    for _ in 0..20 {
        MovementSystem::update_enemies(&player, &mut world.enemies, &mut world.world_layout);
    }
    for i in 0..world.enemies.positions.len() {
        let handle = EnemyHandle(i as u16);
        let live = world.enemies.e_type[i] != EnemyType::Empty;
        let half = Enemies::get_vec3_size(world.enemies.size[i]);
        let tiles = Enemies::get_occupied_tiles(&world.enemies.positions[i], &half);
        for c in all_cells() {
            let tagged = world.world_layout.contains(c, EntityType::Enemy(handle));
            assert_eq!(tagged, live && tiles.contains(&c));
        }
    }
}

#[test]
fn enemies_pushed_together_only_stop_on_that_axis() {
    let mut grid = WorldGrid::new();
    let mut enemies = Enemies::new();
    let a = enemies.new_enemy(
        at(3900, 5000, 5000),
        Vec3 { x: 6000, y: 163, z: 0 },
        PossibleEnemySizes::SMALL,
        1,
        EnemyType::Flying,
    );
    let b = enemies.new_enemy(
        at(4600, 5000, 5000),
        Vec3 { x: -6000, y: 163, z: 600 },
        PossibleEnemySizes::SMALL,
        1,
        EnemyType::Flying,
    );
    MovementSystem::update_enemies(&at(7000, 1000, 7000), &mut enemies, &mut grid);
    assert_eq!(enemies.positions[a.0 as usize], at(4000, 5000, 5000));
    // the second enemy is stopped on X by the first, but still moves on Z
    assert_eq!(enemies.positions[b.0 as usize], at(4600, 5000, 5010));
    // only the blocked axis loses its speed
    assert_eq!(enemies.velocities[b.0 as usize], Vec3 { x: 0, y: 0, z: 600 });
    assert_eq!(enemies.velocities[a.0 as usize], Vec3 { x: 6000, y: 0, z: 0 });
    let half = Vec3 { x: 250, y: 250, z: 250 };
    assert!(!MovementSystem::intersect_hitbox(
        &enemies.positions[a.0 as usize].0,
        &half,
        &enemies.positions[b.0 as usize].0,
        &half
    ));
}

#[test]
fn falling_enemy_accelerates() {
    let mut grid = WorldGrid::new();
    let mut enemies = Enemies::new();
    let h = enemies.new_enemy(at(5000, 9000, 5000), Vec3 { x: 0, y: 0, z: 0 }, PossibleEnemySizes::SMALL, 1, EnemyType::Flying);
    for _ in 0..3 {
        MovementSystem::update_enemies(&at(7000, 1000, 7000), &mut enemies, &mut grid);
    }
    assert_eq!(enemies.velocities[h.0 as usize].y, -489);
    // displacements -2, -5 and -8 per tick
    assert_eq!(enemies.positions[h.0 as usize].0.y, 8985);
}

#[test]
fn covered_cells_hold_one_tag_each() {
    let mut world = World::new();
    let h = world.enemies.new_enemy(at(8000, 8000, 8000), Vec3 { x: 0, y: 163, z: 0 }, PossibleEnemySizes::BOSS, 10, EnemyType::Cube);
    let player = world.player.pos;
    MovementSystem::update_enemies(&player, &mut world.enemies, &mut world.world_layout);
    let half = Enemies::get_vec3_size(PossibleEnemySizes::BOSS);
    let tiles = Enemies::get_occupied_tiles(&world.enemies.positions[h.0 as usize], &half);
    assert!(!tiles.is_empty());
    for c in all_cells() {
        let n = world.world_layout.cell(c).iter().filter(|t| **t == EntityType::Enemy(h)).count();
        assert_eq!(n, if tiles.contains(&c) { 1 } else { 0 });
    }
}

#[test]
fn enemy_next_position_clamps_into_world() {
    let grid = WorldGrid::new();
    let mut enemies = Enemies::new();
    enemies.new_enemy(at(500, 20000, 800), Vec3 { x: 0, y: 163, z: 0 }, PossibleEnemySizes::SMALL, 1, EnemyType::Cube);
    let (p, v) = MovementSystem::enemy_next_position(&at(0, 0, 0), &enemies, 0, &grid);
    assert_eq!(p, at(1000, 15000, 1000));
    // the top is out of reach, so the vertical speed is zeroed
    assert_eq!(v, Vec3 { x: 0, y: 0, z: 0 });
}

#[test]
fn player_falls_until_floor_then_stops() {
    let mut world = World::new();
    let mut pos = at(5000, 3000, 5000);
    let mut vel = Vec3 { x: 0, y: 0, z: 0 };
    MovementSystem::update_player(&mut pos, &mut vel, &world.enemies, &mut world.world_layout);
    // gravity gives -163 per second; five times that over one tick is -13
    assert_eq!(vel, Vec3 { x: 0, y: -163, z: 0 });
    assert_eq!(pos, at(5000, 2987, 5000));
    for _ in 0..600 {
        MovementSystem::update_player(&mut pos, &mut vel, &world.enemies, &mut world.world_layout);
    }
    assert_eq!(vel.y, 0);
    assert!(pos.0.y >= 1500 && pos.0.y < 1513);
    assert!(world.world_layout.contains(pos.to_chunk(), EntityType::Player));
}

#[test]
fn player_blocked_on_x_keeps_moving_on_z() {
    let mut world = World::new();
    world.world_layout.occupy(ChunkPos::new(6, 2, 5), EntityType::SolidBlock);
    let mut pos = at(5400, 2000, 5000);
    let mut vel = Vec3 { x: 12000, y: 163, z: 1200 };
    MovementSystem::update_player(&mut pos, &mut vel, &world.enemies, &mut world.world_layout);
    assert_eq!(vel.x, 0);
    assert_eq!(vel.z, 1200);
    assert_eq!(pos, at(5400, 2000, 5100));
}

#[test]
fn player_tags_follow_the_player() {
    let mut world = World::new();
    let mut pos = world.player.pos;
    let mut vel = Vec3 { x: 0, y: 0, z: 0 };
    MovementSystem::update_player(&mut pos, &mut vel, &world.enemies, &mut world.world_layout);
    let tiles = Enemies::get_occupied_tiles(&pos, &Vec3 { x: 500, y: 500, z: 500 });
    for c in all_cells() {
        assert_eq!(world.world_layout.contains(c, EntityType::Player), tiles.contains(&c));
    }
}

fn shooting_range() -> (Enemies, WorldGrid, EnemyHandle) {
    let mut grid = WorldGrid::new();
    let mut enemies = Enemies::new();
    let h = enemies.new_enemy(
        at(8000, 5000, 8000),
        Vec3 { x: 0, y: 0, z: 0 },
        PossibleEnemySizes::SMALL,
        1,
        EnemyType::Regular,
    );
    tag_tiles(&mut grid, &enemies, h);
    (enemies, grid, h)
}

#[test]
fn shot_along_axis_hits_enemy_center() {
    let (enemies, grid, h) = shooting_range();
    let r = shotgun_shoot(at(8000, 5000, 2000), Vec3 { x: 0, y: 0, z: 1000 }, &enemies, &grid);
    assert_eq!(r, Some(WorldEvent::HitEnemy(h)));
    let r = shotgun_shoot(at(14000, 5000, 8000), Vec3 { x: -3, y: 0, z: 0 }, &enemies, &grid);
    assert_eq!(r, Some(WorldEvent::HitEnemy(h)));
    let r = shotgun_shoot(at(8000, 14000, 8000), Vec3 { x: 0, y: -1000, z: 0 }, &enemies, &grid);
    assert_eq!(r, Some(WorldEvent::HitEnemy(h)));
}

#[test]
fn shot_away_from_enemies_misses() {
    let (enemies, grid, _) = shooting_range();
    let r = shotgun_shoot(at(8000, 5000, 2000), Vec3 { x: 0, y: 0, z: -1000 }, &enemies, &grid);
    assert_eq!(r, None);
    let r = shotgun_shoot(at(2000, 5000, 2000), Vec3 { x: 0, y: 1000, z: 0 }, &enemies, &grid);
    assert_eq!(r, None);
}

#[test]
fn shot_that_passes_beside_enemy_misses() {
    let (enemies, grid, _) = shooting_range();
    let r = shotgun_shoot(at(8300, 5000, 2000), Vec3 { x: 0, y: 0, z: 1000 }, &enemies, &grid);
    assert_eq!(r, None);
}

#[test]
fn shot_diagonal_hits_enemy() {
    let (enemies, grid, h) = shooting_range();
    let r = shotgun_shoot(at(2000, 5000, 2000), Vec3 { x: 1000, y: 0, z: 1000 }, &enemies, &grid);
    assert_eq!(r, Some(WorldEvent::HitEnemy(h)));
}

#[test]
fn closest_enemy_in_cell_wins() {
    let mut grid = WorldGrid::new();
    let mut enemies = Enemies::new();
    let v = Vec3 { x: 0, y: 0, z: 0 };
    let far = enemies.new_enemy(at(8000, 5000, 8200), v, PossibleEnemySizes::SMALL, 1, EnemyType::Regular);
    let near = enemies.new_enemy(at(8000, 5000, 7800), v, PossibleEnemySizes::SMALL, 1, EnemyType::Regular);
    let c = ChunkPos::new(8, 5, 8);
    grid.occupy(c, EntityType::Enemy(far));
    grid.occupy(c, EntityType::Enemy(near));
    let r = shotgun_shoot(at(8000, 5000, 2000), Vec3 { x: 0, y: 0, z: 1 }, &enemies, &grid);
    assert_eq!(r, Some(WorldEvent::HitEnemy(near)));
}

#[test]
fn shoot_wraps_the_hit_in_a_list() {
    let (enemies, grid, h) = shooting_range();
    let mut player = Player::new();
    player.pos = at(8000, 5000, 2000);
    assert_eq!(shoot(&player, Vec3 { x: 0, y: 0, z: 1 }, &enemies, &grid), vec![WorldEvent::HitEnemy(h)]);
    assert!(shoot(&player, Vec3 { x: 1, y: 0, z: 0 }, &enemies, &grid).is_empty());
}

#[test]
fn fire_queues_the_hit() {
    let mut world = World::new();
    world.player.pos = at(3000, 8000, 9000);
    world.fire(Vec3 { x: 0, y: 0, z: -1000 });
    assert_eq!(world.world_event_queue.len(), 1);
    assert_eq!(world.world_event_queue[0], WorldEvent::HitEnemy(EnemyHandle(0)));
}
