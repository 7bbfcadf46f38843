use voxel_arena::enemies::Enemies;
use voxel_arena::spawning::{SpawnConfig, SpawnDraws, SpawningSystem, MINUTE_NS, TICK_NS};
use voxel_arena::types::{
    ChunkPos, ChunkVec3, EnemyHandle, EnemyType, EntityType, PossibleEnemySizes, Vec3, WorldEvent,
};
use voxel_arena::world::{Player, SolidBlocks, World};
use voxel_arena::types::{CurrWeapon, MaxWeapon, WeaponType};

fn at(x: i64, y: i64, z: i64) -> ChunkVec3 {
    ChunkVec3(Vec3 { x, y, z })
}

fn spawner_with(config: SpawnConfig) -> SpawningSystem {
    let mut s = SpawningSystem::new();
    s.spawn_configs = vec![config];
    s
}

fn draws(size_roll: u32) -> SpawnDraws {
    SpawnDraws { size_roll, near_x: true, off_x: 100, near_z: false, off_z: 1999, vel_x: 0, vel_z: 1999 }
}

#[test]
fn world_starts_with_floor_player_and_two_enemies() {
    let world = World::new();
    assert_eq!(world.solid_blocks.positions.len(), 256);
    assert!(world.world_layout.contains(ChunkPos::new(0, 0, 15), EntityType::SolidBlock));
    assert!(!world.world_layout.contains(ChunkPos::new(0, 1, 15), EntityType::SolidBlock));
    assert!(world.world_layout.contains(ChunkPos::new(7, 1, 7), EntityType::Player));
    assert!(world.world_layout.contains(ChunkPos::new(3, 8, 3), EntityType::Enemy(EnemyHandle(0))));
    assert!(world.world_layout.contains(ChunkPos::new(12, 8, 3), EntityType::Enemy(EnemyHandle(1))));
    assert_eq!(world.enemies.positions, vec![at(3000, 8000, 3000), at(12000, 8000, 3000)]);
    assert_eq!(world.player.pos, at(7000, 1000, 7000));
    assert!(world.world_event_queue.is_empty());
}

#[test]
fn hits_until_dead_then_ignored() {
    let mut world = World::new();
    let h = EnemyHandle(0);
    world.enemies.healths[0] = 3;
    for expected in [2u8, 1u8] {
        world.world_event_queue.push_back(WorldEvent::HitEnemy(h));
        world.handle_world_events();
        assert_eq!(world.enemies.healths[0], expected);
        assert_eq!(world.enemies.e_type[0], EnemyType::Regular);
    }
    world.world_event_queue.push_back(WorldEvent::HitEnemy(h));
    world.handle_world_events();
    assert_eq!(world.enemies.e_type[0], EnemyType::Empty);
    assert!(!world.world_layout.contains(ChunkPos::new(3, 8, 3), EntityType::Enemy(h)));
    assert!(world.world_event_queue.is_empty());
    let before_health = world.enemies.healths.clone();
    world.world_event_queue.push_back(WorldEvent::HitEnemy(h));
    world.handle_world_events();
    assert_eq!(world.enemies.healths, before_health);
    assert_eq!(world.enemies.e_type[0], EnemyType::Empty);
    assert_eq!(world.enemies.e_type[1], EnemyType::Regular);
}

#[test]
fn several_hits_in_one_queue() {
    let mut world = World::new();
    world.enemies.healths[1] = 2;
    for _ in 0..3 {
        world.world_event_queue.push_back(WorldEvent::HitEnemy(EnemyHandle(1)));
    }
    world.world_event_queue.push_back(WorldEvent::HitEnemy(EnemyHandle(40)));
    world.handle_world_events();
    assert_eq!(world.enemies.e_type[1], EnemyType::Empty);
    assert_eq!(world.enemies.e_type[0], EnemyType::Regular);
    assert!(world.world_event_queue.is_empty());
}

#[test]
fn kill_removes_only_that_enemys_tags() {
    let mut world = World::new();
    let c = ChunkPos::new(3, 8, 3);
    world.world_layout.occupy(c, EntityType::Enemy(EnemyHandle(1)));
    world.remove_enemy(EnemyHandle(0));
    assert_eq!(world.world_layout.cell(c), &vec![EntityType::Enemy(EnemyHandle(1))]);
    assert_eq!(world.enemies.e_type[0], EnemyType::Empty);
    world.remove_enemy(EnemyHandle(0));
    assert_eq!(world.world_layout.cell(c), &vec![EntityType::Enemy(EnemyHandle(1))]);
}

#[test]
fn kill_event_on_stale_handle_is_ignored() {
    let mut world = World::new();
    world.world_event_queue.push_back(WorldEvent::KillEnemy(EnemyHandle(9)));
    world.handle_world_events();
    assert_eq!(world.enemies.e_type, vec![EnemyType::Regular, EnemyType::Regular]);
}

#[test]
fn random_size_by_cumulative_weight() {
    let w = [800, 200, 0, 0];
    assert_eq!(SpawningSystem::get_random_size(&w, 0), PossibleEnemySizes::SMALL);
    assert_eq!(SpawningSystem::get_random_size(&w, 799), PossibleEnemySizes::SMALL);
    assert_eq!(SpawningSystem::get_random_size(&w, 800), PossibleEnemySizes::MEDIUM);
    assert_eq!(SpawningSystem::get_random_size(&w, 999), PossibleEnemySizes::MEDIUM);
    let w = [100, 100, 100, 100];
    assert_eq!(SpawningSystem::get_random_size(&w, 250), PossibleEnemySizes::LARGE);
    assert_eq!(SpawningSystem::get_random_size(&w, 350), PossibleEnemySizes::BOSS);
    assert_eq!(SpawningSystem::get_random_size(&w, 400), PossibleEnemySizes::SMALL);
    assert_eq!(SpawningSystem::get_random_size(&[0, 0, 0, 0], 5), PossibleEnemySizes::SMALL);
}

#[test]
fn only_first_weight_always_small() {
    for roll in 0..1000 {
        assert_eq!(SpawningSystem::get_random_size(&[1, 0, 0, 0], roll), PossibleEnemySizes::SMALL);
        assert_eq!(SpawningSystem::get_random_size(&[1000, 0, 0, 0], roll), PossibleEnemySizes::SMALL);
    }
}

#[test]
fn health_by_size() {
    assert_eq!(SpawningSystem::get_health_based_on_size(PossibleEnemySizes::SMALL), 1);
    assert_eq!(SpawningSystem::get_health_based_on_size(PossibleEnemySizes::MEDIUM), 3);
    assert_eq!(SpawningSystem::get_health_based_on_size(PossibleEnemySizes::LARGE), 5);
    assert_eq!(SpawningSystem::get_health_based_on_size(PossibleEnemySizes::BOSS), 10);
}

#[test]
fn spawn_position_and_velocity_from_draws() {
    let d = draws(0);
    assert_eq!(SpawningSystem::get_random_position_ground_enemy(&d), at(100, 8000, 14489));
    assert_eq!(SpawningSystem::get_random_velocity(&d), Vec3 { x: -1000, y: 0, z: 999 });
}

#[test]
fn drawn_values_lie_in_their_ranges() {
    let mut seen_far = false;
    let mut seen_near = false;
    for _ in 0..200 {
        let d = SpawningSystem::draw();
        assert!(d.size_roll < 1000);
        assert!(d.vel_x < 2000 && d.vel_z < 2000);
        assert!(d.off_x < if d.near_x { 3510 } else { 2000 });
        assert!(d.off_z < if d.near_z { 3510 } else { 2000 });
        let p = SpawningSystem::get_random_position_ground_enemy(&d);
        assert!(p.0.x < 3510 || (p.0.x >= 12490 && p.0.x < 14490));
        seen_far |= !d.near_x;
        seen_near |= d.near_x;
    }
    assert!(seen_far && seen_near);
}

#[test]
fn default_table_has_eleven_minutes() {
    let s = SpawningSystem::new();
    assert_eq!(s.spawn_configs.len(), 11);
    assert_eq!(s.spawn_configs[0].enemies_per_minute, 28);
    assert_eq!(s.spawn_configs[0].size_weights, [800, 200, 0, 0]);
    assert_eq!(s.spawn_configs[5].boss_spawn_minutes, vec![5]);
    assert_eq!(s.spawn_configs[10].boss_spawn_minutes, vec![10]);
    assert_eq!(s.spawn_configs[10].enemies_per_minute, 3);
}

#[test]
fn sixty_per_minute_spawns_once_a_second() {
    let mut world = World::new();
    let mut s = spawner_with(SpawnConfig {
        enemies_per_minute: 60,
        size_weights: [1, 0, 0, 0],
        boss_spawn_minutes: vec![],
    });
    let mut spawn_ticks = Vec::new();
    for tick in 1..=600u32 {
        let r = s.update(TICK_NS, &mut world);
        assert!(!r.boss);
        if r.regular {
            spawn_ticks.push(tick);
        }
    }
    assert_eq!(spawn_ticks, vec![60, 120, 180, 240, 300, 360, 420, 480, 540, 600]);
    assert_eq!(world.enemies.positions.len(), 12);
    for i in 2..12 {
        assert_eq!(world.enemies.size[i], PossibleEnemySizes::SMALL);
        assert_eq!(world.enemies.healths[i], 1);
        assert_eq!(world.enemies.e_type[i], EnemyType::Regular);
        let half = Enemies::get_vec3_size(PossibleEnemySizes::SMALL);
        for c in Enemies::get_occupied_tiles(&world.enemies.positions[i], &half) {
            assert!(world.world_layout.contains(c, EntityType::Enemy(EnemyHandle(i as u16))));
        }
    }
}

#[test]
fn two_per_minute_spawns_every_thirty_seconds() {
    let mut world = World::new();
    let mut s = spawner_with(SpawnConfig {
        enemies_per_minute: 2,
        size_weights: [1000, 0, 0, 0],
        boss_spawn_minutes: vec![],
    });
    let mut spawned = 0;
    for _ in 0..200 {
        if s.update(MINUTE_NS / 4, &mut world).regular {
            spawned += 1;
        }
    }
    // two a minute for fifty minutes
    assert_eq!(spawned, 100);
    assert_eq!(s.current_minute, 50);
}

#[test]
fn minute_rollover_resets_counters_and_raises_difficulty() {
    let mut world = World::new();
    let mut s = SpawningSystem::new();
    s.update(MINUTE_NS - 1, &mut world);
    assert_eq!(s.current_minute, 0);
    assert_eq!(s.difficulty_multiplier, 1000);
    assert_eq!(s.enemies_spawned_this_minute, 1);
    s.update(1, &mut world);
    assert_eq!(s.current_minute, 1);
    assert_eq!(s.difficulty_multiplier, 1100);
    assert_eq!(s.enemies_spawned_this_minute, 0);
    assert_eq!(s.elapsed_time, MINUTE_NS);
}

#[test]
fn boss_spawns_once_in_its_minute() {
    let mut world = World::new();
    let mut s = spawner_with(SpawnConfig {
        enemies_per_minute: 1,
        size_weights: [1000, 0, 0, 0],
        boss_spawn_minutes: vec![0],
    });
    let mut bosses = 0;
    for _ in 0..100 {
        let r = s.update_with(TICK_NS, &mut world, &draws(0), &draws(0));
        if r.boss {
            bosses += 1;
        }
    }
    assert_eq!(bosses, 1);
    assert_eq!(world.enemies.size[2], PossibleEnemySizes::BOSS);
    assert_eq!(world.enemies.healths[2], 10);
    assert_eq!(world.enemies.positions[2], at(100, 8000, 14489));
    assert_eq!(world.enemies.velocities[2], Vec3 { x: -1000, y: 0, z: 999 });
}

#[test]
fn update_with_uses_the_size_roll() {
    let mut world = World::new();
    let mut s = spawner_with(SpawnConfig {
        enemies_per_minute: 60,
        size_weights: [500, 300, 200, 0],
        boss_spawn_minutes: vec![],
    });
    let r = s.update_with(1_000_000_000, &mut world, &draws(850), &draws(0));
    assert!(r.regular);
    assert_eq!(world.enemies.size[2], PossibleEnemySizes::LARGE);
    assert_eq!(world.enemies.healths[2], 5);
    assert_eq!(s.time_since_last_spawn, 0);
    assert_eq!(s.enemies_spawned_this_minute, 1);
}

#[test]
fn world_update_runs_a_tick() {
    let mut world = World::new();
    let mut s = SpawningSystem::new();
    world.world_event_queue.push_back(WorldEvent::KillEnemy(EnemyHandle(1)));
    world.update(&mut s);
    assert_eq!(world.enemies.e_type[1], EnemyType::Empty);
    assert_eq!(s.elapsed_time, TICK_NS);
    assert!(world.world_event_queue.is_empty());
    assert!(world.world_layout.contains(world.player.pos.to_chunk(), EntityType::Player));
    for _ in 0..300 {
        world.update(&mut s);
    }
    assert_eq!(world.enemies.e_type[0], EnemyType::Regular);
}

#[test]
fn player_weapons() {
    let mut p = Player::new();
    assert_eq!(p.get_current_weapon().w_type, WeaponType::Shotgun);
    p.swap_to_weapon(WeaponType::Shotgun);
    assert_eq!(p.curr_weapon, CurrWeapon(0));
    p.weapon_unlocked = MaxWeapon(3);
    p.swap_next_weapon();
    assert_eq!(p.curr_weapon, CurrWeapon(1));
    p.swap_next_weapon();
    assert_eq!(p.curr_weapon, CurrWeapon(0));
}

#[test]
fn solid_blocks_collect_positions() {
    let mut b = SolidBlocks::new();
    b.new_block(at(1000, 0, 2000));
    assert_eq!(b.positions, vec![at(1000, 0, 2000)]);
    let e = Enemies::new();
    assert!(e.positions.is_empty());
}

#[test]
fn world_ticks_keep_tags_on_occupied_tiles() {
    let mut world = World::new();
    let mut s = spawner_with(SpawnConfig {
        enemies_per_minute: 600,
        size_weights: [250, 250, 250, 250],
        boss_spawn_minutes: vec![0],
    });
    for tick in 0..240 {
        if tick % 50 == 7 {
            world.world_event_queue.push_back(WorldEvent::KillEnemy(EnemyHandle((tick % 5) as u16)));
        }
        world.update(&mut s);
    }
    let live = world.enemies.e_type.iter().filter(|t| **t != EnemyType::Empty).count();
    assert!(live > 10);
    for i in 0..world.enemies.positions.len() {
        let h = EnemyHandle(i as u16);
        let is_live = world.enemies.e_type[i] != EnemyType::Empty;
        let half = Enemies::get_vec3_size(world.enemies.size[i]);
        let tiles = Enemies::get_occupied_tiles(&world.enemies.positions[i], &half);
        for x in 0..16u8 {
            for y in 0..16u8 {
                for z in 0..16u8 {
                    let c = ChunkPos::new(x, y, z);
                    assert_eq!(world.world_layout.contains(c, EntityType::Enemy(h)), is_live && tiles.contains(&c));
                }
            }
        }
    }
}

#[test]
fn hits_queued_at_once_kill() {
    let mut world = World::new();
    world.enemies.healths[1] = 4;
    for _ in 0..4 {
        world.world_event_queue.push_back(WorldEvent::HitEnemy(EnemyHandle(1)));
    }
    world.handle_world_events();
    assert_eq!(world.enemies.e_type[1], EnemyType::Empty);
    assert_eq!(world.enemies.healths[1], 1);
    assert!(!world.world_layout.contains(ChunkPos::new(12, 8, 3), EntityType::Enemy(EnemyHandle(1))));
    assert!(world.world_layout.contains(ChunkPos::new(12, 0, 3), EntityType::SolidBlock));
}
