use voxel_arena::enemies::Enemies;
use voxel_arena::grid::WorldGrid;
use voxel_arena::types::{
    ChunkPos, ChunkVec3, EnemyHandle, EnemyType, EntityType, PossibleEnemySizes, Vec3,
};

fn at(x: i64, y: i64, z: i64) -> ChunkVec3 {
    ChunkVec3(Vec3 { x, y, z })
}

#[test]
fn to_chunk_rounds_to_nearest_cell() {
    assert_eq!(at(7000, 1000, 7000).to_chunk(), ChunkPos::new(7, 1, 7));
    assert_eq!(at(6499, 6500, 6501).to_chunk(), ChunkPos::new(6, 7, 7));
    assert_eq!(at(0, 499, 500).to_chunk(), ChunkPos::new(0, 0, 1));
}

#[test]
fn to_chunk_clamps_outside_positions() {
    assert_eq!(at(-5000, 16000, 15499).to_chunk(), ChunkPos::new(0, 15, 15));
    assert_eq!(at(1_000_000, -1, 15490).to_chunk(), ChunkPos::new(15, 0, 15));
}

#[test]
fn to_chunk_round_trip_over_whole_axis() {
    for v in (0..16000).step_by(37) {
        let c = at(v, v, v).to_chunk();
        assert!(c.x < 16 && c.y < 16 && c.z < 16);
        let back = ChunkVec3(c.as_vec3()).to_chunk();
        assert_eq!(back, c);
    }
}

#[test]
fn as_vec3_gives_cell_center() {
    assert_eq!(ChunkPos::new(3, 0, 15).as_vec3(), Vec3 { x: 3000, y: 0, z: 15000 });
}

#[test]
fn add_moves_position() {
    let p = at(1000, 2000, 3000).add(Vec3 { x: -500, y: 5, z: 0 });
    assert_eq!(p, at(500, 2005, 3000));
}

#[test]
fn grid_occupy_vacate_and_query() {
    let mut g = WorldGrid::new();
    let c = ChunkPos::new(1, 2, 3);
    let e = EntityType::Enemy(EnemyHandle(4));
    assert!(g.cell(c).is_empty());
    g.occupy(c, e);
    g.occupy(c, EntityType::SolidBlock);
    g.occupy(c, e);
    assert_eq!(g.cell(c).len(), 3);
    assert!(g.contains(c, e));
    assert!(!g.contains(ChunkPos::new(1, 2, 4), e));
    g.vacate(c, e);
    assert_eq!(g.cell(c), &vec![EntityType::SolidBlock]);
    assert!(!g.contains(c, e));
}

#[test]
fn grid_clear_enemies_keeps_other_tags() {
    let mut g = WorldGrid::new();
    let c = ChunkPos::new(0, 0, 0);
    g.occupy(c, EntityType::Enemy(EnemyHandle(0)));
    g.occupy(c, EntityType::Player);
    g.occupy(c, EntityType::InteractableBlock(9));
    g.occupy(ChunkPos::new(15, 15, 15), EntityType::Enemy(EnemyHandle(1)));
    g.clear_enemies();
    assert_eq!(g.cell(c), &vec![EntityType::Player, EntityType::InteractableBlock(9)]);
    assert!(g.cell(ChunkPos::new(15, 15, 15)).is_empty());
    g.clear_player();
    assert_eq!(g.cell(c), &vec![EntityType::InteractableBlock(9)]);
}

#[test]
fn new_enemy_appends_when_no_slot_is_free() {
    let mut e = Enemies::new();
    let v = Vec3 { x: 0, y: 0, z: 0 };
    let h0 = e.new_enemy(at(1000, 1000, 1000), v, PossibleEnemySizes::SMALL, 1, EnemyType::Regular);
    let h1 = e.new_enemy(at(2000, 1000, 1000), v, PossibleEnemySizes::LARGE, 5, EnemyType::Flying);
    assert_eq!(h0, EnemyHandle(0));
    assert_eq!(h1, EnemyHandle(1));
    assert_eq!(e.positions.len(), 2);
    assert_eq!(e.healths, vec![1, 5]);
    assert_eq!(e.e_type, vec![EnemyType::Regular, EnemyType::Flying]);
}

#[test]
fn new_remove_new_reuses_handle() {
    let mut e = Enemies::new();
    let v = Vec3 { x: 0, y: 0, z: 0 };
    e.new_enemy(at(1000, 1000, 1000), v, PossibleEnemySizes::SMALL, 1, EnemyType::Regular);
    let h = e.new_enemy(at(2000, 1000, 1000), v, PossibleEnemySizes::SMALL, 1, EnemyType::Regular);
    e.new_enemy(at(3000, 1000, 1000), v, PossibleEnemySizes::SMALL, 1, EnemyType::Regular);
    e.remove_enemy(h);
    assert_eq!(e.e_type[1], EnemyType::Empty);
    let again = e.new_enemy(at(9000, 2000, 9000), v, PossibleEnemySizes::BOSS, 10, EnemyType::Cube);
    assert_eq!(again, h);
    assert_eq!(e.positions.len(), 3);
    assert_eq!(e.positions[1], at(9000, 2000, 9000));
    assert_eq!(e.size[1], PossibleEnemySizes::BOSS);
    assert_eq!(e.e_type[1], EnemyType::Cube);
}

#[test]
fn new_enemy_takes_first_free_slot() {
    let mut e = Enemies::new();
    let v = Vec3 { x: 0, y: 0, z: 0 };
    for _ in 0..4 {
        e.new_enemy(at(1000, 1000, 1000), v, PossibleEnemySizes::SMALL, 1, EnemyType::Regular);
    }
    e.remove_enemy(EnemyHandle(3));
    e.remove_enemy(EnemyHandle(1));
    let h = e.new_enemy(at(1000, 1000, 1000), v, PossibleEnemySizes::SMALL, 1, EnemyType::Regular);
    assert_eq!(h, EnemyHandle(1));
}

#[test]
fn remove_enemy_past_end_is_ignored() {
    let mut e = Enemies::new();
    e.remove_enemy(EnemyHandle(7));
    assert!(e.e_type.is_empty());
}

#[test]
fn hitbox_is_twice_the_scale() {
    assert_eq!(Enemies::get_vec3_size(PossibleEnemySizes::SMALL), Vec3 { x: 250, y: 250, z: 250 });
    assert_eq!(Enemies::get_vec3_size(PossibleEnemySizes::BOSS), Vec3 { x: 1250, y: 1250, z: 1250 });
    assert_eq!(
        Enemies::get_hitbox_from_size(PossibleEnemySizes::MEDIUM),
        Vec3 { x: 1000, y: 1000, z: 1000 }
    );
    assert_eq!(
        Enemies::get_hitbox_from_size(PossibleEnemySizes::LARGE),
        Vec3 { x: 1500, y: 1500, z: 1500 }
    );
}

#[test]
fn occupied_tiles_of_a_centered_small_box() {
    let tiles = Enemies::get_occupied_tiles(&at(3000, 8000, 3000), &Vec3 { x: 250, y: 250, z: 250 });
    assert_eq!(tiles, vec![ChunkPos::new(3, 8, 3)]);
}

#[test]
fn occupied_tiles_span_a_boundary() {
    let tiles = Enemies::get_occupied_tiles(&at(3500, 8000, 3000), &Vec3 { x: 500, y: 500, z: 500 });
    assert_eq!(tiles, vec![ChunkPos::new(3, 8, 3), ChunkPos::new(4, 8, 3)]);
}

#[test]
fn occupied_tiles_need_the_cell_center_inside() {
    // the box spans 8.15 to 8.65 on every axis: no cell center lies inside
    let tiles = Enemies::get_occupied_tiles(&at(8400, 8400, 8400), &Vec3 { x: 250, y: 250, z: 250 });
    assert!(tiles.is_empty());
    let tiles = Enemies::get_occupied_tiles(&at(8250, 8000, 8000), &Vec3 { x: 250, y: 250, z: 250 });
    assert_eq!(tiles, vec![ChunkPos::new(8, 8, 8)]);
}

#[test]
fn occupied_tiles_of_a_unit_half_box_are_twenty_seven() {
    let tiles = Enemies::get_occupied_tiles(&at(8000, 8000, 8000), &Vec3 { x: 1000, y: 1000, z: 1000 });
    assert_eq!(tiles.len(), 27);
    for x in 7..=9u8 {
        for y in 7..=9u8 {
            for z in 7..=9u8 {
                assert!(tiles.contains(&ChunkPos::new(x, y, z)));
            }
        }
    }
}

#[test]
fn occupied_tiles_are_clipped_to_the_grid() {
    let tiles = Enemies::get_occupied_tiles(&at(0, 0, 0), &Vec3 { x: 1250, y: 1250, z: 1250 });
    assert_eq!(tiles.len(), 8);
    for t in &tiles {
        assert!(t.x <= 1 && t.y <= 1 && t.z <= 1);
    }
}
