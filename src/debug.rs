use vstd::prelude::*;
use crate::grid::WorldGrid;
use crate::types::{cell_in_bounds, ChunkPos, EnemyHandle, EntityType, CHUNK_SIZE};

verus! {

/// Cell `pos` carries the tag of enemy `handle`.
pub fn is_enemy_tile(world_layout: &WorldGrid, pos: ChunkPos, handle: EnemyHandle) -> (r: bool)
    requires
        world_layout.wf(),
        cell_in_bounds(pos),
    ensures
        r == world_layout.at(pos).contains(EntityType::Enemy(handle)),
{
    world_layout.contains(pos, EntityType::Enemy(handle))
}

/// `v + d` wrapped into `0..256`.
pub open spec fn wrap(v: int, d: int) -> u8 {
    ((v + d + 256) % 256) as u8
}

/// The six face neighbors of a cell, +X, -X, +Y, -Y, +Z, -Z; coordinates
/// wrap around at the ends of `u8`, which puts them outside the grid.
pub fn get_neighbors(pos: ChunkPos) -> (r: [ChunkPos; 6])
    ensures
        r[0] == (ChunkPos { x: wrap(pos.x as int, 1), ..pos }),
        r[1] == (ChunkPos { x: wrap(pos.x as int, -1), ..pos }),
        r[2] == (ChunkPos { y: wrap(pos.y as int, 1), ..pos }),
        r[3] == (ChunkPos { y: wrap(pos.y as int, -1), ..pos }),
        r[4] == (ChunkPos { z: wrap(pos.z as int, 1), ..pos }),
        r[5] == (ChunkPos { z: wrap(pos.z as int, -1), ..pos }),
{
    [
        ChunkPos::new(pos.x.wrapping_add(1), pos.y, pos.z),
        ChunkPos::new(pos.x.wrapping_sub(1), pos.y, pos.z),
        ChunkPos::new(pos.x, pos.y.wrapping_add(1), pos.z),
        ChunkPos::new(pos.x, pos.y.wrapping_sub(1), pos.z),
        ChunkPos::new(pos.x, pos.y, pos.z.wrapping_add(1)),
        ChunkPos::new(pos.x, pos.y, pos.z.wrapping_sub(1)),
    ]
}

/// The cell lies inside the grid.
pub fn is_valid_position(pos: ChunkPos) -> (r: bool)
    ensures
        r == cell_in_bounds(pos),
{
    pos.x < CHUNK_SIZE && pos.y < CHUNK_SIZE && pos.z < CHUNK_SIZE
}

/// The smallest and largest coordinate on each axis over `tiles`; for no
/// tiles, the largest `u8` as minimum and zero as maximum.
pub fn calculate_bounding_box(tiles: &[ChunkPos]) -> (r: (ChunkPos, ChunkPos))
    ensures
        forall|k: int|
            0 <= k < tiles@.len() ==> r.0.x <= (#[trigger] tiles@[k]).x <= r.1.x && r.0.y
                <= tiles@[k].y <= r.1.y && r.0.z <= tiles@[k].z <= r.1.z,
        tiles@.len() == 0 ==> r == (ChunkPos { x: 255, y: 255, z: 255 }, ChunkPos { x: 0, y: 0, z: 0 }),
        tiles@.len() > 0 ==> (exists|k: int| 0 <= k < tiles@.len() && tiles@[k].x == r.0.x)
            && (exists|k: int| 0 <= k < tiles@.len() && tiles@[k].y == r.0.y)
            && (exists|k: int| 0 <= k < tiles@.len() && tiles@[k].z == r.0.z)
            && (exists|k: int| 0 <= k < tiles@.len() && tiles@[k].x == r.1.x)
            && (exists|k: int| 0 <= k < tiles@.len() && tiles@[k].y == r.1.y)
            && (exists|k: int| 0 <= k < tiles@.len() && tiles@[k].z == r.1.z),
{
    let mut min_pos = ChunkPos::new(255, 255, 255);
    let mut max_pos = ChunkPos::new(0, 0, 0);
    let mut i: usize = 0;
    while i < tiles.len()
        invariant
            i <= tiles@.len(),
            forall|k: int|
                0 <= k < i ==> min_pos.x <= (#[trigger] tiles@[k]).x <= max_pos.x && min_pos.y
                    <= tiles@[k].y <= max_pos.y && min_pos.z <= tiles@[k].z <= max_pos.z,
            i == 0 ==> min_pos == (ChunkPos { x: 255, y: 255, z: 255 }) && max_pos == (ChunkPos {
                x: 0,
                y: 0,
                z: 0,
            }),
            i > 0 ==> (exists|k: int| 0 <= k < i && tiles@[k].x == min_pos.x) && (exists|k: int|
                0 <= k < i && tiles@[k].y == min_pos.y) && (exists|k: int|
                0 <= k < i && tiles@[k].z == min_pos.z) && (exists|k: int|
                0 <= k < i && tiles@[k].x == max_pos.x) && (exists|k: int|
                0 <= k < i && tiles@[k].y == max_pos.y) && (exists|k: int|
                0 <= k < i && tiles@[k].z == max_pos.z),
        decreases tiles@.len() - i,
    {
        let t = tiles[i];
        if i == 0 {
            min_pos = t;
            max_pos = t;
        } else {
            if t.x < min_pos.x {
                min_pos.x = t.x;
            }
            if t.y < min_pos.y {
                min_pos.y = t.y;
            }
            if t.z < min_pos.z {
                min_pos.z = t.z;
            }
            if t.x > max_pos.x {
                max_pos.x = t.x;
            }
            if t.y > max_pos.y {
                max_pos.y = t.y;
            }
            if t.z > max_pos.z {
                max_pos.z = t.z;
            }
        }
        i = i + 1;
    }
    (min_pos, max_pos)
}

} // verus!
