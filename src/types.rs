use vstd::prelude::*;

verus! {

/// Edge length of the world cube, in cells.
pub const CHUNK_SIZE: u8 = 16;

/// Fixed-point scale: one cell is `UNIT` length units (milli-cells).
pub const UNIT: i64 = 1000;

/// Largest coordinate magnitude, in length units, that the simulation accepts.
pub const COORD_LIMIT: i64 = 1073741824;

/// Largest speed magnitude per axis, in length units per second.
pub const SPEED_LIMIT: i64 = 1073741824;

/// Upper clamp applied before rounding a position to a cell (15.49 cells),
/// so that a position on the far border still maps to the last cell.
pub const CELL_CLAMP_MAX: i64 = 15490;

/// Simulation ticks per second.
pub const TICKS_PER_SECOND: i64 = 60;

/// Downward acceleration in length units per second squared (9.81 cells/s²).
pub const GRAVITY: i64 = 9810;

/// Speed lost to gravity during one tick (`GRAVITY / TICKS_PER_SECOND`).
pub const GRAVITY_PER_TICK: i64 = 163;

/// Player speed multiplier applied to the stored velocity.
pub const MOVE_SPEED: i64 = 5;

/// A fixed-point 3-vector; each component is in length units
/// (positions) or length units per second (velocities).
#[derive(Clone, Copy, Debug, PartialEq, Eq, Structural)]
pub struct Vec3 {
    pub x: i64,
    pub y: i64,
    pub z: i64,
}

/// A continuous position in the world, in the grid's coordinate space.
#[derive(Clone, Copy, Debug, PartialEq, Eq, Structural)]
pub struct ChunkVec3(pub Vec3);

/// One voxel cell of the grid.
#[derive(Clone, Copy, Debug, PartialEq, Eq, Structural)]
pub struct ChunkPos {
    pub x: u8,
    pub y: u8,
    pub z: u8,
}

#[derive(Clone, Copy, Debug, PartialEq, Eq, Structural)]
pub enum WeaponType {
    Shotgun,
}

#[derive(Clone, Copy, Debug, PartialEq, Eq, Structural)]
pub struct CurrWeapon(pub usize);

#[derive(Clone, Copy, Debug, PartialEq, Eq, Structural)]
pub struct MaxWeapon(pub usize);

/// Index of a slot of the enemy pool.
#[derive(Clone, Copy, Debug, PartialEq, Eq, Structural)]
pub struct EnemyHandle(pub u16);

/// A tag stored in a grid cell.
#[derive(Clone, Copy, Debug, PartialEq, Eq, Structural)]
pub enum EntityType {
    SolidBlock,
    Player,
    InteractableBlock(u16),
    Enemy(EnemyHandle),
}

#[derive(Clone, Copy, Debug, PartialEq, Eq, Structural)]
pub enum AnimationCallbackEvent {
    KillEnemy,
    Nothing,
}

#[allow(non_camel_case_types)]
#[derive(Clone, Copy, Debug, PartialEq, Eq, Structural)]
pub enum PossibleEnemySizes {
    SMALL,
    MEDIUM,
    LARGE,
    BOSS,
}

#[derive(Clone, Copy, Debug, PartialEq, Eq, Structural)]
pub enum EnemyType {
    Flying,
    Regular,
    Cube,
    Empty,
}

#[derive(Clone, Copy, Debug, PartialEq, Eq, Structural)]
pub enum Textures {
    Pistol,
}

/// A deferred change to the world, processed at the start of a tick.
#[derive(Clone, Copy, Debug, PartialEq, Eq, Structural)]
pub enum WorldEvent {
    KillEnemy(EnemyHandle),
    HitEnemy(EnemyHandle),
}

/// Clamp `v` into `[lo, hi]`.
pub open spec fn clamp(v: int, lo: int, hi: int) -> int {
    if v < lo {
        lo
    } else if v > hi {
        hi
    } else {
        v
    }
}

/// The cell index of one coordinate: clamp into `[0, 15.49]` cells, then
/// round to the nearest cell (halves round up).
pub open spec fn axis_cell(v: int) -> int {
    (clamp(v, 0, CELL_CLAMP_MAX as int) + UNIT / 2) / (UNIT as int)
}

/// The cell that holds a continuous position.
pub open spec fn cell_of(p: ChunkVec3) -> ChunkPos {
    ChunkPos {
        x: axis_cell(p.0.x as int) as u8,
        y: axis_cell(p.0.y as int) as u8,
        z: axis_cell(p.0.z as int) as u8,
    }
}

/// The continuous position of a cell's center.
pub open spec fn center_of(c: ChunkPos) -> ChunkVec3 {
    ChunkVec3(Vec3 {
        x: (c.x as int * UNIT) as i64,
        y: (c.y as int * UNIT) as i64,
        z: (c.z as int * UNIT) as i64,
    })
}

pub open spec fn coord_in_limit(v: int) -> bool {
    -COORD_LIMIT <= v <= COORD_LIMIT
}

/// Every component of `v` lies within the accepted coordinate range.
pub open spec fn vec_in_limit(v: Vec3) -> bool {
    coord_in_limit(v.x as int) && coord_in_limit(v.y as int) && coord_in_limit(v.z as int)
}

/// Every component of `v` lies within the accepted speed range.
pub open spec fn speed_in_limit(v: Vec3) -> bool {
    -SPEED_LIMIT <= v.x <= SPEED_LIMIT && -SPEED_LIMIT <= v.y <= SPEED_LIMIT && -SPEED_LIMIT
        <= v.z <= SPEED_LIMIT
}

/// A cell lies inside the world cube.
pub open spec fn cell_in_bounds(c: ChunkPos) -> bool {
    c.x < CHUNK_SIZE && c.y < CHUNK_SIZE && c.z < CHUNK_SIZE
}

fn clamp_i64(v: i64, lo: i64, hi: i64) -> (r: i64)
    requires
        lo <= hi,
    ensures
        r == clamp(v as int, lo as int, hi as int),
{
    if v < lo {
        lo
    } else if v > hi {
        hi
    } else {
        v
    }
}

fn axis_to_cell(v: i64) -> (r: u8)
    ensures
        r as int == axis_cell(v as int),
        r < CHUNK_SIZE,
{
    let c = clamp_i64(v, 0, CELL_CLAMP_MAX);
    let r = ((c as u64 + 500) / 1000) as u8;
    r
}

impl ChunkPos {
    pub fn new(x: u8, y: u8, z: u8) -> (r: ChunkPos)
        ensures
            r == (ChunkPos { x, y, z }),
    {
        ChunkPos { x, y, z }
    }

    /// The position of this cell's center.
    pub fn as_vec3(&self) -> (r: Vec3)
        ensures
            r == center_of(*self).0,
    {
        Vec3 { x: self.x as i64 * UNIT, y: self.y as i64 * UNIT, z: self.z as i64 * UNIT }
    }
}

impl ChunkVec3 {
    /// The cell that holds this position; positions outside the world map
    /// to the nearest border cell.
    pub fn to_chunk(&self) -> (r: ChunkPos)
        ensures
            r == cell_of(*self),
            cell_in_bounds(r),
    {
        ChunkPos::new(axis_to_cell(self.0.x), axis_to_cell(self.0.y), axis_to_cell(self.0.z))
    }

    /// This position moved by `rhs`.
    pub fn add(self, rhs: Vec3) -> (r: ChunkVec3)
        requires
            vec_in_limit(self.0),
            vec_in_limit(rhs),
        ensures
            r.0.x == self.0.x + rhs.x,
            r.0.y == self.0.y + rhs.y,
            r.0.z == self.0.z + rhs.z,
    {
        ChunkVec3(Vec3 { x: self.0.x + rhs.x, y: self.0.y + rhs.y, z: self.0.z + rhs.z })
    }
}

/// Converting a position inside the world to its cell gives a cell inside
/// the world, and converting that cell's center back gives the same cell.
pub proof fn lemma_to_chunk_round_trip(p: ChunkVec3)
    requires
        0 <= p.0.x < CHUNK_SIZE as int * UNIT,
        0 <= p.0.y < CHUNK_SIZE as int * UNIT,
        0 <= p.0.z < CHUNK_SIZE as int * UNIT,
    ensures
        cell_in_bounds(cell_of(p)),
        cell_of(center_of(cell_of(p))) == cell_of(p),
{
    let c = cell_of(p);
    assert(axis_cell(p.0.x as int) <= 15);
    assert(axis_cell(p.0.y as int) <= 15);
    assert(axis_cell(p.0.z as int) <= 15);
    assert(axis_cell(c.x as int * 1000) == c.x as int);
    assert(axis_cell(c.y as int * 1000) == c.y as int);
    assert(axis_cell(c.z as int * 1000) == c.z as int);
}

} // verus!
