use vstd::prelude::*;
use crate::types::{
    cell_in_bounds, speed_in_limit, vec_in_limit, ChunkPos, ChunkVec3, EnemyHandle, EnemyType,
    PossibleEnemySizes, Vec3, UNIT,
};

verus! {

/// Number of distinct enemy handles.
pub const MAX_ENEMIES: usize = 65536;

/// Half the edge length of an enemy's hitbox (its visual scale), in
/// length units.
pub open spec fn half_extent(size: PossibleEnemySizes) -> int {
    match size {
        PossibleEnemySizes::SMALL => 250,
        PossibleEnemySizes::MEDIUM => 500,
        PossibleEnemySizes::LARGE => 750,
        PossibleEnemySizes::BOSS => 1250,
    }
}

/// A vector with the same value on all three axes.
pub open spec fn splat(v: int) -> Vec3 {
    Vec3 { x: v as i64, y: v as i64, z: v as i64 }
}

/// Index of the first tombstoned slot, or the length when there is none.
pub open spec fn first_free(s: Seq<EnemyType>) -> int
    decreases s.len(),
{
    if s.len() == 0 {
        0
    } else if s[0] == EnemyType::Empty {
        0
    } else {
        1 + first_free(s.drop_first())
    }
}

/// `k` is the first free slot: every slot before it is live, and it is
/// either tombstoned or one past the end.
pub proof fn lemma_first_free(s: Seq<EnemyType>, k: int)
    requires
        0 <= k <= s.len(),
        forall|j: int| 0 <= j < k ==> s[j] != EnemyType::Empty,
        k == s.len() || s[k] == EnemyType::Empty,
    ensures
        first_free(s) == k,
    decreases s.len(),
{
    if s.len() > 0 && k > 0 {
        let t = s.drop_first();
        assert forall|j: int| 0 <= j < k - 1 implies t[j] != EnemyType::Empty by {
            assert(t[j] == s[j + 1]);
        }
        if k < s.len() {
            assert(t[k - 1] == s[k]);
        }
        lemma_first_free(t, k - 1);
    }
}

/// What the pool holds, slot by slot.
pub ghost struct EnemiesView {
    pub positions: Seq<ChunkVec3>,
    pub velocities: Seq<Vec3>,
    pub size: Seq<PossibleEnemySizes>,
    pub healths: Seq<u8>,
    pub e_type: Seq<EnemyType>,
}

impl EnemiesView {
    pub open spec fn len(self) -> int {
        self.e_type.len() as int
    }

    /// All columns have one entry per slot, every handle fits in a `u16`,
    /// and every coordinate and speed is within the accepted range.
    pub open spec fn wf(self) -> bool {
        &&& self.positions.len() == self.len()
        &&& self.velocities.len() == self.len()
        &&& self.size.len() == self.len()
        &&& self.healths.len() == self.len()
        &&& self.len() <= MAX_ENEMIES
        &&& forall|i: int| 0 <= i < self.len() ==> vec_in_limit(#[trigger] self.positions[i].0)
        &&& forall|i: int| 0 <= i < self.len() ==> speed_in_limit(#[trigger] self.velocities[i])
    }

    /// Slot `i` holds a live enemy.
    pub open spec fn is_live(self, i: int) -> bool {
        0 <= i < self.len() && self.e_type[i] != EnemyType::Empty
    }

    /// The slot that the next allocation uses.
    pub open spec fn alloc_slot(self) -> int {
        first_free(self.e_type)
    }

    /// A new enemy can be allocated: a slot is free or a handle is left.
    pub open spec fn has_room(self) -> bool {
        self.alloc_slot() < self.len() || self.len() < MAX_ENEMIES
    }

    /// The pool after writing an enemy into the allocation slot.
    pub open spec fn with_new(
        self,
        pos: ChunkVec3,
        vel: Vec3,
        size: PossibleEnemySizes,
        health: u8,
        kind: EnemyType,
    ) -> EnemiesView {
        let k = self.alloc_slot();
        if k < self.len() {
            EnemiesView {
                positions: self.positions.update(k, pos),
                velocities: self.velocities.update(k, vel),
                size: self.size.update(k, size),
                healths: self.healths.update(k, health),
                e_type: self.e_type.update(k, kind),
            }
        } else {
            EnemiesView {
                positions: self.positions.push(pos),
                velocities: self.velocities.push(vel),
                size: self.size.push(size),
                healths: self.healths.push(health),
                e_type: self.e_type.push(kind),
            }
        }
    }

    /// The pool after tombstoning slot `h` (no change when `h` is past the end).
    pub open spec fn with_removed(self, h: int) -> EnemiesView {
        if 0 <= h < self.len() {
            EnemiesView { e_type: self.e_type.update(h, EnemyType::Empty), ..self }
        } else {
            self
        }
    }
}

/// The enemy pool: one column per attribute, indexed by handle. A slot whose
/// type is `Empty` is free; its other columns are stale.
pub struct Enemies {
    pub positions: Vec<ChunkVec3>,
    pub velocities: Vec<Vec3>,
    pub size: Vec<PossibleEnemySizes>,
    pub healths: Vec<u8>,
    pub e_type: Vec<EnemyType>,
}

impl View for Enemies {
    type V = EnemiesView;

    open spec fn view(&self) -> EnemiesView {
        EnemiesView {
            positions: self.positions@,
            velocities: self.velocities@,
            size: self.size@,
            healths: self.healths@,
            e_type: self.e_type@,
        }
    }
}

/// The coordinate of the center of cell index `c` on one axis.
pub open spec fn center_coord(c: int) -> int {
    c * UNIT
}

/// On one axis, the center of cell `c` lies within `[p - h, p + h]`.
pub open spec fn covers_axis(p: int, h: int, c: int) -> bool {
    p - h <= center_coord(c) <= p + h
}

/// The cells that a box centered on `pos` with half extents `half` covers:
/// the in-bounds cells whose center lies inside the box.
pub open spec fn in_tiles(pos: ChunkVec3, half: Vec3, c: ChunkPos) -> bool {
    &&& cell_in_bounds(c)
    &&& covers_axis(pos.0.x as int, half.x as int, c.x as int)
    &&& covers_axis(pos.0.y as int, half.y as int, c.y as int)
    &&& covers_axis(pos.0.z as int, half.z as int, c.z as int)
}

/// The cells `[lo, hi)` of one axis whose centers lie within `[p - h, p + h]`.
fn axis_span(p: i64, h: i64) -> (r: (u16, u16))
    requires
        -1073741824 <= p <= 1073741824,
        0 <= h <= 1048576,
    ensures
        r.0 <= 16,
        r.1 <= 16,
        forall|c: int| 0 <= c < 16 ==> (r.0 <= c < r.1 <==> covers_axis(p as int, h as int, c)),
{
    let mut lo: u16 = 0;
    while lo < 16 && (lo as i64) * UNIT < p - h
        invariant
            lo <= 16,
            -1073741824 <= p <= 1073741824,
            0 <= h <= 1048576,
            forall|c: int| 0 <= c < lo ==> #[trigger] center_coord(c) < p - h,
        decreases 16 - lo,
    {
        lo = lo + 1;
    }
    let mut hi: u16 = lo;
    while hi < 16 && (hi as i64) * UNIT <= p + h
        invariant
            lo <= hi <= 16,
            -1073741824 <= p <= 1073741824,
            0 <= h <= 1048576,
            lo < 16 ==> center_coord(lo as int) >= p - h,
            forall|c: int| lo <= c < hi ==> #[trigger] center_coord(c) <= p + h,
        decreases 16 - hi,
    {
        hi = hi + 1;
    }
    (lo, hi)
}

/// A half extent that `get_occupied_tiles` accepts.
pub open spec fn half_in_limit(half: Vec3) -> bool {
    0 <= half.x <= 1048576 && 0 <= half.y <= 1048576 && 0 <= half.z <= 1048576
}

impl Enemies {
    /// An empty pool.
    pub fn new() -> (r: Enemies)
        ensures
            r@.wf(),
            r@.len() == 0,
    {
        Enemies {
            positions: Vec::new(),
            velocities: Vec::new(),
            size: Vec::new(),
            healths: Vec::new(),
            e_type: Vec::new(),
        }
    }

    /// Store a new enemy in the first tombstoned slot, or in a new slot at the
    /// end when none is free, and return its handle.
    pub fn new_enemy(
        &mut self,
        pos: ChunkVec3,
        vel: Vec3,
        size: PossibleEnemySizes,
        health: u8,
        e_type: EnemyType,
    ) -> (r: EnemyHandle)
        requires
            old(self)@.wf(),
            old(self)@.has_room(),
            vec_in_limit(pos.0),
            speed_in_limit(vel),
        ensures
            final(self)@.wf(),
            r.0 as int == old(self)@.alloc_slot(),
            final(self)@ == old(self)@.with_new(pos, vel, size, health, e_type),
    {
        let n = self.e_type.len();
        let mut idx: usize = 0;
        while idx < n
            invariant
                n == self.e_type.len(),
                self@ == old(self)@,
                self@.wf(),
                self@.has_room(),
                vec_in_limit(pos.0),
                speed_in_limit(vel),
                idx <= n,
                forall|j: int| 0 <= j < idx ==> self.e_type@[j] != EnemyType::Empty,
            decreases n - idx,
        {
            if self.e_type[idx] == EnemyType::Empty {
                proof {
                    lemma_first_free(self.e_type@, idx as int);
                }
                self.e_type.set(idx, e_type);
                self.positions.set(idx, pos);
                self.velocities.set(idx, vel);
                self.size.set(idx, size);
                self.healths.set(idx, health);
                proof {
                    assert(self@ =~= old(self)@.with_new(pos, vel, size, health, e_type));
                    lemma_with_new_wf(old(self)@, pos, vel, size, health, e_type);
                }
                return EnemyHandle(idx as u16);
            }
            idx = idx + 1;
        }
        proof {
            lemma_first_free(self.e_type@, n as int);
        }
        self.positions.push(pos);
        self.velocities.push(vel);
        self.size.push(size);
        self.healths.push(health);
        self.e_type.push(e_type);
        proof {
            assert(self@ =~= old(self)@.with_new(pos, vel, size, health, e_type));
            lemma_with_new_wf(old(self)@, pos, vel, size, health, e_type);
        }
        EnemyHandle(n as u16)
    }

    /// Half the hitbox of an enemy of the given size, on every axis.
    pub fn get_vec3_size(size: PossibleEnemySizes) -> (r: Vec3)
        ensures
            r == splat(half_extent(size)),
    {
        match size {
            PossibleEnemySizes::SMALL => Vec3 { x: 250, y: 250, z: 250 },
            PossibleEnemySizes::MEDIUM => Vec3 { x: 500, y: 500, z: 500 },
            PossibleEnemySizes::LARGE => Vec3 { x: 750, y: 750, z: 750 },
            PossibleEnemySizes::BOSS => Vec3 { x: 1250, y: 1250, z: 1250 },
        }
    }

    /// The full hitbox of an enemy of the given size: twice its visual scale.
    pub fn get_hitbox_from_size(size: PossibleEnemySizes) -> (r: Vec3)
        ensures
            r == splat(2 * half_extent(size)),
    {
        let s = Self::get_vec3_size(size);
        Vec3 { x: s.x * 2, y: s.y * 2, z: s.z * 2 }
    }

    /// Tombstone slot `h`; handles past the end are ignored. The grid is not
    /// touched.
    pub fn remove_enemy(&mut self, h: EnemyHandle)
        requires
            old(self)@.wf(),
        ensures
            final(self)@.wf(),
            final(self)@ == old(self)@.with_removed(h.0 as int),
    {
        let index = h.0 as usize;
        if index < self.positions.len() {
            self.e_type.set(index, EnemyType::Empty);
        }
        proof {
            assert(self@ =~= old(self)@.with_removed(h.0 as int));
        }
    }

    /// Every in-bounds cell whose center lies inside the box centered on
    /// `pos` with half extents `half_hitbox`, each once, in X-major order.
    pub fn get_occupied_tiles(pos: &ChunkVec3, half_hitbox: &Vec3) -> (r: Vec<ChunkPos>)
        requires
            vec_in_limit(pos.0),
            half_in_limit(*half_hitbox),
        ensures
            forall|c: ChunkPos| r@.contains(c) <==> in_tiles(*pos, *half_hitbox, c),
            r@.no_duplicates(),
    {
        let mut res: Vec<ChunkPos> = Vec::new();
        let (x0, x1) = axis_span(pos.0.x, half_hitbox.x);
        let (y0, y1) = axis_span(pos.0.y, half_hitbox.y);
        let (z0, z1) = axis_span(pos.0.z, half_hitbox.z);
        let mut x: u16 = x0;
        while x < x1
            invariant
                x0 <= x <= 16,
                x1 <= 16 && y1 <= 16 && z1 <= 16 && y0 <= 16 && z0 <= 16,
                forall|c: int| 0 <= c < 16 ==> (x0 <= c < x1 <==> covers_axis(pos.0.x as int, half_hitbox.x as int, c)),
                forall|c: int| 0 <= c < 16 ==> (y0 <= c < y1 <==> covers_axis(pos.0.y as int, half_hitbox.y as int, c)),
                forall|c: int| 0 <= c < 16 ==> (z0 <= c < z1 <==> covers_axis(pos.0.z as int, half_hitbox.z as int, c)),
                res@.no_duplicates(),
                forall|c: ChunkPos|
                    res@.contains(c) <==> (in_tiles(*pos, *half_hitbox, c) && (c.x as u16) < x),
            decreases 16 - x,
        {
            let mut y: u16 = y0;
            while y < y1
                invariant
                    x0 <= x < x1,
                    x1 <= 16 && y1 <= 16 && z1 <= 16 && y0 <= 16 && z0 <= 16,
                    y0 <= y <= 16,
                    forall|c: int| 0 <= c < 16 ==> (x0 <= c < x1 <==> covers_axis(pos.0.x as int, half_hitbox.x as int, c)),
                    forall|c: int| 0 <= c < 16 ==> (y0 <= c < y1 <==> covers_axis(pos.0.y as int, half_hitbox.y as int, c)),
                    forall|c: int| 0 <= c < 16 ==> (z0 <= c < z1 <==> covers_axis(pos.0.z as int, half_hitbox.z as int, c)),
                    res@.no_duplicates(),
                    forall|c: ChunkPos|
                        res@.contains(c) <==> (in_tiles(*pos, *half_hitbox, c) && ((c.x as u16) < x
                            || (c.x as u16 == x && (c.y as u16) < y))),
                decreases 16 - y,
            {
                let mut z: u16 = z0;
                while z < z1
                    invariant
                        x0 <= x < x1,
                        y0 <= y < y1,
                        x1 <= 16 && y1 <= 16 && z1 <= 16 && y0 <= 16 && z0 <= 16,
                        z0 <= z <= 16,
                        forall|c: int| 0 <= c < 16 ==> (x0 <= c < x1 <==> covers_axis(pos.0.x as int, half_hitbox.x as int, c)),
                        forall|c: int| 0 <= c < 16 ==> (y0 <= c < y1 <==> covers_axis(pos.0.y as int, half_hitbox.y as int, c)),
                        forall|c: int| 0 <= c < 16 ==> (z0 <= c < z1 <==> covers_axis(pos.0.z as int, half_hitbox.z as int, c)),
                        res@.no_duplicates(),
                        forall|c: ChunkPos|
                            res@.contains(c) <==> (in_tiles(*pos, *half_hitbox, c) && ((c.x as u16)
                                < x || (c.x as u16 == x && (c.y as u16) < y) || (c.x as u16 == x
                                && c.y as u16 == y && (c.z as u16) < z))),
                    decreases 16 - z,
                {
                    let c0 = ChunkPos::new(x as u8, y as u8, z as u8);
                    let ghost before = res@;
                    proof {
                        assert(in_tiles(*pos, *half_hitbox, c0));
                        assert(!before.contains(c0));
                    }
                    res.push(c0);
                    proof {
                        assert forall|c: ChunkPos| res@.contains(c) <==> (before.contains(c) || c
                            == c0) by {
                            if c == c0 {
                                assert(res@[before.len() as int] == c0);
                            }
                            if before.contains(c) {
                                let j = choose|j: int| 0 <= j < before.len() && before[j] == c;
                                assert(res@[j] == c);
                            }
                            if res@.contains(c) && c != c0 {
                                let j = choose|j: int| 0 <= j < res@.len() && res@[j] == c;
                                assert(before[j] == c);
                            }
                        }
                        assert forall|i: int, j: int| 0 <= i < j < res@.len() implies res@[i] != res@[j] by {
                            if j == before.len() {
                                assert(before.contains(res@[i]));
                            } else {
                                assert(before[i] == res@[i] && before[j] == res@[j]);
                            }
                        }
                    }
                    z = z + 1;
                }
                y = y + 1;
            }
            x = x + 1;
        }
        res
    }
}

/// Allocating keeps the pool well formed.
pub proof fn lemma_with_new_wf(
    v: EnemiesView,
    pos: ChunkVec3,
    vel: Vec3,
    size: PossibleEnemySizes,
    health: u8,
    kind: EnemyType,
)
    requires
        v.wf(),
        v.has_room(),
        vec_in_limit(pos.0),
        speed_in_limit(vel),
    ensures
        v.with_new(pos, vel, size, health, kind).wf(),
{
    let w = v.with_new(pos, vel, size, health, kind);
    let k = v.alloc_slot();
    lemma_first_free_bounds(v.e_type);
    assert forall|i: int| 0 <= i < w.len() implies vec_in_limit(#[trigger] w.positions[i].0) by {
        if i != k {
            assert(w.positions[i] == v.positions[i]);
        }
    }
    assert forall|i: int| 0 <= i < w.len() implies speed_in_limit(#[trigger] w.velocities[i]) by {
        if i != k {
            assert(w.velocities[i] == v.velocities[i]);
        }
    }
}

/// Allocating, tombstoning that slot, and allocating again hands out the
/// same handle.
pub proof fn lemma_tombstone_reuse(
    v: EnemiesView,
    pos: ChunkVec3,
    vel: Vec3,
    size: PossibleEnemySizes,
    health: u8,
    kind: EnemyType,
)
    requires
        v.wf(),
        v.has_room(),
    ensures
        v.with_new(pos, vel, size, health, kind).with_removed(v.alloc_slot()).alloc_slot()
            == v.alloc_slot(),
{
    let k = v.alloc_slot();
    lemma_first_free_bounds(v.e_type);
    let w = v.with_new(pos, vel, size, health, kind).with_removed(k);
    assert forall|j: int| 0 <= j < k implies w.e_type[j] != EnemyType::Empty by {
        assert(w.e_type[j] == v.e_type[j]);
    }
    lemma_first_free(w.e_type, k);
}

/// The first free slot lies in `[0, len]`, every slot before it is live,
/// and it is tombstoned when it is not past the end.
pub proof fn lemma_first_free_bounds(s: Seq<EnemyType>)
    ensures
        0 <= first_free(s) <= s.len(),
        forall|j: int| 0 <= j < first_free(s) ==> s[j] != EnemyType::Empty,
        first_free(s) < s.len() ==> s[first_free(s)] == EnemyType::Empty,
    decreases s.len(),
{
    if s.len() > 0 && s[0] != EnemyType::Empty {
        let t = s.drop_first();
        lemma_first_free_bounds(t);
        assert forall|j: int| 0 <= j < first_free(s) implies s[j] != EnemyType::Empty by {
            if j > 0 {
                assert(s[j] == t[j - 1]);
            }
        }
    }
}

} // verus!
