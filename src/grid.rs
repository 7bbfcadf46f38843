use vstd::prelude::*;
use crate::types::{cell_in_bounds, ChunkPos, EntityType};

verus! {

/// Number of cells in the world cube.
pub const CELL_COUNT: usize = 4096;

/// Flat index of an in-bounds cell.
pub open spec fn cell_index(p: ChunkPos) -> int {
    p.x as int * 256 + p.y as int * 16 + p.z as int
}

/// Keeps every tag but `t`.
pub open spec fn not_tag(t: EntityType) -> spec_fn(EntityType) -> bool {
    |e: EntityType| e != t
}

/// Keeps every tag but enemy tags.
pub open spec fn not_enemy() -> spec_fn(EntityType) -> bool {
    |e: EntityType| !(e is Enemy)
}

/// Keeps every tag but player tags.
pub open spec fn not_player() -> spec_fn(EntityType) -> bool {
    |e: EntityType| e != EntityType::Player
}

pub proof fn lemma_cell_index(p: ChunkPos, q: ChunkPos)
    requires
        cell_in_bounds(p),
        cell_in_bounds(q),
    ensures
        0 <= cell_index(p) < CELL_COUNT,
        cell_index(p) == cell_index(q) <==> p == q,
{
}

/// The voxel grid: each in-bounds cell holds an unordered multiset of tags,
/// stored as a sequence.
pub struct WorldGrid {
    cells: Vec<Vec<EntityType>>,
}

impl WorldGrid {
    pub closed spec fn wf(&self) -> bool {
        self.cells.len() == CELL_COUNT
    }

    /// The tags held by cell `p`.
    pub closed spec fn at(&self, p: ChunkPos) -> Seq<EntityType> {
        self.cells@[cell_index(p)]@
    }

    /// Two grids hold the same tags in every in-bounds cell.
    pub open spec fn same_cells(&self, other: &WorldGrid) -> bool {
        forall|q: ChunkPos| cell_in_bounds(q) ==> #[trigger] self.at(q) == other.at(q)
    }

    /// A grid with every cell empty.
    pub fn new() -> (r: WorldGrid)
        ensures
            r.wf(),
            forall|q: ChunkPos| cell_in_bounds(q) ==> #[trigger] r.at(q) == Seq::<EntityType>::empty(),
    {
        let mut cells: Vec<Vec<EntityType>> = Vec::new();
        let mut i: usize = 0;
        while i < CELL_COUNT
            invariant
                i <= CELL_COUNT,
                cells.len() == i,
                forall|k: int| 0 <= k < i ==> (#[trigger] cells@[k])@ == Seq::<EntityType>::empty(),
            decreases CELL_COUNT - i,
        {
            cells.push(Vec::new());
            i = i + 1;
        }
        let r = WorldGrid { cells };
        assert forall|q: ChunkPos| cell_in_bounds(q) implies #[trigger] r.at(q) == Seq::<
            EntityType,
        >::empty() by {
            lemma_cell_index(q, q);
        }
        r
    }

    /// The tags held by cell `p`.
    pub fn cell(&self, p: ChunkPos) -> (r: &Vec<EntityType>)
        requires
            self.wf(),
            cell_in_bounds(p),
        ensures
            r@ == self.at(p),
    {
        proof {
            lemma_cell_index(p, p);
        }
        let i = p.x as usize * 256 + p.y as usize * 16 + p.z as usize;
        &self.cells[i]
    }

    /// Whether cell `p` holds tag `t`.
    pub fn contains(&self, p: ChunkPos, t: EntityType) -> (r: bool)
        requires
            self.wf(),
            cell_in_bounds(p),
        ensures
            r == self.at(p).contains(t),
    {
        let c = self.cell(p);
        let mut i: usize = 0;
        while i < c.len()
            invariant
                i <= c.len(),
                c@ == self.at(p),
                forall|k: int| 0 <= k < i ==> c@[k] != t,
            decreases c.len() - i,
        {
            if c[i] == t {
                assert(self.at(p)[i as int] == t);
                return true;
            }
            i = i + 1;
        }
        false
    }

    /// Add tag `t` to cell `p`.
    pub fn occupy(&mut self, p: ChunkPos, t: EntityType)
        requires
            old(self).wf(),
            cell_in_bounds(p),
        ensures
            final(self).wf(),
            final(self).at(p) == old(self).at(p).push(t),
            forall|e: EntityType|
                #[trigger] final(self).at(p).contains(e) <==> (old(self).at(p).contains(e) || e == t),
            forall|q: ChunkPos|
                cell_in_bounds(q) && q != p ==> #[trigger] final(self).at(q) == old(self).at(q),
    {
        proof {
            lemma_cell_index(p, p);
            lemma_push_contains(old(self).at(p), t);
        }
        let i = p.x as usize * 256 + p.y as usize * 16 + p.z as usize;
        self.cells[i].push(t);
        proof {
            assert forall|q: ChunkPos| cell_in_bounds(q) && q != p implies #[trigger] self.at(q)
                == old(self).at(q) by {
                lemma_cell_index(p, q);
            }
        }
    }

    /// Keep, in cell number `i`, only the tags that `kept_by(t, mode)` accepts.
    fn retain_at(&mut self, i: usize, t: EntityType, mode: u8)
        requires
            old(self).wf(),
            i < CELL_COUNT,
            mode < 3,
        ensures
            final(self).wf(),
            final(self).cells@[i as int]@ == old(self).cells@[i as int]@.filter(
                kept_by(t, mode),
            ),
            forall|k: int|
                0 <= k < CELL_COUNT && k != i ==> #[trigger] final(self).cells@[k] == old(
                    self,
                ).cells@[k],
    {
        let mut kept: Vec<EntityType> = Vec::new();
        let n = self.cells[i].len();
        let mut j: usize = 0;
        while j < n
            invariant
                self.cells.len() == CELL_COUNT,
                i < CELL_COUNT,
                mode < 3,
                n == self.cells@[i as int].len(),
                j <= n,
                kept@ == self.cells@[i as int]@.subrange(0, j as int).filter(kept_by(t, mode)),
            decreases n - j,
        {
            let e = self.cells[i][j];
            proof {
                let s = self.cells@[i as int]@;
                assert(s.subrange(0, j as int + 1) =~= s.subrange(0, j as int).push(e));
                s.subrange(0, j as int).lemma_filter_push(e, kept_by(t, mode));
            }
            let keep = if mode == 0 {
                e != t
            } else if mode == 1 {
                !matches!(e, EntityType::Enemy(_))
            } else {
                e != EntityType::Player
            };
            if keep {
                kept.push(e);
            }
            j = j + 1;
        }
        proof {
            assert(self.cells@[i as int]@.subrange(0, n as int) =~= self.cells@[i as int]@);
        }
        self.cells.set(i, kept);
    }

    /// Remove every copy of tag `t` from cell `p`.
    pub fn vacate(&mut self, p: ChunkPos, t: EntityType)
        requires
            old(self).wf(),
            cell_in_bounds(p),
        ensures
            final(self).wf(),
            final(self).at(p) == old(self).at(p).filter(not_tag(t)),
            forall|q: ChunkPos|
                cell_in_bounds(q) && q != p ==> #[trigger] final(self).at(q) == old(self).at(q),
    {
        proof {
            lemma_cell_index(p, p);
        }
        let i = p.x as usize * 256 + p.y as usize * 16 + p.z as usize;
        self.retain_at(i, t, 0);
        proof {
            assert(kept_by(t, 0) == not_tag(t));
            assert forall|q: ChunkPos| cell_in_bounds(q) && q != p implies #[trigger] self.at(q)
                == old(self).at(q) by {
                lemma_cell_index(p, q);
            }
        }
    }

    /// Remove, from every cell, every tag that `kept_by(t, mode)` rejects.
    fn retain_everywhere(&mut self, t: EntityType, mode: u8)
        requires
            old(self).wf(),
            mode < 3,
        ensures
            final(self).wf(),
            forall|q: ChunkPos|
                cell_in_bounds(q) ==> #[trigger] final(self).at(q) == old(self).at(q).filter(
                    kept_by(t, mode),
                ),
    {
        let ghost start = *self;
        let mut i: usize = 0;
        while i < CELL_COUNT
            invariant
                self.wf(),
                start.wf(),
                mode < 3,
                i <= CELL_COUNT,
                forall|k: int|
                    0 <= k < i ==> (#[trigger] self.cells@[k])@ == start.cells@[k]@.filter(
                        kept_by(t, mode),
                    ),
                forall|k: int| i <= k < CELL_COUNT ==> #[trigger] self.cells@[k] == start.cells@[k],
            decreases CELL_COUNT - i,
        {
            self.retain_at(i, t, mode);
            i = i + 1;
        }
        proof {
            assert forall|q: ChunkPos| cell_in_bounds(q) implies #[trigger] self.at(q) == start.at(
                q,
            ).filter(kept_by(t, mode)) by {
                lemma_cell_index(q, q);
            }
        }
    }

    /// Remove every enemy tag from every cell.
    pub fn clear_enemies(&mut self)
        requires
            old(self).wf(),
        ensures
            final(self).wf(),
            forall|q: ChunkPos|
                cell_in_bounds(q) ==> #[trigger] final(self).at(q) == old(self).at(q).filter(
                    not_enemy(),
                ),
    {
        self.retain_everywhere(EntityType::Player, 1);
        assert(kept_by(EntityType::Player, 1) == not_enemy());
    }

    /// Remove every player tag from every cell.
    pub fn clear_player(&mut self)
        requires
            old(self).wf(),
        ensures
            final(self).wf(),
            forall|q: ChunkPos|
                cell_in_bounds(q) ==> #[trigger] final(self).at(q) == old(self).at(q).filter(
                    not_player(),
                ),
    {
        self.retain_everywhere(EntityType::Player, 2);
        assert(kept_by(EntityType::Player, 2) == not_player());
    }
}

/// Appending `t` adds exactly `t` to what a sequence holds.
pub proof fn lemma_push_contains(s: Seq<EntityType>, t: EntityType)
    ensures
        forall|e: EntityType| #[trigger] s.push(t).contains(e) <==> (s.contains(e) || e == t),
{
    assert forall|e: EntityType| #[trigger] s.push(t).contains(e) <==> (s.contains(e) || e == t) by {
        if s.contains(e) {
            let j = choose|j: int| 0 <= j < s.len() && s[j] == e;
            assert(s.push(t)[j] == e);
        }
        if e == t {
            assert(s.push(t)[s.len() as int] == t);
        }
        if s.push(t).contains(e) && e != t {
            let j = choose|j: int| 0 <= j < s.len() + 1 && s.push(t)[j] == e;
            assert(s[j] == e);
        }
    }
}

/// Filtering twice with the same predicate is filtering once.
pub proof fn lemma_filter_twice(s: Seq<EntityType>, f: spec_fn(EntityType) -> bool)
    ensures
        s.filter(f).filter(f) == s.filter(f),
    decreases s.len(),
{
    reveal(Seq::filter);
    if s.len() > 0 {
        lemma_filter_twice(s.drop_last(), f);
        s.drop_last().filter(f).lemma_filter_push(s.last(), f);
    }
}

/// A filtered sequence holds nothing that the predicate rejects.
pub proof fn lemma_filter_excludes(s: Seq<EntityType>, f: spec_fn(EntityType) -> bool, e: EntityType)
    requires
        !f(e),
    ensures
        !s.filter(f).contains(e),
{
    broadcast use Seq::lemma_filter_pred;
    if s.filter(f).contains(e) {
        let j = choose|j: int| 0 <= j < s.filter(f).len() && s.filter(f)[j] == e;
        assert(f(s.filter(f)[j]));
    }
}

/// A filtered sequence keeps every element that the predicate accepts.
pub proof fn lemma_filter_keeps(s: Seq<EntityType>, f: spec_fn(EntityType) -> bool, e: EntityType)
    requires
        f(e),
    ensures
        s.filter(f).contains(e) <==> s.contains(e),
{
    broadcast use Seq::lemma_filter_pred, Seq::lemma_filter_contains;
    if s.contains(e) {
        let j = choose|j: int| 0 <= j < s.len() && s[j] == e;
        assert(s.filter(f).contains(s[j]));
    }
    if s.filter(f).contains(e) {
        #[allow(deprecated)]
        s.filter_lemma(f);
        let j = choose|j: int| 0 <= j < s.filter(f).len() && s.filter(f)[j] == e;
        assert(s.filter(f).contains(e));
        lemma_filter_sub(s, f, j);
    }
}

/// Every element of a filtered sequence comes from the sequence.
proof fn lemma_filter_sub(s: Seq<EntityType>, f: spec_fn(EntityType) -> bool, j: int)
    requires
        0 <= j < s.filter(f).len(),
    ensures
        s.contains(s.filter(f)[j]),
    decreases s.len(),
{
    reveal(Seq::filter);
    if s.len() > 0 {
        let sub = s.drop_last().filter(f);
        if j < sub.len() {
            lemma_filter_sub(s.drop_last(), f, j);
            let k = choose|k: int| 0 <= k < s.drop_last().len() && s.drop_last()[k] == sub[j];
            assert(s[k] == s.filter(f)[j]);
        } else {
            assert(s.filter(f)[j] == s.last());
            assert(s[s.len() - 1] == s.last());
        }
    }
}

/// Filtering by `f` and then by `g` is filtering by both at once.
pub proof fn lemma_filter_and(s: Seq<EntityType>, f: spec_fn(EntityType) -> bool, g: spec_fn(EntityType) -> bool)
    ensures
        s.filter(f).filter(g) == s.filter(|e: EntityType| f(e) && g(e)),
    decreases s.len(),
{
    reveal(Seq::filter);
    if s.len() > 0 {
        let fg = |e: EntityType| f(e) && g(e);
        lemma_filter_and(s.drop_last(), f, g);
        s.drop_last().filter(f).lemma_filter_push(s.last(), g);
        s.drop_last().filter(fg).lemma_filter_push(s.last(), fg);
    }
}

/// How many copies of `e` a sequence of tags holds.
pub open spec fn copies(s: Seq<EntityType>, e: EntityType) -> nat
    decreases s.len(),
{
    if s.len() == 0 {
        0
    } else {
        copies(s.drop_last(), e) + if s.last() == e {
            1nat
        } else {
            0nat
        }
    }
}

/// How many times cell `q` is listed in `s`.
pub open spec fn times_listed(s: Seq<ChunkPos>, q: ChunkPos) -> nat
    decreases s.len(),
{
    if s.len() == 0 {
        0
    } else {
        times_listed(s.drop_last(), q) + if s.last() == q {
            1nat
        } else {
            0nat
        }
    }
}

/// `n` copies of tag `t`.
pub open spec fn repeated(n: nat, t: EntityType) -> Seq<EntityType> {
    Seq::new(n, |_i: int| t)
}

pub proof fn lemma_copies_concat(a: Seq<EntityType>, b: Seq<EntityType>, e: EntityType)
    ensures
        copies(a + b, e) == copies(a, e) + copies(b, e),
    decreases b.len(),
{
    if b.len() == 0 {
        assert(a + b =~= a);
    } else {
        assert((a + b).drop_last() =~= a + b.drop_last());
        lemma_copies_concat(a, b.drop_last(), e);
    }
}

pub proof fn lemma_copies_repeated(n: nat, t: EntityType, e: EntityType)
    ensures
        copies(repeated(n, t), e) == if t == e {
            n
        } else {
            0
        },
    decreases n,
{
    if n > 0 {
        assert(repeated(n, t).drop_last() =~= repeated((n - 1) as nat, t));
        lemma_copies_repeated((n - 1) as nat, t, e);
    }
}

/// A tag that a sequence does not hold has no copies in it.
pub proof fn lemma_copies_absent(s: Seq<EntityType>, e: EntityType)
    requires
        !s.contains(e),
    ensures
        copies(s, e) == 0,
    decreases s.len(),
{
    if s.len() > 0 {
        assert(s.last() == s[s.len() - 1]);
        assert forall|j: int| 0 <= j < s.drop_last().len() implies s.drop_last()[j] != e by {
            assert(s.drop_last()[j] == s[j]);
        }
        lemma_copies_absent(s.drop_last(), e);
    }
}

/// In a list without repeats, a cell is listed once if it is there at all.
pub proof fn lemma_listed_once(s: Seq<ChunkPos>, q: ChunkPos)
    requires
        s.no_duplicates(),
    ensures
        times_listed(s, q) == if s.contains(q) {
            1nat
        } else {
            0nat
        },
    decreases s.len(),
{
    if s.len() > 0 {
        let d = s.drop_last();
        assert(d.no_duplicates()) by {
            assert forall|i: int, j: int| 0 <= i < d.len() && 0 <= j < d.len() && i != j implies d[i] != d[j] by {
                assert(d[i] == s[i] && d[j] == s[j]);
            }
        }
        lemma_listed_once(d, q);
        if s.last() == q {
            if d.contains(q) {
                let j = choose|j: int| 0 <= j < d.len() && d[j] == q;
                assert(s[j] == s[s.len() - 1]);
            }
            assert(s[s.len() - 1] == q);
        } else {
            if s.contains(q) {
                let j = choose|j: int| 0 <= j < s.len() && s[j] == q;
                assert(j != s.len() - 1);
                assert(d[j] == q);
            }
            if d.contains(q) {
                let j = choose|j: int| 0 <= j < d.len() && d[j] == q;
                assert(s[j] == q);
            }
        }
    }
}

/// The filter used by `retain_at`: mode 0 drops `t`, mode 1 drops enemy
/// tags, mode 2 drops player tags.
pub open spec fn kept_by(t: EntityType, mode: u8) -> spec_fn(EntityType) -> bool {
    if mode == 0 {
        not_tag(t)
    } else if mode == 1 {
        not_enemy()
    } else {
        not_player()
    }
}

} // verus!
