//! The level-of-detail subsystem: positions in a pyramid of coarser and
//! coarser chunk grids, an octree-like store of LOD chunks, and the
//! bookkeeping that decides which LOD positions a loader needs.

use crate::chunk::Chunk;
use crate::ivec::IVec3;
use crate::pos::div_euclid_i32;
use crate::world::abs1;
use crate::posmap::PosMap;
use vstd::prelude::*;

verus! {

/// Two to the power `d` (one for non-positive `d`).
pub open spec fn two_pow(d: int) -> int
    decreases d,
{
    if d <= 0 {
        1
    } else {
        2 * two_pow(d - 1)
    }
}

/// Computes a small power of two.
fn pow2_i32(d: u8) -> (r: i32)
    requires
        d <= 30,
    ensures
        r == two_pow(d as int),
        1 <= r <= 0x4000_0000,
{
    let mut pow: i32 = 1;
    let mut it: u8 = 0;
    while it < d
        invariant
            it <= d,
            d <= 30,
            pow == two_pow(it as int),
            1 <= pow <= 0x4000_0000,
        decreases d - it,
    {
        proof {
            lemma_two_pow_bound(it as int + 1);
        }
        pow = pow * 2;
        it += 1;
    }
    pow
}

/// Powers of two are positive.
proof fn lemma_two_pow_pos(d: int)
    ensures
        two_pow(d) >= 1,
    decreases
            if d > 0 {
                d
            } else {
                0
            },
{
    if d > 0 {
        lemma_two_pow_pos(d - 1);
    }
}

/// Powers of two grow with the exponent.
proof fn lemma_two_pow_le(d: int, e: int)
    requires
        d <= e,
    ensures
        two_pow(d) <= two_pow(e),
    decreases e - d,
{
    if d < e {
        lemma_two_pow_le(d, e - 1);
        lemma_two_pow_pos(e - 1);
    }
}

/// Exponents up to 30 stay below `2^30`.
proof fn lemma_two_pow_bound(d: int)
    requires
        d <= 30,
    ensures
        1 <= two_pow(d) <= 0x4000_0000,
{
    lemma_two_pow_pos(d);
    lemma_two_pow_le(d, 30);
    assert(two_pow(30) == 0x4000_0000) by {
        reveal_with_fuel(two_pow, 32);
    }
}

/// A position in the LOD pyramid: a grid cell at a detail level, level
/// zero being full detail.
#[derive(Debug, Default, Copy, Clone, PartialEq, Eq, Structural)]
pub struct LodPos {
    pub level: u8,
    pub pos: IVec3,
}

/// LOD positions whose coordinates stay far from the `i32` edges, so
/// that level conversions cannot overflow.
pub open spec fn lod_pos_in_range(p: LodPos) -> bool {
    &&& -1000000 <= p.pos.x <= 1000000
    &&& -1000000 <= p.pos.y <= 1000000
    &&& -1000000 <= p.pos.z <= 1000000
}

impl LodPos {
    /// This position seen at another detail level: rising divides the
    /// coordinates (flooring), descending multiplies them.
    pub fn to_level(&self, level: u8) -> (r: Self)
        requires
            lod_pos_in_range(*self),
            abs1(level as int - self.level as int) <= 10,
        ensures
            r.level == level,
            level == self.level ==> r.pos == self.pos,
            level > self.level ==> {
                &&& r.pos.x == self.pos.x as int / two_pow(level - self.level)
                &&& r.pos.y == self.pos.y as int / two_pow(level - self.level)
                &&& r.pos.z == self.pos.z as int / two_pow(level - self.level)
            },
            level < self.level ==> {
                &&& r.pos.x == self.pos.x * two_pow(self.level - level)
                &&& r.pos.y == self.pos.y * two_pow(self.level - level)
                &&& r.pos.z == self.pos.z * two_pow(self.level - level)
            },
    {
        if level == self.level {
            *self
        } else if level > self.level {
            let diff_pow = pow2_i32(level - self.level);
            LodPos {
                level,
                pos: IVec3 {
                    x: div_euclid_i32(self.pos.x, diff_pow),
                    y: div_euclid_i32(self.pos.y, diff_pow),
                    z: div_euclid_i32(self.pos.z, diff_pow),
                },
            }
        } else {
            let diff_pow = pow2_i32(self.level - level);
            proof {
                lemma_two_pow_le((self.level - level) as int, 10);
                assert(two_pow(10) == 1024) by {
                    reveal_with_fuel(two_pow, 12);
                }
                lemma_mul_in_range(self.pos.x as int, diff_pow as int);
                lemma_mul_in_range(self.pos.y as int, diff_pow as int);
                lemma_mul_in_range(self.pos.z as int, diff_pow as int);
            }
            LodPos {
                level,
                pos: IVec3 {
                    x: self.pos.x * diff_pow,
                    y: self.pos.y * diff_pow,
                    z: self.pos.z * diff_pow,
                },
            }
        }
    }

    /// The enclosing cell one level up.
    pub fn parent(&self) -> (r: Self)
        requires
            self.level < 255,
        ensures
            r.level == self.level + 1,
            r.pos.x == self.pos.x as int / 2,
            r.pos.y == self.pos.y as int / 2,
            r.pos.z == self.pos.z as int / 2,
    {
        LodPos {
            level: self.level + 1,
            pos: IVec3 {
                x: div_euclid_i32(self.pos.x, 2),
                y: div_euclid_i32(self.pos.y, 2),
                z: div_euclid_i32(self.pos.z, 2),
            },
        }
    }

    /// The lowest-coordinate child one level down, or `None` at level
    /// zero.
    pub fn start_child(&self) -> (r: Option<Self>)
        requires
            lod_pos_in_range(*self),
        ensures
            r is Some <==> self.level > 0,
            r matches Some(c) ==> {
                &&& c.level == self.level - 1
                &&& c.pos.x == 2 * self.pos.x
                &&& c.pos.y == 2 * self.pos.y
                &&& c.pos.z == 2 * self.pos.z
            },
    {
        if self.level == 0 {
            None
        } else {
            Some(
                LodPos {
                    level: self.level - 1,
                    pos: IVec3 { x: 2 * self.pos.x, y: 2 * self.pos.y, z: 2 * self.pos.z },
                },
            )
        }
    }

    /// The eight child cells one level down, or `None` at level zero. A
    /// cell's children are exactly the positions whose halved (flooring)
    /// coordinates give the cell back.
    pub fn children(&self) -> (r: Option<Vec<LodPos>>)
        requires
            lod_pos_in_range(*self),
        ensures
            r is Some <==> self.level > 0,
            r matches Some(cs) ==> {
                &&& cs@.len() == 8
                &&& forall|i: int|
                    0 <= i < 8 ==> (#[trigger] cs@[i]).level == self.level - 1 && self.pos.x * 2
                        <= cs@[i].pos.x <= self.pos.x * 2 + 1 && self.pos.y * 2 <= cs@[i].pos.y
                        <= self.pos.y * 2 + 1 && self.pos.z * 2 <= cs@[i].pos.z <= self.pos.z * 2
                        + 1
                &&& forall|q: LodPos|
                    (q.level == self.level - 1 && self.pos.x * 2 <= q.pos.x <= self.pos.x * 2 + 1
                        && self.pos.y * 2 <= q.pos.y <= self.pos.y * 2 + 1 && self.pos.z * 2
                        <= q.pos.z <= self.pos.z * 2 + 1) ==> cs@.contains(q)
            },
    {
        match self.start_child() {
            None => None,
            Some(start_pos) => {
                let level = start_pos.level;
                let sx = start_pos.pos.x;
                let sy = start_pos.pos.y;
                let sz = start_pos.pos.z;
                let mut cs: Vec<LodPos> = Vec::new();
                cs.push(LodPos { level, pos: IVec3 { x: sx, y: sy, z: sz } });
                cs.push(LodPos { level, pos: IVec3 { x: sx + 1, y: sy, z: sz } });
                cs.push(LodPos { level, pos: IVec3 { x: sx, y: sy + 1, z: sz } });
                cs.push(LodPos { level, pos: IVec3 { x: sx + 1, y: sy + 1, z: sz } });
                cs.push(LodPos { level, pos: IVec3 { x: sx, y: sy, z: sz + 1 } });
                cs.push(LodPos { level, pos: IVec3 { x: sx + 1, y: sy, z: sz + 1 } });
                cs.push(LodPos { level, pos: IVec3 { x: sx, y: sy + 1, z: sz + 1 } });
                cs.push(LodPos { level, pos: IVec3 { x: sx + 1, y: sy + 1, z: sz + 1 } });
                proof {
                    assert forall|q: LodPos|
                        (q.level == self.level - 1 && self.pos.x * 2 <= q.pos.x <= self.pos.x * 2
                            + 1 && self.pos.y * 2 <= q.pos.y <= self.pos.y * 2 + 1 && self.pos.z
                            * 2 <= q.pos.z <= self.pos.z * 2 + 1) implies cs@.contains(q) by {
                        let dx = q.pos.x - self.pos.x * 2;
                        let dy = q.pos.y - self.pos.y * 2;
                        let dz = q.pos.z - self.pos.z * 2;
                        let i = dz * 4 + dy * 2 + dx;
                        assert(cs@[i] == q);
                    }
                }
                Some(cs)
            },
        }
    }
}

/// Multiplying a bounded coordinate by a power of two up to `2^20` stays
/// within `i32`.
proof fn lemma_mul_in_range(v: int, p: int)
    requires
        -1000000 <= v <= 1000000,
        1 <= p <= 1024,
    ensures
        i32::MIN <= v * p <= i32::MAX,
{
    assert((-1024000000) <= v * p <= 1024000000) by (nonlinear_arith)
        requires
            -1000000 <= v <= 1000000,
            1 <= p <= 1024,
    ;
}

/// A set of LOD positions, backed by a duplicate-free vector.
pub struct LodPosSet {
    pub items: Vec<LodPos>,
}

impl LodPosSet {
    /// No position occurs twice.
    pub open spec fn wf(self) -> bool {
        forall|i: int, j: int|
            0 <= i < j < self.items@.len() ==> self.items@[i] != self.items@[j]
    }

    /// Whether the set holds a position.
    pub open spec fn has(self, p: LodPos) -> bool {
        self.items@.contains(p)
    }

    pub fn new() -> (r: Self)
        ensures
            r.wf(),
            forall|p: LodPos| !r.has(p),
    {
        LodPosSet { items: Vec::new() }
    }

    pub fn len(&self) -> (r: usize)
        requires
            self.wf(),
        ensures
            r == self.items@.len(),
    {
        self.items.len()
    }

    pub fn contains(&self, p: LodPos) -> (r: bool)
        requires
            self.wf(),
        ensures
            r == self.has(p),
    {
        let mut i: usize = 0;
        while i < self.items.len()
            invariant
                i <= self.items@.len(),
                forall|j: int| 0 <= j < i ==> self.items@[j] != p,
            decreases self.items@.len() - i,
        {
            if self.items[i] == p {
                return true;
            }
            i += 1;
        }
        false
    }

    /// Adds a position; no effect if it is already present.
    pub fn insert(&mut self, p: LodPos)
        requires
            old(self).wf(),
        ensures
            final(self).wf(),
            forall|q: LodPos| final(self).has(q) == (old(self).has(q) || q == p),
    {
        if !self.contains(p) {
            let ghost prev = self.items@;
            self.items.push(p);
            proof {
                assert forall|q: LodPos| self.has(q) == (prev.contains(q) || q == p) by {
                    if self.has(q) {
                        let i = choose|i: int|
                            0 <= i < self.items@.len() && self.items@[i] == q;
                        if i < prev.len() {
                            assert(prev[i] == q);
                        }
                    }
                    if prev.contains(q) {
                        let i = choose|i: int| 0 <= i < prev.len() && prev[i] == q;
                        assert(self.items@[i] == q);
                    }
                    if q == p {
                        assert(self.items@[prev.len() as int] == q);
                    }
                }
            }
        }
    }

    /// Removes a position, reporting whether it was present.
    pub fn remove(&mut self, p: LodPos) -> (r: bool)
        requires
            old(self).wf(),
        ensures
            final(self).wf(),
            r == old(self).has(p),
            forall|q: LodPos| final(self).has(q) == (old(self).has(q) && q != p),
    {
        let mut i: usize = 0;
        while i < self.items.len()
            invariant
                self.wf(),
                self.items@ == old(self).items@,
                i <= self.items@.len(),
                forall|j: int| 0 <= j < i ==> self.items@[j] != p,
            decreases self.items@.len() - i,
        {
            if self.items[i] == p {
                let ghost prev = self.items@;
                let _ = self.items.remove(i);
                proof {
                    assert forall|a: int, b: int|
                        0 <= a < b < self.items@.len() implies self.items@[a]
                        != self.items@[b] by {
                        let a2 = if a < i {
                            a
                        } else {
                            a + 1
                        };
                        let b2 = if b < i {
                            b
                        } else {
                            b + 1
                        };
                        assert(self.items@[a] == prev[a2] && self.items@[b] == prev[b2]);
                    }
                    assert(prev.contains(p)) by {
                        assert(prev[i as int] == p);
                    }
                    assert forall|q: LodPos| self.has(q) == (prev.contains(q) && q != p) by {
                        if self.has(q) {
                            let a = choose|a: int|
                                0 <= a < self.items@.len() && self.items@[a] == q;
                            let a2 = if a < i {
                                a
                            } else {
                                a + 1
                            };
                            assert(prev[a2] == q);
                            assert(q != p);
                        }
                        if prev.contains(q) && q != p {
                            let a = choose|a: int| 0 <= a < prev.len() && prev[a] == q;
                            if a < i {
                                assert(self.items@[a] == q);
                            } else {
                                assert(a != i);
                                assert(self.items@[a - 1] == q);
                            }
                        }
                    }
                }
                return true;
            }
            i += 1;
        }
        proof {
            assert(!old(self).has(p));
        }
        false
    }
}

/// How far along its lifecycle one LOD chunk is.
#[derive(Debug, Copy, Clone, PartialEq, Eq, Structural)]
pub enum LodState {
    Unloaded,
    Loading,
    Ready,
}

impl Default for LodState {
    fn default() -> (r: Self)
        ensures
            r == LodState::Unloaded,
    {
        LodState::Unloaded
    }
}

/// The state an LOD chunk is required to reach.
#[derive(Debug, Copy, Clone, PartialEq, Eq, Structural)]
pub enum LodNeededState {
    Deleted,
    Render,
}

impl Default for LodNeededState {
    fn default() -> (r: Self)
        ensures
            r == LodNeededState::Deleted,
    {
        LodNeededState::Deleted
    }
}

/// One chunk of the LOD pyramid.
#[derive(Debug)]
pub struct LodChunk {
    pub current_state: LodState,
    pub lod_data: Option<Chunk>,
}

/// A pyramid of position-keyed maps, one per detail level. Not a real
/// octree; just per-level grids.
pub struct OctTreeEsque<T> {
    pub levels: Vec<PosMap<T>>,
}

/// The value a level list holds at a LOD position, if any.
pub open spec fn levels_at<T>(levels: Seq<PosMap<T>>, pos: LodPos) -> Option<T> {
    if pos.level < levels.len() && levels[pos.level as int]@.contains_key(pos.pos) {
        Some(levels[pos.level as int]@[pos.pos])
    } else {
        None
    }
}

impl<T> OctTreeEsque<T> {
    pub open spec fn wf(self) -> bool {
        forall|i: int| 0 <= i < self.levels@.len() ==> (#[trigger] self.levels@[i]).wf()
    }

    /// The value at a LOD position, if any.
    pub open spec fn spec_at(self, pos: LodPos) -> Option<T> {
        levels_at(self.levels@, pos)
    }

    pub fn new() -> (r: Self)
        ensures
            r.wf(),
            r.levels@.len() == 0,
    {
        OctTreeEsque { levels: Vec::new() }
    }

    /// The grid at one level, if that level has been touched.
    pub fn level(&self, level: u8) -> (r: Option<&PosMap<T>>)
        requires
            self.wf(),
        ensures
            r matches Some(m) ==> level < self.levels@.len() && *m == self.levels@[level as int],
            r is None ==> level >= self.levels@.len(),
    {
        if (level as usize) < self.levels.len() {
            Some(&self.levels[level as usize])
        } else {
            None
        }
    }

    pub fn at(&self, pos: LodPos) -> (r: Option<&T>)
        requires
            self.wf(),
        ensures
            r matches Some(v) ==> self.spec_at(pos) == Some(*v),
            r is None ==> self.spec_at(pos) is None,
    {
        match self.level(pos.level) {
            Some(m) => m.get(pos.pos),
            None => None,
        }
    }

    /// Stores a value at a LOD position, growing the level list as
    /// needed.
    pub fn insert(&mut self, pos: LodPos, value: T)
        requires
            old(self).wf(),
        ensures
            final(self).wf(),
            final(self).spec_at(pos) == Some(value),
            forall|q: LodPos| q != pos ==> final(self).spec_at(q) == old(self).spec_at(q),
    {
        let idx = pos.level as usize;
        let ghost orig = self.levels@;
        while self.levels.len() <= idx
            invariant
                self.wf(),
                forall|q: LodPos| #[trigger]
                    levels_at(self.levels@, q) == levels_at(orig, q),
            decreases idx + 1 - self.levels@.len(),
        {
            let ghost prev = self.levels@;
            self.levels.push(PosMap::new());
            proof {
                assert forall|q: LodPos| #[trigger]
                    levels_at(self.levels@, q) == levels_at(prev, q) by {
                    if q.level < prev.len() {
                        assert(self.levels@[q.level as int] == prev[q.level as int]);
                    } else if q.level < self.levels@.len() {
                        assert(!self.levels@[q.level as int]@.contains_key(q.pos));
                    }
                }
            }
        }
        let ghost before = self.levels@;
        let mut level_map = self.levels.remove(idx);
        proof {
            assert(level_map == before[idx as int]);
        }
        level_map.insert(pos.pos, value);
        let ghost updated_map = level_map;
        self.levels.insert(idx, level_map);
        proof {
            assert(updated_map@ == before[idx as int]@.insert(pos.pos, value));
            assert forall|j: int|
                0 <= j < self.levels@.len() implies #[trigger] self.levels@[j] == (if j == idx {
                updated_map
            } else {
                before[j]
            }) by {
                if j < idx {
                    assert(self.levels@[j] == before.remove(idx as int)[j]);
                } else if j > idx {
                    assert(self.levels@[j] == before.remove(idx as int)[j - 1]);
                }
            }
            assert(self.levels@.len() == before.len());
            assert forall|q: LodPos| q != pos implies levels_at(self.levels@, q) == levels_at(
                before,
                q,
            ) by {
                if q.level < self.levels@.len() && q.level as int == idx {
                    assert(self.levels@[q.level as int] == updated_map);
                    assert(updated_map@.contains_key(q.pos) == before[idx as int]@.contains_key(
                        q.pos,
                    ));
                }
            }
            assert(levels_at(self.levels@, pos) == Some(value));
            assert forall|q: LodPos| q != pos implies levels_at(self.levels@, q) == levels_at(
                old(self).levels@,
                q,
            ) by {
                assert(levels_at(before, q) == levels_at(orig, q));
            }
        }
    }

    /// Removes and returns the value at a LOD position.
    pub fn take_at(&mut self, pos: LodPos) -> (r: Option<T>)
        requires
            old(self).wf(),
        ensures
            final(self).wf(),
            r == old(self).spec_at(pos),
            final(self).spec_at(pos) is None,
            forall|q: LodPos| q != pos ==> final(self).spec_at(q) == old(self).spec_at(q),
    {
        let idx = pos.level as usize;
        if idx >= self.levels.len() {
            return None;
        }
        let ghost before = self.levels@;
        let mut level_map = self.levels.remove(idx);
        proof {
            assert(level_map == before[idx as int]);
        }
        let r = level_map.remove(pos.pos);
        let ghost updated_map = level_map;
        self.levels.insert(idx, level_map);
        proof {
            assert(updated_map@ == before[idx as int]@.remove(pos.pos));
            assert forall|j: int|
                0 <= j < self.levels@.len() implies #[trigger] self.levels@[j] == (if j == idx {
                updated_map
            } else {
                before[j]
            }) by {
                if j < idx {
                    assert(self.levels@[j] == before.remove(idx as int)[j]);
                } else if j > idx {
                    assert(self.levels@[j] == before.remove(idx as int)[j - 1]);
                }
            }
            assert(self.levels@.len() == before.len());
            assert forall|q: LodPos| q != pos implies levels_at(self.levels@, q) == levels_at(
                before,
                q,
            ) by {
                if q.level < self.levels@.len() && q.level as int == idx {
                    assert(self.levels@[q.level as int] == updated_map);
                    assert(updated_map@.contains_key(q.pos) == before[idx as int]@.contains_key(
                        q.pos,
                    ));
                }
            }
        }
        r
    }
}

/// Dividing a bounded coordinate by a positive divisor keeps it bounded.
proof fn lemma_div_shrinks(x: int, d: int)
    requires
        d >= 1,
        -100000 <= x <= 100000,
    ensures
        -100000 <= x / d <= 100000,
{
    if x >= 0 {
        assert(0 <= x / d <= x) by (nonlinear_arith)
            requires
                d >= 1,
                x >= 0,
        ;
    } else {
        assert(x <= x / d <= 0) by (nonlinear_arith)
            requires
                d >= 1,
                x < 0,
        ;
    }
}

/// A position the round for its level adds: its enclosing cell one level
/// up lies in that round's cube, whose corner is the loader's position
/// seen at that level and whose thickness the configuration gives.
pub open spec fn added_in_round(center: IVec3, thicks: Seq<u8>, p: LodPos) -> bool {
    let l = p.level as int;
    &&& l < thicks.len()
    &&& center.x as int / two_pow(l + 1) <= p.pos.x as int / 2 < center.x as int / two_pow(l + 1)
        + thicks[l]
    &&& center.y as int / two_pow(l + 1) <= p.pos.y as int / 2 < center.y as int / two_pow(l + 1)
        + thicks[l]
    &&& center.z as int / two_pow(l + 1) <= p.pos.z as int / 2 < center.z as int / two_pow(l + 1)
        + thicks[l]
}

/// Halving rounds a cell's two children down to the cell.
proof fn lemma_half(v: int, a: int)
    requires
        2 * a <= v <= 2 * a + 1,
    ensures
        v / 2 == a,
{
    vstd::arithmetic::div_mod::lemma_fundamental_div_mod_converse(v, 2, a, v - 2 * a);
}

/// A cell's two children along one coordinate are exactly the values
/// that halve back down to it.
proof fn lemma_half_range(v: int, a: int)
    requires
        v / 2 == a,
    ensures
        2 * a <= v <= 2 * a + 1,
{
    vstd::arithmetic::div_mod::lemma_fundamental_div_mod(v, 2);
}

/// The corner of the cube a round walks: the loader's cell one level
/// above the round's level.
pub open spec fn round_corner(center: IVec3, round: int) -> (int, int, int) {
    (
        center.x as int / two_pow(round + 1),
        center.y as int / two_pow(round + 1),
        center.z as int / two_pow(round + 1),
    )
}

/// A cube offset that the walk in lexicographic order has already
/// passed, with `x` outermost and `z` innermost.
pub open spec fn offset_in_prefix(
    ox: int,
    oy: int,
    oz: int,
    half: int,
    x: int,
    y: int,
    z: int,
) -> bool {
    &&& 0 <= ox < half
    &&& 0 <= oy < half
    &&& 0 <= oz < half
    &&& (ox < x || (ox == x && (oy < y || (oy == y && oz < z))))
}

/// Whether the round below a position's level drops it again: its own
/// cell lies in that round's cube, so finer chunks replace it.
pub open spec fn removed_by_finer_round(center: IVec3, thicks: Seq<u8>, p: LodPos) -> bool {
    let l = p.level as int;
    &&& 1 <= l
    &&& l - 1 < thicks.len()
    &&& center.x as int / two_pow(l) <= p.pos.x < center.x as int / two_pow(l) + thicks[l - 1]
    &&& center.y as int / two_pow(l) <= p.pos.y < center.y as int / two_pow(l) + thicks[l - 1]
    &&& center.z as int / two_pow(l) <= p.pos.z < center.z as int / two_pow(l) + thicks[l - 1]
}

/// The LOD positions a loader needs: every position its own round adds
/// whose cell the next finer round does not cover again.
pub open spec fn required_level_member(center: IVec3, thicks: Seq<u8>, p: LodPos) -> bool {
    &&& added_in_round(center, thicks, p)
    &&& !removed_by_finer_round(center, thicks, p)
}

/// The needed set once every round down to `round` has been walked.
pub open spec fn rounds_done_state(
    center: IVec3,
    thicks: Seq<u8>,
    round: int,
    p: LodPos,
) -> bool {
    let l = p.level as int;
    &&& round <= l
    &&& added_in_round(center, thicks, p)
    &&& (l == round || !removed_by_finer_round(center, thicks, p))
}

/// The needed set in the middle of one round's cube walk, offsets before
/// `(x, y, z)` done: the round's own level holds the children of the
/// walked cells, the level above has lost the walked cells, everything
/// coarser is as the earlier rounds left it.
pub open spec fn cube_walk_state(
    center: IVec3,
    thicks: Seq<u8>,
    round: int,
    x: int,
    y: int,
    z: int,
    p: LodPos,
) -> bool {
    let l = p.level as int;
    let c = round_corner(center, round);
    let half = thicks[round] as int;
    &&& round <= l && l < thicks.len()
    &&& (if l == round {
        offset_in_prefix(
            p.pos.x as int / 2 - c.0,
            p.pos.y as int / 2 - c.1,
            p.pos.z as int / 2 - c.2,
            half,
            x,
            y,
            z,
        )
    } else if l == round + 1 {
        added_in_round(center, thicks, p) && !offset_in_prefix(
            p.pos.x - c.0,
            p.pos.y - c.1,
            p.pos.z - c.2,
            half,
            x,
            y,
            z,
        )
    } else {
        added_in_round(center, thicks, p) && !removed_by_finer_round(center, thicks, p)
    })
}

/// Loader centers small enough that every level conversion and cube
/// offset in the LOD bookkeeping stays in range.
pub open spec fn lod_center_in_range(center: IVec3) -> bool {
    &&& -100000 <= center.x <= 100000
    &&& -100000 <= center.y <= 100000
    &&& -100000 <= center.z <= 100000
}

/// Whether a tracked LOD position has already been walked: all levels
/// below `l` wholly, and the first `e` entries of level `l`.
pub open spec fn visited(w: LodWorld, l: int, e: int, q: LodPos) -> bool {
    &&& w.tree.spec_at(q) is Some
    &&& ((q.level as int) < l || ((q.level as int) == l && exists|i0: int|
        0 <= i0 < e && (#[trigger] w.tree.levels@[l].entries@[i0]).0 == q.pos))
}

/// Every issued transition is justified: deletions only for tracked,
/// unrequired positions; renders only for required ones.
pub open spec fn changes_sound(
    w: LodWorld,
    required: LodPosSet,
    changes: Seq<(LodPos, LodNeededState)>,
) -> bool {
    &&& forall|j: int|
        0 <= j < changes.len() && (#[trigger] changes[j]).1 == LodNeededState::Deleted
            ==> w.tree.spec_at(changes[j].0) is Some && !required.has(changes[j].0)
    &&& forall|j: int|
        0 <= j < changes.len() && (#[trigger] changes[j]).1 == LodNeededState::Render
            ==> required.has(changes[j].0) && (w.tree.spec_at(changes[j].0) is None || (
            w.tree.spec_at(changes[j].0) matches Some(ch) && ch.current_state
                == LodState::Unloaded))
}

/// The transition a walked tree position is owed has been issued.
pub open spec fn change_issued(
    w: LodWorld,
    required: LodPosSet,
    changes: Seq<(LodPos, LodNeededState)>,
    q: LodPos,
) -> bool {
    &&& !required.has(q) ==> changes.contains((q, LodNeededState::Deleted))
    &&& (w.tree.spec_at(q) matches Some(ch) && required.has(q) && ch.current_state
        == LodState::Unloaded) ==> changes.contains((q, LodNeededState::Render))
}

/// The LOD pyramid of the world, tracking which coarse chunks exist.
pub struct LodWorld {
    pub tree: OctTreeEsque<LodChunk>,
}

impl LodWorld {
    pub open spec fn wf(self) -> bool {
        self.tree.wf()
    }

    pub fn new() -> (r: Self)
        ensures
            r.wf(),
            r.tree.levels@.len() == 0,
    {
        LodWorld { tree: OctTreeEsque::new() }
    }

    /// The LOD positions a loader at the given full-detail chunk needs,
    /// characterized exactly: each level's cube (thickness given in cells
    /// of the level above, corner at the loader's cell there) contributes
    /// its cells' children, and a cell covered by the next finer level
    /// drops out again.
    pub fn required_levels_for_loader(center_lod0_chunk: IVec3, level_half_thicks: &Vec<u8>)
        -> (r: LodPosSet)
        requires
            lod_center_in_range(center_lod0_chunk),
            level_half_thicks@.len() <= 9,
        ensures
            r.wf(),
            forall|p: LodPos| #[trigger]
                r.has(p) == required_level_member(center_lod0_chunk, level_half_thicks@, p),
    {
        let mut needed = LodPosSet::new();
        let levels_count = level_half_thicks.len();
        let loader_lod0_pos = LodPos { level: 0, pos: center_lod0_chunk };

        let mut round = levels_count;
        while round > 0
            invariant
                lod_center_in_range(center_lod0_chunk),
                loader_lod0_pos == (LodPos { level: 0, pos: center_lod0_chunk }),
                levels_count == level_half_thicks@.len(),
                levels_count <= 9,
                round <= levels_count,
                needed.wf(),
                forall|p: LodPos| #[trigger]
                    needed.has(p) == rounds_done_state(
                        center_lod0_chunk,
                        level_half_thicks@,
                        round as int,
                        p,
                    ),
            decreases round,
        {
            round -= 1;
            let half_rad = level_half_thicks[round];
            let next_level_center = loader_lod0_pos.to_level((round + 1) as u8);
            proof {
                lemma_two_pow_pos((round + 1) as int);
                lemma_div_shrinks(center_lod0_chunk.x as int, two_pow((round + 1) as int));
                lemma_div_shrinks(center_lod0_chunk.y as int, two_pow((round + 1) as int));
                lemma_div_shrinks(center_lod0_chunk.z as int, two_pow((round + 1) as int));
                assert forall|p: LodPos| #[trigger]
                    needed.has(p) == cube_walk_state(
                        center_lod0_chunk,
                        level_half_thicks@,
                        round as int,
                        0,
                        0,
                        0,
                        p,
                    ) by {
                    assert(needed.has(p) == rounds_done_state(
                        center_lod0_chunk,
                        level_half_thicks@,
                        round + 1,
                        p,
                    ));
                }
            }

            let mut x: u8 = 0;
            while x < half_rad
                invariant
                    lod_center_in_range(center_lod0_chunk),
                    levels_count <= 9,
                    round < levels_count,
                    levels_count == level_half_thicks@.len(),
                    half_rad == level_half_thicks@[round as int],
                    next_level_center.level == round + 1,
                    next_level_center.pos.x == center_lod0_chunk.x as int / two_pow(round + 1),
                    next_level_center.pos.y == center_lod0_chunk.y as int / two_pow(round + 1),
                    next_level_center.pos.z == center_lod0_chunk.z as int / two_pow(round + 1),
                    -100000 <= next_level_center.pos.x <= 100000,
                    -100000 <= next_level_center.pos.y <= 100000,
                    -100000 <= next_level_center.pos.z <= 100000,
                    needed.wf(),
                    forall|p: LodPos| #[trigger]
                        needed.has(p) == cube_walk_state(
                            center_lod0_chunk,
                            level_half_thicks@,
                            round as int,
                            x as int,
                            0,
                            0,
                            p,
                        ),
                decreases half_rad - x,
            {
                let mut y: u8 = 0;
                while y < half_rad
                    invariant
                        lod_center_in_range(center_lod0_chunk),
                        levels_count <= 9,
                        round < levels_count,
                        levels_count == level_half_thicks@.len(),
                        half_rad == level_half_thicks@[round as int],
                        x < half_rad,
                        next_level_center.level == round + 1,
                        next_level_center.pos.x == center_lod0_chunk.x as int / two_pow(
                            round + 1,
                        ),
                        next_level_center.pos.y == center_lod0_chunk.y as int / two_pow(
                            round + 1,
                        ),
                        next_level_center.pos.z == center_lod0_chunk.z as int / two_pow(
                            round + 1,
                        ),
                        -100000 <= next_level_center.pos.x <= 100000,
                        -100000 <= next_level_center.pos.y <= 100000,
                        -100000 <= next_level_center.pos.z <= 100000,
                        needed.wf(),
                        forall|p: LodPos| #[trigger]
                            needed.has(p) == cube_walk_state(
                                center_lod0_chunk,
                                level_half_thicks@,
                                round as int,
                                x as int,
                                y as int,
                                0,
                                p,
                            ),
                    decreases half_rad - y,
                {
                    let mut z: u8 = 0;
                    while z < half_rad
                        invariant
                            lod_center_in_range(center_lod0_chunk),
                            levels_count <= 9,
                            round < levels_count,
                            levels_count == level_half_thicks@.len(),
                            half_rad == level_half_thicks@[round as int],
                            x < half_rad,
                            y < half_rad,
                            next_level_center.level == round + 1,
                            next_level_center.pos.x == center_lod0_chunk.x as int / two_pow(
                                round + 1,
                            ),
                            next_level_center.pos.y == center_lod0_chunk.y as int / two_pow(
                                round + 1,
                            ),
                            next_level_center.pos.z == center_lod0_chunk.z as int / two_pow(
                                round + 1,
                            ),
                            -100000 <= next_level_center.pos.x <= 100000,
                            -100000 <= next_level_center.pos.y <= 100000,
                            -100000 <= next_level_center.pos.z <= 100000,
                            needed.wf(),
                            forall|p: LodPos| #[trigger]
                                needed.has(p) == cube_walk_state(
                                    center_lod0_chunk,
                                    level_half_thicks@,
                                    round as int,
                                    x as int,
                                    y as int,
                                    z as int,
                                    p,
                                ),
                        decreases half_rad - z,
                    {
                        let next_level_pos = LodPos {
                            level: next_level_center.level,
                            pos: IVec3 {
                                x: next_level_center.pos.x + x as i32,
                                y: next_level_center.pos.y + y as i32,
                                z: next_level_center.pos.z + z as i32,
                            },
                        };
                        let children = match next_level_pos.children() {
                            Some(children) => children,
                            None => {
                                proof {
                                    assert(false);
                                }
                                Vec::new()
                            },
                        };
                        let mut ci: usize = 0;
                        while ci < children.len()
                            invariant
                                ci <= children@.len(),
                                children@.len() == 8,
                                needed.wf(),
                                forall|p: LodPos| #[trigger]
                                    needed.has(p) == (cube_walk_state(
                                        center_lod0_chunk,
                                        level_half_thicks@,
                                        round as int,
                                        x as int,
                                        y as int,
                                        z as int,
                                        p,
                                    ) || children@.take(ci as int).contains(p)),
                            decreases children@.len() - ci,
                        {
                            needed.insert(children[ci]);
                            proof {
                                broadcast use vstd::seq_lib::lemma_seq_contains_after_push;

                                assert(children@.take(ci as int).push(children@[ci as int])
                                    =~= children@.take(ci + 1));
                            }
                            ci += 1;
                        }
                        // Drop the coarser cell the children replace.
                        let _ = needed.remove(next_level_pos);
                        proof {
                            assert(children@.take(8) =~= children@);
                            assert forall|p: LodPos| #[trigger]
                                needed.has(p) == cube_walk_state(
                                    center_lod0_chunk,
                                    level_half_thicks@,
                                    round as int,
                                    x as int,
                                    y as int,
                                    z + 1,
                                    p,
                                ) by {
                                assert(needed.has(p) == ((cube_walk_state(
                                    center_lod0_chunk,
                                    level_half_thicks@,
                                    round as int,
                                    x as int,
                                    y as int,
                                    z as int,
                                    p,
                                ) || children@.contains(p)) && p != next_level_pos));
                                let l = p.level as int;
                                if l == round {
                                    // a child of the walked cell is exactly a
                                    // position halving back to it
                                    if children@.contains(p) {
                                        let j = choose|j: int|
                                            0 <= j < children@.len() && children@[j] == p;
                                        assert(2 * next_level_pos.pos.x <= children@[j].pos.x
                                            <= 2 * next_level_pos.pos.x + 1);
                                        lemma_half(
                                            p.pos.x as int,
                                            next_level_pos.pos.x as int,
                                        );
                                        lemma_half(
                                            p.pos.y as int,
                                            next_level_pos.pos.y as int,
                                        );
                                        lemma_half(
                                            p.pos.z as int,
                                            next_level_pos.pos.z as int,
                                        );
                                    }
                                    if cube_walk_state(
                                        center_lod0_chunk,
                                        level_half_thicks@,
                                        round as int,
                                        x as int,
                                        y as int,
                                        z + 1,
                                        p,
                                    ) && !cube_walk_state(
                                        center_lod0_chunk,
                                        level_half_thicks@,
                                        round as int,
                                        x as int,
                                        y as int,
                                        z as int,
                                        p,
                                    ) {
                                        // the one new cell: its children are
                                        // exactly what was pushed
                                        assert(p.pos.x as int / 2 == next_level_pos.pos.x);
                                        assert(p.pos.y as int / 2 == next_level_pos.pos.y);
                                        assert(p.pos.z as int / 2 == next_level_pos.pos.z);
                                        lemma_half_range(
                                            p.pos.x as int,
                                            next_level_pos.pos.x as int,
                                        );
                                        lemma_half_range(
                                            p.pos.y as int,
                                            next_level_pos.pos.y as int,
                                        );
                                        lemma_half_range(
                                            p.pos.z as int,
                                            next_level_pos.pos.z as int,
                                        );
                                        assert(children@.contains(p));
                                    }
                                }
                            }
                        }
                        z += 1;
                    }
                    proof {
                        assert forall|p: LodPos| #[trigger]
                            needed.has(p) == cube_walk_state(
                                center_lod0_chunk,
                                level_half_thicks@,
                                round as int,
                                x as int,
                                y + 1,
                                0,
                                p,
                            ) by {
                            assert(needed.has(p) == cube_walk_state(
                                center_lod0_chunk,
                                level_half_thicks@,
                                round as int,
                                x as int,
                                y as int,
                                half_rad as int,
                                p,
                            ));
                        }
                    }
                    y += 1;
                }
                proof {
                    assert forall|p: LodPos| #[trigger]
                        needed.has(p) == cube_walk_state(
                            center_lod0_chunk,
                            level_half_thicks@,
                            round as int,
                            x + 1,
                            0,
                            0,
                            p,
                        ) by {
                        assert(needed.has(p) == cube_walk_state(
                            center_lod0_chunk,
                            level_half_thicks@,
                            round as int,
                            x as int,
                            half_rad as int,
                            0,
                            p,
                        ));
                    }
                }
                x += 1;
            }
            proof {
                assert forall|p: LodPos| #[trigger]
                    needed.has(p) == rounds_done_state(
                        center_lod0_chunk,
                        level_half_thicks@,
                        round as int,
                        p,
                    ) by {
                    assert(needed.has(p) == cube_walk_state(
                        center_lod0_chunk,
                        level_half_thicks@,
                        round as int,
                        half_rad as int,
                        0,
                        0,
                        p,
                    ));
                }
            }
        }

        proof {
            assert forall|p: LodPos| #[trigger]
                needed.has(p) == required_level_member(
                    center_lod0_chunk,
                    level_half_thicks@,
                    p,
                ) by {
                assert(needed.has(p) == rounds_done_state(
                    center_lod0_chunk,
                    level_half_thicks@,
                    0,
                    p,
                ));
            }
        }
        needed
    }

    /// The transitions the LOD tree needs to reach the required set:
    /// tracked positions that are no longer required are deleted,
    /// required positions that are untracked or still unloaded are
    /// rendered — every such position gets its transition, and no other
    /// transitions are issued.
    pub fn changes_for_required_levels(&self, required_chunks: LodPosSet) -> (r: Vec<
        (LodPos, LodNeededState),
    >)
        requires
            self.wf(),
            required_chunks.wf(),
            self.tree.levels@.len() <= 255,
        ensures
            forall|j: int|
                0 <= j < r@.len() && (#[trigger] r@[j]).1 == LodNeededState::Deleted
                    ==> self.tree.spec_at(r@[j].0) is Some && !required_chunks.has(r@[j].0),
            forall|j: int|
                0 <= j < r@.len() && (#[trigger] r@[j]).1 == LodNeededState::Render
                    ==> required_chunks.has(r@[j].0) && (self.tree.spec_at(r@[j].0) is None || (
                    self.tree.spec_at(r@[j].0) matches Some(ch) && ch.current_state
                        == LodState::Unloaded)),
            forall|i: int, j: int|
                0 <= i < j < r@.len() ==> (#[trigger] r@[i]).0 != (#[trigger] r@[j]).0,
            forall|q: LodPos|
                #![trigger self.tree.spec_at(q)]
                self.tree.spec_at(q) is Some && !required_chunks.has(q) ==> r@.contains(
                    (q, LodNeededState::Deleted),
                ),
            forall|q: LodPos|
                #![trigger self.tree.spec_at(q)]
                (self.tree.spec_at(q) matches Some(ch) && required_chunks.has(q)
                    && ch.current_state == LodState::Unloaded) ==> r@.contains(
                    (q, LodNeededState::Render),
                ),
            forall|q: LodPos|
                #![trigger required_chunks.has(q)]
                required_chunks.has(q) && self.tree.spec_at(q) is None ==> r@.contains(
                    (q, LodNeededState::Render),
                ),
    {
        let mut required = required_chunks;
        let mut required_changes: Vec<(LodPos, LodNeededState)> = Vec::new();

        let mut l: usize = 0;
        while l < self.tree.levels.len()
            invariant
                self.wf(),
                required.wf(),
                required_chunks.wf(),
                l <= self.tree.levels@.len(),
                self.tree.levels@.len() <= 255,
                forall|q: LodPos|
                    #![trigger required.has(q)]
                    required.has(q) == (required_chunks.has(q) && !visited(*self, l as int, 0, q)),
                changes_sound(*self, required_chunks, required_changes@),
                forall|i0: int, j0: int|
                    0 <= i0 < j0 < required_changes@.len() ==> (
                    #[trigger] required_changes@[i0]).0 != (#[trigger] required_changes@[j0]).0,
                forall|j0: int|
                    0 <= j0 < required_changes@.len() ==> visited(
                        *self,
                        l as int,
                        0,
                        (#[trigger] required_changes@[j0]).0,
                    ),
                forall|q: LodPos|
                    #![trigger visited(*self, l as int, 0, q)]
                    visited(*self, l as int, 0, q) ==> change_issued(
                        *self,
                        required_chunks,
                        required_changes@,
                        q,
                    ),
            decreases self.tree.levels@.len() - l,
        {
            let level_map = &self.tree.levels[l];
            let mut e: usize = 0;
            while e < level_map.entries.len()
                invariant
                    self.wf(),
                    required.wf(),
                    required_chunks.wf(),
                    l < self.tree.levels@.len(),
                    self.tree.levels@.len() <= 255,
                    level_map == &self.tree.levels@[l as int],
                    e <= level_map.entries@.len(),
                    forall|q: LodPos|
                        #![trigger required.has(q)]
                        required.has(q) == (required_chunks.has(q) && !visited(
                            *self,
                            l as int,
                            e as int,
                            q,
                        )),
                    changes_sound(*self, required_chunks, required_changes@),
                    forall|i0: int, j0: int|
                        0 <= i0 < j0 < required_changes@.len() ==> (
                        #[trigger] required_changes@[i0]).0 != (
                        #[trigger] required_changes@[j0]).0,
                    forall|j0: int|
                        0 <= j0 < required_changes@.len() ==> visited(
                            *self,
                            l as int,
                            e as int,
                            (#[trigger] required_changes@[j0]).0,
                        ),
                    forall|q: LodPos|
                        #![trigger visited(*self, l as int, e as int, q)]
                        visited(*self, l as int, e as int, q) ==> change_issued(
                            *self,
                            required_chunks,
                            required_changes@,
                            q,
                        ),
                decreases level_map.entries@.len() - e,
            {
                let (k, chunk) = &level_map.entries[e];
                let pos = LodPos { level: l as u8, pos: *k };
                proof {
                    crate::posmap::lemma_entries_map_char(level_map.entries@);
                    assert(self.tree.levels@[l as int]@.contains_key(*k));
                    assert(self.tree.spec_at(pos) == Some(
                        self.tree.levels@[l as int]@[pos.pos],
                    ));
                    assert(self.tree.levels@[l as int]@[pos.pos] == level_map.entries@[
                    e as int].1);
                    // this entry has not been visited: keys within a level
                    // are unique
                    assert(!visited(*self, l as int, e as int, pos)) by {
                        if exists|i0: int|
                            0 <= i0 < e && (#[trigger] level_map.entries@[i0]).0 == pos.pos {
                            let i0 = choose|i0: int|
                                0 <= i0 < e && (#[trigger] level_map.entries@[i0]).0 == pos.pos;
                            assert(level_map.entries@[i0].0 == level_map.entries@[e as int].0);
                            assert(false);
                        }
                    }
                }
                let ghost pre_changes = required_changes@;
                if required.remove(pos) {
                    if matches!(chunk.current_state, LodState::Unloaded) {
                        required_changes.push((pos, LodNeededState::Render));
                    }
                } else {
                    required_changes.push((pos, LodNeededState::Deleted));
                }
                proof {
                    assert forall|j: int|
                        0 <= j < pre_changes.len() implies required_changes@.contains(
                        #[trigger] pre_changes[j],
                    ) by {
                        assert(required_changes@[j] == pre_changes[j]);
                    }
                    if required_changes@.len() > pre_changes.len() {
                        assert(required_changes@.contains(
                            required_changes@[pre_changes.len() as int],
                        ));
                        assert(required_changes@[pre_changes.len() as int].0 == pos);
                    }
                    assert(level_map.entries@[e as int].0 == pos.pos);
                    assert forall|j0: int|
                        0 <= j0 < required_changes@.len() implies visited(
                        *self,
                        l as int,
                        e + 1,
                        (#[trigger] required_changes@[j0]).0,
                    ) by {
                        if j0 < pre_changes.len() {
                            assert(visited(*self, l as int, e as int, pre_changes[j0].0));
                        } else {
                            assert(required_changes@[j0].0 == pos);
                        }
                    }
                    assert forall|i0: int, j0: int|
                        0 <= i0 < j0 < required_changes@.len() implies (
                    #[trigger] required_changes@[i0]).0 != (
                    #[trigger] required_changes@[j0]).0 by {
                        if j0 >= pre_changes.len() {
                            assert(required_changes@[j0].0 == pos);
                            assert(visited(*self, l as int, e as int, required_changes@[i0].0));
                        }
                    }
                    assert forall|q: LodPos| #![trigger visited(*self, l as int, e + 1, q)]
                        visited(*self, l as int, e + 1, q) implies change_issued(
                        *self,
                        required_chunks,
                        required_changes@,
                        q,
                    ) by {
                        if q == pos {
                            assert(change_issued(*self, required_chunks, required_changes@, q));
                        } else if visited(*self, l as int, e as int, q) {
                            assert(change_issued(*self, required_chunks, pre_changes, q));
                        } else {
                            assert(q.level as int == l);
                            let i0 = choose|i0: int|
                                0 <= i0 < e + 1 && (#[trigger] level_map.entries@[i0]).0
                                    == q.pos;
                            assert(i0 == e);
                            assert(q.pos == pos.pos && q.level == pos.level);
                            assert(false);
                        }
                    }
                }
                e += 1;
            }
            proof {
                crate::posmap::lemma_entries_map_char(level_map.entries@);
                assert forall|q: LodPos| #![trigger visited(*self, l + 1, 0, q)]
                    visited(*self, l + 1, 0, q) implies visited(
                    *self,
                    l as int,
                    level_map.entries@.len() as int,
                    q,
                ) by {
                    if q.level as int == l {
                        assert(self.tree.levels@[l as int]@.contains_key(q.pos));
                    }
                }
                assert forall|j0: int|
                    0 <= j0 < required_changes@.len() implies visited(
                    *self,
                    l + 1,
                    0,
                    (#[trigger] required_changes@[j0]).0,
                ) by {
                    assert(visited(
                        *self,
                        l as int,
                        level_map.entries@.len() as int,
                        required_changes@[j0].0,
                    ));
                }
                assert forall|q: LodPos| #![trigger required.has(q)] required.has(q) == (
                required_chunks.has(q) && !visited(*self, l + 1, 0, q)) by {
                    if visited(*self, l + 1, 0, q) && !visited(
                        *self,
                        l as int,
                        level_map.entries@.len() as int,
                        q,
                    ) {
                        assert(false);
                    }
                    if visited(*self, l as int, level_map.entries@.len() as int, q) {
                        assert(visited(*self, l + 1, 0, q));
                    }
                }
            }
            l += 1;
        }

        proof {
            assert forall|q: LodPos| #![trigger self.tree.spec_at(q)]
                self.tree.spec_at(q) is Some implies change_issued(
                *self,
                required_chunks,
                required_changes@,
                q,
            ) by {
                assert((q.level as int) < self.tree.levels@.len());
                assert(visited(*self, self.tree.levels@.len() as int, 0, q));
            }
            assert forall|j0: int|
                0 <= j0 < required_changes@.len() implies self.tree.spec_at(
                (#[trigger] required_changes@[j0]).0,
            ) is Some by {
                assert(visited(
                    *self,
                    self.tree.levels@.len() as int,
                    0,
                    required_changes@[j0].0,
                ));
            }
            assert forall|q: LodPos| #![trigger required.has(q)] required.has(q) == (
            required_chunks.has(q) && self.tree.spec_at(q) is None) by {
                if self.tree.spec_at(q) is Some {
                    assert(visited(*self, self.tree.levels@.len() as int, 0, q));
                }
                if visited(*self, self.tree.levels@.len() as int, 0, q) {
                    assert(self.tree.spec_at(q) is Some);
                }
            }
        }

        // Everything still required and not yet tracked must be rendered.
        let mut i: usize = 0;
        while i < required.items.len()
            invariant
                self.wf(),
                required.wf(),
                required_chunks.wf(),
                forall|q: LodPos|
                    #![trigger required.has(q)]
                    required.has(q) == (required_chunks.has(q) && self.tree.spec_at(q)
                        is None),
                i <= required.items@.len(),
                changes_sound(*self, required_chunks, required_changes@),
                forall|q: LodPos|
                    #![trigger self.tree.spec_at(q)]
                    self.tree.spec_at(q) is Some ==> change_issued(
                        *self,
                        required_chunks,
                        required_changes@,
                        q,
                    ),
                forall|i0: int|
                    0 <= i0 < i ==> required_changes@.contains(
                        (#[trigger] required.items@[i0], LodNeededState::Render),
                    ),
                forall|i0: int, j0: int|
                    0 <= i0 < j0 < required_changes@.len() ==> (
                    #[trigger] required_changes@[i0]).0 != (#[trigger] required_changes@[j0]).0,
                forall|j0: int|
                    0 <= j0 < required_changes@.len() ==> self.tree.spec_at(
                        (#[trigger] required_changes@[j0]).0,
                    ) is Some || (exists|i0: int|
                        0 <= i0 < i && required.items@[i0] == required_changes@[j0].0),
            decreases required.items@.len() - i,
        {
            let needed_pos = required.items[i];
            proof {
                assert(required.items@.contains(required.items@[i as int]));
                assert(required.has(needed_pos));
                assert(required_chunks.has(needed_pos));
            }
            let ghost pre_changes = required_changes@;
            required_changes.push((needed_pos, LodNeededState::Render));
            proof {
                assert forall|j: int|
                    0 <= j < pre_changes.len() implies required_changes@.contains(
                    #[trigger] pre_changes[j],
                ) by {
                    assert(required_changes@[j] == pre_changes[j]);
                }
                assert(required_changes@.contains(
                    required_changes@[pre_changes.len() as int],
                ));
                assert(required_changes@[pre_changes.len() as int].0 == needed_pos);
                assert(self.tree.spec_at(needed_pos) is None);
                assert forall|i0: int, j0: int|
                    0 <= i0 < j0 < required_changes@.len() implies (
                #[trigger] required_changes@[i0]).0 != (#[trigger] required_changes@[j0]).0 by {
                    if j0 >= pre_changes.len() {
                        assert(required_changes@[j0].0 == needed_pos);
                        if self.tree.spec_at(required_changes@[i0].0) is None {
                            let w0 = choose|w0: int|
                                0 <= w0 < i && required.items@[w0] == required_changes@[i0].0;
                            assert(required.items@[w0] != required.items@[i as int]);
                        }
                    }
                }
                assert forall|j0: int|
                    0 <= j0 < required_changes@.len() implies self.tree.spec_at(
                    (#[trigger] required_changes@[j0]).0,
                ) is Some || (exists|i0: int|
                    0 <= i0 < i + 1 && required.items@[i0] == required_changes@[j0].0) by {
                    if j0 >= pre_changes.len() {
                        assert(required.items@[i as int] == required_changes@[j0].0);
                    } else {
                        if !(self.tree.spec_at(required_changes@[j0].0) is Some) {
                            let w0 = choose|w0: int|
                                0 <= w0 < i && required.items@[w0] == required_changes@[j0].0;
                            assert(0 <= w0 < i + 1 && required.items@[w0]
                                == required_changes@[j0].0);
                        }
                    }
                }
            }
            i += 1;
        }
        proof {
            assert forall|q: LodPos| #![trigger required_chunks.has(q)]
                required_chunks.has(q) && self.tree.spec_at(q) is None implies
                required_changes@.contains((q, LodNeededState::Render)) by {
                assert(required.has(q));
                let i0 = choose|i0: int|
                    0 <= i0 < required.items@.len() && required.items@[i0] == q;
            }
        }

        required_changes
    }

    /// Updates the state of a tracked LOD chunk; no effect on untracked
    /// positions.
    pub fn set_state_if_present(&mut self, pos: LodPos, state: LodState)
        requires
            old(self).wf(),
        ensures
            final(self).wf(),
            old(self).tree.spec_at(pos) is None ==> final(self).tree.spec_at(pos) is None,
            forall|q: LodPos| q != pos ==> final(self).tree.spec_at(q) == old(
                self,
            ).tree.spec_at(q),
    {
        match self.tree.take_at(pos) {
            Some(lod_at) => {
                let updated = LodChunk { current_state: state, ..lod_at };
                self.tree.insert(pos, updated);
            },
            None => {},
        }
    }
}

} // verus!
