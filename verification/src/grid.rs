//! Integer 3-D geometry for the machine: positions, axis-aligned directions,
//! quarter-turn rotation in the X-Y plane, and a dense bounds-checked grid.

use vstd::prelude::*;

verus! {

/// Sign of a direction along an axis.
#[derive(Clone, Copy, PartialEq, Eq, Debug, Hash, Structural)]
pub enum Sign {
    Pos,
    Neg,
}

/// One of the three coordinate axes.
#[derive(Clone, Copy, PartialEq, Eq, Debug, Hash, Structural)]
pub enum Axis3 {
    X,
    Y,
    Z,
}

/// One of the six axis-aligned unit directions.
#[derive(Clone, Copy, PartialEq, Eq, Debug, Hash, Structural)]
pub enum Dir3 {
    XPos,
    XNeg,
    YPos,
    YNeg,
    ZPos,
    ZNeg,
}

/// An integer grid position.
#[derive(Clone, Copy, PartialEq, Eq, Debug, Hash, Structural)]
pub struct Point3 {
    pub x: isize,
    pub y: isize,
    pub z: isize,
}

/// An integer 3-vector; also used for grid sizes.
#[derive(Clone, Copy, PartialEq, Eq, Debug, Hash, Structural)]
pub struct Vector3 {
    pub x: isize,
    pub y: isize,
    pub z: isize,
}

impl Point3 {
    pub fn new(x: isize, y: isize, z: isize) -> (r: Point3)
        ensures
            r == (Point3 { x, y, z }),
    {
        Point3 { x, y, z }
    }

    /// The neighbouring position one step in direction `d`.
    pub open spec fn spec_add_dir(self, d: Dir3) -> Point3 {
        match d {
            Dir3::XPos => Point3 { x: (self.x + 1) as isize, ..self },
            Dir3::XNeg => Point3 { x: (self.x - 1) as isize, ..self },
            Dir3::YPos => Point3 { y: (self.y + 1) as isize, ..self },
            Dir3::YNeg => Point3 { y: (self.y - 1) as isize, ..self },
            Dir3::ZPos => Point3 { z: (self.z + 1) as isize, ..self },
            Dir3::ZNeg => Point3 { z: (self.z - 1) as isize, ..self },
        }
    }

    #[verifier::when_used_as_spec(spec_add_dir)]
    pub fn add_dir(self, d: Dir3) -> (r: Point3)
        requires
            isize::MIN < self.x < isize::MAX,
            isize::MIN < self.y < isize::MAX,
            isize::MIN < self.z < isize::MAX,
        ensures
            r == self.spec_add_dir(d),
    {
        match d {
            Dir3::XPos => Point3 { x: self.x + 1, ..self },
            Dir3::XNeg => Point3 { x: self.x - 1, ..self },
            Dir3::YPos => Point3 { y: self.y + 1, ..self },
            Dir3::YNeg => Point3 { y: self.y - 1, ..self },
            Dir3::ZPos => Point3 { z: self.z + 1, ..self },
            Dir3::ZNeg => Point3 { z: self.z - 1, ..self },
        }
    }
}

impl Vector3 {
    pub fn new(x: isize, y: isize, z: isize) -> (r: Vector3)
        ensures
            r == (Vector3 { x, y, z }),
    {
        Vector3 { x, y, z }
    }
}

impl Dir3 {
    pub open spec fn spec_axis(self) -> Axis3 {
        match self {
            Dir3::XPos | Dir3::XNeg => Axis3::X,
            Dir3::YPos | Dir3::YNeg => Axis3::Y,
            Dir3::ZPos | Dir3::ZNeg => Axis3::Z,
        }
    }

    #[verifier::when_used_as_spec(spec_axis)]
    pub fn axis(self) -> (r: Axis3)
        ensures
            r == self.spec_axis(),
    {
        match self {
            Dir3::XPos | Dir3::XNeg => Axis3::X,
            Dir3::YPos | Dir3::YNeg => Axis3::Y,
            Dir3::ZPos | Dir3::ZNeg => Axis3::Z,
        }
    }

    pub open spec fn spec_sign(self) -> Sign {
        match self {
            Dir3::XPos | Dir3::YPos | Dir3::ZPos => Sign::Pos,
            Dir3::XNeg | Dir3::YNeg | Dir3::ZNeg => Sign::Neg,
        }
    }

    #[verifier::when_used_as_spec(spec_sign)]
    pub fn sign(self) -> (r: Sign)
        ensures
            r == self.spec_sign(),
    {
        match self {
            Dir3::XPos | Dir3::YPos | Dir3::ZPos => Sign::Pos,
            Dir3::XNeg | Dir3::YNeg | Dir3::ZNeg => Sign::Neg,
        }
    }

    /// The opposite direction.
    pub open spec fn spec_invert(self) -> Dir3 {
        match self {
            Dir3::XPos => Dir3::XNeg,
            Dir3::XNeg => Dir3::XPos,
            Dir3::YPos => Dir3::YNeg,
            Dir3::YNeg => Dir3::YPos,
            Dir3::ZPos => Dir3::ZNeg,
            Dir3::ZNeg => Dir3::ZPos,
        }
    }

    #[verifier::when_used_as_spec(spec_invert)]
    pub fn invert(self) -> (r: Dir3)
        ensures
            r == self.spec_invert(),
    {
        match self {
            Dir3::XPos => Dir3::XNeg,
            Dir3::XNeg => Dir3::XPos,
            Dir3::YPos => Dir3::YNeg,
            Dir3::YNeg => Dir3::YPos,
            Dir3::ZPos => Dir3::ZNeg,
            Dir3::ZNeg => Dir3::ZPos,
        }
    }

    /// One quarter turn clockwise in the X-Y plane (looking down the Z axis):
    /// `XPos -> YPos -> XNeg -> YNeg -> XPos`. The Z directions never rotate.
    pub open spec fn spec_rotated_cw_xy(self) -> Dir3 {
        match self {
            Dir3::XPos => Dir3::YPos,
            Dir3::YPos => Dir3::XNeg,
            Dir3::XNeg => Dir3::YNeg,
            Dir3::YNeg => Dir3::XPos,
            Dir3::ZPos => Dir3::ZPos,
            Dir3::ZNeg => Dir3::ZNeg,
        }
    }

    #[verifier::when_used_as_spec(spec_rotated_cw_xy)]
    pub fn rotated_cw_xy(self) -> (r: Dir3)
        ensures
            r == self.spec_rotated_cw_xy(),
    {
        match self {
            Dir3::XPos => Dir3::YPos,
            Dir3::YPos => Dir3::XNeg,
            Dir3::XNeg => Dir3::YNeg,
            Dir3::YNeg => Dir3::XPos,
            Dir3::ZPos => Dir3::ZPos,
            Dir3::ZNeg => Dir3::ZNeg,
        }
    }

    /// One quarter turn counter-clockwise in the X-Y plane; the inverse of
    /// `rotated_cw_xy`.
    pub open spec fn spec_rotated_ccw_xy(self) -> Dir3 {
        match self {
            Dir3::XPos => Dir3::YNeg,
            Dir3::YNeg => Dir3::XNeg,
            Dir3::XNeg => Dir3::YPos,
            Dir3::YPos => Dir3::XPos,
            Dir3::ZPos => Dir3::ZPos,
            Dir3::ZNeg => Dir3::ZNeg,
        }
    }

    #[verifier::when_used_as_spec(spec_rotated_ccw_xy)]
    pub fn rotated_ccw_xy(self) -> (r: Dir3)
        ensures
            r == self.spec_rotated_ccw_xy(),
    {
        match self {
            Dir3::XPos => Dir3::YNeg,
            Dir3::YNeg => Dir3::XNeg,
            Dir3::XNeg => Dir3::YPos,
            Dir3::YPos => Dir3::XPos,
            Dir3::ZPos => Dir3::ZPos,
            Dir3::ZNeg => Dir3::ZNeg,
        }
    }

    pub open spec fn spec_to_vector(self) -> Vector3 {
        match self {
            Dir3::XPos => Vector3 { x: 1, y: 0, z: 0 },
            Dir3::XNeg => Vector3 { x: -1isize, y: 0, z: 0 },
            Dir3::YPos => Vector3 { x: 0, y: 1, z: 0 },
            Dir3::YNeg => Vector3 { x: 0, y: -1isize, z: 0 },
            Dir3::ZPos => Vector3 { x: 0, y: 0, z: 1 },
            Dir3::ZNeg => Vector3 { x: 0, y: 0, z: -1isize },
        }
    }

    #[verifier::when_used_as_spec(spec_to_vector)]
    pub fn to_vector(self) -> (r: Vector3)
        ensures
            r == self.spec_to_vector(),
    {
        match self {
            Dir3::XPos => Vector3 { x: 1, y: 0, z: 0 },
            Dir3::XNeg => Vector3 { x: -1isize, y: 0, z: 0 },
            Dir3::YPos => Vector3 { x: 0, y: 1, z: 0 },
            Dir3::YNeg => Vector3 { x: 0, y: -1isize, z: 0 },
            Dir3::ZPos => Vector3 { x: 0, y: 0, z: 1 },
            Dir3::ZNeg => Vector3 { x: 0, y: 0, z: -1isize },
        }
    }

    /// The canonical enumeration order of the six directions. Tie-breaks in
    /// the execution engine (which move port a blip takes first) follow it.
    pub open spec fn spec_all() -> Seq<Dir3> {
        seq![Dir3::XPos, Dir3::XNeg, Dir3::YPos, Dir3::YNeg, Dir3::ZPos, Dir3::ZNeg]
    }

    pub fn all() -> (r: Vec<Dir3>)
        ensures
            r@ == Dir3::spec_all(),
    {
        let r = vec![
            Dir3::XPos,
            Dir3::XNeg,
            Dir3::YPos,
            Dir3::YNeg,
            Dir3::ZPos,
            Dir3::ZNeg,
        ];
        proof {
            assert(r@ =~= Dir3::spec_all());
        }
        r
    }
}

/// A size is usable when each extent is non-negative and the cell count fits
/// in `usize`.
pub open spec fn size_ok(size: Vector3) -> bool {
    &&& 0 <= size.x
    &&& 0 <= size.y
    &&& 0 <= size.z
    &&& size.x * size.y * size.z <= usize::MAX as int
}

/// A position is valid for a size when each coordinate lies in `[0, extent)`.
pub open spec fn valid_pos_spec(size: Vector3, p: Point3) -> bool {
    &&& 0 <= p.x < size.x
    &&& 0 <= p.y < size.y
    &&& 0 <= p.z < size.z
}

/// Row-major linear index of a valid position.
pub open spec fn flat_idx(size: Vector3, p: Point3) -> int {
    (p.x * size.y + p.y) * size.z + p.z
}

/// A valid position's linear index lies within the cell count.
pub proof fn lemma_flat_idx_bounds(size: Vector3, p: Point3)
    requires
        size_ok(size),
        valid_pos_spec(size, p),
    ensures
        0 <= flat_idx(size, p) < size.x * size.y * size.z,
{
    let sx = size.x as int;
    let sy = size.y as int;
    let sz = size.z as int;
    assert(0 <= (p.x * sy + p.y) * sz + p.z < sx * sy * sz) by (nonlinear_arith)
        requires
            0 <= p.x < sx,
            0 <= p.y < sy,
            0 <= p.z < sz,
    {
    }
}

/// Every intermediate value of the row-major index computation stays within
/// `usize`.
pub proof fn lemma_flat_idx_no_overflow(size: Vector3, p: Point3)
    requires
        size_ok(size),
        valid_pos_spec(size, p),
    ensures
        0 <= p.x * size.y,
        p.x * size.y + p.y <= usize::MAX as int,
        0 <= (p.x * size.y + p.y) * size.z,
        (p.x * size.y + p.y) * size.z + p.z <= usize::MAX as int,
{
    let sx = size.x as int;
    let sy = size.y as int;
    let sz = size.z as int;
    assert(0 <= p.x * sy && p.x * sy + p.y < sx * sy && 0 <= (p.x * sy + p.y) * sz && (p.x * sy
        + p.y) * sz + p.z < sx * sy * sz) by (nonlinear_arith)
        requires
            0 <= p.x < sx,
            0 <= p.y < sy,
            0 <= p.z < sz,
    {
    }
    assert(sx * sy <= sx * sy * sz) by (nonlinear_arith)
        requires
            0 <= sx,
            0 <= sy,
            1 <= sz,
    {
    }
}

/// Distinct valid positions have distinct linear indices.
pub proof fn lemma_flat_idx_injective(size: Vector3, p: Point3, q: Point3)
    requires
        size_ok(size),
        valid_pos_spec(size, p),
        valid_pos_spec(size, q),
        flat_idx(size, p) == flat_idx(size, q),
    ensures
        p == q,
{
    let sy = size.y as int;
    let sz = size.z as int;
    let a = p.x * sy + p.y;
    let b = q.x * sy + q.y;
    assert(a == b && p.z == q.z) by (nonlinear_arith)
        requires
            a * sz + p.z == b * sz + q.z,
            0 <= p.z < sz,
            0 <= q.z < sz,
    {
    }
    assert(p.x == q.x && p.y == q.y) by (nonlinear_arith)
        requires
            p.x * sy + p.y == q.x * sy + q.y,
            0 <= p.y < sy,
            0 <= q.y < sy,
    {
    }
}

/// A dense 3-D array over all positions within a fixed size. Pure container:
/// out-of-range queries answer `None`, in-range mutation is bounds-checked by
/// precondition.
#[derive(Clone, PartialEq, Eq, Debug)]
pub struct Grid3<T> {
    pub size: Vector3,
    pub cells: Vec<T>,
}

impl<T: Copy> Grid3<T> {
    /// Structural well-formedness: the backing vector covers every cell.
    pub open spec fn wf(self) -> bool {
        &&& size_ok(self.size)
        &&& self.cells@.len() == self.size.x * self.size.y * self.size.z
    }

    pub open spec fn spec_valid_pos(self, p: Point3) -> bool {
        valid_pos_spec(self.size, p)
    }

    /// The cell content at a valid position.
    pub open spec fn at(self, p: Point3) -> T
        recommends
            self.wf(),
            self.spec_valid_pos(p),
    {
        self.cells@[flat_idx(self.size, p)]
    }

    pub fn new(size: Vector3, fill: T) -> (r: Grid3<T>)
        requires
            size_ok(size),
        ensures
            r.wf(),
            r.size == size,
            forall|p: Point3| valid_pos_spec(size, p) ==> r.at(p) == fill,
    {
        let n: usize = if size.x == 0 || size.y == 0 || size.z == 0 {
            0
        } else {
            proof {
                assert(size.x * size.y <= size.x * size.y * size.z && size.x
                    * size.y * size.z <= usize::MAX as int) by (nonlinear_arith)
                    requires
                        1 <= size.x,
                        1 <= size.y,
                        1 <= size.z,
                        size.x * size.y * size.z <= usize::MAX as int,
                {
                }
            }
            (size.x as usize) * (size.y as usize) * (size.z as usize)
        };
        proof {
            assert(size.x == 0 || size.y == 0 || size.z == 0 ==> size.x * size.y * size.z == 0)
                by (nonlinear_arith);
        }
        let mut cells: Vec<T> = Vec::new();
        let mut i: usize = 0;
        while i < n
            invariant
                i <= n,
                cells@.len() == i,
                forall|k: int| 0 <= k < i ==> cells@[k] == fill,
            decreases n - i,
        {
            cells.push(fill);
            i = i + 1;
        }
        let r = Grid3 { size, cells };
        proof {
            assert forall|p: Point3| valid_pos_spec(size, p) implies r.at(p) == fill by {
                lemma_flat_idx_bounds(size, p);
            }
        }
        r
    }

    pub fn size(&self) -> (r: Vector3)
        ensures
            r == self.size,
    {
        self.size
    }

    pub fn is_valid_pos(&self, p: &Point3) -> (r: bool)
        ensures
            r == self.spec_valid_pos(*p),
    {
        0 <= p.x && p.x < self.size.x && 0 <= p.y && p.y < self.size.y && 0 <= p.z && p.z
            < self.size.z
    }

    /// Row-major linear index of a valid position, as executable arithmetic.
    fn flat_index(&self, p: &Point3) -> (idx: usize)
        requires
            self.wf(),
            self.spec_valid_pos(*p),
        ensures
            idx == flat_idx(self.size, *p),
            idx < self.cells@.len(),
    {
        proof {
            lemma_flat_idx_no_overflow(self.size, *p);
            lemma_flat_idx_bounds(self.size, *p);
        }
        ((p.x as usize) * (self.size.y as usize) + (p.y as usize)) * (self.size.z as usize) + (
        p.z as usize)
    }

    /// Bounds-checked read: `None` for out-of-range positions.
    pub fn get(&self, p: &Point3) -> (r: Option<T>)
        requires
            self.wf(),
        ensures
            r == if self.spec_valid_pos(*p) {
                Some(self.at(*p))
            } else {
                None::<T>
            },
    {
        if self.is_valid_pos(p) {
            let idx = self.flat_index(p);
            Some(self.cells[idx])
        } else {
            None
        }
    }

    /// Write a valid cell; all other cells are untouched.
    pub fn set(&mut self, p: &Point3, v: T)
        requires
            old(self).wf(),
            old(self).spec_valid_pos(*p),
        ensures
            final(self).wf(),
            final(self).size == old(self).size,
            final(self).at(*p) == v,
            final(self).cells@ == old(self).cells@.update(flat_idx(old(self).size, *p), v),
            forall|q: Point3|
                old(self).spec_valid_pos(q) && q != *p ==> final(self).at(q) == old(self).at(q),
    {
        let idx = self.flat_index(p);
        self.cells.set(idx, v);
        proof {
            assert forall|q: Point3|
                old(self).spec_valid_pos(q) && q != *p implies self.at(q) == old(self).at(
                q,
            ) by {
                lemma_flat_idx_bounds(old(self).size, q);
                if flat_idx(old(self).size, q) == flat_idx(old(self).size, *p) {
                    lemma_flat_idx_injective(old(self).size, q, *p);
                }
            }
        }
    }
}

} // verus!
