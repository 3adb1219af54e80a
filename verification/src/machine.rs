//! The block model: token kinds, the closed catalog of block variants with
//! their per-direction port geometry, rotated placement, and the machine that
//! stores placed blocks in a grid-indexed slot arena.

use vstd::prelude::*;

verus! {

use crate::arena::{live_list, live_pairs, lemma_live_pairs_complete, lemma_live_pairs_sound, Arena};
use crate::grid::{flat_idx, size_ok, valid_pos_spec, Dir3, Grid3, Point3, Sign, Vector3};
use crate::level::{Input, Level};

/// Tick counter type.
pub type TickNum = usize;

/// Token colour; a three-valued cycle also used as a matching filter.
#[derive(Clone, Copy, PartialEq, Eq, Debug, Structural)]
pub enum BlipKind {
    A,
    B,
    C,
}

impl Default for BlipKind {
    fn default() -> (r: BlipKind)
        ensures
            r == BlipKind::A,
    {
        BlipKind::A
    }
}

impl BlipKind {
    pub open spec fn spec_name(self) -> Seq<char> {
        match self {
            BlipKind::A => "a"@,
            BlipKind::B => "b"@,
            BlipKind::C => "c"@,
        }
    }

    pub fn name(self) -> (r: &'static str)
        ensures
            r@ == self.spec_name(),
    {
        match self {
            BlipKind::A => "a",
            BlipKind::B => "b",
            BlipKind::C => "c",
        }
    }

    /// The next colour in the cycle `A -> B -> C -> A`.
    pub open spec fn spec_next(self) -> BlipKind {
        match self {
            BlipKind::A => BlipKind::B,
            BlipKind::B => BlipKind::C,
            BlipKind::C => BlipKind::A,
        }
    }

    #[verifier::when_used_as_spec(spec_next)]
    pub fn next(self) -> (r: BlipKind)
        ensures
            r == self.spec_next(),
    {
        match self {
            BlipKind::A => BlipKind::B,
            BlipKind::B => BlipKind::C,
            BlipKind::C => BlipKind::A,
        }
    }
}

/// A block variant. The geometry of each variant is expressed in its local
/// frame: for instance `BlipWindSource` takes its activating token on its
/// local `YNeg` face. `PlacedBlock` rotates queries into this frame.
///
/// The `activated`, `num_spawns`, `kind` and `expected_next_kind` fields are
/// execution-time bookkeeping; everything else is immutable shape.
#[derive(Clone, Copy, PartialEq, Eq, Debug, Structural)]
pub enum Block {
    Pipe(Dir3, Dir3),
    PipeSplitXY { open_move_hole_y: Sign },
    PipeMergeXY,
    FunnelXY,
    WindSource,
    BlipSpawn { kind: BlipKind, num_spawns: Option<usize>, activated: Option<TickNum> },
    BlipDuplicator { kind: Option<BlipKind>, activated: Option<BlipKind> },
    BlipWindSource { activated: bool },
    Solid,
    Input { index: usize, activated: Option<Input> },
    Output { index: usize, expected_next_kind: Option<BlipKind> },
}

impl Block {
    /// Wind port in local direction `dir` (either flow direction).
    pub open spec fn spec_has_wind_hole(self, dir: Dir3) -> bool {
        match self {
            Block::Pipe(dir_a, dir_b) => dir == dir_a || dir == dir_b,
            Block::PipeSplitXY { .. } => dir == Dir3::YNeg || dir == Dir3::YPos || dir
                == Dir3::XPos,
            Block::PipeMergeXY => dir != Dir3::ZNeg && dir != Dir3::ZPos,
            Block::FunnelXY => dir == Dir3::YNeg || dir == Dir3::YPos,
            Block::WindSource => true,
            Block::BlipSpawn { .. } => true,
            Block::BlipDuplicator { .. } => true,
            Block::BlipWindSource { .. } => true,
            Block::Solid => true,
            Block::Input { .. } => dir == Dir3::XPos,
            Block::Output { .. } => dir != Dir3::ZNeg,
        }
    }

    #[verifier::when_used_as_spec(spec_has_wind_hole)]
    pub fn has_wind_hole(self, dir: Dir3) -> (r: bool)
        ensures
            r == self.spec_has_wind_hole(dir),
    {
        match self {
            Block::Pipe(dir_a, dir_b) => dir == dir_a || dir == dir_b,
            Block::PipeSplitXY { .. } => dir == Dir3::YNeg || dir == Dir3::YPos || dir
                == Dir3::XPos,
            Block::PipeMergeXY => dir != Dir3::ZNeg && dir != Dir3::ZPos,
            Block::FunnelXY => dir == Dir3::YNeg || dir == Dir3::YPos,
            Block::WindSource => true,
            Block::BlipSpawn { .. } => true,
            Block::BlipDuplicator { .. } => true,
            Block::BlipWindSource { .. } => true,
            Block::Solid => true,
            Block::Input { .. } => dir == Dir3::XPos,
            Block::Output { .. } => dir != Dir3::ZNeg,
        }
    }

    /// Wind may enter through local direction `dir`. Defaults to the general
    /// wind port; the funnel admits wind only on `YNeg`, and a wind source
    /// never takes wind in.
    pub open spec fn spec_has_wind_hole_in(self, dir: Dir3) -> bool {
        match self {
            Block::FunnelXY => dir == Dir3::YNeg,
            Block::WindSource => false,
            _ => self.spec_has_wind_hole(dir),
        }
    }

    #[verifier::when_used_as_spec(spec_has_wind_hole_in)]
    pub fn has_wind_hole_in(self, dir: Dir3) -> (r: bool)
        ensures
            r == self.spec_has_wind_hole_in(dir),
    {
        match self {
            Block::FunnelXY => dir == Dir3::YNeg,
            Block::WindSource => false,
            _ => self.has_wind_hole(dir),
        }
    }

    /// Wind may leave through local direction `dir`. Defaults to the general
    /// wind port; the funnel emits only on `YPos`, duplicators and outputs
    /// never emit, and a blip-activated wind source emits everywhere but its
    /// activating face.
    pub open spec fn spec_has_wind_hole_out(self, dir: Dir3) -> bool {
        match self {
            Block::FunnelXY => dir == Dir3::YPos,
            Block::BlipDuplicator { .. } => false,
            Block::BlipWindSource { .. } => dir != Dir3::YNeg,
            Block::Output { .. } => false,
            _ => self.spec_has_wind_hole(dir),
        }
    }

    #[verifier::when_used_as_spec(spec_has_wind_hole_out)]
    pub fn has_wind_hole_out(self, dir: Dir3) -> (r: bool)
        ensures
            r == self.spec_has_wind_hole_out(dir),
    {
        match self {
            Block::FunnelXY => dir == Dir3::YPos,
            Block::BlipDuplicator { .. } => false,
            Block::BlipWindSource { .. } => dir != Dir3::YNeg,
            Block::Output { .. } => false,
            _ => self.has_wind_hole(dir),
        }
    }

    /// Token port in local direction `dir`. Defaults to the wind port set;
    /// the split exposes only its open branch and `XPos`, a duplicator takes
    /// tokens on every face, and a blip-activated wind source only on its
    /// activating face.
    pub open spec fn spec_has_move_hole(self, dir: Dir3) -> bool {
        match self {
            Block::PipeSplitXY { open_move_hole_y } => (dir.spec_axis() == crate::grid::Axis3::Y
                && dir.spec_sign() == open_move_hole_y) || dir == Dir3::XPos,
            Block::BlipDuplicator { .. } => true,
            Block::BlipWindSource { .. } => dir == Dir3::YNeg,
            _ => self.spec_has_wind_hole(dir),
        }
    }

    #[verifier::when_used_as_spec(spec_has_move_hole)]
    pub fn has_move_hole(self, dir: Dir3) -> (r: bool)
        ensures
            r == self.spec_has_move_hole(dir),
    {
        match self {
            Block::PipeSplitXY { open_move_hole_y } => (dir.axis() == crate::grid::Axis3::Y
                && dir.sign() == open_move_hole_y) || dir == Dir3::XPos,
            Block::BlipDuplicator { .. } => true,
            Block::BlipWindSource { .. } => dir == Dir3::YNeg,
            _ => self.has_wind_hole(dir),
        }
    }

    /// The mutable token colour carried by spawners and picky duplicators.
    pub open spec fn spec_kind(self) -> Option<BlipKind> {
        match self {
            Block::BlipSpawn { kind, .. } => Some(kind),
            Block::BlipDuplicator { kind, .. } => kind,
            _ => None,
        }
    }

    #[verifier::when_used_as_spec(spec_kind)]
    pub fn kind(self) -> (r: Option<BlipKind>)
        ensures
            r == self.spec_kind(),
    {
        match self {
            Block::BlipSpawn { kind, .. } => Some(kind),
            Block::BlipDuplicator { kind, .. } => kind,
            _ => None,
        }
    }

    /// The same block with its token colour replaced, on the variants that
    /// carry one; other variants are returned unchanged.
    pub open spec fn spec_with_kind(self, new_kind: BlipKind) -> Block {
        match self {
            Block::BlipSpawn { kind, num_spawns, activated } => Block::BlipSpawn {
                kind: new_kind,
                num_spawns,
                activated,
            },
            Block::BlipDuplicator { kind, activated } => Block::BlipDuplicator {
                kind: Some(new_kind),
                activated,
            },
            _ => self,
        }
    }

    #[verifier::when_used_as_spec(spec_with_kind)]
    pub fn with_kind(self, new_kind: BlipKind) -> (r: Block)
        ensures
            r == self.spec_with_kind(new_kind),
    {
        match self {
            Block::BlipSpawn { num_spawns, activated, .. } => Block::BlipSpawn {
                kind: new_kind,
                num_spawns,
                activated,
            },
            Block::BlipDuplicator { activated, .. } => Block::BlipDuplicator {
                kind: Some(new_kind),
                activated,
            },
            _ => self,
        }
    }

    /// Variant and immutable shape agree; only execution-time bookkeeping may
    /// differ. Port geometry is a function of the shape alone.
    pub open spec fn same_shape(self, other: Block) -> bool {
        match (self, other) {
            (Block::Pipe(a1, b1), Block::Pipe(a2, b2)) => a1 == a2 && b1 == b2,
            (
                Block::PipeSplitXY { open_move_hole_y: s1 },
                Block::PipeSplitXY { open_move_hole_y: s2 },
            ) => s1 == s2,
            (Block::PipeMergeXY, Block::PipeMergeXY) => true,
            (Block::FunnelXY, Block::FunnelXY) => true,
            (Block::WindSource, Block::WindSource) => true,
            (Block::BlipSpawn { .. }, Block::BlipSpawn { .. }) => true,
            (Block::BlipDuplicator { .. }, Block::BlipDuplicator { .. }) => true,
            (Block::BlipWindSource { .. }, Block::BlipWindSource { .. }) => true,
            (Block::Solid, Block::Solid) => true,
            (Block::Input { index: i1, .. }, Block::Input { index: i2, .. }) => i1 == i2,
            (
                Block::Output { index: i1, .. },
                Block::Output { index: i2, .. },
            ) => i1 == i2,
            _ => false,
        }
    }

    pub open spec fn spec_name(self) -> Seq<char> {
        match self {
            Block::Pipe(a, b) => if a.spec_axis() != crate::grid::Axis3::Z && a.spec_axis()
                == b.spec_axis() {
                "Pipe straight"@
            } else if a.spec_axis() != crate::grid::Axis3::Z && b.spec_axis()
                != crate::grid::Axis3::Z && a.spec_axis() != b.spec_axis() {
                "Pipe curve"@
            } else if a.spec_axis() == crate::grid::Axis3::Z && a.spec_axis() == b.spec_axis() {
                "Pipe up/down"@
            } else if (a == Dir3::ZNeg || b == Dir3::ZNeg) && a.spec_axis() != b.spec_axis() {
                "Pipe curve down"@
            } else if (a == Dir3::ZPos || b == Dir3::ZPos) && a.spec_axis() != b.spec_axis() {
                "Pipe curve up"@
            } else {
                "Pipe"@
            },
            Block::PipeSplitXY { .. } => "Pipe split"@,
            Block::PipeMergeXY => "Pipe crossing"@,
            Block::FunnelXY => "Funnel"@,
            Block::WindSource => "Wind source"@,
            Block::BlipSpawn { num_spawns: None, .. } => "Blip source"@,
            Block::BlipSpawn { num_spawns: Some(_), .. } => "Blip spawn"@,
            Block::BlipDuplicator { kind: Some(_), .. } => "Picky blip copier"@,
            Block::BlipDuplicator { kind: None, .. } => "Blip copier"@,
            Block::BlipWindSource { .. } => "Blipped wind spawn"@,
            Block::Solid => "Solid"@,
            Block::Input { .. } => "Input"@,
            Block::Output { .. } => "Output"@,
        }
    }

    /// Display name of the variant.
    pub fn name(&self) -> (r: String)
        ensures
            r@ == self.spec_name(),
    {
        match self {
            Block::Pipe(a, b) => {
                let sa = a.axis();
                let sb = b.axis();
                if !matches!(sa, crate::grid::Axis3::Z) && sa == sb {
                    "Pipe straight".to_owned()
                } else if !matches!(sa, crate::grid::Axis3::Z) && !matches!(
                    sb,
                    crate::grid::Axis3::Z,
                ) && sa != sb {
                    "Pipe curve".to_owned()
                } else if matches!(sa, crate::grid::Axis3::Z) && sa == sb {
                    "Pipe up/down".to_owned()
                } else if (matches!(a, Dir3::ZNeg) || matches!(b, Dir3::ZNeg)) && sa != sb {
                    "Pipe curve down".to_owned()
                } else if (matches!(a, Dir3::ZPos) || matches!(b, Dir3::ZPos)) && sa != sb {
                    "Pipe curve up".to_owned()
                } else {
                    "Pipe".to_owned()
                }
            },
            Block::PipeSplitXY { .. } => "Pipe split".to_owned(),
            Block::PipeMergeXY => "Pipe crossing".to_owned(),
            Block::FunnelXY => "Funnel".to_owned(),
            Block::WindSource => "Wind source".to_owned(),
            Block::BlipSpawn { num_spawns: None, .. } => "Blip source".to_owned(),
            Block::BlipSpawn { num_spawns: Some(_), .. } => "Blip spawn".to_owned(),
            Block::BlipDuplicator { kind: Some(_), .. } => "Picky blip copier".to_owned(),
            Block::BlipDuplicator { kind: None, .. } => "Blip copier".to_owned(),
            Block::BlipWindSource { .. } => "Blipped wind spawn".to_owned(),
            Block::Solid => "Solid".to_owned(),
            Block::Input { .. } => "Input".to_owned(),
            Block::Output { .. } => "Output".to_owned(),
        }
    }

    pub open spec fn spec_description(self) -> Seq<char> {
        match self {
            Block::Pipe(_, _) => "Conducts both wind and blips."@,
            Block::PipeSplitXY { .. } => "Useless."@,
            Block::PipeMergeXY => "Four-way pipe. But why?"@,
            Block::FunnelXY => "Not so useful."@,
            Block::WindSource => "Produces a stream of wind in all directions."@,
            Block::BlipSpawn { num_spawns: None, .. } => "Produces a stream of blips."@,
            Block::BlipSpawn { num_spawns: Some(n), .. } => if n == 1 {
                "Spawns one blip."@
            } else {
                "Spawns a limited number of blips."@
            },
            Block::BlipDuplicator { kind: None, .. } =>
                "Produces two copies of whatever blip activates it."@,
            Block::BlipDuplicator { kind: Some(_), .. } =>
                "Produces two copies of a specific kind of blip that may activate it."@,
            Block::BlipWindSource { .. } => "Spawns one thrust of wind when activated by a blip."@,
            Block::Solid => "Eats blips."@,
            Block::Input { .. } => "Input of the machine."@,
            Block::Output { .. } => "Output of the machine."@,
        }
    }

    /// One-line description of the variant's behaviour.
    pub fn description(&self) -> (r: &'static str)
        ensures
            r@ == self.spec_description(),
    {
        match self {
            Block::Pipe(_, _) => "Conducts both wind and blips.",
            Block::PipeSplitXY { .. } => "Useless.",
            Block::PipeMergeXY => "Four-way pipe. But why?",
            Block::FunnelXY => "Not so useful.",
            Block::WindSource => "Produces a stream of wind in all directions.",
            Block::BlipSpawn { num_spawns: None, .. } => "Produces a stream of blips.",
            Block::BlipSpawn { num_spawns: Some(n), .. } => if *n == 1 {
                "Spawns one blip."
            } else {
                "Spawns a limited number of blips."
            },
            Block::BlipDuplicator { kind: None, .. } =>
                "Produces two copies of whatever blip activates it.",
            Block::BlipDuplicator { kind: Some(_), .. } =>
                "Produces two copies of a specific kind of blip that may activate it.",
            Block::BlipWindSource { .. } => "Spawns one thrust of wind when activated by a blip.",
            Block::Solid => "Eats blips.",
            Block::Input { .. } => "Input of the machine.",
            Block::Output { .. } => "Output of the machine.",
        }
    }
}

/// Direction `d` rotated clockwise `n` quarter turns in the X-Y plane.
pub open spec fn rotate_cw_n(d: Dir3, n: nat) -> Dir3
    decreases n,
{
    if n == 0 {
        d
    } else {
        rotate_cw_n(d, (n - 1) as nat).spec_rotated_cw_xy()
    }
}

/// Direction `d` rotated counter-clockwise `n` quarter turns in the X-Y
/// plane.
pub open spec fn rotate_ccw_n(d: Dir3, n: nat) -> Dir3
    decreases n,
{
    if n == 0 {
        d
    } else {
        rotate_ccw_n(d, (n - 1) as nat).spec_rotated_ccw_xy()
    }
}

/// A block variant with a quarter-turn rotation about the vertical axis.
/// Every port query rotates the world direction into the variant's local
/// frame; variant geometry itself never sees world directions.
#[derive(Clone, Copy, PartialEq, Eq, Debug, Structural)]
pub struct PlacedBlock {
    pub rotation_xy: usize,
    pub block: Block,
}

impl PlacedBlock {
    /// Validity: the rotation is a quarter-turn count.
    pub open spec fn wf(self) -> bool {
        self.rotation_xy < 4
    }

    pub open spec fn spec_rotate_cw(self) -> PlacedBlock {
        PlacedBlock {
            rotation_xy: if self.rotation_xy == 3 {
                0
            } else {
                ((self.rotation_xy + 1) as usize)
            },
            ..self
        }
    }

    /// Turn the placement one quarter turn clockwise.
    pub fn rotate_cw_xy(&mut self)
        requires
            old(self).wf(),
        ensures
            *final(self) == old(self).spec_rotate_cw(),
            final(self).wf(),
    {
        if self.rotation_xy == 3 {
            self.rotation_xy = 0;
        } else {
            self.rotation_xy = self.rotation_xy + 1;
        }
    }

    pub open spec fn spec_rotate_ccw(self) -> PlacedBlock {
        PlacedBlock {
            rotation_xy: if self.rotation_xy == 0 {
                3
            } else {
                ((self.rotation_xy - 1) as usize)
            },
            ..self
        }
    }

    /// Turn the placement one quarter turn counter-clockwise.
    pub fn rotate_ccw_xy(&mut self)
        requires
            old(self).wf(),
        ensures
            *final(self) == old(self).spec_rotate_ccw(),
            final(self).wf(),
    {
        if self.rotation_xy == 0 {
            self.rotation_xy = 3;
        } else {
            self.rotation_xy = self.rotation_xy - 1;
        }
    }

    /// Rotate a local direction into world space.
    pub fn rotated_dir_xy(&self, dir: Dir3) -> (r: Dir3)
        ensures
            r == rotate_cw_n(dir, self.rotation_xy as nat),
    {
        let mut d = dir;
        let mut i: usize = 0;
        while i < self.rotation_xy
            invariant
                i <= self.rotation_xy,
                d == rotate_cw_n(dir, i as nat),
            decreases self.rotation_xy - i,
        {
            d = d.rotated_cw_xy();
            i = i + 1;
        }
        d
    }

    /// Rotate a world direction into the block's local frame. This is the
    /// single translation point between world and variant-local space.
    pub fn rotated_dir_ccw_xy(&self, dir: Dir3) -> (r: Dir3)
        ensures
            r == rotate_ccw_n(dir, self.rotation_xy as nat),
    {
        let mut d = dir;
        let mut i: usize = 0;
        while i < self.rotation_xy
            invariant
                i <= self.rotation_xy,
                d == rotate_ccw_n(dir, i as nat),
            decreases self.rotation_xy - i,
        {
            d = d.rotated_ccw_xy();
            i = i + 1;
        }
        d
    }

    /// Wind port in world direction `dir`.
    pub open spec fn spec_has_wind_hole(self, dir: Dir3) -> bool {
        self.block.spec_has_wind_hole(rotate_ccw_n(dir, self.rotation_xy as nat))
    }

    #[verifier::when_used_as_spec(spec_has_wind_hole)]
    pub fn has_wind_hole(self, dir: Dir3) -> (r: bool)
        ensures
            r == self.spec_has_wind_hole(dir),
    {
        self.block.has_wind_hole(self.rotated_dir_ccw_xy(dir))
    }

    /// Token port in world direction `dir`.
    pub open spec fn spec_has_move_hole(self, dir: Dir3) -> bool {
        self.block.spec_has_move_hole(rotate_ccw_n(dir, self.rotation_xy as nat))
    }

    #[verifier::when_used_as_spec(spec_has_move_hole)]
    pub fn has_move_hole(self, dir: Dir3) -> (r: bool)
        ensures
            r == self.spec_has_move_hole(dir),
    {
        self.block.has_move_hole(self.rotated_dir_ccw_xy(dir))
    }

    /// Inbound wind port in world direction `dir`.
    pub open spec fn spec_has_wind_hole_in(self, dir: Dir3) -> bool {
        self.block.spec_has_wind_hole_in(rotate_ccw_n(dir, self.rotation_xy as nat))
    }

    #[verifier::when_used_as_spec(spec_has_wind_hole_in)]
    pub fn has_wind_hole_in(self, dir: Dir3) -> (r: bool)
        ensures
            r == self.spec_has_wind_hole_in(dir),
    {
        self.block.has_wind_hole_in(self.rotated_dir_ccw_xy(dir))
    }

    /// Outbound wind port in world direction `dir`.
    pub open spec fn spec_has_wind_hole_out(self, dir: Dir3) -> bool {
        self.block.spec_has_wind_hole_out(rotate_ccw_n(dir, self.rotation_xy as nat))
    }

    #[verifier::when_used_as_spec(spec_has_wind_hole_out)]
    pub fn has_wind_hole_out(self, dir: Dir3) -> (r: bool)
        ensures
            r == self.spec_has_wind_hole_out(dir),
    {
        self.block.has_wind_hole_out(self.rotated_dir_ccw_xy(dir))
    }

    /// The world directions with a wind port, in canonical order.
    pub fn wind_holes(&self) -> (r: Vec<Dir3>)
        ensures
            r@ == Dir3::spec_all().filter(|d: Dir3| self.spec_has_wind_hole(d)),
    {
        let all = Dir3::all();
        let mut r: Vec<Dir3> = Vec::new();
        let mut i: usize = 0;
        proof {
            reveal(Seq::filter);
            assert(all@.take(0).filter(|d: Dir3| self.spec_has_wind_hole(d)) =~= Seq::<Dir3>::empty());
        }
        while i < all.len()
            invariant
                i <= all@.len(),
                all@ == Dir3::spec_all(),
                r@ == all@.take(i as int).filter(|d: Dir3| self.spec_has_wind_hole(d)),
            decreases all@.len() - i,
        {
            proof {
                reveal(Seq::filter);
                assert(all@.take(i + 1) =~= all@.take(i as int).push(all@[i as int]));
                assert(all@.take(i + 1).drop_last() =~= all@.take(i as int));
            }
            if self.has_wind_hole(all[i]) {
                r.push(all[i]);
            }
            i = i + 1;
        }
        proof {
            assert(all@.take(all@.len() as int) =~= all@);
        }
        r
    }

    /// The world directions with an inbound wind port, in canonical order.
    pub fn wind_holes_in(&self) -> (r: Vec<Dir3>)
        ensures
            r@ == Dir3::spec_all().filter(|d: Dir3| self.spec_has_wind_hole_in(d)),
    {
        let all = Dir3::all();
        let mut r: Vec<Dir3> = Vec::new();
        let mut i: usize = 0;
        proof {
            reveal(Seq::filter);
            assert(all@.take(0).filter(|d: Dir3| self.spec_has_wind_hole_in(d)) =~= Seq::<Dir3>::empty());
        }
        while i < all.len()
            invariant
                i <= all@.len(),
                all@ == Dir3::spec_all(),
                r@ == all@.take(i as int).filter(|d: Dir3| self.spec_has_wind_hole_in(d)),
            decreases all@.len() - i,
        {
            proof {
                reveal(Seq::filter);
                assert(all@.take(i + 1) =~= all@.take(i as int).push(all@[i as int]));
                assert(all@.take(i + 1).drop_last() =~= all@.take(i as int));
            }
            if self.has_wind_hole_in(all[i]) {
                r.push(all[i]);
            }
            i = i + 1;
        }
        proof {
            assert(all@.take(all@.len() as int) =~= all@);
        }
        r
    }

    /// The world directions with an outbound wind port, in canonical order.
    pub fn wind_holes_out(&self) -> (r: Vec<Dir3>)
        ensures
            r@ == Dir3::spec_all().filter(|d: Dir3| self.spec_has_wind_hole_out(d)),
    {
        let all = Dir3::all();
        let mut r: Vec<Dir3> = Vec::new();
        let mut i: usize = 0;
        proof {
            reveal(Seq::filter);
            assert(all@.take(0).filter(|d: Dir3| self.spec_has_wind_hole_out(d)) =~= Seq::<Dir3>::empty());
        }
        while i < all.len()
            invariant
                i <= all@.len(),
                all@ == Dir3::spec_all(),
                r@ == all@.take(i as int).filter(|d: Dir3| self.spec_has_wind_hole_out(d)),
            decreases all@.len() - i,
        {
            proof {
                reveal(Seq::filter);
                assert(all@.take(i + 1) =~= all@.take(i as int).push(all@[i as int]));
                assert(all@.take(i + 1).drop_last() =~= all@.take(i as int));
            }
            if self.has_wind_hole_out(all[i]) {
                r.push(all[i]);
            }
            i = i + 1;
        }
        proof {
            assert(all@.take(all@.len() as int) =~= all@);
        }
        r
    }
}

/// Four clockwise quarter turns restore a placement exactly, and with it
/// every port answer in every direction.
pub proof fn lemma_rotate_cw_four_times_round_trip(pb: PlacedBlock)
    requires
        pb.wf(),
    ensures
        pb.spec_rotate_cw().spec_rotate_cw().spec_rotate_cw().spec_rotate_cw() == pb,
        forall|d: Dir3|
            #[trigger] pb.spec_rotate_cw().spec_rotate_cw().spec_rotate_cw().spec_rotate_cw()
                .spec_has_wind_hole(d) == pb.spec_has_wind_hole(d),
        forall|d: Dir3|
            #[trigger] pb.spec_rotate_cw().spec_rotate_cw().spec_rotate_cw().spec_rotate_cw()
                .spec_has_move_hole(d) == pb.spec_has_move_hole(d),
{
}

/// A counter-clockwise quarter turn undoes a clockwise one, and vice versa.
pub proof fn lemma_rotate_cw_ccw_inverse(pb: PlacedBlock)
    requires
        pb.wf(),
    ensures
        pb.spec_rotate_cw().spec_rotate_ccw() == pb,
        pb.spec_rotate_ccw().spec_rotate_cw() == pb,
{
}

/// Stable handle to a block's storage slot; valid until the block is removed
/// or the machine is compacted.
pub type BlockIndex = usize;

/// The machine's block storage: a dense position-to-slot grid and the slot
/// arena holding `(position, block)` pairs.
#[derive(Clone, PartialEq, Eq, Debug)]
pub struct Blocks {
    pub indices: Grid3<Option<BlockIndex>>,
    pub data: Arena<(Point3, PlacedBlock)>,
}

/// Block storage plus optional level metadata.
#[derive(Clone, PartialEq, Eq, Debug)]
pub struct Machine {
    pub blocks: Blocks,
    pub level: Option<Level>,
}

impl Machine {
    pub open spec fn spec_size(self) -> Vector3 {
        self.blocks.indices.size
    }

    /// The slot sequence of the block arena.
    pub open spec fn slots(self) -> Seq<Option<(Point3, PlacedBlock)>> {
        self.blocks.data.slots@
    }

    pub open spec fn spec_valid_pos(self, p: Point3) -> bool {
        valid_pos_spec(self.spec_size(), p)
    }

    /// The grid cell at a valid position.
    pub open spec fn grid_at(self, p: Point3) -> Option<BlockIndex>
        recommends
            self.blocks.indices.wf(),
            self.spec_valid_pos(p),
    {
        self.blocks.indices.at(p)
    }

    /// The bidirectional grid-arena consistency invariant: every occupied
    /// slot is pointed at by the cell of its position, and every pointing
    /// cell holds the index of an occupied slot stored under that position.
    pub open spec fn wf(self) -> bool {
        &&& self.blocks.indices.wf()
        &&& self.blocks.data.wf()
        &&& self.slots().len() <= usize::MAX
        &&& forall|i: int|
            0 <= i < self.slots().len() && (#[trigger] self.slots()[i]) is Some ==> {
                &&& self.spec_valid_pos((self.slots()[i]->Some_0).0)
                &&& self.grid_at((self.slots()[i]->Some_0).0) == Some(i as usize)
            }
        &&& forall|p: Point3|
            #[trigger] self.spec_valid_pos(p) ==> match self.grid_at(p) {
                Some(j) => j < self.slots().len() && self.slots()[j as int] is Some && (
                self.slots()[j as int]->Some_0).0 == p,
                None => true,
            }
    }

    /// The slot index stored for a position; `None` outside the grid.
    pub open spec fn index_at(self, p: Point3) -> Option<BlockIndex> {
        if self.spec_valid_pos(p) {
            self.grid_at(p)
        } else {
            None
        }
    }

    /// The placed block stored at a position, if any.
    pub open spec fn placed_at(self, p: Point3) -> Option<PlacedBlock>
        recommends
            self.wf(),
    {
        match self.index_at(p) {
            Some(i) => Some((self.slots()[i as int]->Some_0).1),
            None => None,
        }
    }

    pub open spec fn spec_get_block_at(self, p: Point3) -> Option<(BlockIndex, PlacedBlock)>
        recommends
            self.wf(),
    {
        match self.index_at(p) {
            Some(i) => Some((i, (self.slots()[i as int]->Some_0).1)),
            None => None,
        }
    }

    /// An empty machine of the given size, with no level attached.
    pub fn new_sandbox(size: Vector3) -> (r: Machine)
        requires
            size_ok(size),
        ensures
            r.wf(),
            r.spec_size() == size,
            r.level is None,
            r.slots().len() == 0,
            forall|p: Point3| r.spec_valid_pos(p) ==> r.index_at(p) is None,
    {
        let indices = Grid3::new(size, None);
        let data = Arena::new();
        Machine { blocks: Blocks { indices, data }, level: None }
    }

    pub fn size(&self) -> (r: Vector3)
        ensures
            r == self.spec_size(),
    {
        self.blocks.indices.size()
    }

    /// A position is valid exactly when each coordinate lies in `[0, size)`
    /// on its axis. Callers must validate positions with this before any
    /// position-indexed mutation.
    pub fn is_valid_pos(&self, p: &Point3) -> (r: bool)
        ensures
            r == self.spec_valid_pos(*p),
    {
        self.blocks.indices.is_valid_pos(p)
    }

    /// A horizontal layer is valid when it lies in `[0, size.z)`.
    pub fn is_valid_layer(&self, layer: isize) -> (r: bool)
        ensures
            r == (0 <= layer && layer < self.spec_size().z),
    {
        layer >= 0 && layer < self.blocks.indices.size.z
    }

    /// Look up the block at a position; `None` for empty cells and for
    /// positions outside the grid.
    pub fn get_block_at_pos(&self, p: &Point3) -> (r: Option<(BlockIndex, PlacedBlock)>)
        requires
            self.wf(),
        ensures
            r == self.spec_get_block_at(*p),
    {
        match self.blocks.indices.get(p) {
            Some(cell) => match cell {
                Some(id) => {
                    match self.blocks.data.get(id) {
                        Some(pair) => Some((id, pair.1)),
                        None => {
                            proof {
                                assert(false);
                            }
                            None
                        },
                    }
                },
                None => None,
            },
            None => None,
        }
    }

    /// The `(position, block)` pair in an occupied slot.
    pub fn block_at_index(&self, index: BlockIndex) -> (r: (Point3, PlacedBlock))
        requires
            self.wf(),
            index < self.slots().len(),
            self.slots()[index as int] is Some,
        ensures
            r == self.slots()[index as int]->Some_0,
    {
        match self.blocks.data.get(index) {
            Some(pair) => pair,
            None => {
                proof {
                    assert(false);
                }
                (Point3 { x: 0, y: 0, z: 0 }, PlacedBlock { rotation_xy: 0, block: Block::Solid })
            },
        }
    }

    /// The position stored in an occupied slot.
    pub fn block_pos_at_index(&self, index: BlockIndex) -> (r: Point3)
        requires
            self.wf(),
            index < self.slots().len(),
            self.slots()[index as int] is Some,
        ensures
            r == (self.slots()[index as int]->Some_0).0,
    {
        self.block_at_index(index).0
    }

    /// Remove the block at a position, freeing its slot and clearing its
    /// cell; a no-op answering `None` when the cell is empty.
    pub fn remove_at_pos(&mut self, p: &Point3) -> (r: Option<(BlockIndex, PlacedBlock)>)
        requires
            old(self).wf(),
            old(self).spec_valid_pos(*p),
        ensures
            final(self).wf(),
            final(self).spec_size() == old(self).spec_size(),
            final(self).level == old(self).level,
            r == match old(self).index_at(*p) {
                Some(i) => Some((i, (old(self).slots()[i as int]->Some_0).1)),
                None => None::<(BlockIndex, PlacedBlock)>,
            },
            final(self).index_at(*p) is None,
            forall|q: Point3|
                old(self).spec_valid_pos(q) && q != *p ==> #[trigger] final(self).index_at(q)
                    == old(self).index_at(q),
            match old(self).index_at(*p) {
                Some(i) => final(self).slots() == old(self).slots().update(i as int, None)
                    && final(self).blocks.data.n_live == old(self).blocks.data.n_live - 1,
                None => *final(self) == *old(self),
            },
    {
        match self.blocks.indices.get(p) {
            Some(cell) => match cell {
                Some(id) => {
                    proof {
                        assert(old(self).grid_at(*p) == Some(id));
                        assert(id < old(self).slots().len() && old(self).slots()[id as int]
                            is Some);
                    }
                    self.blocks.indices.set(p, None);
                    let removed = self.blocks.data.remove(id);
                    proof {
                        assert forall|i: int|
                            0 <= i < self.slots().len() && (#[trigger] self.slots()[i])
                                is Some implies {
                            &&& self.spec_valid_pos((self.slots()[i]->Some_0).0)
                            &&& self.grid_at((self.slots()[i]->Some_0).0) == Some(i as usize)
                        } by {
                            assert(i != id);
                            assert(old(self).slots()[i] is Some);
                            let pi = (old(self).slots()[i]->Some_0).0;
                            assert(old(self).spec_valid_pos(pi));
                            assert(old(self).grid_at(pi) == Some(i as usize));
                            if pi == *p {
                                assert(Some(i as usize) == Some(id));
                                assert(i < old(self).slots().len() <= usize::MAX);
                                assert(i == id);
                            }
                            assert(pi != *p);
                            assert(self.grid_at(pi) == old(self).grid_at(pi));
                        }
                        assert forall|q: Point3| #[trigger] self.spec_valid_pos(q) implies match self
                            .grid_at(q) {
                            Some(j) => j < self.slots().len() && self.slots()[j as int] is Some
                                && (self.slots()[j as int]->Some_0).0 == q,
                            None => true,
                        } by {
                            assert(old(self).spec_valid_pos(q));
                            if q != *p {
                                assert(self.grid_at(q) == old(self).grid_at(q));
                                match old(self).grid_at(q) {
                                    Some(j) => {
                                        assert(old(self).slots()[j as int] is Some);
                                        assert((old(self).slots()[j as int]->Some_0).0 == q);
                                        assert(j != id);
                                        assert(self.slots()[j as int] == old(self).slots()[
                                            j as int]);
                                    },
                                    None => {},
                                }
                            }
                        }
                    }
                    match removed {
                        Some(pair) => Some((id, pair.1)),
                        None => {
                            proof {
                                assert(false);
                            }
                            None
                        },
                    }
                },
                None => None,
            },
            None => {
                proof {
                    assert(false);
                }
                None
            },
        }
    }

    /// Place `block` at a position, first removing any existing occupant; a
    /// placed block is stored in a fresh slot. `None` just clears the cell.
    pub fn set_block_at_pos(&mut self, p: &Point3, block: Option<PlacedBlock>)
        requires
            old(self).wf(),
            old(self).spec_valid_pos(*p),
            old(self).slots().len() < usize::MAX,
        ensures
            final(self).wf(),
            final(self).spec_size() == old(self).spec_size(),
            final(self).level == old(self).level,
            final(self).placed_at(*p) == block,
            match block {
                Some(b) => {
                    &&& final(self).slots().len() == old(self).slots().len() + 1
                    &&& final(self).index_at(*p) == Some(old(self).slots().len() as usize)
                    &&& final(self).slots()[old(self).slots().len() as int] == Some((*p, b))
                },
                None => final(self).index_at(*p) is None,
            },
            forall|i: int|
                0 <= i < old(self).slots().len() && !((#[trigger] old(self).slots()[i]) is Some
                    && (old(self).slots()[i]->Some_0).0 == *p) ==> final(self).slots()[i] == old(
                    self,
                ).slots()[i],
            forall|q: Point3|
                old(self).spec_valid_pos(q) && q != *p ==> #[trigger] final(self).index_at(q)
                    == old(self).index_at(q),
    {
        self.remove_at_pos(p);
        if let Some(b) = block {
            let ghost mid = *self;
            let id = self.blocks.data.add((*p, b));
            self.blocks.indices.set(p, Some(id));
            proof {
                assert forall|i: int|
                    0 <= i < self.slots().len() && (#[trigger] self.slots()[i]) is Some implies {
                    &&& self.spec_valid_pos((self.slots()[i]->Some_0).0)
                    &&& self.grid_at((self.slots()[i]->Some_0).0) == Some(i as usize)
                } by {
                    if i < mid.slots().len() {
                        assert(mid.slots()[i] == self.slots()[i]);
                        assert(mid.slots()[i] is Some);
                        let pi = (mid.slots()[i]->Some_0).0;
                        assert(mid.spec_valid_pos(pi));
                        assert(mid.grid_at(pi) == Some(i as usize));
                        if pi == *p {
                            assert(mid.index_at(*p) is None);
                            assert(false);
                        }
                        assert(self.grid_at(pi) == mid.grid_at(pi));
                    } else {
                        assert(i == mid.slots().len());
                        assert(self.slots()[i] == Some((*p, b)));
                        assert(self.grid_at(*p) == Some(id));
                    }
                }
                assert forall|q: Point3| #[trigger] self.spec_valid_pos(q) implies match self
                    .grid_at(q) {
                    Some(j) => j < self.slots().len() && self.slots()[j as int] is Some && (
                    self.slots()[j as int]->Some_0).0 == q,
                    None => true,
                } by {
                    assert(mid.spec_valid_pos(q));
                    if q != *p {
                        assert(self.grid_at(q) == mid.grid_at(q));
                        match mid.grid_at(q) {
                            Some(j) => {
                                assert(mid.slots()[j as int] is Some);
                                assert(self.slots()[j as int] == mid.slots()[j as int]);
                            },
                            None => {},
                        }
                    } else {
                        assert(self.grid_at(q) == Some(id));
                        assert(self.slots()[id as int] == Some((*p, b)));
                    }
                }
                assert forall|q: Point3|
                    old(self).spec_valid_pos(q) && q != *p implies #[trigger] self.index_at(q)
                    == old(self).index_at(q) by {
                    assert(self.grid_at(q) == mid.grid_at(q));
                    assert(mid.index_at(q) == old(self).index_at(q));
                }
            }
        }
    }

    /// Replace the block payload in an occupied slot, keeping its position.
    pub fn set_block_at_index(&mut self, index: BlockIndex, block: PlacedBlock)
        requires
            old(self).wf(),
            index < old(self).slots().len(),
            old(self).slots()[index as int] is Some,
        ensures
            final(self).wf(),
            final(self).spec_size() == old(self).spec_size(),
            final(self).level == old(self).level,
            final(self).blocks.indices == old(self).blocks.indices,
            final(self).slots() == old(self).slots().update(
                index as int,
                Some(((old(self).slots()[index as int]->Some_0).0, block)),
            ),
            final(self).blocks.data.n_live == old(self).blocks.data.n_live,
    {
        let pos = self.block_pos_at_index(index);
        self.blocks.data.set(index, (pos, block));
        proof {
            assert forall|i: int|
                0 <= i < self.slots().len() && (#[trigger] self.slots()[i]) is Some implies {
                &&& self.spec_valid_pos((self.slots()[i]->Some_0).0)
                &&& self.grid_at((self.slots()[i]->Some_0).0) == Some(i as usize)
            } by {
                assert(old(self).slots()[i] is Some);
                assert((self.slots()[i]->Some_0).0 == (old(self).slots()[i]->Some_0).0);
            }
            assert forall|q: Point3| #[trigger] self.spec_valid_pos(q) implies match self.grid_at(
                q,
            ) {
                Some(j) => j < self.slots().len() && self.slots()[j as int] is Some && (
                self.slots()[j as int]->Some_0).0 == q,
                None => true,
            } by {
                assert(old(self).spec_valid_pos(q));
                assert(self.grid_at(q) == old(self).grid_at(q));
                match old(self).grid_at(q) {
                    Some(j) => {
                        assert(old(self).slots()[j as int] is Some);
                        assert((old(self).slots()[j as int]->Some_0).0 == q);
                    },
                    None => {},
                }
            }
        }
    }

    /// Number of live blocks.
    pub fn num_blocks(&self) -> (r: usize)
        ensures
            r == self.blocks.data.n_live,
    {
        self.blocks.data.len()
    }

    /// True when the arena has no tombstoned slots.
    pub fn is_contiguous(&self) -> (r: bool)
        requires
            self.wf(),
        ensures
            r == (self.slots().len() == self.blocks.data.n_live),
    {
        self.blocks.data.num_free() == 0
    }

    /// The live `(index, (position, block))` entries, in slot order.
    pub fn iter_blocks(&self) -> (r: Vec<(BlockIndex, (Point3, PlacedBlock))>)
        ensures
            r@ == live_pairs(self.slots()),
    {
        self.blocks.data.iter()
    }

    /// Compact the block arena and rewrite the grid's index cells so the
    /// grid-arena invariant holds for the new dense numbering, atomically
    /// from the caller's perspective. The stored layout is unchanged, but
    /// existing slot indices are invalidated. Compacting an
    /// already-contiguous machine changes nothing.
    pub fn gc(&mut self)
        requires
            old(self).wf(),
        ensures
            final(self).wf(),
            final(self).spec_size() == old(self).spec_size(),
            final(self).level == old(self).level,
            final(self).blocks.data.n_live == old(self).blocks.data.n_live,
            final(self).slots().len() == old(self).blocks.data.n_live,
            forall|k: int|
                0 <= k < final(self).slots().len() ==> final(self).slots()[k] == Some(
                    live_list(old(self).slots())[k],
                ),
            forall|q: Point3|
                old(self).spec_valid_pos(q)
                    ==> #[trigger] final(self).placed_at(q) == old(self).placed_at(q),
            old(self).slots().len() == old(self).blocks.data.n_live
                ==> final(self).blocks.data.slots@ == old(self).blocks.data.slots@
                && final(self).blocks.indices.cells@ == old(self).blocks.indices.cells@,
    {
        let ghost pre = *self;
        let ghost oldslots = pre.slots();
        let ghost ll = live_list(oldslots);
        let ghost pairs = live_pairs(oldslots);
        proof {
            lemma_live_pairs_sound(oldslots);
            assert forall|m: int| 0 <= m < ll.len() implies {
                &&& pre.spec_valid_pos((#[trigger] ll[m]).0)
                &&& pre.grid_at(ll[m].0) == Some(pairs[m].0)
            } by {
                let i = pairs[m].0 as int;
                assert(oldslots[i] == Some(pairs[m].1));
                assert(pairs[m].1 == ll[m]);
            }
            assert forall|m1: int, m2: int|
                0 <= m1 < ll.len() && 0 <= m2 < ll.len() && m1 != m2 implies (#[trigger] ll[m1]).0
                != (#[trigger] ll[m2]).0 by {
                let i1 = pairs[m1].0 as int;
                let i2 = pairs[m2].0 as int;
                assert(i1 != i2);
                lemma_wf_positions_distinct(pre, i1, i2);
            }
            assert forall|q: Point3|
                pre.spec_valid_pos(q) && (#[trigger] pre.grid_at(q)) is Some implies exists|m: int|
                0 <= m < ll.len() && (#[trigger] ll[m]).0 == q by {
                let j = pre.grid_at(q)->Some_0;
                assert(oldslots[j as int] is Some);
                lemma_live_pairs_complete(oldslots, j as int);
                let k = choose|k: int|
                    0 <= k < pairs.len() && (#[trigger] pairs[k]) == (j, oldslots[
                    j as int]->Some_0);
                assert(ll[k] == oldslots[j as int]->Some_0);
                assert((oldslots[j as int]->Some_0).0 == q);
                assert(ll[k].0 == q);
            }
            if oldslots.len() == pre.blocks.data.n_live {
                crate::arena::lemma_count_live_full::<(Point3, PlacedBlock)>(oldslots);
                crate::arena::lemma_live_list_full::<(Point3, PlacedBlock)>(oldslots);
                crate::arena::lemma_live_pairs_full::<(Point3, PlacedBlock)>(oldslots);
            }
        }
        self.blocks.data.gc();
        proof {
            if oldslots.len() == pre.blocks.data.n_live {
                assert(self.blocks.data.slots@ =~= oldslots);
            }
        }
        let n = self.blocks.data.num_slots();
        let mut k: usize = 0;
        while k < n
            invariant
                k <= n,
                n == self.slots().len(),
                n == ll.len(),
                self.blocks.data.wf(),
                self.blocks.data.n_live == pre.blocks.data.n_live,
                forall|m: int| 0 <= m < n ==> self.slots()[m] == Some(ll[m]),
                self.blocks.indices.wf(),
                self.blocks.indices.size == pre.spec_size(),
                self.level == pre.level,
                pre.wf(),
                oldslots == pre.slots(),
                ll == live_list(oldslots),
                pairs == live_pairs(oldslots),
                forall|m: int| 0 <= m < ll.len() ==> pre.spec_valid_pos((#[trigger] ll[m]).0),
                forall|m1: int, m2: int|
                    0 <= m1 < ll.len() && 0 <= m2 < ll.len() && m1 != m2 ==> (#[trigger] ll[m1]).0
                        != (#[trigger] ll[m2]).0,
                forall|m: int| 0 <= m < k ==> self.grid_at(ll[m].0) == Some(m as usize),
                forall|q: Point3|
                    pre.spec_valid_pos(q) && (forall|m: int| 0 <= m < k ==> (#[trigger] ll[m]).0
                        != q) ==> #[trigger] self.grid_at(q) == pre.grid_at(q),
                oldslots.len() == pre.blocks.data.n_live ==> self.blocks.indices.cells@
                    == pre.blocks.indices.cells@ && self.blocks.data.slots@ == oldslots,
            decreases n - k,
        {
            let entry = self.blocks.data.get(k);
            match entry {
                Some(pair) => {
                    proof {
                        assert(self.slots()[k as int] == Some(ll[k as int]));
                        assert(pair == ll[k as int]);
                        assert(pre.spec_valid_pos(pair.0));
                    }
                    let ghost before = *self;
                    let pos = pair.0;
                    self.blocks.indices.set(&pos, Some(k));
                    proof {
                        assert forall|m: int| 0 <= m < k + 1 implies self.grid_at(ll[m].0) == Some(
                            m as usize,
                        ) by {
                            if m < k {
                                assert(ll[m].0 != pos);
                                assert(self.grid_at(ll[m].0) == before.grid_at(ll[m].0));
                            }
                        }
                        assert forall|q: Point3|
                            pre.spec_valid_pos(q) && (forall|m: int|
                                0 <= m < k + 1 ==> (#[trigger] ll[m]).0 != q) implies #[trigger] self
                            .grid_at(q) == pre.grid_at(q) by {
                            assert(ll[k as int].0 != q);
                            assert(self.grid_at(q) == before.grid_at(q));
                        }
                        if oldslots.len() == pre.blocks.data.n_live {
                            crate::arena::lemma_count_live_full::<(Point3, PlacedBlock)>(oldslots);
                            crate::arena::lemma_live_pairs_full::<(Point3, PlacedBlock)>(oldslots);
                            crate::arena::lemma_live_list_full::<(Point3, PlacedBlock)>(oldslots);
                            lemma_live_pairs_sound(oldslots);
                            crate::grid::lemma_flat_idx_bounds(pre.spec_size(), pos);
                            assert(pairs[k as int] == ((k as usize), oldslots[k as int]->Some_0));
                            assert(oldslots[k as int] == Some(ll[k as int]));
                            assert(pre.slots()[k as int] is Some);
                            assert(pre.grid_at(pos) == Some(k as usize));
                            assert(before.blocks.indices.cells@[flat_idx(pre.spec_size(), pos)]
                                == Some(k as usize));
                            assert(self.blocks.indices.cells@ =~= before.blocks.indices.cells@);
                        }
                    }
                },
                None => {
                    proof {
                        assert(false);
                    }
                },
            }
            k = k + 1;
        }
        proof {
            assert forall|i: int|
                0 <= i < self.slots().len() && (#[trigger] self.slots()[i]) is Some implies {
                &&& self.spec_valid_pos((self.slots()[i]->Some_0).0)
                &&& self.grid_at((self.slots()[i]->Some_0).0) == Some(i as usize)
            } by {
                assert(self.slots()[i] == Some(ll[i]));
            }
            assert forall|q: Point3| #[trigger] self.spec_valid_pos(q) implies match self.grid_at(
                q,
            ) {
                Some(j) => j < self.slots().len() && self.slots()[j as int] is Some && (
                self.slots()[j as int]->Some_0).0 == q,
                None => true,
            } by {
                assert(pre.spec_valid_pos(q));
                if exists|m: int| 0 <= m < ll.len() && (#[trigger] ll[m]).0 == q {
                    let m = choose|m: int| 0 <= m < ll.len() && (#[trigger] ll[m]).0 == q;
                    assert(self.grid_at(q) == Some(m as usize));
                    assert(self.slots()[m] == Some(ll[m]));
                } else {
                    assert(self.grid_at(q) == pre.grid_at(q));
                    if pre.grid_at(q) is Some {
                        assert(false);
                    }
                }
            }
            assert forall|q: Point3|
                pre.spec_valid_pos(q) implies #[trigger] self.placed_at(q) == pre.placed_at(q) by {
                if exists|m: int| 0 <= m < ll.len() && (#[trigger] ll[m]).0 == q {
                    let m = choose|m: int| 0 <= m < ll.len() && (#[trigger] ll[m]).0 == q;
                    assert(self.grid_at(q) == Some(m as usize));
                    assert(self.slots()[m] == Some(ll[m]));
                    assert(pre.grid_at(q) == Some(pairs[m].0));
                    assert(pre.slots()[pairs[m].0 as int] == Some(ll[m]));
                } else {
                    assert(self.grid_at(q) == pre.grid_at(q));
                    if pre.grid_at(q) is Some {
                        assert(false);
                    }
                }
            }
        }
    }

    /// The occupied slots of all 6-neighbours of a position, each tagged
    /// with the direction leading to it, in canonical direction order.
    pub open spec fn neighbors_upto(self, p: Point3, dirs: Seq<Dir3>) -> Seq<(Dir3, BlockIndex)>
        decreases dirs.len(),
    {
        if dirs.len() == 0 {
            Seq::empty()
        } else {
            let rest = self.neighbors_upto(p, dirs.drop_last());
            let d = dirs.last();
            match self.index_at(p.spec_add_dir(d)) {
                Some(j) => rest.push((d, j)),
                None => rest,
            }
        }
    }

    pub fn iter_neighbors(&self, pos: &Point3) -> (r: Vec<(Dir3, BlockIndex)>)
        requires
            self.wf(),
            self.spec_valid_pos(*pos),
        ensures
            r@ == self.neighbors_upto(*pos, Dir3::spec_all()),
    {
        let all = Dir3::all();
        let mut r: Vec<(Dir3, BlockIndex)> = Vec::new();
        let mut i: usize = 0;
        while i < all.len()
            invariant
                i <= all@.len(),
                all@ == Dir3::spec_all(),
                self.wf(),
                self.spec_valid_pos(*pos),
                r@ == self.neighbors_upto(*pos, all@.take(i as int)),
            decreases all@.len() - i,
        {
            proof {
                assert(all@.take(i + 1) =~= all@.take(i as int).push(all@[i as int]));
                assert(all@.take(i + 1).drop_last() =~= all@.take(i as int));
            }
            let q = pos.add_dir(all[i]);
            match self.blocks.indices.get(&q) {
                Some(cell) => match cell {
                    Some(j) => {
                        r.push((all[i], j));
                    },
                    None => {},
                },
                None => {},
            }
            i = i + 1;
        }
        proof {
            assert(all@.take(all@.len() as int) =~= all@);
        }
        r
    }
}

impl Machine {
    /// Bulk load: place the listed blocks in order, each in the slot whose
    /// index is its list position, and attach the level. This is how a saved
    /// layout is reconstructed; slot indices are assigned in list order.
    pub fn new_from_block_data(
        size: &Vector3,
        blocks: &Vec<(Point3, PlacedBlock)>,
        level: Option<Level>,
    ) -> (r: Machine)
        requires
            size_ok(*size),
            blocks@.len() < usize::MAX,
            forall|k: int| 0 <= k < blocks@.len() ==> valid_pos_spec(*size, (#[trigger] blocks@[k]).0),
            forall|k: int, l: int|
                0 <= k < blocks@.len() && 0 <= l < blocks@.len() && k != l ==> (
                #[trigger] blocks@[k]).0 != (#[trigger] blocks@[l]).0,
        ensures
            r.wf(),
            r.spec_size() == *size,
            r.level == level,
            r.slots().len() == blocks@.len(),
            forall|k: int| 0 <= k < blocks@.len() ==> r.slots()[k] == Some(#[trigger] blocks@[k]),
            forall|k: int|
                0 <= k < blocks@.len() ==> r.index_at((#[trigger] blocks@[k]).0) == Some(
                    k as usize,
                ),
            forall|q: Point3|
                valid_pos_spec(*size, q) ==> match #[trigger] r.index_at(q) {
                    Some(j) => j < blocks@.len() && blocks@[j as int].0 == q,
                    None => true,
                },
    {
        let indices = Grid3::new(*size, None);
        let data = Arena::new();
        let mut m = Machine { blocks: Blocks { indices, data }, level };
        let n = blocks.len();
        let mut i: usize = 0;
        while i < n
            invariant
                i <= n,
                n == blocks@.len(),
                n < usize::MAX,
                forall|k: int|
                    0 <= k < n ==> valid_pos_spec(*size, (#[trigger] blocks@[k]).0),
                forall|k: int, l: int|
                    0 <= k < n && 0 <= l < n && k != l ==> (#[trigger] blocks@[k]).0 != (
                    #[trigger] blocks@[l]).0,
                m.wf(),
                m.spec_size() == *size,
                m.level == level,
                m.slots().len() == i,
                forall|k: int| 0 <= k < i ==> m.slots()[k] == Some(#[trigger] blocks@[k]),
                forall|k: int|
                    0 <= k < i ==> m.index_at((#[trigger] blocks@[k]).0) == Some(k as usize),
                forall|q: Point3|
                    valid_pos_spec(*size, q) ==> match #[trigger] m.index_at(q) {
                        Some(j) => j < i && blocks@[j as int].0 == q,
                        None => true,
                    },
            decreases n - i,
        {
            let (pos, pb) = blocks[i];
            let ghost before = m;
            m.set_block_at_pos(&pos, Some(pb));
            proof {
                assert forall|k: int|
                    0 <= k < i + 1 implies m.slots()[k] == Some(#[trigger] blocks@[k]) by {
                    if k < i {
                        assert(before.slots()[k] == Some(blocks@[k]));
                        assert(blocks@[k].0 != pos);
                    }
                }
                assert forall|k: int|
                    0 <= k < i + 1 implies m.index_at((#[trigger] blocks@[k]).0) == Some(
                    k as usize,
                ) by {
                    if k < i {
                        assert(blocks@[k].0 != pos);
                        assert(m.index_at(blocks@[k].0) == before.index_at(blocks@[k].0));
                    }
                }
                assert forall|q: Point3|
                    valid_pos_spec(*size, q) implies match #[trigger] m.index_at(q) {
                    Some(j) => j < i + 1 && blocks@[j as int].0 == q,
                    None => true,
                } by {
                    if q != pos {
                        assert(m.index_at(q) == before.index_at(q));
                    }
                }
            }
            i = i + 1;
        }
        m
    }

    /// An empty machine of the level's size, except for the level's `Input`
    /// blocks placed along the x-minimum face and its `Output` blocks along
    /// the x-maximum face, both vertically centred on the bottom layer.
    /// Inputs occupy slots `0..input_dim`, outputs the following slots.
    pub fn new_from_level(level: Level) -> (r: Machine)
        requires
            level_fits(level),
        ensures
            r.wf(),
            r.spec_size() == level.size,
            r.level == Some(level),
            r.slots().len() == level.goal.inputs@.len() + level.goal.outputs@.len(),
            forall|i: int|
                0 <= i < level.goal.inputs@.len() ==> #[trigger] r.slots()[i] == Some(
                    (level_input_pos(level, i), (PlacedBlock {
                        rotation_xy: 0,
                        block: Block::Input { index: i as usize, activated: None },
                    })),
                ),
            forall|x: int|
                level.goal.inputs@.len() <= x < level.goal.inputs@.len()
                    + level.goal.outputs@.len() ==> #[trigger] r.slots()[x] == Some(
                    (level_output_pos(level, x - level.goal.inputs@.len()), (PlacedBlock {
                        rotation_xy: 0,
                        block: Block::Output {
                            index: (x - level.goal.inputs@.len()) as usize,
                            expected_next_kind: None,
                        },
                    })),
                ),
    {
        let din = level.goal.input_dim();
        let dout = level.goal.output_dim();
        let sy = level.size.y as usize;
        proof {
            vstd::arithmetic::div_mod::lemma_div_is_ordered(din as int, sy as int, 2);
            vstd::arithmetic::div_mod::lemma_div_is_ordered(dout as int, sy as int, 2);
            lemma_centered_fits(sy as int, din as int);
            lemma_centered_fits(sy as int, dout as int);
        }
        let in_y_start = sy / 2 - din / 2;
        let out_y_start = sy / 2 - dout / 2;
        let size = level.size;
        let ghost glevel = level;
        let indices = Grid3::new(size, None);
        let data = Arena::new();
        let mut m = Machine { blocks: Blocks { indices, data }, level: Some(level) };
        let mut i: usize = 0;
        while i < din
            invariant
                i <= din,
                din == glevel.goal.inputs@.len(),
                dout == glevel.goal.outputs@.len(),
                level_fits(glevel),
                size == glevel.size,
                sy as int == glevel.size.y as int,
                in_y_start == level_in_y_start(glevel),
                m.wf(),
                m.spec_size() == glevel.size,
                m.level == Some(glevel),
                m.slots().len() == i,
                forall|k: int|
                    0 <= k < i ==> #[trigger] m.slots()[k] == Some(
                        (level_input_pos(glevel, k), (PlacedBlock {
                            rotation_xy: 0,
                            block: Block::Input { index: k as usize, activated: None },
                        })),
                    ),
                forall|q: Point3|
                    valid_pos_spec(glevel.size, q) ==> match #[trigger] m.index_at(q) {
                        Some(j) => j < i && level_input_pos(glevel, j as int) == q,
                        None => true,
                    },
            decreases din - i,
        {
            proof {
                vstd::arithmetic::div_mod::lemma_div_is_ordered(din as int, sy as int, 2);
                lemma_centered_fits(sy as int, din as int);
            }
            let pos = Point3 { x: 0, y: (in_y_start + i) as isize, z: 0 };
            proof {
                assert(pos == level_input_pos(glevel, i as int));
                assert(valid_pos_spec(glevel.size, pos));
            }
            let ghost before = m;
            m.set_block_at_pos(&pos, Some(PlacedBlock {
                rotation_xy: 0,
                block: Block::Input { index: i, activated: None },
            }));
            proof {
                assert forall|k: int|
                    0 <= k < i + 1 implies #[trigger] m.slots()[k] == Some(
                    (level_input_pos(glevel, k), (PlacedBlock {
                        rotation_xy: 0,
                        block: Block::Input { index: k as usize, activated: None },
                    })),
                ) by {
                    if k < i {
                        assert(before.slots()[k] is Some);
                        assert(level_input_pos(glevel, k) != pos);
                    }
                }
                assert forall|q: Point3|
                    valid_pos_spec(glevel.size, q) implies match #[trigger] m.index_at(q) {
                    Some(j) => j < i + 1 && level_input_pos(glevel, j as int) == q,
                    None => true,
                } by {
                    if q != pos {
                        assert(m.index_at(q) == before.index_at(q));
                    }
                }
            }
            i = i + 1;
        }
        let mut j: usize = 0;
        while j < dout
            invariant
                j <= dout,
                din == glevel.goal.inputs@.len(),
                dout == glevel.goal.outputs@.len(),
                level_fits(glevel),
                size == glevel.size,
                sy as int == glevel.size.y as int,
                out_y_start == level_out_y_start(glevel),
                m.wf(),
                m.spec_size() == glevel.size,
                m.level == Some(glevel),
                m.slots().len() == din + j,
                forall|k: int|
                    0 <= k < din ==> #[trigger] m.slots()[k] == Some(
                        (level_input_pos(glevel, k), (PlacedBlock {
                            rotation_xy: 0,
                            block: Block::Input { index: k as usize, activated: None },
                        })),
                    ),
                forall|x: int|
                    din <= x < din + j ==> #[trigger] m.slots()[x] == Some(
                        (level_output_pos(glevel, x - din), (PlacedBlock {
                            rotation_xy: 0,
                            block: Block::Output {
                                index: (x - din) as usize,
                                expected_next_kind: None,
                            },
                        })),
                    ),
                forall|q: Point3|
                    valid_pos_spec(glevel.size, q) ==> match #[trigger] m.index_at(q) {
                        Some(x) => x < din + j && (x < din ==> level_input_pos(glevel, x as int)
                            == q) && (x >= din ==> level_output_pos(glevel, x - din) == q),
                        None => true,
                    },
            decreases dout - j,
        {
            proof {
                vstd::arithmetic::div_mod::lemma_div_is_ordered(dout as int, sy as int, 2);
                lemma_centered_fits(sy as int, dout as int);
            }
            let pos = Point3 {
                x: size.x - 1,
                y: (out_y_start + j) as isize,
                z: 0,
            };
            proof {
                assert(pos == level_output_pos(glevel, j as int));
                assert(valid_pos_spec(glevel.size, pos));
                assert forall|k: int| 0 <= k < din implies level_input_pos(glevel, k) != pos by {
                    assert(level_input_pos(glevel, k).x == 0);
                    assert(pos.x == glevel.size.x - 1);
                    assert(glevel.size.x >= 2);
                }
            }
            let ghost before = m;
            m.set_block_at_pos(&pos, Some(PlacedBlock {
                rotation_xy: 0,
                block: Block::Output { index: j, expected_next_kind: None },
            }));
            proof {
                assert forall|k: int|
                    0 <= k < din implies #[trigger] m.slots()[k] == Some(
                    (level_input_pos(glevel, k), (PlacedBlock {
                        rotation_xy: 0,
                        block: Block::Input { index: k as usize, activated: None },
                    })),
                ) by {
                    assert(before.slots()[k] == Some(
                        (level_input_pos(glevel, k), (PlacedBlock {
                            rotation_xy: 0,
                            block: Block::Input { index: k as usize, activated: None },
                        })),
                    ));
                    assert(level_input_pos(glevel, k) != pos);
                }
                assert forall|x: int|
                    din <= x < din + j + 1 implies #[trigger] m.slots()[x] == Some(
                    (level_output_pos(glevel, x - din), (PlacedBlock {
                        rotation_xy: 0,
                        block: Block::Output {
                            index: (x - din) as usize,
                            expected_next_kind: None,
                        },
                    })),
                ) by {
                    if x < din + j {
                        assert(before.slots()[x] == Some(
                            (level_output_pos(glevel, x - din), (PlacedBlock {
                                rotation_xy: 0,
                                block: Block::Output {
                                    index: (x - din) as usize,
                                    expected_next_kind: None,
                                },
                            })),
                        ));
                        assert(level_output_pos(glevel, x - din) != pos);
                    }
                }
                assert forall|q: Point3|
                    valid_pos_spec(glevel.size, q) implies match #[trigger] m.index_at(q) {
                    Some(x) => x < din + j + 1 && (x < din ==> level_input_pos(glevel, x as int)
                        == q) && (x >= din ==> level_output_pos(glevel, x - din) == q),
                    None => true,
                } by {
                    if q != pos {
                        assert(m.index_at(q) == before.index_at(q));
                    }
                }
            }
            j = j + 1;
        }
        m
    }
}

/// The level's boundary blocks fit the grid: the expected sequences fit the
/// machine's y extent, boundary cells exist, and when both faces are used
/// the grid is wide enough to keep them apart.
pub open spec fn level_fits(level: Level) -> bool {
    &&& size_ok(level.size)
    &&& level.goal.inputs@.len() <= level.size.y
    &&& level.goal.outputs@.len() <= level.size.y
    &&& (level.goal.inputs@.len() > 0 || level.goal.outputs@.len() > 0) ==> (level.size.x >= 1
        && level.size.z >= 1)
    &&& (level.goal.inputs@.len() > 0 && level.goal.outputs@.len() > 0) ==> level.size.x >= 2
    &&& level.goal.inputs@.len() + level.goal.outputs@.len() < usize::MAX
}

/// First y row of the vertically centred input column.
pub open spec fn level_in_y_start(level: Level) -> int {
    level.size.y / 2 - level.goal.inputs@.len() as int / 2
}

/// First y row of the vertically centred output column.
pub open spec fn level_out_y_start(level: Level) -> int {
    level.size.y / 2 - level.goal.outputs@.len() as int / 2
}

/// Cell of the `i`-th input block.
pub open spec fn level_input_pos(level: Level, i: int) -> Point3 {
    Point3 { x: 0, y: (level_in_y_start(level) + i) as isize, z: 0 }
}

/// Cell of the `i`-th output block.
pub open spec fn level_output_pos(level: Level, i: int) -> Point3 {
    Point3 { x: (level.size.x - 1) as isize, y: (level_out_y_start(level) + i) as isize, z: 0 }
}

/// A centred column of `d` rows fits in `[0, s)` when `d <= s`.
proof fn lemma_centered_fits(s: int, d: int)
    requires
        0 <= d <= s,
    ensures
        0 <= s / 2 - d / 2,
        s / 2 - d / 2 + d <= s,
{
    vstd::arithmetic::div_mod::lemma_div_is_ordered(d, s, 2);
    vstd::arithmetic::div_mod::lemma_fundamental_div_mod(s, 2);
    vstd::arithmetic::div_mod::lemma_fundamental_div_mod(d, 2);
    vstd::arithmetic::div_mod::lemma_mod_bound(s, 2);
    vstd::arithmetic::div_mod::lemma_mod_bound(d, 2);
    if d / 2 == s / 2 {
        assert(d - d % 2 == s - s % 2);
    } else {
        assert(d / 2 < s / 2);
    }
}

/// The data needed to restore a machine: size, the live `(position, block)`
/// pairs in slot order, and the optional level. Slot indices are not part of
/// this form; they are reassigned in list order on reconstruction.
#[derive(Clone, PartialEq, Eq, Debug)]
pub struct SavedMachine {
    pub size: Vector3,
    pub block_data: Vec<(Point3, PlacedBlock)>,
    pub level: Option<Level>,
}

impl SavedMachine {
    /// Capture a machine's live layout in slot order, with a deep copy of
    /// its level.
    pub fn from_machine(machine: &Machine) -> (r: SavedMachine)
        requires
            machine.wf(),
        ensures
            r.size == machine.spec_size(),
            r.block_data@ == live_list(machine.slots()),
            crate::level::opt_level_eqv(r.level, machine.level),
            forall|k: int|
                0 <= k < r.block_data@.len() ==> machine.spec_valid_pos(
                    (#[trigger] r.block_data@[k]).0,
                ),
            forall|k: int, l: int|
                0 <= k < r.block_data@.len() && 0 <= l < r.block_data@.len() && k != l ==> (
                #[trigger] r.block_data@[k]).0 != (#[trigger] r.block_data@[l]).0,
    {
        let entries = machine.iter_blocks();
        let mut block_data: Vec<(Point3, PlacedBlock)> = Vec::new();
        let mut i: usize = 0;
        proof {
            lemma_live_pairs_sound(machine.slots());
        }
        while i < entries.len()
            invariant
                i <= entries@.len(),
                entries@ == live_pairs(machine.slots()),
                machine.wf(),
                block_data@.len() == i,
                forall|k: int| 0 <= k < i ==> block_data@[k] == (#[trigger] entries@[k]).1,
            decreases entries@.len() - i,
        {
            block_data.push(entries[i].1);
            i = i + 1;
        }
        proof {
            lemma_live_pairs_sound(machine.slots());
            assert forall|k: int|
                0 <= k < block_data@.len() implies block_data@[k] == live_list(machine.slots())[k]
            by {
                assert(block_data@[k] == (entries@[k]).1);
                assert((live_pairs(machine.slots())[k]).1 == live_list(machine.slots())[k]);
            }
            assert(block_data@ =~= live_list(machine.slots()));
            assert forall|k: int|
                0 <= k < block_data@.len() implies machine.spec_valid_pos(
                (#[trigger] block_data@[k]).0,
            ) by {
                let idx = live_pairs(machine.slots())[k].0 as int;
                assert(machine.slots()[idx] == Some(live_pairs(machine.slots())[k].1));
            }
            assert forall|k: int, l: int|
                0 <= k < block_data@.len() && 0 <= l < block_data@.len() && k != l implies (
            #[trigger] block_data@[k]).0 != (#[trigger] block_data@[l]).0 by {
                let ik = live_pairs(machine.slots())[k].0 as int;
                let il = live_pairs(machine.slots())[l].0 as int;
                assert(ik != il);
                assert(machine.slots()[ik] == Some(live_pairs(machine.slots())[k].1));
                assert(machine.slots()[il] == Some(live_pairs(machine.slots())[l].1));
                lemma_wf_positions_distinct(*machine, ik, il);
            }
        }
        let level = match &machine.level {
            Some(l) => Some(l.duplicate()),
            None => None,
        };
        SavedMachine { size: machine.size(), block_data, level }
    }

    /// Rebuild a machine from the saved layout. Reconstruction reproduces
    /// the grid-arena invariant exactly, with slots assigned in list order.
    pub fn into_machine(self) -> (r: Machine)
        requires
            size_ok(self.size),
            self.block_data@.len() < usize::MAX,
            forall|k: int|
                0 <= k < self.block_data@.len() ==> valid_pos_spec(
                    self.size,
                    (#[trigger] self.block_data@[k]).0,
                ),
            forall|k: int, l: int|
                0 <= k < self.block_data@.len() && 0 <= l < self.block_data@.len() && k != l ==> (
                #[trigger] self.block_data@[k]).0 != (#[trigger] self.block_data@[l]).0,
        ensures
            r.wf(),
            r.spec_size() == self.size,
            r.level == self.level,
            r.slots().len() == self.block_data@.len(),
            forall|k: int|
                0 <= k < self.block_data@.len() ==> r.slots()[k] == Some(
                    #[trigger] self.block_data@[k],
                ),
    {
        Machine::new_from_block_data(&self.size, &self.block_data, self.level)
    }
}

/// Distinct occupied slots of a well-formed machine store distinct
/// positions.
pub proof fn lemma_wf_positions_distinct(m: Machine, i: int, j: int)
    requires
        m.wf(),
        m.slots().len() <= usize::MAX,
        0 <= i < m.slots().len(),
        0 <= j < m.slots().len(),
        m.slots()[i] is Some,
        m.slots()[j] is Some,
        i != j,
    ensures
        (m.slots()[i]->Some_0).0 != (m.slots()[j]->Some_0).0,
{
    if (m.slots()[i]->Some_0).0 == (m.slots()[j]->Some_0).0 {
        assert(m.grid_at((m.slots()[i]->Some_0).0) == Some(i as usize));
        assert(m.grid_at((m.slots()[j]->Some_0).0) == Some(j as usize));
    }
}

} // verus!
