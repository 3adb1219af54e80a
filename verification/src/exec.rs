//! The tick engine: wraps a machine for execution and advances it tick by
//! tick. Each tick recomputes the wind state from the current port topology
//! in a single synchronous pass, lets activatable blocks fire their effects,
//! and then moves every blip along the move ports, in that order. The
//! previous tick's wind state is kept solely for display interpolation.

use vstd::prelude::*;

verus! {

use crate::arena::Arena;
use crate::grid::{Dir3, Grid3, Point3};
use crate::level::Input;
use crate::machine::{rotate_cw_n, BlipKind, Block, Machine, PlacedBlock, TickNum};

/// Per-block wind state: one flag per face, true when wind enters through
/// that face this tick.
#[derive(Clone, Copy, PartialEq, Eq, Debug, Structural)]
pub struct WindState {
    pub from_x_pos: bool,
    pub from_x_neg: bool,
    pub from_y_pos: bool,
    pub from_y_neg: bool,
    pub from_z_pos: bool,
    pub from_z_neg: bool,
}

impl WindState {
    /// Wind enters through the face pointing in direction `d`.
    pub open spec fn spec_wind_in(self, d: Dir3) -> bool {
        match d {
            Dir3::XPos => self.from_x_pos,
            Dir3::XNeg => self.from_x_neg,
            Dir3::YPos => self.from_y_pos,
            Dir3::YNeg => self.from_y_neg,
            Dir3::ZPos => self.from_z_pos,
            Dir3::ZNeg => self.from_z_neg,
        }
    }

    #[verifier::when_used_as_spec(spec_wind_in)]
    pub fn wind_in(self, d: Dir3) -> (r: bool)
        ensures
            r == self.spec_wind_in(d),
    {
        match d {
            Dir3::XPos => self.from_x_pos,
            Dir3::XNeg => self.from_x_neg,
            Dir3::YPos => self.from_y_pos,
            Dir3::YNeg => self.from_y_neg,
            Dir3::ZPos => self.from_z_pos,
            Dir3::ZNeg => self.from_z_neg,
        }
    }

    pub open spec fn spec_none() -> WindState {
        WindState {
            from_x_pos: false,
            from_x_neg: false,
            from_y_pos: false,
            from_y_neg: false,
            from_z_pos: false,
            from_z_neg: false,
        }
    }

    pub fn none() -> (r: WindState)
        ensures
            r == WindState::spec_none(),
    {
        WindState {
            from_x_pos: false,
            from_x_neg: false,
            from_y_pos: false,
            from_y_neg: false,
            from_z_pos: false,
            from_z_neg: false,
        }
    }
}

impl Default for WindState {
    fn default() -> (r: WindState)
        ensures
            r == WindState::spec_none(),
    {
        WindState::none()
    }
}

/// Wind enters block `i` through its face in direction `d` exactly when the
/// block admits wind on that face and the neighbouring cell one step in `d`
/// holds a block that emits wind back through the opposing face. Wind state
/// is purely a function of the current adjacent port pairs: no flood fill,
/// no dependence on the previous tick.
pub open spec fn wind_in_spec(m: Machine, i: int, d: Dir3) -> bool {
    if 0 <= i < m.slots().len() && m.slots()[i] is Some {
        let p = (m.slots()[i]->Some_0).0;
        let pb = (m.slots()[i]->Some_0).1;
        &&& pb.spec_has_wind_hole_in(d)
        &&& match m.index_at(p.spec_add_dir(d)) {
            Some(j) => j < m.slots().len() && m.slots()[j as int] is Some && (m.slots()[
            j as int]->Some_0).1.spec_has_wind_hole_out(d.spec_invert()),
            None => false,
        }
    } else {
        false
    }
}

/// The full wind state of block `i`.
pub open spec fn wind_state_spec(m: Machine, i: int) -> WindState {
    WindState {
        from_x_pos: wind_in_spec(m, i, Dir3::XPos),
        from_x_neg: wind_in_spec(m, i, Dir3::XNeg),
        from_y_pos: wind_in_spec(m, i, Dir3::YPos),
        from_y_neg: wind_in_spec(m, i, Dir3::YNeg),
        from_z_pos: wind_in_spec(m, i, Dir3::ZPos),
        from_z_neg: wind_in_spec(m, i, Dir3::ZNeg),
    }
}

/// The wind state of every slot, as a function of the machine topology.
pub open spec fn wind_seq_spec(m: Machine) -> Seq<WindState> {
    Seq::new(m.slots().len(), |i: int| wind_state_spec(m, i))
}

/// Wind propagation is deterministic: any two wind states computed from the
/// same machine topology, with no intervening mutation, are identical.
pub proof fn lemma_wind_propagation_deterministic(
    m: Machine,
    w1: Seq<WindState>,
    w2: Seq<WindState>,
)
    requires
        w1 == wind_seq_spec(m),
        w2 == wind_seq_spec(m),
    ensures
        w1 == w2,
{
}

/// Whether wind enters occupied slot `i` through face `d`, per
/// `wind_in_spec`.
fn wind_in_dir(m: &Machine, i: usize, p: Point3, pb: PlacedBlock, d: Dir3) -> (r: bool)
    requires
        m.wf(),
        i < m.slots().len(),
        m.slots()[i as int] == Some((p, pb)),
    ensures
        r == wind_in_spec(*m, i as int, d),
{
    if !pb.has_wind_hole_in(d) {
        return false;
    }
    let q = p.add_dir(d);
    match m.get_block_at_pos(&q) {
        Some(entry) => entry.1.has_wind_hole_out(d.invert()),
        None => false,
    }
}

/// The wind propagation step: one synchronous pass over the current
/// topology, yielding the wind state of every slot.
pub fn compute_wind(m: &Machine) -> (r: Vec<WindState>)
    requires
        m.wf(),
    ensures
        r@ == wind_seq_spec(*m),
{
    let n = m.blocks.data.num_slots();
    let mut r: Vec<WindState> = Vec::new();
    let mut i: usize = 0;
    while i < n
        invariant
            i <= n,
            n == m.slots().len(),
            m.wf(),
            r@.len() == i,
            forall|k: int| 0 <= k < i ==> r@[k] == wind_state_spec(*m, k),
        decreases n - i,
    {
        let ws = match m.blocks.data.get(i) {
            Some(pair) => {
                let p = pair.0;
                let pb = pair.1;
                WindState {
                    from_x_pos: wind_in_dir(m, i, p, pb, Dir3::XPos),
                    from_x_neg: wind_in_dir(m, i, p, pb, Dir3::XNeg),
                    from_y_pos: wind_in_dir(m, i, p, pb, Dir3::YPos),
                    from_y_neg: wind_in_dir(m, i, p, pb, Dir3::YNeg),
                    from_z_pos: wind_in_dir(m, i, p, pb, Dir3::ZPos),
                    from_z_neg: wind_in_dir(m, i, p, pb, Dir3::ZNeg),
                }
            },
            None => WindState::none(),
        };
        r.push(ws);
        i = i + 1;
    }
    proof {
        assert(r@ =~= wind_seq_spec(*m));
    }
    r
}

/// A token travelling through the machine. `old_pos` is `None` exactly on
/// the tick a blip is spawned; afterwards it holds the previous position,
/// for display interpolation.
#[derive(Clone, Copy, PartialEq, Eq, Debug, Structural)]
pub struct Blip {
    pub kind: BlipKind,
    pub pos: Point3,
    pub old_pos: Option<Point3>,
}

/// Which blip, if any, occupies a block slot's cell.
#[derive(Clone, Copy, PartialEq, Eq, Debug, Structural)]
pub struct BlipState {
    pub blip_index: Option<usize>,
}

/// The mutable state threaded through one tick's effect and movement
/// phases: the block payloads (bookkeeping fields change during a tick),
/// the blip arena, the per-slot occupancy, the remaining input feeds, and
/// the output-mismatch observation. Grid cells, block positions and the
/// port shapes never change within a tick; position lookups go through the
/// machine value taken at the start of the tick.
#[verifier::ext_equal]
pub struct TickState {
    pub slots: Seq<Option<(Point3, PlacedBlock)>>,
    pub blips: Seq<Option<Blip>>,
    pub blip_state: Seq<BlipState>,
    pub inputs: Seq<Seq<Option<Input>>>,
    pub mismatch: bool,
}

/// Append a freshly spawned blip at `p`, occupying slot `i`'s cell.
pub open spec fn spawn_at(ts: TickState, i: int, kind: BlipKind, p: Point3) -> TickState {
    TickState {
        blips: ts.blips.push(Some(Blip { kind, pos: p, old_pos: None })),
        blip_state: ts.blip_state.update(
            i,
            BlipState { blip_index: Some(ts.blips.len() as usize) },
        ),
        ..ts
    }
}

/// A duplicator at `p` tries to emit a copy of kind `kind` one step in
/// world direction `d`: the copy appears when that cell holds a block with
/// a matching move port and no resident blip.
pub open spec fn dup_spawn_spec(
    ctx: Machine,
    ts: TickState,
    p: Point3,
    kind: BlipKind,
    d: Dir3,
) -> TickState {
    let q = p.spec_add_dir(d);
    match ctx.index_at(q) {
        Some(t) => if t < ts.slots.len() && ts.slots[t as int] is Some && (ts.slots[
            t as int
        ]->Some_0).1.spec_has_move_hole(d.spec_invert()) && ts.blip_state[t as int].blip_index
            is None {
            spawn_at(ts, t as int, kind, q)
        } else {
            ts
        },
        None => ts,
    }
}

/// Replace the block payload of slot `i`, keeping its position.
pub open spec fn put_block(ts: TickState, i: int, pb: PlacedBlock) -> TickState {
    TickState { slots: ts.slots.update(i, Some(((ts.slots[i]->Some_0).0, pb))), ..ts }
}

/// The effect of block `i` at the start of a tick numbered `tick`:
/// - a `BlipSpawn` with spawns left (or unlimited) places a blip on its own
///   free cell, decrements its counter and records the activation tick;
///   otherwise its activation record is cleared;
/// - a `BlipDuplicator` activated last tick emits one copy to each of its
///   two rotated x-axis neighbours, then returns to idle;
/// - a `BlipWindSource` returns to idle after its pulse;
/// - an `Input` takes the next item of its feed, records it, and places the
///   fed blip on its own free cell.
/// Blocks are processed in slot order.
pub open spec fn effects_step(ctx: Machine, ts: TickState, i: int, tick: TickNum) -> TickState {
    if 0 <= i < ts.slots.len() && ts.slots[i] is Some {
        let p = (ts.slots[i]->Some_0).0;
        let pb = (ts.slots[i]->Some_0).1;
        match pb.block {
            Block::BlipSpawn { kind, num_spawns, activated } => {
                let can = match num_spawns {
                    Option::None => true,
                    Option::Some(n) => n > 0,
                };
                if can && ts.blip_state[i].blip_index is None {
                    let dec = match num_spawns {
                        Option::None => Option::<usize>::None,
                        Option::Some(n) => Option::Some((n - 1) as usize),
                    };
                    put_block(
                        spawn_at(ts, i, kind, p),
                        i,
                        PlacedBlock {
                            rotation_xy: pb.rotation_xy,
                            block: Block::BlipSpawn {
                                kind,
                                num_spawns: dec,
                                activated: Some(tick),
                            },
                        },
                    )
                } else {
                    put_block(
                        ts,
                        i,
                        PlacedBlock {
                            rotation_xy: pb.rotation_xy,
                            block: Block::BlipSpawn { kind, num_spawns, activated: None },
                        },
                    )
                }
            },
            Block::BlipDuplicator { kind, activated } => match activated {
                Option::Some(k) => {
                    let d1 = rotate_cw_n(Dir3::XPos, pb.rotation_xy as nat);
                    let d2 = rotate_cw_n(Dir3::XNeg, pb.rotation_xy as nat);
                    let ts1 = dup_spawn_spec(ctx, ts, p, k, d1);
                    let ts2 = dup_spawn_spec(ctx, ts1, p, k, d2);
                    put_block(
                        ts2,
                        i,
                        PlacedBlock {
                            rotation_xy: pb.rotation_xy,
                            block: Block::BlipDuplicator { kind, activated: None },
                        },
                    )
                },
                Option::None => ts,
            },
            Block::BlipWindSource { activated } => if activated {
                put_block(
                    ts,
                    i,
                    PlacedBlock {
                        rotation_xy: pb.rotation_xy,
                        block: Block::BlipWindSource { activated: false },
                    },
                )
            } else {
                ts
            },
            Block::Input { index, activated } => if index < ts.inputs.len() && ts.inputs[
                index as int
            ].len() > 0 {
                let item = ts.inputs[index as int][0];
                let ts1 = TickState {
                    inputs: ts.inputs.update(index as int, ts.inputs[index as int].drop_first()),
                    ..ts
                };
                let ts2 = match item {
                    Option::Some(Input::Blip(kind)) => if ts1.blip_state[i].blip_index is None {
                        spawn_at(ts1, i, kind, p)
                    } else {
                        ts1
                    },
                    Option::None => ts1,
                };
                put_block(
                    ts2,
                    i,
                    PlacedBlock {
                        rotation_xy: pb.rotation_xy,
                        block: Block::Input { index, activated: item },
                    },
                )
            } else {
                put_block(
                    ts,
                    i,
                    PlacedBlock {
                        rotation_xy: pb.rotation_xy,
                        block: Block::Input { index, activated: None },
                    },
                )
            },
            _ => ts,
        }
    } else {
        ts
    }
}

/// Blocks `0 .. n` processed in slot order.
pub open spec fn effects_phase(ctx: Machine, ts: TickState, n: int, tick: TickNum) -> TickState
    decreases n,
{
    if n <= 0 {
        ts
    } else {
        effects_step(ctx, effects_phase(ctx, ts, n - 1, tick), n - 1, tick)
    }
}

/// The direction from `p` to an adjacent position `q`, when they are one
/// step apart.
pub open spec fn dir_to(p: Point3, q: Point3) -> Option<Dir3> {
    if q == p.spec_add_dir(Dir3::XPos) {
        Some(Dir3::XPos)
    } else if q == p.spec_add_dir(Dir3::XNeg) {
        Some(Dir3::XNeg)
    } else if q == p.spec_add_dir(Dir3::YPos) {
        Some(Dir3::YPos)
    } else if q == p.spec_add_dir(Dir3::YNeg) {
        Some(Dir3::YNeg)
    } else if q == p.spec_add_dir(Dir3::ZPos) {
        Some(Dir3::ZPos)
    } else if q == p.spec_add_dir(Dir3::ZNeg) {
        Some(Dir3::ZNeg)
    } else {
        None
    }
}

/// The face through which the blip entered its current cell: the direction
/// pointing back at its previous position. A blip never immediately moves
/// back out through it.
pub open spec fn back_dir(b: Blip) -> Option<Dir3> {
    match b.old_pos {
        Some(q) => dir_to(b.pos, q),
        None => None,
    }
}

/// A blip at `b.pos` on block `pb` may leave through world direction `d`:
/// its own block has the move port, `d` is not the face it entered
/// through, and the neighbouring cell one step in `d` holds a block with
/// the opposing move port.
pub open spec fn move_dir_ok(ctx: Machine, ts: TickState, b: Blip, pb: PlacedBlock, d: Dir3) -> bool {
    &&& pb.spec_has_move_hole(d)
    &&& back_dir(b) != Some(d)
    &&& match ctx.index_at(b.pos.spec_add_dir(d)) {
        Some(t) => t < ts.slots.len() && ts.slots[t as int] is Some && (ts.slots[
        t as int]->Some_0).1.spec_has_move_hole(d.spec_invert()),
        None => false,
    }
}

/// The first usable move direction in canonical order, if any.
pub open spec fn pick_move_dir_from(
    ctx: Machine,
    ts: TickState,
    b: Blip,
    pb: PlacedBlock,
    dirs: Seq<Dir3>,
) -> Option<Dir3>
    decreases dirs.len(),
{
    if dirs.len() == 0 {
        None
    } else if move_dir_ok(ctx, ts, b, pb, dirs[0]) {
        Some(dirs[0])
    } else {
        pick_move_dir_from(ctx, ts, b, pb, dirs.drop_first())
    }
}

/// Remove blip `j`, clearing the occupancy of slot `i`.
pub open spec fn despawn(ts: TickState, j: int, i: int) -> TickState {
    TickState {
        blips: ts.blips.update(j, None),
        blip_state: ts.blip_state.update(i, BlipState { blip_index: None }),
        ..ts
    }
}

/// The movement of blip `j`, processed in arena-index order:
/// - with no usable move port the blip is destroyed;
/// - moving into a `Solid` destroys it (absorbed);
/// - moving into an `Output` consumes it; a kind mismatch against
///   `expected_next_kind` is recorded as an observation;
/// - moving into a `BlipDuplicator` consumes it and, when the duplicator's
///   filter admits its kind, activates the duplicator;
/// - moving into a `BlipWindSource` consumes it and activates the source;
/// - moving into an occupied cell merges the moving blip away (the resident
///   blip, which has the lower processing order, survives);
/// - otherwise the blip advances, remembering its previous position.
pub open spec fn move_step(ctx: Machine, ts: TickState, j: int) -> TickState {
    if 0 <= j < ts.blips.len() && ts.blips[j] is Some {
        let b = ts.blips[j]->Some_0;
        match ctx.index_at(b.pos) {
            Some(i) => if i < ts.slots.len() && ts.slots[i as int] is Some {
                let pb = (ts.slots[i as int]->Some_0).1;
                match pick_move_dir_from(ctx, ts, b, pb, Dir3::spec_all()) {
                    Some(d) => {
                        let q = b.pos.spec_add_dir(d);
                        let t = ctx.index_at(q)->Some_0;
                        let nb = (ts.slots[t as int]->Some_0).1;
                        match nb.block {
                            Block::Solid => despawn(ts, j, i as int),
                            Block::Output { index, expected_next_kind } => {
                                let bad = match expected_next_kind {
                                    Option::Some(e) => e != b.kind,
                                    Option::None => false,
                                };
                                TickState {
                                    mismatch: ts.mismatch || bad,
                                    ..despawn(ts, j, i as int)
                                }
                            },
                            Block::BlipDuplicator { kind, activated } => {
                                let hit = match kind {
                                    Option::Some(f) => f == b.kind,
                                    Option::None => true,
                                };
                                let ts1 = despawn(ts, j, i as int);
                                if hit {
                                    put_block(
                                        ts1,
                                        t as int,
                                        PlacedBlock {
                                            rotation_xy: nb.rotation_xy,
                                            block: Block::BlipDuplicator {
                                                kind,
                                                activated: Some(b.kind),
                                            },
                                        },
                                    )
                                } else {
                                    ts1
                                }
                            },
                            Block::BlipWindSource { .. } => put_block(
                                despawn(ts, j, i as int),
                                t as int,
                                PlacedBlock {
                                    rotation_xy: nb.rotation_xy,
                                    block: Block::BlipWindSource { activated: true },
                                },
                            ),
                            _ => if ts.blip_state[t as int].blip_index is Some {
                                despawn(ts, j, i as int)
                            } else {
                                TickState {
                                    blips: ts.blips.update(
                                        j,
                                        Some(Blip { kind: b.kind, pos: q, old_pos: Some(b.pos) }),
                                    ),
                                    blip_state: ts.blip_state.update(
                                        i as int,
                                        BlipState { blip_index: None },
                                    ).update(t as int, BlipState { blip_index: Some(j as usize) }),
                                    ..ts
                                }
                            },
                        }
                    },
                    None => despawn(ts, j, i as int),
                }
            } else {
                TickState { blips: ts.blips.update(j, None), ..ts }
            },
            None => TickState { blips: ts.blips.update(j, None), ..ts },
        }
    } else {
        ts
    }
}

/// Blips `0 .. n` processed in arena-index order; `n` is the number of blip
/// slots at the start of the tick, so blips spawned this tick do not move.
pub open spec fn move_phase(ctx: Machine, ts: TickState, n: int) -> TickState
    decreases n,
{
    if n <= 0 {
        ts
    } else {
        move_step(ctx, move_phase(ctx, ts, n - 1), n - 1)
    }
}


/// Two slot sequences hold the same layout: the same slots are occupied, at
/// the same positions, with the same rotations and variant shapes. A tick
/// changes only execution bookkeeping, so its phases preserve this relation;
/// port geometry is a function of shape and rotation alone.
pub open spec fn same_layout(
    a: Seq<Option<(Point3, PlacedBlock)>>,
    b: Seq<Option<(Point3, PlacedBlock)>>,
) -> bool {
    &&& a.len() == b.len()
    &&& forall|k: int|
        0 <= k < a.len() ==> {
            &&& ((#[trigger] a[k]) is Some <==> (#[trigger] b[k]) is Some)
            &&& (a[k] is Some ==> {
                &&& (a[k]->Some_0).0 == (b[k]->Some_0).0
                &&& (a[k]->Some_0).1.rotation_xy == (b[k]->Some_0).1.rotation_xy
                &&& (a[k]->Some_0).1.block.same_shape((b[k]->Some_0).1.block)
            })
        }
}

/// `same_layout` is reflexive.
proof fn lemma_same_layout_refl(a: Seq<Option<(Point3, PlacedBlock)>>)
    ensures
        same_layout(a, a),
{
    assert forall|k: int| 0 <= k < a.len() && (#[trigger] a[k]) is Some implies (
    a[k]->Some_0).1.block.same_shape((a[k]->Some_0).1.block) by {
    }
}

/// `same_layout` is transitive.
proof fn lemma_same_layout_trans(
    a: Seq<Option<(Point3, PlacedBlock)>>,
    b: Seq<Option<(Point3, PlacedBlock)>>,
    c: Seq<Option<(Point3, PlacedBlock)>>,
)
    requires
        same_layout(a, b),
        same_layout(b, c),
    ensures
        same_layout(a, c),
{
    assert forall|k: int| 0 <= k < a.len() implies {
        &&& ((#[trigger] a[k]) is Some <==> (#[trigger] c[k]) is Some)
        &&& (a[k] is Some ==> {
            &&& (a[k]->Some_0).0 == (c[k]->Some_0).0
            &&& (a[k]->Some_0).1.rotation_xy == (c[k]->Some_0).1.rotation_xy
            &&& (a[k]->Some_0).1.block.same_shape((c[k]->Some_0).1.block)
        })
    } by {
        assert(a[k] is Some <==> b[k] is Some);
    }
}

/// A duplicator's attempted copy leaves the block layout alone.
proof fn lemma_dup_spawn_preserves_layout(
    ctx: Machine,
    ts: TickState,
    p: Point3,
    kind: BlipKind,
    d: Dir3,
)
    ensures
        dup_spawn_spec(ctx, ts, p, kind, d).slots == ts.slots,
{
}

/// One block's effect changes only that block's bookkeeping fields.
proof fn lemma_effects_step_preserves_layout(ctx: Machine, ts: TickState, i: int, tick: TickNum)
    ensures
        same_layout(ts.slots, effects_step(ctx, ts, i, tick).slots),
{
    lemma_same_layout_refl(ts.slots);
    let out = effects_step(ctx, ts, i, tick);
    if 0 <= i < ts.slots.len() && ts.slots[i] is Some {
        let pb = (ts.slots[i]->Some_0).1;
        match pb.block {
            Block::BlipSpawn { .. } => {
                assert(same_layout(ts.slots, out.slots));
            },
            Block::BlipDuplicator { kind, activated } => match activated {
                Option::Some(k) => {
                    let d1 = rotate_cw_n(Dir3::XPos, pb.rotation_xy as nat);
                    let d2 = rotate_cw_n(Dir3::XNeg, pb.rotation_xy as nat);
                    lemma_dup_spawn_preserves_layout(ctx, ts, p_of(ts, i), k, d1);
                    lemma_dup_spawn_preserves_layout(
                        ctx,
                        dup_spawn_spec(ctx, ts, p_of(ts, i), k, d1),
                        p_of(ts, i),
                        k,
                        d2,
                    );
                    assert(same_layout(ts.slots, out.slots));
                },
                Option::None => {},
            },
            _ => {
                assert(same_layout(ts.slots, out.slots));
            },
        }
    }
}

/// The position stored in an occupied slot, as a spec shorthand.
pub open spec fn p_of(ts: TickState, i: int) -> Point3 {
    (ts.slots[i]->Some_0).0
}

/// The whole effect phase preserves the block layout.
proof fn lemma_effects_phase_preserves_layout(ctx: Machine, ts: TickState, n: int, tick: TickNum)
    ensures
        same_layout(ts.slots, effects_phase(ctx, ts, n, tick).slots),
    decreases n,
{
    if n <= 0 {
        lemma_same_layout_refl(ts.slots);
    } else {
        lemma_effects_phase_preserves_layout(ctx, ts, n - 1, tick);
        let mid = effects_phase(ctx, ts, n - 1, tick);
        lemma_effects_step_preserves_layout(ctx, mid, n - 1, tick);
        lemma_same_layout_trans(ts.slots, mid.slots, effects_step(ctx, mid, n - 1, tick).slots);
    }
}

/// One blip's movement changes only bookkeeping fields of the block it hits.
proof fn lemma_move_step_preserves_layout(ctx: Machine, ts: TickState, j: int)
    ensures
        same_layout(ts.slots, move_step(ctx, ts, j).slots),
{
    lemma_same_layout_refl(ts.slots);
    let out = move_step(ctx, ts, j);
    if 0 <= j < ts.blips.len() && ts.blips[j] is Some {
        let b = ts.blips[j]->Some_0;
        match ctx.index_at(b.pos) {
            Option::Some(i) => {
                if i < ts.slots.len() && ts.slots[i as int] is Some {
                    let pb = (ts.slots[i as int]->Some_0).1;
                    match pick_move_dir_from(ctx, ts, b, pb, Dir3::spec_all()) {
                        Option::Some(d) => {
                            lemma_pick_some_ok(ctx, ts, b, pb, Dir3::spec_all());
                            let q = b.pos.spec_add_dir(d);
                            let t = ctx.index_at(q)->Some_0;
                            assert((t as int) < ts.slots.len());
                            let nb = (ts.slots[t as int]->Some_0).1;
                            match nb.block {
                                Block::BlipDuplicator { kind, activated } => {
                                    let hit = match kind {
                                        Option::Some(f) => f == b.kind,
                                        Option::None => true,
                                    };
                                    if hit {
                                        assert(out.slots == ts.slots.update(
                                            t as int,
                                            Some(
                                                ((ts.slots[t as int]->Some_0).0, (PlacedBlock {
                                                    rotation_xy: nb.rotation_xy,
                                                    block: Block::BlipDuplicator {
                                                        kind,
                                                        activated: Some(b.kind),
                                                    },
                                                })),
                                            ),
                                        ));
                                        assert forall|k: int|
                                            0 <= k < ts.slots.len() && k != t implies
                                            out.slots[k] == ts.slots[k] by {
                                        }
                                        assert(same_layout(ts.slots, out.slots));
                                    } else {
                                        assert(out.slots == ts.slots);
                                    }
                                },
                                Block::BlipWindSource { .. } => {
                                    assert(out.slots == ts.slots.update(
                                        t as int,
                                        Some(
                                            ((ts.slots[t as int]->Some_0).0, (PlacedBlock {
                                                rotation_xy: nb.rotation_xy,
                                                block: Block::BlipWindSource { activated: true },
                                            })),
                                        ),
                                    ));
                                    assert forall|k: int|
                                        0 <= k < ts.slots.len() && k != t implies out.slots[k]
                                        == ts.slots[k] by {
                                    }
                                    assert(same_layout(ts.slots, out.slots));
                                },
                                _ => {
                                    assert(out.slots == ts.slots);
                                },
                            }
                        },
                        Option::None => {},
                    }
                }
            },
            Option::None => {},
        }
    }
}

/// The whole movement phase preserves the block layout.
proof fn lemma_move_phase_preserves_layout(ctx: Machine, ts: TickState, n: int)
    ensures
        same_layout(ts.slots, move_phase(ctx, ts, n).slots),
    decreases n,
{
    if n <= 0 {
        lemma_same_layout_refl(ts.slots);
    } else {
        lemma_move_phase_preserves_layout(ctx, ts, n - 1);
        let mid = move_phase(ctx, ts, n - 1);
        lemma_move_step_preserves_layout(ctx, mid, n - 1);
        lemma_same_layout_trans(ts.slots, mid.slots, move_step(ctx, mid, n - 1).slots);
    }
}

/// Deep view of the remaining input feeds.
pub open spec fn inputs_view(v: Vec<Vec<Option<Input>>>) -> Seq<Seq<Option<Input>>> {
    v@.map_values(|x: Vec<Option<Input>>| x@)
}

/// The execution engine: a machine wrapped for running, the tick counter,
/// the current and previous wind state, the live blips and the per-cell
/// occupancy, the remaining input feeds, and the output observation.
pub struct Exec {
    pub machine: Machine,
    pub cur_tick: TickNum,
    pub wind_state: Vec<WindState>,
    pub old_wind_state: Vec<WindState>,
    pub blips: Arena<Blip>,
    pub blip_state: Vec<BlipState>,
    pub inputs_remaining: Vec<Vec<Option<Input>>>,
    pub output_mismatch: bool,
}

impl Exec {
    /// The tick-phase view of the engine's mutable state.
    pub open spec fn ts(self) -> TickState {
        TickState {
            slots: self.machine.slots(),
            blips: self.blips.slots@,
            blip_state: self.blip_state@,
            inputs: inputs_view(self.inputs_remaining),
            mismatch: self.output_mismatch,
        }
    }

    /// Blips and cell occupancy point at each other: every live blip sits
    /// on an occupied machine cell whose occupancy entry names it, and every
    /// occupancy entry names a live blip sitting on that cell. In
    /// particular, no two blips ever share a cell.
    pub open spec fn occ_ok(self) -> bool {
        &&& forall|j: int|
            0 <= j < self.blips.slots@.len() && (#[trigger] self.blips.slots@[j]) is Some ==> {
                let b = self.blips.slots@[j]->Some_0;
                &&& self.machine.spec_valid_pos(b.pos)
                &&& self.machine.index_at(b.pos) is Some
                &&& self.machine.index_at(b.pos)->Some_0 < self.blip_state@.len()
                &&& self.blip_state@[self.machine.index_at(b.pos)->Some_0 as int].blip_index
                    == Some(j as usize)
            }
        &&& forall|i: int|
            0 <= i < self.blip_state@.len() && (#[trigger] self.blip_state@[i]).blip_index
                is Some ==> {
                let j = self.blip_state@[i].blip_index->Some_0;
                &&& i < self.machine.slots().len()
                &&& self.machine.slots()[i] is Some
                &&& (j as int) < self.blips.slots@.len()
                &&& self.blips.slots@[j as int] is Some
                &&& (self.blips.slots@[j as int]->Some_0).pos == (
                self.machine.slots()[i]->Some_0).0
            }
    }

    /// Engine invariant: the machine is well formed, the per-slot vectors
    /// cover its arena, and blips and cell occupancy point at each other.
    pub open spec fn wf(self) -> bool {
        &&& self.machine.wf()
        &&& self.wind_state@.len() == self.machine.slots().len()
        &&& self.old_wind_state@.len() == self.machine.slots().len()
        &&& self.blip_state@.len() == self.machine.slots().len()
        &&& self.blips.wf()
        &&& self.blips.slots@.len() <= usize::MAX
        &&& self.occ_ok()
    }

    /// What holds of the engine throughout a tick's effect and movement
    /// phases, relative to the machine value `ctx` taken at the start of
    /// the tick: grid cells are untouched (only block payloads change), the
    /// vectors keep covering the arena, and occupancy stays consistent.
    pub open spec fn mid_wf(self, ctx: Machine) -> bool {
        &&& self.machine.wf()
        &&& self.machine.blocks.indices == ctx.blocks.indices
        &&& self.machine.slots().len() == ctx.slots().len()
        &&& self.blip_state@.len() == self.machine.slots().len()
        &&& self.blips.wf()
        &&& self.blips.slots@.len() <= usize::MAX
        &&& self.occ_ok()
    }

    /// Wrap a machine for execution. The arena is compacted first, so slot
    /// indices are dense for the whole run; input feeds are taken from the
    /// machine's level, if any.
    pub fn new(machine: Machine) -> (r: Exec)
        requires
            machine.wf(),
        ensures
            r.wf(),
            r.cur_tick == 0,
            r.machine.spec_size() == machine.spec_size(),
            r.machine.level == machine.level,
            r.machine.slots().len() == machine.blocks.data.n_live,
            forall|q: Point3|
                machine.spec_valid_pos(q) ==> #[trigger] r.machine.placed_at(q) == machine.placed_at(
                    q,
                ),
            r.blips.slots@.len() == 0,
            r.output_mismatch == false,
            forall|i: int|
                0 <= i < r.wind_state@.len() ==> #[trigger] r.wind_state@[i]
                    == WindState::spec_none(),
            r.old_wind_state@ == r.wind_state@,
            forall|i: int|
                0 <= i < r.blip_state@.len() ==> (#[trigger] r.blip_state@[i]).blip_index is None,
            match machine.level {
                Some(l) => inputs_view(r.inputs_remaining).len() == l.goal.inputs@.len()
                    && forall|k: int|
                    0 <= k < l.goal.inputs@.len() ==> #[trigger] inputs_view(r.inputs_remaining)[k]
                        == l.goal.inputs@[k]@,
                None => inputs_view(r.inputs_remaining).len() == 0,
            },
    {
        let mut m = machine;
        m.gc();
        let n = m.blocks.data.num_slots();
        let wind_state = vec![WindState::none(); n];
        let old_wind_state = vec![WindState::none(); n];
        let blip_state = vec![BlipState { blip_index: None }; n];
        let mut inputs_remaining: Vec<Vec<Option<Input>>> = Vec::new();
        match &m.level {
            Some(l) => {
                let mut k: usize = 0;
                while k < l.goal.inputs.len()
                    invariant
                        k <= l.goal.inputs@.len(),
                        inputs_remaining@.len() == k,
                        forall|x: int|
                            0 <= x < k ==> (#[trigger] inputs_remaining@[x])@
                                == l.goal.inputs@[x]@,
                    decreases l.goal.inputs@.len() - k,
                {
                    inputs_remaining.push(crate::level::copy_input_feed(&l.goal.inputs[k]));
                    k = k + 1;
                }
            },
            None => {},
        }
        let r = Exec {
            machine: m,
            cur_tick: 0,
            wind_state,
            old_wind_state,
            blips: Arena::new(),
            blip_state,
            inputs_remaining,
            output_mismatch: false,
        };
        proof {
            assert(r.old_wind_state@ =~= r.wind_state@);
        }
        r
    }

    pub fn machine(&self) -> (r: &Machine)
        ensures
            *r == self.machine,
    {
        &self.machine
    }

    pub fn wind_state(&self) -> (r: &Vec<WindState>)
        ensures
            *r == self.wind_state,
    {
        &self.wind_state
    }

    pub fn old_wind_state(&self) -> (r: &Vec<WindState>)
        ensures
            *r == self.old_wind_state,
    {
        &self.old_wind_state
    }

    pub fn blips(&self) -> (r: &Arena<Blip>)
        ensures
            *r == self.blips,
    {
        &self.blips
    }

    pub fn cur_tick(&self) -> (r: TickNum)
        ensures
            r == self.cur_tick,
    {
        self.cur_tick
    }

    /// Whether any output has observed a token of the wrong kind so far.
    pub fn output_mismatch(&self) -> (r: bool)
        ensures
            r == self.output_mismatch,
    {
        self.output_mismatch
    }

    /// Advance the machine by exactly one tick:
    /// 1. recompute the wind state from the current topology, keeping the
    ///    previous state only for display interpolation;
    /// 2. fire the block effects (spawns, duplications, input feeds) in
    ///    slot order;
    /// 3. move every blip that existed at the start of the tick, in arena
    ///    order;
    /// 4. increment the tick counter by exactly one.
    pub fn update(&mut self)
        requires
            old(self).wf(),
            old(self).cur_tick < usize::MAX,
            old(self).blips.slots@.len() + 2 * old(self).machine.slots().len() <= usize::MAX,
        ensures
            final(self).wf(),
            final(self).cur_tick == old(self).cur_tick + 1,
            final(self).old_wind_state@ == old(self).wind_state@,
            final(self).wind_state@ == wind_seq_spec(old(self).machine),
            final(self).machine.blocks.indices == old(self).machine.blocks.indices,
            final(self).machine.level == old(self).machine.level,
            final(self).machine.blocks.data.n_live == old(self).machine.blocks.data.n_live,
            final(self).machine.slots().len() == old(self).machine.slots().len(),
            same_layout(old(self).machine.slots(), final(self).machine.slots()),
            final(self).ts() == move_phase(
                old(self).machine,
                effects_phase(
                    old(self).machine,
                    old(self).ts(),
                    old(self).machine.slots().len() as int,
                    old(self).cur_tick,
                ),
                old(self).blips.slots@.len() as int,
            ),
    {
        let ghost ctx = self.machine;
        let ghost t_start = self.ts();
        let ghost nlive0 = self.machine.blocks.data.n_live;
        let ghost lev0 = self.machine.level;
        let tick0 = self.cur_tick;
        let new_wind = compute_wind(&self.machine);
        let prev_wind = copy_winds(&self.wind_state);
        self.old_wind_state = prev_wind;
        self.wind_state = new_wind;
        let ghost wind_now = self.wind_state;
        let ghost wind_prev = self.old_wind_state;
        let n_blocks = self.machine.blocks.data.num_slots();
        let n0 = self.blips.num_slots();
        let mut i: usize = 0;
        while i < n_blocks
            invariant
                i <= n_blocks,
                n_blocks == ctx.slots().len(),
                self.mid_wf(ctx),
                self.ts() == effects_phase(ctx, t_start, i as int, tick0),
                self.cur_tick == tick0,
                self.wind_state == wind_now,
                self.old_wind_state == wind_prev,
                self.machine.blocks.data.n_live == nlive0,
                self.machine.level == lev0,
                n0 == t_start.blips.len(),
                t_start.blips.len() + 2 * ctx.slots().len() <= usize::MAX,
                t_start.blips.len() <= self.blips.slots@.len(),
                self.blips.slots@.len() <= t_start.blips.len() + 2 * i,
            decreases n_blocks - i,
        {
            self.effects_step_exec(i, Ghost(ctx));
            i = i + 1;
        }
        let ghost t_mid = effects_phase(ctx, t_start, n_blocks as int, tick0);
        proof {
            assert(self.ts() == t_mid);
        }
        let mut j: usize = 0;
        while j < n0
            invariant
                j <= n0,
                self.mid_wf(ctx),
                self.ts() == move_phase(ctx, t_mid, j as int),
                self.cur_tick == tick0,
                self.wind_state == wind_now,
                self.old_wind_state == wind_prev,
                self.machine.blocks.data.n_live == nlive0,
                self.machine.level == lev0,
                n0 <= self.blips.slots@.len(),
            decreases n0 - j,
        {
            self.move_step_exec(j, Ghost(ctx));
            j = j + 1;
        }
        self.cur_tick = tick0 + 1;
        proof {
            assert(self.wind_state@.len() == ctx.slots().len()) by {
                assert(wind_seq_spec(ctx).len() == ctx.slots().len());
            }
            lemma_effects_phase_preserves_layout(ctx, t_start, n_blocks as int, tick0);
            lemma_move_phase_preserves_layout(ctx, t_mid, n0 as int);
            lemma_same_layout_trans(
                t_start.slots,
                t_mid.slots,
                move_phase(ctx, t_mid, n0 as int).slots,
            );
        }
    }

    /// One block's effect phase; see `effects_step` for the rules.
    fn effects_step_exec(&mut self, i: usize, ctx: Ghost<Machine>)
        requires
            old(self).mid_wf(ctx@),
            i < old(self).machine.slots().len(),
            old(self).blips.slots@.len() + 2 <= usize::MAX,
        ensures
            final(self).mid_wf(ctx@),
            final(self).ts() == effects_step(ctx@, old(self).ts(), i as int, old(self).cur_tick),
            final(self).cur_tick == old(self).cur_tick,
            final(self).wind_state == old(self).wind_state,
            final(self).old_wind_state == old(self).old_wind_state,
            final(self).machine.blocks.data.n_live == old(self).machine.blocks.data.n_live,
            final(self).machine.level == old(self).machine.level,
            old(self).blips.slots@.len() <= final(self).blips.slots@.len() <= old(
                self,
            ).blips.slots@.len() + 2,
            final(self).blip_state@.len() == old(self).blip_state@.len(),
    {
        let ghost t0 = old(self).ts();
        let tick = self.cur_tick;
        let entry = self.machine.blocks.data.get(i);
        match entry {
            None => {
                proof {
                    assert(self.ts() =~= effects_step(ctx@, t0, i as int, tick));
                }
            },
            Some(pair) => {
                let p = pair.0;
                let pb = pair.1;
                match pb.block {
                    Block::BlipSpawn { .. } => {
                        self.step_blip_spawn(i, p, pb, ctx);
                    },
                    Block::BlipDuplicator { .. } => {
                        self.step_duplicator(i, p, pb, ctx);
                    },
                    Block::BlipWindSource { activated } => {
                        if activated {
                            let ghost m1 = *self;
                            self.machine.set_block_at_index(
                                i,
                                PlacedBlock {
                                    rotation_xy: pb.rotation_xy,
                                    block: Block::BlipWindSource { activated: false },
                                },
                            );
                            proof {
                                lemma_occ_preserved(m1, *self);
                                assert(self.ts() =~= effects_step(ctx@, t0, i as int, tick));
                            }
                        } else {
                            proof {
                                assert(self.ts() =~= effects_step(ctx@, t0, i as int, tick));
                            }
                        }
                    },
                    Block::Input { .. } => {
                        self.step_input(i, p, pb, ctx);
                    },
                    _ => {
                        proof {
                            assert(self.ts() =~= effects_step(ctx@, t0, i as int, tick));
                        }
                    },
                }
            },
        }
    }

    /// The effect phase of a `BlipSpawn` block.
    #[verifier::spinoff_prover]
    fn step_blip_spawn(&mut self, i: usize, p: Point3, pb: PlacedBlock, ctx: Ghost<Machine>)
        requires
            old(self).mid_wf(ctx@),
            i < old(self).machine.slots().len(),
            old(self).machine.slots()[i as int] == Some((p, pb)),
            pb.block is BlipSpawn,
            old(self).blips.slots@.len() + 2 <= usize::MAX,
        ensures
            final(self).mid_wf(ctx@),
            final(self).ts() == effects_step(ctx@, old(self).ts(), i as int, old(self).cur_tick),
            final(self).cur_tick == old(self).cur_tick,
            final(self).wind_state == old(self).wind_state,
            final(self).old_wind_state == old(self).old_wind_state,
            final(self).machine.blocks.data.n_live == old(self).machine.blocks.data.n_live,
            final(self).machine.level == old(self).machine.level,
            old(self).blips.slots@.len() <= final(self).blips.slots@.len() <= old(
                self,
            ).blips.slots@.len() + 2,
            final(self).blip_state@.len() == old(self).blip_state@.len(),
    {
        let ghost t0 = old(self).ts();
        let tick = self.cur_tick;
        match pb.block {
            Block::BlipSpawn { kind, num_spawns, activated: _ } => {
                let can = match num_spawns {
                    Some(n) => n > 0,
                    None => true,
                };
                let free = self.blip_state[i].blip_index.is_none();
                if can && free {
                    let ghost a = *self;
                    let jn = self.blips.add(Blip { kind, pos: p, old_pos: None });
                    self.blip_state.set(i, BlipState { blip_index: Some(jn) });
                    proof {
                        assert(a.machine.index_at(p) == Some(i));
                        lemma_occ_after_spawn(a, *self, i as int, kind, p);
                        assert(self.ts() =~= spawn_at(t0, i as int, kind, p));
                    }
                    let dec = match num_spawns {
                        Some(n) => Some(n - 1),
                        None => None,
                    };
                    let ghost m1 = *self;
                    self.machine.set_block_at_index(
                        i,
                        PlacedBlock {
                            rotation_xy: pb.rotation_xy,
                            block: Block::BlipSpawn {
                                kind,
                                num_spawns: dec,
                                activated: Some(tick),
                            },
                        },
                    );
                    proof {
                        lemma_occ_preserved(m1, *self);
                        assert(self.ts() =~= effects_step(ctx@, t0, i as int, tick));
                    }
                } else {
                    let ghost m1 = *self;
                    self.machine.set_block_at_index(
                        i,
                        PlacedBlock {
                            rotation_xy: pb.rotation_xy,
                            block: Block::BlipSpawn { kind, num_spawns, activated: None },
                        },
                    );
                    proof {
                        lemma_occ_preserved(m1, *self);
                        assert(self.ts() =~= effects_step(ctx@, t0, i as int, tick));
                    }
                }
            },
            _ => {
                proof {
                    assert(false);
                }
            },
        }
    }

    /// The effect phase of a `BlipDuplicator` block.
    #[verifier::spinoff_prover]
    fn step_duplicator(&mut self, i: usize, p: Point3, pb: PlacedBlock, ctx: Ghost<Machine>)
        requires
            old(self).mid_wf(ctx@),
            i < old(self).machine.slots().len(),
            old(self).machine.slots()[i as int] == Some((p, pb)),
            pb.block is BlipDuplicator,
            old(self).blips.slots@.len() + 2 <= usize::MAX,
        ensures
            final(self).mid_wf(ctx@),
            final(self).ts() == effects_step(ctx@, old(self).ts(), i as int, old(self).cur_tick),
            final(self).cur_tick == old(self).cur_tick,
            final(self).wind_state == old(self).wind_state,
            final(self).old_wind_state == old(self).old_wind_state,
            final(self).machine.blocks.data.n_live == old(self).machine.blocks.data.n_live,
            final(self).machine.level == old(self).machine.level,
            old(self).blips.slots@.len() <= final(self).blips.slots@.len() <= old(
                self,
            ).blips.slots@.len() + 2,
            final(self).blip_state@.len() == old(self).blip_state@.len(),
    {
        let ghost t0 = old(self).ts();
        let tick = self.cur_tick;
        match pb.block {
            Block::BlipDuplicator { kind, activated } => {
                match activated {
                    Some(k) => {
                        let d1 = pb.rotated_dir_xy(Dir3::XPos);
                        let d2 = pb.rotated_dir_xy(Dir3::XNeg);
                        proof {
                            assert(self.machine.spec_valid_pos(p));
                        }
                        self.dup_spawn_exec(p, k, d1, ctx);
                        proof {
                            assert(self.ts() == dup_spawn_spec(ctx@, t0, p, k, d1));
                        }
                        let ghost t1 = self.ts();
                        self.dup_spawn_exec(p, k, d2, ctx);
                        proof {
                            assert(self.ts() == dup_spawn_spec(ctx@, t1, p, k, d2));
                        }
                        let ghost m1 = *self;
                        self.machine.set_block_at_index(
                            i,
                            PlacedBlock {
                                rotation_xy: pb.rotation_xy,
                                block: Block::BlipDuplicator { kind, activated: None },
                            },
                        );
                        proof {
                            lemma_occ_preserved(m1, *self);
                            assert(m1.ts().slots[i as int] is Some && (
                            m1.ts().slots[i as int]->Some_0).0 == p);
                            assert(self.ts() =~= effects_step(ctx@, t0, i as int, tick));
                        }
                    },
                    None => {
                        proof {
                            assert(self.ts() =~= effects_step(ctx@, t0, i as int, tick));
                        }
                    },
                }
            },
            _ => {
                proof {
                    assert(false);
                }
            },
        }
    }

    /// The effect phase of an `Input` block.
    #[verifier::spinoff_prover]
    fn step_input(&mut self, i: usize, p: Point3, pb: PlacedBlock, ctx: Ghost<Machine>)
        requires
            old(self).mid_wf(ctx@),
            i < old(self).machine.slots().len(),
            old(self).machine.slots()[i as int] == Some((p, pb)),
            pb.block is Input,
            old(self).blips.slots@.len() + 2 <= usize::MAX,
        ensures
            final(self).mid_wf(ctx@),
            final(self).ts() == effects_step(ctx@, old(self).ts(), i as int, old(self).cur_tick),
            final(self).cur_tick == old(self).cur_tick,
            final(self).wind_state == old(self).wind_state,
            final(self).old_wind_state == old(self).old_wind_state,
            final(self).machine.blocks.data.n_live == old(self).machine.blocks.data.n_live,
            final(self).machine.level == old(self).machine.level,
            old(self).blips.slots@.len() <= final(self).blips.slots@.len() <= old(
                self,
            ).blips.slots@.len() + 2,
            final(self).blip_state@.len() == old(self).blip_state@.len(),
    {
        let ghost t0 = old(self).ts();
        let tick = self.cur_tick;
        match pb.block {
            Block::Input { index, activated: _ } => {
                let has_item = index < self.inputs_remaining.len()
                    && self.inputs_remaining[index].len() > 0;
                if has_item {
                    let (item, rest) = pop_front_feed(&self.inputs_remaining[index]);
                    self.inputs_remaining.set(index, rest);
                    proof {
                        assert(inputs_view(self.inputs_remaining) =~= t0.inputs.update(
                            index as int,
                            t0.inputs[index as int].drop_first(),
                        ));
                    }
                    let ghost t1 = self.ts();
                    match item {
                        Some(inp) => {
                            match inp {
                                Input::Blip(kind) => {
                                    if self.blip_state[i].blip_index.is_none() {
                                        let ghost a = *self;
                                        let jn = self.blips.add(
                                            Blip { kind, pos: p, old_pos: None },
                                        );
                                        self.blip_state.set(i, BlipState { blip_index: Some(jn) });
                                        proof {
                                            assert(a.machine.index_at(p) == Some(i));
                                            lemma_occ_after_spawn(a, *self, i as int, kind, p);
                                            assert(self.ts() =~= spawn_at(t1, i as int, kind, p));
                                        }
                                    }
                                },
                            }
                        },
                        None => {},
                    }
                    let ghost m1 = *self;
                    self.machine.set_block_at_index(
                        i,
                        PlacedBlock {
                            rotation_xy: pb.rotation_xy,
                            block: Block::Input { index, activated: item },
                        },
                    );
                    proof {
                        lemma_occ_preserved(m1, *self);
                        assert(self.ts() =~= effects_step(ctx@, t0, i as int, tick));
                    }
                } else {
                    let ghost m1 = *self;
                    self.machine.set_block_at_index(
                        i,
                        PlacedBlock {
                            rotation_xy: pb.rotation_xy,
                            block: Block::Input { index, activated: None },
                        },
                    );
                    proof {
                        lemma_occ_preserved(m1, *self);
                        assert(self.ts() =~= effects_step(ctx@, t0, i as int, tick));
                    }
                }
            },
            _ => {
                proof {
                    assert(false);
                }
            },
        }
    }

    /// A duplicator at `p` tries to emit one copy in world direction `d`;
    /// see `dup_spawn_spec`.
    fn dup_spawn_exec(&mut self, p: Point3, kind: BlipKind, d: Dir3, ctx: Ghost<Machine>)
        requires
            old(self).mid_wf(ctx@),
            old(self).machine.spec_valid_pos(p),
            old(self).blips.slots@.len() < usize::MAX,
        ensures
            final(self).mid_wf(ctx@),
            final(self).ts() == dup_spawn_spec(ctx@, old(self).ts(), p, kind, d),
            final(self).cur_tick == old(self).cur_tick,
            final(self).wind_state == old(self).wind_state,
            final(self).old_wind_state == old(self).old_wind_state,
            final(self).machine == old(self).machine,
            old(self).blips.slots@.len() <= final(self).blips.slots@.len() <= old(
                self,
            ).blips.slots@.len() + 1,
            final(self).blip_state@.len() == old(self).blip_state@.len(),
    {
        let q = p.add_dir(d);
        match self.machine.get_block_at_pos(&q) {
            Some(neigh) => {
                let t = neigh.0;
                let nb = neigh.1;
                if nb.has_move_hole(d.invert()) && self.blip_state[t].blip_index.is_none() {
                    let ghost a = *self;
                    let jn = self.blips.add(Blip { kind, pos: q, old_pos: None });
                    self.blip_state.set(t, BlipState { blip_index: Some(jn) });
                    proof {
                        lemma_occ_after_spawn(a, *self, t as int, kind, q);
                        assert(self.ts() =~= spawn_at(a.ts(), t as int, kind, q));
                        assert(self.ts() =~= dup_spawn_spec(ctx@, a.ts(), p, kind, d));
                    }
                } else {
                    proof {
                        assert(self.ts() =~= dup_spawn_spec(ctx@, old(self).ts(), p, kind, d));
                    }
                }
            },
            None => {
                proof {
                    assert(self.ts() =~= dup_spawn_spec(ctx@, old(self).ts(), p, kind, d));
                }
            },
        }
    }

    /// Whether blip `b` on block `pb` may leave through world direction
    /// `d`; see `move_dir_ok`.
    fn move_dir_ok_exec(&self, b: Blip, pb: PlacedBlock, d: Dir3, ctx: Ghost<Machine>) -> (r: bool)
        requires
            self.mid_wf(ctx@),
            self.machine.spec_valid_pos(b.pos),
        ensures
            r == move_dir_ok(ctx@, self.ts(), b, pb, d),
    {
        if !pb.has_move_hole(d) {
            return false;
        }
        let back = match b.old_pos {
            Some(q) => dir_to_exec(b.pos, q),
            None => None,
        };
        let is_back = match back {
            Some(bd) => bd == d,
            None => false,
        };
        if is_back {
            return false;
        }
        let qn = b.pos.add_dir(d);
        match self.machine.get_block_at_pos(&qn) {
            Some(neigh) => neigh.1.has_move_hole(d.invert()),
            None => false,
        }
    }

    /// The first usable move direction in canonical order, if any; see
    /// `pick_move_dir_from`.
    fn pick_move_dir_exec(&self, b: Blip, pb: PlacedBlock, ctx: Ghost<Machine>) -> (r: Option<
        Dir3,
    >)
        requires
            self.mid_wf(ctx@),
            self.machine.spec_valid_pos(b.pos),
        ensures
            r == pick_move_dir_from(ctx@, self.ts(), b, pb, Dir3::spec_all()),
    {
        let all = Dir3::all();
        let mut idx: usize = 0;
        while idx < all.len()
            invariant
                idx <= all@.len(),
                all@ == Dir3::spec_all(),
                self.mid_wf(ctx@),
                self.machine.spec_valid_pos(b.pos),
                forall|k: int|
                    0 <= k < idx ==> !move_dir_ok(ctx@, self.ts(), b, pb, #[trigger] all@[k]),
            decreases all@.len() - idx,
        {
            if self.move_dir_ok_exec(b, pb, all[idx], ctx) {
                proof {
                    lemma_pick_prefix(ctx@, self.ts(), b, pb, all@, idx as int);
                }
                return Some(all[idx]);
            }
            idx = idx + 1;
        }
        proof {
            lemma_pick_none(ctx@, self.ts(), b, pb, all@);
        }
        None
    }

    /// One blip's movement phase; see `move_step` for the rules.
    #[verifier::rlimit(60)]
    #[verifier::spinoff_prover]
    fn move_step_exec(&mut self, j: usize, ctx: Ghost<Machine>)
        requires
            old(self).mid_wf(ctx@),
            j < old(self).blips.slots@.len(),
        ensures
            final(self).mid_wf(ctx@),
            final(self).ts() == move_step(ctx@, old(self).ts(), j as int),
            final(self).cur_tick == old(self).cur_tick,
            final(self).wind_state == old(self).wind_state,
            final(self).old_wind_state == old(self).old_wind_state,
            final(self).machine.blocks.data.n_live == old(self).machine.blocks.data.n_live,
            final(self).machine.level == old(self).machine.level,
            final(self).blips.slots@.len() == old(self).blips.slots@.len(),
            final(self).blip_state@.len() == old(self).blip_state@.len(),
    {
        let ghost t0 = old(self).ts();
        let bo = self.blips.get(j);
        match bo {
            None => {
                proof {
                    assert(self.ts() =~= move_step(ctx@, t0, j as int));
                }
            },
            Some(b) => {
                let looked = self.machine.get_block_at_pos(&b.pos);
                match looked {
                    None => {
                        proof {
                            assert(false);
                        }
                    },
                    Some(entry) => {
                        let i = entry.0;
                        let pb = entry.1;
                        let pick = self.pick_move_dir_exec(b, pb, ctx);
                        match pick {
                            None => {
                                let ghost a = *self;
                                self.blips.remove(j);
                                self.blip_state.set(i, BlipState { blip_index: None });
                                proof {
                                    lemma_occ_after_despawn(a, *self, j as int, i as int);
                                    assert(self.ts() =~= despawn(t0, j as int, i as int));
                                    assert(self.ts() =~= move_step(ctx@, t0, j as int));
                                }
                            },
                            Some(d) => {
                                proof {
                                    lemma_pick_some_ok(ctx@, t0, b, pb, Dir3::spec_all());
                                }
                                let q = b.pos.add_dir(d);
                                let target = self.machine.get_block_at_pos(&q);
                                match target {
                                    None => {
                                        proof {
                                            assert(move_dir_ok(ctx@, t0, b, pb, d));
                                            assert(false);
                                        }
                                    },
                                    Some(tentry) => {
                                        let t = tentry.0;
                                        let nb = tentry.1;
                                        proof {
                                            assert(move_dir_ok(ctx@, t0, b, pb, d));
                                            assert(ctx@.index_at(q) == Some(t));
                                        }
                                        match nb.block {
                                            Block::Solid => {
                                                let ghost a = *self;
                                                self.blips.remove(j);
                                                self.blip_state.set(
                                                    i,
                                                    BlipState { blip_index: None },
                                                );
                                                proof {
                                                    lemma_occ_after_despawn(
                                                        a,
                                                        *self,
                                                        j as int,
                                                        i as int,
                                                    );
                                                    assert(self.ts() =~= despawn(
                                                        t0,
                                                        j as int,
                                                        i as int,
                                                    ));
                                                    assert(self.ts() =~= move_step(
                                                        ctx@,
                                                        t0,
                                                        j as int,
                                                    ));
                                                }
                                            },
                                            Block::Output { index: _, expected_next_kind } => {
                                                let ghost a = *self;
                                                self.blips.remove(j);
                                                self.blip_state.set(
                                                    i,
                                                    BlipState { blip_index: None },
                                                );
                                                let bad = match expected_next_kind {
                                                    Some(e) => {
                                                        let bk = b.kind;
                                                        !(e == bk)
                                                    },
                                                    None => false,
                                                };
                                                if bad {
                                                    self.output_mismatch = true;
                                                }
                                                proof {
                                                    lemma_occ_after_despawn(
                                                        a,
                                                        *self,
                                                        j as int,
                                                        i as int,
                                                    );
                                                    assert(self.ts() =~= move_step(
                                                        ctx@,
                                                        t0,
                                                        j as int,
                                                    ));
                                                }
                                            },
                                            Block::BlipDuplicator { kind, activated: _ } => {
                                                let ghost a = *self;
                                                self.blips.remove(j);
                                                self.blip_state.set(
                                                    i,
                                                    BlipState { blip_index: None },
                                                );
                                                proof {
                                                    lemma_occ_after_despawn(
                                                        a,
                                                        *self,
                                                        j as int,
                                                        i as int,
                                                    );
                                                }
                                                let hit = match kind {
                                                    Some(f) => f == b.kind,
                                                    None => true,
                                                };
                                                if hit {
                                                    let ghost m1 = *self;
                                                    self.machine.set_block_at_index(
                                                        t,
                                                        PlacedBlock {
                                                            rotation_xy: nb.rotation_xy,
                                                            block: Block::BlipDuplicator {
                                                                kind,
                                                                activated: Some(b.kind),
                                                            },
                                                        },
                                                    );
                                                    proof {
                                                        lemma_occ_preserved(m1, *self);
                                                    }
                                                }
                                                proof {
                                                    assert(self.ts() =~= move_step(
                                                        ctx@,
                                                        t0,
                                                        j as int,
                                                    ));
                                                }
                                            },
                                            Block::BlipWindSource { .. } => {
                                                let ghost a = *self;
                                                self.blips.remove(j);
                                                self.blip_state.set(
                                                    i,
                                                    BlipState { blip_index: None },
                                                );
                                                proof {
                                                    lemma_occ_after_despawn(
                                                        a,
                                                        *self,
                                                        j as int,
                                                        i as int,
                                                    );
                                                }
                                                let ghost m1 = *self;
                                                self.machine.set_block_at_index(
                                                    t,
                                                    PlacedBlock {
                                                        rotation_xy: nb.rotation_xy,
                                                        block: Block::BlipWindSource {
                                                            activated: true,
                                                        },
                                                    },
                                                );
                                                proof {
                                                    lemma_occ_preserved(m1, *self);
                                                    assert(self.ts() =~= move_step(
                                                        ctx@,
                                                        t0,
                                                        j as int,
                                                    ));
                                                }
                                            },
                                            _ => {
                                                if self.blip_state[t].blip_index.is_some() {
                                                    let ghost a = *self;
                                                    self.blips.remove(j);
                                                    self.blip_state.set(
                                                        i,
                                                        BlipState { blip_index: None },
                                                    );
                                                    proof {
                                                        lemma_occ_after_despawn(
                                                            a,
                                                            *self,
                                                            j as int,
                                                            i as int,
                                                        );
                                                        assert(self.ts() =~= move_step(
                                                            ctx@,
                                                            t0,
                                                            j as int,
                                                        ));
                                                    }
                                                } else {
                                                    let ghost a = *self;
                                                    self.blips.set(
                                                        j,
                                                        Blip {
                                                            kind: b.kind,
                                                            pos: q,
                                                            old_pos: Some(b.pos),
                                                        },
                                                    );
                                                    self.blip_state.set(
                                                        i,
                                                        BlipState { blip_index: None },
                                                    );
                                                    self.blip_state.set(
                                                        t,
                                                        BlipState { blip_index: Some(j) },
                                                    );
                                                    proof {
                                                        lemma_occ_after_move(
                                                            a,
                                                            *self,
                                                            j as int,
                                                            i as int,
                                                            t as int,
                                                            q,
                                                        );
                                                        assert(self.ts() =~= move_step(
                                                            ctx@,
                                                            t0,
                                                            j as int,
                                                        ));
                                                    }
                                                }
                                            },
                                        }
                                    },
                                }
                            },
                        }
                    },
                }
            },
        }
    }

    /// Manually introduce a blip at a grid position, best effort: a no-op
    /// unless the position holds a block whose cell is free. Reports
    /// whether a blip was spawned. `is_player_triggered` tags spawns coming
    /// from direct interaction; both sources follow the same rule.
    #[allow(unused_variables)]
    pub fn try_spawn_blip(
        is_player_triggered: bool,
        kind: BlipKind,
        grid_pos: &Point3,
        indices: &Grid3<Option<usize>>,
        blip_state: &mut Vec<BlipState>,
        blips: &mut Arena<Blip>,
    ) -> (spawned: bool)
        requires
            indices.wf(),
            old(blips).wf(),
            old(blips).slots@.len() < usize::MAX,
            forall|p: Point3|
                indices.spec_valid_pos(p) && (#[trigger] indices.at(p)) is Some ==> indices.at(
                    p,
                )->Some_0 < old(blip_state)@.len(),
        ensures
            final(blips).wf(),
            spawned == (indices.spec_valid_pos(*grid_pos) && indices.at(*grid_pos) is Some && old(
                blip_state,
            )@[indices.at(*grid_pos)->Some_0 as int].blip_index is None),
            spawned ==> final(blips).slots@ == old(blips).slots@.push(
                Some(Blip { kind, pos: *grid_pos, old_pos: None }),
            ) && final(blip_state)@ == old(blip_state)@.update(
                indices.at(*grid_pos)->Some_0 as int,
                BlipState { blip_index: Some(old(blips).slots@.len() as usize) },
            ),
            !spawned ==> *final(blips) == *old(blips) && final(blip_state)@ == old(blip_state)@,
    {
        match indices.get(grid_pos) {
            Some(cell) => match cell {
                Some(i) => {
                    match blip_state[i].blip_index {
                        Some(_) => false,
                        None => {
                            let j = blips.add(Blip { kind, pos: *grid_pos, old_pos: None });
                            blip_state.set(i, BlipState { blip_index: Some(j) });
                            true
                        },
                    }
                },
                None => false,
            },
            None => false,
        }
    }

    /// Manually introduce a blip at a position of this engine's machine,
    /// best effort; see `try_spawn_blip`.
    pub fn try_spawn_blip_at(
        &mut self,
        is_player_triggered: bool,
        kind: BlipKind,
        pos: &Point3,
    ) -> (spawned: bool)
        requires
            old(self).wf(),
            old(self).blips.slots@.len() < usize::MAX,
        ensures
            final(self).wf(),
            final(self).machine == old(self).machine,
            final(self).cur_tick == old(self).cur_tick,
            final(self).wind_state == old(self).wind_state,
            final(self).old_wind_state == old(self).old_wind_state,
            final(self).inputs_remaining == old(self).inputs_remaining,
            final(self).output_mismatch == old(self).output_mismatch,
            spawned == (old(self).machine.index_at(*pos) is Some && old(self).blip_state@[old(
                self,
            ).machine.index_at(*pos)->Some_0 as int].blip_index is None),
            spawned ==> final(self).ts() == spawn_at(
                old(self).ts(),
                old(self).machine.index_at(*pos)->Some_0 as int,
                kind,
                *pos,
            ),
            !spawned ==> final(self).blips == old(self).blips && final(self).blip_state@ == old(
                self,
            ).blip_state@,
    {
        proof {
            assert forall|p: Point3|
                self.machine.blocks.indices.spec_valid_pos(p) && (
                #[trigger] self.machine.blocks.indices.at(p)) is Some implies self.machine.blocks.indices.at(
                p,
            )->Some_0 < self.blip_state@.len() by {
                assert(self.machine.spec_valid_pos(p));
            }
        }
        let r = Exec::try_spawn_blip(
            is_player_triggered,
            kind,
            pos,
            &self.machine.blocks.indices,
            &mut self.blip_state,
            &mut self.blips,
        );
        proof {
            if r {
                let i = old(self).machine.index_at(*pos)->Some_0 as int;
                let jn = old(self).blips.slots@.len() as int;
                assert(self.ts().blips =~= spawn_at(old(self).ts(), i, kind, *pos).blips);
                assert(self.ts().blip_state =~= spawn_at(old(self).ts(), i, kind, *pos).blip_state);
                assert(self.ts() == spawn_at(old(self).ts(), i, kind, *pos));
                assert forall|j: int|
                    0 <= j < self.blips.slots@.len() && (#[trigger] self.blips.slots@[j])
                        is Some implies {
                    let b = self.blips.slots@[j]->Some_0;
                    &&& self.machine.spec_valid_pos(b.pos)
                    &&& self.machine.index_at(b.pos) is Some
                    &&& self.blip_state@[self.machine.index_at(b.pos)->Some_0 as int].blip_index
                        == Some(j as usize)
                } by {
                    if j < jn {
                        assert(old(self).blips.slots@[j] is Some);
                        let b = self.blips.slots@[j]->Some_0;
                        let bi = old(self).machine.index_at(b.pos)->Some_0 as int;
                        if bi == i {
                            assert(old(self).blip_state@[i].blip_index == Some(j as usize));
                            assert(false);
                        }
                    }
                }
                assert forall|i2: int|
                    0 <= i2 < self.blip_state@.len() && (#[trigger] self.blip_state@[i2]).blip_index
                        is Some implies {
                    let j = self.blip_state@[i2].blip_index->Some_0;
                    &&& self.machine.slots()[i2] is Some
                    &&& (j as int) < self.blips.slots@.len()
                    &&& self.blips.slots@[j as int] is Some
                    &&& (self.blips.slots@[j as int]->Some_0).pos == (
                    self.machine.slots()[i2]->Some_0).0
                } by {
                    if i2 != i {
                        assert(old(self).blip_state@[i2] == self.blip_state@[i2]);
                    }
                }
            }
        }
        r
    }
}


/// Removing a blip and clearing its cell keeps occupancy consistent.
proof fn lemma_occ_after_despawn(a: Exec, b: Exec, j: int, i: int)
    requires
        a.occ_ok(),
        a.machine.wf(),
        a.blips.slots@.len() <= usize::MAX,
        a.blip_state@.len() == a.machine.slots().len(),
        0 <= j < a.blips.slots@.len(),
        a.blips.slots@[j] is Some,
        0 <= i < a.blip_state@.len(),
        a.machine.index_at((a.blips.slots@[j]->Some_0).pos) == Some(i as usize),
        b.machine == a.machine,
        b.blips.slots@ == a.blips.slots@.update(j, None::<Blip>),
        b.blip_state@ == a.blip_state@.update(i, BlipState { blip_index: None }),
    ensures
        b.occ_ok(),
{
    assert forall|j2: int|
        0 <= j2 < b.blips.slots@.len() && (#[trigger] b.blips.slots@[j2]) is Some implies {
        let bb = b.blips.slots@[j2]->Some_0;
        &&& b.machine.spec_valid_pos(bb.pos)
        &&& b.machine.index_at(bb.pos) is Some
        &&& b.machine.index_at(bb.pos)->Some_0 < b.blip_state@.len()
        &&& b.blip_state@[b.machine.index_at(bb.pos)->Some_0 as int].blip_index == Some(
            j2 as usize,
        )
    } by {
        assert(j2 != j);
        assert(a.blips.slots@[j2] is Some);
        let bb = a.blips.slots@[j2]->Some_0;
        let bi = a.machine.index_at(bb.pos)->Some_0 as int;
        if bi == i {
            assert(a.blip_state@[i].blip_index == Some(j2 as usize));
            assert(a.blip_state@[i].blip_index == Some(j as usize));
            assert(false);
        }
    }
    assert forall|i2: int|
        0 <= i2 < b.blip_state@.len() && (#[trigger] b.blip_state@[i2]).blip_index is Some implies {
        let j2 = b.blip_state@[i2].blip_index->Some_0;
        &&& i2 < b.machine.slots().len()
        &&& b.machine.slots()[i2] is Some
        &&& (j2 as int) < b.blips.slots@.len()
        &&& b.blips.slots@[j2 as int] is Some
        &&& (b.blips.slots@[j2 as int]->Some_0).pos == (b.machine.slots()[i2]->Some_0).0
    } by {
        assert(i2 != i);
        assert(a.blip_state@[i2].blip_index is Some);
        let j2 = a.blip_state@[i2].blip_index->Some_0;
        if j2 as int == j {
            let bb = a.blips.slots@[j];
            assert((a.blips.slots@[j]->Some_0).pos == (a.machine.slots()[i2]->Some_0).0);
            assert(a.machine.slots()[i2] is Some);
            assert(a.machine.grid_at((a.machine.slots()[i2]->Some_0).0) == Some(i2 as usize));
            assert(i2 == i);
            assert(false);
        }
    }
}

/// Advancing a blip into a free occupied cell keeps occupancy consistent.
proof fn lemma_occ_after_move(a: Exec, b: Exec, j: int, i: int, t: int, q: Point3)
    requires
        a.occ_ok(),
        a.machine.wf(),
        a.blips.slots@.len() <= usize::MAX,
        a.blip_state@.len() == a.machine.slots().len(),
        0 <= j < a.blips.slots@.len(),
        a.blips.slots@[j] is Some,
        0 <= i < a.blip_state@.len(),
        a.machine.index_at((a.blips.slots@[j]->Some_0).pos) == Some(i as usize),
        0 <= t < a.blip_state@.len(),
        a.machine.index_at(q) == Some(t as usize),
        a.blip_state@[t].blip_index is None,
        b.machine == a.machine,
        b.blips.slots@ == a.blips.slots@.update(
            j,
            Some(
                Blip {
                    kind: (a.blips.slots@[j]->Some_0).kind,
                    pos: q,
                    old_pos: Some((a.blips.slots@[j]->Some_0).pos),
                },
            ),
        ),
        b.blip_state@ == a.blip_state@.update(i, BlipState { blip_index: None }).update(
            t,
            BlipState { blip_index: Some(j as usize) },
        ),
    ensures
        b.occ_ok(),
{
    assert(t != i) by {
        if t == i {
            assert(a.blip_state@[i].blip_index == Some(j as usize));
        }
    }
    assert forall|j2: int|
        0 <= j2 < b.blips.slots@.len() && (#[trigger] b.blips.slots@[j2]) is Some implies {
        let bb = b.blips.slots@[j2]->Some_0;
        &&& b.machine.spec_valid_pos(bb.pos)
        &&& b.machine.index_at(bb.pos) is Some
        &&& b.machine.index_at(bb.pos)->Some_0 < b.blip_state@.len()
        &&& b.blip_state@[b.machine.index_at(bb.pos)->Some_0 as int].blip_index == Some(
            j2 as usize,
        )
    } by {
        if j2 == j {
            assert(b.machine.index_at(q) == Some(t as usize));
        } else {
            assert(a.blips.slots@[j2] is Some);
            let bb = a.blips.slots@[j2]->Some_0;
            let bi = a.machine.index_at(bb.pos)->Some_0 as int;
            if bi == i {
                assert(a.blip_state@[i].blip_index == Some(j2 as usize));
                assert(a.blip_state@[i].blip_index == Some(j as usize));
                assert(false);
            }
            if bi == t {
                assert(a.blip_state@[t].blip_index == Some(j2 as usize));
                assert(false);
            }
        }
    }
    assert forall|i2: int|
        0 <= i2 < b.blip_state@.len() && (#[trigger] b.blip_state@[i2]).blip_index is Some implies {
        let j2 = b.blip_state@[i2].blip_index->Some_0;
        &&& i2 < b.machine.slots().len()
        &&& b.machine.slots()[i2] is Some
        &&& (j2 as int) < b.blips.slots@.len()
        &&& b.blips.slots@[j2 as int] is Some
        &&& (b.blips.slots@[j2 as int]->Some_0).pos == (b.machine.slots()[i2]->Some_0).0
    } by {
        if i2 == t {
            assert(a.machine.spec_valid_pos(q));
            assert((a.machine.slots()[t]->Some_0).0 == q);
        } else {
            assert(i2 != i);
            assert(a.blip_state@[i2].blip_index is Some);
            let j2 = a.blip_state@[i2].blip_index->Some_0;
            if j2 as int == j {
                assert((a.blips.slots@[j]->Some_0).pos == (a.machine.slots()[i2]->Some_0).0);
                assert(a.machine.grid_at((a.machine.slots()[i2]->Some_0).0) == Some(i2 as usize));
                assert(i2 == i);
                assert(false);
            }
        }
    }
}

/// When the first `i` directions are unusable and direction `i` is usable,
/// the picker answers direction `i`.
proof fn lemma_pick_prefix(
    ctx: Machine,
    ts: TickState,
    b: Blip,
    pb: PlacedBlock,
    dirs: Seq<Dir3>,
    i: int,
)
    requires
        0 <= i < dirs.len(),
        forall|k: int| 0 <= k < i ==> !move_dir_ok(ctx, ts, b, pb, #[trigger] dirs[k]),
        move_dir_ok(ctx, ts, b, pb, dirs[i]),
    ensures
        pick_move_dir_from(ctx, ts, b, pb, dirs) == Some(dirs[i]),
    decreases i,
{
    if i > 0 {
        assert(!move_dir_ok(ctx, ts, b, pb, dirs[0]));
        let rest = dirs.drop_first();
        assert forall|k: int| 0 <= k < i - 1 implies !move_dir_ok(
            ctx,
            ts,
            b,
            pb,
            #[trigger] rest[k],
        ) by {
            assert(rest[k] == dirs[k + 1]);
        }
        assert(rest[i - 1] == dirs[i]);
        lemma_pick_prefix(ctx, ts, b, pb, rest, i - 1);
    }
}

/// A picked direction is usable.
proof fn lemma_pick_some_ok(ctx: Machine, ts: TickState, b: Blip, pb: PlacedBlock, dirs: Seq<Dir3>)
    ensures
        match pick_move_dir_from(ctx, ts, b, pb, dirs) {
            Some(d) => move_dir_ok(ctx, ts, b, pb, d),
            None => true,
        },
    decreases dirs.len(),
{
    if dirs.len() > 0 && !move_dir_ok(ctx, ts, b, pb, dirs[0]) {
        lemma_pick_some_ok(ctx, ts, b, pb, dirs.drop_first());
    }
}

/// When no direction is usable, the picker answers `None`.
proof fn lemma_pick_none(ctx: Machine, ts: TickState, b: Blip, pb: PlacedBlock, dirs: Seq<Dir3>)
    requires
        forall|k: int| 0 <= k < dirs.len() ==> !move_dir_ok(ctx, ts, b, pb, #[trigger] dirs[k]),
    ensures
        pick_move_dir_from(ctx, ts, b, pb, dirs) is None,
    decreases dirs.len(),
{
    if dirs.len() > 0 {
        let rest = dirs.drop_first();
        assert forall|k: int| 0 <= k < rest.len() implies !move_dir_ok(
            ctx,
            ts,
            b,
            pb,
            #[trigger] rest[k],
        ) by {
            assert(rest[k] == dirs[k + 1]);
        }
        lemma_pick_none(ctx, ts, b, pb, rest);
    }
}

/// The direction from `p` to an adjacent position, as executable code.
fn dir_to_exec(p: Point3, q: Point3) -> (r: Option<Dir3>)
    requires
        isize::MIN < p.x < isize::MAX,
        isize::MIN < p.y < isize::MAX,
        isize::MIN < p.z < isize::MAX,
    ensures
        r == dir_to(p, q),
{
    if q == p.add_dir(Dir3::XPos) {
        Some(Dir3::XPos)
    } else if q == p.add_dir(Dir3::XNeg) {
        Some(Dir3::XNeg)
    } else if q == p.add_dir(Dir3::YPos) {
        Some(Dir3::YPos)
    } else if q == p.add_dir(Dir3::YNeg) {
        Some(Dir3::YNeg)
    } else if q == p.add_dir(Dir3::ZPos) {
        Some(Dir3::ZPos)
    } else if q == p.add_dir(Dir3::ZNeg) {
        Some(Dir3::ZNeg)
    } else {
        None
    }
}

/// Replacing block payloads (same slots, same positions) cannot break the
/// blip-occupancy consistency.
proof fn lemma_occ_preserved(a: Exec, b: Exec)
    requires
        a.occ_ok(),
        b.blips == a.blips,
        b.blip_state@ == a.blip_state@,
        b.machine.blocks.indices == a.machine.blocks.indices,
        b.machine.slots().len() == a.machine.slots().len(),
        forall|k: int|
            0 <= k < a.machine.slots().len() ==> ((#[trigger] b.machine.slots()[k]) is Some
                <==> a.machine.slots()[k] is Some) && (a.machine.slots()[k] is Some ==> (
            b.machine.slots()[k]->Some_0).0 == (a.machine.slots()[k]->Some_0).0),
    ensures
        b.occ_ok(),
{
    assert forall|j: int|
        0 <= j < b.blips.slots@.len() && (#[trigger] b.blips.slots@[j]) is Some implies {
        let bb = b.blips.slots@[j]->Some_0;
        &&& b.machine.spec_valid_pos(bb.pos)
        &&& b.machine.index_at(bb.pos) is Some
        &&& b.machine.index_at(bb.pos)->Some_0 < b.blip_state@.len()
        &&& b.blip_state@[b.machine.index_at(bb.pos)->Some_0 as int].blip_index == Some(j as usize)
    } by {
        assert(a.blips.slots@[j] is Some);
        let bb = a.blips.slots@[j]->Some_0;
        assert(a.machine.spec_valid_pos(bb.pos));
        assert(b.machine.index_at(bb.pos) == a.machine.index_at(bb.pos));
    }
    assert forall|i: int|
        0 <= i < b.blip_state@.len() && (#[trigger] b.blip_state@[i]).blip_index is Some implies {
        let j = b.blip_state@[i].blip_index->Some_0;
        &&& i < b.machine.slots().len()
        &&& b.machine.slots()[i] is Some
        &&& (j as int) < b.blips.slots@.len()
        &&& b.blips.slots@[j as int] is Some
        &&& (b.blips.slots@[j as int]->Some_0).pos == (b.machine.slots()[i]->Some_0).0
    } by {
        assert(a.blip_state@[i].blip_index is Some);
    }
}

/// Spawning a blip on a free occupied cell keeps occupancy consistent.
proof fn lemma_occ_after_spawn(a: Exec, b: Exec, i: int, kind: BlipKind, q: Point3)
    requires
        a.occ_ok(),
        a.machine.wf(),
        a.blip_state@.len() == a.machine.slots().len(),
        a.blips.slots@.len() < usize::MAX,
        0 <= i < a.blip_state@.len(),
        a.machine.index_at(q) == Some(i as usize),
        a.blip_state@[i].blip_index is None,
        b.machine == a.machine,
        b.blips.slots@ == a.blips.slots@.push(Some(Blip { kind, pos: q, old_pos: None })),
        b.blip_state@ == a.blip_state@.update(
            i,
            BlipState { blip_index: Some(a.blips.slots@.len() as usize) },
        ),
    ensures
        b.occ_ok(),
{
    let jn = a.blips.slots@.len() as int;
    assert forall|j: int|
        0 <= j < b.blips.slots@.len() && (#[trigger] b.blips.slots@[j]) is Some implies {
        let bb = b.blips.slots@[j]->Some_0;
        &&& b.machine.spec_valid_pos(bb.pos)
        &&& b.machine.index_at(bb.pos) is Some
        &&& b.machine.index_at(bb.pos)->Some_0 < b.blip_state@.len()
        &&& b.blip_state@[b.machine.index_at(bb.pos)->Some_0 as int].blip_index == Some(j as usize)
    } by {
        if j < jn {
            assert(a.blips.slots@[j] is Some);
            let bb = a.blips.slots@[j]->Some_0;
            let bi = a.machine.index_at(bb.pos)->Some_0 as int;
            if bi == i {
                assert(a.blip_state@[i].blip_index == Some(j as usize));
                assert(false);
            }
        } else {
            assert(b.blips.slots@[j]->Some_0 == (Blip { kind, pos: q, old_pos: None }));
        }
    }
    assert forall|i2: int|
        0 <= i2 < b.blip_state@.len() && (#[trigger] b.blip_state@[i2]).blip_index is Some implies {
        let j = b.blip_state@[i2].blip_index->Some_0;
        &&& i2 < b.machine.slots().len()
        &&& b.machine.slots()[i2] is Some
        &&& (j as int) < b.blips.slots@.len()
        &&& b.blips.slots@[j as int] is Some
        &&& (b.blips.slots@[j as int]->Some_0).pos == (b.machine.slots()[i2]->Some_0).0
    } by {
        if i2 != i {
            assert(a.blip_state@[i2].blip_index is Some);
        } else {
            assert(a.machine.spec_valid_pos(q));
        }
    }
}

/// Element-wise copy of a wind-state vector.
fn copy_winds(v: &Vec<WindState>) -> (r: Vec<WindState>)
    ensures
        r@ == v@,
{
    let mut r: Vec<WindState> = Vec::new();
    let mut i: usize = 0;
    while i < v.len()
        invariant
            i <= v@.len(),
            r@ == v@.take(i as int),
        decreases v@.len() - i,
    {
        r.push(v[i]);
        proof {
            assert(r@ =~= v@.take(i + 1));
        }
        i = i + 1;
    }
    proof {
        assert(v@.take(v@.len() as int) =~= v@);
    }
    r
}

/// Pop the first item of a feed.
fn pop_front_feed(v: &Vec<Option<Input>>) -> (r: (Option<Input>, Vec<Option<Input>>))
    requires
        v@.len() > 0,
    ensures
        r.0 == v@[0],
        r.1@ == v@.drop_first(),
{
    let first = v[0];
    let mut rest: Vec<Option<Input>> = Vec::new();
    let mut i: usize = 1;
    while i < v.len()
        invariant
            1 <= i <= v@.len(),
            rest@ == v@.subrange(1, i as int),
        decreases v@.len() - i,
    {
        rest.push(v[i]);
        proof {
            assert(rest@ =~= v@.subrange(1, i + 1));
        }
        i = i + 1;
    }
    proof {
        assert(v@.subrange(1, v@.len() as int) =~= v@.drop_first());
    }
    (first, rest)
}

} // verus!

