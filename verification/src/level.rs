//! Objective metadata supplied by the surrounding game: grid size and the
//! expected token traffic at the machine's boundary blocks.

use vstd::prelude::*;

verus! {

use crate::grid::Vector3;
use crate::machine::BlipKind;

/// One item of an input feed: the token the corresponding `Input` block
/// introduces on a tick.
#[derive(Clone, Copy, PartialEq, Eq, Debug, Structural)]
pub enum Input {
    Blip(BlipKind),
}

/// Per-input and per-output expected token sequences. An input sequence may
/// hold `None` entries for ticks on which nothing is fed in.
#[derive(Clone, PartialEq, Eq, Debug)]
pub struct LevelSpec {
    pub inputs: Vec<Vec<Option<Input>>>,
    pub outputs: Vec<Vec<BlipKind>>,
}

impl LevelSpec {
    /// How many `Input` blocks the machine boundary carries.
    pub fn input_dim(&self) -> (r: usize)
        ensures
            r == self.inputs@.len(),
    {
        self.inputs.len()
    }

    /// How many `Output` blocks the machine boundary carries.
    pub fn output_dim(&self) -> (r: usize)
        ensures
            r == self.outputs@.len(),
    {
        self.outputs.len()
    }
}

/// Grid size plus boundary specification.
#[derive(Clone, PartialEq, Eq, Debug)]
pub struct Level {
    pub size: Vector3,
    pub goal: LevelSpec,
}

/// Deep equivalence of two level values, element for element.
pub open spec fn level_eqv(a: Level, b: Level) -> bool {
    &&& a.size == b.size
    &&& a.goal.inputs@.len() == b.goal.inputs@.len()
    &&& forall|k: int|
        0 <= k < a.goal.inputs@.len() ==> (#[trigger] a.goal.inputs@[k])@ == b.goal.inputs@[k]@
    &&& a.goal.outputs@.len() == b.goal.outputs@.len()
    &&& forall|k: int|
        0 <= k < a.goal.outputs@.len() ==> (#[trigger] a.goal.outputs@[k])@ == b.goal.outputs@[k]@
}

pub open spec fn opt_level_eqv(a: Option<Level>, b: Option<Level>) -> bool {
    match (a, b) {
        (Some(x), Some(y)) => level_eqv(x, y),
        (None, None) => true,
        _ => false,
    }
}

/// Element-wise copy of one input feed.
pub fn copy_input_feed(v: &Vec<Option<Input>>) -> (r: Vec<Option<Input>>)
    ensures
        r@ == v@,
{
    let mut r: Vec<Option<Input>> = Vec::new();
    let mut i: usize = 0;
    while i < v.len()
        invariant
            i <= v@.len(),
            r@ == v@.take(i as int),
        decreases v@.len() - i,
    {
        r.push(v[i]);
        proof {
            assert(r@ =~= v@.take(i + 1));
        }
        i = i + 1;
    }
    proof {
        assert(v@.take(v@.len() as int) =~= v@);
    }
    r
}

impl Level {
    /// Element-wise copy; the result is deeply equivalent to `self`.
    pub fn duplicate(&self) -> (r: Level)
        ensures
            level_eqv(r, *self),
    {
        let mut inputs: Vec<Vec<Option<Input>>> = Vec::new();
        let mut i: usize = 0;
        while i < self.goal.inputs.len()
            invariant
                i <= self.goal.inputs@.len(),
                inputs@.len() == i,
                forall|k: int|
                    0 <= k < i ==> (#[trigger] inputs@[k])@ == self.goal.inputs@[k]@,
            decreases self.goal.inputs@.len() - i,
        {
            inputs.push(copy_input_feed(&self.goal.inputs[i]));
            i = i + 1;
        }
        let mut outputs: Vec<Vec<BlipKind>> = Vec::new();
        let mut j: usize = 0;
        while j < self.goal.outputs.len()
            invariant
                j <= self.goal.outputs@.len(),
                outputs@.len() == j,
                forall|k: int|
                    0 <= k < j ==> (#[trigger] outputs@[k])@ == self.goal.outputs@[k]@,
            decreases self.goal.outputs@.len() - j,
        {
            let mut row: Vec<BlipKind> = Vec::new();
            let src = &self.goal.outputs[j];
            let mut t: usize = 0;
            while t < src.len()
                invariant
                    t <= src@.len(),
                    row@ == src@.take(t as int),
                decreases src@.len() - t,
            {
                row.push(src[t]);
                proof {
                    assert(row@ =~= src@.take(t + 1));
                }
                t = t + 1;
            }
            proof {
                assert(src@.take(src@.len() as int) =~= src@);
            }
            outputs.push(row);
            j = j + 1;
        }
        Level { size: self.size, goal: LevelSpec { inputs, outputs } }
    }
}

} // verus!
