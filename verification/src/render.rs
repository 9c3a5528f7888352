//! Flattening a tree into line primitives, parent before child, and the
//! grey level each generation is drawn in.

use vstd::prelude::*;
use crate::shape::Shape;
use crate::shape::size_of;

verus! {

/// A grey level as an exact fraction of full intensity.
#[derive(Clone, Copy, Debug, PartialEq, Eq)]
pub struct Shade {
    pub numerator: u128,
    pub denominator: u128,
}

/// One line primitive. Its heading and length follow from `generation`,
/// `slot` and the primitive at index `parent`, whose end point is this one's
/// start; the root has no parent.
#[derive(Clone, Copy, Debug, PartialEq, Eq)]
pub struct Stroke {
    pub parent: Option<usize>,
    pub generation: usize,
    pub slot: usize,
    pub shade: Shade,
}

/// A line primitive as a mathematical value.
pub struct Line {
    pub parent: Option<nat>,
    pub generation: nat,
    pub slot: nat,
    pub shade_numerator: nat,
    pub shade_denominator: nat,
}

impl View for Stroke {
    type V = Line;

    open spec fn view(&self) -> Line {
        Line {
            parent: match self.parent {
                Some(p) => Some(p as nat),
                None => None,
            },
            generation: self.generation as nat,
            slot: self.slot as nat,
            shade_numerator: self.shade.numerator as nat,
            shade_denominator: self.shade.denominator as nat,
        }
    }
}

/// The views of a sequence of strokes, in order.
pub open spec fn views(s: Seq<Stroke>) -> Seq<Line> {
    s.map_values(|stroke: Stroke| stroke@)
}

/// Numerator of the grey level `(1/2 + generation / max_generation) / (3/2)`
/// once it is written over the denominator `3 * max_generation`.
pub open spec fn shade_numerator(generation: nat, max_generation: nat) -> nat {
    max_generation + 2 * generation
}

/// Denominator that goes with `shade_numerator`.
pub open spec fn shade_denominator(max_generation: nat) -> nat {
    3 * max_generation
}

/// The primitive for the top segment of `shape`.
pub open spec fn line_of(shape: Shape, parent: Option<nat>, max_generation: nat) -> Line {
    Line {
        parent,
        generation: shape.generation,
        slot: shape.slot,
        shade_numerator: shade_numerator(shape.generation, max_generation),
        shade_denominator: shade_denominator(max_generation),
    }
}

/// The primitives of a whole tree in pre-order, given that the first of them
/// will stand at index `at` of the list they are part of.
pub open spec fn lines(shape: Shape, parent: Option<nat>, at: nat, max_generation: nat) -> Seq<Line>
    decreases shape,
{
    seq![line_of(shape, parent, max_generation)] + lines_of(
        shape.children,
        at,
        at + 1,
        max_generation,
    )
}

/// The primitives of sibling trees, one tree after the other, all with the
/// same parent index, the first of them standing at index `at`.
pub open spec fn lines_of(s: Seq<Shape>, parent: nat, at: nat, max_generation: nat) -> Seq<Line>
    decreases s,
{
    if s.len() == 0 {
        Seq::empty()
    } else {
        lines_of(s.drop_last(), parent, at, max_generation) + lines(
            s.last(),
            Some(parent),
            at + size_of(s.drop_last()),
            max_generation,
        )
    }
}

/// A tree yields one primitive per segment.
pub proof fn lemma_lines_len(shape: Shape, parent: Option<nat>, at: nat, max_generation: nat)
    ensures
        lines(shape, parent, at, max_generation).len() == shape.size(),
    decreases shape,
{
    lemma_lines_of_len(shape.children, at, at + 1, max_generation);
}

/// Sibling trees yield one primitive per segment.
pub proof fn lemma_lines_of_len(s: Seq<Shape>, parent: nat, at: nat, max_generation: nat)
    ensures
        lines_of(s, parent, at, max_generation).len() == size_of(s),
    decreases s,
{
    if s.len() > 0 {
        lemma_lines_of_len(s.drop_last(), parent, at, max_generation);
        lemma_lines_len(s.last(), Some(parent), at + size_of(s.drop_last()), max_generation);
    }
}

/// Heading of the child in position `slot` of a fan of `branch_count`,
/// relative to its parent's heading and counted in units of
/// `spread / (branch_count - 1)`: the fan runs from `-spread` to `+spread`
/// in steps of `2 * spread / (branch_count - 1)`.
pub open spec fn turn_of(slot: nat, branch_count: nat) -> int {
    2 * slot - (branch_count - 1)
}

/// The heading of a child relative to its parent, as `turn_of` counts it.
pub fn turn(slot: usize, branch_count: usize) -> (steps: i128)
    ensures
        steps == turn_of(slot as nat, branch_count as nat),
{
    let s: i128 = slot as i128;
    let n: i128 = branch_count as i128;
    2 * s - (n - 1)
}

/// The grey level of a generation: `(1/2 + generation / max_generation) / (3/2)`,
/// which is `(max_generation + 2 * generation) / (3 * max_generation)`.
pub fn shade(generation: usize, max_generation: usize) -> (level: Shade)
    requires
        max_generation >= 1,
    ensures
        level.numerator == shade_numerator(generation as nat, max_generation as nat),
        level.denominator == shade_denominator(max_generation as nat),
        level.denominator > 0,
{
    let g: u128 = generation as u128;
    let m: u128 = max_generation as u128;
    Shade { numerator: m + 2 * g, denominator: 3 * m }
}

} // verus!
