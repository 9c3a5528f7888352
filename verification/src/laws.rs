//! What holds of every tree that growth produces.

use vstd::prelude::*;
use vstd::arithmetic::power::pow;
use vstd::arithmetic::div_mod::lemma_div_by_multiple;
use crate::render::lines;
use crate::render::shade_denominator;
use crate::render::shade_numerator;
use crate::render::turn_of;
use crate::shape::Shape;
use crate::shape::full_tree;
use crate::shape::lemma_full_counts;
use crate::shape::lemma_grow_each;
use crate::shape::lemma_grow_full;
use crate::tree::Tree;

verus! {

/// A tree grown `iterations` times with `branch_count >= 2` branches per leaf
/// has `branch_count^iterations` leaves and
/// `(branch_count^(iterations + 1) - branch_count) / (branch_count - 1)`
/// segments besides the root.
pub proof fn law_counts(branch_count: nat, iterations: nat)
    requires
        branch_count >= 2,
    ensures
        full_tree(branch_count, iterations, 0, 0).leaves() == pow(branch_count as int, iterations),
        full_tree(branch_count, iterations, 0, 0).segments() == (pow(
            branch_count as int,
            iterations + 1,
        ) - branch_count) / (branch_count - 1),
{
    let t = full_tree(branch_count, iterations, 0, 0);
    lemma_full_counts(branch_count, iterations, 0, 0);
    let below = t.segments() as int;
    let step = branch_count - 1;
    assert(t.size() == 1 + below);
    assert(below * step == pow(branch_count as int, iterations + 1) - branch_count)
        by (nonlinear_arith)
        requires
            (1 + below) * step == pow(branch_count as int, iterations + 1) - 1,
            step == branch_count - 1,
    ;
    lemma_div_by_multiple(below, step);
}

/// Two trees grown from the same iteration count and branch count are the
/// same tree, and are drawn as the same primitives.
pub proof fn law_deterministic(
    first: Tree,
    second: Tree,
    iterations: nat,
    branch_count: nat,
    max_generation: nat,
)
    requires
        first@ == full_tree(branch_count, iterations, 0, 0),
        second@ == full_tree(branch_count, iterations, 0, 0),
    ensures
        first@ == second@,
        lines(first@, None, 0, max_generation) == lines(second@, None, 0, max_generation),
{
}

/// In a fan of `n >= 2` branches the first child turns by `-(n - 1)` units
/// and the last by `+(n - 1)`, which is the full spread either way, and
/// neighbours are two units, one angular step, apart.
pub proof fn law_fan_spacing(n: nat, slot: nat)
    requires
        n >= 2,
        slot + 1 < n,
    ensures
        turn_of(0, n) == -(n - 1),
        turn_of((n - 1) as nat, n) == n - 1,
        turn_of(slot + 1, n) - turn_of(slot, n) == 2,
        -(n - 1) <= turn_of(slot, n) < n - 1,
{
}

/// Every grown tree is regular: each segment has no children or exactly
/// `n`, a child in position `i` has slot `i`, and each child is one
/// generation, hence one length factor, beyond its parent.
pub proof fn law_full_regular(n: nat, depth: nat, generation: nat, slot: nat)
    ensures
        full_tree(n, depth, generation, slot).regular(n),
    decreases depth,
{
    let t = full_tree(n, depth, generation, slot);
    if depth > 0 {
        assert(t.children.len() == n);
        assert forall|i: int| 0 <= i < t.children.len() implies {
            &&& (#[trigger] t.children[i]).generation == t.generation + 1
            &&& t.children[i].slot == i
            &&& t.children[i].regular(n)
        } by {
            law_full_regular(n, (depth - 1) as nat, generation + 1, i as nat);
            assert(t.children[i] == full_tree(n, (depth - 1) as nat, generation + 1, i as nat));
        }
    } else {
        assert(t.children.len() == 0);
    }
}

/// A growth step keeps a regular tree regular, so the spacing of slots and
/// the step of one generation per level hold at every level, however often
/// the tree is grown.
pub proof fn law_grow_regular(shape: Shape, n: nat)
    requires
        shape.regular(n),
    ensures
        shape.grow(n).regular(n),
        shape.grow(n).generation == shape.generation,
        shape.grow(n).slot == shape.slot,
    decreases shape,
{
    let grown = shape.grow(n);
    if !shape.is_leaf() {
        lemma_grow_each(shape.children, n);
        assert forall|i: int| 0 <= i < grown.children.len() implies {
            &&& (#[trigger] grown.children[i]).generation == grown.generation + 1
            &&& grown.children[i].slot == i
            &&& grown.children[i].regular(n)
        } by {
            law_grow_regular(shape.children[i], n);
        }
    } else {
        assert forall|i: int| 0 <= i < grown.children.len() implies (
        #[trigger] grown.children[i]).regular(n) by {
            assert(grown.children[i].children.len() == 0);
        }
    }
}

/// Growing a lone segment `steps` times, `n >= 1` branches per leaf, gives
/// the complete tree of that depth: every path from the root to a leaf has
/// exactly `steps` branchings.
pub proof fn law_growth_steps(n: nat, steps: nat, generation: nat, slot: nat)
    requires
        n >= 1,
    ensures
        (Shape { generation, slot, children: Seq::empty() }).grow_times(n, steps) == full_tree(
            n,
            steps,
            generation,
            slot,
        ),
        full_tree(n, steps, generation, slot).leaves_at(generation + steps),
    decreases steps,
{
    let seed = Shape { generation, slot, children: Seq::empty() };
    let whole = full_tree(n, steps, generation, slot);
    if steps > 0 {
        law_growth_steps(n, (steps - 1) as nat, generation, slot);
        lemma_grow_full(n, (steps - 1) as nat, generation, slot);
        assert(whole.children.len() == n);
        assert forall|i: int| 0 <= i < whole.children.len() implies (#[trigger] whole.children[i]).leaves_at(
            generation + steps,
        ) by {
            law_growth_steps(n, (steps - 1) as nat, generation + 1, i as nat);
        }
    } else {
        assert(whole.children =~= seed.children);
    }
}

/// The root is drawn at a third of full intensity, the deepest generation at
/// full intensity, and every generation in between within that range.
pub proof fn law_shade_range(generation: nat, max_generation: nat)
    requires
        max_generation >= 1,
        generation <= max_generation,
    ensures
        3 * shade_numerator(0, max_generation) == shade_denominator(max_generation),
        shade_numerator(max_generation, max_generation) == shade_denominator(max_generation),
        shade_denominator(max_generation) <= 3 * shade_numerator(generation, max_generation),
        shade_numerator(generation, max_generation) <= shade_denominator(max_generation),
{
}

} // verus!
