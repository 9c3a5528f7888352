//! The mathematical model of a tree: a generation label, the position among
//! its siblings, and the ordered children.

use vstd::prelude::*;
use vstd::arithmetic::power::pow;
use vstd::arithmetic::power::lemma_pow0;
use vstd::arithmetic::power::lemma_pow1;

verus! {

/// One segment together with everything that grows out of it.
pub struct Shape {
    /// Depth below the root; the root has generation 0.
    pub generation: nat,
    /// Index among the siblings, in increasing-angle order.
    pub slot: nat,
    /// The segments that start where this one ends.
    pub children: Seq<Shape>,
}

impl Shape {
    /// A segment nothing grows out of yet.
    pub open spec fn is_leaf(self) -> bool {
        self.children.len() == 0
    }

    /// Number of leaves at or below this segment.
    pub open spec fn leaves(self) -> nat
        decreases self,
    {
        if self.is_leaf() {
            1
        } else {
            leaves_of(self.children)
        }
    }

    /// Number of segments at or below this one, itself included.
    pub open spec fn size(self) -> nat
        decreases self,
    {
        1 + size_of(self.children)
    }

    /// Number of segments strictly below this one.
    pub open spec fn segments(self) -> nat {
        size_of(self.children)
    }

    /// The largest generation label at or below this segment.
    pub open spec fn deepest(self) -> nat
        decreases self,
    {
        if self.generation >= deepest_of(self.children) {
            self.generation
        } else {
            deepest_of(self.children)
        }
    }

    /// Branching is all or nothing: every segment at or below this one has
    /// no children or exactly `n`, and a child in position `i` carries slot
    /// `i` and the generation after its parent's.
    pub open spec fn regular(self, n: nat) -> bool
        decreases self,
    {
        &&& (self.children.len() == 0 || self.children.len() == n)
        &&& forall|i: int|
            0 <= i < self.children.len() ==> {
                &&& (#[trigger] self.children[i]).generation == self.generation + 1
                &&& self.children[i].slot == i
                &&& self.children[i].regular(n)
            }
    }

    /// Every leaf at or below this segment has generation `generation`.
    pub open spec fn leaves_at(self, generation: nat) -> bool
        decreases self,
    {
        if self.is_leaf() {
            self.generation == generation
        } else {
            forall|i: int|
                0 <= i < self.children.len() ==> (#[trigger] self.children[i]).leaves_at(
                    generation,
                )
        }
    }

    /// The result of `steps` growth steps in a row.
    pub open spec fn grow_times(self, n: nat, steps: nat) -> Shape
        decreases steps,
    {
        if steps == 0 {
            self
        } else {
            self.grow_times(n, (steps - 1) as nat).grow(n)
        }
    }

    /// The result of one growth step: every leaf gets `n` children, numbered
    /// in order, one generation further down; all other segments are kept.
    pub open spec fn grow(self, n: nat) -> Shape
        decreases self,
    {
        Shape {
            generation: self.generation,
            slot: self.slot,
            children: if self.is_leaf() {
                fan(self.generation + 1, n)
            } else {
                grow_each(self.children, n)
            },
        }
    }
}

/// `n` fresh leaves of generation `generation`, numbered `0..n`.
pub open spec fn fan(generation: nat, n: nat) -> Seq<Shape> {
    Seq::new(n, |i: int| Shape { generation, slot: i as nat, children: Seq::empty() })
}

/// Total of `leaves` over a sequence of trees.
pub open spec fn leaves_of(s: Seq<Shape>) -> nat
    decreases s,
{
    if s.len() == 0 {
        0
    } else {
        leaves_of(s.drop_last()) + s.last().leaves()
    }
}

/// Total of `size` over a sequence of trees.
pub open spec fn size_of(s: Seq<Shape>) -> nat
    decreases s,
{
    if s.len() == 0 {
        0
    } else {
        size_of(s.drop_last()) + s.last().size()
    }
}

/// The largest generation label in a sequence of trees, 0 if it is empty.
pub open spec fn deepest_of(s: Seq<Shape>) -> nat
    decreases s,
{
    if s.len() == 0 {
        0
    } else if deepest_of(s.drop_last()) >= s.last().deepest() {
        deepest_of(s.drop_last())
    } else {
        s.last().deepest()
    }
}

/// The growth step applied to each tree of a sequence.
pub open spec fn grow_each(s: Seq<Shape>, n: nat) -> Seq<Shape>
    decreases s,
{
    if s.len() == 0 {
        Seq::empty()
    } else {
        grow_each(s.drop_last(), n).push(s.last().grow(n))
    }
}

/// The complete tree: `depth` levels below a segment of the given generation
/// and slot, every segment above the last level with exactly `n` children.
pub open spec fn full_tree(n: nat, depth: nat, generation: nat, slot: nat) -> Shape
    decreases depth,
{
    Shape {
        generation,
        slot,
        children: if depth == 0 {
            Seq::empty()
        } else {
            Seq::new(
                n,
                |i: int| full_tree(n, (depth - 1) as nat, generation + 1, i as nat),
            )
        },
    }
}

/// Growing a sequence of trees keeps their number and grows each in place.
pub proof fn lemma_grow_each(s: Seq<Shape>, n: nat)
    ensures
        grow_each(s, n).len() == s.len(),
        forall|i: int| 0 <= i < s.len() ==> #[trigger] grow_each(s, n)[i] == s[i].grow(n),
    decreases s.len(),
{
    if s.len() > 0 {
        lemma_grow_each(s.drop_last(), n);
    }
}

/// One growth step turns the complete tree of some depth into the complete
/// tree one level deeper.
pub proof fn lemma_grow_full(n: nat, depth: nat, generation: nat, slot: nat)
    ensures
        full_tree(n, depth, generation, slot).grow(n) == full_tree(
            n,
            depth + 1,
            generation,
            slot,
        ),
    decreases depth,
{
    let before = full_tree(n, depth, generation, slot);
    let after = full_tree(n, depth + 1, generation, slot);
    assert(after.children.len() == n);
    if depth > 0 && n > 0 {
        lemma_grow_each(before.children, n);
        assert forall|i: int| 0 <= i < n implies before.grow(n).children[i]
            == after.children[i] by {
            lemma_grow_full(n, (depth - 1) as nat, generation + 1, i as nat);
        }
    } else {
        assert(before.is_leaf());
        assert forall|i: int| 0 <= i < n implies before.grow(n).children[i]
            == after.children[i] by {
            assert(full_tree(n, 0, generation + 1, i as nat).children =~= Seq::<Shape>::empty());
        }
    }
    assert(before.grow(n).children =~= after.children);
}

/// Trees with the same number of leaves each: the total is the product.
pub proof fn lemma_leaves_of_uniform(s: Seq<Shape>, each: nat)
    requires
        forall|i: int| 0 <= i < s.len() ==> (#[trigger] s[i]).leaves() == each,
    ensures
        leaves_of(s) == s.len() * each,
    decreases s.len(),
{
    if s.len() > 0 {
        lemma_leaves_of_uniform(s.drop_last(), each);
        assert(s.len() * each == (s.len() - 1) * each + each) by (nonlinear_arith);
    }
}

/// Trees of the same size each: the total is the product.
pub proof fn lemma_size_of_uniform(s: Seq<Shape>, each: nat)
    requires
        forall|i: int| 0 <= i < s.len() ==> (#[trigger] s[i]).size() == each,
    ensures
        size_of(s) == s.len() * each,
    decreases s.len(),
{
    if s.len() > 0 {
        lemma_size_of_uniform(s.drop_last(), each);
        assert(s.len() * each == (s.len() - 1) * each + each) by (nonlinear_arith);
    }
}

/// No label in a sequence of trees exceeds a bound that holds of each tree.
pub proof fn lemma_deepest_of_bound(s: Seq<Shape>, bound: nat)
    requires
        forall|i: int| 0 <= i < s.len() ==> (#[trigger] s[i]).deepest() <= bound,
    ensures
        deepest_of(s) <= bound,
    decreases s.len(),
{
    if s.len() > 0 {
        lemma_deepest_of_bound(s.drop_last(), bound);
    }
}

/// Every tree of a sequence carries labels no larger than the sequence's largest.
pub proof fn lemma_deepest_of_covers(s: Seq<Shape>, i: int)
    requires
        0 <= i < s.len(),
    ensures
        s[i].deepest() <= deepest_of(s),
    decreases s.len(),
{
    if i < s.len() - 1 {
        lemma_deepest_of_covers(s.drop_last(), i);
    }
}

/// The labels of a complete tree run from its root's generation to that plus
/// its depth, and no further.
pub proof fn lemma_full_deepest(n: nat, depth: nat, generation: nat, slot: nat)
    ensures
        full_tree(n, depth, generation, slot).deepest() <= generation + depth,
    decreases depth,
{
    let t = full_tree(n, depth, generation, slot);
    if depth > 0 {
        assert forall|i: int| 0 <= i < t.children.len() implies (#[trigger] t.children[i]).deepest()
            <= generation + depth by {
            lemma_full_deepest(n, (depth - 1) as nat, generation + 1, i as nat);
        }
        lemma_deepest_of_bound(t.children, generation + depth);
    } else {
        assert(deepest_of(t.children) == 0);
    }
}

/// A complete tree with fan-out `n >= 1` and `depth` levels has `n^depth`
/// leaves, and its segment count is the geometric series
/// `1 + n + ... + n^depth`, stated here without division.
pub proof fn lemma_full_counts(n: nat, depth: nat, generation: nat, slot: nat)
    requires
        n >= 1,
    ensures
        full_tree(n, depth, generation, slot).leaves() == pow(n as int, depth),
        full_tree(n, depth, generation, slot).size() * (n - 1) == pow(n as int, depth + 1) - 1,
    decreases depth,
{
    let t = full_tree(n, depth, generation, slot);
    reveal(pow);
    if depth == 0 {
        lemma_pow0(n as int);
        lemma_pow1(n as int);
        assert(size_of(t.children) == 0);
    } else {
        let below = (depth - 1) as nat;
        let each_leaves = pow(n as int, below);
        let each_size = full_tree(n, below, generation + 1, 0).size();
        lemma_full_counts(n, below, generation + 1, 0);
        assert forall|i: int| 0 <= i < t.children.len() implies (#[trigger] t.children[i]).leaves()
            == each_leaves && t.children[i].size() == each_size by {
            lemma_full_counts(n, below, generation + 1, i as nat);
            let a = t.children[i].size();
            assert(a * (n - 1) == each_size * (n - 1));
            if n > 1 {
                assert(a == each_size) by (nonlinear_arith)
                    requires
                        a * (n - 1) == each_size * (n - 1),
                        n > 1,
                ;
            } else {
                lemma_size_single(below, generation + 1, i as nat);
                lemma_size_single(below, generation + 1, 0);
            }
        }
        assert(each_leaves >= 0);
        lemma_leaves_of_uniform(t.children, each_leaves as nat);
        lemma_size_of_uniform(t.children, each_size);
        assert(pow(n as int, depth) == n * pow(n as int, below));
        assert(pow(n as int, depth + 1) == n * pow(n as int, depth));
        assert((1 + n * each_size) * (n - 1) == n * (pow(n as int, depth)) - 1)
            by (nonlinear_arith)
            requires
                each_size * (n - 1) == pow(n as int, depth) - 1,
        ;
    }
}

/// With fan-out 1 a complete tree is a chain: one segment per level.
pub proof fn lemma_size_single(depth: nat, generation: nat, slot: nat)
    ensures
        full_tree(1, depth, generation, slot).size() == depth + 1,
    decreases depth,
{
    let t = full_tree(1, depth, generation, slot);
    if depth == 0 {
        assert(size_of(t.children) == 0);
    } else {
        lemma_size_single((depth - 1) as nat, generation + 1, 0);
        assert(t.children.drop_last().len() == 0);
        assert(size_of(t.children.drop_last()) == 0);
        assert(t.children.last() == full_tree(1, (depth - 1) as nat, generation + 1, 0));
    }
}

} // verus!
