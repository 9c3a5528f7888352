//! The tree as it is held in memory, and the growth step on it.

use vstd::prelude::*;
use crate::laws::law_full_regular;
use crate::render::Stroke;
use crate::render::lemma_lines_len;
use crate::render::lemma_lines_of_len;
use crate::render::line_of;
use crate::render::lines;
use crate::render::lines_of;
use crate::render::shade;
use crate::render::views;
use crate::shape::Shape;
use crate::shape::fan;
use crate::shape::full_tree;
use crate::shape::grow_each;
use crate::shape::lemma_deepest_of_covers;
use crate::shape::lemma_full_counts;
use crate::shape::lemma_full_deepest;
use crate::shape::lemma_grow_each;
use crate::shape::lemma_grow_full;
use vstd::arithmetic::power::pow;

verus! {

/// A segment of the tree and, owned by it, the segments that branch off its end.
pub struct Tree {
    sub_trees: Vec<Tree>,
    generation: usize,
    slot: usize,
}

/// The shapes of a sequence of trees, in order.
pub closed spec fn shapes(s: Seq<Tree>) -> Seq<Shape>
    decreases s,
{
    if s.len() == 0 {
        Seq::empty()
    } else {
        shapes(s.drop_last()).push(s.last().shape())
    }
}

/// `shapes` keeps the length and maps each tree to its own shape.
pub proof fn lemma_shapes(s: Seq<Tree>)
    ensures
        shapes(s).len() == s.len(),
        forall|i: int| 0 <= i < s.len() ==> #[trigger] shapes(s)[i] == s[i].shape(),
    decreases s.len(),
{
    if s.len() > 0 {
        lemma_shapes(s.drop_last());
    }
}

impl View for Tree {
    type V = Shape;

    open spec fn view(&self) -> Shape {
        self.shape()
    }
}

impl Tree {
    /// What this tree is, as a mathematical value.
    pub closed spec fn shape(self) -> Shape
        decreases self,
    {
        Shape {
            generation: self.generation as nat,
            slot: self.slot as nat,
            children: shapes(self.sub_trees@),
        }
    }

    /// A single segment without children.
    pub fn new(generation: usize, slot: usize) -> (tree: Tree)
        ensures
            tree@ == (Shape { generation: generation as nat, slot: slot as nat, children: Seq::empty() }),
    {
        Tree { sub_trees: Vec::new(), generation, slot }
    }

    /// Whether anything branches off this segment.
    pub fn has_sub_trees(&self) -> (yes: bool)
        ensures
            yes == !self@.is_leaf(),
    {
        proof {
            lemma_shapes(self.sub_trees@);
        }
        self.sub_trees.len() != 0
    }

    /// Depth of this segment below the root.
    pub fn generation(&self) -> (generation: usize)
        ensures
            generation == self@.generation,
    {
        self.generation
    }

    /// Position of this segment among its siblings.
    pub fn slot(&self) -> (slot: usize)
        ensures
            slot == self@.slot,
    {
        self.slot
    }

    /// Number of segments that branch off this one.
    pub fn child_count(&self) -> (count: usize)
        ensures
            count == self@.children.len(),
    {
        proof {
            lemma_shapes(self.sub_trees@);
        }
        self.sub_trees.len()
    }

    /// The segment in position `index` of this one's fan.
    pub fn child(&self, index: usize) -> (child: &Tree)
        requires
            index < self@.children.len(),
        ensures
            child@ == self@.children[index as int],
    {
        proof {
            lemma_shapes(self.sub_trees@);
        }
        &self.sub_trees[index]
    }

    /// One growth step: every leaf at or below this segment gets `n`
    /// children in slot order, one generation further down. Segments that
    /// already have children keep them and pass the step on.
    pub fn generate_new_sub_trees(&mut self, n: usize)
        requires
            old(self)@.deepest() < usize::MAX,
        ensures
            final(self)@ == old(self)@.grow(n as nat),
        decreases *old(self),
    {
        let ghost before = *self;
        proof {
            lemma_shapes(before.sub_trees@);
        }
        if self.has_sub_trees() {
            let count = self.sub_trees.len();
            let mut i: usize = 0;
            while i < count
                invariant
                    i <= count,
                    before == *old(self),
                    count == before.sub_trees@.len(),
                    self.sub_trees@.len() == count,
                    self.generation == before.generation,
                    self.slot == before.slot,
                    before@.deepest() < usize::MAX,
                    forall|j: int| 0 <= j < i ==> (#[trigger] self.sub_trees@[j])@ == before.sub_trees@[j]@.grow(n as nat),
                    forall|j: int| i <= j < count ==> #[trigger] self.sub_trees@[j] == before.sub_trees@[j],
                decreases count - i,
            {
                proof {
                    lemma_shapes(before.sub_trees@);
                    lemma_deepest_of_covers(shapes(before.sub_trees@), i as int);
                }
                self.sub_trees[i].generate_new_sub_trees(n);
                i += 1;
            }
            proof {
                lemma_shapes(self.sub_trees@);
                lemma_grow_each(shapes(before.sub_trees@), n as nat);
                assert(shapes(self.sub_trees@) =~= grow_each(shapes(before.sub_trees@), n as nat));
            }
        } else {
            let mut i: usize = 0;
            while i < n
                invariant
                    i <= n,
                    self.generation == before.generation,
                    self.slot == before.slot,
                    self.generation < usize::MAX,
                    shapes(self.sub_trees@) == fan((self.generation + 1) as nat, i as nat),
                decreases n - i,
            {
                let ghost held = self.sub_trees@;
                let branch = Tree::new(self.generation + 1, i);
                self.sub_trees.push(branch);
                proof {
                    assert(self.sub_trees@.drop_last() =~= held);
                    assert(shapes(self.sub_trees@) =~= fan(
                        (self.generation + 1) as nat,
                        (i + 1) as nat,
                    ));
                }
                i += 1;
            }
        }
    }

    /// The line primitives of this tree in pre-order: one per segment, each
    /// after its parent and naming the parent's index, shaded by generation.
    pub fn draw(&self, max_generation: usize) -> (strokes: Vec<Stroke>)
        requires
            max_generation >= 1,
        ensures
            views(strokes@) == lines(self@, None, 0, max_generation as nat),
            strokes@.len() == self@.size(),
    {
        let mut strokes: Vec<Stroke> = Vec::new();
        self.draw_into(&mut strokes, None, max_generation);
        proof {
            lemma_lines_len(self@, None, 0, max_generation as nat);
            assert(views(strokes@).len() == strokes@.len());
            assert(views(Seq::<Stroke>::empty()) =~= Seq::empty());
            assert(Seq::<crate::render::Line>::empty() + lines(self@, None, 0, max_generation as nat)
                =~= lines(self@, None, 0, max_generation as nat));
        }
        strokes
    }

    /// Appends this tree's primitives to `strokes`; `parent` is the index in
    /// `strokes` of the segment this one branches off.
    fn draw_into(&self, strokes: &mut Vec<Stroke>, parent: Option<usize>, max_generation: usize)
        requires
            max_generation >= 1,
        ensures
            views(final(strokes)@) == views(old(strokes)@) + lines(
                self@,
                match parent {
                    Some(p) => Some(p as nat),
                    None => None,
                },
                old(strokes)@.len(),
                max_generation as nat,
            ),
        decreases self,
    {
        let ghost start = strokes@;
        let ghost above: Option<nat> = match parent {
            Some(p) => Some(p as nat),
            None => None,
        };
        let ghost top = line_of(self@, above, max_generation as nat);
        let ghost kids = self@.children;
        let here = strokes.len();
        strokes.push(Stroke {
            parent,
            generation: self.generation,
            slot: self.slot,
            shade: shade(self.generation, max_generation),
        });
        let count = self.sub_trees.len();
        let mut i: usize = 0;
        proof {
            lemma_shapes(self.sub_trees@);
            assert(kids.take(0) =~= Seq::empty());
            assert(views(strokes@) =~= views(start) + seq![top] + lines_of(
                kids.take(0),
                here as nat,
                (here + 1) as nat,
                max_generation as nat,
            ));
        }
        while i < count
            invariant
                i <= count,
                count == self.sub_trees@.len(),
                kids == self@.children,
                kids.len() == count,
                forall|j: int| 0 <= j < count ==> #[trigger] kids[j] == self.sub_trees@[j]@,
                here == start.len(),
                max_generation >= 1,
                views(strokes@) == views(start) + seq![top] + lines_of(
                    kids.take(i as int),
                    here as nat,
                    (here + 1) as nat,
                    max_generation as nat,
                ),
            decreases count - i,
        {
            let ghost held = strokes@;
            proof {
                lemma_lines_of_len(
                    kids.take(i as int),
                    here as nat,
                    (here + 1) as nat,
                    max_generation as nat,
                );
                assert(views(held).len() == held.len());
            }
            self.sub_trees[i].draw_into(strokes, Some(here), max_generation);
            proof {
                assert(kids.take(i + 1).drop_last() =~= kids.take(i as int));
                assert(kids.take(i + 1).last() == kids[i as int]);
            }
            i += 1;
        }
        proof {
            assert(kids.take(count as int) =~= kids);
            assert(views(start) + seq![top] + lines_of(
                kids,
                here as nat,
                (here + 1) as nat,
                max_generation as nat,
            ) =~= views(start) + lines(self@, above, here as nat, max_generation as nat));
        }
    }

    /// The tree after `iterations` growth steps from a lone root, each leaf
    /// branching `branch_count` ways.
    pub fn build(iterations: usize, branch_count: usize) -> (tree: Tree)
        requires
            branch_count >= 2,
        ensures
            tree@ == full_tree(branch_count as nat, iterations as nat, 0, 0),
            tree@.regular(branch_count as nat),
            tree@.leaves() == pow(branch_count as int, iterations as nat),
            tree@.segments() * (branch_count - 1) == pow(
                branch_count as int,
                (iterations + 1) as nat,
            ) - branch_count,
    {
        proof {
            lemma_full_counts(branch_count as nat, iterations as nat, 0, 0);
            law_full_regular(branch_count as nat, iterations as nat, 0, 0);
            let whole = full_tree(branch_count as nat, iterations as nat, 0, 0);
            assert(whole.size() == 1 + whole.segments());
            assert(whole.segments() * (branch_count - 1) == whole.size() * (branch_count - 1) - (
            branch_count - 1)) by (nonlinear_arith)
                requires
                    whole.size() == 1 + whole.segments(),
            ;
        }
        let mut tree = Tree::new(0, 0);
        let mut done: usize = 0;
        while done < iterations
            invariant
                done <= iterations,
                tree@ == full_tree(branch_count as nat, done as nat, 0, 0),
            decreases iterations - done,
        {
            proof {
                lemma_full_deepest(branch_count as nat, done as nat, 0, 0);
                lemma_grow_full(branch_count as nat, done as nat, 0, 0);
            }
            tree.generate_new_sub_trees(branch_count);
            done += 1;
        }
        tree
    }
}

} // verus!
