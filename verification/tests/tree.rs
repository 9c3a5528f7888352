use fractal_tree::render::{shade, turn, Shade, Stroke};
use fractal_tree::tree::Tree;

fn leaves(strokes: &[Stroke]) -> usize {
    let mut is_parent = vec![false; strokes.len()];
    for s in strokes {
        if let Some(p) = s.parent {
            is_parent[p] = true;
        }
    }
    is_parent.iter().filter(|p| !**p).count()
}

#[test]
fn new_tree_is_a_lone_leaf() {
    let t = Tree::new(4, 7);
    assert!(!t.has_sub_trees());
    assert_eq!(t.generation(), 4);
    assert_eq!(t.slot(), 7);
    assert_eq!(t.child_count(), 0);
}

#[test]
fn growth_step_fans_out_a_leaf() {
    let mut t = Tree::new(0, 0);
    t.generate_new_sub_trees(4);
    assert!(t.has_sub_trees());
    assert_eq!(t.child_count(), 4);
    for i in 0..4 {
        let c = t.child(i);
        assert_eq!(c.slot(), i);
        assert_eq!(c.generation(), 1);
        assert!(!c.has_sub_trees());
    }
}

#[test]
fn growth_step_only_touches_leaves() {
    let mut t = Tree::new(0, 0);
    t.generate_new_sub_trees(2);
    t.generate_new_sub_trees(3);
    assert_eq!(t.child_count(), 2);
    for i in 0..2 {
        let c = t.child(i);
        assert_eq!(c.child_count(), 3);
        for j in 0..3 {
            assert_eq!(c.child(j).generation(), 2);
            assert_eq!(c.child(j).slot(), j);
            assert_eq!(c.child(j).child_count(), 0);
        }
    }
}

#[test]
fn growth_step_with_no_branches_changes_nothing() {
    let mut t = Tree::new(0, 0);
    t.generate_new_sub_trees(0);
    assert!(!t.has_sub_trees());
    assert_eq!(t.draw(1).len(), 1);
}

#[test]
fn build_without_iterations_is_the_root() {
    let t = Tree::build(0, 2);
    assert!(!t.has_sub_trees());
    let strokes = t.draw(1);
    assert_eq!(
        strokes,
        vec![Stroke {
            parent: None,
            generation: 0,
            slot: 0,
            shade: Shade { numerator: 1, denominator: 3 },
        }]
    );
}

#[test]
fn build_counts_follow_the_geometric_series() {
    for n in 2usize..=5 {
        for k in 0usize..=5 {
            let strokes = Tree::build(k, n).draw(k.max(1));
            let expected_leaves = n.pow(k as u32);
            let expected_segments = (n.pow(k as u32 + 1) - n) / (n - 1);
            assert_eq!(leaves(&strokes), expected_leaves);
            assert_eq!(strokes.len() - 1, expected_segments);
            assert_eq!(
                strokes.iter().filter(|s| s.generation == k).count(),
                expected_leaves
            );
        }
    }
}

#[test]
fn build_is_deterministic() {
    let a = Tree::build(4, 3).draw(4);
    let b = Tree::build(4, 3).draw(4);
    assert_eq!(a, b);
    assert_eq!(a.len(), 121);
}

#[test]
fn every_root_to_leaf_path_has_the_iteration_count_as_length() {
    let strokes = Tree::build(3, 2).draw(3);
    let mut is_parent = vec![false; strokes.len()];
    for s in &strokes {
        if let Some(p) = s.parent {
            is_parent[p] = true;
        }
    }
    for (i, s) in strokes.iter().enumerate() {
        if !is_parent[i] {
            assert_eq!(s.generation, 3);
        }
    }
}

#[test]
fn draw_lists_parents_before_children() {
    let strokes = Tree::build(2, 2).draw(2);
    let parents: Vec<Option<usize>> = strokes.iter().map(|s| s.parent).collect();
    assert_eq!(
        parents,
        vec![None, Some(0), Some(1), Some(1), Some(0), Some(4), Some(4)]
    );
    let slots: Vec<usize> = strokes.iter().map(|s| s.slot).collect();
    assert_eq!(slots, vec![0, 0, 0, 1, 1, 0, 1]);
    let generations: Vec<usize> = strokes.iter().map(|s| s.generation).collect();
    assert_eq!(generations, vec![0, 1, 2, 2, 1, 2, 2]);
}

#[test]
fn children_are_one_generation_beyond_their_parent() {
    let strokes = Tree::build(3, 3).draw(3);
    for s in &strokes {
        match s.parent {
            Some(p) => assert_eq!(s.generation, strokes[p].generation + 1),
            None => assert_eq!(s.generation, 0),
        }
    }
}

#[test]
fn turn_spans_the_fan_from_one_edge_to_the_other() {
    assert_eq!(turn(0, 2), -1);
    assert_eq!(turn(1, 2), 1);
    assert_eq!(turn(0, 3), -2);
    assert_eq!(turn(1, 3), 0);
    assert_eq!(turn(2, 3), 2);
    assert_eq!(turn(0, 5), -4);
    assert_eq!(turn(4, 5), 4);
    for n in 2usize..10 {
        assert_eq!(turn(0, n), -((n - 1) as i128));
        assert_eq!(turn(n - 1, n), (n - 1) as i128);
        for i in 0..n - 1 {
            assert_eq!(turn(i + 1, n) - turn(i, n), 2);
        }
    }
}

#[test]
fn turn_does_not_overflow_at_the_limits() {
    assert_eq!(turn(usize::MAX, 0), 2 * (usize::MAX as i128) + 1);
    assert_eq!(turn(0, usize::MAX), -((usize::MAX - 1) as i128));
}

#[test]
fn shade_is_one_third_at_the_root_and_full_at_the_deepest() {
    assert_eq!(shade(0, 5), Shade { numerator: 5, denominator: 15 });
    assert_eq!(shade(5, 5), Shade { numerator: 15, denominator: 15 });
    assert_eq!(shade(1, 2), Shade { numerator: 4, denominator: 6 });
    let s = shade(0, 7);
    let v = s.numerator as f64 / s.denominator as f64;
    assert!((v - 0.5 / 1.5).abs() < 1e-12);
    let s = shade(3, 4);
    let v = s.numerator as f64 / s.denominator as f64;
    assert!((v - (0.5 + 3.0 / 4.0) / 1.5).abs() < 1e-12);
}

#[test]
fn shade_does_not_overflow_at_the_limits() {
    let s = shade(usize::MAX, usize::MAX);
    assert_eq!(s.numerator, 3 * (usize::MAX as u128));
    assert_eq!(s.denominator, 3 * (usize::MAX as u128));
}

#[test]
fn three_branches_twice_from_the_screen_root() {
    let iterations = 2usize;
    let n = 3usize;
    let spread = 0.5f64;
    let multiplier = 0.7f64;
    let (sx, sy, ex, ey) = (500.0f64, 720.0f64, 500.0f64, 453.0f64);
    let root_angle = (ey - sy).atan2(ex - sx);
    let root_len = ((ex - sx).powi(2) + (ey - sy).powi(2)).sqrt();
    assert!((root_len - 267.0).abs() < 1e-9);

    let strokes = Tree::build(iterations, n).draw(iterations);
    assert_eq!(strokes.len() - 1, 12);
    assert_eq!(leaves(&strokes), 9);

    let mut angle = vec![0.0f64; strokes.len()];
    let mut length = vec![0.0f64; strokes.len()];
    for (i, s) in strokes.iter().enumerate() {
        match s.parent {
            None => {
                angle[i] = root_angle;
                length[i] = root_len;
            }
            Some(p) => {
                angle[i] = angle[p] + spread * turn(s.slot, n) as f64 / (n - 1) as f64;
                length[i] = length[p] * multiplier;
            }
        }
    }
    let first: Vec<usize> = (0..strokes.len())
        .filter(|i| strokes[*i].parent == Some(0))
        .collect();
    assert_eq!(first.len(), 3);
    let expected = [root_angle - 0.5, root_angle, root_angle + 0.5];
    for (k, i) in first.iter().enumerate() {
        assert!((angle[*i] - expected[k]).abs() < 1e-12);
        assert!((length[*i] - 186.9).abs() < 1e-9);
        let grand = strokes.iter().filter(|s| s.parent == Some(*i)).count();
        assert_eq!(grand, 3);
    }
}
