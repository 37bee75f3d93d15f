use rand_xoshiro::rand_core::SeedableRng;
use rand_xoshiro::Xoshiro256Plus;
use raytracing::bvh::{sort_on_axis, Bvh, BvhEntry};
use raytracing::object::{HittableObjectIndex, HittableObjectType};
use std::collections::BTreeSet;

fn sphere(i: usize) -> HittableObjectIndex {
    HittableObjectIndex::new(HittableObjectType::Sphere, i)
}

fn entries(n: usize) -> Vec<BvhEntry> {
    (0..n)
        .map(|i| {
            let i64_ = i as u64;
            BvhEntry::new(sphere(i), (i64_ * 7) % 11, (i64_ * 5) % 13, n as u64 - i64_)
        })
        .collect()
}

fn collect_leaves(bvh: &Bvh, r: HittableObjectIndex, out: &mut Vec<HittableObjectIndex>) {
    if r.is_node() {
        let node = bvh.node(r.index);
        collect_leaves(bvh, node.left(), out);
        collect_leaves(bvh, node.right(), out);
    } else {
        out.push(r);
    }
}

#[test]
fn empty_input_builds_nothing() {
    let mut rng = Xoshiro256Plus::seed_from_u64(0);
    assert!(Bvh::build(Vec::new(), &mut rng).is_none());
}

#[test]
fn single_entry_is_duplicated() {
    let mut rng = Xoshiro256Plus::seed_from_u64(0);
    let bvh = Bvh::build(entries(1), &mut rng).unwrap();
    assert_eq!(bvh.len(), 1);
    assert_eq!(bvh.root(), HittableObjectIndex::new(HittableObjectType::BvhNode, 0));
    assert_eq!(bvh.node(0).left(), sphere(0));
    assert_eq!(bvh.node(0).right(), sphere(0));
}

#[test]
fn two_entries_become_the_children() {
    let mut rng = Xoshiro256Plus::seed_from_u64(0);
    let bvh = Bvh::build(entries(2), &mut rng).unwrap();
    assert_eq!(bvh.len(), 1);
    assert_eq!(bvh.node(0).left(), sphere(0));
    assert_eq!(bvh.node(0).right(), sphere(1));
}

#[test]
fn every_object_is_reached_once_or_twice() {
    for n in 1..40 {
        for seed in 0..4 {
            let mut rng = Xoshiro256Plus::seed_from_u64(seed);
            let bvh = Bvh::build(entries(n), &mut rng).unwrap();
            assert_eq!(bvh.root().index, bvh.len() - 1);
            assert!(bvh.len() <= 2 * n - 1);
            let mut leaves = Vec::new();
            collect_leaves(&bvh, bvh.root(), &mut leaves);
            let set: BTreeSet<usize> = leaves.iter().map(|l| l.index).collect();
            assert_eq!(set, (0..n).collect::<BTreeSet<usize>>());
            let mut parents = vec![0usize; bvh.len()];
            for i in 0..bvh.len() {
                let node = bvh.node(i);
                for c in [node.left(), node.right()] {
                    assert!(!c.is_node() || c.index < i);
                    if c.is_node() {
                        parents[c.index] += 1;
                    }
                }
            }
            let root = bvh.root().index;
            assert!(parents.iter().enumerate().all(|(k, p)| *p == if k == root { 0 } else { 1 }));
        }
    }
}

#[test]
fn sort_orders_by_the_axis_key_and_keeps_ties() {
    let items = vec![
        BvhEntry::new(sphere(0), 5, 1, 0),
        BvhEntry::new(sphere(1), 2, 1, 0),
        BvhEntry::new(sphere(2), 5, 0, 0),
        BvhEntry::new(sphere(3), 1, 2, 0),
    ];
    let by_x: Vec<usize> = sort_on_axis(items.clone(), 0).iter().map(|e| e.object.index).collect();
    assert_eq!(by_x, vec![3, 1, 0, 2]);
    let by_y: Vec<usize> = sort_on_axis(items.clone(), 1).iter().map(|e| e.object.index).collect();
    assert_eq!(by_y, vec![2, 0, 1, 3]);
    let by_z: Vec<usize> = sort_on_axis(items, 2).iter().map(|e| e.object.index).collect();
    assert_eq!(by_z, vec![0, 1, 2, 3]);
}

#[test]
fn object_index_kinds() {
    let node = HittableObjectIndex::new(HittableObjectType::BvhNode, 3);
    assert!(node.is_node());
    assert!(!HittableObjectIndex::new(HittableObjectType::AabbBox, 3).is_node());
    assert_eq!(node.index, 3);
}

#[test]
fn root_splits_the_ordered_entries_at_the_middle() {
    for n in 3..20usize {
        let items: Vec<BvhEntry> = (0..n)
            .map(|i| BvhEntry::new(sphere(n - 1 - i), (n - i) as u64, (n - i) as u64, (n - i) as u64))
            .collect();
        let mut rng = Xoshiro256Plus::seed_from_u64(n as u64);
        let bvh = Bvh::build(items, &mut rng).unwrap();
        let root = bvh.node(bvh.root().index);
        let mut left = Vec::new();
        collect_leaves(&bvh, root.left(), &mut left);
        let mut right = Vec::new();
        collect_leaves(&bvh, root.right(), &mut right);
        let left: BTreeSet<usize> = left.iter().map(|l| l.index).collect();
        let right: BTreeSet<usize> = right.iter().map(|l| l.index).collect();
        assert_eq!(left, (0..n / 2).collect::<BTreeSet<usize>>());
        assert_eq!(right, (n / 2..n).collect::<BTreeSet<usize>>());
    }
}
