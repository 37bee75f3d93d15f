use rand_xoshiro::rand_core::SeedableRng;
use rand_xoshiro::Xoshiro256Plus;
use raytracing::perlin::{permute, permute_by, PermutationTables, POINT_COUNT};

fn is_permutation(p: &[u8]) -> bool {
    let mut sorted = p.to_vec();
    sorted.sort();
    sorted.len() == POINT_COUNT && sorted.iter().enumerate().all(|(i, v)| *v as usize == i)
}

#[test]
fn tables_are_permutations() {
    let mut rng = Xoshiro256Plus::seed_from_u64(7);
    let t = PermutationTables::new(&mut rng);
    assert!(is_permutation(&t.perm_x));
    assert!(is_permutation(&t.perm_y));
    assert!(is_permutation(&t.perm_z));
}

#[test]
fn tables_are_shuffled() {
    let mut rng = Xoshiro256Plus::seed_from_u64(1);
    let t = PermutationTables::new(&mut rng);
    let identity: Vec<u8> = (0..=255).collect();
    assert_ne!(t.perm_x, identity);
    assert_ne!(t.perm_x, t.perm_y);
}

#[test]
fn same_seed_gives_same_tables() {
    let mut a = Xoshiro256Plus::seed_from_u64(42);
    let mut b = Xoshiro256Plus::seed_from_u64(42);
    let ta = PermutationTables::new(&mut a);
    let tb = PermutationTables::new(&mut b);
    assert_eq!(ta.perm_x, tb.perm_x);
    assert_eq!(ta.perm_y, tb.perm_y);
    assert_eq!(ta.perm_z, tb.perm_z);
    for (i, j, k) in [(0, 0, 0), (3, -4, 9), (-1000, 77, 255)] {
        assert_eq!(ta.lattice_index(i, j, k), tb.lattice_index(i, j, k));
    }
}

#[test]
fn lattice_index_combines_tables_by_xor() {
    let mut rng = Xoshiro256Plus::seed_from_u64(3);
    let t = PermutationTables::new(&mut rng);
    let expected = (t.perm_x[1] ^ t.perm_y[2] ^ t.perm_z[3]) as usize;
    assert_eq!(t.lattice_index(1, 2, 3), expected);
    let wrapped = (t.perm_x[255] ^ t.perm_y[0] ^ t.perm_z[44]) as usize;
    assert_eq!(t.lattice_index(-1, 256, 300), wrapped);
    assert!(t.lattice_index(i32::MIN, i32::MAX, 0) < POINT_COUNT);
}

#[test]
fn permute_keeps_the_entries() {
    let mut rng = Xoshiro256Plus::seed_from_u64(5);
    let mut p: Vec<u8> = vec![9, 9, 1, 2, 3, 200];
    permute(&mut p, &mut rng);
    let mut sorted = p.clone();
    sorted.sort();
    assert_eq!(sorted, vec![1, 2, 3, 9, 9, 200]);
    let mut empty: Vec<u8> = Vec::new();
    permute(&mut empty, &mut rng);
    assert!(empty.is_empty());
}

#[test]
fn permute_by_swaps_from_the_last_slot_down() {
    let mut p: Vec<u8> = vec![10, 20, 30, 40];
    permute_by(&mut p, &vec![0, 0, 1, 2]);
    assert_eq!(p, vec![40, 10, 20, 30]);
    let mut q: Vec<u8> = vec![1, 2, 3];
    permute_by(&mut q, &vec![0, 1, 2]);
    assert_eq!(q, vec![1, 2, 3]);
    let mut r: Vec<u8> = vec![1, 2, 3];
    permute_by(&mut r, &vec![2, 0, 0]);
    assert_eq!(r, vec![1, 3, 2]);
}
