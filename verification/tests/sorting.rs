use ray_tracer::sort::sort_by_key;

#[test]
fn sort_by_key_orders_by_key() {
    let keys: Vec<i128> = vec![30, 10, 20, 0];
    assert_eq!(sort_by_key(vec![0, 1, 2, 3], &keys), vec![3, 1, 2, 0]);
}

#[test]
fn sort_by_key_breaks_ties_by_index() {
    let keys: Vec<i128> = vec![5, 5, 1, 5, 1];
    assert_eq!(sort_by_key(vec![3, 4, 0, 2, 1], &keys), vec![2, 4, 0, 1, 3]);
}

#[test]
fn sort_by_key_sorts_a_part_of_the_items() {
    let keys: Vec<i128> = vec![9, 8, 7, 6, 5, 4];
    assert_eq!(sort_by_key(vec![1, 5, 3], &keys), vec![5, 3, 1]);
}

#[test]
fn sort_by_key_keeps_repeated_items() {
    let keys: Vec<i128> = vec![2, 1];
    assert_eq!(sort_by_key(vec![0, 1, 0, 1], &keys), vec![1, 1, 0, 0]);
}

#[test]
fn sort_by_key_on_empty_and_single() {
    let keys: Vec<i128> = vec![1, 2, 3];
    assert_eq!(sort_by_key(vec![], &keys), Vec::<usize>::new());
    assert_eq!(sort_by_key(vec![2], &keys), vec![2]);
}

#[test]
fn sort_by_key_handles_extreme_keys() {
    let keys: Vec<i128> = vec![i128::MAX, i128::MIN, 0, -1];
    assert_eq!(sort_by_key(vec![0, 1, 2, 3], &keys), vec![1, 3, 2, 0]);
}

#[test]
fn sort_by_key_agrees_with_a_stable_sort() {
    let n = 200usize;
    let mut state: u64 = 12345;
    let mut keys: Vec<i128> = Vec::new();
    for _ in 0..n {
        state = state.wrapping_mul(6364136223846793005).wrapping_add(1442695040888963407);
        keys.push(((state >> 33) % 17) as i128);
    }
    let ids: Vec<usize> = (0..n).rev().collect();
    let mut expected: Vec<usize> = (0..n).collect();
    expected.sort_by_key(|i| keys[*i]);
    assert_eq!(sort_by_key(ids, &keys), expected);
}
