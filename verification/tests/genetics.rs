use evolution_of_trust::genetics::GeneticStrategy;

#[test]
fn test_keep_is_the_identity() {
    assert_eq!(GeneticStrategy::Keep.apply_to_vec(vec![3, 1, 2]), vec![3, 1, 2]);
    assert_eq!(GeneticStrategy::Keep.apply_to_vec(vec![]), Vec::<usize>::new());
}

#[test]
fn test_culling_elitism_removes_the_worst_and_adds_the_best() {
    let strategy = GeneticStrategy::CullingElitism(2, 3);
    assert_eq!(strategy.apply_to_vec(vec![10, 11, 12, 13, 14]), vec![14, 13, 12, 14, 14, 14]);
    let strategy = GeneticStrategy::CullingElitism(1, 0);
    assert_eq!(strategy.apply_to_vec(vec![10, 11, 12, 13, 14]), vec![14, 11, 12, 13]);
    let strategy = GeneticStrategy::CullingElitism(0, 2);
    assert_eq!(strategy.apply_to_vec(vec![10, 11]), vec![10, 11, 11, 11]);
}

#[test]
fn test_culling_elitism_of_nothing_is_the_identity() {
    let strategy = GeneticStrategy::CullingElitism(0, 0);
    assert_eq!(strategy.apply_to_vec(vec![4, 2, 9, 9, 1]), vec![4, 2, 9, 9, 1]);
}

#[test]
fn test_culling_elitism_clamps_the_removal() {
    let strategy = GeneticStrategy::CullingElitism(9, 2);
    assert_eq!(strategy.apply_to_vec(vec![1, 2, 3]), vec![3, 3]);
    let strategy = GeneticStrategy::CullingElitism(3, 0);
    assert_eq!(strategy.apply_to_vec(vec![1, 2, 3]), Vec::<usize>::new());
    let strategy = GeneticStrategy::CullingElitism(3, 1);
    assert_eq!(strategy.apply_to_vec(vec![1, 2, 3, 4]), vec![4, 4]);
    let strategy = GeneticStrategy::CullingElitism(4, 0);
    assert_eq!(strategy.apply_to_vec(vec![1, 2, 3, 4, 5]), vec![5]);
}

#[test]
fn test_culling_elitism_on_an_empty_list() {
    let strategy = GeneticStrategy::CullingElitism(2, 3);
    assert_eq!(strategy.apply_to_vec(vec![]), Vec::<usize>::new());
}

#[test]
fn test_culling_elitism_sizes() {
    for size in 0..8usize {
        for remove in 0..10usize {
            for add in 0..4usize {
                let sorted: Vec<usize> = (0..size).collect();
                let next = GeneticStrategy::CullingElitism(remove, add).apply_to_vec(sorted);
                if size == 0 {
                    assert_eq!(next.len(), 0);
                } else {
                    assert_eq!(next.len(), size - remove.min(size) + add);
                    let mut kept: Vec<usize> = next[..size - remove.min(size)].to_vec();
                    kept.sort();
                    let expected: Vec<usize> = (remove.min(size)..size).collect();
                    assert_eq!(kept, expected);
                    assert!(next[size - remove.min(size)..].iter().all(|&t| t == size - 1));
                }
            }
        }
    }
}
