use evolution_of_trust::ranking::rank_by_score;

#[test]
fn test_rank_by_score_is_ascending_and_stable() {
    let types = vec![7, 8, 9, 10, 11];
    let scores = vec![5, -3, 5, 0, -3];
    assert_eq!(rank_by_score(&types, &scores), vec![8, 11, 10, 7, 9]);
    assert_eq!(rank_by_score(&vec![], &vec![]), Vec::<usize>::new());
    assert_eq!(rank_by_score(&vec![4, 4, 2], &vec![1, 1, 1]), vec![4, 4, 2]);
}
