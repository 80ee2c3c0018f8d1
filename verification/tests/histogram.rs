use teamwork_launcher::application::teamwork_launcher::TeamworkLauncher;

#[test]
fn test_histogram() {
    let numbers = vec![3, 3, 3, 2, 2, 1];
    let h = TeamworkLauncher::histogram(numbers.clone());

    assert_eq!(h.get(&3), Some(&3));
    assert_eq!(h.get(&2), Some(&2));
    assert_eq!(h.get(&1), Some(&1));
    assert_eq!(h.get(&0), None);
}

#[test]
fn histogram_of_nothing_is_empty() {
    let h = TeamworkLauncher::histogram(Vec::<i32>::new());

    assert_eq!(h.len(), 0);
}

#[test]
fn histogram_orders_negative_values_first() {
    let h = TeamworkLauncher::histogram(vec![5, -7, 5, 0]);

    assert_eq!(h.len(), 3);
    assert_eq!(*h.key_at(0), -7);
    assert_eq!(*h.key_at(1), 0);
    assert_eq!(*h.key_at(2), 5);
    assert_eq!(h.get(&5), Some(&2));
}
