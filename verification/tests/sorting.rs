use quicksort::random_generator::RandGen;
use quicksort::{quick_sort, quick_sort_rayon, quick_sort_with};
use rand::distributions::Uniform;
use rand::Rng;

#[test]
fn test_quick_sort() {
    let mut vector = vec![1, 3, 55, 7, 5, 100, 6, 41, 0, 2, 4];
    quick_sort(&mut vector);
    assert_eq!(vector, vec![0, 1, 2, 3, 4, 5, 6, 7, 41, 55, 100]);
}

#[test]
fn test_rayon_quick_sort() {
    let mut vector = vec![1, 3, 55, 7, 5, 100, 6, 41, 0, 2, 4];
    quick_sort_rayon(&mut vector);
    assert_eq!(vector, vec![0, 1, 2, 3, 4, 5, 6, 7, 41, 55, 100]);
}

#[test]
fn sort_empty() {
    let vector_empty: Vec<f32> = Vec::new();
    let mut sorted_empty = vector_empty.clone();
    quick_sort(&mut sorted_empty);
    assert_eq!(vector_empty, sorted_empty);
}

#[test]
fn random_sort() {
    let mut rng = rand::thread_rng();
    let range = Uniform::new(0, 20);
    let random_vector: Vec<usize> = (0..100).map(|_| rng.sample(&range)).collect();
    let mut quick_sorted = random_vector.clone();
    let mut std_sorted = random_vector.clone();
    std_sorted.sort();
    quick_sort(&mut quick_sorted);
    assert_eq!(std_sorted, quick_sorted);
}

#[test]
fn random_sort_fork_join() {
    let mut rng = rand::thread_rng();
    let range = Uniform::new(0, 20);
    let random_vector: Vec<usize> = (0..100).map(|_| rng.sample(&range)).collect();
    let mut fork_join_sorted = random_vector.clone();
    let mut std_sorted = random_vector.clone();
    std_sorted.sort();
    quick_sort_rayon(&mut fork_join_sorted);
    assert_eq!(std_sorted, fork_join_sorted);
}

#[test]
fn sort_with_a_generator_of_ones_own() {
    let mut vector: Vec<i64> = vec![9, -3, 7, 7, 0, -12, 5, 1, 1, 8];
    let mut generator = RandGen::new(7);
    quick_sort_with(&mut vector, &mut generator);
    assert_eq!(vector, vec![-12, -3, 0, 1, 1, 5, 7, 7, 8, 9]);
}

#[test]
fn sort_draws_at_least_once_and_less_often_than_there_are_elements() {
    let mut vector: Vec<u8> = vec![9, 3, 7, 7, 0, 12, 5, 1, 1, 8];
    let length = vector.len();
    let mut generator = RandGen::new(7);
    quick_sort_with(&mut vector, &mut generator);
    let next = generator.lehmer(usize::MAX);
    let mut reference = RandGen::new(7);
    let mut draws_made = None;
    for draws in 0..=length {
        let value = reference.lehmer(usize::MAX);
        if value == next {
            draws_made = Some(draws);
        }
    }
    let draws_made = draws_made.unwrap();
    assert!(1 <= draws_made && draws_made <= length - 1);
}

#[test]
fn sort_of_one_element_draws_nothing() {
    let mut generator = RandGen::new(7);
    let mut single: Vec<u8> = vec![3];
    quick_sort_with(&mut single, &mut generator);
    let mut empty: Vec<u8> = Vec::new();
    quick_sort_with(&mut empty, &mut generator);
    assert_eq!(single, vec![3]);
    assert_eq!(generator.lehmer(100), 73);
}

#[test]
fn sort_singleton() {
    let mut single = vec![17];
    quick_sort(&mut single);
    assert_eq!(single, vec![17]);
    let mut single = vec![17];
    quick_sort_rayon(&mut single);
    assert_eq!(single, vec![17]);
    let mut empty: Vec<i32> = Vec::new();
    quick_sort_rayon(&mut empty);
    assert!(empty.is_empty());
}

#[test]
fn sort_two_elements() {
    let mut pair = vec![2, 1];
    quick_sort(&mut pair);
    assert_eq!(pair, vec![1, 2]);
    let mut pair = vec![2, 1];
    quick_sort_rayon(&mut pair);
    assert_eq!(pair, vec![1, 2]);
}

#[test]
fn sorting_a_sorted_sequence_changes_nothing() {
    let sorted: Vec<u32> = vec![0, 1, 1, 2, 3, 5, 8, 13, 21, 21, 34];
    let mut again = sorted.clone();
    quick_sort(&mut again);
    assert_eq!(again, sorted);
    quick_sort_rayon(&mut again);
    assert_eq!(again, sorted);
}

#[test]
fn sorting_a_descending_sequence() {
    let mut vector: Vec<i32> = (0..200).rev().collect();
    quick_sort(&mut vector);
    let expected: Vec<i32> = (0..200).collect();
    assert_eq!(vector, expected);
}

#[test]
fn sequential_and_fork_join_agree() {
    let input: Vec<i32> = vec![12, -4, 12, 0, 99, -4, 3, 3, 3, 57, -100, 8];
    let mut sequential = input.clone();
    let mut fork_join = input.clone();
    quick_sort(&mut sequential);
    quick_sort_rayon(&mut fork_join);
    assert_eq!(sequential, fork_join);
    assert_eq!(sequential, vec![-100, -4, -4, 0, 3, 3, 3, 8, 12, 12, 57, 99]);
}

#[test]
fn sort_floats() {
    let mut vector: Vec<f64> = vec![2.5, -1.0, 0.0, 10.25, 2.5, -7.75];
    quick_sort(&mut vector);
    assert_eq!(vector, vec![-7.75, -1.0, 0.0, 2.5, 2.5, 10.25]);
}

#[test]
fn sort_strings() {
    let mut vector: Vec<String> =
        vec!["pear".to_string(), "apple".to_string(), "fig".to_string(), "apple".to_string()];
    quick_sort_rayon(&mut vector);
    assert_eq!(
        vector,
        vec!["apple".to_string(), "apple".to_string(), "fig".to_string(), "pear".to_string()]
    );
}

#[test]
fn sort_a_large_sequence_with_duplicates() {
    let mut generator = RandGen::new(1);
    let input: Vec<usize> = (0..5000).map(|_| generator.lehmer(50)).collect();
    let mut expected = input.clone();
    expected.sort();
    let mut sequential = input.clone();
    quick_sort(&mut sequential);
    assert_eq!(sequential, expected);
    let mut fork_join = input.clone();
    quick_sort_rayon(&mut fork_join);
    assert_eq!(fork_join, expected);
}
