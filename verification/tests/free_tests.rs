use std::cell::Cell;

use adjunction::counit::{Graph, ListMonoid};
use adjunction::free::{FreeCategory, FreeMonoid};

#[test]
fn test_free_monoid_words_len_0() {
    let fm = FreeMonoid::build(vec![1, 2]);
    let words = fm.words(0);
    assert_eq!(words.len(), 1);
    assert!(words[0].is_identity());
}

#[test]
fn test_free_monoid_words_len_1() {
    let fm = FreeMonoid::build(vec![1, 2]);
    let words = fm.words(1);
    assert_eq!(words.len(), 3);
}

#[test]
fn test_free_monoid_words_len_2() {
    let fm = FreeMonoid::build(vec![1]);
    let words = fm.words(2);
    assert_eq!(words.len(), 3);
}

#[test]
fn test_free_monoid_universal_property() {
    let fm = FreeMonoid::build(vec![1, 2]);
    let result = fm.universal_property(|x| ListMonoid::new(vec![x * 10]));
    assert!(result.passed);
}

#[test]
fn test_free_monoid_unit_map() {
    let fm = FreeMonoid::build(vec![1, 2]);
    let eta = fm.unit_map(5);
    assert_eq!(eta.elements, vec![5]);
}

#[test]
fn test_free_category_build() {
    let g = Graph::new(3, vec![(0, 1), (1, 2)]);
    let fc = FreeCategory::build(g);
    assert_eq!(fc.graph.num_vertices, 3);
}

#[test]
fn test_free_category_identities() {
    let g = Graph::new(3, vec![]);
    let fc = FreeCategory::build(g);
    let ids = fc.identities();
    assert_eq!(ids.len(), 3);
    assert!(ids.iter().all(|m| m.is_identity()));
}

#[test]
fn test_free_category_paths_len_1() {
    let g = Graph::new(3, vec![(0, 1), (1, 2)]);
    let fc = FreeCategory::build(g);
    let paths = fc.paths_of_length(1);
    assert_eq!(paths.len(), 2);
}

#[test]
fn test_free_category_paths_len_2() {
    let g = Graph::new(3, vec![(0, 1), (1, 2)]);
    let fc = FreeCategory::build(g);
    let paths = fc.paths_of_length(2);
    assert_eq!(paths.len(), 1);
    assert_eq!(paths[0].path, vec![(0, 1), (1, 2)]);
}

#[test]
fn test_free_category_all_morphisms() {
    let g = Graph::new(2, vec![(0, 1)]);
    let fc = FreeCategory::build(g);
    let all = fc.all_morphisms(1);
    assert_eq!(all.len(), 3);
}

#[test]
fn test_free_category_universal_property() {
    let g = Graph::new(3, vec![(0, 1), (1, 2)]);
    let fc = FreeCategory::build(g);
    let result = fc.universal_property();
    assert!(result.passed);
}

fn lists(words: &[ListMonoid]) -> Vec<Vec<i32>> {
    words.iter().map(|w| w.elements.clone()).collect()
}

#[test]
fn words_come_shortest_first_in_generator_order() {
    let fm = FreeMonoid::build(vec![1, 2]);
    let words = fm.words(2);
    assert_eq!(
        lists(&words),
        vec![vec![], vec![1], vec![2], vec![1, 1], vec![1, 2], vec![2, 1], vec![2, 2]]
    );
}

#[test]
fn words_count_is_a_sum_of_powers() {
    let fm = FreeMonoid::build(vec![7, 8, 9]);
    // 1 + 3 + 9 + 27
    assert_eq!(fm.words(3).len(), 40);
    assert!(fm.words(3).iter().all(|w| w.elements.len() <= 3));
}

#[test]
fn words_over_no_generators_is_only_the_empty_word() {
    let fm = FreeMonoid::build(vec![]);
    let words = fm.words(4);
    assert_eq!(words.len(), 1);
    assert!(words[0].is_identity());
}

#[test]
fn universal_property_of_a_deterministic_map_has_no_failures() {
    let fm = FreeMonoid::build(vec![3, -4, 5]);
    let result = fm.universal_property(|x| ListMonoid::new(vec![x, x + 1]));
    assert!(result.passed);
    assert!(result.failures.is_empty());
    assert_eq!(result.functor_name, "FreeMonoid");
}

#[test]
fn universal_property_reports_each_failing_pair() {
    // A map that answers differently on each call breaks the homomorphism check.
    let calls = Cell::new(0);
    let fm = FreeMonoid::build(vec![1, -2]);
    let result = fm.universal_property(|_x| {
        let n = calls.get();
        calls.set(n + 1);
        ListMonoid::new(vec![n])
    });
    assert!(!result.passed);
    assert_eq!(
        result.failures,
        vec![
            "Homomorphism property fails for generators 1 and 1",
            "Homomorphism property fails for generators 1 and -2",
            "Homomorphism property fails for generators -2 and 1",
            "Homomorphism property fails for generators -2 and -2",
        ]
    );
    assert_eq!(calls.get(), 16);
}

#[test]
fn universal_property_with_no_generators_passes() {
    let fm = FreeMonoid::build(vec![]);
    let result = fm.universal_property(|x| ListMonoid::new(vec![x]));
    assert!(result.passed);
    assert!(result.failures.is_empty());
}

#[test]
fn paths_follow_edges_in_order() {
    let g = Graph::new(3, vec![(0, 1), (1, 2), (1, 0), (2, 0)]);
    let fc = FreeCategory::build(g);
    let paths: Vec<(usize, usize, Vec<(usize, usize)>)> = fc
        .paths_of_length(2)
        .into_iter()
        .map(|m| (m.source, m.target, m.path))
        .collect();
    assert_eq!(
        paths,
        vec![
            (0, 2, vec![(0, 1), (1, 2)]),
            (0, 0, vec![(0, 1), (1, 0)]),
            (1, 0, vec![(1, 2), (2, 0)]),
            (1, 1, vec![(1, 0), (0, 1)]),
            (2, 1, vec![(2, 0), (0, 1)]),
        ]
    );
}

#[test]
fn paths_of_length_zero_are_the_identities() {
    let fc = FreeCategory::build(Graph::new(2, vec![(0, 1)]));
    let ids = fc.paths_of_length(0);
    assert_eq!(ids.len(), 2);
    assert!(ids.iter().all(|m| m.is_identity()));
    assert_eq!(ids[1].source, 1);
}

#[test]
fn paths_longer_than_the_graph_allows_are_none() {
    let fc = FreeCategory::build(Graph::new(3, vec![(0, 1), (1, 2)]));
    assert!(fc.paths_of_length(3).is_empty());
    assert!(FreeCategory::build(Graph::empty()).paths_of_length(1).is_empty());
}

#[test]
fn all_morphisms_lists_identities_then_longer_paths() {
    let fc = FreeCategory::build(Graph::new(2, vec![(0, 1), (1, 0)]));
    let all = fc.all_morphisms(2);
    let paths: Vec<Vec<(usize, usize)>> = all.iter().map(|m| m.path.clone()).collect();
    assert_eq!(
        paths,
        vec![
            vec![],
            vec![],
            vec![(0, 1)],
            vec![(1, 0)],
            vec![(0, 1), (1, 0)],
            vec![(1, 0), (0, 1)],
        ]
    );
    assert_eq!(fc.all_morphisms(0).len(), 2);
}

#[test]
fn free_category_universal_property_passes_on_a_cycle() {
    let fc = FreeCategory::build(Graph::new(2, vec![(0, 1), (1, 0), (0, 0)]));
    let result = fc.universal_property();
    assert!(result.passed);
    assert!(result.failures.is_empty());
    assert_eq!(result.functor_name, "FreeCategory");
}

#[test]
fn unit_at_vertex_and_path_category() {
    let fc = FreeCategory::build(Graph::new(3, vec![(2, 1)]));
    let eta = fc.unit_at_vertex(2);
    assert!(eta.is_identity());
    assert_eq!(eta.source, 2);
    let cat = fc.to_path_category();
    assert_eq!(cat.graph.num_vertices, 3);
    assert_eq!(cat.graph.edges, vec![(2, 1)]);
}
