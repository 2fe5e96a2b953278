use adjunction::counit::{Graph, ListMonoid, PathCategory};
use adjunction::forgetful::{ForgetCategory, ForgetGroup, ForgetMonoid, MonoidPresentation};

#[test]
fn test_forget_monoid_apply() {
    let m = ListMonoid::new(vec![1, 2, 3]);
    let set = ForgetMonoid::apply(&m);
    assert_eq!(set, vec![1, 2, 3]);
}

#[test]
fn test_forget_monoid_empty() {
    let m = ListMonoid::identity();
    assert!(ForgetMonoid::is_empty(&m));
    assert_eq!(ForgetMonoid::count(&m), 0);
}

#[test]
fn test_forget_monoid_count() {
    let m = ListMonoid::new(vec![1, 2]);
    assert_eq!(ForgetMonoid::count(&m), 2);
}

#[test]
fn test_forget_category_apply() {
    let cat = PathCategory::from_graph(&Graph::new(3, vec![(0, 1), (1, 2)]));
    let graph = ForgetCategory::apply(&cat);
    assert_eq!(graph.num_vertices, 3);
    assert_eq!(graph.edges.len(), 2);
}

#[test]
fn test_forget_category_edges() {
    let cat = PathCategory::from_graph(&Graph::new(2, vec![(0, 1)]));
    let edges = ForgetCategory::edges(&cat);
    assert_eq!(edges, vec![(0, 1)]);
}

#[test]
fn test_forget_category_num_objects() {
    let cat = PathCategory::from_graph(&Graph::new(5, vec![]));
    assert_eq!(ForgetCategory::num_objects(&cat), 5);
}

#[test]
fn test_forget_group_apply() {
    let gens = vec!["a".to_string(), "b".to_string()];
    let result = ForgetGroup::apply(&gens);
    assert_eq!(result, vec!["a", "b"]);
}

#[test]
fn test_monoid_presentation_multiply() {
    let pres = MonoidPresentation::new(
        vec![0, 1, 2],
        vec![
            (0, 0, 0),
            (0, 1, 1),
            (0, 2, 2),
            (1, 0, 1),
            (1, 1, 2),
            (1, 2, 0),
            (2, 0, 2),
            (2, 1, 0),
            (2, 2, 1),
        ],
    );
    assert_eq!(pres.multiply(1, 2), Some(0));
    assert_eq!(pres.multiply(2, 2), Some(1));
}

#[test]
fn test_forget_category_roundtrip() {
    let original = Graph::new(4, vec![(0, 1), (1, 2), (2, 3), (3, 0)]);
    let cat = PathCategory::from_graph(&original);
    let recovered = ForgetCategory::apply(&cat);
    assert_eq!(recovered.num_vertices, original.num_vertices);
    assert_eq!(recovered.edges, original.edges);
}

#[test]
fn multiply_without_a_row_is_none() {
    let pres = MonoidPresentation::new(vec![0, 1], vec![(0, 0, 0), (0, 1, 1)]);
    assert_eq!(pres.multiply(1, 1), None);
    assert_eq!(MonoidPresentation::new(vec![], vec![]).multiply(0, 0), None);
}

#[test]
fn multiply_uses_the_first_matching_row() {
    let pres = MonoidPresentation::new(vec![0, 1], vec![(1, 1, 7), (1, 1, 0), (0, 0, 0)]);
    assert_eq!(pres.multiply(1, 1), Some(7));
    assert_eq!(pres.elements, vec![0, 1]);
}

#[test]
fn forget_monoid_on_a_non_identity() {
    let m = ListMonoid::new(vec![-3]);
    assert!(!ForgetMonoid::is_empty(&m));
    assert_eq!(ForgetMonoid::count(&m), 1);
    assert_eq!(ForgetMonoid::apply(&ListMonoid::identity()), Vec::<i32>::new());
}

#[test]
fn forget_category_emptiness() {
    assert!(ForgetCategory::is_empty(&PathCategory::from_graph(&Graph::empty())));
    assert!(!ForgetCategory::is_empty(&PathCategory::from_graph(&Graph::new(1, vec![]))));
    assert!(!ForgetCategory::is_empty(&PathCategory::from_graph(&Graph::new(0, vec![(0, 0)]))));
}

#[test]
fn forget_group_keeps_order_and_repeats() {
    let gens = vec!["x".to_string(), "y".to_string(), "x".to_string()];
    assert_eq!(ForgetGroup::apply(&gens), vec!["x", "y", "x"]);
    assert!(ForgetGroup::apply(&[]).is_empty());
}
