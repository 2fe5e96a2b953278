use adjunction::counit::{
    forgetful_category_counit, forgetful_monoid_counit, Counit, Graph, ListMonoid, PathCategory,
};

#[test]
fn test_list_monoid_multiply() {
    let a = ListMonoid::new(vec![1, 2]);
    let b = ListMonoid::new(vec![3, 4]);
    assert_eq!(a.multiply(&b).elements, vec![1, 2, 3, 4]);
}

#[test]
fn test_list_monoid_associativity() {
    let a = ListMonoid::new(vec![1]);
    let b = ListMonoid::new(vec![2]);
    let c = ListMonoid::new(vec![3]);
    let left = a.multiply(&b).multiply(&c);
    let right = a.multiply(&b.multiply(&c));
    assert_eq!(left.elements, right.elements);
}

#[test]
fn test_forgetful_monoid_counit() {
    let eps = forgetful_monoid_counit();
    let m = ListMonoid::new(vec![1, 2, 3]);
    assert_eq!(eps.apply(&m).elements, vec![1, 2, 3]);
}

#[test]
fn test_graph_creation() {
    let g = Graph::new(3, vec![(0, 1), (1, 2)]);
    assert_eq!(g.num_vertices, 3);
    assert_eq!(g.edges.len(), 2);
    assert_eq!(g.vertices(), vec![0, 1, 2]);
}

#[test]
fn test_graph_edges_from() {
    let g = Graph::new(3, vec![(0, 1), (0, 2), (1, 2)]);
    assert_eq!(g.edges_from(0).len(), 2);
}

#[test]
fn test_graph_add_edge() {
    let mut g = Graph::new(2, vec![]);
    g.add_edge(0, 1);
    assert_eq!(g.edges, vec![(0, 1)]);
}

#[test]
fn test_path_category_from_graph() {
    let g = Graph::new(2, vec![(0, 1)]);
    let cat = PathCategory::from_graph(&g);
    assert_eq!(cat.graph.edges, vec![(0, 1)]);
}

#[test]
fn test_path_category_identities() {
    let g = Graph::new(3, vec![]);
    let cat = PathCategory::from_graph(&g);
    assert_eq!(cat.identities().len(), 3);
}

#[test]
fn test_forgetful_category_counit() {
    let eps = forgetful_category_counit();
    let cat = PathCategory::from_graph(&Graph::new(2, vec![(0, 1)]));
    assert_eq!(eps.apply(&cat).graph.edges, vec![(0, 1)]);
}

#[test]
fn identity_is_neutral_for_multiplication() {
    let a = ListMonoid::new(vec![5, 6]);
    let e = ListMonoid::identity();
    assert!(e.is_identity());
    assert!(!a.is_identity());
    assert_eq!(e.multiply(&a).elements, vec![5, 6]);
    assert_eq!(a.multiply(&e).elements, vec![5, 6]);
    assert!(e.multiply(&e).is_identity());
}

#[test]
fn edges_from_keeps_edge_order_and_skips_others() {
    let g = Graph::new(3, vec![(1, 0), (0, 2), (2, 2), (0, 1), (0, 2)]);
    let from0: Vec<(usize, usize)> = g.edges_from(0).into_iter().copied().collect();
    assert_eq!(from0, vec![(0, 2), (0, 1), (0, 2)]);
    assert!(g.edges_from(5).is_empty());
}

#[test]
fn empty_graph_has_no_vertices() {
    let g = Graph::empty();
    assert_eq!(g.num_vertices, 0);
    assert!(g.edges.is_empty());
    assert!(g.vertices().is_empty());
    assert!(PathCategory::from_graph(&g).identities().is_empty());
}

#[test]
fn add_edge_appends_and_keeps_vertices() {
    let mut g = Graph::new(4, vec![(3, 2)]);
    g.add_edge(0, 3);
    g.add_edge(0, 3);
    assert_eq!(g.num_vertices, 4);
    assert_eq!(g.edges, vec![(3, 2), (0, 3), (0, 3)]);
}

#[test]
fn path_category_identities_are_in_vertex_order() {
    let cat = PathCategory::from_graph(&Graph::new(3, vec![(0, 1)]));
    let ids = cat.identities();
    for (v, m) in ids.iter().enumerate() {
        assert!(m.is_identity());
        assert_eq!(m.source, v);
    }
}

#[test]
fn counit_names_and_custom_counits() {
    assert_eq!(forgetful_monoid_counit().name, "ForgetfulMonoid Counit ε");
    assert_eq!(forgetful_category_counit().name, "ForgetfulCat Counit ε");
    let eps = Counit::new("reverse", |m: &ListMonoid| {
        ListMonoid::new(m.elements.iter().rev().copied().collect())
    });
    assert_eq!(eps.name, "reverse");
    assert_eq!(eps.apply(&ListMonoid::new(vec![1, 2, 3])).elements, vec![3, 2, 1]);
}
