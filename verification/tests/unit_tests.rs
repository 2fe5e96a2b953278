use adjunction::unit::{
    free_category_unit, free_monoid_unit, free_monoid_unit_string, identity_morphism_at, Morphism,
    Unit,
};

#[test]
fn test_free_monoid_unit_int() {
    let eta = free_monoid_unit();
    assert_eq!(eta.apply(5), vec![5]);
    assert_eq!(eta.apply(0), vec![0]);
    assert_eq!(eta.apply(-1), vec![-1]);
}

#[test]
fn test_free_monoid_unit_string() {
    let eta = free_monoid_unit_string();
    assert_eq!(eta.apply("hello".to_string()), vec!["hello"]);
    assert_eq!(eta.apply("".to_string()), vec![""]);
}

#[test]
fn test_free_category_unit() {
    let eta = free_category_unit();
    let m = eta.apply(0);
    assert!(m.is_identity());
    assert_eq!(m.source, 0);

    let m42 = eta.apply(42);
    assert!(m42.is_identity());
    assert_eq!(m42.source, 42);
}

#[test]
fn test_identity_morphism() {
    let m = Morphism::identity(3);
    assert!(m.is_identity());
    assert_eq!(m.source, 3);
    assert_eq!(m.target, 3);
    assert!(m.path.is_empty());
}

#[test]
fn test_morphism_compose() {
    let f = Morphism { source: 0, target: 1, path: vec![(0, 1)] };
    let g = Morphism { source: 1, target: 2, path: vec![(1, 2)] };
    let fg = f.compose(&g).unwrap();
    assert_eq!(fg.source, 0);
    assert_eq!(fg.target, 2);
    assert_eq!(fg.path, vec![(0, 1), (1, 2)]);
}

#[test]
fn test_morphism_compose_unmatched() {
    let f = Morphism { source: 0, target: 1, path: vec![(0, 1)] };
    let g = Morphism { source: 2, target: 3, path: vec![(2, 3)] };
    assert!(f.compose(&g).is_none());
}

#[test]
fn test_morphism_compose_with_identity() {
    let id = Morphism::identity(1);
    let f = Morphism { source: 0, target: 1, path: vec![(0, 1)] };
    let result = f.compose(&id).unwrap();
    assert_eq!(result.source, 0);
    assert_eq!(result.target, 1);
    assert_eq!(result.path, vec![(0, 1)]);
}

#[test]
fn test_morphism_not_identity() {
    let m = Morphism { source: 0, target: 1, path: vec![(0, 1)] };
    assert!(!m.is_identity());
}

#[test]
fn identity_on_the_left_is_neutral() {
    let id = Morphism::identity(0);
    let f = Morphism { source: 0, target: 2, path: vec![(0, 1), (1, 2)] };
    let result = id.compose(&f).unwrap();
    assert_eq!((result.source, result.target), (0, 2));
    assert_eq!(result.path, f.path);
}

#[test]
fn composition_is_associative_on_values() {
    let f = Morphism { source: 0, target: 1, path: vec![(0, 1)] };
    let g = Morphism { source: 1, target: 2, path: vec![(1, 2)] };
    let h = Morphism { source: 2, target: 0, path: vec![(2, 0)] };
    let left = f.compose(&g).unwrap().compose(&h).unwrap();
    let right = f.compose(&g.compose(&h).unwrap()).unwrap();
    assert_eq!((left.source, left.target), (right.source, right.target));
    assert_eq!(left.path, right.path);
    assert_eq!(left.path, vec![(0, 1), (1, 2), (2, 0)]);
}

#[test]
fn a_loop_with_no_edges_is_an_identity_but_not_with_edges() {
    let m = Morphism { source: 4, target: 4, path: vec![(4, 4)] };
    assert!(!m.is_identity());
    let e = Morphism { source: 4, target: 5, path: vec![] };
    assert!(!e.is_identity());
}

#[test]
fn identity_morphism_at_a_vertex() {
    let m = identity_morphism_at(7);
    assert!(m.is_identity());
    assert_eq!((m.source, m.target), (7, 7));
}

#[test]
fn unit_names_and_custom_units() {
    assert_eq!(free_monoid_unit().name, "FreeMonoid Unit η: S → U(F(S))");
    assert_eq!(free_monoid_unit_string().name, "FreeMonoid Unit η (String)");
    assert_eq!(free_category_unit().name, "FreeCategory Unit η: V → id_v");
    let doubling = Unit::new("double", |x: i32| x * 2);
    assert_eq!(doubling.name, "double");
    assert_eq!(doubling.apply(21), 42);
}
