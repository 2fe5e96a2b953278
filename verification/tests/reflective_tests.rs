use adjunction::reflective::{Abelianization, GroupPresentation};

fn words(ws: &[&str]) -> Vec<String> {
    ws.iter().map(|w| w.to_string()).collect()
}

#[test]
fn test_free_group_abelianization() {
    let g = GroupPresentation::free(vec!["a".into(), "b".into()]);
    let ab = Abelianization::abelianize(&g);
    assert!(ab.verify_abelian());
    assert_eq!(ab.commutator_relations.len(), 1);
}

#[test]
fn test_already_abelian() {
    let g = GroupPresentation::new(
        vec!["a".into(), "b".into()],
        vec![(vec!["a".into(), "b".into()], vec!["b".into(), "a".into()])],
    );
    assert!(g.is_abelian());
    let ab = Abelianization::abelianize(&g);
    assert!(ab.verify_abelian());
}

#[test]
fn test_cyclic_group_is_abelian() {
    let g = GroupPresentation::cyclic(5);
    assert!(g.is_abelian());
}

#[test]
fn test_dihedral_not_abelian() {
    let g = GroupPresentation::dihedral(3);
    assert!(!g.is_abelian());
}

#[test]
fn test_dihedral_abelianization() {
    let g = GroupPresentation::dihedral(3);
    let ab = Abelianization::abelianize(&g);
    assert!(ab.verify_abelian());
}

#[test]
fn test_reflective_verification_free() {
    let g = GroupPresentation::free(vec!["a".into(), "b".into(), "c".into()]);
    let ab = Abelianization::abelianize(&g);
    let result = ab.verify_reflective();
    assert!(result.is_reflective);
    assert!(result.is_abelian);
}

#[test]
fn test_reflective_verification_dihedral() {
    let g = GroupPresentation::dihedral(4);
    let ab = Abelianization::abelianize(&g);
    let result = ab.verify_reflective();
    assert!(result.is_reflective);
    assert!(result.is_abelian);
}

#[test]
fn test_group_presentation_cyclic() {
    let g = GroupPresentation::cyclic(3);
    assert_eq!(g.num_generators(), 1);
    assert_eq!(g.num_relations(), 1);
}

#[test]
fn test_trivial_group() {
    let g = GroupPresentation::new(vec![], vec![]);
    assert!(g.is_abelian());
    let ab = Abelianization::abelianize(&g);
    assert!(ab.verify_abelian());
}

#[test]
fn test_single_generator() {
    let g = GroupPresentation::free(vec!["a".into()]);
    assert!(g.is_abelian());
}

#[test]
fn test_commutator_relations_count() {
    let g = GroupPresentation::free(vec!["a".into(), "b".into(), "c".into(), "d".into()]);
    let ab = Abelianization::abelianize(&g);
    assert_eq!(ab.commutator_relations.len(), 6);
}

#[test]
fn commutation_stated_the_other_way_counts() {
    let g = GroupPresentation::new(words(&["a", "b"]), vec![(words(&["b", "a"]), words(&["a", "b"]))]);
    assert!(g.is_abelian());
}

#[test]
fn a_missing_pair_makes_the_group_non_abelian() {
    let g = GroupPresentation::new(
        words(&["a", "b", "c"]),
        vec![(words(&["a", "b"]), words(&["b", "a"])), (words(&["b", "c"]), words(&["c", "b"]))],
    );
    assert!(!g.is_abelian());
}

#[test]
fn cyclic_and_dihedral_relations() {
    let c = GroupPresentation::cyclic(3);
    assert_eq!(c.generators, words(&["a"]));
    assert_eq!(c.relations, vec![(words(&["a", "a", "a"]), vec![])]);
    let c0 = GroupPresentation::cyclic(0);
    assert_eq!(c0.relations, vec![(vec![], vec![])]);
    let d = GroupPresentation::dihedral(2);
    assert_eq!(d.generators, words(&["r", "s"]));
    assert_eq!(
        d.relations,
        vec![
            (words(&["r", "r"]), vec![]),
            (words(&["s", "s"]), vec![]),
            (words(&["s", "r", "s", "r"]), vec![]),
        ]
    );
    assert_eq!(d.num_generators(), 2);
    assert_eq!(d.num_relations(), 3);
}

#[test]
fn abelianize_appends_commutators_in_pair_order() {
    let g = GroupPresentation::new(words(&["a", "b", "c"]), vec![(words(&["a"]), vec![])]);
    let ab = Abelianization::abelianize(&g);
    let expected = vec![
        (words(&["a", "b"]), words(&["b", "a"])),
        (words(&["a", "c"]), words(&["c", "a"])),
        (words(&["b", "c"]), words(&["c", "b"])),
    ];
    assert_eq!(ab.commutator_relations, expected);
    assert_eq!(ab.abelianized.generators, g.generators);
    let mut all = g.relations.clone();
    all.extend(expected);
    assert_eq!(ab.abelianized.relations, all);
    assert_eq!(ab.original.relations, g.relations);
}

#[test]
fn reflective_report_names_the_group() {
    let g = GroupPresentation::free(words(&["a", "b", "c"]));
    let result = Abelianization::abelianize(&g).verify_reflective();
    assert_eq!(result.group_name, "<a,b,c | 0 relations>");
    assert!(result.unit_exists);
    assert!(result.counit_is_iso);
    let d = Abelianization::abelianize(&GroupPresentation::dihedral(4)).verify_reflective();
    assert_eq!(d.group_name, "<r,s | 3 relations>");
    let t = Abelianization::abelianize(&GroupPresentation::new(vec![], vec![])).verify_reflective();
    assert_eq!(t.group_name, "< | 0 relations>");
}

#[test]
fn already_abelian_group_keeps_counit_iso() {
    let g = GroupPresentation::new(words(&["a", "b"]), vec![(words(&["a", "b"]), words(&["b", "a"]))]);
    let result = Abelianization::abelianize(&g).verify_reflective();
    assert!(result.counit_is_iso);
    assert!(result.is_reflective);
    assert_eq!(result.group_name, "<a,b | 1 relations>");
}

#[test]
fn hand_made_abelianization_that_is_not_abelian() {
    let g = GroupPresentation::free(words(&["a", "b"]));
    let fake = Abelianization {
        original: g.clone(),
        abelianized: g.clone(),
        commutator_relations: vec![],
    };
    assert!(!fake.verify_abelian());
    let result = fake.verify_reflective();
    assert!(!result.is_abelian);
    assert!(!result.is_reflective);
}

#[test]
fn a_trivial_generator_commutes_with_every_other() {
    let g = GroupPresentation::new(words(&["a", "b"]), vec![(words(&["a"]), vec![])]);
    assert!(g.is_abelian());
    let g = GroupPresentation::new(words(&["a", "b", "c"]), vec![(vec![], words(&["b"]))]);
    assert!(!g.is_abelian());
}

#[test]
fn identified_generators_commute() {
    let g = GroupPresentation::new(words(&["a", "b"]), vec![(words(&["a"]), words(&["b"]))]);
    assert!(g.is_abelian());
    let g = GroupPresentation::new(words(&["a", "b"]), vec![(words(&["b"]), words(&["a"]))]);
    assert!(g.is_abelian());
}

#[test]
fn repeated_generator_names_commute() {
    assert!(GroupPresentation::free(words(&["a", "a"])).is_abelian());
    assert!(!GroupPresentation::free(words(&["a", "a", "b"])).is_abelian());
}

#[test]
fn dihedral_groups_by_order() {
    assert!(GroupPresentation::dihedral(1).is_abelian());
    assert!(!GroupPresentation::dihedral(0).is_abelian());
    assert!(!GroupPresentation::dihedral(3).is_abelian());
    assert!(!GroupPresentation::dihedral(4).is_abelian());
    assert!(!GroupPresentation::dihedral(5).is_abelian());
}

#[test]
fn relation_count_is_written_in_decimal() {
    let rels: Vec<(Vec<String>, Vec<String>)> = (0..12).map(|_| (words(&["a"]), vec![])).collect();
    let g = GroupPresentation::new(words(&["a"]), rels);
    let result = Abelianization::abelianize(&g).verify_reflective();
    assert_eq!(result.group_name, "<a | 12 relations>");
    let rels: Vec<(Vec<String>, Vec<String>)> = (0..105).map(|_| (vec![], vec![])).collect();
    let g = GroupPresentation::new(vec![], rels);
    assert_eq!(Abelianization::abelianize(&g).verify_reflective().group_name, "< | 105 relations>");
}
