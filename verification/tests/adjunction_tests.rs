use adjunction::adjunction::{Adjunction, VerificationResult};

#[test]
fn test_identity_adjunction_triangle_identities() {
    let adj = Adjunction::new(
        "Id",
        "Id",
        |x: &i32| *x,
        |y: &i32| *y,
        |x: &i32| *x,
        |y: &i32| *y,
        |a: &i32, b: &i32| a == b,
        |a: &i32, b: &i32| a == b,
    );
    assert!(adj.verify_triangle_identities(&[1, 2, 3, 42, 0, -7], &[10, 20, 99]));
}

#[test]
fn test_verification_result_fields() {
    let adj = Adjunction::new(
        "Id",
        "Id",
        |x: &i32| *x,
        |y: &i32| *y,
        |x: &i32| *x,
        |y: &i32| *y,
        |a: &i32, b: &i32| a == b,
        |a: &i32, b: &i32| a == b,
    );
    let left = adj.verify_triangle_identity_left(&[1, 2]);
    assert_eq!(left.len(), 2);
    assert!(left.iter().all(|&(_, ok)| ok));
}

#[test]
fn test_broken_adjunction_fails() {
    let adj = Adjunction::new(
        "Broken",
        "Broken",
        |x: &i32| x + 1,
        |y: &i32| *y,
        |x: &i32| *x,
        |y: &i32| *y,
        |a: &i32, b: &i32| a == b,
        |a: &i32, b: &i32| a == b,
    );
    assert!(!adj.verify_triangle_identities(&[1, 2], &[]));
}

#[test]
fn test_apply_left_and_right() {
    let adj = Adjunction::new(
        "Wrap",
        "Unwrap",
        |s: &String| s.clone(),
        |v: &Vec<String>| v.clone(),
        |s: &String| vec![s.clone()],
        |v: &Vec<String>| v.first().cloned().unwrap_or_default(),
        |a: &String, b: &String| a == b,
        |a: &Vec<String>, b: &Vec<String>| a == b,
    );
    assert_eq!(adj.apply_left(&"hello".to_string()), vec!["hello"]);
    assert_eq!(adj.apply_right(&vec!["world".to_string()]), "world");
}

#[test]
fn test_adjunction_names() {
    let adj = Adjunction::new(
        "FreeMonoid",
        "ForgetMonoid",
        |_: &()| (),
        |_: &()| (),
        |_: &()| (),
        |_: &()| (),
        |_: &(), _: &()| true,
        |_: &(), _: &()| true,
    );
    assert_eq!(adj.left_adjoint, "FreeMonoid");
    assert_eq!(adj.right_adjoint, "ForgetMonoid");
}

#[test]
fn test_empty_samples_pass() {
    let adj = Adjunction::new(
        "Id",
        "Id",
        |x: &i32| *x,
        |y: &i32| *y,
        |x: &i32| *x,
        |y: &i32| *y,
        |a: &i32, b: &i32| a == b,
        |a: &i32, b: &i32| a == b,
    );
    assert!(adj.verify_triangle_identities(&[], &[]));
}

#[test]
fn test_free_forgetful_vec_adjunction() {
    let adj = Adjunction::new(
        "FreeMonoid",
        "ForgetMonoid",
        |v: &Vec<i32>| v.clone(),
        |v: &Vec<i32>| v.clone(),
        |v: &Vec<i32>| v.clone(),
        |v: &Vec<i32>| v.clone(),
        |a: &Vec<i32>, b: &Vec<i32>| a == b,
        |a: &Vec<i32>, b: &Vec<i32>| a == b,
    );
    assert!(adj.verify_triangle_identities(&[vec![1], vec![2, 3], vec![]], &[vec![4, 5]]));
}

#[test]
fn apply_unit_and_counit_use_the_components() {
    let adj = Adjunction::new(
        "L",
        "R",
        |x: &i32| x * 2,
        |y: &i32| y - 1,
        |x: &i32| x + 100,
        |y: &i32| y - 100,
        |a: &i32, b: &i32| a == b,
        |a: &i32, b: &i32| a == b,
    );
    assert_eq!(adj.apply_unit(&7), 14);
    assert_eq!(adj.apply_counit(&7), 6);
    assert_eq!(adj.apply_left(&1), 101);
    assert_eq!(adj.apply_right(&101), 1);
}

#[test]
fn left_identity_reports_each_sample_by_index() {
    // η(x) = x + 1 breaks the first identity except where eq_b ignores it.
    let adj = Adjunction::new(
        "L",
        "R",
        |x: &i32| x + 1,
        |y: &i32| *y,
        |x: &i32| *x,
        |y: &i32| *y,
        |a: &i32, b: &i32| a == b,
        |a: &i32, b: &i32| (a - b).abs() <= 1 && *b == 5,
    );
    let left = adj.verify_triangle_identity_left(&[3, 5, 9]);
    assert_eq!(left, vec![(0, false), (1, true), (2, false)]);
}

#[test]
fn right_identity_needs_both_comparisons() {
    // G(y) = y, η = id, ε(y) = y + 1: η(G(y)) = G(y) holds, G(ε(y)) = G(y) fails;
    // eq_b accepts everything, so the first identity holds.
    let adj = Adjunction::new(
        "L",
        "R",
        |x: &i32| *x,
        |y: &i32| y + 1,
        |x: &i32| *x,
        |y: &i32| *y,
        |a: &i32, b: &i32| a == b,
        |_: &i32, _: &i32| true,
    );
    assert_eq!(adj.verify_triangle_identity_right(&[0, 4]), vec![(0, false), (1, false)]);
    assert!(adj.verify_triangle_identities(&[1, 2], &[]));
    assert!(!adj.verify_triangle_identities(&[1, 2], &[3]));
}

#[test]
fn right_identity_fails_when_unit_moves_objects() {
    let adj = Adjunction::new(
        "L",
        "R",
        |x: &i32| x + 1,
        |y: &i32| *y,
        |x: &i32| *x,
        |y: &i32| *y,
        |a: &i32, b: &i32| a == b,
        |_: &i32, _: &i32| true,
    );
    assert!(adj.verify_triangle_identities(&[1, 2], &[]));
    assert_eq!(adj.verify_triangle_identity_right(&[8]), vec![(0, false)]);
}

#[test]
fn verification_result_holds_its_fields() {
    let r = VerificationResult {
        left_adjoint: "FreeMonoid".to_string(),
        right_adjoint: "ForgetMonoid".to_string(),
        triangle_1_holds: true,
        triangle_2_holds: false,
        is_valid_adjunction: false,
        src_sample_count: 3,
        tgt_sample_count: 1,
    };
    let copy = r.clone();
    assert_eq!(copy.left_adjoint, "FreeMonoid");
    assert!(copy.triangle_1_holds && !copy.triangle_2_holds);
    assert_eq!(copy.src_sample_count + copy.tgt_sample_count, 4);
}
