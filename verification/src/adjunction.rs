//! The adjunction structure and the check of its triangle identities.
//!
//! An adjunction F ⊣ G between categories C and D consists of a left adjoint
//! F: C → D, a right adjoint G: D → C, a unit η: 1_C → G∘F and a counit
//! ε: F∘G → 1_D, which must satisfy the triangle identities
//!   ε_FX ∘ F(η_X) = id_FX   (for all X in C)
//!   G(ε_Y) ∘ η_GY = id_GY   (for all Y in D)
use std::marker::PhantomData;
use vstd::prelude::*;

verus! {

/// An adjunction between two categories, given by functions on their objects.
///
/// `A` is the type of objects of the source category, `B` of the target one;
/// `eq_a` and `eq_b` decide equality of objects in each.
pub struct Adjunction<A, B, U, C, L, R, EA, EB> {
    /// Name of the left adjoint functor (e.g., "FreeMonoid").
    pub left_adjoint: String,
    /// Name of the right adjoint functor (e.g., "ForgetMonoid").
    pub right_adjoint: String,
    /// Unit η: A → A (via G∘F).
    pub unit: U,
    /// Counit ε: B → B (via F∘G).
    pub counit: C,
    /// Left adjoint: A → B.
    pub left_functor: L,
    /// Right adjoint: B → A.
    pub right_functor: R,
    /// Equality of objects of A.
    pub eq_a: EA,
    /// Equality of objects of B.
    pub eq_b: EB,
    /// Marks the two object types.
    pub objects: PhantomData<(A, B)>,
}

impl<A, B, U, C, L, R, EA, EB> Adjunction<A, B, U, C, L, R, EA, EB> where
    U: Fn(&A) -> A,
    C: Fn(&B) -> B,
    L: Fn(&A) -> B,
    R: Fn(&B) -> A,
    EA: Fn(&A, &A) -> bool,
    EB: Fn(&B, &B) -> bool,
 {
    /// Every call that a run of the first triangle identity on `x` makes is
    /// allowed: η and F on `x`, F on η(x), ε on F(η(x)), and `eq_b` on ε(F(η(x)))
    /// and F(x).
    pub open spec fn left_callable(&self, x: A) -> bool {
        &&& call_requires(self.unit, (&x,))
        &&& call_requires(self.left_functor, (&x,))
        &&& forall|u: A|
            #[trigger] call_ensures(self.unit, (&x,), u) ==> {
                &&& call_requires(self.left_functor, (&u,))
                &&& forall|fu: B|
                    #[trigger] call_ensures(self.left_functor, (&u,), fu) ==> {
                        &&& call_requires(self.counit, (&fu,))
                        &&& forall|e: B, fx: B|
                            #[trigger] call_ensures(self.counit, (&fu,), e) && #[trigger] call_ensures(
                                self.left_functor,
                                (&x,),
                                fx,
                            ) ==> call_requires(self.eq_b, (&e, &fx))
                    }
            }
    }

    /// Every call that a run of the second triangle identity on `y` makes is
    /// allowed: G and ε on `y`, η on G(y), G on ε(y), and `eq_a` on η(G(y)) and
    /// G(y), and on G(ε(y)) and G(y).
    pub open spec fn right_callable(&self, y: B) -> bool {
        &&& call_requires(self.right_functor, (&y,))
        &&& call_requires(self.counit, (&y,))
        &&& forall|gy: A|
            #[trigger] call_ensures(self.right_functor, (&y,), gy) ==> {
                &&& call_requires(self.unit, (&gy,))
                &&& forall|u: A|
                    #[trigger] call_ensures(self.unit, (&gy,), u) ==> call_requires(self.eq_a, (&u, &gy))
                &&& forall|ey: B|
                    #[trigger] call_ensures(self.counit, (&y,), ey) ==> {
                        &&& call_requires(self.right_functor, (&ey,))
                        &&& forall|gey: A|
                            #[trigger] call_ensures(self.right_functor, (&ey,), gey) ==> call_requires(
                                self.eq_a,
                                (&gey, &gy),
                            )
                    }
            }
    }

    /// One run of the first triangle identity on `x` can report `ok`: it
    /// computes F(η(x)), applies ε, and compares the result with F(x) by `eq_b`.
    pub open spec fn left_triangle_run(&self, x: A, ok: bool) -> bool {
        exists|u: A, fu: B, e: B, fx: B|
            #![trigger call_ensures(self.unit, (&x,), u), call_ensures(self.left_functor, (&u,), fu), call_ensures(self.counit, (&fu,), e), call_ensures(self.left_functor, (&x,), fx)]
            call_ensures(self.unit, (&x,), u) && call_ensures(self.left_functor, (&u,), fu)
                && call_ensures(self.counit, (&fu,), e) && call_ensures(self.left_functor, (&x,), fx)
                && call_ensures(self.eq_b, (&e, &fx), ok)
    }

    /// The second comparison of the second triangle identity can report `ok`.
    pub open spec fn right_second_comparison(&self, gey: A, gy: A, ok: bool) -> bool {
        exists|second: bool|
            #[trigger] call_ensures(self.eq_a, (&gey, &gy), second) && ok == second
    }

    /// One run of the second triangle identity on `y` can report `ok`: with
    /// G(y), it compares η(G(y)) with G(y), and, when they are equal, G(ε(y))
    /// with G(y), both by `eq_a`.
    pub open spec fn right_triangle_run(&self, y: B, ok: bool) -> bool {
        exists|gy: A, u: A, ey: B, gey: A, first: bool|
            #![trigger call_ensures(self.right_functor, (&y,), gy), call_ensures(self.unit, (&gy,), u), call_ensures(self.counit, (&y,), ey), call_ensures(self.right_functor, (&ey,), gey), call_ensures(self.eq_a, (&u, &gy), first)]
            call_ensures(self.right_functor, (&y,), gy) && call_ensures(self.unit, (&gy,), u)
                && call_ensures(self.counit, (&y,), ey) && call_ensures(self.right_functor, (&ey,), gey)
                && call_ensures(self.eq_a, (&u, &gy), first) && if first {
                self.right_second_comparison(gey, gy, ok)
            } else {
                !ok
            }
    }

    /// Every run of the first triangle identity on `x` reports success.
    pub open spec fn left_identity_holds(&self, x: A) -> bool {
        forall|ok: bool| #[trigger] self.left_triangle_run(x, ok) ==> ok
    }

    /// Every run of the second triangle identity on `y` reports success.
    pub open spec fn right_identity_holds(&self, y: B) -> bool {
        forall|ok: bool| #[trigger] self.right_triangle_run(y, ok) ==> ok
    }

    /// A check of both identities on `src` and `tgt`, whose runs came out as
    /// `left` and `right`, reports `verdict`: true exactly when every run passed.
    pub open spec fn identities_run(
        &self,
        src: Seq<A>,
        tgt: Seq<B>,
        left: Seq<bool>,
        right: Seq<bool>,
        verdict: bool,
    ) -> bool {
        &&& left.len() == src.len()
        &&& right.len() == tgt.len()
        &&& forall|i: int| 0 <= i < src.len() ==> self.left_triangle_run(src[i], #[trigger] left[i])
        &&& forall|j: int| 0 <= j < tgt.len() ==> self.right_triangle_run(tgt[j], #[trigger] right[j])
        &&& verdict == ((forall|i: int| 0 <= i < left.len() ==> #[trigger] left[i]) && (forall|j: int|
            0 <= j < right.len() ==> #[trigger] right[j]))
    }

    /// With no sample objects the check always passes.
    pub proof fn lemma_empty_samples_pass(&self, left: Seq<bool>, right: Seq<bool>, verdict: bool)
        requires
            self.identities_run(Seq::empty(), Seq::empty(), left, right, verdict),
        ensures
            verdict,
    {
    }

    /// The check reports success exactly as the samples deserve: when every
    /// run of both identities on every sample succeeds, it passes; and when it
    /// passes, each sample had a run that succeeded.
    pub proof fn lemma_verdict_matches_identities(
        &self,
        src: Seq<A>,
        tgt: Seq<B>,
        left: Seq<bool>,
        right: Seq<bool>,
        verdict: bool,
    )
        requires
            self.identities_run(src, tgt, left, right, verdict),
        ensures
            (forall|i: int| 0 <= i < src.len() ==> #[trigger] self.left_identity_holds(src[i]))
                && (forall|j: int| 0 <= j < tgt.len() ==> #[trigger] self.right_identity_holds(tgt[j]))
                ==> verdict,
            verdict ==> forall|i: int| 0 <= i < src.len() ==> #[trigger] self.left_triangle_run(src[i], true),
            verdict ==> forall|j: int| 0 <= j < tgt.len() ==> #[trigger] self.right_triangle_run(tgt[j], true),
    {
        if (forall|i: int| 0 <= i < src.len() ==> #[trigger] self.left_identity_holds(src[i]))
            && (forall|j: int| 0 <= j < tgt.len() ==> #[trigger] self.right_identity_holds(tgt[j])) {
            assert forall|i: int| 0 <= i < left.len() implies #[trigger] left[i] by {
                assert(self.left_identity_holds(src[i]));
                assert(self.left_triangle_run(src[i], left[i]));
            }
            assert forall|j: int| 0 <= j < right.len() implies #[trigger] right[j] by {
                assert(self.right_identity_holds(tgt[j]));
                assert(self.right_triangle_run(tgt[j], right[j]));
            }
        }
        if verdict {
            assert forall|i: int| 0 <= i < src.len() implies #[trigger] self.left_triangle_run(src[i], true) by {
                assert(left[i]);
                assert(self.left_triangle_run(src[i], left[i]));
            }
            assert forall|j: int| 0 <= j < tgt.len() implies #[trigger] self.right_triangle_run(tgt[j], true) by {
                assert(right[j]);
                assert(self.right_triangle_run(tgt[j], right[j]));
            }
        }
    }

    /// Create an adjunction from its names and components.
    pub fn new(
        left_adjoint: &str,
        right_adjoint: &str,
        unit: U,
        counit: C,
        left_functor: L,
        right_functor: R,
        eq_a: EA,
        eq_b: EB,
    ) -> (r: Self)
        ensures
            r.left_adjoint@ == left_adjoint@,
            r.right_adjoint@ == right_adjoint@,
            r.unit == unit,
            r.counit == counit,
            r.left_functor == left_functor,
            r.right_functor == right_functor,
            r.eq_a == eq_a,
            r.eq_b == eq_b,
    {
        Adjunction {
            left_adjoint: left_adjoint.to_string(),
            right_adjoint: right_adjoint.to_string(),
            unit,
            counit,
            left_functor,
            right_functor,
            eq_a,
            eq_b,
            objects: PhantomData,
        }
    }

    /// Apply the left adjoint functor.
    pub fn apply_left(&self, a: &A) -> (r: B)
        requires
            call_requires(self.left_functor, (a,)),
        ensures
            call_ensures(self.left_functor, (a,), r),
    {
        (self.left_functor)(a)
    }

    /// Apply the right adjoint functor.
    pub fn apply_right(&self, b: &B) -> (r: A)
        requires
            call_requires(self.right_functor, (b,)),
        ensures
            call_ensures(self.right_functor, (b,), r),
    {
        (self.right_functor)(b)
    }

    /// Apply the unit η.
    pub fn apply_unit(&self, a: &A) -> (r: A)
        requires
            call_requires(self.unit, (a,)),
        ensures
            call_ensures(self.unit, (a,), r),
    {
        (self.unit)(a)
    }

    /// Apply the counit ε.
    pub fn apply_counit(&self, b: &B) -> (r: B)
        requires
            call_requires(self.counit, (b,)),
        ensures
            call_ensures(self.counit, (b,), r),
    {
        (self.counit)(b)
    }

    /// Check the first triangle identity ε_{F(X)} ∘ F(η_X) = id_{F(X)} on each
    /// object: the pair `(i, ok)` reports the object at index `i`.
    pub fn verify_triangle_identity_left(&self, objects: &[A]) -> (r: Vec<(usize, bool)>)
        requires
            forall|i: int| 0 <= i < objects@.len() ==> #[trigger] self.left_callable(objects@[i]),
        ensures
            r@.len() == objects@.len(),
            forall|i: int|
                0 <= i < r@.len() ==> (#[trigger] r@[i]).0 == i && self.left_triangle_run(
                    objects@[i],
                    r@[i].1,
                ),
    {
        let mut r: Vec<(usize, bool)> = Vec::new();
        let n: usize = objects.len();
        for i in 0..n
            invariant
                n == objects@.len(),
                forall|k: int| 0 <= k < objects@.len() ==> #[trigger] self.left_callable(objects@[k]),
                r@.len() == i,
                forall|k: int|
                    0 <= k < i ==> (#[trigger] r@[k]).0 == k && self.left_triangle_run(
                        objects@[k],
                        r@[k].1,
                    ),
        {
            let x = &objects[i];
            assert(self.left_callable(objects@[i as int]));
            let u = self.apply_unit(x);
            let left_of_unit = self.apply_left(&u);
            let after_counit = self.apply_counit(&left_of_unit);
            let fx = self.apply_left(x);
            let ok = (self.eq_b)(&after_counit, &fx);
            assert(self.left_triangle_run(objects@[i as int], ok));
            r.push((i, ok));
        }
        r
    }

    /// Check the second triangle identity G(ε_Y) ∘ η_{G(Y)} = id_{G(Y)} on each
    /// object: the pair `(i, ok)` reports the object at index `i`.
    pub fn verify_triangle_identity_right(&self, objects: &[B]) -> (r: Vec<(usize, bool)>)
        requires
            forall|i: int| 0 <= i < objects@.len() ==> #[trigger] self.right_callable(objects@[i]),
        ensures
            r@.len() == objects@.len(),
            forall|i: int|
                0 <= i < r@.len() ==> (#[trigger] r@[i]).0 == i && self.right_triangle_run(
                    objects@[i],
                    r@[i].1,
                ),
    {
        let mut r: Vec<(usize, bool)> = Vec::new();
        let n: usize = objects.len();
        for i in 0..n
            invariant
                n == objects@.len(),
                forall|k: int| 0 <= k < objects@.len() ==> #[trigger] self.right_callable(objects@[k]),
                r@.len() == i,
                forall|k: int|
                    0 <= k < i ==> (#[trigger] r@[k]).0 == k && self.right_triangle_run(
                        objects@[k],
                        r@[k].1,
                    ),
        {
            let y = &objects[i];
            assert(self.right_callable(objects@[i as int]));
            let gy = self.apply_right(y);
            let unit_of_right = self.apply_unit(&gy);
            let counit_y = self.apply_counit(y);
            let right_of_counit = self.apply_right(&counit_y);
            let first = (self.eq_a)(&unit_of_right, &gy);
            let ok = if first {
                let second = (self.eq_a)(&right_of_counit, &gy);
                assert(self.right_second_comparison(right_of_counit, gy, second));
                second
            } else {
                false
            };
            assert(self.right_triangle_run(objects@[i as int], ok));
            r.push((i, ok));
        }
        r
    }

    /// Check both triangle identities over the given sample objects.
    pub fn verify_triangle_identities(&self, src_objects: &[A], tgt_objects: &[B]) -> (r: bool)
        requires
            forall|i: int| 0 <= i < src_objects@.len() ==> #[trigger] self.left_callable(src_objects@[i]),
            forall|j: int| 0 <= j < tgt_objects@.len() ==> #[trigger] self.right_callable(tgt_objects@[j]),
        ensures
            exists|left: Seq<bool>, right: Seq<bool>|
                self.identities_run(src_objects@, tgt_objects@, left, right, r),
    {
        let left = self.verify_triangle_identity_left(src_objects);
        let right = self.verify_triangle_identity_right(tgt_objects);
        let ghost left_oks = left@.map_values(|p: (usize, bool)| p.1);
        let ghost right_oks = right@.map_values(|p: (usize, bool)| p.1);
        let mut left_ok = true;
        let nl: usize = left.len();
        for i in 0..nl
            invariant
                nl == left@.len(),
                left_oks == left@.map_values(|p: (usize, bool)| p.1),
                left_ok == (forall|k: int| 0 <= k < i ==> #[trigger] left_oks[k]),
        {
            let (_, ok) = left[i];
            assert(left_oks[i as int] == ok);
            if !ok {
                left_ok = false;
            }
        }
        let mut right_ok = true;
        let nr: usize = right.len();
        for j in 0..nr
            invariant
                nr == right@.len(),
                right_oks == right@.map_values(|p: (usize, bool)| p.1),
                right_ok == (forall|k: int| 0 <= k < j ==> #[trigger] right_oks[k]),
        {
            let (_, ok) = right[j];
            assert(right_oks[j as int] == ok);
            if !ok {
                right_ok = false;
            }
        }
        let r = left_ok && right_ok;
        assert forall|i: int| 0 <= i < src_objects@.len() implies self.left_triangle_run(
            src_objects@[i],
            #[trigger] left_oks[i],
        ) by {
            assert(left@[i].0 == i);
        }
        assert forall|j: int| 0 <= j < tgt_objects@.len() implies self.right_triangle_run(
            tgt_objects@[j],
            #[trigger] right_oks[j],
        ) by {
            assert(right@[j].0 == j);
        }
        assert(self.identities_run(src_objects@, tgt_objects@, left_oks, right_oks, r));
        r
    }
}

/// The result of checking an adjunction over sample objects.
#[derive(Debug, Clone)]
pub struct VerificationResult {
    /// Name of the left adjoint.
    pub left_adjoint: String,
    /// Name of the right adjoint.
    pub right_adjoint: String,
    /// Whether the first triangle identity holds for all samples.
    pub triangle_1_holds: bool,
    /// Whether the second triangle identity holds for all samples.
    pub triangle_2_holds: bool,
    /// Overall pass/fail.
    pub is_valid_adjunction: bool,
    /// Number of source objects tested.
    pub src_sample_count: usize,
    /// Number of target objects tested.
    pub tgt_sample_count: usize,
}

} // verus!
