//! Free functors: the free monoid on a set and the free category on a graph.
//!
//! - **FreeMonoid**: Set → Monoid (elements → lists under concatenation)
//! - **FreeCategory**: Graph → Category (edges → paths under composition)
use vstd::prelude::*;
use crate::decimal::{append_i32, int_text};
use crate::vecs::same_ints;
use crate::counit::{
    identities_up_to, identities_view, leaves, monoids_view, outgoing, Edge, Graph, GraphView, ListMonoid,
    PathCategory,
};
use crate::unit::{identity_view, morphisms_view, option_view, same_edges, Morphism, MorphismView};

verus! {

/// The values of a sequence of lists.
pub open spec fn lists_view(s: Seq<Vec<i32>>) -> Seq<Seq<i32>> {
    s.map_values(|w: Vec<i32>| w@)
}

/// Every prefix extended by every generator: for each prefix in order, the
/// prefix followed by the first generator, then by the second, and so on.
pub open spec fn extend_all(prefixes: Seq<Seq<i32>>, gens: Seq<i32>) -> Seq<Seq<i32>>
    decreases prefixes.len(),
{
    if prefixes.len() == 0 {
        Seq::empty()
    } else {
        extend_all(prefixes.drop_last(), gens) + gens.map_values(|g: i32| prefixes.last().push(g))
    }
}

/// The words of exactly `len` letters over `gens`: the empty word for length 0,
/// and each word of length `len - 1` extended by each generator otherwise.
pub open spec fn words_of_length(gens: Seq<i32>, len: nat) -> Seq<Seq<i32>>
    decreases len,
{
    if len == 0 {
        seq![Seq::empty()]
    } else {
        extend_all(words_of_length(gens, (len - 1) as nat), gens)
    }
}

/// The words of at most `max_len` letters over `gens`, shortest first.
pub open spec fn words_up_to(gens: Seq<i32>, max_len: nat) -> Seq<Seq<i32>>
    decreases max_len,
{
    if max_len == 0 {
        words_of_length(gens, 0)
    } else {
        words_up_to(gens, (max_len - 1) as nat) + words_of_length(gens, max_len)
    }
}

proof fn lemma_extend_all_step(prefixes: Seq<Seq<i32>>, gens: Seq<i32>, p: int)
    requires
        0 <= p < prefixes.len(),
    ensures
        extend_all(prefixes.take(p + 1), gens) == extend_all(prefixes.take(p), gens)
            + gens.map_values(|g: i32| prefixes[p].push(g)),
{
    assert(prefixes.take(p + 1).drop_last() =~= prefixes.take(p));
    assert(prefixes.take(p + 1).last() == prefixes[p]);
}

/// `w` is made of generators of `gens` only.
pub open spec fn over_generators(gens: Seq<i32>, w: Seq<i32>) -> bool {
    forall|i: int| 0 <= i < w.len() ==> gens.contains(#[trigger] w[i])
}

/// A word is in `extend_all(prefixes, gens)` exactly when it is a prefix
/// followed by a generator.
proof fn lemma_extend_all_contains(prefixes: Seq<Seq<i32>>, gens: Seq<i32>, w: Seq<i32>)
    ensures
        extend_all(prefixes, gens).contains(w) <==> exists|p: Seq<i32>, g: i32|
            prefixes.contains(p) && gens.contains(g) && w == #[trigger] p.push(g),
    decreases prefixes.len(),
{
    if prefixes.len() > 0 {
        let rest = prefixes.drop_last();
        let last = prefixes.last();
        let front = extend_all(rest, gens);
        let back = gens.map_values(|g: i32| last.push(g));
        let all = extend_all(prefixes, gens);
        assert(all == front + back);
        lemma_extend_all_contains(rest, gens, w);
        if all.contains(w) {
            let k = choose|k: int| 0 <= k < all.len() && all[k] == w;
            if k < front.len() {
                assert(front[k] == w);
                assert(front.contains(w));
                let (p, g) = choose|p: Seq<i32>, g: i32|
                    rest.contains(p) && gens.contains(g) && w == #[trigger] p.push(g);
                let ip = choose|ip: int| 0 <= ip < rest.len() && rest[ip] == p;
                assert(prefixes[ip] == p);
                assert(prefixes.contains(p));
            } else {
                let j = k - front.len();
                assert(w == last.push(gens[j]));
                assert(prefixes[prefixes.len() - 1] == last);
                assert(prefixes.contains(last));
                assert(gens.contains(gens[j]));
            }
        }
        if exists|p: Seq<i32>, g: i32| prefixes.contains(p) && gens.contains(g) && w == #[trigger] p.push(g) {
            let (p, g) = choose|p: Seq<i32>, g: i32|
                prefixes.contains(p) && gens.contains(g) && w == #[trigger] p.push(g);
            let ip = choose|ip: int| 0 <= ip < prefixes.len() && prefixes[ip] == p;
            let j = choose|j: int| 0 <= j < gens.len() && gens[j] == g;
            if ip == prefixes.len() - 1 {
                assert(all[front.len() + j] == w);
                assert(all.contains(w));
            } else {
                assert(rest[ip] == p);
                assert(rest.contains(p));
                assert(front.contains(w));
                let k = choose|k: int| 0 <= k < front.len() && front[k] == w;
                assert(all[k] == w);
                assert(all.contains(w));
            }
        }
    }
}

/// The words of length `len` are exactly the words of `len` generators.
pub proof fn lemma_words_of_length_contains(gens: Seq<i32>, len: nat, w: Seq<i32>)
    ensures
        words_of_length(gens, len).contains(w) <==> (w.len() == len && over_generators(gens, w)),
    decreases len,
{
    if len == 0 {
        if w.len() == 0 {
            assert(w =~= Seq::<i32>::empty());
            assert(words_of_length(gens, 0)[0] == w);
        }
        if words_of_length(gens, 0).contains(w) {
            let k = choose|k: int| 0 <= k < 1 && words_of_length(gens, 0)[k] == w;
            assert(w == Seq::<i32>::empty());
        }
    } else {
        let shorter = words_of_length(gens, (len - 1) as nat);
        lemma_extend_all_contains(shorter, gens, w);
        if words_of_length(gens, len).contains(w) {
            let (p, g) = choose|p: Seq<i32>, g: i32|
                shorter.contains(p) && gens.contains(g) && w == #[trigger] p.push(g);
            lemma_words_of_length_contains(gens, (len - 1) as nat, p);
            assert forall|i: int| 0 <= i < w.len() implies gens.contains(#[trigger] w[i]) by {
                if i < p.len() {
                    assert(w[i] == p[i]);
                }
            }
        }
        if w.len() == len && over_generators(gens, w) {
            let p = w.drop_last();
            let g = w.last();
            lemma_words_of_length_contains(gens, (len - 1) as nat, p);
            assert forall|i: int| 0 <= i < p.len() implies gens.contains(#[trigger] p[i]) by {
                assert(p[i] == w[i]);
            }
            assert(gens.contains(w[w.len() - 1]));
            assert(w == p.push(g));
        }
    }
}

/// The words of at most `max_len` letters are exactly the words of at most
/// `max_len` generators.
pub proof fn lemma_words_up_to_contains(gens: Seq<i32>, max_len: nat, w: Seq<i32>)
    ensures
        words_up_to(gens, max_len).contains(w) <==> (w.len() <= max_len && over_generators(gens, w)),
    decreases max_len,
{
    lemma_words_of_length_contains(gens, max_len, w);
    if max_len > 0 {
        let shorter = words_up_to(gens, (max_len - 1) as nat);
        let exact = words_of_length(gens, max_len);
        lemma_words_up_to_contains(gens, (max_len - 1) as nat, w);
        let all = words_up_to(gens, max_len);
        assert(all == shorter + exact);
        if all.contains(w) {
            let k = choose|k: int| 0 <= k < all.len() && all[k] == w;
            if k < shorter.len() {
                assert(shorter[k] == w);
            } else {
                assert(exact[k - shorter.len()] == w);
            }
        }
        if w.len() <= max_len && over_generators(gens, w) {
            if w.len() < max_len {
                let k = choose|k: int| 0 <= k < shorter.len() && shorter[k] == w;
                assert(all[k] == w);
            } else {
                let k = choose|k: int| 0 <= k < exact.len() && exact[k] == w;
                assert(all[shorter.len() + k] == w);
            }
        }
    }
}

/// `extend_all` makes one word for each prefix and each generator.
proof fn lemma_extend_all_len(prefixes: Seq<Seq<i32>>, gens: Seq<i32>)
    ensures
        extend_all(prefixes, gens).len() == prefixes.len() * gens.len(),
    decreases prefixes.len(),
{
    if prefixes.len() > 0 {
        lemma_extend_all_len(prefixes.drop_last(), gens);
        let a = (prefixes.len() - 1) as int;
        let n = gens.len() as int;
        assert(a * n + n == (a + 1) * n) by (nonlinear_arith);
    } else {
        assert(0 * gens.len() == 0) by (nonlinear_arith);
    }
}

/// There are `nᵏ` words of `k` letters over `n` generators.
pub proof fn lemma_words_of_length_count(gens: Seq<i32>, len: nat)
    ensures
        words_of_length(gens, len).len() == vstd::arithmetic::power::pow(gens.len() as int, len),
    decreases len,
{
    reveal(vstd::arithmetic::power::pow);
    if len > 0 {
        lemma_words_of_length_count(gens, (len - 1) as nat);
        lemma_extend_all_len(words_of_length(gens, (len - 1) as nat), gens);
        let p = vstd::arithmetic::power::pow(gens.len() as int, (len - 1) as nat);
        assert(p * gens.len() == gens.len() * p) by (nonlinear_arith);
    }
}

/// Result of checking a universal property.
#[derive(Debug, Clone)]
pub struct UniversalPropertyResult {
    /// Name of the functor that was checked.
    pub functor_name: String,
    /// Whether every check passed.
    pub passed: bool,
    /// A message for each check that failed, in the order of the checks.
    pub failures: Vec<String>,
}

/// The pairs of generators in the order the homomorphism check visits them:
/// the first generator paired with every generator, then the second, and so on.
pub open spec fn generator_pairs(gens: Seq<i32>) -> Seq<(i32, i32)> {
    pairs_up_to(gens, gens.len())
}

/// The generator `gens[i]` paired with every generator, in order.
pub open spec fn pair_row(gens: Seq<i32>, i: int) -> Seq<(i32, i32)> {
    gens.map_values(|g2: i32| (gens[i], g2))
}

/// The rows of pairs for the first `i` generators.
pub open spec fn pairs_up_to(gens: Seq<i32>, i: nat) -> Seq<(i32, i32)>
    decreases i,
{
    if i == 0 {
        Seq::empty()
    } else {
        pairs_up_to(gens, (i - 1) as nat) + pair_row(gens, i - 1)
    }
}

/// One run of the homomorphism check on `(g1, g2)` can come out as `differs`:
/// `f(g1)·f(g2)` is compared with the extension of `f` to the word `[g1, g2]`,
/// which applies `f` to `g1` and to `g2` once more.
pub open spec fn homomorphism_check<F: Fn(i32) -> ListMonoid>(
    f: F,
    g1: i32,
    g2: i32,
    differs: bool,
) -> bool {
    exists|a: ListMonoid, b: ListMonoid, c: ListMonoid, d: ListMonoid|
        #![trigger call_ensures(f, (g1,), a), call_ensures(f, (g2,), b), call_ensures(f, (g1,), c), call_ensures(f, (g2,), d)]
        call_ensures(f, (g1,), a) && call_ensures(f, (g2,), b) && call_ensures(f, (g1,), c)
            && call_ensures(f, (g2,), d) && differs == (a@ + b@ != c@ + d@)
}

/// The failure message for the pair `(g1, g2)`, with each generator written
/// in decimal.
pub open spec fn failure_message(g1: i32, g2: i32) -> Seq<char> {
    "Homomorphism property fails for generators "@ + int_text(g1 as int) + " and "@ + int_text(
        g2 as int,
    )
}

/// `messages` holds one failure message for each pair whose outcome is a
/// failure, in the order of the pairs.
pub open spec fn reports(pairs: Seq<(i32, i32)>, outcomes: Seq<bool>, messages: Seq<Seq<char>>) -> bool
    decreases pairs.len(),
{
    if pairs.len() == 0 {
        messages.len() == 0
    } else if outcomes.last() {
        &&& messages.len() > 0
        &&& messages.last() == failure_message(pairs.last().0, pairs.last().1)
        &&& reports(pairs.drop_last(), outcomes.drop_last(), messages.drop_last())
    } else {
        reports(pairs.drop_last(), outcomes.drop_last(), messages)
    }
}

/// A run of the free monoid check with `f` on `gens`, whose pair checks came
/// out as `outcomes`, reports `passed` and `messages`.
pub open spec fn monoid_check_run<F: Fn(i32) -> ListMonoid>(
    f: F,
    gens: Seq<i32>,
    outcomes: Seq<bool>,
    passed: bool,
    messages: Seq<Seq<char>>,
) -> bool {
    let pairs = generator_pairs(gens);
    &&& outcomes.len() == pairs.len()
    &&& forall|k: int|
        0 <= k < pairs.len() ==> homomorphism_check(f, pairs[k].0, pairs[k].1, #[trigger] outcomes[k])
    &&& reports(pairs, outcomes, messages)
    &&& passed == (forall|k: int| 0 <= k < outcomes.len() ==> !outcomes[k])
}

/// `f` gives the same list on every call with a generator of `gens`.
pub open spec fn deterministic_on<F: Fn(i32) -> ListMonoid>(f: F, gens: Seq<i32>) -> bool {
    forall|x: i32, a: ListMonoid, b: ListMonoid|
        gens.contains(x) && call_ensures(f, (x,), a) && call_ensures(f, (x,), b) ==> a@ == b@
}

/// The failure message for the pair `(g1, g2)`.
fn homomorphism_failure(g1: i32, g2: i32) -> (r: String)
    ensures
        r@ == failure_message(g1, g2),
{
    let mut text = String::from_str("Homomorphism property fails for generators ");
    append_i32(&mut text, g1);
    text.append(" and ");
    append_i32(&mut text, g2);
    text
}

/// The free monoid functor: Set → Monoid.
///
/// The free monoid on the generators consists of all finite words over them,
/// multiplied by concatenation.
#[derive(Debug, Clone)]
pub struct FreeMonoid {
    /// The generating set.
    pub generators: Vec<i32>,
}

impl FreeMonoid {
    /// Build the free monoid on a generating set.
    pub fn build(generators: Vec<i32>) -> (r: FreeMonoid)
        ensures
            r.generators@ == generators@,
    {
        FreeMonoid { generators }
    }

    /// Every prefix of `prefixes` extended by every generator, in order.
    fn extend_words(&self, prefixes: &Vec<Vec<i32>>) -> (r: Vec<Vec<i32>>)
        ensures
            lists_view(r@) == extend_all(lists_view(prefixes@), self.generators@),
    {
        let ghost gens = self.generators@;
        let ghost pre = lists_view(prefixes@);
        let mut next: Vec<Vec<i32>> = Vec::new();
        let np: usize = prefixes.len();
        let ng: usize = self.generators.len();
        for p in 0..np
            invariant
                np == prefixes@.len(),
                ng == gens.len(),
                gens == self.generators@,
                pre == lists_view(prefixes@),
                lists_view(next@) == extend_all(pre.take(p as int), gens),
        {
            let ghost base = lists_view(next@);
            let prefix = &prefixes[p];
            for j in 0..ng
                invariant
                    ng == gens.len(),
                    gens == self.generators@,
                    p < np,
                    np == prefixes@.len(),
                    pre == lists_view(prefixes@),
                    *prefix == prefixes@[p as int],
                    lists_view(next@) == base + gens.take(j as int).map_values(
                        |g: i32| pre[p as int].push(g),
                    ),
            {
                let ghost before = next@;
                let mut word = crate::vecs::copy_vec(prefix);
                word.push(self.generators[j]);
                next.push(word);
                assert(lists_view(next@) =~= lists_view(before).push(word@));
                assert(gens.take(j + 1).map_values(|g: i32| pre[p as int].push(g))
                    =~= gens.take(j as int).map_values(|g: i32| pre[p as int].push(g)).push(
                    pre[p as int].push(gens[j as int]),
                ));
            }
            assert(gens.take(ng as int) == gens);
            proof {
                lemma_extend_all_step(pre, gens, p as int);
            }
        }
        assert(pre.take(np as int) == pre);
        next
    }

    /// All words over the generators with at most `max_len` letters, shortest
    /// first (the full free monoid is infinite, so it is truncated).
    pub fn words(&self, max_len: usize) -> (r: Vec<ListMonoid>)
        ensures
            monoids_view(r@) == words_up_to(self.generators@, max_len as nat),
    {
        let ghost gens = self.generators@;
        let mut result: Vec<ListMonoid> = Vec::new();
        result.push(ListMonoid::identity());
        assert(monoids_view(result@) =~= words_up_to(gens, 0));
        if max_len == 0 {
            return result;
        }
        for k in 0..max_len
            invariant
                gens == self.generators@,
                monoids_view(result@) == words_up_to(gens, k as nat),
        {
            let len: usize = k + 1;
            let mut current: Vec<Vec<i32>> = Vec::new();
            current.push(Vec::new());
            assert(lists_view(current@) =~= words_of_length(gens, 0));
            for step in 0..len
                invariant
                    gens == self.generators@,
                    lists_view(current@) == words_of_length(gens, step as nat),
            {
                current = self.extend_words(&current);
            }
            let nc: usize = current.len();
            for w in 0..nc
                invariant
                    nc == current@.len(),
                    monoids_view(result@) == words_up_to(gens, k as nat) + lists_view(
                        current@,
                    ).take(w as int),
            {
                let ghost before = result@;
                result.push(ListMonoid::new(crate::vecs::copy_vec(&current[w])));
                assert(monoids_view(result@) =~= monoids_view(before).push(current@[w as int]@));
                assert(lists_view(current@).take(w + 1) =~= lists_view(current@).take(
                    w as int,
                ).push(current@[w as int]@));
            }
            assert(lists_view(current@).take(nc as int) =~= lists_view(current@));
        }
        result
    }

    /// Check the universal property of the free monoid for `target_map`.
    ///
    /// The extension of `target_map` to words must be a monoid homomorphism:
    /// for every pair of generators `(g1, g2)`, `f(g1)·f(g2)` must equal the
    /// extension applied to the word `[g1, g2]`. A map that gives the same
    /// list each time it is called on a generator always passes.
    pub fn universal_property<F: Fn(i32) -> ListMonoid>(&self, target_map: F) -> (r: UniversalPropertyResult)
        requires
            forall|x: i32| self.generators@.contains(x) ==> call_requires(target_map, (x,)),
        ensures
            r.functor_name@ == "FreeMonoid"@,
            exists|outcomes: Seq<bool>|
                monoid_check_run(target_map, self.generators@, outcomes, r.passed, r.failures.deep_view()),
            deterministic_on(target_map, self.generators@) ==> r.passed && r.failures@.len() == 0,
    {
        let ghost gens = self.generators@;
        let mut passed = true;
        let mut failures: Vec<String> = Vec::new();

        let hat_empty = ListMonoid::identity();
        if !hat_empty.is_identity() {
            passed = false;
            failures.push("Extension of empty word is not identity".to_string());
        }

        let ghost mut outcomes: Seq<bool> = Seq::empty();
        let n: usize = self.generators.len();
        assert(pairs_up_to(gens, 0) =~= Seq::<(i32, i32)>::empty());
        for i in 0..n
            invariant
                n == gens.len(),
                gens == self.generators@,
                forall|x: i32| gens.contains(x) ==> call_requires(target_map, (x,)),
                outcomes.len() == pairs_up_to(gens, i as nat).len(),
                forall|k: int|
                    0 <= k < outcomes.len() ==> homomorphism_check(
                        target_map,
                        pairs_up_to(gens, i as nat)[k].0,
                        pairs_up_to(gens, i as nat)[k].1,
                        #[trigger] outcomes[k],
                    ),
                reports(pairs_up_to(gens, i as nat), outcomes, failures.deep_view()),
                passed == (forall|k: int| 0 <= k < outcomes.len() ==> !outcomes[k]),
                deterministic_on(target_map, gens) ==> passed && failures@.len() == 0,
        {
            let g1 = self.generators[i];
            let ghost done = pairs_up_to(gens, i as nat);
            for j in 0..n
                invariant
                    n == gens.len(),
                    gens == self.generators@,
                    i < n,
                    g1 == gens[i as int],
                    done == pairs_up_to(gens, i as nat),
                    forall|x: i32| gens.contains(x) ==> call_requires(target_map, (x,)),
                    outcomes.len() == done.len() + j,
                    forall|k: int|
                        0 <= k < outcomes.len() ==> homomorphism_check(
                            target_map,
                            (done + pair_row(gens, i as int).take(j as int))[k].0,
                            (done + pair_row(gens, i as int).take(j as int))[k].1,
                            #[trigger] outcomes[k],
                        ),
                    reports(done + pair_row(gens, i as int).take(j as int), outcomes, failures.deep_view()),
                    passed == (forall|k: int| 0 <= k < outcomes.len() ==> !outcomes[k]),
                    deterministic_on(target_map, gens) ==> passed && failures@.len() == 0,
            {
                let g2 = self.generators[j];
                assert(gens.contains(g1) && gens.contains(g2)) by {
                    assert(gens[i as int] == g1);
                    assert(gens[j as int] == g2);
                }
                let ghost seen = done + pair_row(gens, i as int).take(j as int);
                let ghost old_messages = failures.deep_view();
                let ghost old_outcomes = outcomes;

                let m1 = target_map(g1);
                let m2 = target_map(g2);
                let f_hat_g1_g2 = m1.multiply(&m2);

                let m3 = target_map(g1);
                let acc = ListMonoid::identity().multiply(&m3);
                let m4 = target_map(g2);
                let f_hat_concat = acc.multiply(&m4);

                let differs = !same_ints(&f_hat_g1_g2.elements, &f_hat_concat.elements);
                assert(Seq::<i32>::empty() + m3@ =~= m3@);
                assert(homomorphism_check(target_map, g1, g2, differs));
                proof {
                    outcomes = outcomes.push(differs);
                }
                if differs {
                    passed = false;
                    failures.push(homomorphism_failure(g1, g2));
                }
                assert((forall|k: int| 0 <= k < outcomes.len() ==> !outcomes[k]) == ((forall|k: int|
                    0 <= k < old_outcomes.len() ==> !old_outcomes[k]) && !differs)) by {
                    assert(outcomes[old_outcomes.len() as int] == differs);
                    assert(forall|k: int| 0 <= k < old_outcomes.len() ==> outcomes[k] == old_outcomes[k]);
                }
                let ghost now = done + pair_row(gens, i as int).take(j + 1);
                assert(pair_row(gens, i as int).take(j + 1) =~= pair_row(gens, i as int).take(
                    j as int,
                ).push((g1, g2)));
                assert(now =~= seen.push((g1, g2)));
                assert(now.drop_last() =~= seen);
                assert(outcomes.drop_last() =~= old_outcomes);
                if differs {
                    assert(failures.deep_view().drop_last() =~= old_messages);
                }
                assert(forall|k: int| 0 <= k < seen.len() ==> now[k] == seen[k]);
                assert(deterministic_on(target_map, gens) ==> !differs) by {
                    if deterministic_on(target_map, gens) {
                        assert(gens.contains(g1) && gens.contains(g2)) by {
                            assert(gens[i as int] == g1);
                            assert(gens[j as int] == g2);
                        }
                    }
                }
            }
            assert(pair_row(gens, i as int).take(n as int) =~= pair_row(gens, i as int));
        }
        assert(generator_pairs(gens) == pairs_up_to(gens, n as nat));
        let r = UniversalPropertyResult { functor_name: "FreeMonoid".to_string(), passed, failures };
        assert(monoid_check_run(target_map, gens, outcomes, r.passed, r.failures.deep_view()));
        r
    }

    /// The unit η: S → U(F(S)) sends each element to its one-letter word.
    pub fn unit_map(&self, x: i32) -> (r: ListMonoid)
        ensures
            r@ == seq![x],
    {
        let mut v: Vec<i32> = Vec::new();
        v.push(x);
        ListMonoid::new(v)
    }
}

/// The one-edge path along `e`.
pub open spec fn edge_view(e: Edge) -> MorphismView {
    MorphismView { source: e.0, target: e.1, path: seq![e] }
}

/// The path `p` followed by the edge `e`.
pub open spec fn extend_by(p: MorphismView, e: Edge) -> MorphismView {
    MorphismView { source: p.source, target: e.1, path: p.path.push(e) }
}

/// Every path extended by every edge that leaves its target: for each path in
/// order, its extensions in edge order.
pub open spec fn extend_paths(paths: Seq<MorphismView>, edges: Seq<Edge>) -> Seq<MorphismView>
    decreases paths.len(),
{
    if paths.len() == 0 {
        Seq::empty()
    } else {
        extend_paths(paths.drop_last(), edges) + outgoing(edges, paths.last().target).map_values(
            |e: Edge| extend_by(paths.last(), e),
        )
    }
}

/// The morphisms made of exactly `len` edges: the identities for length 0, the
/// edges for length 1, and each longer path extended by one edge otherwise.
pub open spec fn paths_view(g: GraphView, len: nat) -> Seq<MorphismView>
    decreases len,
{
    if len == 0 {
        identities_view(g.num_vertices)
    } else if len == 1 {
        g.edges.map_values(|e: Edge| edge_view(e))
    } else {
        extend_paths(paths_view(g, (len - 1) as nat), g.edges)
    }
}

/// The morphisms made of at most `max_len` edges, shortest first.
pub open spec fn morphisms_up_to(g: GraphView, max_len: nat) -> Seq<MorphismView>
    decreases max_len,
{
    if max_len == 0 {
        paths_view(g, 0)
    } else {
        morphisms_up_to(g, (max_len - 1) as nat) + paths_view(g, max_len)
    }
}

proof fn lemma_extend_paths_step(paths: Seq<MorphismView>, edges: Seq<Edge>, p: int)
    requires
        0 <= p < paths.len(),
    ensures
        extend_paths(paths.take(p + 1), edges) == extend_paths(paths.take(p), edges) + outgoing(
            edges,
            paths[p].target,
        ).map_values(|e: Edge| extend_by(paths[p], e)),
{
    assert(paths.take(p + 1).drop_last() =~= paths.take(p));
    assert(paths.take(p + 1).last() == paths[p]);
}

/// Whether two optional morphisms are both absent or the same morphism.
fn same_option(a: &Option<Morphism>, b: &Option<Morphism>) -> (r: bool)
    ensures
        r == (option_view(*a) == option_view(*b)),
{
    match (a, b) {
        (Some(x), Some(y)) => x.same_as(y),
        (None, None) => true,
        _ => false,
    }
}

/// Consecutive edges `i` and `i + 1` of `path` meet.
pub open spec fn links(path: Seq<Edge>, i: int) -> bool {
    path[i].1 == path[i + 1].0
}

/// `m` is a path of the graph with at least one edge: every edge is an edge
/// of the graph, consecutive edges meet, and its ends are those of the path.
pub open spec fn is_graph_path(g: GraphView, m: MorphismView) -> bool {
    &&& m.path.len() > 0
    &&& m.source == m.path[0].0
    &&& m.target == m.path.last().1
    &&& forall|i: int| 0 <= i < m.path.len() ==> g.edges.contains(#[trigger] m.path[i])
    &&& forall|i: int| 0 <= i < m.path.len() - 1 ==> #[trigger] links(m.path, i)
}

/// An edge leaves `v` in `edges` exactly when it is an edge starting at `v`.
proof fn lemma_outgoing_contains(edges: Seq<Edge>, v: usize, e: Edge)
    ensures
        outgoing(edges, v).contains(e) <==> (edges.contains(e) && e.0 == v),
{
    let pred = leaves(v);
    if outgoing(edges, v).contains(e) {
        edges.lemma_filter_contains_rev(pred, e);
        let k = choose|k: int| 0 <= k < outgoing(edges, v).len() && outgoing(edges, v)[k] == e;
        edges.lemma_filter_pred(pred, k);
    }
    if edges.contains(e) && e.0 == v {
        let k = choose|k: int| 0 <= k < edges.len() && edges[k] == e;
        edges.lemma_filter_contains(pred, k);
    }
}

/// A morphism is in `extend_paths(paths, edges)` exactly when it is one of the
/// paths followed by an edge leaving its target.
proof fn lemma_extend_paths_contains(paths: Seq<MorphismView>, edges: Seq<Edge>, m: MorphismView)
    ensures
        extend_paths(paths, edges).contains(m) <==> exists|p: MorphismView, e: Edge|
            paths.contains(p) && edges.contains(e) && e.0 == p.target && m == #[trigger] extend_by(p, e),
    decreases paths.len(),
{
    if paths.len() > 0 {
        let rest = paths.drop_last();
        let last = paths.last();
        let front = extend_paths(rest, edges);
        let outs = outgoing(edges, last.target);
        let back = outs.map_values(|e: Edge| extend_by(last, e));
        let all = extend_paths(paths, edges);
        assert(all == front + back);
        lemma_extend_paths_contains(rest, edges, m);
        if all.contains(m) {
            let k = choose|k: int| 0 <= k < all.len() && all[k] == m;
            if k < front.len() {
                assert(front[k] == m);
                assert(front.contains(m));
                let (p, e) = choose|p: MorphismView, e: Edge|
                    rest.contains(p) && edges.contains(e) && e.0 == p.target && m == #[trigger] extend_by(p, e);
                let ip = choose|ip: int| 0 <= ip < rest.len() && rest[ip] == p;
                assert(paths[ip] == p);
                assert(paths.contains(p));
            } else {
                let j = k - front.len();
                let e = outs[j];
                assert(outs.contains(e));
                lemma_outgoing_contains(edges, last.target, e);
                assert(m == extend_by(last, e));
                assert(paths[paths.len() - 1] == last);
                assert(paths.contains(last));
            }
        }
        if exists|p: MorphismView, e: Edge|
            paths.contains(p) && edges.contains(e) && e.0 == p.target && m == #[trigger] extend_by(p, e) {
            let (p, e) = choose|p: MorphismView, e: Edge|
                paths.contains(p) && edges.contains(e) && e.0 == p.target && m == #[trigger] extend_by(p, e);
            let ip = choose|ip: int| 0 <= ip < paths.len() && paths[ip] == p;
            if ip == paths.len() - 1 {
                lemma_outgoing_contains(edges, last.target, e);
                let j = choose|j: int| 0 <= j < outs.len() && outs[j] == e;
                assert(all[front.len() + j] == m);
                assert(all.contains(m));
            } else {
                assert(rest[ip] == p);
                assert(rest.contains(p));
                assert(front.contains(m));
                let k = choose|k: int| 0 <= k < front.len() && front[k] == m;
                assert(all[k] == m);
                assert(all.contains(m));
            }
        }
    }
}

/// The morphisms of `len ≥ 1` edges are exactly the paths of the graph with
/// `len` edges.
pub proof fn lemma_paths_of_length_contains(g: GraphView, len: nat, m: MorphismView)
    requires
        len >= 1,
    ensures
        paths_view(g, len).contains(m) <==> (is_graph_path(g, m) && m.path.len() == len),
    decreases len,
{
    let all = paths_view(g, len);
    if len == 1 {
        if all.contains(m) {
            let k = choose|k: int| 0 <= k < all.len() && all[k] == m;
            let e = g.edges[k];
            assert(m == edge_view(e));
            assert(g.edges.contains(e));
            assert forall|i: int| 0 <= i < m.path.len() implies g.edges.contains(#[trigger] m.path[i]) by {
                assert(m.path[i] == e);
            }
        }
        if is_graph_path(g, m) && m.path.len() == 1 {
            let e = m.path[0];
            assert(g.edges.contains(e));
            let k = choose|k: int| 0 <= k < g.edges.len() && g.edges[k] == e;
            assert(m.path =~= seq![e]);
            assert(all[k] == m);
        }
    } else {
        let shorter = paths_view(g, (len - 1) as nat);
        lemma_extend_paths_contains(shorter, g.edges, m);
        if all.contains(m) {
            let (p, e) = choose|p: MorphismView, e: Edge|
                shorter.contains(p) && g.edges.contains(e) && e.0 == p.target && m == #[trigger] extend_by(p, e);
            lemma_paths_of_length_contains(g, (len - 1) as nat, p);
            assert(m.path == p.path.push(e));
            assert(m.path[0] == p.path[0]);
            assert forall|i: int| 0 <= i < m.path.len() implies g.edges.contains(#[trigger] m.path[i]) by {
                if i < p.path.len() {
                    assert(m.path[i] == p.path[i]);
                }
            }
            assert forall|i: int| 0 <= i < m.path.len() - 1 implies #[trigger] links(m.path, i) by {
                if i < p.path.len() - 1 {
                    assert(links(p.path, i));
                }
            }
        }
        if is_graph_path(g, m) && m.path.len() == len {
            let n = m.path.len() as int;
            let e = m.path[n - 1];
            let p = MorphismView { source: m.source, target: m.path[n - 2].1, path: m.path.drop_last() };
            assert forall|i: int| 0 <= i < p.path.len() implies g.edges.contains(#[trigger] p.path[i]) by {
                assert(p.path[i] == m.path[i]);
            }
            assert forall|i: int| 0 <= i < p.path.len() - 1 implies #[trigger] links(p.path, i) by {
                assert(links(m.path, i));
            }
            lemma_paths_of_length_contains(g, (len - 1) as nat, p);
            assert(links(m.path, n - 2));
            assert(g.edges.contains(m.path[n - 1]));
            assert(m.path =~= p.path.push(e));
            assert(m == extend_by(p, e));
        }
    }
}

/// The morphisms of at most `max_len` edges are exactly the identities of the
/// graph's vertices and its paths of 1 to `max_len` edges, whatever
/// `max_len` is (it is not capped by the number of edges).
pub proof fn lemma_morphisms_up_to_contains(g: GraphView, max_len: nat, m: MorphismView)
    ensures
        morphisms_up_to(g, max_len).contains(m) <==> ((m.path.len() == 0 && m.source == m.target && m.source
            < g.num_vertices) || (is_graph_path(g, m) && 1 <= m.path.len() <= max_len)),
    decreases max_len,
{
    let ids = identities_view(g.num_vertices);
    if ids.contains(m) {
        let k = choose|k: int| 0 <= k < ids.len() && ids[k] == m;
        assert(m == identity_view(k as usize));
    }
    if m.path.len() == 0 && m.source == m.target && m.source < g.num_vertices {
        assert(m.path =~= Seq::<Edge>::empty());
        assert(ids[m.source as int] == m);
    }
    if max_len > 0 {
        let prev = morphisms_up_to(g, (max_len - 1) as nat);
        let last = paths_view(g, max_len);
        lemma_morphisms_up_to_contains(g, (max_len - 1) as nat, m);
        lemma_paths_of_length_contains(g, max_len, m);
        let all = morphisms_up_to(g, max_len);
        assert(all == prev + last);
        if all.contains(m) {
            let k = choose|k: int| 0 <= k < all.len() && all[k] == m;
            if k < prev.len() {
                assert(prev[k] == m);
            } else {
                assert(last[k - prev.len()] == m);
            }
        }
        if prev.contains(m) {
            let k = choose|k: int| 0 <= k < prev.len() && prev[k] == m;
            assert(all[k] == m);
        }
        if last.contains(m) {
            let k = choose|k: int| 0 <= k < last.len() && last[k] == m;
            assert(all[prev.len() + k] == m);
        }
    }
}

/// The morphisms of at most `max_len` edges come shortest first: a morphism
/// never has more edges than one listed after it.
pub proof fn lemma_morphisms_up_to_shortest_first(g: GraphView, max_len: nat)
    ensures
        forall|i: int, j: int|
            0 <= i < j < morphisms_up_to(g, max_len).len() ==> (#[trigger] morphisms_up_to(g, max_len)[i]).path.len()
                <= (#[trigger] morphisms_up_to(g, max_len)[j]).path.len(),
    decreases max_len,
{
    let all = morphisms_up_to(g, max_len);
    if max_len == 0 {
        assert forall|i: int| 0 <= i < all.len() implies (#[trigger] all[i]).path.len() == 0 by {
            assert(identities_view(g.num_vertices)[i] == identity_view(i as usize));
        }
    } else {
        let prev = morphisms_up_to(g, (max_len - 1) as nat);
        let last = paths_view(g, max_len);
        lemma_morphisms_up_to_shortest_first(g, (max_len - 1) as nat);
        assert(all == prev + last);
        assert forall|i: int| 0 <= i < prev.len() implies (#[trigger] prev[i]).path.len() < max_len by {
            assert(prev.contains(prev[i]));
            lemma_morphisms_up_to_contains(g, (max_len - 1) as nat, prev[i]);
        }
        assert forall|i: int| 0 <= i < last.len() implies (#[trigger] last[i]).path.len() == max_len by {
            assert(last.contains(last[i]));
            lemma_paths_of_length_contains(g, max_len, last[i]);
        }
        assert forall|i: int, j: int| 0 <= i < j < all.len() implies (#[trigger] all[i]).path.len() <= (
        #[trigger] all[j]).path.len() by {
            if j < prev.len() {
                assert(all[i] == prev[i] && all[j] == prev[j]);
            } else if i < prev.len() {
                assert(all[i] == prev[i] && all[j] == last[j - prev.len()]);
            } else {
                assert(all[i] == last[i - prev.len()] && all[j] == last[j - prev.len()]);
            }
        }
    }
}

/// The one-edge morphism along `e`.
fn edge_morphism(e: Edge) -> (r: Morphism)
    ensures
        r@ == edge_view(e),
{
    let mut path: Vec<Edge> = Vec::new();
    path.push(e);
    Morphism { source: e.0, target: e.1, path }
}

/// The free category functor: Graph → Category.
///
/// Its objects are the vertices, its morphisms the paths, composed by
/// concatenation, with the empty paths as identities.
#[derive(Debug, Clone)]
pub struct FreeCategory {
    /// The underlying graph.
    pub graph: Graph,
}

impl FreeCategory {
    /// Build the free category on a graph.
    pub fn build(graph: Graph) -> (r: FreeCategory)
        ensures
            r.graph@ == graph@,
    {
        FreeCategory { graph }
    }

    /// The identity morphism of each vertex, in vertex order.
    pub fn identities(&self) -> (r: Vec<Morphism>)
        ensures
            morphisms_view(r@) == identities_view(self.graph.num_vertices),
    {
        identities_up_to(self.graph.num_vertices)
    }

    /// Each path of `paths` extended by each edge leaving its target.
    fn extend_paths(&self, paths: &Vec<Morphism>) -> (r: Vec<Morphism>)
        ensures
            morphisms_view(r@) == extend_paths(morphisms_view(paths@), self.graph.edges@),
    {
        let ghost edges = self.graph.edges@;
        let ghost pre = morphisms_view(paths@);
        let mut next: Vec<Morphism> = Vec::new();
        let np: usize = paths.len();
        let ne: usize = self.graph.edges.len();
        for p in 0..np
            invariant
                np == paths@.len(),
                ne == edges.len(),
                edges == self.graph.edges@,
                pre == morphisms_view(paths@),
                morphisms_view(next@) == extend_paths(pre.take(p as int), edges),
        {
            let ghost base = morphisms_view(next@);
            let path = &paths[p];
            assert(pre[p as int] == path@);
            for j in 0..ne
                invariant
                    ne == edges.len(),
                    edges == self.graph.edges@,
                    p < np,
                    np == paths@.len(),
                    pre == morphisms_view(paths@),
                    path@ == pre[p as int],
                    morphisms_view(next@) == base + outgoing(edges.take(j as int), path.target).map_values(
                        |e: Edge| extend_by(pre[p as int], e),
                    ),
            {
                let ghost before = morphisms_view(next@);
                let (s, t) = self.graph.edges[j];
                proof {
                    crate::counit::lemma_outgoing_step(edges, path.target, j as int);
                }
                if path.target == s {
                    let mut new_path = path.duplicate();
                    new_path.path.push((s, t));
                    new_path.target = t;
                    next.push(new_path);
                    assert(morphisms_view(next@) =~= before.push(extend_by(pre[p as int], (s, t))));
                    assert(outgoing(edges.take(j + 1), path.target).map_values(
                        |e: Edge| extend_by(pre[p as int], e),
                    ) =~= outgoing(edges.take(j as int), path.target).map_values(
                        |e: Edge| extend_by(pre[p as int], e),
                    ).push(extend_by(pre[p as int], (s, t))));
                }
            }
            assert(edges.take(ne as int) == edges);
            proof {
                lemma_extend_paths_step(pre, edges, p as int);
            }
        }
        assert(pre.take(np as int) == pre);
        next
    }

    /// The one-edge morphism of each edge, in edge order.
    fn edge_morphisms(&self) -> (r: Vec<Morphism>)
        ensures
            morphisms_view(r@) == self.graph.edges@.map_values(|e: Edge| edge_view(e)),
    {
        let ghost g = self.graph@;
        let mut current: Vec<Morphism> = Vec::new();
        let ne: usize = self.graph.edges.len();
        for j in 0..ne
            invariant
                ne == g.edges.len(),
                g == self.graph@,
                morphisms_view(current@) == g.edges.take(j as int).map_values(|e: Edge| edge_view(e)),
        {
            let ghost before = morphisms_view(current@);
            current.push(edge_morphism(self.graph.edges[j]));
            assert(morphisms_view(current@) =~= before.push(edge_view(g.edges[j as int])));
            assert(g.edges.take(j + 1).map_values(|e: Edge| edge_view(e)) =~= g.edges.take(
                j as int,
            ).map_values(|e: Edge| edge_view(e)).push(edge_view(g.edges[j as int])));
        }
        assert(g.edges.take(ne as int) == g.edges);
        current
    }

    /// All paths made of exactly `len` edges (the identities when `len` is 0).
    pub fn paths_of_length(&self, len: usize) -> (r: Vec<Morphism>)
        ensures
            morphisms_view(r@) == paths_view(self.graph@, len as nat),
    {
        if len == 0 {
            return self.identities();
        }
        let ghost g = self.graph@;
        let mut current = self.edge_morphisms();
        if len == 1 {
            return current;
        }
        for k in 1..len
            invariant
                g == self.graph@,
                morphisms_view(current@) == paths_view(g, k as nat),
        {
            current = self.extend_paths(&current);
        }
        current
    }

    /// All morphisms made of at most `max_path_len` edges, shortest first.
    pub fn all_morphisms(&self, max_path_len: usize) -> (r: Vec<Morphism>)
        ensures
            morphisms_view(r@) == morphisms_up_to(self.graph@, max_path_len as nat),
    {
        let mut result = self.identities();
        for k in 0..max_path_len
            invariant
                morphisms_view(result@) == morphisms_up_to(self.graph@, k as nat),
        {
            let mut more = self.paths_of_length(k + 1);
            let ghost before = result@;
            let ghost added = more@;
            result.append(&mut more);
            assert(morphisms_view(result@) =~= morphisms_view(before) + morphisms_view(added));
        }
        result
    }

    /// Check the laws that make the path category the free category on the
    /// graph: identities are neutral on every path of one or two edges, and
    /// composition of consecutive edges is associative.
    ///
    /// Path concatenation always satisfies these laws, so the check passes on
    /// every graph.
    pub fn universal_property(&self) -> (r: UniversalPropertyResult)
        ensures
            r.functor_name@ == "FreeCategory"@,
            r.passed,
            r.failures@.len() == 0,
    {
        let mut failures: Vec<String> = Vec::new();
        for k in 0..2usize
            invariant
                failures@.len() == 0,
        {
            let morphisms = self.paths_of_length(k + 1);
            let n: usize = morphisms.len();
            for i in 0..n
                invariant
                    n == morphisms@.len(),
                    failures@.len() == 0,
            {
                let morphism = &morphisms[i];
                let id_src = Morphism::identity(morphism.source);
                let id_tgt = Morphism::identity(morphism.target);
                proof {
                    crate::unit::lemma_compose_identity(morphism@);
                }
                match id_src.compose(morphism) {
                    Some(composed) => {
                        if !same_edges(&composed.path, &morphism.path) {
                            failures.push("Left identity law fails".to_string());
                        }
                    },
                    None => {},
                }
                match morphism.compose(&id_tgt) {
                    Some(composed) => {
                        if !same_edges(&composed.path, &morphism.path) {
                            failures.push("Right identity law fails".to_string());
                        }
                    },
                    None => {},
                }
            }
        }
        let edges = self.edge_morphisms();
        let ne: usize = edges.len();
        for a in 0..ne
            invariant
                ne == edges@.len(),
                failures@.len() == 0,
        {
            let f = &edges[a];
            for b in 0..ne
                invariant
                    ne == edges@.len(),
                    failures@.len() == 0,
            {
                let g = &edges[b];
                if f.target == g.source {
                    for c in 0..ne
                        invariant
                            ne == edges@.len(),
                            failures@.len() == 0,
                            f.target == g.source,
                    {
                        let h = &edges[c];
                        if g.target == h.source {
                            let fg = f.compose(g).unwrap();
                            let gh = g.compose(h).unwrap();
                            let left = fg.compose(h);
                            let right = f.compose(&gh);
                            proof {
                                crate::unit::lemma_compose_associative(f@, g@, h@);
                            }
                            if !same_option(&left, &right) {
                                failures.push("Associativity fails".to_string());
                            }
                        }
                    }
                }
            }
        }
        let passed = failures.len() == 0;
        UniversalPropertyResult { functor_name: "FreeCategory".to_string(), passed, failures }
    }

    /// The unit η: G → U(F(G)) sends each vertex to its identity morphism.
    pub fn unit_at_vertex(&self, v: usize) -> (r: Morphism)
        ensures
            r@ == identity_view(v),
    {
        Morphism::identity(v)
    }

    /// The path category of the underlying graph.
    pub fn to_path_category(&self) -> (r: PathCategory)
        ensures
            r@ == self.graph@,
    {
        PathCategory::from_graph(&self.graph)
    }
}

} // verus!
