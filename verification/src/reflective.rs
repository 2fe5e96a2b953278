//! Reflective subcategories: the abelianization of groups.
//!
//! Abelian groups form a reflective subcategory of groups: the inclusion has
//! a left adjoint, the abelianization G ↦ G/[G,G]. Here a group is given by a
//! presentation (named generators and relations between words), and its
//! abelianization adds the relation ab = ba for every pair of generators.
use vstd::prelude::*;
use crate::decimal::{append_usize, nat_text};

verus! {

/// A word: a sequence of generator names.
pub type Word = Seq<Seq<char>>;

/// A group given by generators and relations.
///
/// Each relation `(w1, w2)` states that the words `w1` and `w2` are equal.
#[derive(Debug, Clone)]
pub struct GroupPresentation {
    /// Generator names.
    pub generators: Vec<String>,
    /// Relations: pairs of words that are equal.
    pub relations: Vec<(Vec<String>, Vec<String>)>,
}

/// The mathematical value of a group presentation.
pub struct PresentationView {
    pub generators: Word,
    pub relations: Seq<(Word, Word)>,
}

/// The value of one relation.
pub open spec fn relation_view(r: (Vec<String>, Vec<String>)) -> (Word, Word) {
    (r.0.deep_view(), r.1.deep_view())
}

/// The values of a list of relations.
pub open spec fn relations_view(rs: Seq<(Vec<String>, Vec<String>)>) -> Seq<(Word, Word)> {
    rs.map_values(|r: (Vec<String>, Vec<String>)| relation_view(r))
}

impl View for GroupPresentation {
    type V = PresentationView;

    open spec fn view(&self) -> PresentationView {
        PresentationView {
            generators: self.generators.deep_view(),
            relations: relations_view(self.relations@),
        }
    }
}

/// The relation `ab = ba`.
pub open spec fn commutation(a: Seq<char>, b: Seq<char>) -> (Word, Word) {
    (seq![a, b], seq![b, a])
}

/// Some relation states `w1 = w2`, in this order.
pub open spec fn has_relation(relations: Seq<(Word, Word)>, w1: Word, w2: Word) -> bool {
    exists|k: int| 0 <= k < relations.len() && #[trigger] relations[k] == (w1, w2)
}

/// Some relation states that `a` and `b` commute, as `ab = ba` or as `ba = ab`.
pub open spec fn has_commutation(relations: Seq<(Word, Word)>, a: Seq<char>, b: Seq<char>) -> bool {
    has_relation(relations, seq![a, b], seq![b, a]) || has_relation(relations, seq![b, a], seq![a, b])
}

/// Some relation makes the generator `g` trivial: it states `g = e` or `e = g`.
pub open spec fn is_trivial(relations: Seq<(Word, Word)>, g: Seq<char>) -> bool {
    has_relation(relations, seq![g], Seq::empty()) || has_relation(relations, Seq::empty(), seq![g])
}

/// Some relation identifies the generators `a` and `b`: it states `a = b` or `b = a`.
pub open spec fn identified(relations: Seq<(Word, Word)>, a: Seq<char>, b: Seq<char>) -> bool {
    has_relation(relations, seq![a], seq![b]) || has_relation(relations, seq![b], seq![a])
}

/// The relations imply `ab = ba` in one of the ways the check recognises:
/// `a` and `b` are the same generator, one of them is trivial, a relation
/// identifies them, or a relation states `ab = ba` itself. Each of these
/// implies that `a` and `b` commute; other consequences of the relations are
/// not looked for.
pub open spec fn commutes_by(relations: Seq<(Word, Word)>, a: Seq<char>, b: Seq<char>) -> bool {
    ||| a == b
    ||| is_trivial(relations, a)
    ||| is_trivial(relations, b)
    ||| identified(relations, a, b)
    ||| has_commutation(relations, a, b)
}

/// Every two generators (at distinct positions) commute by the relations, as
/// `commutes_by` recognises it.
pub open spec fn is_abelian_view(p: PresentationView) -> bool {
    forall|i: int, j: int|
        0 <= i < j < p.generators.len() ==> #[trigger] commutes_by(
            p.relations,
            p.generators[i],
            p.generators[j],
        )
}

/// The word made of `n` copies of the generator `g`.
pub open spec fn power_word(g: Seq<char>, n: nat) -> Word {
    Seq::new(n, |i: int| g)
}

/// The cyclic group Z/nZ: one generator `a` with the relation aⁿ = e.
pub open spec fn cyclic_view(n: nat) -> PresentationView {
    PresentationView {
        generators: seq!["a"@],
        relations: seq![(power_word("a"@, n), Seq::empty())],
    }
}

/// The dihedral group Dₙ: generators `r`, `s` with the relations rⁿ = e,
/// s² = e and srsr = e (that is, srs = r⁻¹).
pub open spec fn dihedral_view(n: nat) -> PresentationView {
    PresentationView {
        generators: seq!["r"@, "s"@],
        relations: seq![
            (power_word("r"@, n), Seq::empty()),
            (seq!["s"@, "s"@], Seq::empty()),
            (seq!["s"@, "r"@, "s"@, "r"@], Seq::empty()),
        ],
    }
}

/// The commutation relations `gᵢgⱼ = gⱼgᵢ` for the generator at `i` and each later one.
pub open spec fn commutator_row(gens: Word, i: int) -> Seq<(Word, Word)> {
    Seq::new((gens.len() - i - 1) as nat, |k: int| commutation(gens[i], gens[i + 1 + k]))
}

/// The commutation relations of the first `i` rows.
pub open spec fn commutators_up_to(gens: Word, i: nat) -> Seq<(Word, Word)>
    decreases i,
{
    if i == 0 {
        Seq::empty()
    } else {
        commutators_up_to(gens, (i - 1) as nat) + commutator_row(gens, i - 1)
    }
}

/// The commutation relations `gᵢgⱼ = gⱼgᵢ` for all `i < j`, ordered by `i`, then `j`.
pub open spec fn commutators(gens: Word) -> Seq<(Word, Word)> {
    commutators_up_to(gens, gens.len())
}

/// Whether two words are equal, generator by generator.
fn same_word(a: &Vec<String>, b: &Vec<String>) -> (r: bool)
    ensures
        r == (a.deep_view() == b.deep_view()),
{
    if a.len() != b.len() {
        assert(a.deep_view().len() != b.deep_view().len());
        return false;
    }
    let n: usize = a.len();
    for i in 0..n
        invariant
            n == a@.len(),
            n == b@.len(),
            forall|k: int| 0 <= k < i ==> a@[k]@ == b@[k]@,
    {
        if a[i] != b[i] {
            assert(a.deep_view()[i as int] != b.deep_view()[i as int]);
            return false;
        }
    }
    assert(a.deep_view() =~= b.deep_view());
    true
}

/// The two-letter word `ab`.
fn two_letters(a: &String, b: &String) -> (r: Vec<String>)
    ensures
        r.deep_view() == seq![a@, b@],
{
    let mut r: Vec<String> = Vec::new();
    r.push(a.clone());
    r.push(b.clone());
    assert(r.deep_view() =~= seq![a@, b@]);
    r
}

/// The word made of `n` copies of `g`.
fn power(g: &String, n: usize) -> (r: Vec<String>)
    ensures
        r.deep_view() == power_word(g@, n as nat),
{
    let mut r: Vec<String> = Vec::new();
    for i in 0..n
        invariant
            r@.len() == i,
            r.deep_view() == power_word(g@, i as nat),
    {
        let ghost before = r@;
        let ghost before_deep = r.deep_view();
        let c = g.clone();
        assert(c@ == g@);
        r.push(c);
        assert(r@ == before.push(c));
        assert(r.deep_view() =~= power_word(g@, (i + 1) as nat)) by {
            assert forall|k: int| 0 <= k < i + 1 implies #[trigger] r.deep_view()[k] == g@ by {
                if k < i {
                    assert(r@[k] == before[k]);
                    assert(before_deep[k] == before[k]@);
                    assert(before_deep[k] == g@);
                }
            }
        }
    }
    r
}

/// A fresh list of relations with the same words.
fn copy_relations(rels: &Vec<(Vec<String>, Vec<String>)>) -> (r: Vec<(Vec<String>, Vec<String>)>)
    ensures
        relations_view(r@) == relations_view(rels@),
{
    let mut r: Vec<(Vec<String>, Vec<String>)> = Vec::new();
    let n: usize = rels.len();
    for i in 0..n
        invariant
            n == rels@.len(),
            relations_view(r@) == relations_view(rels@).take(i as int),
    {
        let ghost before = r@;
        let (w1, w2) = &rels[i];
        r.push((crate::vecs::copy_strings(w1), crate::vecs::copy_strings(w2)));
        assert(relations_view(r@) =~= relations_view(before).push(relation_view(rels@[i as int])));
    }
    assert(relations_view(rels@).take(n as int) =~= relations_view(rels@));
    r
}

/// The one-letter word `g`.
fn one_letter(g: &String) -> (r: Vec<String>)
    ensures
        r.deep_view() == seq![g@],
{
    let mut r: Vec<String> = Vec::new();
    r.push(g.clone());
    assert(r.deep_view() =~= seq![g@]);
    r
}

/// Whether some relation states `w1 = w2`, in this order.
fn find_relation(rels: &Vec<(Vec<String>, Vec<String>)>, w1: &Vec<String>, w2: &Vec<String>) -> (r: bool)
    ensures
        r == has_relation(relations_view(rels@), w1.deep_view(), w2.deep_view()),
{
    let ghost rv = relations_view(rels@);
    let n: usize = rels.len();
    for k in 0..n
        invariant
            n == rels@.len(),
            rv == relations_view(rels@),
            forall|m: int| 0 <= m < k ==> rv[m] != (w1.deep_view(), w2.deep_view()),
    {
        let (u1, u2) = &rels[k];
        assert(rv[k as int] == (u1.deep_view(), u2.deep_view()));
        if same_word(u1, w1) && same_word(u2, w2) {
            return true;
        }
    }
    false
}

/// Whether the relations imply that `a` and `b` commute, in one of the ways
/// `commutes_by` recognises.
fn commutes(rels: &Vec<(Vec<String>, Vec<String>)>, a: &String, b: &String) -> (r: bool)
    ensures
        r == commutes_by(relations_view(rels@), a@, b@),
{
    if *a == *b {
        return true;
    }
    let empty: Vec<String> = Vec::new();
    assert(empty.deep_view() =~= Seq::<Seq<char>>::empty());
    let just_a = one_letter(a);
    let just_b = one_letter(b);
    let ab = two_letters(a, b);
    let ba = two_letters(b, a);
    find_relation(rels, &just_a, &empty) || find_relation(rels, &empty, &just_a)
        || find_relation(rels, &just_b, &empty) || find_relation(rels, &empty, &just_b)
        || find_relation(rels, &just_a, &just_b) || find_relation(rels, &just_b, &just_a)
        || find_relation(rels, &ab, &ba) || find_relation(rels, &ba, &ab)
}

impl GroupPresentation {
    /// Create a group presentation.
    pub fn new(generators: Vec<String>, relations: Vec<(Vec<String>, Vec<String>)>) -> (r: Self)
        ensures
            r@ == (PresentationView {
                generators: generators.deep_view(),
                relations: relations_view(relations@),
            }),
    {
        GroupPresentation { generators, relations }
    }

    /// The free group on the given generators (no relations).
    pub fn free(generators: Vec<String>) -> (r: Self)
        ensures
            r@ == (PresentationView { generators: generators.deep_view(), relations: Seq::empty() }),
    {
        let r = Self::new(generators, Vec::new());
        assert(r@.relations =~= Seq::<(Word, Word)>::empty());
        r
    }

    /// The cyclic group Z/nZ.
    pub fn cyclic(n: usize) -> (r: Self)
        ensures
            r@ == cyclic_view(n as nat),
    {
        let a = "a".to_string();
        let mut rels: Vec<(Vec<String>, Vec<String>)> = Vec::new();
        rels.push((power(&a, n), Vec::new()));
        let mut gens: Vec<String> = Vec::new();
        gens.push(a);
        let r = Self::new(gens, rels);
        assert(r@.generators =~= cyclic_view(n as nat).generators);
        assert(r@.relations[0].1 =~= Seq::<Seq<char>>::empty());
        assert(r@.relations =~= cyclic_view(n as nat).relations);
        r
    }

    /// The dihedral group Dₙ, with the relations rⁿ = e, s² = e and srsr = e.
    pub fn dihedral(n: usize) -> (r: Self)
        ensures
            r@ == dihedral_view(n as nat),
    {
        let r_gen = "r".to_string();
        let s_gen = "s".to_string();
        let mut rels: Vec<(Vec<String>, Vec<String>)> = Vec::new();
        rels.push((power(&r_gen, n), Vec::new()));
        rels.push((two_letters(&s_gen, &s_gen), Vec::new()));
        let mut srsr: Vec<String> = Vec::new();
        srsr.push(s_gen.clone());
        srsr.push(r_gen.clone());
        srsr.push(s_gen.clone());
        srsr.push(r_gen.clone());
        assert(srsr.deep_view() =~= seq!["s"@, "r"@, "s"@, "r"@]);
        rels.push((srsr, Vec::new()));
        let mut gens: Vec<String> = Vec::new();
        gens.push(r_gen);
        gens.push(s_gen);
        let r = Self::new(gens, rels);
        assert(r@.generators =~= dihedral_view(n as nat).generators);
        assert(r@.relations[0].1 =~= Seq::<Seq<char>>::empty());
        assert(r@.relations[1].1 =~= Seq::<Seq<char>>::empty());
        assert(r@.relations[2].1 =~= Seq::<Seq<char>>::empty());
        assert(r@.relations =~= dihedral_view(n as nat).relations);
        r
    }

    /// Whether every two generators commute by the relations.
    ///
    /// Two generators are taken to commute when the relations imply it in one
    /// of the ways `commutes_by` recognises: they are the same generator, one
    /// of them is trivial, a relation identifies them, or a relation states
    /// `ab = ba`. A `true` answer is therefore always right; a `false` answer
    /// means that no such relation was found.
    pub fn is_abelian(&self) -> (r: bool)
        ensures
            r == is_abelian_view(self@),
    {
        let ghost p = self@;
        let n: usize = self.generators.len();
        if n <= 1 {
            return true;
        }
        for i in 0..n
            invariant
                n == p.generators.len(),
                p == self@,
                forall|a: int, b: int|
                    0 <= a < i && a < b < n ==> #[trigger] commutes_by(
                        p.relations,
                        p.generators[a],
                        p.generators[b],
                    ),
        {
            for j in (i + 1)..n
                invariant
                    n == p.generators.len(),
                    p == self@,
                    i < n,
                    forall|a: int, b: int|
                        0 <= a < i && a < b < n ==> #[trigger] commutes_by(
                            p.relations,
                            p.generators[a],
                            p.generators[b],
                        ),
                    forall|b: int|
                        i < b < j ==> #[trigger] commutes_by(
                            p.relations,
                            p.generators[i as int],
                            p.generators[b],
                        ),
            {
                if !commutes(&self.relations, &self.generators[i], &self.generators[j]) {
                    assert(!commutes_by(p.relations, p.generators[i as int], p.generators[j as int]));
                    return false;
                }
            }
        }
        true
    }

    /// Number of generators.
    pub fn num_generators(&self) -> (r: usize)
        ensures
            r == self@.generators.len(),
    {
        self.generators.len()
    }

    /// Number of relations.
    pub fn num_relations(&self) -> (r: usize)
        ensures
            r == self@.relations.len(),
    {
        self.relations.len()
    }

    /// A fresh presentation with the same generators and relations.
    fn duplicate(&self) -> (r: GroupPresentation)
        ensures
            r@ == self@,
    {
        GroupPresentation {
            generators: crate::vecs::copy_strings(&self.generators),
            relations: copy_relations(&self.relations),
        }
    }
}

/// The abelianization of a presentation: the original, the presentation with
/// every commutation relation added, and the commutation relations themselves.
pub struct AbelianizationView {
    pub original: PresentationView,
    pub abelianized: PresentationView,
    pub commutator_relations: Seq<(Word, Word)>,
}

/// The abelianization of `g`: the same generators, the relations of `g`
/// followed by `gᵢgⱼ = gⱼgᵢ` for every pair `i < j`.
pub open spec fn abelianization_of(g: PresentationView) -> AbelianizationView {
    AbelianizationView {
        original: g,
        abelianized: PresentationView {
            generators: g.generators,
            relations: g.relations + commutators(g.generators),
        },
        commutator_relations: commutators(g.generators),
    }
}

/// The counit is an isomorphism: when the original is already abelian, the
/// abelianized presentation has exactly its relations plus the commutation ones.
pub open spec fn counit_is_iso_view(a: AbelianizationView) -> bool {
    is_abelian_view(a.original) ==> a.abelianized.relations.len() == a.original.relations.len()
        + a.commutator_relations.len()
}

/// The conditions of a reflective subcategory that the check can see: the
/// abelianized presentation is abelian and the counit is an isomorphism.
pub open spec fn reflective_view(a: AbelianizationView) -> bool {
    is_abelian_view(a.abelianized) && counit_is_iso_view(a)
}

/// The names joined with `sep` between consecutive names.
pub open spec fn join_names(names: Word, sep: Seq<char>) -> Seq<char>
    decreases names.len(),
{
    if names.len() == 0 {
        Seq::empty()
    } else if names.len() == 1 {
        names[0]
    } else {
        join_names(names.drop_last(), sep) + sep + names.last()
    }
}

/// The description of the presentation `p`, such as `<a,b | 2 relations>`,
/// with the count in decimal.
pub open spec fn group_label(p: PresentationView) -> Seq<char> {
    "<"@ + join_names(p.generators, ","@) + " | "@ + nat_text(p.relations.len()) + " relations>"@
}

/// The generator names joined with `sep`.
fn join_strings(names: &Vec<String>, sep: &str) -> (r: String)
    ensures
        r@ == join_names(names.deep_view(), sep@),
{
    let ghost parts = names.deep_view();
    let mut res = String::new();
    let n: usize = names.len();
    for i in 0..n
        invariant
            n == names@.len(),
            parts == names.deep_view(),
            res@ == join_names(parts.take(i as int), sep@),
    {
        assert(parts.take(i + 1).drop_last() =~= parts.take(i as int));
        assert(parts[i as int] == names@[i as int]@);
        if i != 0 {
            res.append(sep);
        }
        res.append(names[i].as_str());
        if i == 0 {
            assert(Seq::<char>::empty() + parts[0] =~= parts[0]);
        }
    }
    assert(parts.take(n as int) =~= parts);
    res
}

/// The commutation relation of the generators at `i < j` is among the first
/// `m` rows when `i < m`.
proof fn lemma_commutation_listed(gens: Word, m: nat, i: int, j: int)
    requires
        0 <= i < j < gens.len(),
        i < m <= gens.len(),
    ensures
        exists|k: int|
            0 <= k < commutators_up_to(gens, m).len() && #[trigger] commutators_up_to(gens, m)[k]
                == commutation(gens[i], gens[j]),
    decreases m,
{
    let here = commutators_up_to(gens, m);
    if m == i + 1 {
        let pre = commutators_up_to(gens, i as nat);
        let k = pre.len() + (j - i - 1);
        assert(here[k] == commutator_row(gens, i)[j - i - 1]);
    } else {
        lemma_commutation_listed(gens, (m - 1) as nat, i, j);
        let prev = commutators_up_to(gens, (m - 1) as nat);
        let k = choose|k: int| 0 <= k < prev.len() && #[trigger] prev[k] == commutation(gens[i], gens[j]);
        assert(here[k] == prev[k]);
    }
}

/// Twice the number of commutation relations in the first `m` rows.
proof fn lemma_commutators_up_to_len(gens: Word, m: nat)
    requires
        m <= gens.len(),
    ensures
        2 * commutators_up_to(gens, m).len() == 2 * m * gens.len() - m * (m + 1),
    decreases m,
{
    if m > 0 {
        lemma_commutators_up_to_len(gens, (m - 1) as nat);
        assert(commutator_row(gens, m - 1).len() == gens.len() - m);
        let l = commutators_up_to(gens, m).len() as int;
        let lp = commutators_up_to(gens, (m - 1) as nat).len() as int;
        let n = gens.len() as int;
        let mi = m as int;
        assert(l == lp + n - mi);
        assert(2 * lp == 2 * (mi - 1) * n - (mi - 1) * mi);
        assert(2 * l == 2 * mi * n - mi * (mi + 1)) by (nonlinear_arith)
            requires
                l == lp + n - mi,
                2 * lp == 2 * (mi - 1) * n - (mi - 1) * mi,
        ;
    } else {
        assert(2 * m * gens.len() == 0 && m * (m + 1) == 0) by (nonlinear_arith)
            requires
                m == 0,
        ;
    }
}

/// Abelianizing always gives an abelian presentation: for every two
/// generators the relation `ab = ba` is among the added ones.
pub proof fn lemma_abelianization_is_abelian(g: PresentationView)
    ensures
        is_abelian_view(abelianization_of(g).abelianized),
{
    let a = abelianization_of(g).abelianized;
    let gens = g.generators;
    assert forall|i: int, j: int| 0 <= i < j < a.generators.len() implies #[trigger] commutes_by(
        a.relations,
        a.generators[i],
        a.generators[j],
    ) by {
        lemma_commutation_listed(gens, gens.len(), i, j);
        let k = choose|k: int|
            0 <= k < commutators(gens).len() && #[trigger] commutators(gens)[k] == commutation(
                gens[i],
                gens[j],
            );
        assert(a.relations[g.relations.len() + k] == commutation(gens[i], gens[j]));
        assert(has_relation(a.relations, seq![gens[i], gens[j]], seq![gens[j], gens[i]]));
    }
}

/// Abelianizing `n` generators adds `n(n-1)/2` commutation relations, one per
/// unordered pair.
pub proof fn lemma_commutator_count(gens: Word)
    ensures
        commutators(gens).len() == gens.len() * (gens.len() - 1) / 2,
{
    lemma_commutators_up_to_len(gens, gens.len());
    let n = gens.len() as int;
    assert(2 * n * n - n * (n + 1) == n * (n - 1)) by (nonlinear_arith);
}

/// The abelianization of every presentation meets the reflective subcategory
/// conditions.
pub proof fn lemma_abelianization_is_reflective(g: PresentationView)
    ensures
        reflective_view(abelianization_of(g)),
{
    lemma_abelianization_is_abelian(g);
}

/// A presentation with at most one generator is abelian.
pub proof fn lemma_one_generator_is_abelian(p: PresentationView)
    requires
        p.generators.len() <= 1,
    ensures
        is_abelian_view(p),
{
}

/// The free group (no relations) is abelian exactly when all its generators
/// have the same name; in particular, with distinct names, exactly when it has
/// at most one generator.
pub proof fn lemma_free_group_abelian_iff(gens: Word)
    ensures
        is_abelian_view(PresentationView { generators: gens, relations: Seq::empty() }) == (forall|
            i: int,
            j: int,
        | 0 <= i < j < gens.len() ==> gens[i] == gens[j]),
        (forall|i: int, j: int| 0 <= i < j < gens.len() ==> gens[i] != gens[j]) ==> (is_abelian_view(
            PresentationView { generators: gens, relations: Seq::empty() },
        ) == (gens.len() <= 1)),
{
    let p = PresentationView { generators: gens, relations: Seq::empty() };
    assert forall|a: Seq<char>, b: Seq<char>| #[trigger] commutes_by(p.relations, a, b) implies a == b by {
        assert(!has_relation(p.relations, seq![a], Seq::empty()));
        assert(!has_relation(p.relations, Seq::empty(), seq![a]));
        assert(!has_relation(p.relations, seq![b], Seq::empty()));
        assert(!has_relation(p.relations, Seq::empty(), seq![b]));
        assert(!has_relation(p.relations, seq![a], seq![b]));
        assert(!has_relation(p.relations, seq![b], seq![a]));
        assert(!has_relation(p.relations, seq![a, b], seq![b, a]));
        assert(!has_relation(p.relations, seq![b, a], seq![a, b]));
    }
    let same_names = forall|i: int, j: int| 0 <= i < j < gens.len() ==> gens[i] == gens[j];
    if same_names {
        assert forall|i: int, j: int| 0 <= i < j < p.generators.len() implies #[trigger] commutes_by(
            p.relations,
            p.generators[i],
            p.generators[j],
        ) by {
            assert(gens[i] == gens[j]);
        }
        assert(is_abelian_view(p));
    } else {
        let (i, j) = choose|i: int, j: int| 0 <= i < j < gens.len() && gens[i] != gens[j];
        assert(!commutes_by(p.relations, p.generators[i], p.generators[j]));
        assert(!is_abelian_view(p));
    }
    if (forall|i: int, j: int| 0 <= i < j < gens.len() ==> gens[i] != gens[j]) && gens.len() >= 2 {
        assert(gens[0] != gens[1]);
        assert(!same_names);
    }
}

/// Some relation of `rels` reads, literally, `a = e`, `e = a`, `b = e`,
/// `e = b`, `a = b`, `b = a`, `ab = ba` or `ba = ab`.
spec fn literal_commuting_row(rels: Seq<(Word, Word)>, a: Seq<char>, b: Seq<char>) -> bool {
    exists|k: int|
        0 <= k < rels.len() && (#[trigger] rels[k] == (seq![a], Seq::<Seq<char>>::empty()) || rels[k] == (
            Seq::<Seq<char>>::empty(),
            seq![a],
        ) || rels[k] == (seq![b], Seq::<Seq<char>>::empty()) || rels[k] == (Seq::<Seq<char>>::empty(), seq![b])
            || rels[k] == (seq![a], seq![b]) || rels[k] == (seq![b], seq![a]) || rels[k] == (seq![a, b], seq![b, a])
            || rels[k] == (seq![b, a], seq![a, b]))
}

proof fn lemma_commutes_by_rows(rels: Seq<(Word, Word)>, a: Seq<char>, b: Seq<char>)
    ensures
        commutes_by(rels, a, b) <==> (a == b || literal_commuting_row(rels, a, b)),
{
}

/// A presentation is found abelian exactly when every two generators at
/// different positions, in either order, are equal names or are made to
/// commute by some relation that reads literally: one of them `= e` (either
/// side), the one `=` the other, or `ab = ba` (either way round). Every pair
/// is checked, not only the pairs with the first generator: with three
/// distinct generators `a`, `b`, `c` and only `ab = ba` and `ac = ca`, the
/// pair `b`, `c` is not made to commute and the presentation is not abelian.
pub proof fn lemma_is_abelian_iff_every_pair(p: PresentationView)
    ensures
        is_abelian_view(p) <==> forall|i: int, j: int|
            0 <= i < p.generators.len() && 0 <= j < p.generators.len() && i != j ==> (#[trigger] p.generators[i]
                == #[trigger] p.generators[j] || exists|k: int|
                0 <= k < p.relations.len() && (#[trigger] p.relations[k] == (
                    seq![p.generators[i]],
                    Seq::<Seq<char>>::empty(),
                ) || p.relations[k] == (Seq::<Seq<char>>::empty(), seq![p.generators[i]]) || p.relations[k] == (
                    seq![p.generators[j]],
                    Seq::<Seq<char>>::empty(),
                ) || p.relations[k] == (Seq::<Seq<char>>::empty(), seq![p.generators[j]]) || p.relations[k] == (
                    seq![p.generators[i]],
                    seq![p.generators[j]],
                ) || p.relations[k] == (seq![p.generators[j]], seq![p.generators[i]]) || p.relations[k] == (
                    seq![p.generators[i], p.generators[j]],
                    seq![p.generators[j], p.generators[i]],
                ) || p.relations[k] == (
                    seq![p.generators[j], p.generators[i]],
                    seq![p.generators[i], p.generators[j]],
                ))),
{
    let gs = p.generators;
    let rs = p.relations;
    if is_abelian_view(p) {
        assert forall|i: int, j: int| 0 <= i < gs.len() && 0 <= j < gs.len() && i != j implies (
        #[trigger] gs[i] == #[trigger] gs[j] || literal_commuting_row(rs, gs[i], gs[j])) by {
            if i < j {
                assert(commutes_by(rs, gs[i], gs[j]));
            } else {
                assert(commutes_by(rs, gs[j], gs[i]));
            }
            lemma_commutes_by_rows(rs, gs[i], gs[j]);
            lemma_commutes_by_rows(rs, gs[j], gs[i]);
        }
    } else {
        let (i, j) = choose|i: int, j: int| 0 <= i < j < gs.len() && !#[trigger] commutes_by(rs, gs[i], gs[j]);
        lemma_commutes_by_rows(rs, gs[i], gs[j]);
        assert(!(gs[i] == gs[j] || literal_commuting_row(rs, gs[i], gs[j])));
    }
}

/// Every cyclic group is abelian.
pub proof fn lemma_cyclic_is_abelian(n: nat)
    ensures
        is_abelian_view(cyclic_view(n)),
{
}

/// For `n = 0` and `n ≥ 3` the dihedral group is not abelian, and the check
/// does not report it abelian: no relation makes `r` or `s` trivial,
/// identifies them, or states that they commute.
pub proof fn lemma_dihedral_is_not_abelian(n: nat)
    requires
        n == 0 || n >= 3,
    ensures
        !is_abelian_view(dihedral_view(n)),
{
    let p = dihedral_view(n);
    let a = p.generators[0];
    let b = p.generators[1];
    assert forall|k: int| 0 <= k < p.relations.len() implies (#[trigger] p.relations[k]).1.len() == 0
        && p.relations[k].0.len() != 1 by {
        if k == 0 {
            assert(p.relations[k].0.len() == n);
        }
    }
    assert forall|w1: Word, w2: Word| w2.len() != 0 || w1.len() == 1 implies !#[trigger] has_relation(
        p.relations,
        w1,
        w2,
    ) by {
        if has_relation(p.relations, w1, w2) {
            let k = choose|k: int| 0 <= k < p.relations.len() && #[trigger] p.relations[k] == (w1, w2);
            assert(p.relations[k].1.len() == 0 && p.relations[k].0.len() != 1);
        }
    }
    assert(seq![a].len() == 1 && seq![b].len() == 1);
    assert(seq![a, b].len() == 2 && seq![b, a].len() == 2);
    assert(a != b) by {
        reveal_strlit("r");
        reveal_strlit("s");
        assert(a[0] != b[0]);
    }
    assert(!commutes_by(p.relations, a, b));
}

/// The result of abelianizing a group presentation.
#[derive(Debug, Clone)]
pub struct Abelianization {
    /// The original presentation.
    pub original: GroupPresentation,
    /// The abelianized presentation.
    pub abelianized: GroupPresentation,
    /// The commutation relations that were added.
    pub commutator_relations: Vec<(Vec<String>, Vec<String>)>,
}

impl View for Abelianization {
    type V = AbelianizationView;

    open spec fn view(&self) -> AbelianizationView {
        AbelianizationView {
            original: self.original@,
            abelianized: self.abelianized@,
            commutator_relations: relations_view(self.commutator_relations@),
        }
    }
}

/// The result of checking the reflective subcategory conditions.
#[derive(Debug, Clone)]
pub struct ReflectiveVerification {
    /// Description of the group, such as `<a,b | 0 relations>`.
    pub group_name: String,
    /// Whether the abelianized presentation is abelian.
    pub is_abelian: bool,
    /// Whether the unit (the quotient map) exists.
    pub unit_exists: bool,
    /// Whether the counit is an isomorphism.
    pub counit_is_iso: bool,
    /// Whether all the conditions hold.
    pub is_reflective: bool,
}

impl Abelianization {
    /// Abelianize a group: force every two generators to commute.
    ///
    /// This is the left adjoint L: Groups → AbGroups of the inclusion; it adds
    /// the relation ab = ba for every pair of generators a, b.
    pub fn abelianize(group: &GroupPresentation) -> (r: Abelianization)
        ensures
            r@ == abelianization_of(group@),
            is_abelian_view(r@.abelianized),
            reflective_view(r@),
            r@.commutator_relations.len() == group@.generators.len() * (group@.generators.len() - 1)
                / 2,
    {
        proof {
            lemma_abelianization_is_reflective(group@);
            lemma_commutator_count(group@.generators);
        }
        let ghost gv = group@.generators;
        let generators = &group.generators;
        let mut commutator_relations: Vec<(Vec<String>, Vec<String>)> = Vec::new();
        let mut relations = copy_relations(&group.relations);
        let n: usize = generators.len();
        for i in 0..n
            invariant
                n == gv.len(),
                gv == generators.deep_view(),
                relations_view(commutator_relations@) == commutators_up_to(gv, i as nat),
                relations_view(relations@) == group@.relations + commutators_up_to(gv, i as nat),
        {
            let ghost done = commutators_up_to(gv, i as nat);
            for j in (i + 1)..n
                invariant
                    n == gv.len(),
                    gv == generators.deep_view(),
                    i < n,
                    done == commutators_up_to(gv, i as nat),
                    relations_view(commutator_relations@) == done + commutator_row(gv, i as int).take(
                        j - i - 1,
                    ),
                    relations_view(relations@) == group@.relations + done + commutator_row(
                        gv,
                        i as int,
                    ).take(j - i - 1),
            {
                let ab = two_letters(&generators[i], &generators[j]);
                let ba = two_letters(&generators[j], &generators[i]);
                let ghost pair = commutation(gv[i as int], gv[j as int]);
                assert(relation_view((ab, ba)) == pair);
                let ghost before_c = relations_view(commutator_relations@);
                let ghost before_r = relations_view(relations@);
                commutator_relations.push((crate::vecs::copy_strings(&ab), crate::vecs::copy_strings(&ba)));
                relations.push((ab, ba));
                assert(relations_view(commutator_relations@) =~= before_c.push(pair));
                assert(relations_view(relations@) =~= before_r.push(pair));
                assert(commutator_row(gv, i as int).take(j - i) =~= commutator_row(gv, i as int).take(
                    j - i - 1,
                ).push(pair));
            }
            assert(commutator_row(gv, i as int).take(n - i - 1) =~= commutator_row(gv, i as int));
            assert(commutators_up_to(gv, (i + 1) as nat) == done + commutator_row(gv, i as int));
        }
        let abelianized = GroupPresentation::new(crate::vecs::copy_strings(generators), relations);
        let r = Abelianization { original: group.duplicate(), abelianized, commutator_relations };
        assert(r@.abelianized.relations =~= abelianization_of(group@).abelianized.relations);
        r
    }

    /// Whether the abelianized presentation is abelian.
    pub fn verify_abelian(&self) -> (r: bool)
        ensures
            r == is_abelian_view(self@.abelianized),
    {
        self.abelianized.is_abelian()
    }

    /// Check the reflective subcategory conditions: the abelianized group is
    /// abelian, the unit (the quotient map) exists, and the counit is an
    /// isomorphism when the original group is already abelian.
    pub fn verify_reflective(&self) -> (r: ReflectiveVerification)
        ensures
            r.is_abelian == is_abelian_view(self@.abelianized),
            r.unit_exists,
            r.counit_is_iso == counit_is_iso_view(self@),
            r.is_reflective == reflective_view(self@),
            r.group_name@ == group_label(self@.original),
    {
        let abelian_ok = self.verify_abelian();
        let counit_iso = if self.original.is_abelian() {
            let abelianized_count = self.abelianized.num_relations();
            let original_count = self.original.num_relations();
            abelianized_count >= original_count && abelianized_count - original_count
                == self.commutator_relations.len()
        } else {
            true
        };
        let unit_exists = true;
        let count = self.original.num_relations();
        let mut group_name = String::from_str("<");
        group_name.append(join_strings(&self.original.generators, ",").as_str());
        group_name.append(" | ");
        append_usize(&mut group_name, count);
        group_name.append(" relations>");
        ReflectiveVerification {
            group_name,
            is_abelian: abelian_ok,
            unit_exists,
            counit_is_iso: counit_iso,
            is_reflective: abelian_ok && unit_exists && counit_iso,
        }
    }
}

} // verus!
