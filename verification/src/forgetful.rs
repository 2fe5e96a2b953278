//! Forgetful functors: they strip algebraic structure.
//!
//! - **ForgetMonoid**: Monoid → Set (drop the operation, keep the elements)
//! - **ForgetCategory**: Category → Graph (drop composition, keep objects and edges)
//! - **ForgetGroup**: Group → Set (keep the generators)
use vstd::prelude::*;
use crate::counit::{Edge, Graph, ListMonoid, PathCategory};

verus! {

/// A monoid given by its elements and a multiplication table.
#[derive(Debug, Clone)]
pub struct MonoidPresentation {
    /// The elements.
    pub elements: Vec<i32>,
    /// The table: a row `(a, b, c)` states that a·b = c.
    pub multiplication: Vec<(i32, i32, i32)>,
}

/// The row at `i` gives a product for `a·b`.
pub open spec fn row_for(table: Seq<(i32, i32, i32)>, i: int, a: i32, b: i32) -> bool {
    table[i].0 == a && table[i].1 == b
}

/// The product of `a` and `b` by the first row of the table that gives one.
pub open spec fn table_product(table: Seq<(i32, i32, i32)>, a: i32, b: i32, product: Option<i32>) -> bool {
    match product {
        Some(c) => exists|i: int|
            0 <= i < table.len() && #[trigger] row_for(table, i, a, b) && table[i].2 == c && forall|
                j: int,
            | 0 <= j < i ==> !#[trigger] row_for(table, j, a, b),
        None => forall|i: int| 0 <= i < table.len() ==> !#[trigger] row_for(table, i, a, b),
    }
}

/// A product comes from the table and from nothing else: there is none
/// exactly when no row is `(a, b, _)`, and a product `c` is the third entry
/// of the first row `(a, b, c)`. In particular a row for `b·a` never answers
/// for `a·b`, and the table gives at most one product for each pair.
pub proof fn lemma_table_product_is_lookup(
    table: Seq<(i32, i32, i32)>,
    a: i32,
    b: i32,
    product: Option<i32>,
    other: Option<i32>,
)
    requires
        table_product(table, a, b, product),
    ensures
        product is None <==> forall|i: int| 0 <= i < table.len() ==> !(table[i].0 == a && table[i].1 == b),
        product is Some ==> exists|i: int|
            0 <= i < table.len() && #[trigger] table[i] == (a, b, product.unwrap()) && forall|j: int|
                0 <= j < i ==> !(#[trigger] table[j].0 == a && table[j].1 == b),
        table_product(table, a, b, other) ==> other == product,
{
    match product {
        Some(c) => {
            let i = choose|i: int|
                0 <= i < table.len() && #[trigger] row_for(table, i, a, b) && table[i].2 == c && forall|j: int|
                    0 <= j < i ==> !#[trigger] row_for(table, j, a, b);
            assert(table[i] == (a, b, c));
            assert(forall|j: int| 0 <= j < i ==> !(#[trigger] table[j].0 == a && table[j].1 == b)) by {
                assert forall|j: int| 0 <= j < i implies !(#[trigger] table[j].0 == a && table[j].1 == b) by {
                    assert(!row_for(table, j, a, b));
                }
            }
            assert(row_for(table, i, a, b));
            if table_product(table, a, b, other) {
                match other {
                    Some(d) => {
                        let k = choose|k: int|
                            0 <= k < table.len() && #[trigger] row_for(table, k, a, b) && table[k].2 == d
                                && forall|j: int| 0 <= j < k ==> !#[trigger] row_for(table, j, a, b);
                        if k < i {
                            assert(!row_for(table, k, a, b));
                        } else if i < k {
                            assert(!row_for(table, i, a, b));
                        }
                    },
                    None => {},
                }
            }
        },
        None => {
            assert forall|i: int| 0 <= i < table.len() implies !(table[i].0 == a && table[i].1 == b) by {
                assert(!row_for(table, i, a, b));
            }
            if table_product(table, a, b, other) {
                match other {
                    Some(d) => {
                        let k = choose|k: int|
                            0 <= k < table.len() && #[trigger] row_for(table, k, a, b) && table[k].2 == d
                                && forall|j: int| 0 <= j < k ==> !#[trigger] row_for(table, j, a, b);
                        assert(!row_for(table, k, a, b));
                    },
                    None => {},
                }
            }
        },
    }
}

impl MonoidPresentation {
    /// Create a monoid presentation.
    pub fn new(elements: Vec<i32>, multiplication: Vec<(i32, i32, i32)>) -> (r: Self)
        ensures
            r.elements@ == elements@,
            r.multiplication@ == multiplication@,
    {
        MonoidPresentation { elements, multiplication }
    }

    /// Multiply two elements by the table: the product in the first row for
    /// `a·b`, or `None` when no row gives one.
    pub fn multiply(&self, a: i32, b: i32) -> (r: Option<i32>)
        ensures
            table_product(self.multiplication@, a, b, r),
    {
        let ghost table = self.multiplication@;
        let n: usize = self.multiplication.len();
        for i in 0..n
            invariant
                n == table.len(),
                table == self.multiplication@,
                forall|j: int| 0 <= j < i ==> !#[trigger] row_for(table, j, a, b),
        {
            let (x, y, z) = self.multiplication[i];
            if x == a && y == b {
                assert(row_for(table, i as int, a, b));
                return Some(z);
            }
        }
        None
    }
}

/// The forgetful functor from monoids to sets: a list monoid element becomes
/// its list of generators.
#[derive(Debug, Clone, Copy)]
pub struct ForgetMonoid;

impl ForgetMonoid {
    /// The underlying list of a monoid element.
    pub fn apply(m: &ListMonoid) -> (r: Vec<i32>)
        ensures
            r@ == m@,
    {
        crate::vecs::copy_vec(&m.elements)
    }

    /// The number of generators in a monoid element.
    pub fn count(m: &ListMonoid) -> (r: usize)
        ensures
            r == m@.len(),
    {
        m.elements.len()
    }

    /// Whether a monoid element is the identity (the empty list).
    pub fn is_empty(m: &ListMonoid) -> (r: bool)
        ensures
            r == (m@.len() == 0),
    {
        m.elements.len() == 0
    }
}

/// The forgetful functor from categories to graphs: a path category becomes
/// its graph of objects and generating edges.
#[derive(Debug, Clone, Copy)]
pub struct ForgetCategory;

impl ForgetCategory {
    /// The underlying graph of a path category.
    pub fn apply(cat: &PathCategory) -> (r: Graph)
        ensures
            r@ == cat@,
    {
        cat.graph.duplicate()
    }

    /// The edges of the underlying graph.
    pub fn edges(cat: &PathCategory) -> (r: Vec<Edge>)
        ensures
            r@ == cat@.edges,
    {
        crate::vecs::copy_vec(&cat.graph.edges)
    }

    /// The number of objects (vertices).
    pub fn num_objects(cat: &PathCategory) -> (r: usize)
        ensures
            r == cat@.num_vertices,
    {
        cat.graph.num_vertices
    }

    /// Whether the underlying graph has neither vertices nor edges.
    pub fn is_empty(cat: &PathCategory) -> (r: bool)
        ensures
            r == (cat@.num_vertices == 0 && cat@.edges.len() == 0),
    {
        cat.graph.num_vertices == 0 && cat.graph.edges.len() == 0
    }
}

/// The forgetful functor from groups to sets: a presentation becomes its generators.
#[derive(Debug, Clone, Copy)]
pub struct ForgetGroup;

impl ForgetGroup {
    /// The generators, in order.
    pub fn apply(generators: &[String]) -> (r: Vec<String>)
        ensures
            r@ == generators@,
    {
        let mut r: Vec<String> = Vec::new();
        let n: usize = generators.len();
        for i in 0..n
            invariant
                n == generators@.len(),
                r@ == generators@.take(i as int),
        {
            r.push(generators[i].clone());
            assert(generators@.take(i + 1) == generators@.take(i as int).push(generators@[i as int]));
        }
        assert(generators@.take(n as int) == generators@);
        r
    }
}

} // verus!
