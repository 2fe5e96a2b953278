//! Counit natural transformations (ε), list monoids, graphs and path categories.
//!
//! The counit ε: F∘G → 1 of an adjunction F ⊣ G maps an object that has been
//! through both functors back to its simplified form.
use std::marker::PhantomData;
use vstd::prelude::*;
use crate::unit::{identity_view, morphisms_view, Morphism, MorphismView};

verus! {

/// A monoid element: a list of generators, multiplied by concatenation.
#[derive(Debug, Clone, PartialEq, Eq)]
pub struct ListMonoid {
    /// The list of generators.
    pub elements: Vec<i32>,
}

impl View for ListMonoid {
    type V = Seq<i32>;

    open spec fn view(&self) -> Seq<i32> {
        self.elements@
    }
}

/// The values of a sequence of monoid elements.
pub open spec fn monoids_view(s: Seq<ListMonoid>) -> Seq<Seq<i32>> {
    s.map_values(|m: ListMonoid| m@)
}

impl ListMonoid {
    /// Create a monoid element from its list of generators.
    pub fn new(elements: Vec<i32>) -> (r: ListMonoid)
        ensures
            r@ == elements@,
    {
        ListMonoid { elements }
    }

    /// The monoid operation: concatenation.
    pub fn multiply(&self, other: &ListMonoid) -> (r: ListMonoid)
        ensures
            r@ == self@ + other@,
    {
        let mut result = crate::vecs::copy_vec(&self.elements);
        let n: usize = other.elements.len();
        for i in 0..n
            invariant
                n == other@.len(),
                result@ == self@ + other@.take(i as int),
        {
            result.push(other.elements[i]);
            assert(other@.take(i + 1) == other@.take(i as int).push(other@[i as int]));
        }
        assert(other@.take(n as int) == other@);
        ListMonoid::new(result)
    }

    /// The identity element: the empty list.
    pub fn identity() -> (r: ListMonoid)
        ensures
            r@ == Seq::<i32>::empty(),
    {
        ListMonoid::new(Vec::new())
    }

    /// Whether this is the identity element.
    pub fn is_identity(&self) -> (r: bool)
        ensures
            r == (self@.len() == 0),
    {
        self.elements.len() == 0
    }
}

/// Lists under concatenation form a monoid: the operation is associative and
/// the empty list is neutral on both sides.
pub proof fn lemma_list_monoid_laws(a: Seq<i32>, b: Seq<i32>, c: Seq<i32>)
    ensures
        (a + b) + c == a + (b + c),
        Seq::<i32>::empty() + a == a,
        a + Seq::<i32>::empty() == a,
{
    assert((a + b) + c =~= a + (b + c));
    assert(Seq::<i32>::empty() + a =~= a);
    assert(a + Seq::<i32>::empty() =~= a);
}

/// A counit natural transformation ε on `B`, given by a function.
#[derive(Debug)]
pub struct Counit<B, F> {
    /// Human-readable name.
    pub name: String,
    /// The underlying function ε: B → B.
    pub transform: F,
    /// Marks the object type.
    pub kind: PhantomData<B>,
}

impl<B, F: Clone> Clone for Counit<B, F> {
    /// A copy with the same name and a clone of the function.
    fn clone(&self) -> (r: Self)
        ensures
            r.name@ == self.name@,
            cloned(self.transform, r.transform),
    {
        Counit { name: self.name.clone(), transform: self.transform.clone(), kind: PhantomData }
    }
}

impl<B, F: Fn(&B) -> B> Counit<B, F> {
    /// Create a new named counit transformation.
    pub fn new(name: &str, transform: F) -> (r: Self)
        ensures
            r.name@ == name@,
            r.transform == transform,
    {
        Counit { name: name.to_string(), transform, kind: PhantomData }
    }

    /// Apply the counit transformation.
    pub fn apply(&self, b: &B) -> (r: B)
        requires
            call_requires(self.transform, (b,)),
        ensures
            call_ensures(self.transform, (b,), r),
    {
        (self.transform)(b)
    }
}

/// Counit of the forgetful monoid adjunction: it gives back the same element.
pub fn forgetful_monoid_counit() -> (r: Counit<ListMonoid, impl Fn(&ListMonoid) -> ListMonoid>)
    ensures
        r.name@ == "ForgetfulMonoid Counit ε"@,
        forall|m: &ListMonoid| call_requires(r.transform, (m,)),
        forall|m: &ListMonoid, out: ListMonoid| call_ensures(r.transform, (m,), out) ==> out@ == m@,
{
    Counit::new("ForgetfulMonoid Counit ε", |m: &ListMonoid| -> (out: ListMonoid)
        ensures
            out@ == m@,
        { ListMonoid::new(crate::vecs::copy_vec(&m.elements)) })
}

/// A directed edge: (from, to).
pub type Edge = (usize, usize);

/// A directed graph: vertices `0..num_vertices` and a list of edges.
#[derive(Debug, Clone, PartialEq, Eq)]
pub struct Graph {
    /// Number of vertices.
    pub num_vertices: usize,
    /// Directed edges, in order.
    pub edges: Vec<Edge>,
}

/// The mathematical value of a graph.
pub struct GraphView {
    pub num_vertices: usize,
    pub edges: Seq<Edge>,
}

impl View for Graph {
    type V = GraphView;

    open spec fn view(&self) -> GraphView {
        GraphView { num_vertices: self.num_vertices, edges: self.edges@ }
    }
}

/// The edge starts at `v`.
pub open spec fn leaves(v: usize) -> spec_fn(Edge) -> bool {
    |e: Edge| e.0 == v
}

/// The edges of `edges` that leave `v`, in order.
pub open spec fn outgoing(edges: Seq<Edge>, v: usize) -> Seq<Edge> {
    edges.filter(leaves(v))
}

/// Taking one more edge adds it to the outgoing edges exactly when it leaves `v`.
pub(crate) proof fn lemma_outgoing_step(edges: Seq<Edge>, v: usize, i: int)
    requires
        0 <= i < edges.len(),
    ensures
        outgoing(edges.take(i + 1), v) == if edges[i].0 == v {
            outgoing(edges.take(i), v).push(edges[i])
        } else {
            outgoing(edges.take(i), v)
        },
{
    reveal(Seq::filter);
    assert(edges.take(i + 1).drop_last() =~= edges.take(i));
    assert(edges.take(i + 1).last() == edges[i]);
}

impl Graph {
    /// Create a graph.
    pub fn new(num_vertices: usize, edges: Vec<Edge>) -> (r: Graph)
        ensures
            r@ == (GraphView { num_vertices, edges: edges@ }),
    {
        Graph { num_vertices, edges }
    }

    /// The graph with no vertices and no edges.
    pub fn empty() -> (r: Graph)
        ensures
            r@ == (GraphView { num_vertices: 0, edges: Seq::empty() }),
    {
        Graph::new(0, Vec::new())
    }

    /// Add an edge at the end of the edge list.
    pub fn add_edge(&mut self, from: usize, to: usize)
        ensures
            final(self)@ == (GraphView {
                num_vertices: old(self).num_vertices,
                edges: old(self).edges@.push((from, to)),
            }),
    {
        self.edges.push((from, to));
    }

    /// All vertices: `0, 1, ..., num_vertices - 1`.
    pub fn vertices(&self) -> (r: Vec<usize>)
        ensures
            r@ == Seq::new(self.num_vertices as nat, |i: int| i as usize),
    {
        let mut r: Vec<usize> = Vec::new();
        let n: usize = self.num_vertices;
        for i in 0..n
            invariant
                n == self.num_vertices,
                r@ == Seq::new(i as nat, |k: int| k as usize),
        {
            r.push(i);
            assert(r@ =~= Seq::new((i + 1) as nat, |k: int| k as usize));
        }
        r
    }

    /// The edges leaving `v`, in order.
    pub fn edges_from(&self, v: usize) -> (r: Vec<&Edge>)
        ensures
            r@.map_values(|e: &Edge| *e) == outgoing(self.edges@, v),
    {
        let mut r: Vec<&Edge> = Vec::new();
        let n: usize = self.edges.len();
        for i in 0..n
            invariant
                n == self.edges@.len(),
                r@.map_values(|e: &Edge| *e) == outgoing(self.edges@.take(i as int), v),
        {
            let ghost before = r@;
            let e = &self.edges[i];
            proof {
                lemma_outgoing_step(self.edges@, v, i as int);
            }
            if e.0 == v {
                r.push(e);
                assert(r@.map_values(|e: &Edge| *e) =~= before.map_values(|e: &Edge| *e).push(*e));
            }
        }
        assert(self.edges@.take(n as int) == self.edges@);
        r
    }

    /// A fresh graph with the same vertices and edges.
    pub(crate) fn duplicate(&self) -> (r: Graph)
        ensures
            r@ == self@,
    {
        Graph { num_vertices: self.num_vertices, edges: crate::vecs::copy_vec(&self.edges) }
    }
}

/// The identity morphisms of the vertices `0..n`, in order.
pub open spec fn identities_view(n: usize) -> Seq<MorphismView> {
    Seq::new(n as nat, |i: int| identity_view(i as usize))
}

/// The identity morphisms of the vertices `0..n`, in order.
pub(crate) fn identities_up_to(n: usize) -> (r: Vec<Morphism>)
    ensures
        morphisms_view(r@) == identities_view(n),
{
    let mut r: Vec<Morphism> = Vec::new();
    for i in 0..n
        invariant
            r@.len() == i,
            morphisms_view(r@) == Seq::new(i as nat, |k: int| identity_view(k as usize)),
    {
        let ghost before = r@;
        r.push(Morphism::identity(i));
        assert(r@ == before.push(r@[i as int]));
        assert(morphisms_view(r@) =~= Seq::new((i + 1) as nat, |k: int| identity_view(k as usize))) by {
            assert forall|k: int| 0 <= k < i + 1 implies #[trigger] morphisms_view(r@)[k] == identity_view(k as usize) by {
                if k < i {
                    assert(morphisms_view(before)[k] == identity_view(k as usize));
                }
            }
        }
    }
    r
}

/// The category whose objects are the vertices of a graph and whose morphisms
/// are its paths.
#[derive(Debug, Clone, PartialEq, Eq)]
pub struct PathCategory {
    /// The underlying graph.
    pub graph: Graph,
}

impl View for PathCategory {
    type V = GraphView;

    /// A path category is determined by its graph.
    open spec fn view(&self) -> GraphView {
        self.graph@
    }
}

impl PathCategory {
    /// The path category of a graph.
    pub fn from_graph(graph: &Graph) -> (r: PathCategory)
        ensures
            r@ == graph@,
    {
        PathCategory { graph: graph.duplicate() }
    }

    /// The identity morphism of each object, in vertex order.
    pub fn identities(&self) -> (r: Vec<Morphism>)
        ensures
            morphisms_view(r@) == identities_view(self.graph.num_vertices),
    {
        identities_up_to(self.graph.num_vertices)
    }
}

/// Counit of the forgetful category adjunction: it gives back the same category.
pub fn forgetful_category_counit() -> (r: Counit<PathCategory, impl Fn(&PathCategory) -> PathCategory>)
    ensures
        r.name@ == "ForgetfulCat Counit ε"@,
        forall|c: &PathCategory| call_requires(r.transform, (c,)),
        forall|c: &PathCategory, out: PathCategory| call_ensures(r.transform, (c,), out) ==> out@ == c@,
{
    Counit::new("ForgetfulCat Counit ε", |c: &PathCategory| -> (out: PathCategory)
        ensures
            out@ == c@,
        { PathCategory { graph: c.graph.duplicate() } })
}

} // verus!
