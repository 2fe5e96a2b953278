//! Unit natural transformations (η) and the morphisms of a path category.
//!
//! For the free monoid, η(x) = [x]; for the free category on a graph,
//! η(v) is the identity morphism (the empty path) at the vertex v.
use std::marker::PhantomData;
use vstd::prelude::*;

verus! {

/// A vertex of a graph.
pub type Vertex = usize;

/// A unit natural transformation η from `A` to `B`, given by a function.
#[derive(Debug)]
pub struct Unit<A, B, F> {
    /// Human-readable name.
    pub name: String,
    /// The underlying function η: A → B.
    pub transform: F,
    /// Marks the source and target types.
    pub kinds: PhantomData<(A, B)>,
}

impl<A, B, F: Clone> Clone for Unit<A, B, F> {
    /// A copy with the same name and a clone of the function.
    fn clone(&self) -> (r: Self)
        ensures
            r.name@ == self.name@,
            cloned(self.transform, r.transform),
    {
        Unit { name: self.name.clone(), transform: self.transform.clone(), kinds: PhantomData }
    }
}

impl<A, B, F: Fn(A) -> B> Unit<A, B, F> {
    /// Create a new named unit transformation.
    pub fn new(name: &str, transform: F) -> (r: Self)
        ensures
            r.name@ == name@,
            r.transform == transform,
    {
        Unit { name: name.to_string(), transform, kinds: PhantomData }
    }

    /// Apply the unit transformation to an object.
    pub fn apply(&self, a: A) -> (b: B)
        requires
            call_requires(self.transform, (a,)),
        ensures
            call_ensures(self.transform, (a,), b),
    {
        (self.transform)(a)
    }
}

/// A morphism of the path category: a path of edges from `source` to `target`.
#[derive(Debug, Clone, PartialEq, Eq)]
pub struct Morphism {
    /// Source vertex.
    pub source: Vertex,
    /// Target vertex.
    pub target: Vertex,
    /// The edges traversed, in order (empty for an identity morphism).
    pub path: Vec<(Vertex, Vertex)>,
}

/// The mathematical value of a morphism.
pub struct MorphismView {
    pub source: Vertex,
    pub target: Vertex,
    pub path: Seq<(Vertex, Vertex)>,
}

impl View for Morphism {
    type V = MorphismView;

    open spec fn view(&self) -> MorphismView {
        MorphismView { source: self.source, target: self.target, path: self.path@ }
    }
}

/// The identity morphism at `v`: the empty path from `v` to `v`.
pub open spec fn identity_view(v: Vertex) -> MorphismView {
    MorphismView { source: v, target: v, path: Seq::empty() }
}

/// Composition "first `f`, then `g`": defined when `f` ends where `g` starts,
/// and then the concatenation of the two paths.
pub open spec fn compose_view(f: MorphismView, g: MorphismView) -> Option<MorphismView> {
    if f.target == g.source {
        Some(MorphismView { source: f.source, target: g.target, path: f.path + g.path })
    } else {
        None
    }
}

/// A morphism is an identity when it is the empty path at one vertex.
pub open spec fn is_identity_view(m: MorphismView) -> bool {
    m.source == m.target && m.path.len() == 0
}

/// The values of a sequence of morphisms.
pub open spec fn morphisms_view(s: Seq<Morphism>) -> Seq<MorphismView> {
    s.map_values(|m: Morphism| m@)
}

/// The morphism that `m` stands for, if any.
pub open spec fn option_view(m: Option<Morphism>) -> Option<MorphismView> {
    match m {
        Some(x) => Some(x@),
        None => None,
    }
}

impl Morphism {
    /// Create an identity morphism at a vertex (empty path).
    pub fn identity(v: Vertex) -> (r: Morphism)
        ensures
            r@ == identity_view(v),
    {
        Morphism { source: v, target: v, path: Vec::new() }
    }

    /// Compose two morphisms: first `self`, then `other`.
    pub fn compose(&self, other: &Morphism) -> (r: Option<Morphism>)
        ensures
            option_view(r) == compose_view(self@, other@),
    {
        if self.target != other.source {
            return None;
        }
        let mut path = crate::vecs::copy_vec(&self.path);
        let mut i: usize = 0;
        while i < other.path.len()
            invariant
                i <= other.path@.len(),
                path@ == self.path@ + other.path@.take(i as int),
            decreases other.path@.len() - i,
        {
            path.push(other.path[i]);
            assert(other.path@.take(i + 1) == other.path@.take(i as int).push(other.path@[i as int]));
            i = i + 1;
        }
        assert(other.path@.take(i as int) == other.path@);
        Some(Morphism { source: self.source, target: other.target, path })
    }

    /// Check if this is an identity morphism.
    pub fn is_identity(&self) -> (r: bool)
        ensures
            r == is_identity_view(self@),
    {
        self.source == self.target && self.path.len() == 0
    }

    /// A fresh morphism with the same source, target and path.
    pub(crate) fn duplicate(&self) -> (r: Morphism)
        ensures
            r@ == self@,
    {
        Morphism { source: self.source, target: self.target, path: crate::vecs::copy_vec(&self.path) }
    }

    /// Whether two morphisms have the same source, target and path.
    pub(crate) fn same_as(&self, other: &Morphism) -> (r: bool)
        ensures
            r == (self@ == other@),
    {
        self.source == other.source && self.target == other.target && same_edges(
            &self.path,
            &other.path,
        )
    }
}

/// Whether two edge lists are equal, edge by edge.
pub(crate) fn same_edges(a: &Vec<(Vertex, Vertex)>, b: &Vec<(Vertex, Vertex)>) -> (r: bool)
    ensures
        r == (a@ == b@),
{
    if a.len() != b.len() {
        return false;
    }
    let n: usize = a.len();
    for i in 0..n
        invariant
            n == a@.len(),
            n == b@.len(),
            forall|k: int| 0 <= k < i ==> a@[k] == b@[k],
    {
        let (a0, a1) = a[i];
        let (b0, b1) = b[i];
        if a0 != b0 || a1 != b1 {
            return false;
        }
    }
    assert(a@ =~= b@);
    true
}

/// Identity morphisms are neutral for composition on both sides.
pub proof fn lemma_compose_identity(f: MorphismView)
    ensures
        compose_view(identity_view(f.source), f) == Some(f),
        compose_view(f, identity_view(f.target)) == Some(f),
{
    assert(Seq::<(Vertex, Vertex)>::empty() + f.path =~= f.path);
    assert(f.path + Seq::<(Vertex, Vertex)>::empty() =~= f.path);
}

/// Composition is associative: `(f then g) then h` is defined exactly when
/// `f then (g then h)` is, and then both are the same morphism.
pub proof fn lemma_compose_associative(f: MorphismView, g: MorphismView, h: MorphismView)
    ensures
        (compose_view(f, g) is Some && compose_view(compose_view(f, g).unwrap(), h) is Some)
            <==> (compose_view(g, h) is Some && compose_view(f, compose_view(g, h).unwrap()) is Some),
        compose_view(f, g) is Some && compose_view(g, h) is Some ==> compose_view(
            compose_view(f, g).unwrap(),
            h,
        ) == compose_view(f, compose_view(g, h).unwrap()),
{
    assert((f.path + g.path) + h.path =~= f.path + (g.path + h.path));
}

/// Composing `f` then `g` is defined exactly when `f` ends where `g` starts;
/// the composite then runs from the source of `f` to the target of `g`, and its
/// path is every edge of `f` followed by every edge of `g`, none dropped or
/// repeated: it has `|f| + |g|` edges, begins with the edges of `f` and goes on
/// with those of `g`.
pub proof fn lemma_compose_concatenates(f: MorphismView, g: MorphismView)
    ensures
        compose_view(f, g) is Some <==> f.target == g.source,
        compose_view(f, g) is Some ==> {
            let c = compose_view(f, g).unwrap();
            &&& c.source == f.source
            &&& c.target == g.target
            &&& c.path.len() == f.path.len() + g.path.len()
            &&& forall|i: int| 0 <= i < f.path.len() ==> #[trigger] c.path[i] == f.path[i]
            &&& forall|i: int| 0 <= i < g.path.len() ==> c.path[f.path.len() + i] == #[trigger] g.path[i]
        },
{
}

/// Unit of the free monoid adjunction: η sends `x` to the one-element list `[x]`.
pub fn free_monoid_unit() -> (r: Unit<i32, Vec<i32>, impl Fn(i32) -> Vec<i32>>)
    ensures
        r.name@ == "FreeMonoid Unit η: S → U(F(S))"@,
        forall|x: i32| call_requires(r.transform, (x,)),
        forall|x: i32, v: Vec<i32>| call_ensures(r.transform, (x,), v) ==> v@ == seq![x],
{
    Unit::new("FreeMonoid Unit η: S → U(F(S))", |x: i32| -> (v: Vec<i32>)
        ensures
            v@ == seq![x],
        {
            let mut v: Vec<i32> = Vec::new();
            v.push(x);
            v
        })
}

/// Unit of the free monoid adjunction on strings: η sends `s` to `[s]`.
pub fn free_monoid_unit_string() -> (r: Unit<String, Vec<String>, impl Fn(String) -> Vec<String>>)
    ensures
        r.name@ == "FreeMonoid Unit η (String)"@,
        forall|s: String| call_requires(r.transform, (s,)),
        forall|s: String, v: Vec<String>| call_ensures(r.transform, (s,), v) ==> v@ == seq![s],
{
    Unit::new("FreeMonoid Unit η (String)", |s: String| -> (v: Vec<String>)
        ensures
            v@ == seq![s],
        {
            let mut v: Vec<String> = Vec::new();
            v.push(s);
            v
        })
}

/// Unit of the free category adjunction: η sends a vertex to its identity morphism.
pub fn free_category_unit() -> (r: Unit<Vertex, Morphism, impl Fn(Vertex) -> Morphism>)
    ensures
        r.name@ == "FreeCategory Unit η: V → id_v"@,
        forall|v: Vertex| call_requires(r.transform, (v,)),
        forall|v: Vertex, m: Morphism| call_ensures(r.transform, (v,), m) ==> m@ == identity_view(v),
{
    Unit::new("FreeCategory Unit η: V → id_v", |v: Vertex| -> (m: Morphism)
        ensures
            m@ == identity_view(v),
        { Morphism::identity(v) })
}

/// The unit of the free category at one vertex: the identity morphism there.
pub fn identity_morphism_at(v: Vertex) -> (r: Morphism)
    ensures
        r@ == identity_view(v),
{
    Morphism::identity(v)
}

} // verus!
