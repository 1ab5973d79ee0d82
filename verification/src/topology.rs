//! Index buffers of a navigation mesh: the triangles and the wireframe that
//! show its polygons, the triangles read back from a triangle list, and the
//! outline of a polygon.
//!
//! A polygon is the list of the indices of its vertices, in counter-clockwise
//! order; the coordinates of the vertices are handled by the caller.
use vstd::prelude::*;

use itertools::Itertools;

verus! {

/// The polygons of a mesh, each as the sequence of its vertex indices.
pub open spec fn polygon_seqs(polygons: Seq<Vec<u32>>) -> Seq<Seq<u32>> {
    polygons.map_values(|p: Vec<u32>| p@)
}

/// The fan of triangles `(p[0], p[i - 1], p[i])` for `2 <= i < k`, one index
/// after the other.
pub open spec fn fan_prefix(p: Seq<u32>, k: int) -> Seq<u32>
    decreases k,
{
    if k <= 2 {
        Seq::empty()
    } else {
        fan_prefix(p, k - 1) + seq![p[0], p[k - 2], p[k - 1]]
    }
}

/// The fan of triangles that covers the polygon `p`, from its first vertex.
pub open spec fn fan_indices(p: Seq<u32>) -> Seq<u32> {
    fan_prefix(p, p.len() as int)
}

/// The fans of all the polygons, one after the other.
pub open spec fn mesh_fan_indices(polygons: Seq<Seq<u32>>) -> Seq<u32>
    decreases polygons.len(),
{
    if polygons.len() == 0 {
        Seq::empty()
    } else {
        mesh_fan_indices(polygons.drop_last()) + fan_indices(polygons.last())
    }
}

/// The triangles of the fan of `p` up to `k`, as triples of vertex indices.
pub open spec fn fan_triangles_prefix(p: Seq<u32>, k: int) -> Seq<(u32, u32, u32)>
    decreases k,
{
    if k <= 2 {
        Seq::empty()
    } else {
        fan_triangles_prefix(p, k - 1).push((p[0], p[k - 2], p[k - 1]))
    }
}

/// The triangles of the fans of all the polygons, one after the other.
pub open spec fn mesh_fan_triangles(polygons: Seq<Seq<u32>>) -> Seq<(u32, u32, u32)>
    decreases polygons.len(),
{
    if polygons.len() == 0 {
        Seq::empty()
    } else {
        mesh_fan_triangles(polygons.drop_last()) + fan_triangles_prefix(
            polygons.last(),
            polygons.last().len() as int,
        )
    }
}

/// The index buffer of the triangles that show the polygons of a mesh: each
/// polygon is cut into the fan of triangles from its first vertex.
pub fn triangle_fan_indices(polygons: &Vec<Vec<u32>>) -> (r: Vec<u32>)
    ensures
        r@ == mesh_fan_indices(polygon_seqs(polygons@)),
{
    let mut r: Vec<u32> = Vec::new();
    let mut n: usize = 0;
    while n < polygons.len()
        invariant
            0 <= n <= polygons.len(),
            r@ == mesh_fan_indices(polygon_seqs(polygons@.subrange(0, n as int))),
        decreases polygons.len() - n,
    {
        let p = &polygons[n];
        let ghost base = r@;
        let mut i: usize = 2;
        while i < p.len()
            invariant
                2 <= i,
                i <= p.len() || p.len() < 2,
                p.len() < 2 ==> i == 2,
                n < polygons@.len(),
                p@ == polygons@[n as int]@,
                r@ == base + fan_prefix(p@, i as int),
            decreases p.len() - i,
        {
            r.push(p[0]);
            r.push(p[i - 1]);
            r.push(p[i]);
            proof {
                assert(fan_prefix(p@, i + 1) == fan_prefix(p@, i as int) + seq![
                    p@[0],
                    p@[i - 1],
                    p@[i as int],
                ]);
                assert(r@ =~= base + fan_prefix(p@, i + 1));
            }
            i = i + 1;
        }
        proof {
            if p.len() >= 2 {
                assert(i == p.len());
            } else {
                assert(fan_prefix(p@, p@.len() as int) == fan_prefix(p@, i as int));
            }
            let done = polygons@.subrange(0, n + 1);
            assert(done.drop_last() =~= polygons@.subrange(0, n as int));
            assert(polygon_seqs(done).drop_last() =~= polygon_seqs(done.drop_last()));
            assert(polygon_seqs(done).last() == p@);
        }
        n = n + 1;
    }
    proof {
        assert(polygons@.subrange(0, polygons@.len() as int) =~= polygons@);
    }
    r
}

/// The edges `(p[i], p[(i + 1) % n])` of the polygon `p` for `0 <= i < k`,
/// where `n` is its number of vertices.
pub open spec fn edges_prefix(p: Seq<u32>, k: int) -> Seq<(u32, u32)>
    decreases k,
{
    if k <= 0 {
        Seq::empty()
    } else {
        edges_prefix(p, k - 1).push((p[k - 1], p[k % (p.len() as int)]))
    }
}

/// The edges of the polygon `p`, from each vertex to the next one, the last
/// one going back to the first.
pub open spec fn polygon_edges(p: Seq<u32>) -> Seq<(u32, u32)> {
    edges_prefix(p, p.len() as int)
}

/// The edges of all the polygons, one polygon after the other.
pub open spec fn mesh_edges(polygons: Seq<Seq<u32>>) -> Seq<(u32, u32)>
    decreases polygons.len(),
{
    if polygons.len() == 0 {
        Seq::empty()
    } else {
        mesh_edges(polygons.drop_last()) + polygon_edges(polygons.last())
    }
}

/// An edge without its direction: its two vertex indices, the smaller first.
pub open spec fn edge_key(e: (u32, u32)) -> (u32, u32) {
    if e.0 < e.1 {
        (e.0, e.1)
    } else {
        (e.1, e.0)
    }
}

/// The undirected edges of `edges`.
pub open spec fn edge_keys(edges: Seq<(u32, u32)>) -> Seq<(u32, u32)> {
    edges.map_values(|e: (u32, u32)| edge_key(e))
}

/// The edges of `edges` whose undirected edge does not occur earlier, in order:
/// of the edges that join the same two vertices, the first one is kept.
pub open spec fn first_of_each_edge(edges: Seq<(u32, u32)>) -> Seq<(u32, u32)>
    decreases edges.len(),
{
    if edges.len() == 0 {
        Seq::empty()
    } else {
        let kept = first_of_each_edge(edges.drop_last());
        if edge_keys(edges.drop_last()).contains(edge_key(edges.last())) {
            kept
        } else {
            kept.push(edges.last())
        }
    }
}

/// The edges laid out one after the other, two vertex indices each.
pub open spec fn edge_index_list(edges: Seq<(u32, u32)>) -> Seq<u32>
    decreases edges.len(),
{
    if edges.len() == 0 {
        Seq::empty()
    } else {
        edge_index_list(edges.drop_last()) + seq![edges.last().0, edges.last().1]
    }
}

/// The undirected form of an edge, by which duplicate edges are found.
fn undirected_edge(e: &(u32, u32)) -> (r: (u32, u32))
    ensures
        r == edge_key(*e),
{
    if e.0 < e.1 {
        (e.0, e.1)
    } else {
        (e.1, e.0)
    }
}

/// Calls `Itertools::unique_by` of the `itertools` crate on the edges, with
/// their undirected form as the key, and collects the result.
///
/// Its documentation says that the adaptor keeps the items whose key was not
/// produced before, in their order, the first of several items with the same
/// key being the one kept: the contract states this as `first_of_each_edge`.
#[verifier::external_body]
fn unique_by_undirected(edges: Vec<(u32, u32)>) -> (r: Vec<(u32, u32)>)
    ensures
        r@ == first_of_each_edge(edges@),
{
    edges.into_iter().unique_by(|e| undirected_edge(e)).collect()
}

/// The index buffer of the line list that shows the wireframe of the
/// polygons of a mesh: every edge of every polygon, each pair of joined
/// vertices once (an edge shared by two polygons is drawn once, in the
/// direction of its first occurrence).
pub fn wireframe_indices(polygons: &Vec<Vec<u32>>) -> (r: Vec<u32>)
    ensures
        r@ == edge_index_list(first_of_each_edge(mesh_edges(polygon_seqs(polygons@)))),
{
    let mut edges: Vec<(u32, u32)> = Vec::new();
    let mut n: usize = 0;
    while n < polygons.len()
        invariant
            0 <= n <= polygons.len(),
            edges@ == mesh_edges(polygon_seqs(polygons@.subrange(0, n as int))),
        decreases polygons.len() - n,
    {
        let p = &polygons[n];
        let ghost base = edges@;
        let len = p.len();
        let mut i: usize = 0;
        while i < len
            invariant
                0 <= i <= len,
                len == p@.len(),
                n < polygons@.len(),
                p@ == polygons@[n as int]@,
                edges@ == base + edges_prefix(p@, i as int),
            decreases len - i,
        {
            let next = (i + 1) % len;
            edges.push((p[i], p[next]));
            proof {
                assert(edges@ =~= base + edges_prefix(p@, i + 1));
            }
            i = i + 1;
        }
        proof {
            let done = polygons@.subrange(0, n + 1);
            assert(done.drop_last() =~= polygons@.subrange(0, n as int));
            assert(polygon_seqs(done).drop_last() =~= polygon_seqs(done.drop_last()));
            assert(polygon_seqs(done).last() == p@);
        }
        n = n + 1;
    }
    proof {
        assert(polygons@.subrange(0, polygons@.len() as int) =~= polygons@);
    }
    let unique = unique_by_undirected(edges);
    let mut r: Vec<u32> = Vec::new();
    let mut k: usize = 0;
    while k < unique.len()
        invariant
            0 <= k <= unique.len(),
            r@ == edge_index_list(unique@.subrange(0, k as int)),
        decreases unique.len() - k,
    {
        let (a, b) = unique[k];
        r.push(a);
        r.push(b);
        proof {
            let done = unique@.subrange(0, k + 1);
            assert(done.drop_last() =~= unique@.subrange(0, k as int));
            assert(r@ =~= edge_index_list(done));
        }
        k = k + 1;
    }
    proof {
        assert(unique@.subrange(0, unique@.len() as int) =~= unique@);
    }
    r
}

/// The consecutive triples of `indices`, a trailing incomplete one dropped.
pub open spec fn index_triples(indices: Seq<usize>) -> Seq<(usize, usize, usize)> {
    Seq::new(
        indices.len() / 3,
        |k: int| (indices[3 * k], indices[3 * k + 1], indices[3 * k + 2]),
    )
}

/// A triangle `(a, b, c)` with its winding reversed: `[c, b, a]`.
pub open spec fn reversed_triangle(t: (usize, usize, usize)) -> Seq<usize> {
    seq![t.2, t.1, t.0]
}

/// Calls `Itertools::tuples` of the `itertools` crate on the indices, to
/// group them in triples, and collects the result.
///
/// Its documentation and source show that the adaptor yields the
/// consecutive, non-overlapping groups of three items in order, and drops the
/// items of a last incomplete group: the contract states this as `index_triples`.
#[verifier::external_body]
fn group_in_triples(indices: &Vec<usize>) -> (r: Vec<(usize, usize, usize)>)
    ensures
        r@ == index_triples(indices@),
{
    indices.iter().copied().tuples::<(usize, usize, usize)>().collect()
}

/// The triangles of a triangle list index buffer, with their winding
/// reversed: indices `a, b, c` give the triangle `[c, b, a]`. Indices past the
/// last complete triangle are ignored.
pub fn triangles_from_indices(indices: &Vec<usize>) -> (r: Vec<[usize; 3]>)
    ensures
        r@.len() == indices@.len() / 3,
        forall|k: int|
            0 <= k < r@.len() ==> #[trigger] r@[k]@ == reversed_triangle(index_triples(indices@)[k]),
{
    let triples = group_in_triples(indices);
    let mut r: Vec<[usize; 3]> = Vec::new();
    let mut k: usize = 0;
    while k < triples.len()
        invariant
            0 <= k <= triples.len(),
            triples@ == index_triples(indices@),
            r@.len() == k,
            forall|j: int| 0 <= j < k ==> #[trigger] r@[j]@ == reversed_triangle(triples@[j]),
        decreases triples.len() - k,
    {
        let (a, b, c) = triples[k];
        let t = [c, b, a];
        proof {
            assert(t@ =~= reversed_triangle(triples@[k as int]));
        }
        r.push(t);
        k = k + 1;
    }
    r
}

/// The outline of a polygon: its vertex indices without the marks of missing
/// vertices (`u32::MAX`), closed by its first vertex index when any is left.
pub open spec fn outline_spec(p: Seq<u32>) -> Seq<u32> {
    let present = p.filter(|v: u32| v != u32::MAX);
    if present.len() == 0 {
        present
    } else {
        present.push(p[0])
    }
}

/// The vertex indices of the closed line that draws the outline of a polygon.
pub fn outline_indices(vertices: &Vec<u32>) -> (r: Vec<u32>)
    ensures
        r@ == outline_spec(vertices@),
{
    let ghost pred = |v: u32| v != u32::MAX;
    let mut r: Vec<u32> = Vec::new();
    let mut i: usize = 0;
    while i < vertices.len()
        invariant
            0 <= i <= vertices.len(),
            r@ == vertices@.subrange(0, i as int).filter(pred),
            pred == (|v: u32| v != u32::MAX),
        decreases vertices.len() - i,
    {
        let v = vertices[i];
        proof {
            let pre = vertices@.subrange(0, i as int);
            assert(vertices@.subrange(0, i + 1) =~= pre.push(v));
            pre.lemma_filter_push(v, pred);
        }
        if v != u32::MAX {
            r.push(v);
        }
        i = i + 1;
    }
    proof {
        assert(vertices@.subrange(0, vertices@.len() as int) =~= vertices@);
    }
    if r.len() > 0 {
        r.push(vertices[0]);
    }
    r
}

/// How the vertices of a render mesh are put together into primitives.
#[derive(Debug, Clone, Copy, PartialEq, Eq, Structural)]
pub enum MeshTopology {
    /// Each vertex is a point.
    PointList,
    /// Each pair of vertices is a line.
    LineList,
    /// Each vertex after the first ends a line started by the one before.
    LineStrip,
    /// Each triple of vertices is a triangle.
    TriangleList,
    /// Each vertex after the second ends a triangle with the two before.
    TriangleStrip,
}

/// A navigation mesh can be read from a render mesh only when its indices
/// come in triangles, three by three.
pub fn is_navmesh_topology(topology: MeshTopology) -> (r: bool)
    ensures
        r == (topology == MeshTopology::TriangleList),
{
    match topology {
        MeshTopology::TriangleList => true,
        _ => false,
    }
}

/// The colour a navigation mesh is drawn with: its own when it has one,
/// otherwise the one set for every navigation mesh, if any; `None` when it
/// is not drawn.
pub fn shown_color<C>(own: Option<C>, everywhere: Option<C>) -> (r: Option<C>)
    ensures
        r == match own {
            Some(c) => Some(c),
            None => everywhere,
        },
{
    match own {
        Some(c) => Some(c),
        None => everywhere,
    }
}

/// Vertex indices widened from `u32` to `usize`, as a triangle list index
/// buffer is read back.
pub open spec fn widen(s: Seq<u32>) -> Seq<usize> {
    s.map_values(|x: u32| x as usize)
}

/// A triangle of `u32` indices widened to `usize` indices.
pub open spec fn widen_triangle(t: (u32, u32, u32)) -> (usize, usize, usize) {
    (t.0 as usize, t.1 as usize, t.2 as usize)
}

proof fn lemma_triples_of_concat(a: Seq<usize>, b: Seq<usize>)
    requires
        a.len() % 3 == 0,
    ensures
        index_triples(a + b) == index_triples(a) + index_triples(b),
{
    let q = a.len() / 3;
    assert(a.len() == 3 * q);
    let l = index_triples(a + b);
    let m = index_triples(a) + index_triples(b);
    assert((a.len() + b.len()) / 3 == q + b.len() / 3);
    assert(l.len() == m.len());
    assert forall|k: int| 0 <= k < l.len() implies l[k] == m[k] by {
        if k < q {
            assert(3 * k + 2 < a.len());
        } else {
            let j = k - q;
            assert(3 * k == a.len() + 3 * j);
            assert(3 * j + 2 < b.len());
        }
    }
    assert(l =~= m);
}

proof fn lemma_fan_prefix_triples(p: Seq<u32>, k: int)
    requires
        k <= p.len(),
    ensures
        widen(fan_prefix(p, k)).len() % 3 == 0,
        index_triples(widen(fan_prefix(p, k))) == fan_triangles_prefix(p, k).map_values(
            |t: (u32, u32, u32)| widen_triangle(t),
        ),
    decreases k,
{
    if k <= 2 {
        assert(index_triples(widen(fan_prefix(p, k))) =~= Seq::<(usize, usize, usize)>::empty());
        assert(fan_triangles_prefix(p, k).map_values(|t: (u32, u32, u32)| widen_triangle(t))
            =~= Seq::<(usize, usize, usize)>::empty());
    } else {
        lemma_fan_prefix_triples(p, k - 1);
        let before = fan_prefix(p, k - 1);
        let step = seq![p[0], p[k - 2], p[k - 1]];
        assert(widen(before + step) =~= widen(before) + widen(step));
        lemma_triples_of_concat(widen(before), widen(step));
        assert(index_triples(widen(step)) =~= seq![
            (p[0] as usize, p[k - 2] as usize, p[k - 1] as usize),
        ]);
        assert(fan_triangles_prefix(p, k).map_values(|t: (u32, u32, u32)| widen_triangle(t))
            =~= fan_triangles_prefix(p, k - 1).map_values(
            |t: (u32, u32, u32)| widen_triangle(t),
        ).push(widen_triangle((p[0], p[k - 2], p[k - 1]))));
        assert(index_triples(widen(fan_prefix(p, k))) =~= index_triples(widen(before))
            + index_triples(widen(step)));
    }
}

/// Showing a mesh and reading it back gives its triangles, with their winding
/// reversed: the triples of the index buffer that `triangle_fan_indices`
/// builds, read as `triangles_from_indices` reads them, are the fan triangles
/// of the polygons, in order. With the reversal of `triangles_from_indices`,
/// turning a navigation mesh into a mesh and back gives each fan triangle
/// reversed.
pub proof fn fan_indices_read_back(polygons: Seq<Seq<u32>>)
    ensures
        widen(mesh_fan_indices(polygons)).len() % 3 == 0,
        index_triples(widen(mesh_fan_indices(polygons))) == mesh_fan_triangles(polygons).map_values(
            |t: (u32, u32, u32)| widen_triangle(t),
        ),
    decreases polygons.len(),
{
    if polygons.len() == 0 {
        assert(index_triples(widen(mesh_fan_indices(polygons))) =~= Seq::<
            (usize, usize, usize),
        >::empty());
        assert(mesh_fan_triangles(polygons).map_values(|t: (u32, u32, u32)| widen_triangle(t))
            =~= Seq::<(usize, usize, usize)>::empty());
    } else {
        let rest = polygons.drop_last();
        let p = polygons.last();
        fan_indices_read_back(rest);
        lemma_fan_prefix_triples(p, p.len() as int);
        assert(widen(mesh_fan_indices(polygons)) =~= widen(mesh_fan_indices(rest)) + widen(
            fan_indices(p),
        ));
        lemma_triples_of_concat(widen(mesh_fan_indices(rest)), widen(fan_indices(p)));
        assert(mesh_fan_triangles(polygons).map_values(|t: (u32, u32, u32)| widen_triangle(t))
            =~= mesh_fan_triangles(rest).map_values(|t: (u32, u32, u32)| widen_triangle(t))
            + fan_triangles_prefix(p, p.len() as int).map_values(
            |t: (u32, u32, u32)| widen_triangle(t),
        ));
    }
}

/// The edges that `first_of_each_edge` keeps join distinct pairs of vertices,
/// are taken from `edges`, and join every pair of vertices that an edge of
/// `edges` joins.
pub proof fn first_of_each_edge_covers_once(edges: Seq<(u32, u32)>)
    ensures
        forall|i: int, j: int|
            0 <= i < j < first_of_each_edge(edges).len() ==> edge_key(
                #[trigger] first_of_each_edge(edges)[i],
            ) != edge_key(#[trigger] first_of_each_edge(edges)[j]),
        forall|e: (u32, u32)| #[trigger] first_of_each_edge(edges).contains(e) ==> edges.contains(e),
        forall|e: (u32, u32)|
            #[trigger] edges.contains(e) ==> edge_keys(first_of_each_edge(edges)).contains(
                edge_key(e),
            ),
    decreases edges.len(),
{
    let r = first_of_each_edge(edges);
    if edges.len() == 0 {
    } else {
        let rest = edges.drop_last();
        let last = edges.last();
        let kept = first_of_each_edge(rest);
        first_of_each_edge_covers_once(rest);
        assert forall|e: (u32, u32)| #[trigger] rest.contains(e) implies edges.contains(e) by {
            let k = choose|k: int| 0 <= k < rest.len() && rest[k] == e;
            assert(edges[k] == e);
        }
        assert forall|e: (u32, u32)| kept.contains(e) implies edge_keys(rest).contains(
            edge_key(e),
        ) by {
            assert(rest.contains(e));
            let k = choose|k: int| 0 <= k < rest.len() && rest[k] == e;
            assert(edge_keys(rest)[k] == edge_key(e));
        }
        if edge_keys(rest).contains(edge_key(last)) {
            assert(r == kept);
            let k = choose|k: int| 0 <= k < rest.len() && edge_keys(rest)[k] == edge_key(last);
            assert(rest.contains(rest[k]));
            assert(edge_keys(kept).contains(edge_key(rest[k])));
            assert forall|e: (u32, u32)| #[trigger] edges.contains(e) implies edge_keys(
                r,
            ).contains(edge_key(e)) by {
                let m = choose|m: int| 0 <= m < edges.len() && edges[m] == e;
                if m < rest.len() {
                    assert(rest[m] == e);
                    assert(rest.contains(e));
                }
            }
        } else {
            assert(r == kept.push(last));
            assert forall|i: int, j: int|
                0 <= i < j < r.len() implies edge_key(#[trigger] r[i]) != edge_key(
                #[trigger] r[j],
            ) by {
                if j == r.len() - 1 {
                    assert(r[j] == last);
                    assert(kept.contains(r[i]));
                }
            }
            assert forall|e: (u32, u32)| #[trigger] r.contains(e) implies edges.contains(e) by {
                let k = choose|k: int| 0 <= k < r.len() && r[k] == e;
                if k < kept.len() {
                    assert(kept.contains(e));
                } else {
                    assert(edges[edges.len() - 1] == e);
                }
            }
            assert(edge_keys(r) =~= edge_keys(kept).push(edge_key(last)));
            assert forall|e: (u32, u32)| #[trigger] edges.contains(e) implies edge_keys(
                r,
            ).contains(edge_key(e)) by {
                let m = choose|m: int| 0 <= m < edges.len() && edges[m] == e;
                if m < rest.len() {
                    assert(rest[m] == e);
                    assert(rest.contains(e));
                    let n = choose|n: int|
                        0 <= n < edge_keys(kept).len() && edge_keys(kept)[n] == edge_key(e);
                    assert(edge_keys(r)[n] == edge_key(e));
                } else {
                    assert(edge_keys(r)[r.len() - 1] == edge_key(e));
                }
            }
        }
    }
}

proof fn lemma_mesh_edges_contain(polygons: Seq<Seq<u32>>, n: int, k: int)
    requires
        0 <= n < polygons.len(),
        0 <= k < polygon_edges(polygons[n]).len(),
    ensures
        mesh_edges(polygons).contains(polygon_edges(polygons[n])[k]),
    decreases polygons.len(),
{
    let rest = polygons.drop_last();
    let e = polygon_edges(polygons[n])[k];
    if n == polygons.len() - 1 {
        let before = mesh_edges(rest);
        assert(mesh_edges(polygons)[before.len() + k] == e);
    } else {
        assert(rest[n] == polygons[n]);
        lemma_mesh_edges_contain(rest, n, k);
        let m = choose|m: int| 0 <= m < mesh_edges(rest).len() && mesh_edges(rest)[m] == e;
        assert(mesh_edges(polygons)[m] == e);
    }
}

/// The wireframe of a mesh draws every edge of every polygon: for each edge
/// of each polygon, the wireframe holds an edge that joins the same two
/// vertices. And it draws each of them once: no two of its edges join the
/// same two vertices.
pub proof fn wireframe_draws_each_edge_once(polygons: Seq<Seq<u32>>)
    ensures
        forall|n: int, k: int|
            0 <= n < polygons.len() && 0 <= k < polygon_edges(polygons[n]).len() ==> edge_keys(
                first_of_each_edge(mesh_edges(polygons)),
            ).contains(edge_key(#[trigger] polygon_edges(polygons[n])[k])),
        forall|i: int, j: int|
            0 <= i < j < first_of_each_edge(mesh_edges(polygons)).len() ==> edge_key(
                #[trigger] first_of_each_edge(mesh_edges(polygons))[i],
            ) != edge_key(#[trigger] first_of_each_edge(mesh_edges(polygons))[j]),
{
    first_of_each_edge_covers_once(mesh_edges(polygons));
    assert forall|n: int, k: int|
        0 <= n < polygons.len() && 0 <= k < polygon_edges(polygons[n]).len() implies edge_keys(
            first_of_each_edge(mesh_edges(polygons)),
        ).contains(edge_key(#[trigger] polygon_edges(polygons[n])[k])) by {
        lemma_mesh_edges_contain(polygons, n, k);
    }
}

/// The `k`-th line of a line list index buffer: its two vertex indices.
pub open spec fn drawn_line(w: Seq<u32>, k: int) -> (u32, u32) {
    (w[2 * k], w[2 * k + 1])
}

proof fn lemma_edges_prefix_at(p: Seq<u32>, k: int)
    requires
        0 <= k,
    ensures
        edges_prefix(p, k).len() == k,
        forall|i: int|
            0 <= i < k ==> #[trigger] edges_prefix(p, k)[i] == (p[i], p[(i + 1) % (p.len() as int)]),
    decreases k,
{
    if k > 0 {
        lemma_edges_prefix_at(p, k - 1);
        assert forall|i: int| 0 <= i < k implies #[trigger] edges_prefix(p, k)[i] == (
            p[i],
            p[(i + 1) % (p.len() as int)],
        ) by {
            if i < k - 1 {
                assert(edges_prefix(p, k)[i] == edges_prefix(p, k - 1)[i]);
            }
        }
    }
}

proof fn lemma_edge_index_list_at(edges: Seq<(u32, u32)>)
    ensures
        edge_index_list(edges).len() == 2 * edges.len(),
        forall|m: int|
            0 <= m < edges.len() ==> drawn_line(edge_index_list(edges), m) == #[trigger] edges[m],
    decreases edges.len(),
{
    if edges.len() > 0 {
        let rest = edges.drop_last();
        lemma_edge_index_list_at(rest);
        let w = edge_index_list(edges);
        assert forall|m: int| 0 <= m < edges.len() implies drawn_line(w, m) == #[trigger] edges[m] by {
            if m < rest.len() {
                assert(w[2 * m] == edge_index_list(rest)[2 * m]);
                assert(w[2 * m + 1] == edge_index_list(rest)[2 * m + 1]);
                assert(rest[m] == edges[m]);
            }
        }
    }
}

proof fn lemma_mesh_edge_from_polygon(polygons: Seq<Seq<u32>>, e: (u32, u32))
    requires
        mesh_edges(polygons).contains(e),
    ensures
        exists|n: int, i: int|
            0 <= n < polygons.len() && 0 <= i < polygons[n].len() && e == (
                #[trigger] polygons[n][i],
                polygons[n][(i + 1) % (polygons[n].len() as int)],
            ),
    decreases polygons.len(),
{
    let rest = polygons.drop_last();
    let p = polygons.last();
    let before = mesh_edges(rest);
    let own = polygon_edges(p);
    let m = choose|m: int| 0 <= m < mesh_edges(polygons).len() && mesh_edges(polygons)[m] == e;
    if m < before.len() {
        assert(before[m] == e);
        lemma_mesh_edge_from_polygon(rest, e);
        let (n, i) = choose|n: int, i: int|
            0 <= n < rest.len() && 0 <= i < rest[n].len() && e == (
                #[trigger] rest[n][i],
                rest[n][(i + 1) % (rest[n].len() as int)],
            );
        assert(rest[n] == polygons[n]);
        assert(e == (polygons[n][i], polygons[n][(i + 1) % (polygons[n].len() as int)]));
    } else {
        lemma_edges_prefix_at(p, p.len() as int);
        let i = m - before.len();
        assert(own[i] == e);
        let n = polygons.len() - 1;
        assert(polygons[n] == p);
        assert(e == (polygons[n][i], polygons[n][(i + 1) % (polygons[n].len() as int)]));
    }
}

/// The wireframe of a mesh draws every edge of every polygon, stated on the
/// line list itself: for every polygon `p` of `n` vertices and each `0 <= i < n`, one of its lines joins
/// `p[i]` and `p[(i + 1) % n]` (the closing edge from the last vertex back to
/// the first included), in one direction or the other.
pub proof fn wireframe_draws_every_polygon_edge(polygons: Seq<Seq<u32>>)
    ensures
        ({
            let w = edge_index_list(first_of_each_edge(mesh_edges(polygons)));
            forall|n: int, i: int|
                #![trigger polygons[n][i]]
                0 <= n < polygons.len() && 0 <= i < polygons[n].len() ==> exists|k: int|
                    0 <= k < w.len() / 2 && (#[trigger] drawn_line(w, k) == (
                        polygons[n][i],
                        polygons[n][(i + 1) % (polygons[n].len() as int)],
                    ) || drawn_line(w, k) == (
                        polygons[n][(i + 1) % (polygons[n].len() as int)],
                        polygons[n][i],
                    ))
        }),
{
    let f = first_of_each_edge(mesh_edges(polygons));
    let w = edge_index_list(f);
    wireframe_draws_each_edge_once(polygons);
    lemma_edge_index_list_at(f);
    assert forall|n: int, i: int|
        #![trigger polygons[n][i]]
        0 <= n < polygons.len() && 0 <= i < polygons[n].len() implies exists|k: int|
        0 <= k < w.len() / 2 && (#[trigger] drawn_line(w, k) == (
            polygons[n][i],
            polygons[n][(i + 1) % (polygons[n].len() as int)],
        ) || drawn_line(w, k) == (
            polygons[n][(i + 1) % (polygons[n].len() as int)],
            polygons[n][i],
        )) by {
        let p = polygons[n];
        lemma_edges_prefix_at(p, p.len() as int);
        let e = polygon_edges(p)[i];
        assert(e == (p[i], p[(i + 1) % (p.len() as int)]));
        assert(edge_keys(f).contains(edge_key(e)));
        let k = choose|k: int| 0 <= k < edge_keys(f).len() && edge_keys(f)[k] == edge_key(e);
        assert(edge_key(f[k]) == edge_key(e));
        assert(drawn_line(w, k) == f[k]);
    }
}

/// Every line of the wireframe of a mesh is an edge of one of its polygons,
/// from a vertex `p[i]` to the next one `p[(i + 1) % n]`, in the direction
/// the polygon goes.
pub proof fn wireframe_lines_are_polygon_edges(polygons: Seq<Seq<u32>>)
    ensures
        ({
            let w = edge_index_list(first_of_each_edge(mesh_edges(polygons)));
            forall|k: int|
                0 <= k < w.len() / 2 ==> exists|n: int, i: int|
                    0 <= n < polygons.len() && 0 <= i < polygons[n].len() && #[trigger] drawn_line(
                        w,
                        k,
                    ) == (
                        #[trigger] polygons[n][i],
                        polygons[n][(i + 1) % (polygons[n].len() as int)],
                    )
        }),
{
    let edges = mesh_edges(polygons);
    let f = first_of_each_edge(edges);
    let w = edge_index_list(f);
    first_of_each_edge_covers_once(edges);
    lemma_edge_index_list_at(f);
    assert forall|k: int| 0 <= k < w.len() / 2 implies exists|n: int, i: int|
        0 <= n < polygons.len() && 0 <= i < polygons[n].len() && #[trigger] drawn_line(w, k) == (
            #[trigger] polygons[n][i],
            polygons[n][(i + 1) % (polygons[n].len() as int)],
        ) by {
        assert(drawn_line(w, k) == f[k]);
        assert(f.contains(f[k]));
        lemma_mesh_edge_from_polygon(polygons, f[k]);
    }
}

/// The wireframe of a mesh is made of pairs of vertex indices, and no two of
/// its lines join the same two vertices, in the same direction or in
/// opposite ones.
pub proof fn wireframe_lines_distinct(polygons: Seq<Seq<u32>>)
    ensures
        edge_index_list(first_of_each_edge(mesh_edges(polygons))).len() % 2 == 0,
        ({
            let w = edge_index_list(first_of_each_edge(mesh_edges(polygons)));
            forall|k: int, j: int|
                0 <= k < j < w.len() / 2 ==> #[trigger] drawn_line(w, k) != #[trigger] drawn_line(
                    w,
                    j,
                ) && drawn_line(w, k) != (drawn_line(w, j).1, drawn_line(w, j).0)
        }),
{
    let f = first_of_each_edge(mesh_edges(polygons));
    let w = edge_index_list(f);
    first_of_each_edge_covers_once(mesh_edges(polygons));
    lemma_edge_index_list_at(f);
    assert forall|k: int, j: int| 0 <= k < j < w.len() / 2 implies #[trigger] drawn_line(w, k)
        != #[trigger] drawn_line(w, j) && drawn_line(w, k) != (
        drawn_line(w, j).1,
        drawn_line(w, j).0,
    ) by {
        assert(drawn_line(w, k) == f[k]);
        assert(drawn_line(w, j) == f[j]);
        assert(edge_key(f[k]) != edge_key(f[j]));
    }
}

proof fn lemma_first_of_distinct_edges(edges: Seq<(u32, u32)>)
    requires
        forall|i: int, j: int|
            0 <= i < j < edges.len() ==> edge_key(#[trigger] edges[i]) != edge_key(#[trigger] edges[j]),
    ensures
        first_of_each_edge(edges) == edges,
    decreases edges.len(),
{
    if edges.len() > 0 {
        let rest = edges.drop_last();
        assert forall|i: int, j: int| 0 <= i < j < rest.len() implies edge_key(#[trigger] rest[i])
            != edge_key(#[trigger] rest[j]) by {
            assert(rest[i] == edges[i] && rest[j] == edges[j]);
        }
        lemma_first_of_distinct_edges(rest);
        if edge_keys(rest).contains(edge_key(edges.last())) {
            let k = choose|k: int| 0 <= k < edge_keys(rest).len() && edge_keys(rest)[k] == edge_key(
                edges.last(),
            );
            assert(rest[k] == edges[k]);
            assert(edge_key(edges[k]) != edge_key(edges[edges.len() - 1]));
        }
        assert(edges =~= rest.push(edges.last()));
    }
}

/// A polygon of at least three distinct vertices, alone in its mesh, is
/// drawn with all its edges: its wireframe holds two indices per vertex.
pub proof fn wireframe_of_lone_polygon_law(p: Seq<u32>)
    requires
        p.len() >= 3,
        forall|i: int, j: int| 0 <= i < j < p.len() ==> #[trigger] p[i] != #[trigger] p[j],
    ensures
        edge_index_list(first_of_each_edge(mesh_edges(seq![p]))).len() == 2 * p.len(),
{
    let edges = polygon_edges(p);
    let n = p.len() as int;
    lemma_edges_prefix_at(p, n);
    let one = seq![p];
    assert(one.drop_last() =~= Seq::<Seq<u32>>::empty());
    assert(one.last() == p);
    assert(mesh_edges(one.drop_last()) == Seq::<(u32, u32)>::empty());
    assert(mesh_edges(one) == mesh_edges(one.drop_last()) + polygon_edges(p));
    assert(mesh_edges(one) =~= edges);
    assert forall|i: int, j: int| 0 <= i < j < edges.len() implies edge_key(#[trigger] edges[i])
        != edge_key(#[trigger] edges[j]) by {
        assert(edges[i] == (p[i], p[(i + 1) % n]));
        assert(edges[j] == (p[j], p[(j + 1) % n]));
        let ni = (i + 1) % n;
        let nj = (j + 1) % n;
        assert(ni == if i + 1 < n { i + 1 } else { 0 }) by (nonlinear_arith)
            requires
                0 <= i < n,
                ni == (i + 1) % n,
        ;
        assert(nj == if j + 1 < n { j + 1 } else { 0 }) by (nonlinear_arith)
            requires
                0 <= j < n,
                nj == (j + 1) % n,
        ;
        if edge_key(edges[i]) == edge_key(edges[j]) {
            assert(p[i] != p[j]);
            assert(p[i] == p[nj] && p[ni] == p[j]);
            assert(i == nj) by {
                if i != nj {
                    if i < nj {
                        assert(p[i] != p[nj]);
                    } else {
                        assert(p[nj] != p[i]);
                    }
                }
            }
            assert(ni == j) by {
                if ni != j {
                    if ni < j {
                        assert(p[ni] != p[j]);
                    } else {
                        assert(p[j] != p[ni]);
                    }
                }
            }
        }
    }
    lemma_first_of_distinct_edges(edges);
    lemma_edge_index_list_at(edges);
}

} // verus!
