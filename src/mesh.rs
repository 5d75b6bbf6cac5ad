//! Indexed triangle meshes and the merging of several meshes into one.
use vstd::prelude::*;

verus! {

/// The largest vertex count a mesh may hold, so that every index fits a `u32`.
pub const MAX_VERTICES: usize = 0xffff_ffff;

/// The model of a mesh: its vertices, and indices into them.
pub type MeshView<V> = (Seq<V>, Seq<u32>);

/// Why a mesh could not be built or merged.
#[derive(Debug, Clone, Copy, PartialEq, Eq, Structural)]
pub enum MeshError {
    /// An index does not name a vertex of its mesh.
    IndexOutOfRange,
    /// The vertex count would exceed what a `u32` index can address.
    TooManyVertices,
}

/// Every index names a vertex, and the vertex count fits a `u32`.
pub open spec fn mesh_wf<V>(m: MeshView<V>) -> bool {
    &&& m.0.len() <= MAX_VERTICES
    &&& forall|k: int| 0 <= k < m.1.len() ==> (#[trigger] m.1[k]) < m.0.len()
}

/// The vertex each index names, in index order: the triangle list as drawn.
pub open spec fn resolved<V>(m: MeshView<V>) -> Seq<V> {
    m.1.map_values(|i: u32| m.0[i as int])
}

/// Indices shifted by `offset`.
pub open spec fn rebased(idx: Seq<u32>, offset: nat) -> Seq<u32> {
    idx.map_values(|i: u32| (i + offset) as u32)
}

/// `b` appended to `a`: vertices concatenated, `b`'s indices shifted past `a`'s vertices.
pub open spec fn join<V>(a: MeshView<V>, b: MeshView<V>) -> MeshView<V> {
    (a.0 + b.0, a.1 + rebased(b.1, a.0.len()))
}

/// All meshes of `ms` joined in order.
pub open spec fn merged<V>(ms: Seq<MeshView<V>>) -> MeshView<V>
    decreases ms.len(),
{
    if ms.len() == 0 {
        (Seq::empty(), Seq::empty())
    } else {
        join(merged(ms.drop_last()), ms.last())
    }
}

/// The total vertex count of `ms`.
pub open spec fn total_vertices<V>(ms: Seq<MeshView<V>>) -> nat
    decreases ms.len(),
{
    if ms.len() == 0 {
        0
    } else {
        total_vertices(ms.drop_last()) + ms.last().0.len()
    }
}

/// The triangle lists of `ms`, one after another.
pub open spec fn concat_resolved<V>(ms: Seq<MeshView<V>>) -> Seq<V>
    decreases ms.len(),
{
    if ms.len() == 0 {
        Seq::empty()
    } else {
        concat_resolved(ms.drop_last()) + resolved(ms.last())
    }
}

/// Rebasing in a join: the joined indices all lie below the joined vertex
/// count, and each names the same vertex it named in its own mesh.
pub proof fn lemma_join_indices<V>(a: MeshView<V>, b: MeshView<V>)
    requires
        mesh_wf(a),
        mesh_wf(b),
        a.0.len() + b.0.len() <= MAX_VERTICES,
    ensures
        mesh_wf(join(a, b)),
        join(a, b).1.len() == a.1.len() + b.1.len(),
        forall|k: int|
            0 <= k < join(a, b).1.len() ==> #[trigger] join(a, b).1[k] < a.0.len() + b.0.len(),
        forall|k: int|
            0 <= k < a.1.len() ==> join(a, b).0[#[trigger] join(a, b).1[k] as int] == a.0[a.1[k] as int],
        forall|k: int|
            a.1.len() <= k < join(a, b).1.len() ==> join(a, b).0[#[trigger] join(a, b).1[k] as int]
                == b.0[b.1[k - a.1.len()] as int],
{
    let j = join(a, b);
    assert forall|k: int| 0 <= k < j.1.len() implies #[trigger] j.1[k] < j.0.len() by {
        if k >= a.1.len() {
            assert(b.1[k - a.1.len()] < b.0.len());
        }
    }
}

/// Joining keeps each mesh's triangle list, in order.
pub proof fn lemma_join_resolved<V>(a: MeshView<V>, b: MeshView<V>)
    requires
        mesh_wf(a),
        mesh_wf(b),
        a.0.len() + b.0.len() <= MAX_VERTICES,
    ensures
        resolved(join(a, b)) == resolved(a) + resolved(b),
{
    lemma_join_indices(a, b);
    assert(resolved(join(a, b)) =~= resolved(a) + resolved(b));
}

/// Merging a sequence of meshes draws exactly the triangles of the meshes
/// drawn one after another: no primitive is dropped, duplicated or moved.
pub proof fn lemma_merge_preserves_geometry<V>(ms: Seq<MeshView<V>>)
    requires
        forall|j: int| 0 <= j < ms.len() ==> mesh_wf(#[trigger] ms[j]),
        total_vertices(ms) <= MAX_VERTICES,
    ensures
        mesh_wf(merged(ms)),
        merged(ms).0.len() == total_vertices(ms),
        resolved(merged(ms)) == concat_resolved(ms),
    decreases ms.len(),
{
    if ms.len() > 0 {
        let init = ms.drop_last();
        assert forall|j: int| 0 <= j < init.len() implies mesh_wf(#[trigger] init[j]) by {
            assert(init[j] == ms[j]);
        }
        assert(mesh_wf(ms[ms.len() - 1]));
        lemma_merge_preserves_geometry(init);
        lemma_join_resolved(merged(init), ms.last());
        lemma_join_indices(merged(init), ms.last());
    } else {
        assert(resolved(merged(ms)) =~= concat_resolved(ms));
    }
}

/// The vertex count of a prefix never exceeds that of the whole.
proof fn lemma_total_prefix<V>(ms: Seq<MeshView<V>>, n: int)
    requires
        0 <= n <= ms.len(),
    ensures
        total_vertices(ms.subrange(0, n)) <= total_vertices(ms),
    decreases ms.len(),
{
    if n < ms.len() {
        assert(ms.drop_last() =~= ms.subrange(0, ms.len() - 1));
        assert(ms.drop_last().subrange(0, n) =~= ms.subrange(0, n));
        lemma_total_prefix(ms.drop_last(), n);
    } else {
        assert(ms.subrange(0, n) =~= ms);
    }
}

/// The models of a sequence of meshes.
pub open spec fn views<V>(ms: Seq<Mesh<V>>) -> Seq<MeshView<V>> {
    ms.map_values(|m: Mesh<V>| m@)
}

/// An indexed triangle list: vertices and `u32` indices into them.
pub struct Mesh<V> {
    vertices: Vec<V>,
    indices: Vec<u32>,
}

impl<V> View for Mesh<V> {
    type V = MeshView<V>;

    closed spec fn view(&self) -> MeshView<V> {
        (self.vertices@, self.indices@)
    }
}

impl<V> Mesh<V> {
    /// Every index names a vertex and the vertex count fits a `u32`.
    pub open spec fn wf(&self) -> bool {
        mesh_wf(self@)
    }

    /// A mesh with no vertices and no indices.
    pub fn empty() -> (r: Self)
        ensures
            r@ == (Seq::<V>::empty(), Seq::<u32>::empty()),
            r.wf(),
    {
        Mesh { vertices: Vec::new(), indices: Vec::new() }
    }

    /// Builds a mesh from a rasterizer's output, checking every index.
    pub fn from_parts(vertices: Vec<V>, indices: Vec<u32>) -> (r: Result<Self, MeshError>)
        ensures
            r is Ok <==> mesh_wf((vertices@, indices@)),
            r matches Ok(m) ==> m@ == (vertices@, indices@) && m.wf(),
            r == Err::<Self, MeshError>(MeshError::TooManyVertices) <==> vertices@.len() > MAX_VERTICES,
            r == Err::<Self, MeshError>(MeshError::IndexOutOfRange) <==> vertices@.len() <= MAX_VERTICES
                && exists|k: int| 0 <= k < indices@.len() && indices@[k] >= vertices@.len(),
    {
        let n = vertices.len();
        if n > MAX_VERTICES {
            return Err(MeshError::TooManyVertices);
        }
        let mut k: usize = 0;
        while k < indices.len()
            invariant
                k <= indices@.len(),
                n == vertices@.len(),
                forall|j: int| 0 <= j < k ==> (#[trigger] indices@[j]) < n,
            decreases indices@.len() - k,
        {
            if indices[k] as usize >= n {
                let ghost m: MeshView<V> = (vertices@, indices@);
                assert(m.1[k as int] >= m.0.len());
                return Err(MeshError::IndexOutOfRange);
            }
            k = k + 1;
        }
        Ok(Mesh { vertices, indices })
    }

    /// The vertices.
    pub fn vertices(&self) -> (r: &Vec<V>)
        ensures
            r@ == self@.0,
    {
        &self.vertices
    }

    /// The indices, three per triangle.
    pub fn indices(&self) -> (r: &Vec<u32>)
        ensures
            r@ == self@.1,
    {
        &self.indices
    }

    /// Takes the mesh apart into its vertices and indices.
    pub fn into_parts(self) -> (r: (Vec<V>, Vec<u32>))
        ensures
            r.0@ == self@.0,
            r.1@ == self@.1,
    {
        (self.vertices, self.indices)
    }

    /// Whether the mesh has nothing to draw: no indices.
    pub fn is_empty(&self) -> (r: bool)
        ensures
            r == (self@.1.len() == 0),
    {
        self.indices.len() == 0
    }

    /// Appends `other`, shifting its indices by this mesh's vertex count.
    ///
    /// Fails, leaving this mesh unchanged, when the joined vertex count would
    /// not fit a `u32` index.
    pub fn append(&mut self, other: Mesh<V>) -> (r: Result<(), MeshError>)
        requires
            old(self).wf(),
            other.wf(),
        ensures
            r is Ok <==> old(self)@.0.len() + other@.0.len() <= MAX_VERTICES,
            r is Ok ==> final(self)@ == join(old(self)@, other@),
            r matches Err(e) ==> e == MeshError::TooManyVertices && final(self)@ == old(self)@,
            final(self).wf(),
    {
        let offset = self.vertices.len();
        if other.vertices.len() > MAX_VERTICES - offset {
            return Err(MeshError::TooManyVertices);
        }
        let ghost old_indices = self.indices@;
        let ghost other_view = other@;
        let Mesh { vertices: mut more_vertices, indices: more_indices } = other;
        assert(more_indices@ == other_view.1 && more_vertices@ == other_view.0);
        let mut k: usize = 0;
        while k < more_indices.len()
            invariant
                k <= more_indices@.len(),
                offset == old(self)@.0.len(),
                self.vertices@ == old(self)@.0,
                offset + more_vertices@.len() <= MAX_VERTICES,
                forall|j: int| 0 <= j < more_indices@.len() ==> (#[trigger] more_indices@[j]) < more_vertices@.len(),
                self.indices@ == old_indices + rebased(more_indices@.subrange(0, k as int), offset as nat),
            decreases more_indices@.len() - k,
        {
            let i = more_indices[k];
            self.indices.push(i + offset as u32);
            assert(more_indices@.subrange(0, k + 1) =~= more_indices@.subrange(0, k as int).push(i));
            assert(rebased(more_indices@.subrange(0, k + 1), offset as nat) =~= rebased(
                more_indices@.subrange(0, k as int),
                offset as nat,
            ).push((i + offset) as u32));
            k = k + 1;
        }
        assert(more_indices@.subrange(0, k as int) =~= more_indices@);
        self.vertices.append(&mut more_vertices);
        proof {
            lemma_join_indices(old(self)@, other_view);
        }
        assert(self@ =~= join(old(self)@, other_view));
        Ok(())
    }

    /// Merges meshes in order into one vertex array and one index array,
    /// each mesh's indices shifted by the vertices that come before it.
    ///
    /// Fails when the total vertex count would not fit a `u32` index.
    pub fn merge(meshes: Vec<Mesh<V>>) -> (r: Result<Mesh<V>, MeshError>)
        requires
            forall|j: int| 0 <= j < meshes@.len() ==> (#[trigger] meshes@[j]).wf(),
        ensures
            r is Ok <==> total_vertices(views(meshes@)) <= MAX_VERTICES,
            r matches Ok(m) ==> m@ == merged(views(meshes@)) && m.wf(),
            r matches Err(e) ==> e == MeshError::TooManyVertices,
    {
        let ghost all = views(meshes@);
        let mut rest = meshes;
        let mut acc: Mesh<V> = Mesh::empty();
        let ghost mut k: int = 0;
        assert(all.subrange(0, 0) =~= Seq::<MeshView<V>>::empty());
        assert(all.subrange(0, all.len() as int) =~= all);
        while rest.len() > 0
            invariant
                0 <= k <= all.len(),
                all == views(meshes@),
                views(rest@) == all.subrange(k, all.len() as int),
                forall|j: int| 0 <= j < rest@.len() ==> (#[trigger] rest@[j]).wf(),
                acc.wf(),
                acc@ == merged(all.subrange(0, k)),
                acc@.0.len() == total_vertices(all.subrange(0, k)),
            decreases rest@.len(),
        {
            assert(views(rest@).len() == rest@.len());
            assert(k < all.len());
            assert(views(rest@)[0] == all[k]);
            let ghost rest_before = rest@;
            let m = rest.remove(0);
            assert(rest@ =~= rest_before.subrange(1, rest_before.len() as int));
            assert(m.wf());
            let ghost pre = all.subrange(0, k);
            let ghost next = all.subrange(0, k + 1);
            assert(next.drop_last() =~= pre);
            assert(next.last() == m@);
            let ghost before = acc@;
            match acc.append(m) {
                Err(e) => {
                    proof {
                        lemma_total_prefix(all, k + 1);
                    }
                    return Err(e);
                },
                Ok(()) => {},
            }
            assert forall|j: int| 0 <= j < rest@.len() implies views(rest@)[j] == all[k + 1 + j] by {
                assert(rest@[j] == rest_before[j + 1]);
                assert(views(rest_before)[j + 1] == all.subrange(k, all.len() as int)[j + 1]);
            }
            assert(views(rest@) =~= all.subrange(k + 1, all.len() as int));
            proof {
                k = k + 1;
            }
        }
        assert(all.subrange(0, k) =~= all);
        Ok(acc)
    }
}

} // verus!
