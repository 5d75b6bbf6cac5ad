//! Assembly of one batch: its draw state and its merged mesh.
use crate::batch::{is_batching, lemma_run_end_bound, run_end, Run};
use crate::mesh::{
    concat_resolved, lemma_merge_preserves_geometry, merged, mesh_wf, resolved, total_vertices,
    views, Mesh, MeshError, MeshView, MAX_VERTICES,
};
use crate::shader::Shader;
use crate::uniforms::{height_name, width_name};
use vstd::prelude::*;

verus! {

/// What one draw call needs: the batch's shader and one merged mesh.
pub struct Batch<P, U, V> {
    shader: Shader<P, U>,
    mesh: Mesh<V>,
}

impl<P, U, V> Batch<P, U, V> {
    /// The draw state.
    pub closed spec fn spec_shader(&self) -> Shader<P, U> {
        self.shader
    }

    /// The merged mesh.
    pub closed spec fn spec_mesh(&self) -> Mesh<V> {
        self.mesh
    }

    /// The draw state.
    pub fn shader(&self) -> (r: &Shader<P, U>)
        ensures
            *r == self.spec_shader(),
    {
        &self.shader
    }

    /// The merged mesh.
    pub fn mesh(&self) -> (r: &Mesh<V>)
        ensures
            *r == self.spec_mesh(),
    {
        &self.mesh
    }

    /// Whether the batch has triangles to draw; an empty one is skipped.
    pub fn is_drawable(&self) -> (r: bool)
        ensures
            r == (self.spec_mesh()@.1.len() > 0),
    {
        !self.mesh.is_empty()
    }
}

/// Builds the draw of one batch from the shader of its first element and the
/// meshes of its elements, in order, for a target of the given size.
///
/// The draw state is that shader with `width` and `height` appended; the mesh
/// is the elements' meshes merged. Fails when the merged vertex count would
/// not fit a `u32` index.
pub fn build_batch<P, U, V>(first: Shader<P, U>, meshes: Vec<Mesh<V>>, width: U, height: U) -> (r:
    Result<Batch<P, U, V>, MeshError>)
    requires
        forall|j: int| 0 <= j < meshes@.len() ==> (#[trigger] meshes@[j]).wf(),
    ensures
        r is Ok <==> total_vertices(views(meshes@)) <= MAX_VERTICES,
        r matches Err(e) ==> e == MeshError::TooManyVertices,
        r matches Ok(b) ==> {
            &&& b.spec_mesh()@ == merged(views(meshes@))
            &&& b.spec_mesh().wf()
            &&& b.spec_shader().spec_id() == first.spec_id()
            &&& b.spec_shader().spec_program() == first.spec_program()
            &&& b.spec_shader().spec_uniforms() == first.spec_uniforms().push((width_name(), width)).push(
                (height_name(), height),
            )
        },
{
    let mesh = Mesh::merge(meshes)?;
    let shader = first.for_target(width, height);
    Ok(Batch { shader, mesh })
}

/// The triangle lists drawn by the batches `runs` over the element meshes
/// `ms`, one batch after another.
pub open spec fn batched_resolved<V>(ms: Seq<MeshView<V>>, runs: Seq<Run>) -> Seq<V>
    decreases runs.len(),
{
    if runs.len() == 0 {
        Seq::empty()
    } else {
        batched_resolved(ms, runs.drop_last()) + resolved(
            merged(ms.subrange(runs.last().start as int, run_end(runs.last()))),
        )
    }
}

proof fn lemma_concat_resolved_append<V>(a: Seq<MeshView<V>>, b: Seq<MeshView<V>>)
    ensures
        concat_resolved(a + b) == concat_resolved(a) + concat_resolved(b),
        total_vertices(a + b) == total_vertices(a) + total_vertices(b),
    decreases b.len(),
{
    if b.len() == 0 {
        assert(a + b =~= a);
        assert(concat_resolved(a) + concat_resolved(b) =~= concat_resolved(a));
    } else {
        assert((a + b).drop_last() =~= a + b.drop_last());
        lemma_concat_resolved_append(a, b.drop_last());
        assert(concat_resolved(a + b) =~= concat_resolved(a) + concat_resolved(b));
    }
}

proof fn lemma_batched_prefix<V>(ids: Seq<u64>, ms: Seq<MeshView<V>>, runs: Seq<Run>, g: int)
    requires
        is_batching(ids, runs),
        ms.len() == ids.len(),
        forall|j: int| 0 <= j < ms.len() ==> mesh_wf(#[trigger] ms[j]),
        total_vertices(ms) <= MAX_VERTICES,
        0 <= g <= runs.len(),
    ensures
        g == 0 ==> batched_resolved(ms, runs.subrange(0, g)) == Seq::<V>::empty(),
        g > 0 ==> batched_resolved(ms, runs.subrange(0, g)) == concat_resolved(
            ms.subrange(0, run_end(runs[g - 1])),
        ),
    decreases g,
{
    if g > 0 {
        lemma_batched_prefix(ids, ms, runs, g - 1);
        let r = runs[g - 1];
        let s = r.start as int;
        let e = run_end(r);
        lemma_run_end_bound(ids, runs, g - 1);
        assert(runs.subrange(0, g).drop_last() =~= runs.subrange(0, g - 1));
        if g > 1 {
            assert(run_end(runs[g - 2]) == s);
        }
        let head = ms.subrange(0, s);
        let part = ms.subrange(s, e);
        assert(ms.subrange(0, e) =~= head + part);
        assert(ms =~= ms.subrange(0, e) + ms.subrange(e, ms.len() as int));
        lemma_concat_resolved_append(ms.subrange(0, e), ms.subrange(e, ms.len() as int));
        lemma_concat_resolved_append(head, part);
        assert forall|j: int| 0 <= j < part.len() implies mesh_wf(#[trigger] part[j]) by {
            assert(part[j] == ms[s + j]);
        }
        lemma_merge_preserves_geometry(part);
        if g == 1 {
            assert(head =~= Seq::<MeshView<V>>::empty());
        }
    } else {
        assert(runs.subrange(0, 0) =~= Seq::<Run>::empty());
    }
}

/// Batching preserves geometry: drawing each batch's merged mesh in batch
/// order draws exactly the elements' triangle lists laid end to end, with
/// no primitive dropped or duplicated.
pub proof fn lemma_batching_preserves_geometry<V>(ids: Seq<u64>, ms: Seq<MeshView<V>>, runs: Seq<Run>)
    requires
        is_batching(ids, runs),
        ms.len() == ids.len(),
        forall|j: int| 0 <= j < ms.len() ==> mesh_wf(#[trigger] ms[j]),
        total_vertices(ms) <= MAX_VERTICES,
    ensures
        batched_resolved(ms, runs) == concat_resolved(ms),
{
    lemma_batched_prefix(ids, ms, runs, runs.len() as int);
    assert(runs.subrange(0, runs.len() as int) =~= runs);
    if runs.len() > 0 {
        assert(ms.subrange(0, ms.len() as int) =~= ms);
    } else {
        assert(ms =~= Seq::<MeshView<V>>::empty());
    }
}

} // verus!
