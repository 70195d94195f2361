//! Indexed triangle meshes and their concatenation.

use vstd::prelude::*;

verus! {

/// The type of an entry of an index buffer.
pub type VertexIndex = u32;

/// A list of vertices and a list of indices into it; every three indices form
/// a triangle. What a vertex carries is up to the user of the mesh.
pub struct Mesh<V> {
    pub vertices: Vec<V>,
    pub indices: Vec<VertexIndex>,
}

/// The indices of a mesh after `by` vertices have been put before its own.
pub open spec fn shifted(indices: Seq<VertexIndex>, by: int) -> Seq<VertexIndex> {
    indices.map_values(|index: VertexIndex| (index + by) as VertexIndex)
}

/// The number of vertices of all `meshes` together.
pub open spec fn total_vertices<V>(meshes: Seq<Mesh<V>>) -> nat
    decreases meshes.len(),
{
    if meshes.len() == 0 {
        0
    } else {
        total_vertices(meshes.drop_last()) + meshes.last().vertices@.len()
    }
}

/// The vertices of all `meshes`, mesh after mesh.
pub open spec fn merged_vertices<V>(meshes: Seq<Mesh<V>>) -> Seq<V>
    decreases meshes.len(),
{
    if meshes.len() == 0 {
        Seq::empty()
    } else {
        merged_vertices(meshes.drop_last()) + meshes.last().vertices@
    }
}

/// The indices of all `meshes`, mesh after mesh, those of each mesh shifted
/// by the number of vertices that come before its own.
pub open spec fn merged_indices<V>(meshes: Seq<Mesh<V>>) -> Seq<VertexIndex>
    decreases meshes.len(),
{
    if meshes.len() == 0 {
        Seq::empty()
    } else {
        merged_indices(meshes.drop_last()) + shifted(
            meshes.last().indices@,
            total_vertices(meshes.drop_last()) as int,
        )
    }
}

/// Every mesh of `meshes` is well formed.
pub open spec fn all_wf<V>(meshes: Seq<Mesh<V>>) -> bool {
    forall|i: int| 0 <= i < meshes.len() ==> (#[trigger] meshes[i]).wf()
}

/// The meshes that a list of references points to.
pub open spec fn pointed_to<V>(meshes: Seq<&Mesh<V>>) -> Seq<Mesh<V>> {
    meshes.map_values(|mesh: &Mesh<V>| *mesh)
}

impl<V> Mesh<V> {
    /// Every index points at a vertex of the mesh.
    pub open spec fn wf(&self) -> bool {
        forall|i: int| 0 <= i < self.indices@.len() ==> self.indices@[i] < self.vertices@.len()
    }

    /// The mesh without vertices and triangles.
    pub fn empty() -> (mesh: Self)
        ensures
            mesh.vertices@.len() == 0,
            mesh.indices@.len() == 0,
            mesh.wf(),
    {
        Mesh { vertices: Vec::new(), indices: Vec::new() }
    }

    /// Appends to `indices` the indices of this mesh, each raised by `offset`.
    fn push_shifted_indices(&self, offset: VertexIndex, indices: &mut Vec<VertexIndex>)
        requires
            self.wf(),
            offset + self.vertices@.len() <= u32::MAX,
        ensures
            final(indices)@ == old(indices)@ + shifted(self.indices@, offset as int),
    {
        let ghost before = indices@;
        let mut i: usize = 0;
        while i < self.indices.len()
            invariant
                self.wf(),
                offset + self.vertices@.len() <= u32::MAX,
                i <= self.indices.len(),
                indices@ == before + shifted(self.indices@.take(i as int), offset as int),
            decreases self.indices.len() - i,
        {
            indices.push(offset + self.indices[i]);
            i += 1;
            assert(shifted(self.indices@.take(i as int), offset as int) == shifted(
                self.indices@.take(i - 1),
                offset as int,
            ).push((self.indices@[i - 1] + offset) as VertexIndex));
        }
        assert(self.indices@.take(self.indices.len() as int) == self.indices@);
    }

    /// Appends a copy of this mesh to `other`. The copied indices are raised
    /// by the number of vertices `other` had, so that they point at the
    /// copied vertices.
    pub fn copy_into(&self, other: &mut Mesh<V>) where V: Clone
        requires
            self.wf(),
            old(other).vertices@.len() + self.vertices@.len() <= u32::MAX,
        ensures
            final(other).indices@ == old(other).indices@ + shifted(
                self.indices@,
                old(other).vertices@.len() as int,
            ),
            final(other).vertices@.len() == old(other).vertices@.len() + self.vertices@.len(),
            forall|k: int|
                0 <= k < old(other).vertices@.len() ==> final(other).vertices@[k] == old(
                    other,
                ).vertices@[k],
            forall|k: int|
                0 <= k < self.vertices@.len() ==> cloned(
                    self.vertices@[k],
                    #[trigger] final(other).vertices@[old(other).vertices@.len() + k],
                ),
            old(other).wf() ==> final(other).wf(),
    {
        let index_offset = other.vertices.len() as VertexIndex;
        self.push_shifted_indices(index_offset, &mut other.indices);
        other.vertices.extend_from_slice(self.vertices.as_slice());
        proof {
            if old(other).wf() {
                lemma_shifted_in_range(self.indices@, index_offset as int, self.vertices@.len());
            }
        }
    }

    /// One mesh holding a copy of each of `meshes`, in their order.
    pub fn copy_merge(meshes: &Vec<&Mesh<V>>) -> (merged: Self) where V: Clone
        requires
            all_wf(pointed_to(meshes@)),
            total_vertices(pointed_to(meshes@)) <= u32::MAX,
        ensures
            merged.wf(),
            merged.indices@ == merged_indices(pointed_to(meshes@)),
            merged.vertices@.len() == total_vertices(pointed_to(meshes@)),
            forall|k: int|
                0 <= k < merged.vertices@.len() ==> cloned(
                    merged_vertices(pointed_to(meshes@))[k],
                    #[trigger] merged.vertices@[k],
                ),
    {
        let mut merged_mesh = Mesh::empty();
        let ghost all = pointed_to(meshes@);
        let mut i: usize = 0;
        while i < meshes.len()
            invariant
                i <= meshes.len(),
                all == pointed_to(meshes@),
                all_wf(all),
                total_vertices(all) <= u32::MAX,
                merged_mesh.wf(),
                merged_mesh.indices@ == merged_indices(all.take(i as int)),
                merged_mesh.vertices@.len() == total_vertices(all.take(i as int)),
                merged_vertices(all.take(i as int)).len() == total_vertices(all.take(i as int)),
                forall|k: int|
                    0 <= k < merged_mesh.vertices@.len() ==> cloned(
                        merged_vertices(all.take(i as int))[k],
                        #[trigger] merged_mesh.vertices@[k],
                    ),
            decreases meshes.len() - i,
        {
            let mesh = meshes[i];
            proof {
                assert(all.take(i + 1).drop_last() == all.take(i as int));
                assert(all.take(i + 1).last() == *mesh);
                assert(all[i as int].wf());
                lemma_total_vertices_grows(all, i + 1);
            }
            let ghost held = merged_mesh.vertices@;
            mesh.copy_into(&mut merged_mesh);
            proof {
                let sources = merged_vertices(all.take(i + 1));
                assert forall|k: int| 0 <= k < merged_mesh.vertices@.len() implies cloned(
                    sources[k],
                    #[trigger] merged_mesh.vertices@[k],
                ) by {
                    if k >= held.len() {
                        let own = k - held.len();
                        assert(merged_mesh.vertices@[held.len() + own] == merged_mesh.vertices@[k]);
                    }
                }
            }
            i += 1;
        }
        assert(all.take(meshes.len() as int) == all);
        merged_mesh
    }

    /// One mesh holding the triangles of all `meshes`, in their order. The
    /// vertices are moved out of `meshes`, which keep their indices only.
    pub fn merge(meshes: &mut Vec<Mesh<V>>) -> (merged: Self)
        requires
            all_wf(old(meshes)@),
            total_vertices(old(meshes)@) <= u32::MAX,
        ensures
            merged.wf(),
            merged.indices@ == merged_indices(old(meshes)@),
            merged.vertices@ == merged_vertices(old(meshes)@),
            merged.vertices@.len() == total_vertices(old(meshes)@),
            final(meshes)@.len() == old(meshes)@.len(),
            forall|i: int|
                0 <= i < old(meshes)@.len() ==> (#[trigger] final(meshes)@[i]).indices == old(
                    meshes,
                )@[i].indices && final(meshes)@[i].vertices@.len() == 0,
    {
        let mut merged_mesh = Mesh::empty();
        let ghost all = meshes@;
        let mut i: usize = 0;
        while i < meshes.len()
            invariant
                i <= meshes.len(),
                meshes@.len() == all.len(),
                all_wf(all),
                total_vertices(all) <= u32::MAX,
                forall|j: int| i <= j < all.len() ==> meshes@[j] == all[j],
                forall|j: int|
                    0 <= j < i ==> (#[trigger] meshes@[j]).indices == all[j].indices
                        && meshes@[j].vertices@.len() == 0,
                merged_mesh.wf(),
                merged_mesh.indices@ == merged_indices(all.take(i as int)),
                merged_mesh.vertices@ == merged_vertices(all.take(i as int)),
                merged_mesh.vertices@.len() == total_vertices(all.take(i as int)),
            decreases meshes.len() - i,
        {
            proof {
                assert(all.take(i + 1).drop_last() == all.take(i as int));
                assert(all.take(i + 1).last() == all[i as int]);
                assert(all[i as int].wf());
                lemma_total_vertices_grows(all, i + 1);
                lemma_shifted_in_range(
                    all[i as int].indices@,
                    merged_mesh.vertices@.len() as int,
                    all[i as int].vertices@.len(),
                );
            }
            let index_offset = merged_mesh.vertices.len() as VertexIndex;
            let mesh = &mut meshes[i];
            mesh.push_shifted_indices(index_offset, &mut merged_mesh.indices);
            merged_mesh.vertices.append(&mut mesh.vertices);
            i += 1;
        }
        assert(all.take(meshes.len() as int) == all);
        merged_mesh
    }
}

/// Indices below `count`, shifted by `by`, lie below `by + count`.
proof fn lemma_shifted_in_range(indices: Seq<VertexIndex>, by: int, count: nat)
    requires
        0 <= by,
        by + count <= u32::MAX,
        forall|i: int| 0 <= i < indices.len() ==> indices[i] < count,
    ensures
        forall|i: int|
            0 <= i < indices.len() ==> by <= #[trigger] shifted(indices, by)[i] < by + count,
{
}

/// The first `n` meshes have no more vertices than all of them.
pub proof fn lemma_total_vertices_grows<V>(meshes: Seq<Mesh<V>>, n: int)
    requires
        0 <= n <= meshes.len(),
    ensures
        total_vertices(meshes.take(n)) <= total_vertices(meshes),
    decreases meshes.len() - n,
{
    if n < meshes.len() {
        lemma_total_vertices_grows(meshes, n + 1);
        assert(meshes.take(n + 1).drop_last() == meshes.take(n));
    } else {
        assert(meshes.take(n) == meshes);
    }
}

/// Merging well-formed meshes keeps every index in range: the merged mesh has
/// as many vertices as the meshes together, and each merged index lies below
/// that number.
pub proof fn lemma_merge_is_index_safe<V>(meshes: Seq<Mesh<V>>)
    requires
        all_wf(meshes),
        total_vertices(meshes) <= u32::MAX,
    ensures
        merged_vertices(meshes).len() == total_vertices(meshes),
        forall|k: int|
            0 <= k < merged_indices(meshes).len() ==> #[trigger] merged_indices(meshes)[k]
                < total_vertices(meshes),
    decreases meshes.len(),
{
    if meshes.len() > 0 {
        let front = meshes.drop_last();
        assert(front == meshes.take(meshes.len() - 1));
        lemma_total_vertices_grows(meshes, meshes.len() - 1);
        assert(all_wf(front)) by {
            assert forall|i: int| 0 <= i < front.len() implies (#[trigger] front[i]).wf() by {
                assert(front[i] == meshes[i]);
            }
        }
        lemma_merge_is_index_safe(front);
        assert(meshes.last().wf());
        lemma_shifted_in_range(
            meshes.last().indices@,
            total_vertices(front) as int,
            meshes.last().vertices@.len(),
        );
        let low = merged_indices(front);
        let high = shifted(meshes.last().indices@, total_vertices(front) as int);
        assert forall|k: int| 0 <= k < merged_indices(meshes).len() implies #[trigger] merged_indices(
            meshes,
        )[k] < total_vertices(meshes) by {
            if k < low.len() {
                assert(merged_indices(meshes)[k] == low[k]);
            } else {
                assert(merged_indices(meshes)[k] == high[k - low.len()]);
            }
        }
    }
}

} // verus!
