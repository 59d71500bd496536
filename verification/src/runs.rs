//! Cutting a mesh where it changes between solid color and texture.
//!
//! egui gives the texture coordinates `(0, 0)`, where the font atlas is white, to everything of a
//! solid color. Skia fetches no color from a texture where all texture coordinates of a mesh are
//! equal. So a mesh is cut into runs of corners that are all at `(0, 0)` or all elsewhere, and the
//! former are painted without a texture.
use vstd::prelude::*;

use crate::geometry::Vertex;
use crate::mesh::{Mesh16, Mesh16View, all_corners, corners_of, mesh_views};
use crate::texture::TextureId;

verus! {

/// Cuts corners into the longest runs within which the texture coordinates are all `(0, 0)` or all
/// elsewhere. No corners make one empty run.
pub open spec fn uv_runs(corners: Seq<Vertex>) -> Seq<Seq<Vertex>>
    decreases corners.len(),
{
    if corners.len() <= 1 {
        seq![corners]
    } else {
        let runs = uv_runs(corners.drop_last());
        let last = corners.last();
        if last.uv.zero() == corners[corners.len() - 2].uv.zero() {
            runs.drop_last().push(runs.last().push(last))
        } else {
            runs.push(seq![last])
        }
    }
}

/// The position of a corner in its run, as a 16-bit index. It starts over after 65536 corners.
pub open spec fn run_index(k: int) -> u16 {
    (k % 0x1_0000) as u16
}

/// A mesh that draws a run, one vertex for each corner.
pub open spec fn run_mesh(texture_id: TextureId) -> spec_fn(Seq<Vertex>) -> Mesh16View {
    |run: Seq<Vertex>|
        Mesh16View {
            indices: Seq::new(run.len(), |k: int| run_index(k)),
            vertices: run,
            texture_id,
        }
}

impl Mesh16View {
    /// The meshes that draw the runs of this mesh.
    pub open spec fn run_meshes(self) -> Seq<Mesh16View> {
        uv_runs(self.corners()).map_values(run_mesh(self.texture_id))
    }
}

/// Are the texture coordinates of some corners all `(0, 0)` or all elsewhere?
pub open spec fn uniform(run: Seq<Vertex>) -> bool {
    forall|i: int, j: int|
        0 <= i < run.len() && 0 <= j < run.len() ==> (#[trigger] run[i]).uv.zero() == (
        #[trigger] run[j]).uv.zero()
}

/// Are these the runs of something: none empty, each uniform, and neighbors of different kinds?
pub open spec fn alternating(runs: Seq<Seq<Vertex>>) -> bool {
    &&& forall|r: int|
        #![trigger runs[r]]
        0 <= r < runs.len() ==> runs[r].len() > 0 && uniform(runs[r])
    &&& forall|r: int, q: int|
        #![trigger runs[r], runs[q]]
        0 <= r < runs.len() && q == r + 1 && q < runs.len() ==> runs[r].last().uv.zero()
            != runs[q][0].uv.zero()
}

/// Has every run of some corners at most 65536 of them, one for each 16-bit index?
pub open spec fn short_runs(corners: Seq<Vertex>) -> bool {
    forall|r: int|
        #![trigger uv_runs(corners)[r]]
        0 <= r < uv_runs(corners).len() ==> uv_runs(corners)[r].len() <= 0x1_0000
}

/// The runs of some corners, put together again, are those corners in their order.
pub proof fn law_runs_keep_corners(corners: Seq<Vertex>)
    ensures
        uv_runs(corners).len() > 0,
        uv_runs(corners).flatten() == corners,
        corners.len() == 0 ==> uv_runs(corners).len() == 1,
    decreases corners.len(),
{
    let runs = uv_runs(corners);
    runs.lemma_flatten_and_flatten_alt_are_equivalent();
    if corners.len() <= 1 {
        runs.lemma_flatten_one_element();
    } else {
        let init = uv_runs(corners.drop_last());
        law_runs_keep_corners(corners.drop_last());
        init.lemma_flatten_and_flatten_alt_are_equivalent();
        init.drop_last().lemma_flatten_and_flatten_alt_are_equivalent();
        runs.drop_last().lemma_flatten_and_flatten_alt_are_equivalent();
        assert(corners =~= corners.drop_last().push(corners.last()));
        if corners.last().uv.zero() == corners[corners.len() - 2].uv.zero() {
            assert(runs.drop_last() =~= init.drop_last());
        } else {
            assert(runs.drop_last() =~= init);
        }
    }
}

/// The last corner of the last run is the last corner.
proof fn lemma_runs_last(corners: Seq<Vertex>)
    requires
        corners.len() > 0,
    ensures
        uv_runs(corners).len() > 0,
        uv_runs(corners).last().len() > 0,
        uv_runs(corners).last().last() == corners.last(),
    decreases corners.len(),
{
    if corners.len() > 1 {
        lemma_runs_last(corners.drop_last());
    }
}

/// No run of some corners is empty, each is of one kind, and neighboring runs are of different
/// kinds: the corners are cut wherever the kind changes, and nowhere else.
pub proof fn law_runs_alternate(corners: Seq<Vertex>)
    requires
        corners.len() > 0,
    ensures
        alternating(uv_runs(corners)),
    decreases corners.len(),
{
    if corners.len() > 1 {
        law_runs_alternate(corners.drop_last());
        lemma_runs_last(corners.drop_last());
    }
}

/// There is only one way to cut corners into runs that alternate.
pub proof fn law_runs_unique(corners: Seq<Vertex>, runs: Seq<Seq<Vertex>>)
    requires
        corners.len() > 0,
        runs.flatten() == corners,
        alternating(runs),
    ensures
        runs == uv_runs(corners),
    decreases corners.len(),
{
    runs.lemma_flatten_and_flatten_alt_are_equivalent();
    let init = runs.drop_last();
    let run = runs.last();
    init.lemma_flatten_and_flatten_alt_are_equivalent();
    assert(corners =~= init.flatten() + run);
    if run.len() == 1 {
        assert(run =~= seq![corners.last()]);
        if init.len() > 0 {
            assert(init.flatten() =~= corners.drop_last());
            init.drop_last().lemma_flatten_and_flatten_alt_are_equivalent();
            law_runs_unique(corners.drop_last(), init);
        }
    } else {
        let shorter = init.push(run.drop_last());
        shorter.lemma_flatten_and_flatten_alt_are_equivalent();
        assert(shorter.drop_last() =~= init);
        assert(shorter.flatten() =~= corners.drop_last());
        law_runs_unique(corners.drop_last(), shorter);
        assert(run.drop_last().push(run.last()) =~= run);
    }
}

/// Every run lies within the corners.
proof fn lemma_run_within(corners: Seq<Vertex>, r: int) -> (from: int)
    requires
        0 <= r < uv_runs(corners).len(),
    ensures
        0 <= from,
        from + uv_runs(corners)[r].len() <= corners.len(),
        r == uv_runs(corners).len() - 1 ==> from + uv_runs(corners)[r].len() == corners.len(),
        uv_runs(corners)[r] == corners.subrange(from, from + uv_runs(corners)[r].len()),
    decreases corners.len(),
{
    if corners.len() <= 1 {
        0
    } else {
        let init = corners.drop_last();
        law_runs_keep_corners(init);
        if r < uv_runs(init).len() {
            lemma_run_within(init, r)
        } else {
            corners.len() - 1
        }
    }
}

/// Neighboring corners of one kind that end at the last corner are within the last run.
proof fn lemma_uniform_end(corners: Seq<Vertex>, from: int)
    requires
        0 <= from < corners.len(),
        uniform(corners.subrange(from, corners.len() as int)),
    ensures
        corners.len() - from <= uv_runs(corners).last().len(),
    decreases corners.len(),
{
    lemma_runs_last(corners);
    if from < corners.len() - 1 {
        let init = corners.drop_last();
        let end = corners.subrange(from, corners.len() as int);
        assert(init.subrange(from, init.len() as int) =~= end.drop_last());
        assert(end[end.len() - 2].uv.zero() == end.last().uv.zero());
        lemma_uniform_end(init, from);
    }
}

/// Neighboring corners of one kind are no more than a run has.
proof fn lemma_uniform_part(corners: Seq<Vertex>, from: int, to: int) -> (r: int)
    requires
        0 <= from < to <= corners.len(),
        uniform(corners.subrange(from, to)),
    ensures
        0 <= r < uv_runs(corners).len(),
        to - from <= uv_runs(corners)[r].len(),
    decreases corners.len(),
{
    lemma_runs_last(corners);
    if to == corners.len() {
        lemma_uniform_end(corners, from);
        uv_runs(corners).len() - 1
    } else {
        let init = corners.drop_last();
        assert(init.subrange(from, to) =~= corners.subrange(from, to));
        lemma_uniform_part(init, from, to)
    }
}

/// Corners without long runs have none where they are cut out: any of them that are neighbors have
/// no long run either.
pub proof fn law_parts_have_short_runs(corners: Seq<Vertex>, from: int, to: int)
    requires
        0 <= from <= to <= corners.len(),
        short_runs(corners),
    ensures
        short_runs(corners.subrange(from, to)),
{
    let part = corners.subrange(from, to);
    assert forall|r: int| #![trigger uv_runs(part)[r]] 0 <= r < uv_runs(part).len() implies uv_runs(
        part,
    )[r].len() <= 0x1_0000 by {
        let run = uv_runs(part)[r];
        if run.len() > 0 {
            let start = lemma_run_within(part, r);
            law_runs_alternate(part);
            assert(run =~= corners.subrange(from + start, from + start + run.len()));
            let whole = lemma_uniform_part(corners, from + start, from + start + run.len());
            assert(uv_runs(corners)[whole].len() <= 0x1_0000);
        }
    }
}

/// Not more than 65536 corners have no long run.
pub proof fn law_few_corners_have_short_runs(corners: Seq<Vertex>)
    requires
        corners.len() <= 0x1_0000,
    ensures
        short_runs(corners),
{
    assert forall|r: int| #![trigger uv_runs(corners)[r]] 0 <= r < uv_runs(
        corners,
    ).len() implies uv_runs(corners)[r].len() <= 0x1_0000 by {
        lemma_run_within(corners, r);
    }
}

/// A mesh that draws a run of at most 65536 corners draws these corners in their order.
proof fn lemma_run_mesh_corners(run: Seq<Vertex>, texture_id: TextureId)
    requires
        run.len() <= 0x1_0000,
    ensures
        run_mesh(texture_id)(run).corners() == run,
{
}

/// The meshes of the runs of a mesh draw the corners of the mesh in their order, if no run has
/// more than 65536 corners.
pub proof fn law_run_meshes_keep_corners(mesh: Mesh16View)
    requires
        short_runs(mesh.corners()),
    ensures
        all_corners(mesh.run_meshes()) == mesh.corners(),
{
    let runs = uv_runs(mesh.corners());
    law_runs_keep_corners(mesh.corners());
    assert forall|r: int| 0 <= r < runs.len() implies #[trigger] mesh.run_meshes().map_values(
        corners_of(),
    )[r] == runs[r] by {
        lemma_run_mesh_corners(runs[r], mesh.texture_id);
    }
    assert(mesh.run_meshes().map_values(corners_of()) =~= runs);
}

/// There is one mesh for each run of a mesh, in order. It has the corners of the run as its
/// vertices, names them one after the other, starting over after 65536, and has the texture of the
/// mesh.
pub proof fn law_run_meshes_are_the_runs(mesh: Mesh16View)
    ensures
        mesh.run_meshes().len() == uv_runs(mesh.corners()).len(),
        forall|r: int|
            #![trigger mesh.run_meshes()[r]]
            0 <= r < mesh.run_meshes().len() ==> {
                &&& mesh.run_meshes()[r].vertices == uv_runs(mesh.corners())[r]
                &&& mesh.run_meshes()[r].texture_id == mesh.texture_id
                &&& mesh.run_meshes()[r].indices.len() == mesh.run_meshes()[r].vertices.len()
                &&& forall|k: int|
                    0 <= k < mesh.run_meshes()[r].indices.len() ==> (
                    #[trigger] mesh.run_meshes()[r].indices[k]) == k % 0x1_0000
            },
{
}

/// No run is empty and every run is of one kind: all its corners have texture coordinates that are
/// both zero, or none has. The kind changes from each run to the next.
pub proof fn law_runs_are_of_one_kind(corners: Seq<Vertex>)
    requires
        corners.len() > 0,
    ensures
        forall|r: int, i: int|
            0 <= r < uv_runs(corners).len() && 0 <= i < uv_runs(corners)[r].len() ==> {
                let (run, u, v) = (
                    uv_runs(corners)[r],
                    (#[trigger] uv_runs(corners)[r][i]).uv.x,
                    uv_runs(corners)[r][i].uv.y,
                );
                (u.zero() && v.zero()) == (run[0].uv.x.zero() && run[0].uv.y.zero())
            },
        forall|r: int|
            #![trigger uv_runs(corners)[r]]
            0 <= r < uv_runs(corners).len() ==> uv_runs(corners)[r].len() > 0,
        forall|r: int, q: int|
            #![trigger uv_runs(corners)[r], uv_runs(corners)[q]]
            0 <= r && q == r + 1 && q < uv_runs(corners).len() ==> {
                let (u, v) = (uv_runs(corners)[r][0].uv, uv_runs(corners)[q][0].uv);
                (u.x.zero() && u.y.zero()) != (v.x.zero() && v.y.zero())
            },
{
    law_runs_alternate(corners);
}

impl Mesh16 {
    /// Cuts this mesh into runs, each a mesh of its own with one vertex for each corner.
    pub fn split_runs(&self) -> (meshes: Vec<Mesh16>)
        requires
            self@.valid(),
        ensures
            mesh_views(meshes@) == self@.run_meshes(),
    {
        let ghost corners = self@.corners();
        let ghost make = run_mesh(self.texture_id);
        let mut meshes: Vec<Mesh16> = Vec::new();
        let mut vertices: Vec<Vertex> = Vec::new();
        let mut indices: Vec<u16> = Vec::new();
        let mut is_zero: Option<bool> = None;
        assert(corners.take(0) =~= Seq::<Vertex>::empty());
        for k in 0..self.indices.len()
            invariant
                self@.valid(),
                corners == self@.corners(),
                make == run_mesh(self.texture_id),
                mesh_views(meshes@).push(make(vertices@)) == uv_runs(
                    corners.take(k as int),
                ).map_values(make),
                indices@ == Seq::new(vertices@.len(), |i: int| run_index(i)),
                is_zero == (if k == 0 {
                    None
                } else {
                    Some(corners[k - 1].uv.zero())
                }),
        {
            let index: u16 = self.indices[k];
            let vertex = self.vertices[index as usize];
            let is_current_zero: bool = vertex.uv.is_zero();
            let ghost so_far = corners.take(k + 1);
            proof {
                assert(so_far.drop_last() =~= corners.take(k as int));
                law_runs_keep_corners(corners.take(k as int));
                assert(mesh_views(meshes@).push(make(vertices@)).last() == make(vertices@));
                assert(mesh_views(meshes@).push(make(vertices@)).drop_last() =~= mesh_views(
                    meshes@,
                ));
            }
            let cut = match is_zero {
                None => false,
                Some(was_zero) => was_zero != is_current_zero,
            };
            let ghost old_meshes = meshes@;
            let ghost old_vertices = vertices@;
            if cut {
                meshes.push(Mesh16 { indices, vertices, texture_id: self.texture_id });
                indices = Vec::new();
                vertices = Vec::new();
                assert(mesh_views(meshes@) =~= mesh_views(old_meshes).push(make(old_vertices)));
            }
            is_zero = Some(is_current_zero);
            let position: usize = indices.len();
            assert(position as u16 == (position % 0x1_0000) as u16) by (bit_vector);
            indices.push(position as u16);
            vertices.push(vertex);
            assert(k == 0 ==> vertices@ =~= so_far);
        }
        meshes.push(Mesh16 { indices, vertices, texture_id: self.texture_id });
        assert(corners.take(self.indices@.len() as int) =~= corners);
        meshes
    }
}

} // verus!
