//! Meshes, and how they are cut into pieces with 16-bit indices.
use vstd::prelude::*;

use crate::geometry::Vertex;
use crate::seqs::{lemma_flat_map_empty, lemma_flat_map_last};
use crate::texture::TextureId;

verus! {

/// The largest number of vertices that a piece with 16-bit indices holds.
pub const MAX_PIECE: u32 = 65535;

/// Textured triangles. Three indices in a row make a triangle.
#[derive(Debug, PartialEq, Eq)]
pub struct Mesh {
    pub indices: Vec<u32>,
    pub vertices: Vec<Vertex>,
    pub texture_id: TextureId,
}

/// Textured triangles with 16-bit indices.
#[derive(Debug, PartialEq, Eq)]
pub struct Mesh16 {
    pub indices: Vec<u16>,
    pub vertices: Vec<Vertex>,
    pub texture_id: TextureId,
}

/// The value of a [`Mesh16`].
pub struct Mesh16View {
    pub indices: Seq<u16>,
    pub vertices: Seq<Vertex>,
    pub texture_id: TextureId,
}

impl View for Mesh16 {
    type V = Mesh16View;

    open spec fn view(&self) -> Mesh16View {
        Mesh16View {
            indices: self.indices@,
            vertices: self.vertices@,
            texture_id: self.texture_id,
        }
    }
}

/// The values of some meshes.
pub open spec fn mesh_views(meshes: Seq<Mesh16>) -> Seq<Mesh16View> {
    meshes.map_values(|m: Mesh16| m@)
}

/// What 32-bit indices pick, in their order.
pub open spec fn picked32<T>(indices: Seq<u32>, items: Seq<T>) -> Seq<T> {
    Seq::new(indices.len(), |k: int| items[indices[k] as int])
}

/// What 16-bit indices pick, in their order.
pub open spec fn picked16<T>(indices: Seq<u16>, items: Seq<T>) -> Seq<T> {
    Seq::new(indices.len(), |k: int| items[indices[k] as int])
}

impl Mesh16View {
    /// Does every index name a vertex?
    pub open spec fn valid(self) -> bool {
        forall|k: int|
            0 <= k < self.indices.len() ==> (#[trigger] self.indices[k]) < self.vertices.len()
    }

    /// The corners of the triangles, in the order in which they are drawn.
    pub open spec fn corners(self) -> Seq<Vertex> {
        picked16(self.indices, self.vertices)
    }
}

/// The corners of a mesh.
pub open spec fn corners_of() -> spec_fn(Mesh16View) -> Seq<Vertex> {
    |m: Mesh16View| m.corners()
}

/// The corners of some meshes, drawn one after the other.
pub open spec fn all_corners(meshes: Seq<Mesh16View>) -> Seq<Vertex> {
    meshes.flat_map(corners_of())
}

/// Do two vertices lie within a range of [`MAX_PIECE`] vertices?
fn near(a: u32, b: u32) -> (r: bool)
    ensures
        r == (-MAX_PIECE < a - b < MAX_PIECE),
{
    if a < b {
        b - a < MAX_PIECE
    } else {
        a - b < MAX_PIECE
    }
}

/// Do three vertices lie within a range of [`MAX_PIECE`] vertices?
pub open spec fn close(a: u32, b: u32, c: u32) -> bool {
    &&& -MAX_PIECE < a - b < MAX_PIECE
    &&& -MAX_PIECE < b - c < MAX_PIECE
    &&& -MAX_PIECE < a - c < MAX_PIECE
}

/// Can a mesh with these indices and this many vertices be cut into pieces?
///
/// Every index has to name a vertex, and every vertex needs a 32-bit index. Where one piece does
/// not hold all vertices, the indices have to form whole triangles, and the corners of each
/// triangle have to fit one piece.
pub open spec fn splittable(indices: Seq<u32>, vertex_count: nat) -> bool {
    &&& vertex_count <= u32::MAX
    &&& forall|k: int| 0 <= k < indices.len() ==> (#[trigger] indices[k]) < vertex_count
    &&& vertex_count > MAX_PIECE ==> {
        &&& indices.len() % 3 == 0
        &&& forall|k: int|
            0 <= k < indices.len() && k % 3 == 0 ==> close(
                #[trigger] indices[k],
                indices[k + 1],
                indices[k + 2],
            )
    }
}

/// What `egui::Mesh::split_to_u16` makes of a mesh with these indices and vertices: for each
/// piece, in order, its indices and its vertices.
pub uninterp spec fn u16_split(indices: Seq<u32>, vertices: Seq<u32>) -> Seq<
    (Seq<u16>, Seq<u32>),
>;

/// The values of some pieces.
pub open spec fn piece_views(pieces: Seq<(Vec<u16>, Vec<u32>)>) -> Seq<(Seq<u16>, Seq<u32>)> {
    pieces.map_values(|p: (Vec<u16>, Vec<u32>)| (p.0@, p.1@))
}

/// What the indices of a piece pick from its vertices.
pub open spec fn piece_picks() -> spec_fn((Seq<u16>, Seq<u32>)) -> Seq<u32> {
    |p: (Seq<u16>, Seq<u32>)| picked16(p.0, p.1)
}

/// Are the vertices of a piece some neighboring vertices out of these, starting at `from`?
pub open spec fn run_of(vertices: Seq<u32>, piece: Seq<u32>, from: int) -> bool {
    &&& 0 <= from
    &&& from + piece.len() <= vertices.len()
    &&& piece == vertices.subrange(from, from + piece.len())
}

/// Calls `egui::Mesh::split_to_u16`.
///
/// That function moves vertices without looking into them, so each vertex is handed to it as a
/// number of the caller's, stored in the vertex color, and handed back in the same way. It is a
/// function of the mesh alone, which [`u16_split`] names. Of its result this claims, besides:
/// up to [`MAX_PIECE`] vertices are one piece, with the indices that the mesh has; all pieces
/// together pick the vertices that the mesh picks, in the same order; a piece has at most
/// [`MAX_PIECE`] vertices, which are neighbors in the mesh, and its indices stay within them; and
/// where there are more than [`MAX_PIECE`] vertices, every piece has an index.
///
/// The conditions are those under which the function does not panic: it checks in debug builds
/// that the indices are within bounds, reads whole triangles where it has to cut, and gives up
/// where the corners of one triangle do not fit one piece.
#[verifier::external_body]
fn egui_split_to_u16(indices: &Vec<u32>, vertices: &Vec<u32>) -> (pieces: Vec<(Vec<u16>, Vec<u32>)>)
    requires
        splittable(indices@, vertices@.len()),
    ensures
        piece_views(pieces@) == u16_split(indices@, vertices@),
        vertices@.len() <= MAX_PIECE ==> piece_views(pieces@) == seq![
            (indices@.map_values(|i: u32| i as u16), vertices@),
        ],
        piece_views(pieces@).flat_map(piece_picks()) == picked32(indices@, vertices@),
        forall|p: int|
            #![trigger pieces@[p]]
            0 <= p < pieces@.len() ==> {
                &&& pieces@[p].1@.len() <= MAX_PIECE
                &&& exists|from: int| run_of(vertices@, pieces@[p].1@, from)
                &&& forall|k: int|
                    0 <= k < pieces@[p].0@.len() ==> (#[trigger] pieces@[p].0@[k])
                        < pieces@[p].1@.len()
                &&& vertices@.len() > MAX_PIECE ==> pieces@[p].0@.len() > 0
            },
{
    let vertex = |id: &u32| {
        let [r, g, b, a] = id.to_le_bytes();
        let color = egui::Color32::from_rgba_premultiplied(r, g, b, a);
        egui::epaint::Vertex { color, ..Default::default() }
    };
    let number = |v: &egui::epaint::Vertex| u32::from_le_bytes(v.color.to_array());
    let vertices = vertices.iter().map(vertex).collect();
    let mesh = egui::Mesh { indices: indices.clone(), vertices, ..Default::default() };
    let pieces = mesh.split_to_u16().into_iter();
    pieces.map(|m| (m.indices, m.vertices.iter().map(number).collect())).collect()
}

/// The numbers of some vertices, counted from zero.
pub open spec fn numbers(count: nat) -> Seq<u32> {
    Seq::new(count, |i: int| i as u32)
}

/// Do the indices of a piece stay within its vertices, and those within `count` vertices?
spec fn piece_valid(piece: (Seq<u16>, Seq<u32>), count: nat) -> bool {
    &&& forall|k: int| 0 <= k < piece.0.len() ==> (#[trigger] piece.0[k]) < piece.1.len()
    &&& forall|j: int| 0 <= j < piece.1.len() ==> (#[trigger] piece.1[j]) < count
}

/// The corners of the pieces of a mesh are the vertices with the numbers that the pieces pick.
proof fn lemma_piece_corners(mesh: Mesh, pieces: Seq<(Seq<u16>, Seq<u32>)>)
    requires
        forall|p: int|
            #![trigger pieces[p]]
            0 <= p < pieces.len() ==> piece_valid(pieces[p], mesh.vertices@.len()),
    ensures
        all_corners(pieces.map_values(mesh.piece())) == pieces.flat_map(piece_picks()).map_values(
            mesh.lookup(),
        ),
    decreases pieces.len(),
{
    let meshes = pieces.map_values(mesh.piece());
    if pieces.len() == 0 {
        lemma_flat_map_empty(pieces, piece_picks());
        lemma_flat_map_empty(meshes, corners_of());
    } else {
        let init = pieces.drop_last();
        lemma_piece_corners(mesh, init);
        lemma_flat_map_last(pieces, piece_picks());
        lemma_flat_map_last(meshes, corners_of());
        assert(meshes.drop_last() =~= init.map_values(mesh.piece()));
    }
}

impl Mesh {
    /// Can this mesh be cut into pieces with 16-bit indices?
    pub open spec fn splittable(self) -> bool {
        splittable(self.indices@, self.vertices@.len())
    }

    /// The corners of the triangles, in the order in which they are drawn.
    pub open spec fn corners(self) -> Seq<Vertex> {
        picked32(self.indices@, self.vertices@)
    }

    /// Would cutting this mesh leave nothing of it?
    pub open spec fn vanishes(self) -> bool {
        self.vertices@.len() > MAX_PIECE && self.indices@.len() == 0
    }

    /// The vertex with a number.
    pub open spec fn lookup(self) -> spec_fn(u32) -> Vertex {
        |i: u32| self.vertices@[i as int]
    }

    /// The piece of this mesh that has these indices and the vertices with these numbers.
    pub open spec fn piece(self) -> spec_fn((Seq<u16>, Seq<u32>)) -> Mesh16View {
        |p: (Seq<u16>, Seq<u32>)|
            Mesh16View {
                indices: p.0,
                vertices: p.1.map_values(self.lookup()),
                texture_id: self.texture_id,
            }
    }

    /// This mesh as a single piece.
    pub open spec fn whole(self) -> Mesh16View {
        Mesh16View {
            indices: self.indices@.map_values(|i: u32| i as u16),
            vertices: self.vertices@,
            texture_id: self.texture_id,
        }
    }

    /// The pieces with 16-bit indices that this mesh is cut into.
    pub open spec fn pieces(self) -> Seq<Mesh16View> {
        u16_split(self.indices@, numbers(self.vertices@.len())).map_values(self.piece())
    }

    /// Checks whether this mesh can be cut into pieces with 16-bit indices.
    pub fn check_splittable(&self) -> (r: bool)
        ensures
            r == self.splittable(),
    {
        let count: usize = self.vertices.len();
        if count > u32::MAX as usize {
            return false;
        }
        for k in 0..self.indices.len()
            invariant
                count == self.vertices@.len(),
                forall|j: int| 0 <= j < k ==> (#[trigger] self.indices@[j]) < count,
        {
            if self.indices[k] as usize >= count {
                return false;
            }
        }
        if count <= MAX_PIECE as usize {
            return true;
        }
        if self.indices.len() % 3 != 0 {
            return false;
        }
        let mut k: usize = 0;
        while k < self.indices.len()
            invariant
                k <= self.indices@.len(),
                k % 3 == 0,
                self.indices@.len() % 3 == 0,
                count == self.vertices@.len(),
                count > MAX_PIECE,
                forall|j: int|
                    0 <= j < k && j % 3 == 0 ==> close(
                        #[trigger] self.indices@[j],
                        self.indices@[j + 1],
                        self.indices@[j + 2],
                    ),
            decreases self.indices@.len() - k,
        {
            let a: u32 = self.indices[k];
            let b: u32 = self.indices[k + 1];
            let c: u32 = self.indices[k + 2];
            if !(near(a, b) && near(b, c) && near(a, c)) {
                return false;
            }
            k = k + 3;
        }
        true
    }

    /// Builds the piece with these indices and the vertices with these numbers.
    fn take_piece(&self, indices: &Vec<u16>, ids: &Vec<u32>) -> (r: Mesh16)
        requires
            forall|j: int| 0 <= j < ids@.len() ==> (#[trigger] ids@[j]) < self.vertices@.len(),
        ensures
            r@ == self.piece()((indices@, ids@)),
    {
        let mut vertices: Vec<Vertex> = Vec::new();
        for j in 0..ids.len()
            invariant
                forall|j: int| 0 <= j < ids@.len() ==> (#[trigger] ids@[j]) < self.vertices@.len(),
                vertices@.len() == j,
                forall|i: int| 0 <= i < j ==> vertices@[i] == self.vertices@[ids@[i] as int],
        {
            vertices.push(self.vertices[ids[j] as usize]);
        }
        assert(vertices@ =~= ids@.map_values(self.lookup()));
        Mesh16 { indices: indices.clone(), vertices, texture_id: self.texture_id }
    }

    /// Builds the pieces with these indices and the vertices with these numbers.
    pub fn take_pieces(&self, pieces: &Vec<(Vec<u16>, Vec<u32>)>) -> (meshes: Vec<Mesh16>)
        requires
            forall|p: int, j: int|
                0 <= p < pieces@.len() && 0 <= j < pieces@[p].1@.len() ==> (
                #[trigger] pieces@[p].1@[j]) < self.vertices@.len(),
        ensures
            mesh_views(meshes@) == piece_views(pieces@).map_values(self.piece()),
    {
        let mut meshes: Vec<Mesh16> = Vec::new();
        for p in 0..pieces.len()
            invariant
                forall|p: int, j: int|
                    0 <= p < pieces@.len() && 0 <= j < pieces@[p].1@.len() ==> (
                    #[trigger] pieces@[p].1@[j]) < self.vertices@.len(),
                meshes@.len() == p,
                forall|i: int|
                    #![trigger meshes@[i]]
                    0 <= i < p ==> meshes@[i]@ == self.piece()((pieces@[i].0@, pieces@[i].1@)),
        {
            meshes.push(self.take_piece(&pieces[p].0, &pieces[p].1));
        }
        meshes
    }

    /// Cuts this mesh into pieces with 16-bit indices.
    ///
    /// The pieces draw what the mesh draws, in the same order.
    pub fn split_to_u16(&self) -> (meshes: Vec<Mesh16>)
        requires
            self.splittable(),
        ensures
            mesh_views(meshes@) == self.pieces(),
            all_corners(mesh_views(meshes@)) == self.corners(),
            self.vertices@.len() <= MAX_PIECE ==> mesh_views(meshes@) == seq![self.whole()],
            self.vertices@.len() <= 65535 ==> {
                &&& meshes@.len() == 1
                &&& meshes@[0].vertices@ == self.vertices@
                &&& meshes@[0].indices@.len() == self.indices@.len()
                &&& forall|k: int|
                    #![trigger self.indices@[k]]
                    0 <= k < self.indices@.len() ==> meshes@[0].indices@[k] == self.indices@[k]
            },
            meshes@.len() == 0 <==> self.vanishes(),
            forall|p: int|
                #![trigger meshes@[p]]
                0 <= p < meshes@.len() ==> {
                    &&& meshes@[p]@.valid()
                    &&& meshes@[p].texture_id == self.texture_id
                    &&& meshes@[p].vertices@.len() <= MAX_PIECE
                    &&& self.vertices@.len() > MAX_PIECE ==> meshes@[p].indices@.len() > 0
                },
    {
        let count: usize = self.vertices.len();
        let mut ids: Vec<u32> = Vec::new();
        for i in 0..count
            invariant
                count <= u32::MAX,
                ids@.len() == i,
                forall|j: int| 0 <= j < i ==> ids@[j] == j as u32,
        {
            ids.push(i as u32);
        }
        assert(ids@ =~= numbers(count as nat));
        let pieces = egui_split_to_u16(&self.indices, &ids);
        let ghost all = pieces@;
        let ghost views = piece_views(all);
        let meshes = self.take_pieces(&pieces);
        proof {
            assert(mesh_views(meshes@).len() == views.len());
            assert forall|p: int| #![trigger meshes@[p]] 0 <= p < meshes@.len() implies meshes@[p]@
                == self.piece()((all[p].0@, all[p].1@)) by {
                assert(mesh_views(meshes@)[p] == self.piece()(views[p]));
            }
            lemma_piece_corners(*self, views);
            if self.indices@.len() == 0 && meshes@.len() > 0 && count > MAX_PIECE {
                lemma_flat_map_last(views, piece_picks());
            }
            if meshes@.len() == 0 {
                lemma_flat_map_empty(views, piece_picks());
            }
            if count <= MAX_PIECE {
                assert(ids@.map_values(self.lookup()) =~= self.vertices@);
                assert(mesh_views(meshes@)[0] == self.whole());
            }
        }
        meshes
    }
}

/// A mesh draws one corner for each index, in order: the vertex that the index names.
pub proof fn law_corners_follow_indices(mesh: Mesh)
    ensures
        mesh.corners().len() == mesh.indices@.len(),
        forall|k: int|
            #![trigger mesh.corners()[k]]
            #![trigger mesh.indices@[k]]
            0 <= k < mesh.indices@.len() ==> mesh.corners()[k]
                == mesh.vertices@[mesh.indices@[k] as int],
{
}

/// A mesh with 16-bit indices draws one corner for each index too.
pub proof fn law_corners_follow_short_indices(mesh: Mesh16View)
    ensures
        mesh.corners().len() == mesh.indices.len(),
        forall|k: int|
            #![trigger mesh.corners()[k]]
            #![trigger mesh.indices[k]]
            0 <= k < mesh.indices.len() ==> mesh.corners()[k]
                == mesh.vertices[mesh.indices[k] as int],
{
}

/// Meshes that are drawn one after the other draw the corners of the first ones, and then those of
/// the last one. No meshes draw nothing.
pub proof fn law_corners_add_up(meshes: Seq<Mesh16View>, last: Mesh16View)
    ensures
        all_corners(Seq::empty()).len() == 0,
        all_corners(meshes.push(last)) == all_corners(meshes) + last.corners(),
{
    lemma_flat_map_empty(Seq::<Mesh16View>::empty(), corners_of());
    lemma_flat_map_last(meshes.push(last), corners_of());
    assert(meshes.push(last).drop_last() =~= meshes);
}

/// A mesh as a single piece has the same numbers as indices, the same vertices and the same
/// texture, and draws the same corners.
pub proof fn law_whole_is_the_mesh(mesh: Mesh)
    requires
        mesh.splittable(),
        mesh.vertices@.len() <= 65535,
    ensures
        mesh.whole().indices.len() == mesh.indices@.len(),
        forall|k: int|
            #![trigger mesh.indices@[k]]
            0 <= k < mesh.indices@.len() ==> mesh.whole().indices[k] == mesh.indices@[k],
        mesh.whole().vertices == mesh.vertices@,
        mesh.whole().texture_id == mesh.texture_id,
        mesh.whole().corners() == mesh.corners(),
{
}

/// Every piece has the texture of the mesh.
pub proof fn law_pieces_keep_texture(mesh: Mesh)
    ensures
        forall|p: int|
            #![trigger mesh.pieces()[p]]
            0 <= p < mesh.pieces().len() ==> mesh.pieces()[p].texture_id == mesh.texture_id,
{
}

/// Three vertices are close if no two of them are 65535 or more apart.
pub proof fn law_close_vertices(a: u32, b: u32, c: u32)
    ensures
        close(a, b, c) <==> {
            &&& a < b + 65535 && b < a + 65535
            &&& b < c + 65535 && c < b + 65535
            &&& c < a + 65535 && a < c + 65535
        },
{
}

/// A mesh of up to 65535 vertices can be cut, and is left whole, whenever its indices name its
/// vertices. A larger one can be cut if besides every triangle is whole and its corners are
/// close, and nothing of it is left exactly if it has no index.
pub proof fn law_splittable_meshes(mesh: Mesh)
    requires
        mesh.vertices@.len() <= u32::MAX,
    ensures
        mesh.vertices@.len() <= 65535 ==> (mesh.splittable() <==> (forall|k: int|
            0 <= k < mesh.indices@.len() ==> (#[trigger] mesh.indices@[k]) < mesh.vertices@.len())),
        mesh.vertices@.len() > 65535 ==> (mesh.splittable() <==> {
            &&& forall|k: int|
                0 <= k < mesh.indices@.len() ==> (#[trigger] mesh.indices@[k])
                    < mesh.vertices@.len()
            &&& mesh.indices@.len() % 3 == 0
            &&& forall|k: int|
                0 <= k < mesh.indices@.len() && k % 3 == 0 ==> close(
                    #[trigger] mesh.indices@[k],
                    mesh.indices@[k + 1],
                    mesh.indices@[k + 2],
                )
        }),
        mesh.vanishes() <==> mesh.vertices@.len() >= 65536 && mesh.indices@.len() == 0,
{
}

/// The value of a mesh is made of its own fields, and the values of some meshes are the value of
/// each, in order.
pub proof fn law_mesh_views(mesh: Mesh16, meshes: Seq<Mesh16>)
    ensures
        mesh@.indices == mesh.indices@,
        mesh@.vertices == mesh.vertices@,
        mesh@.texture_id == mesh.texture_id,
        mesh_views(meshes).len() == meshes.len(),
        forall|p: int|
            #![trigger mesh_views(meshes)[p]]
            0 <= p < meshes.len() ==> mesh_views(meshes)[p] == meshes[p]@,
{
}

} // verus!
