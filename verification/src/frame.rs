//! Frames: what a frame asks for, what has to be done for it, and when that is possible.
use vstd::prelude::*;

use crate::command::{CommandView, Corner, PaintSource, corner_of, corners_drawn, draw_of, drawn};
use crate::geometry::{Rect, Scalar};
use crate::mesh::{MAX_PIECE, Mesh, Mesh16View, all_corners, corners_of};
use crate::runs::{
    law_parts_have_short_runs, law_run_meshes_keep_corners, law_runs_alternate,
    law_runs_keep_corners, short_runs,
};
use crate::seqs::{
    lemma_flat_map_add, lemma_flat_map_empty, lemma_flat_map_last, lemma_flat_map_member,
    lemma_flat_map_one, lemma_flat_map_part,
};
use crate::texture::{
    ImageDelta, PaintHandle, TextureId, TexturesDelta, handle_after, lemma_update_valid,
    update_of, valid_size,
};

verus! {

/// A part of the screen that a callback paints.
#[derive(Clone, Copy, Debug, PartialEq, Eq, Structural)]
pub struct PaintCallback {
    /// Where the callback paints.
    pub rect: Rect,
    /// The number by which the backend finds the callback.
    pub callback: usize,
}

/// Something to paint.
#[derive(Debug, PartialEq, Eq)]
pub enum Primitive {
    Mesh(Mesh),
    Callback(PaintCallback),
}

/// Something to paint within a rectangle.
#[derive(Debug, PartialEq, Eq)]
pub struct ClippedPrimitive {
    pub clip_rect: Rect,
    pub primitive: Primitive,
}

/// The textures after some changes, made one after the other.
pub open spec fn after_set(
    textures: Map<TextureId, PaintHandle>,
    cpu_fix: bool,
    set: Seq<(TextureId, ImageDelta)>,
) -> Map<TextureId, PaintHandle>
    decreases set.len(),
{
    if set.len() == 0 {
        textures
    } else {
        let before = after_set(textures, cpu_fix, set.drop_last());
        let (id, delta) = set.last();
        before.insert(id, handle_after(before.get(id), cpu_fix, id, delta))
    }
}

/// What the backend does for some changes of textures.
pub open spec fn set_commands(
    textures: Map<TextureId, PaintHandle>,
    cpu_fix: bool,
    set: Seq<(TextureId, ImageDelta)>,
) -> Seq<CommandView>
    decreases set.len(),
{
    if set.len() == 0 {
        Seq::empty()
    } else {
        let before = after_set(textures, cpu_fix, set.drop_last());
        let (id, delta) = set.last();
        set_commands(textures, cpu_fix, set.drop_last()).push(
            CommandView::UpdateTexture(update_of(before.get(id), cpu_fix, id, delta)),
        )
    }
}

/// Is a texture among those that are set?
pub open spec fn sets_texture(set: Seq<(TextureId, ImageDelta)>, id: TextureId) -> bool {
    exists|j: int| 0 <= j < set.len() && (#[trigger] set[j]).0 == id
}

/// The textures after some are freed. To free a texture that is not there changes nothing.
pub open spec fn after_free(
    textures: Map<TextureId, PaintHandle>,
    free: Seq<TextureId>,
) -> Map<TextureId, PaintHandle> {
    textures.remove_keys(free.to_set())
}

/// The step that frees a texture.
pub open spec fn free_command() -> spec_fn(TextureId) -> CommandView {
    |id: TextureId| CommandView::FreeTexture(id)
}

/// The meshes that a piece of a mesh is drawn as with the workaround for raster surfaces: its runs
/// for the font atlas, the piece itself for any other texture.
pub open spec fn texture_meshes() -> spec_fn(Mesh16View) -> Seq<Mesh16View> {
    |mesh: Mesh16View|
        if mesh.texture_id.font() {
            mesh.run_meshes()
        } else {
            seq![mesh]
        }
}

/// The meshes that a mesh is drawn as.
pub open spec fn drawn_meshes(cpu_fix: bool, mesh: Mesh) -> Seq<Mesh16View> {
    if cpu_fix {
        mesh.pieces().flat_map(texture_meshes())
    } else {
        mesh.pieces()
    }
}

/// The steps that draw a mesh with 16-bit indices.
pub open spec fn mesh_commands(cpu_fix: bool, clip_rect: Rect) -> spec_fn(Mesh16View) -> Seq<
    CommandView,
> {
    |mesh: Mesh16View|
        seq![
            CommandView::ClipRect(clip_rect),
            CommandView::DrawVertices(draw_of(cpu_fix, mesh)),
        ]
}

/// The steps that draw meshes with 16-bit indices: the matrix is set to the scale, and stays so;
/// the clip lasts until the last mesh is drawn.
pub open spec fn draw_commands(
    cpu_fix: bool,
    dpi: Scalar,
    clip_rect: Rect,
    meshes: Seq<Mesh16View>,
) -> Seq<CommandView> {
    seq![CommandView::SetScale(dpi), CommandView::Save] + meshes.flat_map(
        mesh_commands(cpu_fix, clip_rect),
    ) + seq![CommandView::Restore]
}

/// The steps that paint a primitive.
pub open spec fn primitive_commands(cpu_fix: bool, dpi: Scalar) -> spec_fn(ClippedPrimitive) -> Seq<
    CommandView,
> {
    |p: ClippedPrimitive|
        match p.primitive {
            Primitive::Mesh(mesh) => draw_commands(
                cpu_fix,
                dpi,
                p.clip_rect,
                drawn_meshes(cpu_fix, mesh),
            ),
            Primitive::Callback(callback) => seq![
                CommandView::RecordCallback(callback.callback, callback.rect, dpi),
                CommandView::Save,
                CommandView::ClipRect(p.clip_rect),
                CommandView::Translate(callback.rect.min),
                CommandView::DrawRecorded,
                CommandView::Restore,
            ],
        }
}

/// All steps of a frame: first the textures are set, then the primitives are painted in their
/// order, and at last textures are freed.
pub open spec fn frame_commands(
    textures: Map<TextureId, PaintHandle>,
    cpu_fix: bool,
    dpi: Scalar,
    primitives: Seq<ClippedPrimitive>,
    delta: TexturesDelta,
) -> Seq<CommandView> {
    set_commands(textures, cpu_fix, delta.set@) + primitives.flat_map(
        primitive_commands(cpu_fix, dpi),
    ) + delta.free@.map_values(free_command())
}

/// The textures after a frame.
pub open spec fn frame_textures(
    textures: Map<TextureId, PaintHandle>,
    cpu_fix: bool,
    delta: TexturesDelta,
) -> Map<TextureId, PaintHandle> {
    after_free(after_set(textures, cpu_fix, delta.set@), delta.free@)
}

/// Can these changes be made? Skia has to make an image of each, and only a texture that is there
/// can be patched.
pub open spec fn set_possible(
    textures: Map<TextureId, PaintHandle>,
    cpu_fix: bool,
    set: Seq<(TextureId, ImageDelta)>,
) -> bool {
    forall|k: int|
        #![trigger set[k]]
        0 <= k < set.len() ==> {
            &&& set[k].1.fits()
            &&& set[k].1.uploadable()
            &&& set[k].1.pos is Some ==> after_set(
                textures,
                cpu_fix,
                set.take(k),
            ).contains_key(set[k].0)
        }
}

/// Can a primitive be painted while these textures are there?
///
/// A mesh needs its texture, unless nothing of it is drawn. With the workaround for raster
/// surfaces, a mesh of the font atlas has to have an index, unless nothing of it is drawn.
pub open spec fn primitive_possible(
    textures: Map<TextureId, PaintHandle>,
    cpu_fix: bool,
    p: ClippedPrimitive,
) -> bool {
    match p.primitive {
        Primitive::Mesh(mesh) => {
            &&& mesh.splittable()
            &&& mesh.vanishes() || textures.contains_key(mesh.texture_id)
            &&& cpu_fix && mesh.texture_id.font() ==> mesh.vanishes() || mesh.indices@.len() > 0
        },
        Primitive::Callback(_) => true,
    }
}

/// Can a frame be painted?
pub open spec fn frame_possible(
    textures: Map<TextureId, PaintHandle>,
    cpu_fix: bool,
    primitives: Seq<ClippedPrimitive>,
    delta: TexturesDelta,
) -> bool {
    &&& set_possible(textures, cpu_fix, delta.set@)
    &&& forall|i: int|
        0 <= i < primitives.len() ==> primitive_possible(
            after_set(textures, cpu_fix, delta.set@),
            cpu_fix,
            #[trigger] primitives[i],
        )
}

/// Has every run of these meshes at most 65536 corners?
pub open spec fn runs_short(meshes: Seq<Mesh16View>) -> bool {
    forall|p: int|
        #![trigger meshes[p]]
        0 <= p < meshes.len() ==> short_runs(meshes[p].corners())
}

/// Do the indices of a mesh suffice to draw each of its corners, however it is cut?
///
/// They do unless the workaround is on and the mesh is of the font atlas: a run of it may then
/// have more corners than there are 16-bit indices.
pub open spec fn indexable(cpu_fix: bool, mesh: Mesh) -> bool {
    cpu_fix && mesh.texture_id.font() ==> runs_short(mesh.pieces())
}

/// The corners that a primitive asks to draw.
pub open spec fn corners_wanted() -> spec_fn(ClippedPrimitive) -> Seq<Corner> {
    |p: ClippedPrimitive|
        match p.primitive {
            Primitive::Mesh(mesh) => mesh.corners().map_values(corner_of()),
            Primitive::Callback(_) => Seq::empty(),
        }
}

/// Do the indices of a primitive suffice to draw each of its corners?
pub open spec fn primitive_indexable(cpu_fix: bool, p: ClippedPrimitive) -> bool {
    match p.primitive {
        Primitive::Mesh(mesh) => indexable(cpu_fix, mesh),
        Primitive::Callback(_) => true,
    }
}

/// Is every texture of a size that Skia can make?
pub open spec fn sizes_valid(textures: Map<TextureId, PaintHandle>) -> bool {
    forall|id: TextureId| #[trigger]
        textures.contains_key(id) ==> valid_size(textures[id].width, textures[id].height)
}

/// Can a command be carried out while these textures are there?
pub open spec fn feasible(textures: Map<TextureId, PaintHandle>, command: CommandView) -> bool {
    match command {
        CommandView::DrawVertices(draw) => {
            &&& draw.valid()
            &&& draw.paint matches PaintSource::Texture(id) ==> textures.contains_key(id)
        },
        CommandView::UpdateTexture(update) => update.valid(),
        _ => true,
    }
}

/// Is a mesh that fits one piece left in one piece by 16-bit indices?
pub open spec fn small_is_whole(p: ClippedPrimitive) -> bool {
    p.primitive matches Primitive::Mesh(mesh) ==> mesh.vertices@.len() <= MAX_PIECE
        ==> mesh.pieces() == seq![mesh.whole()]
}

/// Do the indices suffice for a mesh without long runs, as it is before it is cut into pieces, and
/// so for every mesh with at most 65536 indices?
pub open spec fn short_is_indexable(cpu_fix: bool, p: ClippedPrimitive) -> bool {
    p.primitive matches Primitive::Mesh(mesh) ==> {
        &&& short_runs(mesh.corners()) ==> indexable(cpu_fix, mesh)
        &&& mesh.indices@.len() <= 0x1_0000 ==> indexable(cpu_fix, mesh)
    }
}

/// Do the commands for a primitive draw what it asks for, and nothing that cannot be done?
pub open spec fn faithful(
    textures: Map<TextureId, PaintHandle>,
    cpu_fix: bool,
    dpi: Scalar,
    p: ClippedPrimitive,
) -> bool {
    let commands = primitive_commands(cpu_fix, dpi)(p);
    &&& primitive_indexable(cpu_fix, p) ==> drawn(commands) == corners_wanted()(p)
    &&& forall|k: int| 0 <= k < commands.len() ==> feasible(textures, #[trigger] commands[k])
    &&& small_is_whole(p)
    &&& short_is_indexable(cpu_fix, p)
}

/// The textures that are there after some changes are those that were, and those that were set.
pub(crate) proof fn lemma_after_set_keys(
    textures: Map<TextureId, PaintHandle>,
    cpu_fix: bool,
    set: Seq<(TextureId, ImageDelta)>,
    id: TextureId,
)
    ensures
        after_set(textures, cpu_fix, set).contains_key(id) <==> textures.contains_key(id)
            || sets_texture(set, id),
    decreases set.len(),
{
    if set.len() > 0 {
        let init = set.drop_last();
        lemma_after_set_keys(textures, cpu_fix, init, id);
        if sets_texture(set, id) && set.last().0 != id {
            let j = choose|j: int| 0 <= j < set.len() && (#[trigger] set[j]).0 == id;
            assert(init[j].0 == id);
        }
    }
}

/// One more change of a texture.
pub(crate) proof fn lemma_set_step(
    textures: Map<TextureId, PaintHandle>,
    cpu_fix: bool,
    set: Seq<(TextureId, ImageDelta)>,
    k: int,
)
    requires
        0 <= k < set.len(),
    ensures
        ({
            let before = after_set(textures, cpu_fix, set.take(k));
            let (id, delta) = set[k];
            &&& after_set(textures, cpu_fix, set.take(k + 1)) == before.insert(
                id,
                handle_after(before.get(id), cpu_fix, id, delta),
            )
            &&& set_commands(textures, cpu_fix, set.take(k + 1)) == set_commands(
                textures,
                cpu_fix,
                set.take(k),
            ).push(CommandView::UpdateTexture(update_of(before.get(id), cpu_fix, id, delta)))
        }),
{
    assert(set.take(k + 1).drop_last() =~= set.take(k));
}

/// Changes that can be made can be carried out, and leave textures of valid sizes.
pub(crate) proof fn lemma_set_valid(
    textures: Map<TextureId, PaintHandle>,
    cpu_fix: bool,
    set: Seq<(TextureId, ImageDelta)>,
    count: int,
)
    requires
        0 <= count <= set.len(),
        sizes_valid(textures),
        set_possible(textures, cpu_fix, set),
    ensures
        sizes_valid(after_set(textures, cpu_fix, set.take(count))),
        forall|k: int|
            0 <= k < count ==> ((#[trigger] set_commands(textures, cpu_fix, set.take(count))[k])
                matches CommandView::UpdateTexture(update) && update.valid()),
    decreases count,
{
    if count > 0 {
        let before = after_set(textures, cpu_fix, set.take(count - 1));
        let (id, delta) = set[count - 1];
        lemma_set_valid(textures, cpu_fix, set, count - 1);
        lemma_set_commands_kind(textures, cpu_fix, set.take(count - 1));
        lemma_set_step(textures, cpu_fix, set, count - 1);
        lemma_update_valid(before.get(id), cpu_fix, id, delta);
    }
}

/// Setting textures draws nothing.
pub(crate) proof fn lemma_set_commands_kind(
    textures: Map<TextureId, PaintHandle>,
    cpu_fix: bool,
    set: Seq<(TextureId, ImageDelta)>,
)
    ensures
        set_commands(textures, cpu_fix, set).len() == set.len(),
        forall|k: int|
            0 <= k < set.len() ==> (#[trigger] set_commands(textures, cpu_fix, set)[k])
                is UpdateTexture,
    decreases set.len(),
{
    if set.len() > 0 {
        lemma_set_commands_kind(textures, cpu_fix, set.drop_last());
    }
}

/// Cutting meshes into runs changes none of their corners.
pub(crate) proof fn lemma_texture_meshes_corners(meshes: Seq<Mesh16View>)
    requires
        forall|p: int|
            #![trigger meshes[p]]
            0 <= p < meshes.len() && meshes[p].texture_id.font() ==> short_runs(
                meshes[p].corners(),
            ),
    ensures
        all_corners(meshes.flat_map(texture_meshes())) == all_corners(meshes),
    decreases meshes.len(),
{
    if meshes.len() == 0 {
        lemma_flat_map_empty(meshes, texture_meshes());
        lemma_flat_map_empty(meshes, corners_of());
        lemma_flat_map_empty(Seq::<Mesh16View>::empty(), corners_of());
    } else {
        let init = meshes.drop_last();
        let last = meshes.last();
        lemma_texture_meshes_corners(init);
        lemma_flat_map_last(meshes, texture_meshes());
        lemma_flat_map_last(meshes, corners_of());
        lemma_flat_map_add(init.flat_map(texture_meshes()), texture_meshes()(last), corners_of());
        if last.texture_id.font() {
            law_run_meshes_keep_corners(last);
        } else {
            lemma_flat_map_one(last, corners_of());
        }
    }
}

/// Pieces that together have the corners of a mesh have no long run if the mesh has none.
pub(crate) proof fn lemma_pieces_short(meshes: Seq<Mesh16View>)
    requires
        short_runs(all_corners(meshes)),
    ensures
        runs_short(meshes),
{
    assert forall|p: int| #![trigger meshes[p]] 0 <= p < meshes.len() implies short_runs(
        meshes[p].corners(),
    ) by {
        let from = lemma_flat_map_part(meshes, corners_of(), p);
        law_parts_have_short_runs(all_corners(meshes), from, from + meshes[p].corners().len());
    }
}

/// What cutting valid meshes of a texture into runs leaves: valid meshes of that texture, at least
/// one for each, and none without a vertex if there was none without an index.
pub(crate) proof fn lemma_texture_meshes_shape(meshes: Seq<Mesh16View>, texture_id: TextureId)
    requires
        forall|p: int|
            #![trigger meshes[p]]
            0 <= p < meshes.len() ==> meshes[p].valid() && meshes[p].texture_id == texture_id,
    ensures
        meshes.flat_map(texture_meshes()).len() == 0 <==> meshes.len() == 0,
        forall|k: int|
            #![trigger meshes.flat_map(texture_meshes())[k]]
            0 <= k < meshes.flat_map(texture_meshes()).len() ==> {
                let mesh = meshes.flat_map(texture_meshes())[k];
                &&& mesh.valid()
                &&& mesh.texture_id == texture_id
                &&& texture_id.font() && (forall|p: int|
                    #![trigger meshes[p]]
                    0 <= p < meshes.len() ==> meshes[p].indices.len() > 0) ==> mesh.vertices.len()
                    > 0
            },
{
    let cut = meshes.flat_map(texture_meshes());
    if meshes.len() == 0 {
        lemma_flat_map_empty(meshes, texture_meshes());
    } else {
        lemma_flat_map_last(meshes, texture_meshes());
        law_runs_keep_corners(meshes.last().corners());
    }
    assert forall|k: int| #![trigger cut[k]] 0 <= k < cut.len() implies {
        &&& cut[k].valid()
        &&& cut[k].texture_id == texture_id
        &&& texture_id.font() && (forall|p: int|
            #![trigger meshes[p]]
            0 <= p < meshes.len() ==> meshes[p].indices.len() > 0) ==> cut[k].vertices.len() > 0
    } by {
        let p = lemma_flat_map_member(meshes, texture_meshes(), k);
        let whole = meshes[p];
        let parts = texture_meshes()(whole);
        let r = choose|r: int| 0 <= r < parts.len() && parts[r] == cut[k];
        if whole.indices.len() > 0 {
            law_runs_alternate(whole.corners());
        }
    }
}

/// Commands without triangles draw no corners.
pub(crate) proof fn lemma_draws_nothing(commands: Seq<CommandView>)
    requires
        forall|k: int|
            0 <= k < commands.len() ==> !((#[trigger] commands[k]) is DrawVertices),
    ensures
        drawn(commands) == Seq::<Corner>::empty(),
    decreases commands.len(),
{
    if commands.len() == 0 {
        lemma_flat_map_empty(commands, corners_drawn());
    } else {
        let init = commands.drop_last();
        lemma_draws_nothing(init);
        lemma_flat_map_last(commands, corners_drawn());
    }
}

/// The steps that draw valid meshes draw their corners.
pub(crate) proof fn lemma_mesh_commands_draw(cpu_fix: bool, clip_rect: Rect, meshes: Seq<Mesh16View>)
    requires
        forall|i: int| #![trigger meshes[i]] 0 <= i < meshes.len() ==> meshes[i].valid(),
    ensures
        drawn(meshes.flat_map(mesh_commands(cpu_fix, clip_rect))) == all_corners(meshes).map_values(
            corner_of(),
        ),
    decreases meshes.len(),
{
    let steps = mesh_commands(cpu_fix, clip_rect);
    if meshes.len() == 0 {
        lemma_flat_map_empty(meshes, steps);
        lemma_flat_map_empty(meshes.flat_map(steps), corners_drawn());
        lemma_flat_map_empty(meshes, corners_of());
    } else {
        let init = meshes.drop_last();
        let last = meshes.last();
        lemma_mesh_commands_draw(cpu_fix, clip_rect, init);
        lemma_flat_map_last(meshes, steps);
        lemma_flat_map_last(meshes, corners_of());
        lemma_flat_map_add(init.flat_map(steps), steps(last), corners_drawn());
        let clip = CommandView::ClipRect(clip_rect);
        let draw = CommandView::DrawVertices(draw_of(cpu_fix, last));
        assert(steps(last) =~= seq![clip] + seq![draw]);
        lemma_flat_map_add(seq![clip], seq![draw], corners_drawn());
        lemma_flat_map_one(clip, corners_drawn());
        lemma_flat_map_one(draw, corners_drawn());
    }
}

/// The steps for a mesh are faithful if the meshes that it is drawn as are.
pub(crate) proof fn lemma_mesh_faithful(
    textures: Map<TextureId, PaintHandle>,
    cpu_fix: bool,
    dpi: Scalar,
    p: ClippedPrimitive,
    mesh: Mesh,
)
    requires
        p.primitive == Primitive::Mesh(mesh),
        small_is_whole(p),
        short_is_indexable(cpu_fix, p),
        mesh.vanishes() || textures.contains_key(mesh.texture_id),
        indexable(cpu_fix, mesh) ==> all_corners(drawn_meshes(cpu_fix, mesh)) == mesh.corners(),
        drawn_meshes(cpu_fix, mesh).len() == 0 <==> mesh.vanishes(),
        forall|i: int|
            #![trigger drawn_meshes(cpu_fix, mesh)[i]]
            0 <= i < drawn_meshes(cpu_fix, mesh).len() ==> {
                &&& drawn_meshes(cpu_fix, mesh)[i].valid()
                &&& drawn_meshes(cpu_fix, mesh)[i].texture_id == mesh.texture_id
            },
    ensures
        faithful(textures, cpu_fix, dpi, p),
{
    let meshes = drawn_meshes(cpu_fix, mesh);
    let steps = mesh_commands(cpu_fix, p.clip_rect);
    let middle = meshes.flat_map(steps);
    let commands = primitive_commands(cpu_fix, dpi)(p);
    let scale = CommandView::SetScale(dpi);
    let save = CommandView::Save;
    let restore = CommandView::Restore;
    assert(commands =~= seq![scale] + seq![save] + middle + seq![restore]);
    lemma_mesh_commands_draw(cpu_fix, p.clip_rect, meshes);
    lemma_flat_map_add(seq![scale] + seq![save] + middle, seq![restore], corners_drawn());
    lemma_flat_map_add(seq![scale] + seq![save], middle, corners_drawn());
    lemma_flat_map_add(seq![scale], seq![save], corners_drawn());
    lemma_flat_map_one(scale, corners_drawn());
    lemma_flat_map_one(save, corners_drawn());
    lemma_flat_map_one(restore, corners_drawn());
    assert forall|k: int| 0 <= k < commands.len() implies feasible(
        textures,
        #[trigger] commands[k],
    ) by {
        if 2 <= k < commands.len() - 1 {
            lemma_flat_map_member(meshes, steps, k - 2);
        }
    }
}

/// Faithful steps for each primitive draw what the primitives ask for.
pub(crate) proof fn lemma_primitives_draw(
    textures: Map<TextureId, PaintHandle>,
    cpu_fix: bool,
    dpi: Scalar,
    primitives: Seq<ClippedPrimitive>,
)
    requires
        forall|i: int|
            0 <= i < primitives.len() ==> faithful(
                textures,
                cpu_fix,
                dpi,
                #[trigger] primitives[i],
            ),
        forall|i: int|
            0 <= i < primitives.len() ==> primitive_indexable(cpu_fix, #[trigger] primitives[i]),
    ensures
        drawn(primitives.flat_map(primitive_commands(cpu_fix, dpi))) == primitives.flat_map(
            corners_wanted(),
        ),
    decreases primitives.len(),
{
    let steps = primitive_commands(cpu_fix, dpi);
    if primitives.len() == 0 {
        lemma_flat_map_empty(primitives, steps);
        lemma_flat_map_empty(primitives.flat_map(steps), corners_drawn());
        lemma_flat_map_empty(primitives, corners_wanted());
    } else {
        let init = primitives.drop_last();
        let last = primitives.last();
        lemma_primitives_draw(textures, cpu_fix, dpi, init);
        lemma_flat_map_last(primitives, steps);
        lemma_flat_map_last(primitives, corners_wanted());
        lemma_flat_map_add(init.flat_map(steps), steps(last), corners_drawn());
    }
}

/// The steps of a frame are faithful if those for its primitives are.
pub(crate) proof fn lemma_frame_faithful(
    textures: Map<TextureId, PaintHandle>,
    cpu_fix: bool,
    dpi: Scalar,
    primitives: Seq<ClippedPrimitive>,
    delta: TexturesDelta,
)
    requires
        sizes_valid(textures),
        set_possible(textures, cpu_fix, delta.set@),
        forall|i: int|
            0 <= i < primitives.len() ==> faithful(
                after_set(textures, cpu_fix, delta.set@),
                cpu_fix,
                dpi,
                #[trigger] primitives[i],
            ),
    ensures
        (forall|i: int|
            0 <= i < primitives.len() ==> primitive_indexable(
                cpu_fix,
                #[trigger] primitives[i],
            )) ==> drawn(frame_commands(textures, cpu_fix, dpi, primitives, delta))
            == primitives.flat_map(corners_wanted()),
        forall|k: int|
            0 <= k < frame_commands(textures, cpu_fix, dpi, primitives, delta).len() ==> feasible(
                after_set(textures, cpu_fix, delta.set@),
                #[trigger] frame_commands(textures, cpu_fix, dpi, primitives, delta)[k],
            ),
{
    let steps = primitive_commands(cpu_fix, dpi);
    let updates = set_commands(textures, cpu_fix, delta.set@);
    let painting = primitives.flat_map(steps);
    let freeing = delta.free@.map_values(free_command());
    let commands = frame_commands(textures, cpu_fix, dpi, primitives, delta);
    let there = after_set(textures, cpu_fix, delta.set@);
    lemma_set_commands_kind(textures, cpu_fix, delta.set@);
    lemma_set_valid(textures, cpu_fix, delta.set@, delta.set@.len() as int);
    assert(delta.set@.take(delta.set@.len() as int) =~= delta.set@);
    lemma_draws_nothing(updates);
    lemma_draws_nothing(freeing);
    lemma_flat_map_add(updates + painting, freeing, corners_drawn());
    lemma_flat_map_add(updates, painting, corners_drawn());
    if forall|i: int|
        0 <= i < primitives.len() ==> primitive_indexable(cpu_fix, #[trigger] primitives[i]) {
        lemma_primitives_draw(there, cpu_fix, dpi, primitives);
    }
    assert forall|k: int| 0 <= k < commands.len() implies feasible(
        there,
        #[trigger] commands[k],
    ) by {
        let from = updates.len();
        if from <= k < from + painting.len() {
            let i = lemma_flat_map_member(primitives, steps, k - from);
            let part = steps(primitives[i]);
            let j = choose|j: int| 0 <= j < part.len() && part[j] == commands[k];
        }
    }
}

} // verus!
