//! What holds of every frame.
use vstd::prelude::*;

use crate::color::{law_channels_are_restored, unmultiplied};
use crate::command::{CommandView, DrawView, PaintSource, balanced, draw_of, save_depth};
use crate::frame::{
    ClippedPrimitive, PaintCallback, Primitive, after_set, corners_wanted, drawn_meshes, feasible,
    frame_commands, frame_possible, frame_textures, free_command, indexable, lemma_after_set_keys,
    lemma_set_commands_kind, mesh_commands, primitive_commands, primitive_possible, set_commands,
    sets_texture, texture_meshes,
};
use crate::geometry::{Rect, Scalar};
use crate::mesh::{Mesh, Mesh16View};
use crate::runs::{law_runs_alternate, uv_runs};
use crate::seqs::{
    lemma_flat_map_add, lemma_flat_map_empty, lemma_flat_map_last, lemma_flat_map_member,
    lemma_flat_map_one,
};
use crate::texture::{
    ImageDelta, PaintHandle, PaintType, SamplingOptions, TextureId, TexturesDelta, law_texel_layout,
    patch_of, texel_bytes, update_of,
};

verus! {

/// Depths add up when commands follow commands.
proof fn lemma_save_depth_add(a: Seq<CommandView>, b: Seq<CommandView>)
    ensures
        save_depth(a + b) == save_depth(a) + save_depth(b),
    decreases b.len(),
{
    if b.len() > 0 {
        lemma_save_depth_add(a, b.drop_last());
        assert((a + b).drop_last() =~= a + b.drop_last());
    }
}

/// Commands that are balanced stay so when balanced commands follow.
proof fn lemma_balanced_add(a: Seq<CommandView>, b: Seq<CommandView>)
    requires
        balanced(a),
        balanced(b),
    ensures
        balanced(a + b),
{
    lemma_save_depth_add(a, b);
    assert forall|k: int| 0 <= k <= (a + b).len() implies save_depth(#[trigger] (a + b).take(k))
        >= 0 by {
        if k <= a.len() {
            assert((a + b).take(k) =~= a.take(k));
        } else {
            assert((a + b).take(k) =~= a + b.take(k - a.len()));
            lemma_save_depth_add(a, b.take(k - a.len()));
        }
    }
}

/// Commands that neither save nor restore leave the depth alone.
proof fn lemma_flat_depth(commands: Seq<CommandView>)
    requires
        forall|k: int|
            0 <= k < commands.len() ==> !((#[trigger] commands[k]) is Save) && !(commands[k]
                is Restore),
    ensures
        save_depth(commands) == 0,
        balanced(commands),
    decreases commands.len(),
{
    if commands.len() > 0 {
        let init = commands.drop_last();
        lemma_flat_depth(init);
        assert forall|k: int| 0 <= k <= commands.len() implies save_depth(
            #[trigger] commands.take(k),
        ) >= 0 by {
            if k < commands.len() {
                assert(commands.take(k) =~= init.take(k));
            } else {
                assert(commands.take(k) =~= commands);
            }
        }
    }
}

/// Does a command put something on the canvas?
pub open spec fn draws(command: CommandView) -> bool {
    command is DrawVertices || command is DrawRecorded
}

/// What a primitive puts on the canvas is clipped to its rectangle: whatever is drawn follows a
/// clip that the same saved state holds, no other clip is ever set, and afterwards the state from
/// before is restored.
pub proof fn law_primitive_is_clipped(cpu_fix: bool, dpi: Scalar, p: ClippedPrimitive)
    ensures
        balanced(primitive_commands(cpu_fix, dpi)(p)),
        forall|k: int|
            0 <= k < primitive_commands(cpu_fix, dpi)(p).len() && draws(
                #[trigger] primitive_commands(cpu_fix, dpi)(p)[k],
            ) ==> {
                &&& 2 < k
                &&& primitive_commands(cpu_fix, dpi)(p)[2] == CommandView::ClipRect(p.clip_rect)
                &&& forall|j: int|
                    1 < j <= k ==> save_depth(
                        #[trigger] primitive_commands(cpu_fix, dpi)(p).take(j),
                    ) == 1
            },
        forall|k: int|
            0 <= k < primitive_commands(cpu_fix, dpi)(p).len() ==> ((
            #[trigger] primitive_commands(cpu_fix, dpi)(p)[k]) matches CommandView::ClipRect(rect)
                ==> rect == p.clip_rect),
{
    let commands = primitive_commands(cpu_fix, dpi)(p);
    let n = commands.len() as int;
    let middle = match p.primitive {
        Primitive::Mesh(mesh) => drawn_meshes(cpu_fix, mesh).flat_map(
            mesh_commands(cpu_fix, p.clip_rect),
        ),
        Primitive::Callback(callback) => seq![
            CommandView::ClipRect(p.clip_rect),
            CommandView::Translate(callback.rect.min),
            CommandView::DrawRecorded,
        ],
    };
    assert(commands =~= seq![commands[0], CommandView::Save] + middle + seq![
        CommandView::Restore,
    ]);
    if let Primitive::Mesh(mesh) = p.primitive {
        let meshes = drawn_meshes(cpu_fix, mesh);
        let steps = mesh_commands(cpu_fix, p.clip_rect);
        assert forall|k: int| 0 <= k < middle.len() implies {
            ||| (#[trigger] middle[k]) is DrawVertices
            ||| middle[k] == CommandView::ClipRect(p.clip_rect)
        } by {
            lemma_flat_map_member(meshes, steps, k);
        }
        lemma_mesh_commands_first(cpu_fix, p.clip_rect, meshes);
    }
    lemma_flat_depth(middle);
    let head = seq![commands[0], CommandView::Save];
    reveal_with_fuel(save_depth, 3);
    assert forall|j: int| 2 <= j < n implies save_depth(#[trigger] commands.take(j)) == 1 by {
        assert(commands.take(j) =~= head + middle.take(j - 2));
        lemma_save_depth_add(head, middle.take(j - 2));
        lemma_flat_depth(middle.take(j - 2));
    }
    assert forall|j: int| 0 <= j <= n implies save_depth(#[trigger] commands.take(j)) >= 0 by {
        if j == n {
            assert(commands.take(j) =~= commands);
        }
    }
}

/// The first thing that drawing some meshes does is to clip.
proof fn lemma_mesh_commands_first(
    cpu_fix: bool,
    clip_rect: Rect,
    meshes: Seq<Mesh16View>,
)
    ensures
        meshes.flat_map(mesh_commands(cpu_fix, clip_rect)).len() == 2 * meshes.len(),
        meshes.len() > 0 ==> meshes.flat_map(mesh_commands(cpu_fix, clip_rect))[0]
            == CommandView::ClipRect(clip_rect),
    decreases meshes.len(),
{
    let steps = mesh_commands(cpu_fix, clip_rect);
    if meshes.len() == 0 {
        lemma_flat_map_empty(meshes, steps);
    } else {
        lemma_mesh_commands_first(cpu_fix, clip_rect, meshes.drop_last());
        lemma_flat_map_last(meshes, steps);
    }
}

/// Painting primitives is balanced.
proof fn lemma_primitives_balanced(cpu_fix: bool, dpi: Scalar, primitives: Seq<ClippedPrimitive>)
    ensures
        balanced(primitives.flat_map(primitive_commands(cpu_fix, dpi))),
    decreases primitives.len(),
{
    let steps = primitive_commands(cpu_fix, dpi);
    if primitives.len() == 0 {
        lemma_flat_map_empty(primitives, steps);
        lemma_flat_depth(primitives.flat_map(steps));
    } else {
        lemma_primitives_balanced(cpu_fix, dpi, primitives.drop_last());
        lemma_flat_map_last(primitives, steps);
        law_primitive_is_clipped(cpu_fix, dpi, primitives.last());
        lemma_balanced_add(primitives.drop_last().flat_map(steps), steps(primitives.last()));
    }
}

/// A frame leaves the canvas as deep in saved states as it found it, and never restores a state
/// that it did not save.
pub proof fn law_frame_is_balanced(
    textures: Map<TextureId, PaintHandle>,
    cpu_fix: bool,
    dpi: Scalar,
    primitives: Seq<ClippedPrimitive>,
    delta: TexturesDelta,
)
    ensures
        balanced(frame_commands(textures, cpu_fix, dpi, primitives, delta)),
{
    let updates = set_commands(textures, cpu_fix, delta.set@);
    let painting = primitives.flat_map(primitive_commands(cpu_fix, dpi));
    let freeing = delta.free@.map_values(free_command());
    lemma_set_commands_kind(textures, cpu_fix, delta.set@);
    lemma_flat_depth(updates);
    lemma_flat_depth(freeing);
    lemma_primitives_balanced(cpu_fix, dpi, primitives);
    lemma_balanced_add(updates, painting);
    lemma_balanced_add(updates + painting, freeing);
}

/// Triangles in a frame come from a mesh that a mesh of the frame is drawn as.
proof fn lemma_draw_origin(
    textures: Map<TextureId, PaintHandle>,
    cpu_fix: bool,
    dpi: Scalar,
    primitives: Seq<ClippedPrimitive>,
    delta: TexturesDelta,
    k: int,
) -> (origin: (Mesh, Mesh16View))
    requires
        0 <= k < frame_commands(textures, cpu_fix, dpi, primitives, delta).len(),
        frame_commands(textures, cpu_fix, dpi, primitives, delta)[k] is DrawVertices,
    ensures
        drawn_meshes(cpu_fix, origin.0).contains(origin.1),
        frame_commands(textures, cpu_fix, dpi, primitives, delta)[k] == CommandView::DrawVertices(
            draw_of(cpu_fix, origin.1),
        ),
{
    let updates = set_commands(textures, cpu_fix, delta.set@);
    let steps = primitive_commands(cpu_fix, dpi);
    let command = frame_commands(textures, cpu_fix, dpi, primitives, delta)[k];
    lemma_set_commands_kind(textures, cpu_fix, delta.set@);
    let i = lemma_flat_map_member(primitives, steps, k - updates.len());
    let part = steps(primitives[i]);
    let j = choose|j: int| 0 <= j < part.len() && part[j] == command;
    let mesh = primitives[i].primitive->Mesh_0;
    let meshes = drawn_meshes(cpu_fix, mesh);
    let draw_steps = mesh_commands(cpu_fix, primitives[i].clip_rect);
    let m = lemma_flat_map_member(meshes, draw_steps, j - 2);
    (mesh, meshes[m])
}

/// White paint is for solid color, and the font atlas for everything else: triangles are painted
/// white only with the workaround for raster surfaces and only where all their texture
/// coordinates are `(0, 0)`, and with the workaround no triangles of the font atlas have such
/// coordinates.
pub proof fn law_white_is_solid(
    textures: Map<TextureId, PaintHandle>,
    cpu_fix: bool,
    dpi: Scalar,
    primitives: Seq<ClippedPrimitive>,
    delta: TexturesDelta,
)
    ensures
        forall|k: int|
            0 <= k < frame_commands(textures, cpu_fix, dpi, primitives, delta).len() ==> ((
            #[trigger] frame_commands(textures, cpu_fix, dpi, primitives, delta)[k]) matches
                CommandView::DrawVertices(draw) ==> {
                &&& draw.paint == PaintSource::White ==> cpu_fix
                &&& draw.paint == PaintSource::White ==> forall|v: int|
                    0 <= v < draw.texs.len() ==> (#[trigger] draw.texs[v]).zero()
                &&& cpu_fix && (draw.paint matches PaintSource::Texture(id) && id.font())
                    ==> forall|v: int| 0 <= v < draw.texs.len() ==> !(#[trigger] draw.texs[v]).zero()
            }),
{
    let commands = frame_commands(textures, cpu_fix, dpi, primitives, delta);
    assert forall|k: int| 0 <= k < commands.len() implies ((#[trigger] commands[k]) matches
        CommandView::DrawVertices(draw) ==> {
        &&& draw.paint == PaintSource::White ==> cpu_fix
        &&& draw.paint == PaintSource::White ==> forall|v: int|
            0 <= v < draw.texs.len() ==> (#[trigger] draw.texs[v]).zero()
        &&& cpu_fix && (draw.paint matches PaintSource::Texture(id) && id.font()) ==> forall|v: int|
            0 <= v < draw.texs.len() ==> !(#[trigger] draw.texs[v]).zero()
    }) by {
        if commands[k] is DrawVertices {
            let (whole, mesh) = lemma_draw_origin(textures, cpu_fix, dpi, primitives, delta, k);
            if cpu_fix && mesh.texture_id.font() && mesh.vertices.len() > 0 {
                let meshes = drawn_meshes(cpu_fix, whole);
                let at = choose|at: int| 0 <= at < meshes.len() && meshes[at] == mesh;
                let p = lemma_flat_map_member(whole.pieces(), texture_meshes(), at);
                let piece = whole.pieces()[p];
                let parts = texture_meshes()(piece);
                let r = choose|r: int| 0 <= r < parts.len() && parts[r] == mesh;
                if piece.corners().len() > 0 {
                    law_runs_alternate(piece.corners());
                }
            }
        }
    }
}

/// Skia never gets a position that is not a number, and it gets as many texture coordinates and
/// colors as positions.
pub proof fn law_positions_are_numbers(
    textures: Map<TextureId, PaintHandle>,
    cpu_fix: bool,
    dpi: Scalar,
    primitives: Seq<ClippedPrimitive>,
    delta: TexturesDelta,
)
    ensures
        forall|k: int|
            0 <= k < frame_commands(textures, cpu_fix, dpi, primitives, delta).len() ==> ((
            #[trigger] frame_commands(textures, cpu_fix, dpi, primitives, delta)[k]) matches
                CommandView::DrawVertices(draw) ==> {
                &&& draw.texs.len() == draw.positions.len()
                &&& draw.colors.len() == draw.positions.len()
                &&& forall|v: int|
                    0 <= v < draw.positions.len() ==> !(#[trigger] draw.positions[v]).nan()
            }),
{
    let commands = frame_commands(textures, cpu_fix, dpi, primitives, delta);
    assert forall|k: int| 0 <= k < commands.len() implies ((#[trigger] commands[k]) matches
        CommandView::DrawVertices(draw) ==> {
        &&& draw.texs.len() == draw.positions.len()
        &&& draw.colors.len() == draw.positions.len()
        &&& forall|v: int| 0 <= v < draw.positions.len() ==> !(#[trigger] draw.positions[v]).nan()
    }) by {
        if commands[k] is DrawVertices {
            lemma_draw_origin(textures, cpu_fix, dpi, primitives, delta, k);
        }
    }
}

/// Textures are set before anything is painted and freed after everything is: no texture is set
/// after a step of another kind, and no step of another kind follows the freeing of a texture.
pub proof fn law_set_paint_free(
    textures: Map<TextureId, PaintHandle>,
    cpu_fix: bool,
    dpi: Scalar,
    primitives: Seq<ClippedPrimitive>,
    delta: TexturesDelta,
)
    ensures
        forall|i: int, j: int|
            0 <= i < j < frame_commands(textures, cpu_fix, dpi, primitives, delta).len() ==> {
                &&& (#[trigger] frame_commands(textures, cpu_fix, dpi, primitives, delta)[j])
                    is UpdateTexture ==> (#[trigger] frame_commands(
                    textures,
                    cpu_fix,
                    dpi,
                    primitives,
                    delta,
                )[i]) is UpdateTexture
                &&& frame_commands(textures, cpu_fix, dpi, primitives, delta)[i] is FreeTexture
                    ==> frame_commands(textures, cpu_fix, dpi, primitives, delta)[j] is FreeTexture
            },
{
    let commands = frame_commands(textures, cpu_fix, dpi, primitives, delta);
    let updates = set_commands(textures, cpu_fix, delta.set@);
    let steps = primitive_commands(cpu_fix, dpi);
    let painting = primitives.flat_map(steps);
    lemma_set_commands_kind(textures, cpu_fix, delta.set@);
    assert forall|k: int| updates.len() <= k < updates.len() + painting.len() implies !((
    #[trigger] commands[k]) is UpdateTexture) && !(commands[k] is FreeTexture) by {
        let i = lemma_flat_map_member(primitives, steps, k - updates.len());
        let part = steps(primitives[i]);
        let j = choose|j: int| 0 <= j < part.len() && part[j] == commands[k];
        if let Primitive::Mesh(mesh) = primitives[i].primitive {
            let meshes = drawn_meshes(cpu_fix, mesh);
            let draw_steps = mesh_commands(cpu_fix, primitives[i].clip_rect);
            if 2 <= j < part.len() - 1 {
                lemma_flat_map_member(meshes, draw_steps, j - 2);
            }
        }
    }
}

/// Only the font atlas is ever cut into runs: a mesh with any other texture is drawn as the pieces
/// that its 16-bit indices need, and so is every mesh without the workaround.
pub proof fn law_images_are_not_cut(cpu_fix: bool, mesh: Mesh)
    requires
        !cpu_fix || !mesh.texture_id.font(),
    ensures
        drawn_meshes(cpu_fix, mesh) == mesh.pieces(),
{
    lemma_not_cut(mesh.pieces(), mesh.texture_id);
}

/// Meshes of another texture than the font atlas are not cut.
proof fn lemma_not_cut(meshes: Seq<Mesh16View>, texture_id: TextureId)
    requires
        forall|p: int|
            #![trigger meshes[p]]
            0 <= p < meshes.len() ==> meshes[p].texture_id == texture_id,
    ensures
        !texture_id.font() ==> meshes.flat_map(texture_meshes()) == meshes,
    decreases meshes.len(),
{
    if meshes.len() == 0 {
        lemma_flat_map_empty(meshes, texture_meshes());
    } else {
        let init = meshes.drop_last();
        lemma_not_cut(init, texture_id);
        lemma_flat_map_last(meshes, texture_meshes());
    }
}

/// A texture that a frame neither sets nor frees stays what it is.
pub proof fn law_other_textures_stay(
    textures: Map<TextureId, PaintHandle>,
    cpu_fix: bool,
    delta: TexturesDelta,
    id: TextureId,
)
    requires
        !sets_texture(delta.set@, id),
        !delta.free@.contains(id),
    ensures
        frame_textures(textures, cpu_fix, delta).get(id) == textures.get(id),
{
    lemma_unset_stays(textures, cpu_fix, delta.set@, id);
}

/// A texture that is not set stays what it is.
proof fn lemma_unset_stays(
    textures: Map<TextureId, PaintHandle>,
    cpu_fix: bool,
    set: Seq<(TextureId, ImageDelta)>,
    id: TextureId,
)
    requires
        !sets_texture(set, id),
    ensures
        after_set(textures, cpu_fix, set).get(id) == textures.get(id),
    decreases set.len(),
{
    if set.len() > 0 {
        let init = set.drop_last();
        lemma_unset_stays(textures, cpu_fix, init, id);
    }
}

/// A texture that a frame frees is gone after it, whatever the frame did to it before.
pub proof fn law_freed_textures_are_gone(
    textures: Map<TextureId, PaintHandle>,
    cpu_fix: bool,
    delta: TexturesDelta,
    id: TextureId,
)
    requires
        delta.free@.contains(id),
    ensures
        !frame_textures(textures, cpu_fix, delta).contains_key(id),
{
}

/// The last change that a frame makes to a texture decides its sampling, and its size too if it
/// sets the whole texture. A frame that does not free it leaves it there.
pub proof fn law_last_change_decides(
    textures: Map<TextureId, PaintHandle>,
    cpu_fix: bool,
    delta: TexturesDelta,
    last: int,
)
    requires
        0 <= last < delta.set@.len(),
        forall|j: int| last < j < delta.set@.len() ==> (#[trigger] delta.set@[j]).0 != delta.set@[last].0,
        !delta.free@.contains(delta.set@[last].0),
    ensures
        ({
            let (id, change) = delta.set@[last];
            let after = frame_textures(textures, cpu_fix, delta);
            &&& after.contains_key(id)
            &&& after[id].paint_type == PaintType::spec_of(id)
            &&& after[id].sampling == SamplingOptions::spec_for(cpu_fix, change.options)
            &&& change.pos is None ==> after[id].width == change.image.size[0] as i32
                && after[id].height == change.image.size[1] as i32
        }),
{
    lemma_last_change(textures, cpu_fix, delta.set@, last);
}

/// The last change of a texture decides what it is.
proof fn lemma_last_change(
    textures: Map<TextureId, PaintHandle>,
    cpu_fix: bool,
    set: Seq<(TextureId, ImageDelta)>,
    last: int,
)
    requires
        0 <= last < set.len(),
        forall|j: int| last < j < set.len() ==> (#[trigger] set[j]).0 != set[last].0,
    ensures
        after_set(textures, cpu_fix, set).contains_key(set[last].0),
        after_set(textures, cpu_fix, set)[set[last].0].paint_type == PaintType::spec_of(
            set[last].0,
        ),
        after_set(textures, cpu_fix, set)[set[last].0].sampling == SamplingOptions::spec_for(
            cpu_fix,
            set[last].1.options,
        ),
        set[last].1.pos is None ==> after_set(textures, cpu_fix, set)[set[last].0].width
            == set[last].1.image.size[0] as i32 && after_set(
            textures,
            cpu_fix,
            set,
        )[set[last].0].height == set[last].1.image.size[1] as i32,
    decreases set.len(),
{
    if last < set.len() - 1 {
        let init = set.drop_last();
        lemma_last_change(textures, cpu_fix, init, last);
    }
}

/// Patches never change the size of a texture.
pub proof fn law_patches_keep_size(
    textures: Map<TextureId, PaintHandle>,
    cpu_fix: bool,
    set: Seq<(TextureId, ImageDelta)>,
    id: TextureId,
)
    requires
        textures.contains_key(id),
        forall|j: int|
            0 <= j < set.len() && (#[trigger] set[j]).0 == id ==> set[j].1.pos is Some,
    ensures
        after_set(textures, cpu_fix, set).contains_key(id),
        after_set(textures, cpu_fix, set)[id].width == textures[id].width,
        after_set(textures, cpu_fix, set)[id].height == textures[id].height,
    decreases set.len(),
{
    if set.len() > 0 {
        let init = set.drop_last();
        law_patches_keep_size(textures, cpu_fix, init, id);
    }
}

/// A patch replaces exactly as many texels as are uploaded for it, starting where the change says,
/// on a surface of the size that the texture keeps.
pub proof fn law_patch_covers_upload(
    old_handle: PaintHandle,
    cpu_fix: bool,
    id: TextureId,
    delta: ImageDelta,
    pos: [usize; 2],
)
    requires
        delta.fits(),
        delta.pos == Some(pos),
        pos[0] <= i32::MAX,
        pos[1] <= i32::MAX,
    ensures
        patch_of(Some(old_handle), delta) matches Some(patch) && {
            let update = update_of(Some(old_handle), cpu_fix, id, delta);
            &&& update.patch == Some(patch)
            &&& patch.left == pos[0]
            &&& patch.top == pos[1]
            &&& patch.right - patch.left == update.width
            &&& patch.bottom - patch.top == update.height
            &&& patch.surface_width == old_handle.width == update.handle.width
            &&& patch.surface_height == old_handle.height == update.handle.height
        },
{
}

/// A frame without changes of textures leaves them all as they are, and every step of it paints.
pub proof fn law_frame_without_changes(
    textures: Map<TextureId, PaintHandle>,
    cpu_fix: bool,
    dpi: Scalar,
    primitives: Seq<ClippedPrimitive>,
    delta: TexturesDelta,
)
    requires
        delta.set@.len() == 0,
        delta.free@.len() == 0,
    ensures
        frame_textures(textures, cpu_fix, delta) == textures,
        frame_commands(textures, cpu_fix, dpi, primitives, delta) == primitives.flat_map(
            primitive_commands(cpu_fix, dpi),
        ),
{
}

/// A callback is recorded once, for its own rectangle at the scale. Then, with or without the
/// workaround, the canvas is saved, clipped to the primitive's rectangle, and moved once, to the
/// corner of the callback's rectangle; what was recorded is drawn there once; and the canvas is
/// restored. Nothing else is done.
pub proof fn law_callback_is_drawn_in_place(
    cpu_fix: bool,
    dpi: Scalar,
    p: ClippedPrimitive,
    callback: PaintCallback,
)
    requires
        p.primitive == Primitive::Callback(callback),
    ensures
        ({
            let commands = primitive_commands(cpu_fix, dpi)(p);
            &&& commands.len() == 6
            &&& commands[0] matches CommandView::RecordCallback(number, rect, scale) && {
                &&& number == callback.callback
                &&& rect.min.x == callback.rect.min.x
                &&& rect.min.y == callback.rect.min.y
                &&& rect.max.x == callback.rect.max.x
                &&& rect.max.y == callback.rect.max.y
                &&& scale == dpi
            }
            &&& commands[1] is Save
            &&& commands[2] matches CommandView::ClipRect(rect) && {
                &&& rect.min.x == p.clip_rect.min.x
                &&& rect.min.y == p.clip_rect.min.y
                &&& rect.max.x == p.clip_rect.max.x
                &&& rect.max.y == p.clip_rect.max.y
            }
            &&& commands[3] matches CommandView::Translate(offset) && {
                &&& offset.x == callback.rect.min.x
                &&& offset.y == callback.rect.min.y
            }
            &&& commands[4] is DrawRecorded
            &&& commands[5] is Restore
        }),
{
}

/// Where the steps for each mesh stand among the steps for some meshes.
proof fn lemma_mesh_commands_at(
    cpu_fix: bool,
    clip_rect: Rect,
    meshes: Seq<Mesh16View>,
    i: int,
)
    requires
        0 <= i < meshes.len(),
    ensures
        ({
            let steps = meshes.flat_map(mesh_commands(cpu_fix, clip_rect));
            &&& steps.len() == 2 * meshes.len()
            &&& steps[2 * i] == CommandView::ClipRect(clip_rect)
            &&& steps[2 * i + 1] == CommandView::DrawVertices(draw_of(cpu_fix, meshes[i]))
        }),
    decreases meshes.len(),
{
    let init = meshes.drop_last();
    lemma_mesh_commands_first(cpu_fix, clip_rect, meshes);
    lemma_mesh_commands_first(cpu_fix, clip_rect, init);
    lemma_flat_map_last(meshes, mesh_commands(cpu_fix, clip_rect));
    if i < init.len() {
        lemma_mesh_commands_at(cpu_fix, clip_rect, init, i);
    }
}

/// A mesh is drawn at the scale, within its rectangle: the matrix is set to the scale and the
/// canvas is saved; each of the meshes that it is drawn as is drawn once, in order, right after the
/// clip is set to the primitive's rectangle; and the canvas is restored. Every vertex that is drawn
/// has the texture coordinates of its vertex in the mesh, and its position, if that is a number.
pub proof fn law_mesh_is_drawn_in_place(
    cpu_fix: bool,
    dpi: Scalar,
    p: ClippedPrimitive,
    mesh: Mesh,
)
    requires
        p.primitive == Primitive::Mesh(mesh),
    ensures
        ({
            let commands = primitive_commands(cpu_fix, dpi)(p);
            let meshes = drawn_meshes(cpu_fix, mesh);
            &&& commands.len() == 2 * meshes.len() + 3
            &&& commands[0] matches CommandView::SetScale(scale) && scale == dpi
            &&& commands[1] is Save
            &&& commands.last() is Restore
            &&& forall|i: int|
                #![trigger meshes[i]]
                0 <= i < meshes.len() ==> {
                    &&& commands[2 * i + 2] matches CommandView::ClipRect(rect) && {
                        &&& rect.min.x == p.clip_rect.min.x
                        &&& rect.min.y == p.clip_rect.min.y
                        &&& rect.max.x == p.clip_rect.max.x
                        &&& rect.max.y == p.clip_rect.max.y
                    }
                    &&& commands[2 * i + 3] matches CommandView::DrawVertices(draw) && {
                        &&& draw.indices == meshes[i].indices
                        &&& draw.positions.len() == meshes[i].vertices.len()
                        &&& draw.texs.len() == meshes[i].vertices.len()
                        &&& draw.colors.len() == meshes[i].vertices.len()
                        &&& forall|v: int|
                            #![trigger meshes[i].vertices[v]]
                            0 <= v < meshes[i].vertices.len() ==> {
                                let vertex = meshes[i].vertices[v];
                                &&& draw.texs[v].x == vertex.uv.x
                                &&& draw.texs[v].y == vertex.uv.y
                                &&& !vertex.pos.x.nan() && !vertex.pos.y.nan()
                                    ==> draw.positions[v].x == vertex.pos.x
                                    && draw.positions[v].y == vertex.pos.y
                                &&& draw.colors[v].a == vertex.color.a
                                &&& vertex.color.a == 255 ==> {
                                    &&& draw.colors[v].r == vertex.color.r
                                    &&& draw.colors[v].g == vertex.color.g
                                    &&& draw.colors[v].b == vertex.color.b
                                }
                            }
                        &&& draw.paint matches PaintSource::Texture(id) ==> id
                            == meshes[i].texture_id
                        &&& draw.paint is White ==> cpu_fix && meshes[i].texture_id
                            == TextureId::Managed(0)
                    }
                }
        }),
{
    let commands = primitive_commands(cpu_fix, dpi)(p);
    let meshes = drawn_meshes(cpu_fix, mesh);
    let steps = meshes.flat_map(mesh_commands(cpu_fix, p.clip_rect));
    lemma_mesh_commands_first(cpu_fix, p.clip_rect, meshes);
    assert(commands =~= seq![CommandView::SetScale(dpi), CommandView::Save] + steps + seq![
        CommandView::Restore,
    ]);
    assert forall|i: int| #![trigger meshes[i]] 0 <= i < meshes.len() implies {
        &&& commands[2 * i + 2] == CommandView::ClipRect(p.clip_rect)
        &&& commands[2 * i + 3] == CommandView::DrawVertices(draw_of(cpu_fix, meshes[i]))
    } by {
        lemma_mesh_commands_at(cpu_fix, p.clip_rect, meshes, i);
    }
    assert forall|i: int, v: int| #![trigger meshes[i].vertices[v]] 0 <= i < meshes.len() && 0 <= v
        < meshes[i].vertices.len() && meshes[i].vertices[v].color.a == 255 implies {
        let (color, c) = (draw_of(cpu_fix, meshes[i]).colors[v], meshes[i].vertices[v].color);
        &&& color.r == c.r
        &&& color.g == c.g
        &&& color.b == c.b
    } by {
        law_channels_are_restored(meshes[i].vertices[v].color);
    }
}

/// A primitive asks for one corner for each index of its mesh, in order, with the position, the
/// texture coordinates and the color of the vertex that the index names, each in its own place. A
/// callback asks for none.
pub proof fn law_corners_are_wanted_as_given(p: ClippedPrimitive)
    ensures
        p.primitive is Callback ==> corners_wanted()(p).len() == 0,
        p.primitive matches Primitive::Mesh(mesh) ==> {
            &&& corners_wanted()(p).len() == mesh.indices@.len()
            &&& forall|k: int|
                #![trigger corners_wanted()(p)[k]]
                #![trigger mesh.indices@[k]]
                0 <= k < mesh.indices@.len() ==> {
                    let (corner, v) = (
                        corners_wanted()(p)[k],
                        mesh.vertices@[mesh.indices@[k] as int],
                    );
                    &&& corner.uv.x == v.uv.x
                    &&& corner.uv.y == v.uv.y
                    &&& !v.pos.x.nan() && !v.pos.y.nan() ==> corner.pos.x == v.pos.x
                        && corner.pos.y == v.pos.y
                    &&& v.pos.x.nan() || v.pos.y.nan() ==> corner.pos.x.bits == 0
                        && corner.pos.y.bits == 0
                    &&& corner.color.a == v.color.a
                    &&& corner.color.r == unmultiplied(v.color.r, v.color.a)
                    &&& corner.color.g == unmultiplied(v.color.g, v.color.a)
                    &&& corner.color.b == unmultiplied(v.color.b, v.color.a)
                }
        },
{
}

/// What a piece is drawn as with the workaround: a piece of the font atlas as one mesh for each of
/// its runs, in order, and any other piece as itself. A mesh is drawn as what its pieces are drawn
/// as, one after the other.
pub proof fn law_pieces_are_drawn_in_order(piece: Mesh16View, mesh: Mesh)
    ensures
        piece.texture_id != TextureId::Managed(0) ==> {
            &&& texture_meshes()(piece).len() == 1
            &&& texture_meshes()(piece)[0] == piece
        },
        piece.texture_id == TextureId::Managed(0) ==> {
            &&& texture_meshes()(piece).len() == uv_runs(piece.corners()).len()
            &&& forall|r: int|
                #![trigger texture_meshes()(piece)[r]]
                0 <= r < uv_runs(piece.corners()).len() ==> {
                    &&& texture_meshes()(piece)[r].vertices == uv_runs(piece.corners())[r]
                    &&& texture_meshes()(piece)[r].texture_id == piece.texture_id
                    &&& forall|k: int|
                        0 <= k < texture_meshes()(piece)[r].indices.len() ==> (
                        #[trigger] texture_meshes()(piece)[r].indices[k]) == k % 0x1_0000
                }
        },
        drawn_meshes(false, mesh) == mesh.pieces(),
        mesh.pieces().len() == 0 ==> drawn_meshes(true, mesh).len() == 0,
        mesh.pieces().len() == 1 ==> drawn_meshes(true, mesh) == texture_meshes()(
            mesh.pieces()[0],
        ),
        drawn_meshes(true, mesh) == mesh.pieces().flat_map(texture_meshes()),
{
    if mesh.pieces().len() == 0 {
        lemma_flat_map_empty(mesh.pieces(), texture_meshes());
    }
    if mesh.pieces().len() == 1 {
        lemma_flat_map_one(mesh.pieces()[0], texture_meshes());
        assert(mesh.pieces() =~= seq![mesh.pieces()[0]]);
    }
}

/// Every mesh that a mesh is drawn as has its texture.
pub proof fn law_drawn_meshes_keep_texture(cpu_fix: bool, mesh: Mesh)
    ensures
        forall|i: int|
            #![trigger drawn_meshes(cpu_fix, mesh)[i]]
            0 <= i < drawn_meshes(cpu_fix, mesh).len() ==> drawn_meshes(cpu_fix, mesh)[i].texture_id
                == mesh.texture_id,
{
    assert forall|i: int|
        #![trigger drawn_meshes(cpu_fix, mesh)[i]]
        0 <= i < drawn_meshes(cpu_fix, mesh).len() implies drawn_meshes(
        cpu_fix,
        mesh,
    )[i].texture_id == mesh.texture_id by {
        if cpu_fix {
            lemma_flat_map_member(mesh.pieces(), texture_meshes(), i);
        }
    }
}

/// Meshes are indexable without the workaround, and so are those of any texture but the font
/// atlas. With it, a mesh of the font atlas is if no piece of it has a run of more than 65536
/// corners.
pub proof fn law_indexable_meshes(cpu_fix: bool, mesh: Mesh)
    ensures
        !cpu_fix || mesh.texture_id != TextureId::Managed(0) ==> indexable(cpu_fix, mesh),
        (forall|p: int, r: int|
            #![trigger uv_runs(mesh.pieces()[p].corners())[r]]
            0 <= p < mesh.pieces().len() && 0 <= r < uv_runs(mesh.pieces()[p].corners()).len()
                ==> uv_runs(mesh.pieces()[p].corners())[r].len() <= 65536) ==> indexable(
            cpu_fix,
            mesh,
        ),
{
}

/// The first commands of a frame set its textures, one for one and in order: each command is about
/// the texture that the change names and uploads the texels of that change, each once and in their
/// order, as red, green, blue and alpha. No later command sets a texture.
pub proof fn law_textures_are_set_as_named(
    textures: Map<TextureId, PaintHandle>,
    cpu_fix: bool,
    dpi: Scalar,
    primitives: Seq<ClippedPrimitive>,
    delta: TexturesDelta,
)
    ensures
        ({
            let commands = frame_commands(textures, cpu_fix, dpi, primitives, delta);
            let set = delta.set@;
            &&& commands.len() >= set.len()
            &&& forall|k: int|
                #![trigger set[k]]
                0 <= k < set.len() ==> (commands[k] matches CommandView::UpdateTexture(update) && {
                    let pixels = set[k].1.image.pixels@;
                    &&& update.id == set[k].0
                    &&& update.width == set[k].1.image.size[0] as i32
                    &&& update.height == set[k].1.image.size[1] as i32
                    &&& set[k].1.fits() ==> update.row_bytes == 4 * set[k].1.image.size[0]
                    &&& update.bytes.len() == 4 * pixels.len()
                    &&& forall|i: int|
                        #![trigger pixels[i]]
                        0 <= i < pixels.len() ==> {
                            &&& update.bytes[4 * i] == pixels[i].r
                            &&& update.bytes[4 * i + 1] == pixels[i].g
                            &&& update.bytes[4 * i + 2] == pixels[i].b
                            &&& update.bytes[4 * i + 3] == pixels[i].a
                        }
                    &&& update.patch is Some <==> set[k].1.pos is Some
                    &&& (update.patch, set[k].1.pos) matches (Some(patch), Some(pos))
                        ==> patch.left == pos[0] && patch.top == pos[1]
                })
            &&& forall|k: int|
                set.len() <= k < commands.len() ==> !((#[trigger] commands[k]) is UpdateTexture)
        }),
{
    let commands = frame_commands(textures, cpu_fix, dpi, primitives, delta);
    let set = delta.set@;
    lemma_set_commands_kind(textures, cpu_fix, set);
    assert forall|k: int| #![trigger set[k]] 0 <= k < set.len() implies (commands[k]
        == CommandView::UpdateTexture(
        update_of(
            after_set(textures, cpu_fix, set.take(k)).get(set[k].0),
            cpu_fix,
            set[k].0,
            set[k].1,
        ),
    )) && set[k].1.image.pixels@.flat_map(texel_bytes()).len() == 4
        * set[k].1.image.pixels@.len() by {
        lemma_set_command_at(textures, cpu_fix, set, k);
        law_texel_layout(set[k].1.image.pixels@);
    }
    assert forall|k: int, i: int|
        #![trigger set[k].1.image.pixels@[i]]
        0 <= k < set.len() && 0 <= i < set[k].1.image.pixels@.len() implies {
        let (bytes, c) = (
            set[k].1.image.pixels@.flat_map(texel_bytes()),
            set[k].1.image.pixels@[i],
        );
        &&& bytes[4 * i] == c.r
        &&& bytes[4 * i + 1] == c.g
        &&& bytes[4 * i + 2] == c.b
        &&& bytes[4 * i + 3] == c.a
    } by {
        law_texel_layout(set[k].1.image.pixels@);
    }
    lemma_only_first_set(textures, cpu_fix, dpi, primitives, delta);
}

/// The command for a change is planned from the textures that are there when its turn comes.
proof fn lemma_set_command_at(
    textures: Map<TextureId, PaintHandle>,
    cpu_fix: bool,
    set: Seq<(TextureId, ImageDelta)>,
    k: int,
)
    requires
        0 <= k < set.len(),
    ensures
        set_commands(textures, cpu_fix, set)[k] == CommandView::UpdateTexture(
            update_of(
                after_set(textures, cpu_fix, set.take(k)).get(set[k].0),
                cpu_fix,
                set[k].0,
                set[k].1,
            ),
        ),
    decreases set.len(),
{
    let init = set.drop_last();
    lemma_set_commands_kind(textures, cpu_fix, init);
    if k < init.len() {
        lemma_set_command_at(textures, cpu_fix, init, k);
        assert(init.take(k) =~= set.take(k));
    } else {
        assert(init =~= set.take(k));
    }
}

/// Painting neither sets nor frees a texture.
proof fn lemma_painting_kind(cpu_fix: bool, dpi: Scalar, primitives: Seq<ClippedPrimitive>)
    ensures
        forall|k: int|
            0 <= k < primitives.flat_map(primitive_commands(cpu_fix, dpi)).len() ==> {
                &&& !((#[trigger] primitives.flat_map(primitive_commands(cpu_fix, dpi))[k])
                    is UpdateTexture)
                &&& !(primitives.flat_map(primitive_commands(cpu_fix, dpi))[k] is FreeTexture)
            },
{
    let steps = primitive_commands(cpu_fix, dpi);
    let painting = primitives.flat_map(steps);
    assert forall|k: int| 0 <= k < painting.len() implies !((#[trigger] painting[k])
        is UpdateTexture) && !(painting[k] is FreeTexture) by {
        let i = lemma_flat_map_member(primitives, steps, k);
        let part = steps(primitives[i]);
        let j = choose|j: int| 0 <= j < part.len() && part[j] == painting[k];
        if let Primitive::Mesh(mesh) = primitives[i].primitive {
            let meshes = drawn_meshes(cpu_fix, mesh);
            if 2 <= j < part.len() - 1 {
                lemma_flat_map_member(
                    meshes,
                    mesh_commands(cpu_fix, primitives[i].clip_rect),
                    j - 2,
                );
            }
        }
    }
}

/// After the changes no command sets a texture.
proof fn lemma_only_first_set(
    textures: Map<TextureId, PaintHandle>,
    cpu_fix: bool,
    dpi: Scalar,
    primitives: Seq<ClippedPrimitive>,
    delta: TexturesDelta,
)
    ensures
        forall|k: int|
            delta.set@.len() <= k < frame_commands(
                textures,
                cpu_fix,
                dpi,
                primitives,
                delta,
            ).len() ==> !((#[trigger] frame_commands(textures, cpu_fix, dpi, primitives, delta)[k])
                is UpdateTexture),
{
    let commands = frame_commands(textures, cpu_fix, dpi, primitives, delta);
    let painting = primitives.flat_map(primitive_commands(cpu_fix, dpi));
    let from = delta.set@.len();
    lemma_set_commands_kind(textures, cpu_fix, delta.set@);
    lemma_painting_kind(cpu_fix, dpi, primitives);
    assert forall|k: int| from <= k < commands.len() implies !((#[trigger] commands[k])
        is UpdateTexture) by {
        if k < from + painting.len() {
            assert(commands[k] == painting[k - from]);
        }
    }
}

/// The last commands of a frame free its textures, one for one and in order, and no earlier command
/// frees a texture.
pub proof fn law_textures_are_freed_as_named(
    textures: Map<TextureId, PaintHandle>,
    cpu_fix: bool,
    dpi: Scalar,
    primitives: Seq<ClippedPrimitive>,
    delta: TexturesDelta,
)
    ensures
        ({
            let commands = frame_commands(textures, cpu_fix, dpi, primitives, delta);
            let free = delta.free@;
            let from = commands.len() - free.len();
            &&& from >= 0
            &&& forall|k: int|
                #![trigger free[k]]
                0 <= k < free.len() ==> (commands[from + k] matches CommandView::FreeTexture(id)
                    && id == free[k])
            &&& forall|k: int| 0 <= k < from ==> !((#[trigger] commands[k]) is FreeTexture)
        }),
{
    let commands = frame_commands(textures, cpu_fix, dpi, primitives, delta);
    let painting = primitives.flat_map(primitive_commands(cpu_fix, dpi));
    let from = delta.set@.len();
    lemma_set_commands_kind(textures, cpu_fix, delta.set@);
    lemma_painting_kind(cpu_fix, dpi, primitives);
    assert forall|k: int| 0 <= k < commands.len() - delta.free@.len() implies !((
    #[trigger] commands[k]) is FreeTexture) by {
        if k >= from {
            assert(commands[k] == painting[k - from]);
        }
    }
}

/// A frame does what three frames do one after the other: one that only sets its textures, one
/// that only paints, and one that only frees its textures.
pub proof fn law_frame_is_three_frames(
    textures: Map<TextureId, PaintHandle>,
    cpu_fix: bool,
    dpi: Scalar,
    primitives: Seq<ClippedPrimitive>,
    delta: TexturesDelta,
    setting: TexturesDelta,
    nothing: TexturesDelta,
    freeing: TexturesDelta,
)
    requires
        setting.set@ == delta.set@,
        setting.free@.len() == 0,
        nothing.set@.len() == 0,
        nothing.free@.len() == 0,
        freeing.set@.len() == 0,
        freeing.free@ == delta.free@,
    ensures
        ({
            let none = Seq::<ClippedPrimitive>::empty();
            let after_setting = frame_textures(textures, cpu_fix, setting);
            &&& frame_commands(textures, cpu_fix, dpi, primitives, delta) == frame_commands(
                textures,
                cpu_fix,
                dpi,
                none,
                setting,
            ) + frame_commands(after_setting, cpu_fix, dpi, primitives, nothing) + frame_commands(
                after_setting,
                cpu_fix,
                dpi,
                none,
                freeing,
            )
            &&& frame_textures(textures, cpu_fix, delta) == frame_textures(
                after_setting,
                cpu_fix,
                freeing,
            )
        }),
{
    lemma_flat_map_empty(Seq::<ClippedPrimitive>::empty(), primitive_commands(cpu_fix, dpi));
}

/// Painting does not depend on the textures, and primitives are painted in their order: a frame
/// that only paints does what it does for the first primitives, and then what is done for the rest.
/// For a single primitive it does just what paints that primitive.
pub proof fn law_primitives_are_painted_in_order(
    textures: Map<TextureId, PaintHandle>,
    others: Map<TextureId, PaintHandle>,
    cpu_fix: bool,
    dpi: Scalar,
    first: Seq<ClippedPrimitive>,
    rest: Seq<ClippedPrimitive>,
    p: ClippedPrimitive,
    nothing: TexturesDelta,
)
    requires
        nothing.set@.len() == 0,
        nothing.free@.len() == 0,
    ensures
        frame_commands(textures, cpu_fix, dpi, first + rest, nothing) == frame_commands(
            textures,
            cpu_fix,
            dpi,
            first,
            nothing,
        ) + frame_commands(others, cpu_fix, dpi, rest, nothing),
        frame_commands(textures, cpu_fix, dpi, Seq::empty(), nothing).len() == 0,
        frame_commands(textures, cpu_fix, dpi, seq![p], nothing) == primitive_commands(
            cpu_fix,
            dpi,
        )(p),
{
    let steps = primitive_commands(cpu_fix, dpi);
    lemma_flat_map_add(first, rest, steps);
    lemma_flat_map_empty(Seq::<ClippedPrimitive>::empty(), steps);
    lemma_flat_map_one(p, steps);
}

/// Changes of textures are made one after the other: some changes and then others do what all of
/// them do together, to the textures and in commands.
pub proof fn law_changes_follow_each_other(
    textures: Map<TextureId, PaintHandle>,
    cpu_fix: bool,
    first: Seq<(TextureId, ImageDelta)>,
    rest: Seq<(TextureId, ImageDelta)>,
)
    ensures
        after_set(textures, cpu_fix, first + rest) == after_set(
            after_set(textures, cpu_fix, first),
            cpu_fix,
            rest,
        ),
        set_commands(textures, cpu_fix, first + rest) == set_commands(textures, cpu_fix, first)
            + set_commands(after_set(textures, cpu_fix, first), cpu_fix, rest),
    decreases rest.len(),
{
    if rest.len() == 0 {
        assert(first + rest =~= first);
    } else {
        law_changes_follow_each_other(textures, cpu_fix, first, rest.drop_last());
        assert((first + rest).drop_last() =~= first + rest.drop_last());
    }
}

/// One change leaves every other texture alone, and its own texture there: as large as the image,
/// if that is the whole texture, and as large as it was, if the image is a patch; with the type
/// that its id says and the sampling that the change's options say.
pub proof fn law_one_change(
    textures: Map<TextureId, PaintHandle>,
    cpu_fix: bool,
    id: TextureId,
    delta: ImageDelta,
    other: TextureId,
)
    ensures
        ({
            let after = after_set(textures, cpu_fix, seq![(id, delta)]);
            &&& after.contains_key(id)
            &&& other != id ==> after.get(other) == textures.get(other)
            &&& delta.pos is None ==> after[id].width == delta.image.size[0] as i32
                && after[id].height == delta.image.size[1] as i32
            &&& delta.pos is Some && textures.contains_key(id) ==> after[id].width
                == textures[id].width && after[id].height == textures[id].height
            &&& after[id].paint_type is Font <==> id == TextureId::Managed(0)
            &&& after[id].sampling.filter is Linear <==> !cpu_fix
                && delta.options.magnification is Linear
            &&& after[id].sampling.mipmap is Linear <==> !cpu_fix
                && delta.options.minification is Linear
            &&& after[id].sampling.mipmap is Disabled <==> cpu_fix
            &&& set_commands(textures, cpu_fix, seq![(id, delta)]).len() == 1
            &&& after_set(textures, cpu_fix, Seq::empty()) == textures
            &&& set_commands(textures, cpu_fix, Seq::empty()).len() == 0
        }),
{
    reveal_with_fuel(after_set, 2);
    reveal_with_fuel(set_commands, 2);
    assert(seq![(id, delta)].drop_last() =~= Seq::<(TextureId, ImageDelta)>::empty());
}

/// Which textures are there after a frame: those that it does not free and that were there or were
/// set.
pub proof fn law_textures_after_frame(
    textures: Map<TextureId, PaintHandle>,
    cpu_fix: bool,
    delta: TexturesDelta,
    id: TextureId,
)
    ensures
        frame_textures(textures, cpu_fix, delta).contains_key(id) <==> {
            &&& !delta.free@.contains(id)
            &&& textures.contains_key(id) || (exists|j: int|
                0 <= j < delta.set@.len() && (#[trigger] delta.set@[j]).0 == id)
        },
        !delta.free@.contains(id) ==> frame_textures(textures, cpu_fix, delta).get(id)
            == after_set(textures, cpu_fix, delta.set@).get(id),
{
    lemma_after_set_keys(textures, cpu_fix, delta.set@, id);
}

/// A mesh can be painted if it can be cut and its texture is there, or nothing of it is drawn; only
/// with the workaround does a mesh of the font atlas need an index besides. A callback always can.
pub proof fn law_possible_primitives(
    textures: Map<TextureId, PaintHandle>,
    cpu_fix: bool,
    p: ClippedPrimitive,
)
    ensures
        p.primitive is Callback ==> primitive_possible(textures, cpu_fix, p),
        p.primitive matches Primitive::Mesh(mesh) ==> (primitive_possible(textures, cpu_fix, p)
            <==> {
            let nothing_drawn = mesh.vertices@.len() >= 65536 && mesh.indices@.len() == 0;
            &&& mesh.splittable()
            &&& nothing_drawn || textures.contains_key(mesh.texture_id)
            &&& nothing_drawn || mesh.indices@.len() > 0 || !cpu_fix || mesh.texture_id
                != TextureId::Managed(0)
        }),
{
}

/// A frame can be painted exactly if Skia makes an image of every change and its sizes fit, every
/// patch is of a texture that was there or that an earlier change sets, and every primitive can be
/// painted with the textures that were there or that the frame sets.
pub proof fn law_possible_frames(
    textures: Map<TextureId, PaintHandle>,
    cpu_fix: bool,
    primitives: Seq<ClippedPrimitive>,
    delta: TexturesDelta,
)
    ensures
        frame_possible(textures, cpu_fix, primitives, delta) <==> {
            &&& forall|k: int|
                #![trigger delta.set@[k]]
                0 <= k < delta.set@.len() ==> {
                    &&& delta.set@[k].1.fits()
                    &&& delta.set@[k].1.uploadable()
                    &&& delta.set@[k].1.pos is Some ==> textures.contains_key(delta.set@[k].0) || (
                    exists|j: int| 0 <= j < k && (#[trigger] delta.set@[j]).0 == delta.set@[k].0)
                }
            &&& forall|i: int|
                0 <= i < primitives.len() ==> primitive_possible(
                    after_set(textures, cpu_fix, delta.set@),
                    cpu_fix,
                    #[trigger] primitives[i],
                )
        },
{
    let set = delta.set@;
    assert forall|k: int| #![trigger set[k]] 0 <= k < set.len() implies (after_set(
        textures,
        cpu_fix,
        set.take(k),
    ).contains_key(set[k].0) <==> textures.contains_key(set[k].0) || (exists|j: int|
        0 <= j < k && (#[trigger] set[j]).0 == set[k].0)) by {
        let id = set[k].0;
        lemma_after_set_keys(textures, cpu_fix, set.take(k), id);
        if exists|j: int| 0 <= j < k && (#[trigger] set[j]).0 == id {
            let j = choose|j: int| 0 <= j < k && (#[trigger] set[j]).0 == id;
            assert(set.take(k)[j].0 == id);
        }
    }
}

/// What it takes to carry a command out: triangles need as many texture coordinates and colors as
/// positions, indices below that number, and the texture of their paint.
pub proof fn law_feasible_draws(textures: Map<TextureId, PaintHandle>, draw: DrawView)
    ensures
        feasible(textures, CommandView::DrawVertices(draw)) <==> {
            &&& draw.texs.len() == draw.positions.len()
            &&& draw.colors.len() == draw.positions.len()
            &&& forall|k: int|
                0 <= k < draw.indices.len() ==> (#[trigger] draw.indices[k]) < draw.positions.len()
            &&& draw.paint matches PaintSource::Texture(id) ==> textures.contains_key(id)
        },
{
}

} // verus!
