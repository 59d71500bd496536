//! What the backend has to do with its canvas and its textures.
use vstd::prelude::*;

use crate::color::{Color, unmultiplied};
use crate::geometry::{Pos2, Rect, Scalar, Vertex};
use crate::mesh::{Mesh16, Mesh16View};
use crate::seqs::{lemma_flat_map_empty, lemma_flat_map_last};
use crate::texture::{PaintType, TextureId, TextureUpdate, TextureUpdateView};

verus! {

/// The paint that triangles are drawn with.
#[derive(Clone, Copy, Debug, PartialEq, Eq, Structural)]
pub enum PaintSource {
    /// Plain white, without a texture.
    White,
    /// The paint of a texture.
    Texture(TextureId),
}

/// Triangles to draw, modulating the paint with the vertex colors.
#[derive(Debug, PartialEq, Eq)]
pub struct Draw {
    pub positions: Vec<Pos2>,
    pub texs: Vec<Pos2>,
    pub colors: Vec<Color>,
    pub indices: Vec<u16>,
    pub paint: PaintSource,
}

/// The value of a [`Draw`].
pub struct DrawView {
    pub positions: Seq<Pos2>,
    pub texs: Seq<Pos2>,
    pub colors: Seq<Color>,
    pub indices: Seq<u16>,
    pub paint: PaintSource,
}

impl View for Draw {
    type V = DrawView;

    open spec fn view(&self) -> DrawView {
        DrawView {
            positions: self.positions@,
            texs: self.texs@,
            colors: self.colors@,
            indices: self.indices@,
            paint: self.paint,
        }
    }
}

impl DrawView {
    /// Is there one position, one texture coordinate and one color for each vertex, and does every
    /// index name a vertex?
    pub open spec fn valid(self) -> bool {
        &&& self.texs.len() == self.positions.len()
        &&& self.colors.len() == self.positions.len()
        &&& forall|k: int|
            0 <= k < self.indices.len() ==> (#[trigger] self.indices[k]) < self.positions.len()
    }

    /// The corners of the triangles, in the order in which they are drawn.
    pub open spec fn corners(self) -> Seq<Corner> {
        Seq::new(
            self.indices.len(),
            |k: int|
                Corner {
                    pos: self.positions[self.indices[k] as int],
                    uv: self.texs[self.indices[k] as int],
                    color: self.colors[self.indices[k] as int],
                },
        )
    }
}

/// A corner of a triangle as Skia draws it.
pub struct Corner {
    pub pos: Pos2,
    pub uv: Pos2,
    pub color: Color,
}

/// What Skia has to draw for a vertex: its position is moved to the origin if it is not a number,
/// and its color does not have premultiplied alpha.
pub open spec fn corner_of() -> spec_fn(Vertex) -> Corner {
    |v: Vertex|
        Corner { pos: v.pos.or_origin(), uv: v.uv, color: v.color.spec_unmultiplied() }
}

/// Is a mesh painted white instead of with its texture?
///
/// With the workaround for raster surfaces, a mesh of the font atlas is, if its first vertex has
/// the texture coordinates `(0, 0)`.
pub open spec fn painted_white(cpu_fix: bool, mesh: Mesh16View) -> bool {
    cpu_fix && mesh.texture_id.font() && mesh.vertices[0].uv.zero()
}

/// How a mesh is drawn.
pub open spec fn draw_of(cpu_fix: bool, mesh: Mesh16View) -> DrawView {
    DrawView {
        positions: mesh.vertices.map_values(|v: Vertex| v.pos.or_origin()),
        texs: mesh.vertices.map_values(|v: Vertex| v.uv),
        colors: mesh.vertices.map_values(|v: Vertex| v.color.spec_unmultiplied()),
        indices: mesh.indices,
        paint: if painted_white(cpu_fix, mesh) {
            PaintSource::White
        } else {
            PaintSource::Texture(mesh.texture_id)
        },
    }
}

impl Draw {
    /// Prepares a mesh for drawing.
    ///
    /// The type has to be that of the mesh's texture. A mesh of the font atlas needs a vertex if
    /// the workaround is on: it is the first vertex that decides how the mesh is painted.
    pub fn of_mesh(cpu_fix: bool, paint_type: PaintType, mesh: &Mesh16) -> (draw: Draw)
        requires
            paint_type == PaintType::spec_of(mesh.texture_id),
            cpu_fix && mesh.texture_id.font() ==> mesh.vertices@.len() > 0,
        ensures
            draw@ == draw_of(cpu_fix, mesh@),
            draw.indices@ == mesh.indices@,
            draw.positions@.len() == mesh.vertices@.len(),
            draw.texs@.len() == mesh.vertices@.len(),
            draw.colors@.len() == mesh.vertices@.len(),
            forall|i: int|
                #![trigger mesh.vertices@[i]]
                0 <= i < mesh.vertices@.len() ==> {
                    let v = mesh.vertices@[i];
                    &&& draw.texs@[i].x == v.uv.x
                    &&& draw.texs@[i].y == v.uv.y
                    &&& !v.pos.x.nan() && !v.pos.y.nan() ==> draw.positions@[i].x == v.pos.x
                        && draw.positions@[i].y == v.pos.y
                    &&& draw.colors@[i].a == v.color.a
                    &&& draw.colors@[i].r == unmultiplied(v.color.r, v.color.a)
                    &&& draw.colors@[i].g == unmultiplied(v.color.g, v.color.a)
                    &&& draw.colors@[i].b == unmultiplied(v.color.b, v.color.a)
                },
            draw.paint matches PaintSource::Texture(id) ==> id == mesh.texture_id,
    {
        let mut positions: Vec<Pos2> = Vec::with_capacity(mesh.vertices.len());
        let mut texs: Vec<Pos2> = Vec::with_capacity(mesh.vertices.len());
        let mut colors: Vec<Color> = Vec::with_capacity(mesh.vertices.len());
        for i in 0..mesh.vertices.len()
            invariant
                positions@.len() == i,
                texs@.len() == i,
                colors@.len() == i,
                forall|j: int|
                    #![trigger mesh.vertices@[j]]
                    0 <= j < i ==> {
                        &&& positions@[j] == mesh.vertices@[j].pos.or_origin()
                        &&& texs@[j] == mesh.vertices@[j].uv
                        &&& colors@[j] == mesh.vertices@[j].color.spec_unmultiplied()
                    },
        {
            let vertex = mesh.vertices[i];
            positions.push(vertex.pos.fixed());
            texs.push(vertex.uv);
            colors.push(vertex.color.unmultiplied());
        }
        let white = cpu_fix && paint_type == PaintType::Font && texs[0].is_zero();
        let paint = if white {
            PaintSource::White
        } else {
            PaintSource::Texture(mesh.texture_id)
        };
        let indices = mesh.indices.clone();
        assert(positions@ =~= draw_of(cpu_fix, mesh@).positions);
        assert(texs@ =~= draw_of(cpu_fix, mesh@).texs);
        assert(colors@ =~= draw_of(cpu_fix, mesh@).colors);
        Draw { positions, texs, colors, indices, paint }
    }
}

/// A step that the backend takes.
#[derive(Debug, PartialEq, Eq)]
pub enum Command {
    /// Create or change a texture.
    UpdateTexture(TextureUpdate),
    /// Replace the canvas matrix by one that scales both axes by this factor.
    SetScale(Scalar),
    /// Save the canvas state.
    Save,
    /// Intersect the clip with a rectangle, antialiased.
    ClipRect(Rect),
    /// Draw triangles.
    DrawVertices(Draw),
    /// Let the callback with this number record its drawing, for this rectangle with every
    /// coordinate multiplied by the scale.
    RecordCallback(usize, Rect, Scalar),
    /// Move the canvas matrix by an offset.
    Translate(Pos2),
    /// Draw what the callback recorded last.
    DrawRecorded,
    /// Restore the canvas state that was saved last.
    Restore,
    /// Drop a texture, if there is one with this id.
    FreeTexture(TextureId),
}

/// The value of a [`Command`].
pub enum CommandView {
    UpdateTexture(TextureUpdateView),
    SetScale(Scalar),
    Save,
    ClipRect(Rect),
    DrawVertices(DrawView),
    RecordCallback(usize, Rect, Scalar),
    Translate(Pos2),
    DrawRecorded,
    Restore,
    FreeTexture(TextureId),
}

impl View for Command {
    type V = CommandView;

    open spec fn view(&self) -> CommandView {
        match *self {
            Command::UpdateTexture(update) => CommandView::UpdateTexture(update@),
            Command::SetScale(scale) => CommandView::SetScale(scale),
            Command::Save => CommandView::Save,
            Command::ClipRect(rect) => CommandView::ClipRect(rect),
            Command::DrawVertices(draw) => CommandView::DrawVertices(draw@),
            Command::RecordCallback(callback, rect, scale) => CommandView::RecordCallback(
                callback,
                rect,
                scale,
            ),
            Command::Translate(offset) => CommandView::Translate(offset),
            Command::DrawRecorded => CommandView::DrawRecorded,
            Command::Restore => CommandView::Restore,
            Command::FreeTexture(id) => CommandView::FreeTexture(id),
        }
    }
}

/// The values of some commands.
pub open spec fn command_views(commands: Seq<Command>) -> Seq<CommandView> {
    commands.map_values(|c: Command| c@)
}

/// How many more canvas states are saved than restored by some commands.
pub open spec fn save_depth(commands: Seq<CommandView>) -> int
    decreases commands.len(),
{
    if commands.len() == 0 {
        0
    } else {
        save_depth(commands.drop_last()) + match commands.last() {
            CommandView::Save => 1int,
            CommandView::Restore => -1int,
            _ => 0int,
        }
    }
}

/// Is every canvas state that is saved restored, and none restored that was not saved?
pub open spec fn balanced(commands: Seq<CommandView>) -> bool {
    &&& save_depth(commands) == 0
    &&& forall|k: int| 0 <= k <= commands.len() ==> save_depth(#[trigger] commands.take(k)) >= 0
}

/// The corners that a command draws itself, without those of a callback.
pub open spec fn corners_drawn() -> spec_fn(CommandView) -> Seq<Corner> {
    |c: CommandView|
        match c {
            CommandView::DrawVertices(draw) => draw.corners(),
            _ => Seq::empty(),
        }
}

/// The corners that some commands draw, in order.
pub open spec fn drawn(commands: Seq<CommandView>) -> Seq<Corner> {
    commands.flat_map(corners_drawn())
}

/// What is drawn for a mesh keeps every vertex in its place. Both texture coordinates are those of
/// the vertex, and so are both position coordinates, if they are numbers; the color is that of the
/// vertex without premultiplied alpha, channel by channel; and the indices are those of the mesh.
pub proof fn law_draw_keeps_vertices(cpu_fix: bool, mesh: Mesh16View)
    ensures
        ({
            let draw = draw_of(cpu_fix, mesh);
            &&& draw.indices == mesh.indices
            &&& draw.positions.len() == mesh.vertices.len()
            &&& draw.texs.len() == mesh.vertices.len()
            &&& draw.colors.len() == mesh.vertices.len()
            &&& forall|i: int|
                #![trigger mesh.vertices[i]]
                #![trigger draw.texs[i]]
                #![trigger draw.positions[i]]
                #![trigger draw.colors[i]]
                0 <= i < mesh.vertices.len() ==> {
                    let v = mesh.vertices[i];
                    &&& draw.texs[i].x == v.uv.x
                    &&& draw.texs[i].y == v.uv.y
                    &&& !v.pos.x.nan() && !v.pos.y.nan() ==> draw.positions[i].x == v.pos.x
                        && draw.positions[i].y == v.pos.y
                    &&& v.pos.x.nan() || v.pos.y.nan() ==> draw.positions[i].x.bits == 0
                        && draw.positions[i].y.bits == 0
                    &&& draw.colors[i].a == v.color.a
                    &&& draw.colors[i].r == unmultiplied(v.color.r, v.color.a)
                    &&& draw.colors[i].g == unmultiplied(v.color.g, v.color.a)
                    &&& draw.colors[i].b == unmultiplied(v.color.b, v.color.a)
                }
        }),
{
}

/// A mesh is painted with its own texture, and with no other. Only with the workaround, and only
/// with the font atlas, is it painted white instead, and then exactly if both texture coordinates
/// of its first vertex are zero.
pub proof fn law_draw_picks_paint(cpu_fix: bool, mesh: Mesh16View)
    requires
        mesh.vertices.len() > 0 || !cpu_fix || mesh.texture_id != TextureId::Managed(0),
    ensures
        draw_of(cpu_fix, mesh).paint is White <==> {
            &&& cpu_fix
            &&& mesh.texture_id == TextureId::Managed(0)
            &&& mesh.vertices[0].uv.x.zero()
            &&& mesh.vertices[0].uv.y.zero()
        },
        draw_of(cpu_fix, mesh).paint matches PaintSource::Texture(id) ==> id == mesh.texture_id,
{
}

/// Triangles draw one corner for each index, in order, each made of the position, the texture
/// coordinates and the color at the place that the index names.
pub proof fn law_draw_follows_indices(draw: DrawView)
    ensures
        draw.corners().len() == draw.indices.len(),
        forall|k: int|
            #![trigger draw.corners()[k]]
            #![trigger draw.indices[k]]
            0 <= k < draw.indices.len() ==> {
                let at = draw.indices[k] as int;
                &&& draw.corners()[k].pos == draw.positions[at]
                &&& draw.corners()[k].uv == draw.texs[at]
                &&& draw.corners()[k].color == draw.colors[at]
            },
{
}

/// Commands draw what the first of them draw, and then what the last one draws: the corners of its
/// triangles, if that is what it is, and none otherwise. No commands draw nothing.
pub proof fn law_drawn_adds_up(commands: Seq<CommandView>, last: CommandView)
    ensures
        drawn(Seq::empty()).len() == 0,
        last matches CommandView::DrawVertices(draw) ==> drawn(commands.push(last)) == drawn(
            commands,
        ) + draw.corners(),
        !(last is DrawVertices) ==> drawn(commands.push(last)) == drawn(commands),
{
    lemma_flat_map_empty(Seq::<CommandView>::empty(), corners_drawn());
    lemma_flat_map_last(commands.push(last), corners_drawn());
    assert(commands.push(last).drop_last() =~= commands);
}

/// The value of triangles is made of their own fields.
pub proof fn law_draw_view(draw: Draw)
    ensures
        draw@.positions == draw.positions@,
        draw@.texs == draw.texs@,
        draw@.colors == draw.colors@,
        draw@.indices == draw.indices@,
        draw@.paint == draw.paint,
{
}

/// The value of a command is of the same kind as the command and holds the same, and the values of
/// some commands are the value of each, in order.
pub proof fn law_command_views(command: Command, commands: Seq<Command>)
    ensures
        command matches Command::UpdateTexture(update) ==> (command@
            matches CommandView::UpdateTexture(view) && view == update@),
        command matches Command::SetScale(scale) ==> (command@ matches CommandView::SetScale(view)
            && view == scale),
        command is Save <==> command@ is Save,
        command matches Command::ClipRect(rect) ==> (command@ matches CommandView::ClipRect(view)
            && view.min == rect.min && view.max == rect.max),
        command matches Command::DrawVertices(draw) ==> (command@
            matches CommandView::DrawVertices(view) && view == draw@),
        command matches Command::RecordCallback(callback, rect, scale) ==> (command@
            matches CommandView::RecordCallback(number, place, factor) && number == callback
            && place.min == rect.min && place.max == rect.max && factor == scale),
        command matches Command::Translate(offset) ==> (command@
            matches CommandView::Translate(view) && view.x == offset.x && view.y == offset.y),
        command is DrawRecorded <==> command@ is DrawRecorded,
        command is Restore <==> command@ is Restore,
        command matches Command::FreeTexture(id) ==> (command@ matches CommandView::FreeTexture(
            view,
        ) && view == id),
        command_views(commands).len() == commands.len(),
        forall|k: int|
            #![trigger command_views(commands)[k]]
            0 <= k < commands.len() ==> command_views(commands)[k] == commands[k]@,
{
}

} // verus!
