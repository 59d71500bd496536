//! The painter: it keeps track of the textures and turns a frame into commands.
use vstd::prelude::*;

use std::collections::HashMap;

use crate::command::{Command, CommandView, Draw, command_views, drawn};
use crate::frame::{
    ClippedPrimitive, Primitive, after_free, after_set, corners_wanted, draw_commands,
    drawn_meshes, faithful, feasible, frame_commands, frame_possible, frame_textures,
    free_command, indexable, lemma_after_set_keys, lemma_draws_nothing, lemma_frame_faithful,
    lemma_mesh_faithful, lemma_pieces_short, lemma_set_commands_kind,
    lemma_set_step, lemma_texture_meshes_corners,
    lemma_texture_meshes_shape, mesh_commands, primitive_commands, primitive_indexable,
    primitive_possible, set_commands, set_possible, sets_texture, short_is_indexable,
    sizes_valid, small_is_whole, texture_meshes,
};
use crate::geometry::{Rect, Scalar};
use crate::laws::{law_textures_are_freed_as_named, law_textures_are_set_as_named};
use crate::mesh::{MAX_PIECE, Mesh, Mesh16, all_corners, mesh_views};
use crate::runs::{law_few_corners_have_short_runs, short_runs};
use crate::seqs::lemma_flat_map_empty;
use crate::texture::{
    ImageDelta, PaintHandle, PaintType, TextureId, TextureUpdate, TexturesDelta, handle_after,
    update_of,
};

verus! {

/// Keeps track of the textures, and turns frames into commands.
pub struct Painter {
    managed: HashMap<u64, PaintHandle>,
    user: HashMap<u64, PaintHandle>,
    cpu_fix: bool,
}

impl View for Painter {
    type V = Map<TextureId, PaintHandle>;

    /// The textures that are there.
    closed spec fn view(&self) -> Map<TextureId, PaintHandle> {
        Map::new(
            |id: TextureId|
                match id {
                    TextureId::Managed(n) => self.managed@.contains_key(n),
                    TextureId::User(n) => self.user@.contains_key(n),
                },
            |id: TextureId|
                match id {
                    TextureId::Managed(n) => self.managed@[n],
                    TextureId::User(n) => self.user@[n],
                },
        )
    }
}

impl Painter {
    /// Is the workaround for raster surfaces on?
    pub closed spec fn fixing(&self) -> bool {
        self.cpu_fix
    }

    /// Every texture is known as what it is, the font atlas as such and any other as an image, and
    /// is of a size that Skia can make.
    pub open spec fn wf(&self) -> bool {
        &&& sizes_valid(self@)
        &&& forall|id: TextureId| #[trigger]
            self@.contains_key(id) ==> self@[id].paint_type == PaintType::spec_of(id)
    }

    /// A painter without textures, for surfaces on which the workaround is not needed.
    pub fn new() -> (r: Painter)
        ensures
            r.wf(),
            r@ == Map::<TextureId, PaintHandle>::empty(),
            !r.fixing(),
    {
        Self::with_cpu_fix(false)
    }

    /// A painter without textures. Painting to a raster surface needs the workaround.
    pub fn with_cpu_fix(cpu_fix: bool) -> (r: Painter)
        ensures
            r.wf(),
            r@ == Map::<TextureId, PaintHandle>::empty(),
            r.fixing() == cpu_fix,
    {
        Painter { managed: HashMap::new(), user: HashMap::new(), cpu_fix }
    }

    /// The handle of a texture, if the texture is there.
    pub fn handle(&self, id: TextureId) -> (r: Option<PaintHandle>)
        ensures
            r == self@.get(id),
    {
        broadcast use vstd::std_specs::hash::group_hash_axioms;

        let found = match id {
            TextureId::Managed(n) => self.managed.get(&n),
            TextureId::User(n) => self.user.get(&n),
        };
        match found {
            Some(handle) => Some(*handle),
            None => None,
        }
    }

    /// Records a texture.
    fn insert(&mut self, id: TextureId, handle: PaintHandle)
        ensures
            final(self)@ == old(self)@.insert(id, handle),
            final(self).fixing() == old(self).fixing(),
    {
        broadcast use vstd::std_specs::hash::group_hash_axioms;

        match id {
            TextureId::Managed(n) => {
                self.managed.insert(n, handle);
            },
            TextureId::User(n) => {
                self.user.insert(n, handle);
            },
        }
    }

    /// Forgets a texture.
    fn remove(&mut self, id: TextureId)
        ensures
            final(self)@ == old(self)@.remove(id),
            final(self).fixing() == old(self).fixing(),
    {
        broadcast use vstd::std_specs::hash::group_hash_axioms;

        match id {
            TextureId::Managed(n) => {
                self.managed.remove(&n);
            },
            TextureId::User(n) => {
                self.user.remove(&n);
            },
        }
    }

    /// Cuts a mesh of the font atlas into runs, and leaves any other mesh as it is.
    pub fn split_texture_meshes(&self, mesh: Mesh16) -> (meshes: Vec<Mesh16>)
        requires
            self.wf(),
            self@.contains_key(mesh.texture_id),
            mesh.texture_id.font() ==> mesh@.valid(),
        ensures
            mesh_views(meshes@) == texture_meshes()(mesh@),
    {
        let font = match self.handle(mesh.texture_id) {
            Some(handle) => handle.paint_type == PaintType::Font,
            None => false,
        };
        if font {
            mesh.split_runs()
        } else {
            vec![mesh]
        }
    }

    /// Cuts the pieces of a mesh further, where the workaround asks for it.
    pub fn split_pieces(&self, pieces: Vec<Mesh16>) -> (meshes: Vec<Mesh16>)
        requires
            self.wf(),
            self.fixing() ==> forall|p: int|
                #![trigger pieces@[p]]
                0 <= p < pieces@.len() ==> {
                    &&& self@.contains_key(pieces@[p].texture_id)
                    &&& pieces@[p].texture_id.font() ==> pieces@[p]@.valid()
                },
        ensures
            mesh_views(meshes@) == (if self.fixing() {
                mesh_views(pieces@).flat_map(texture_meshes())
            } else {
                mesh_views(pieces@)
            }),
    {
        if !self.cpu_fix {
            return pieces;
        }
        let ghost all = pieces@;
        let ghost views = mesh_views(pieces@);
        let mut meshes: Vec<Mesh16> = Vec::new();
        proof {
            lemma_flat_map_empty(views.take(0), texture_meshes());
        }
        for piece in it: pieces
            invariant
                self.wf(),
                it.seq() == all,
                views == mesh_views(all),
                forall|p: int|
                    #![trigger all[p]]
                    0 <= p < all.len() ==> {
                        &&& self@.contains_key(all[p].texture_id)
                        &&& all[p].texture_id.font() ==> all[p]@.valid()
                    },
                mesh_views(meshes@) == views.take(it.index()).flat_map(texture_meshes()),
        {
            proof {
                views.lemma_flat_map_take_append(texture_meshes(), it.index());
            }
            let mut parts = self.split_texture_meshes(piece);
            meshes.append(&mut parts);
        }
        assert(views.take(all.len() as int) =~= views);
        meshes
    }

    /// The meshes that a mesh is drawn as.
    ///
    /// They draw the corners of the mesh in their order, where their indices suffice for that.
    pub fn meshes_to_draw(&self, mesh: &Mesh) -> (meshes: Vec<Mesh16>)
        requires
            self.wf(),
            mesh.splittable(),
            self.fixing() ==> mesh.vanishes() || self@.contains_key(mesh.texture_id),
        ensures
            mesh_views(meshes@) == drawn_meshes(self.fixing(), *mesh),
            mesh.vertices@.len() <= MAX_PIECE ==> mesh.pieces() == seq![mesh.whole()],
            indexable(self.fixing(), *mesh) ==> all_corners(mesh_views(meshes@)) == mesh.corners(),
            short_runs(mesh.corners()) ==> indexable(self.fixing(), *mesh),
            mesh.indices@.len() <= 0x1_0000 ==> indexable(self.fixing(), *mesh),
            meshes@.len() == 0 <==> mesh.vanishes(),
            forall|i: int|
                #![trigger meshes@[i]]
                0 <= i < meshes@.len() ==> {
                    &&& meshes@[i]@.valid()
                    &&& meshes@[i].texture_id == mesh.texture_id
                    &&& self.fixing() && mesh.texture_id.font() && mesh.indices@.len() > 0
                        ==> meshes@[i].vertices@.len() > 0
                },
    {
        let pieces = mesh.split_to_u16();
        let ghost all = pieces@;
        let ghost views = mesh_views(pieces@);
        let meshes = self.split_pieces(pieces);
        if !self.cpu_fix {
            assert forall|i: int| #![trigger meshes@[i]] 0 <= i < meshes@.len() implies meshes@[i]@
                == all[i]@ by {
                assert(mesh_views(meshes@)[i] == views[i]);
            }
            return meshes;
        }
        proof {
            lemma_texture_meshes_shape(views, mesh.texture_id);
            let cut = views.flat_map(texture_meshes());
            assert(forall|i: int|
                #![trigger meshes@[i]]
                0 <= i < meshes@.len() ==> meshes@[i]@ == cut[i]);
            if mesh.indices@.len() <= 0x1_0000 {
                law_few_corners_have_short_runs(mesh.corners());
            }
            if short_runs(mesh.corners()) {
                lemma_pieces_short(views);
            }
            if indexable(true, *mesh) {
                lemma_texture_meshes_corners(views);
            }
        }
        meshes
    }

    /// Sets a texture.
    fn set_texture(&mut self, id: TextureId, delta: &ImageDelta) -> (command: Command)
        requires
            old(self).wf(),
            delta.fits(),
            delta.uploadable(),
            delta.pos is Some ==> old(self)@.contains_key(id),
        ensures
            final(self).wf(),
            final(self).fixing() == old(self).fixing(),
            final(self)@ == old(self)@.insert(
                id,
                handle_after(old(self)@.get(id), old(self).fixing(), id, *delta),
            ),
            command@ == CommandView::UpdateTexture(
                update_of(old(self)@.get(id), old(self).fixing(), id, *delta),
            ),
    {
        let update = TextureUpdate::plan(self.handle(id), self.cpu_fix, id, delta);
        self.insert(id, update.handle);
        Command::UpdateTexture(update)
    }

    /// Draws meshes with 16-bit indices within a rectangle.
    ///
    /// Their textures have to be there. With the workaround, a mesh of the font atlas has to have
    /// a vertex.
    pub fn draw_meshes(
        &self,
        dpi: Scalar,
        clip_rect: Rect,
        meshes: &Vec<Mesh16>,
        commands: &mut Vec<Command>,
    )
        requires
            self.wf(),
            forall|i: int|
                #![trigger meshes@[i]]
                0 <= i < meshes@.len() ==> {
                    &&& self@.contains_key(meshes@[i].texture_id)
                    &&& self.fixing() && meshes@[i].texture_id.font() ==> meshes@[i].vertices@.len()
                        > 0
                },
        ensures
            command_views(final(commands)@) == command_views(old(commands)@) + draw_commands(
                self.fixing(),
                dpi,
                clip_rect,
                mesh_views(meshes@),
            ),
    {
        let ghost start = command_views(commands@);
        let ghost views = mesh_views(meshes@);
        let ghost steps = mesh_commands(self.fixing(), clip_rect);
        let ghost head = start + seq![CommandView::SetScale(dpi), CommandView::Save];
        commands.push(Command::SetScale(dpi));
        commands.push(Command::Save);
        proof {
            lemma_flat_map_empty(views.take(0), steps);
        }
        for i in 0..meshes.len()
            invariant
                self.wf(),
                views == mesh_views(meshes@),
                steps == mesh_commands(self.fixing(), clip_rect),
                forall|i: int|
                    #![trigger meshes@[i]]
                    0 <= i < meshes@.len() ==> {
                        &&& self@.contains_key(meshes@[i].texture_id)
                        &&& self.fixing() && meshes@[i].texture_id.font()
                            ==> meshes@[i].vertices@.len() > 0
                    },
                command_views(commands@) == head + views.take(i as int).flat_map(steps),
        {
            let ghost before = command_views(commands@);
            let paint_type = match self.handle(meshes[i].texture_id) {
                Some(handle) => handle.paint_type,
                None => PaintType::Image,
            };
            commands.push(Command::ClipRect(clip_rect));
            let draw = Draw::of_mesh(self.cpu_fix, paint_type, &meshes[i]);
            commands.push(Command::DrawVertices(draw));
            proof {
                views.lemma_flat_map_take_append(steps, i as int);
                assert(command_views(commands@) =~= before + steps(views[i as int]));
            }
        }
        let ghost before = command_views(commands@);
        commands.push(Command::Restore);
        proof {
            assert(views.take(meshes.len() as int) =~= views);
            assert(command_views(commands@) =~= before.push(CommandView::Restore));
        }
    }

    /// Paints a primitive.
    fn paint_primitive(&self, dpi: Scalar, p: &ClippedPrimitive, commands: &mut Vec<Command>)
        requires
            self.wf(),
            primitive_possible(self@, self.fixing(), *p),
        ensures
            command_views(final(commands)@) == command_views(old(commands)@) + primitive_commands(
                self.fixing(),
                dpi,
            )(*p),
            faithful(self@, self.fixing(), dpi, *p),
    {
        match &p.primitive {
            Primitive::Mesh(mesh) => {
                let meshes = self.meshes_to_draw(mesh);
                proof {
                    lemma_mesh_faithful(self@, self.fixing(), dpi, *p, *mesh);
                }
                self.draw_meshes(dpi, p.clip_rect, &meshes, commands);
            },
            Primitive::Callback(callback) => {
                commands.push(Command::RecordCallback(callback.callback, callback.rect, dpi));
                commands.push(Command::Save);
                commands.push(Command::ClipRect(p.clip_rect));
                commands.push(Command::Translate(callback.rect.min));
                commands.push(Command::DrawRecorded);
                commands.push(Command::Restore);
                proof {
                    lemma_draws_nothing(primitive_commands(self.fixing(), dpi)(*p));
                }
            },
        }
    }
}

/// Looks for a texture among the first `count` that are set.
fn is_set(set: &Vec<(TextureId, ImageDelta)>, count: usize, id: TextureId) -> (r: bool)
    requires
        count <= set@.len(),
    ensures
        r == sets_texture(set@.take(count as int), id),
{
    for j in 0..count
        invariant
            count <= set@.len(),
            forall|i: int| 0 <= i < j ==> (#[trigger] set@[i]).0 != id,
    {
        if set[j].0 == id {
            assert(set@.take(count as int)[j as int].0 == id);
            return true;
        }
    }
    false
}

impl Painter {
    /// Can this frame be painted?
    pub open spec fn frame_possible(
        &self,
        primitives: Seq<ClippedPrimitive>,
        delta: TexturesDelta,
    ) -> bool {
        frame_possible(self@, self.fixing(), primitives, delta)
    }

    /// Checks whether a frame can be painted.
    pub fn can_paint(
        &self,
        primitives: &Vec<ClippedPrimitive>,
        textures_delta: &TexturesDelta,
    ) -> (r: bool)
        ensures
            r == self.frame_possible(primitives@, *textures_delta),
    {
        let ghost set = textures_delta.set@;
        let ghost fixing = self.fixing();
        let total: usize = textures_delta.set.len();
        for k in 0..total
            invariant
                set == textures_delta.set@,
                total == set.len(),
                fixing == self.fixing(),
                forall|j: int|
                    #![trigger set[j]]
                    0 <= j < k ==> {
                        &&& set[j].1.fits()
                        &&& set[j].1.uploadable()
                        &&& set[j].1.pos is Some ==> after_set(
                            self@,
                            fixing,
                            set.take(j),
                        ).contains_key(set[j].0)
                    },
        {
            let id: TextureId = textures_delta.set[k].0;
            proof {
                lemma_after_set_keys(self@, fixing, set.take(k as int), id);
            }
            if !textures_delta.set[k].1.check_fits()
                || !textures_delta.set[k].1.check_uploadable() {
                return false;
            }
            if textures_delta.set[k].1.pos.is_some() && self.handle(id).is_none() && !is_set(
                &textures_delta.set,
                k,
                id,
            ) {
                return false;
            }
        }
        let ghost textures = after_set(self@, fixing, set);
        for i in 0..primitives.len()
            invariant
                set == textures_delta.set@,
                total == set.len(),
                fixing == self.fixing(),
                textures == after_set(self@, fixing, set),
                forall|j: int|
                    0 <= j < i ==> primitive_possible(textures, fixing, #[trigger] primitives@[j]),
        {
            match &primitives[i].primitive {
                Primitive::Mesh(mesh) => {
                    proof {
                        lemma_after_set_keys(self@, fixing, set, mesh.texture_id);
                        assert(set.take(total as int) =~= set);
                    }
                    let vanishes = mesh.vertices.len() > MAX_PIECE as usize && mesh.indices.len()
                        == 0;
                    let known = self.handle(mesh.texture_id).is_some() || is_set(
                        &textures_delta.set,
                        total,
                        mesh.texture_id,
                    );
                    let font = mesh.texture_id == TextureId::default();
                    if !mesh.check_splittable() || !(vanishes || known) || (self.cpu_fix && font
                        && !(vanishes || mesh.indices.len() > 0)) {
                        return false;
                    }
                },
                Primitive::Callback(_) => {},
            }
        }
        true
    }

    /// Sets textures, one after the other.
    #[verifier::spinoff_prover]
    fn update_textures(&mut self, updates: &Vec<(TextureId, ImageDelta)>) -> (commands: Vec<Command>)
        requires
            old(self).wf(),
            set_possible(old(self)@, old(self).fixing(), updates@),
        ensures
            final(self).wf(),
            final(self).fixing() == old(self).fixing(),
            final(self)@ == after_set(old(self)@, old(self).fixing(), updates@),
            command_views(commands@) == set_commands(old(self)@, old(self).fixing(), updates@),
    {
        let ghost start = self@;
        let ghost fixing = self.fixing();
        let ghost set = updates@;
        let mut commands: Vec<Command> = Vec::new();
        for k in 0..updates.len()
            invariant
                set == updates@,
                self.wf(),
                self.fixing() == fixing,
                set_possible(start, fixing, set),
                self@ == after_set(start, fixing, set.take(k as int)),
                command_views(commands@) == set_commands(start, fixing, set.take(k as int)),
        {
            proof {
                lemma_set_step(start, fixing, set, k as int);
            }
            let id: TextureId = updates[k].0;
            let command = self.set_texture(id, &updates[k].1);
            commands.push(command);
        }
        assert(set.take(set.len() as int) =~= set);
        commands
    }

    /// Frees textures.
    fn free_textures(&mut self, ids: &Vec<TextureId>, commands: &mut Vec<Command>)
        requires
            old(self).wf(),
        ensures
            final(self).wf(),
            final(self).fixing() == old(self).fixing(),
            final(self)@ == after_free(old(self)@, ids@),
            command_views(final(commands)@) == command_views(old(commands)@) + ids@.map_values(
                free_command(),
            ),
    {
        let ghost textures = self@;
        let ghost fixing = self.fixing();
        let ghost painted = command_views(commands@);
        let ghost free = ids@;
        for k in 0..ids.len()
            invariant
                free == ids@,
                self.wf(),
                self.fixing() == fixing,
                self@ == after_free(textures, free.take(k as int)),
                command_views(commands@) == painted + free.take(k as int).map_values(
                    free_command(),
                ),
        {
            let id: TextureId = ids[k];
            let ghost before = command_views(commands@);
            self.remove(id);
            commands.push(Command::FreeTexture(id));
            proof {
                assert(free.take(k + 1) =~= free.take(k as int).push(id));
                free.take(k as int).lemma_push_to_set_commute(id);
                assert(command_views(commands@) =~= before.push(CommandView::FreeTexture(id)));
            }
        }
        assert(free.take(free.len() as int) =~= free);
    }

    /// Paints primitives, one after the other.
    fn paint_primitives(
        &self,
        dpi: Scalar,
        primitives: &Vec<ClippedPrimitive>,
        commands: &mut Vec<Command>,
    )
        requires
            self.wf(),
            forall|i: int|
                0 <= i < primitives@.len() ==> primitive_possible(
                    self@,
                    self.fixing(),
                    #[trigger] primitives@[i],
                ),
        ensures
            command_views(final(commands)@) == command_views(old(commands)@)
                + primitives@.flat_map(primitive_commands(self.fixing(), dpi)),
            forall|i: int|
                0 <= i < primitives@.len() ==> faithful(
                    self@,
                    self.fixing(),
                    dpi,
                    #[trigger] primitives@[i],
                ),
    {
        let ghost start = command_views(commands@);
        let ghost steps = primitive_commands(self.fixing(), dpi);
        proof {
            lemma_flat_map_empty(primitives@.take(0), steps);
        }
        for i in 0..primitives.len()
            invariant
                self.wf(),
                steps == primitive_commands(self.fixing(), dpi),
                forall|j: int|
                    0 <= j < primitives@.len() ==> primitive_possible(
                        self@,
                        self.fixing(),
                        #[trigger] primitives@[j],
                    ),
                forall|j: int|
                    0 <= j < i ==> faithful(self@, self.fixing(), dpi, #[trigger] primitives@[j]),
                command_views(commands@) == start + primitives@.take(i as int).flat_map(steps),
        {
            self.paint_primitive(dpi, &primitives[i], commands);
            proof {
                primitives@.lemma_flat_map_take_append(steps, i as int);
            }
        }
        assert(primitives@.take(primitives@.len() as int) =~= primitives@);
    }

    /// Turns a frame into commands.
    ///
    /// The textures are set before anything is painted, and freed after everything is. The
    /// commands draw every corner of every mesh, in order, unless a run is too long for 16-bit
    /// indices. They draw nothing with a texture that is not there, and ask Skia for no image that
    /// it cannot make.
    pub fn paint_and_update_textures(
        &mut self,
        dpi: Scalar,
        primitives: Vec<ClippedPrimitive>,
        textures_delta: TexturesDelta,
    ) -> (commands: Vec<Command>)
        requires
            old(self).wf(),
            old(self).frame_possible(primitives@, textures_delta),
        ensures
            final(self).wf(),
            final(self).fixing() == old(self).fixing(),
            final(self)@ == frame_textures(old(self)@, old(self).fixing(), textures_delta),
            command_views(commands@) == frame_commands(
                old(self)@,
                old(self).fixing(),
                dpi,
                primitives@,
                textures_delta,
            ),
            forall|i: int|
                0 <= i < primitives@.len() ==> small_is_whole(#[trigger] primitives@[i]),
            forall|i: int|
                0 <= i < primitives@.len() ==> short_is_indexable(
                    old(self).fixing(),
                    #[trigger] primitives@[i],
                ),
            (forall|i: int|
                0 <= i < primitives@.len() ==> primitive_indexable(
                    old(self).fixing(),
                    #[trigger] primitives@[i],
                )) ==> drawn(command_views(commands@)) == primitives@.flat_map(corners_wanted()),
            forall|k: int|
                0 <= k < commands@.len() ==> feasible(
                    after_set(old(self)@, old(self).fixing(), textures_delta.set@),
                    (#[trigger] commands@[k])@,
                ),
            commands@.len() >= textures_delta.set@.len() + textures_delta.free@.len(),
            forall|k: int|
                #![trigger textures_delta.set@[k]]
                0 <= k < textures_delta.set@.len() ==> (commands@[k] matches Command::UpdateTexture(
                    update,
                ) && update.id == textures_delta.set@[k].0),
            forall|k: int|
                #![trigger textures_delta.free@[k]]
                0 <= k < textures_delta.free@.len() ==> (commands@[commands@.len()
                    - textures_delta.free@.len() + k] matches Command::FreeTexture(id) && id
                    == textures_delta.free@[k]),
    {
        let ghost start = self@;
        let mut commands = self.update_textures(&textures_delta.set);
        let ghost textures = self@;
        self.paint_primitives(dpi, &primitives, &mut commands);
        self.free_textures(&textures_delta.free, &mut commands);
        proof {
            lemma_frame_faithful(start, self.fixing(), dpi, primitives@, textures_delta);
            let all = frame_commands(start, self.fixing(), dpi, primitives@, textures_delta);
            assert forall|k: int| 0 <= k < commands@.len() implies feasible(
                textures,
                (#[trigger] commands@[k])@,
            ) by {
                assert(all[k] == commands@[k]@);
            }
            law_textures_are_set_as_named(
                start,
                self.fixing(),
                dpi,
                primitives@,
                textures_delta,
            );
            law_textures_are_freed_as_named(
                start,
                self.fixing(),
                dpi,
                primitives@,
                textures_delta,
            );
            lemma_set_commands_kind(start, self.fixing(), textures_delta.set@);
            assert forall|k: int| #![trigger textures_delta.set@[k]] 0 <= k
                < textures_delta.set@.len() implies (commands@[k] matches Command::UpdateTexture(
                update,
            ) && update.id == textures_delta.set@[k].0) by {
                assert(all[k] == commands@[k]@);
            }
            let from = commands@.len() - textures_delta.free@.len();
            assert forall|k: int| #![trigger textures_delta.free@[k]] 0 <= k
                < textures_delta.free@.len() implies (commands@[from + k]
                matches Command::FreeTexture(id) && id == textures_delta.free@[k]) by {
                assert(all[from + k] == commands@[from + k]@);
            }
        }
        commands
    }
}

impl Default for Painter {
    /// The same as [`Painter::new`].
    fn default() -> (r: Self)
        ensures
            r.wf(),
            r@ == Map::<TextureId, PaintHandle>::empty(),
            !r.fixing(),
    {
        Self::new()
    }
}

} // verus!
