use egui_skia::color::Color;
use egui_skia::command::{Command, Draw, PaintSource};
use egui_skia::geometry::{Color32, Pos2, Rect, Scalar, Vertex};
use egui_skia::mesh::{Mesh, Mesh16};
use egui_skia::frame::{ClippedPrimitive, PaintCallback, Primitive};
use egui_skia::painter::Painter;
use egui_skia::texture::{
    ColorImage, FilterMode, ImageDelta, MipmapMode, PaintType, SamplingOptions, TextureFilter,
    TextureId, TextureOptions, TexturesDelta,
};

const FONT: TextureId = TextureId::Managed(0);
const IMAGE: TextureId = TextureId::User(0);

fn scalar(x: f32) -> Scalar {
    Scalar { bits: x.to_bits() }
}

fn point(x: f32, y: f32) -> Pos2 {
    Pos2 { x: scalar(x), y: scalar(y) }
}

fn rect(x: f32) -> Rect {
    Rect { min: point(x, x + 1.0), max: point(x + 2.0, x + 3.0) }
}

fn vertex(x: f32, u: f32) -> Vertex {
    Vertex {
        pos: point(x, 2.0 * x),
        uv: point(u, u),
        color: Color32 { r: 1, g: 2, b: 3, a: x as u8 },
    }
}

fn delta(width: usize, height: usize, pos: Option<[usize; 2]>) -> ImageDelta {
    ImageDelta {
        image: ColorImage {
            size: [width, height],
            pixels: vec![Color32 { r: 9, g: 8, b: 7, a: 6 }; width * height],
        },
        options: TextureOptions {
            magnification: TextureFilter::Linear,
            minification: TextureFilter::Linear,
        },
        pos,
    }
}

fn set(id: TextureId, change: ImageDelta) -> TexturesDelta {
    TexturesDelta { set: vec![(id, change)], free: Vec::new() }
}

fn nothing() -> TexturesDelta {
    TexturesDelta { set: Vec::new(), free: Vec::new() }
}

fn mesh(texture_id: TextureId, indices: Vec<u32>, vertices: Vec<Vertex>) -> ClippedPrimitive {
    ClippedPrimitive {
        clip_rect: rect(5.0),
        primitive: Primitive::Mesh(Mesh { indices, vertices, texture_id }),
    }
}

fn painter(cpu_fix: bool) -> Painter {
    let mut painter = Painter::with_cpu_fix(cpu_fix);
    let textures = TexturesDelta {
        set: vec![(FONT, delta(4, 4, None)), (IMAGE, delta(2, 2, None))],
        free: Vec::new(),
    };
    assert!(painter.can_paint(&Vec::new(), &textures));
    painter.paint_and_update_textures(scalar(1.0), Vec::new(), textures);
    painter
}

/// Two solid corners, three glyph corners and a solid one.
fn mixed(texture_id: TextureId) -> ClippedPrimitive {
    let vertices = vec![
        vertex(1.0, 0.0),
        vertex(2.0, 0.0),
        vertex(3.0, 0.5),
        vertex(4.0, 0.5),
        vertex(5.0, 0.5),
        vertex(6.0, -0.0),
    ];
    mesh(texture_id, vec![0, 1, 2, 3, 4, 5], vertices)
}

fn draws(commands: &[Command]) -> Vec<&Draw> {
    let mut draws = Vec::new();
    for c in commands {
        if let Command::DrawVertices(draw) = c {
            draws.push(draw);
        }
    }
    draws
}

fn corners(commands: &[Command]) -> Vec<(Pos2, Pos2, Color)> {
    let mut corners = Vec::new();
    for draw in draws(commands) {
        for i in &draw.indices {
            let i = *i as usize;
            corners.push((draw.positions[i], draw.texs[i], draw.colors[i]));
        }
    }
    corners
}

fn corner(v: Vertex) -> (Pos2, Pos2, Color) {
    (v.pos, v.uv, v.color.unmultiplied())
}

#[test]
fn a_new_painter_has_no_textures() {
    for painter in [Painter::new(), Painter::default(), Painter::with_cpu_fix(true)] {
        assert_eq!(painter.handle(FONT), None);
        assert_eq!(painter.handle(TextureId::User(1)), None);
    }
}

#[test]
fn textures_are_set_patched_and_freed() {
    let mut painter = Painter::new();
    let first = set(FONT, delta(4, 3, None));
    assert!(painter.can_paint(&Vec::new(), &first));
    let commands = painter.paint_and_update_textures(scalar(1.0), Vec::new(), first);
    assert_eq!(commands.len(), 1);
    let handle = painter.handle(FONT).unwrap();
    assert_eq!((handle.width, handle.height), (4, 3));
    assert_eq!(handle.paint_type, PaintType::Font);
    assert_eq!(
        handle.sampling,
        SamplingOptions { filter: FilterMode::Linear, mipmap: MipmapMode::Linear }
    );

    let second = set(FONT, delta(2, 1, Some([1, 2])));
    assert!(painter.can_paint(&Vec::new(), &second));
    let commands = painter.paint_and_update_textures(scalar(1.0), Vec::new(), second);
    match &commands[0] {
        Command::UpdateTexture(update) => {
            let patch = update.patch.unwrap();
            assert_eq!((patch.surface_width, patch.surface_height), (4, 3));
            assert_eq!((patch.left, patch.top, patch.right, patch.bottom), (1, 2, 3, 3));
            assert_eq!(update.upload.bytes, vec![9, 8, 7, 6, 9, 8, 7, 6]);
        }
        other => panic!("{other:?}"),
    }
    assert_eq!(painter.handle(FONT), Some(handle));

    let third = TexturesDelta { set: Vec::new(), free: vec![FONT, IMAGE] };
    let commands = painter.paint_and_update_textures(scalar(1.0), Vec::new(), third);
    assert_eq!(commands, vec![Command::FreeTexture(FONT), Command::FreeTexture(IMAGE)]);
    assert_eq!(painter.handle(FONT), None);
}

#[test]
fn managed_and_user_textures_are_different() {
    let mut painter = Painter::new();
    let both = TexturesDelta {
        set: vec![
            (TextureId::Managed(3), delta(1, 2, None)),
            (TextureId::User(3), delta(3, 4, None)),
        ],
        free: Vec::new(),
    };
    painter.paint_and_update_textures(scalar(1.0), Vec::new(), both);
    assert_eq!(painter.handle(TextureId::Managed(3)).unwrap().width, 1);
    assert_eq!(painter.handle(TextureId::User(3)).unwrap().width, 3);
    let free = TexturesDelta { set: Vec::new(), free: vec![TextureId::User(3)] };
    painter.paint_and_update_textures(scalar(1.0), Vec::new(), free);
    assert_eq!(painter.handle(TextureId::Managed(3)).unwrap().height, 2);
    assert_eq!(painter.handle(TextureId::User(3)), None);
}

#[test]
fn a_texture_can_be_set_used_and_freed_in_one_frame() {
    let mut painter = Painter::new();
    let textures = TexturesDelta {
        set: vec![(IMAGE, delta(3, 3, None)), (IMAGE, delta(1, 1, Some([0, 0])))],
        free: vec![IMAGE],
    };
    let primitives = vec![mixed(IMAGE)];
    assert!(painter.can_paint(&primitives, &textures));
    let commands = painter.paint_and_update_textures(scalar(1.0), primitives, textures);
    assert!(matches!(commands[0], Command::UpdateTexture(_)));
    assert!(matches!(commands[1], Command::UpdateTexture(_)));
    assert_eq!(commands[2], Command::SetScale(scalar(1.0)));
    assert_eq!(commands[commands.len() - 2], Command::Restore);
    assert_eq!(commands[commands.len() - 1], Command::FreeTexture(IMAGE));
    assert_eq!(painter.handle(IMAGE), None);
}

#[test]
fn a_mesh_is_scaled_clipped_and_drawn() {
    let mut painter = painter(false);
    let primitives = vec![mesh(
        IMAGE,
        vec![2, 1, 0],
        vec![vertex(1.0, 0.0), vertex(f32::NAN, 0.5), vertex(3.0, 0.25)],
    )];
    assert!(painter.can_paint(&primitives, &nothing()));
    let commands = painter.paint_and_update_textures(scalar(2.0), primitives, nothing());
    assert_eq!(
        commands,
        vec![
            Command::SetScale(scalar(2.0)),
            Command::Save,
            Command::ClipRect(rect(5.0)),
            Command::DrawVertices(Draw {
                positions: vec![point(1.0, 2.0), point(0.0, 0.0), point(3.0, 6.0)],
                texs: vec![point(0.0, 0.0), point(0.5, 0.5), point(0.25, 0.25)],
                colors: vec![
                    Color { a: 1, r: 255, g: 255, b: 255 },
                    Color { a: 0, r: 1, g: 2, b: 3 },
                    Color { a: 3, r: 84, g: 169, b: 255 },
                ],
                indices: vec![2, 1, 0],
                paint: PaintSource::Texture(IMAGE),
            }),
            Command::Restore,
        ]
    );
}

#[test]
fn a_callback_is_recorded_clipped_and_moved() {
    let mut painter = Painter::new();
    let primitives = vec![ClippedPrimitive {
        clip_rect: rect(1.0),
        primitive: Primitive::Callback(PaintCallback { rect: rect(7.0), callback: 42 }),
    }];
    assert!(painter.can_paint(&primitives, &nothing()));
    let commands = painter.paint_and_update_textures(scalar(1.5), primitives, nothing());
    assert_eq!(
        commands,
        vec![
            Command::RecordCallback(42, rect(7.0), scalar(1.5)),
            Command::Save,
            Command::ClipRect(rect(1.0)),
            Command::Translate(point(7.0, 8.0)),
            Command::DrawRecorded,
            Command::Restore,
        ]
    );
}

#[test]
fn nothing_is_cut_or_white_without_the_workaround() {
    let mut painter = painter(false);
    let commands =
        painter.paint_and_update_textures(scalar(1.0), vec![mixed(FONT)], nothing());
    let draws = draws(&commands);
    assert_eq!(draws.len(), 1);
    assert_eq!(draws[0].paint, PaintSource::Texture(FONT));
    assert_eq!(draws[0].indices, vec![0, 1, 2, 3, 4, 5]);
}

#[test]
fn solid_color_is_white_with_the_workaround() {
    let mut painter = painter(true);
    let commands =
        painter.paint_and_update_textures(scalar(1.0), vec![mixed(FONT)], nothing());
    let draws = draws(&commands);
    assert_eq!(draws.len(), 3);
    assert_eq!(draws[0].paint, PaintSource::White);
    assert_eq!(draws[0].indices, vec![0, 1]);
    assert_eq!(draws[1].paint, PaintSource::Texture(FONT));
    assert_eq!(draws[1].indices, vec![0, 1, 2]);
    assert_eq!(draws[2].paint, PaintSource::White);
    assert_eq!(draws[2].indices, vec![0]);
    let clips = commands.iter().filter(|c| **c == Command::ClipRect(rect(5.0))).count();
    assert_eq!(clips, 3);
    let wanted: Vec<(Pos2, Pos2, Color)> = [(1.0, 0.0), (2.0, 0.0), (3.0, 0.5), (4.0, 0.5), (5.0, 0.5)]
        .iter()
        .map(|(x, u)| vertex(*x, *u))
        .chain([vertex(6.0, -0.0)])
        .map(corner)
        .collect();
    assert_eq!(corners(&commands), wanted);
}

#[test]
fn images_are_not_cut_with_the_workaround() {
    let mut painter = painter(true);
    let commands =
        painter.paint_and_update_textures(scalar(1.0), vec![mixed(IMAGE)], nothing());
    let draws = draws(&commands);
    assert_eq!(draws.len(), 1);
    assert_eq!(draws[0].paint, PaintSource::Texture(IMAGE));
}

#[test]
fn every_saved_state_is_restored() {
    let mut painter = painter(true);
    let primitives = vec![
        mixed(FONT),
        ClippedPrimitive {
            clip_rect: rect(1.0),
            primitive: Primitive::Callback(PaintCallback { rect: rect(7.0), callback: 0 }),
        },
        mixed(IMAGE),
    ];
    let commands = painter.paint_and_update_textures(scalar(1.0), primitives, nothing());
    let mut depth = 0;
    for c in &commands {
        match c {
            Command::Save => depth += 1,
            Command::Restore => depth -= 1,
            Command::DrawVertices(_) | Command::DrawRecorded => assert_eq!(depth, 1),
            _ => {}
        }
        assert!(depth >= 0);
    }
    assert_eq!(depth, 0);
}

#[test]
fn large_meshes_are_drawn_in_pieces() {
    for cpu_fix in [false, true] {
        let mut painter = painter(cpu_fix);
        let count: u32 = 140_000;
        let vertices: Vec<Vertex> =
            (0..count).map(|n| vertex(n as f32, if n % 2 == 0 { 0.0 } else { 1.0 })).collect();
        let mut indices = Vec::new();
        for start in [0, 69_999, count - 3, 6] {
            indices.extend([start, start + 1, start + 2]);
        }
        let wanted: Vec<(Pos2, Pos2, Color)> =
            indices.iter().map(|i| corner(vertices[*i as usize])).collect();
        let primitives = vec![mesh(FONT, indices, vertices)];
        assert!(painter.can_paint(&primitives, &nothing()));
        let commands = painter.paint_and_update_textures(scalar(1.0), primitives, nothing());
        assert!(draws(&commands).len() >= 4);
        assert_eq!(corners(&commands), wanted);
    }
}

#[test]
fn runs_that_are_not_too_long_keep_their_corners() {
    let vertices = vec![vertex(1.0, 0.0), vertex(2.0, 0.5), vertex(3.0, 0.0)];
    let longest = vec![0; 65536];
    let mut changing = vec![0; 65536];
    changing.extend(vec![1; 65536]);
    changing.extend([2, 1, 0]);
    for (indices, runs) in [(longest, 1), (changing, 5)] {
        let mut painter = painter(true);
        let wanted: Vec<(Pos2, Pos2, Color)> =
            indices.iter().map(|i| corner(vertices[*i as usize])).collect();
        let primitives = vec![mesh(FONT, indices, vertices.clone())];
        assert!(painter.can_paint(&primitives, &nothing()));
        let commands = painter.paint_and_update_textures(scalar(1.0), primitives, nothing());
        assert_eq!(draws(&commands).len(), runs);
        assert!(corners(&commands) == wanted);
    }
}

#[test]
fn a_frame_without_changes_keeps_the_textures() {
    let mut painter = painter(false);
    let before = (painter.handle(FONT), painter.handle(IMAGE));
    let commands = painter.paint_and_update_textures(scalar(1.0), Vec::new(), nothing());
    assert!(commands.is_empty());
    assert_eq!((painter.handle(FONT), painter.handle(IMAGE)), before);
}

#[test]
fn only_a_texture_that_is_there_can_be_patched() {
    let painter = painter(false);
    let other = TextureId::User(9);
    assert!(painter.can_paint(&Vec::new(), &set(IMAGE, delta(1, 1, Some([0, 0])))));
    assert!(!painter.can_paint(&Vec::new(), &set(other, delta(1, 1, Some([0, 0])))));
    let patch_first = TexturesDelta {
        set: vec![(other, delta(1, 1, Some([0, 0]))), (other, delta(1, 1, None))],
        free: Vec::new(),
    };
    assert!(!painter.can_paint(&Vec::new(), &patch_first));
    let patch_last = TexturesDelta {
        set: vec![(other, delta(1, 1, None)), (other, delta(1, 1, Some([0, 0])))],
        free: Vec::new(),
    };
    assert!(painter.can_paint(&Vec::new(), &patch_last));
}

#[test]
fn sizes_that_do_not_fit_cannot_be_set() {
    let painter = painter(false);
    let far = set(IMAGE, delta(1, 1, Some([i32::MAX as usize, 0])));
    assert!(!painter.can_paint(&Vec::new(), &far));
}

#[test]
fn images_that_skia_does_not_make_cannot_be_set() {
    let painter = painter(false);
    let sized = |width: usize, height: usize, pos: Option<[usize; 2]>| {
        let mut change = delta(2, 3, pos);
        change.image.size = [width, height];
        set(IMAGE, change)
    };
    assert!(painter.can_paint(&Vec::new(), &sized(2, 3, None)));
    assert!(painter.can_paint(&Vec::new(), &sized(2, 3, Some([0, 0]))));
    for pos in [None, Some([0, 0])] {
        assert!(!painter.can_paint(&Vec::new(), &sized(0, 3, pos)));
        assert!(!painter.can_paint(&Vec::new(), &sized(2, 0, pos)));
        assert!(!painter.can_paint(&Vec::new(), &sized(2, 4, pos)));
        assert!(!painter.can_paint(&Vec::new(), &sized(0x2000_0000, 1, pos)));
    }
}

#[test]
fn a_mesh_needs_its_texture() {
    let painter = painter(false);
    let other = TextureId::User(9);
    assert!(painter.can_paint(&vec![mixed(IMAGE)], &nothing()));
    assert!(!painter.can_paint(&vec![mixed(other)], &nothing()));
    assert!(painter.can_paint(&vec![mixed(other)], &set(other, delta(1, 1, None))));
    let many = vec![vertex(1.0, 1.0); 65536];
    assert!(painter.can_paint(&vec![mesh(other, Vec::new(), many)], &nothing()));
}

#[test]
fn a_mesh_needs_valid_indices() {
    let painter = painter(false);
    let outside = mesh(IMAGE, vec![0, 1, 2], vec![vertex(1.0, 1.0); 2]);
    assert!(!painter.can_paint(&vec![outside], &nothing()));
}

#[test]
fn the_workaround_needs_an_index_in_font_meshes() {
    let empty = |id| vec![mesh(id, Vec::new(), vec![vertex(1.0, 1.0)])];
    assert!(painter(false).can_paint(&empty(FONT), &nothing()));
    assert!(!painter(true).can_paint(&empty(FONT), &nothing()));
    assert!(painter(true).can_paint(&empty(IMAGE), &nothing()));
    let many = || vec![mesh(FONT, Vec::new(), vec![vertex(1.0, 1.0); 65536])];
    let mut painter = painter(true);
    assert!(painter.can_paint(&many(), &nothing()));
    let commands = painter.paint_and_update_textures(scalar(1.0), many(), nothing());
    assert_eq!(commands.len(), 3);
}

fn piece(texture_id: TextureId, us: &[f32]) -> Mesh16 {
    Mesh16 {
        indices: (0..us.len() as u16).collect(),
        vertices: us.iter().map(|u| vertex(1.0, *u)).collect(),
        texture_id,
    }
}

#[test]
fn only_font_pieces_are_cut() {
    let fixing = painter(true);
    assert_eq!(fixing.split_texture_meshes(piece(FONT, &[0.0, 1.0, 1.0])).len(), 2);
    let image = fixing.split_texture_meshes(piece(IMAGE, &[0.0, 1.0, 1.0]));
    assert_eq!(image, vec![piece(IMAGE, &[0.0, 1.0, 1.0])]);
    let pieces = || vec![piece(FONT, &[0.0, 1.0]), piece(FONT, &[1.0]), piece(IMAGE, &[0.0, 1.0])];
    let cut = fixing.split_pieces(pieces());
    assert_eq!(
        cut,
        vec![
            piece(FONT, &[0.0]),
            piece(FONT, &[1.0]),
            piece(FONT, &[1.0]),
            piece(IMAGE, &[0.0, 1.0]),
        ]
    );
    assert_eq!(painter(false).split_pieces(pieces()), pieces());
}

#[test]
fn pieces_are_drawn_in_order() {
    let fixing = painter(true);
    let mut commands = vec![Command::Save];
    let meshes = vec![piece(FONT, &[0.0]), piece(IMAGE, &[0.0])];
    fixing.draw_meshes(scalar(3.0), rect(2.0), &meshes, &mut commands);
    assert_eq!(commands.len(), 8);
    assert_eq!(commands[1], Command::SetScale(scalar(3.0)));
    assert_eq!(commands[7], Command::Restore);
    let draws = draws(&commands);
    assert_eq!(draws[0].paint, PaintSource::White);
    assert_eq!(draws[1].paint, PaintSource::Texture(IMAGE));
}
