use egui_skia::geometry::{Color32, Pos2, Scalar, Vertex};
use egui_skia::mesh::{Mesh, Mesh16};
use egui_skia::texture::TextureId;

fn point(x: f32, y: f32) -> Pos2 {
    Pos2 { x: Scalar { bits: x.to_bits() }, y: Scalar { bits: y.to_bits() } }
}

fn vertex(n: usize) -> Vertex {
    Vertex {
        pos: point(n as f32, -(n as f32)),
        uv: point(0.5, n as f32 / 8.0),
        color: Color32 { r: n as u8, g: (n >> 8) as u8, b: 3, a: 255 },
    }
}

fn mesh(indices: Vec<u32>, count: usize) -> Mesh {
    Mesh { indices, vertices: (0..count).map(vertex).collect(), texture_id: TextureId::User(4) }
}

fn corners(meshes: &[Mesh16]) -> Vec<Vertex> {
    let mut corners = Vec::new();
    for m in meshes {
        for i in &m.indices {
            corners.push(m.vertices[*i as usize]);
        }
    }
    corners
}

/// Three neighboring triangles at the start, in the middle and at the end of many vertices.
fn wide_indices(count: u32) -> Vec<u32> {
    let mut indices = Vec::new();
    for start in [0, 3, count / 2, 1, count - 3] {
        indices.extend([start, start + 1, start + 2]);
    }
    indices
}

#[test]
fn a_small_mesh_stays_whole() {
    let m = mesh(vec![2, 0, 1, 1, 0, 2], 3);
    assert!(m.check_splittable());
    let pieces = m.split_to_u16();
    assert_eq!(
        pieces,
        vec![Mesh16 {
            indices: vec![2, 0, 1, 1, 0, 2],
            vertices: vec![vertex(0), vertex(1), vertex(2)],
            texture_id: TextureId::User(4),
        }]
    );
}

#[test]
fn the_largest_mesh_that_stays_whole() {
    let m = mesh(vec![65534, 0, 1], 65535);
    assert!(m.check_splittable());
    let pieces = m.split_to_u16();
    assert_eq!(pieces.len(), 1);
    assert_eq!(pieces[0].indices, vec![65534, 0, 1]);
    assert_eq!(pieces[0].vertices.len(), 65535);
}

#[test]
fn an_empty_mesh_is_an_empty_piece() {
    let m = mesh(Vec::new(), 0);
    assert!(m.check_splittable());
    let pieces = m.split_to_u16();
    assert_eq!(pieces.len(), 1);
    assert!(pieces[0].indices.is_empty() && pieces[0].vertices.is_empty());
}

#[test]
fn many_vertices_without_triangles_leave_nothing() {
    let m = mesh(Vec::new(), 65536);
    assert!(m.check_splittable());
    assert!(m.split_to_u16().is_empty());
}

#[test]
fn a_large_mesh_is_cut_and_keeps_its_corners() {
    let count = 200_000;
    let m = mesh(wide_indices(count), count as usize);
    assert!(m.check_splittable());
    let pieces = m.split_to_u16();
    assert!(pieces.len() > 1);
    for piece in &pieces {
        assert!(piece.vertices.len() <= 65535);
        assert!(piece.indices.iter().all(|i| (*i as usize) < piece.vertices.len()));
        assert_eq!(piece.texture_id, TextureId::User(4));
    }
    let wanted: Vec<Vertex> = m.indices.iter().map(|i| m.vertices[*i as usize]).collect();
    assert_eq!(corners(&pieces), wanted);
}

#[test]
fn a_large_mesh_is_cut_where_egui_cuts_it() {
    let count = 70_000;
    let m = mesh(wide_indices(count), count as usize);
    let to_egui = |v: &Vertex| egui::epaint::Vertex {
        pos: egui::pos2(f32::from_bits(v.pos.x.bits), f32::from_bits(v.pos.y.bits)),
        uv: egui::pos2(f32::from_bits(v.uv.x.bits), f32::from_bits(v.uv.y.bits)),
        color: egui::Color32::from_rgba_premultiplied(v.color.r, v.color.g, v.color.b, v.color.a),
    };
    let reference = egui::Mesh {
        indices: m.indices.clone(),
        vertices: m.vertices.iter().map(to_egui).collect(),
        texture_id: egui::TextureId::User(4),
    };
    let wanted = reference.split_to_u16();
    let pieces = m.split_to_u16();
    assert_eq!(pieces.len(), wanted.len());
    for (piece, w) in pieces.iter().zip(&wanted) {
        assert_eq!(piece.indices, w.indices);
        let vertices: Vec<egui::epaint::Vertex> = piece.vertices.iter().map(to_egui).collect();
        assert_eq!(vertices, w.vertices);
    }
}

#[test]
fn pieces_are_taken_by_number() {
    let m = mesh(vec![0, 1, 2], 4);
    let pieces = m.take_pieces(&vec![(vec![1, 0], vec![3, 1]), (Vec::new(), vec![2])]);
    assert_eq!(pieces.len(), 2);
    assert_eq!(pieces[0].indices, vec![1, 0]);
    assert_eq!(pieces[0].vertices, vec![vertex(3), vertex(1)]);
    assert_eq!(pieces[1].vertices, vec![vertex(2)]);
}

#[test]
fn meshes_that_cannot_be_cut() {
    // An index without a vertex.
    assert!(!mesh(vec![0, 1, 3], 3).check_splittable());
    // No whole triangles are needed where nothing is cut.
    assert!(mesh(vec![0, 1], 3).check_splittable());
    assert!(!mesh(vec![0, 1], 65536).check_splittable());
    // One triangle over too many vertices.
    assert!(mesh(vec![0, 1, 65534], 65536).check_splittable());
    assert!(!mesh(vec![0, 1, 65535], 65536).check_splittable());
    assert!(!mesh(vec![0, 1, 2, 65535, 3, 0], 65536).check_splittable());
}

fn flagged(zero: bool, n: usize) -> Vertex {
    Vertex { uv: if zero { point(0.0, -0.0) } else { point(0.25, 0.0) }, ..vertex(n) }
}

fn mesh16(zeros: &[bool], indices: Vec<u16>) -> Mesh16 {
    let vertices = zeros.iter().enumerate().map(|(n, zero)| flagged(*zero, n)).collect();
    Mesh16 { indices, vertices, texture_id: TextureId::Managed(0) }
}

#[test]
fn runs_are_cut_where_the_kind_changes() {
    let m = mesh16(&[true, false, true], vec![0, 2, 0, 1, 1, 2]);
    let runs = m.split_runs();
    assert_eq!(runs.len(), 3);
    assert_eq!(runs[0].vertices, vec![flagged(true, 0), flagged(true, 2), flagged(true, 0)]);
    assert_eq!(runs[0].indices, vec![0, 1, 2]);
    assert_eq!(runs[1].vertices, vec![flagged(false, 1), flagged(false, 1)]);
    assert_eq!(runs[1].indices, vec![0, 1]);
    assert_eq!(runs[2].vertices, vec![flagged(true, 2)]);
    assert_eq!(runs[2].indices, vec![0]);
    assert_eq!(corners(&runs), corners(&[m]));
}

#[test]
fn a_uniform_mesh_is_one_run() {
    let m = mesh16(&[false, false, false], vec![2, 1, 0]);
    let runs = m.split_runs();
    assert_eq!(runs.len(), 1);
    assert_eq!(corners(&runs), corners(&[m]));
}

#[test]
fn no_corners_make_one_empty_run() {
    let runs = mesh16(&[true], Vec::new()).split_runs();
    assert_eq!(runs.len(), 1);
    assert!(runs[0].vertices.is_empty() && runs[0].indices.is_empty());
}

#[test]
fn the_indices_of_a_long_run_start_over() {
    let m = mesh16(&[true, true], [0, 1].repeat(32769));
    let runs = m.split_runs();
    assert_eq!(runs.len(), 1);
    assert_eq!(runs[0].vertices.len(), 65538);
    assert_eq!(runs[0].indices[65535], 65535);
    assert_eq!(runs[0].indices[65536], 0);
    assert_eq!(runs[0].indices[65537], 1);
}
