use egui_skia::geometry::{Color32, Pos2, Scalar, Vertex};

fn scalar(x: f32) -> Scalar {
    Scalar { bits: x.to_bits() }
}

const SAMPLES: [f32; 14] = [
    0.0,
    -0.0,
    1.0,
    -1.0,
    0.5,
    f32::MIN_POSITIVE,
    1.0e-45,
    -1.0e-45,
    f32::MAX,
    f32::MIN,
    f32::INFINITY,
    f32::NEG_INFINITY,
    f32::NAN,
    -f32::NAN,
];

#[test]
fn scalars_answer_as_floats_do() {
    for x in SAMPLES {
        assert_eq!(scalar(x).is_nan(), x.is_nan(), "{x}");
        assert_eq!(scalar(x).is_zero(), x == 0.0, "{x}");
    }
    let mut bits: u32 = 0;
    for _ in 0..200_000 {
        bits = bits.wrapping_mul(1_664_525).wrapping_add(1_013_904_223);
        let x = f32::from_bits(bits);
        assert_eq!(Scalar { bits }.is_nan(), x.is_nan(), "{bits:x}");
        assert_eq!(Scalar { bits }.is_zero(), x == 0.0, "{bits:x}");
    }
}

#[test]
fn the_edges_of_the_number_range() {
    assert!(!Scalar { bits: 0x7f80_0000 }.is_nan());
    assert!(Scalar { bits: 0x7f80_0001 }.is_nan());
    assert!(Scalar { bits: 0xff80_0001 }.is_nan());
    assert!(!Scalar { bits: 0xff80_0000 }.is_nan());
    assert!(Scalar { bits: 0x8000_0000 }.is_zero());
    assert!(!Scalar { bits: 1 }.is_zero());
}

#[test]
fn points_that_are_no_numbers_move_to_the_origin() {
    let origin = Pos2 { x: scalar(0.0), y: scalar(0.0) };
    for x in SAMPLES {
        for y in SAMPLES {
            let p = Pos2 { x: scalar(x), y: scalar(y) };
            let wanted = if x.is_nan() || y.is_nan() { origin } else { p };
            assert_eq!(p.fixed(), wanted);
            assert_eq!(p.is_nan(), x.is_nan() || y.is_nan());
            assert_eq!(p.is_zero(), x == 0.0 && y == 0.0);
        }
    }
}

#[test]
fn vertices_are_plain_values() {
    let p = Pos2 { x: scalar(1.0), y: scalar(2.0) };
    let v = Vertex { pos: p, uv: p, color: Color32 { r: 1, g: 2, b: 3, a: 4 } };
    let w = v;
    assert_eq!(v, w);
    assert_ne!(v, Vertex { color: Color32 { r: 0, g: 2, b: 3, a: 4 }, ..v });
}
