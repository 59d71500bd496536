use egui_skia::raster::{copy_pixels, readback, surface_size, Readback};

#[test]
fn surfaces_are_never_empty() {
    assert_eq!(surface_size(1024, 768), (1024, 768));
    assert_eq!(surface_size(0, 768), (1, 768));
    assert_eq!(surface_size(1024, -3), (1024, 1));
    assert_eq!(surface_size(1, 1), (1, 1));
}

#[test]
fn pixels_need_four_bytes_each() {
    assert_eq!(readback(3, 2), Some(Readback { row_bytes: 12, size: 24 }));
    assert_eq!(readback(0, 2), None);
    assert_eq!(readback(3, 0), None);
    assert_eq!(readback(i32::MAX, 0), None);
    assert_eq!(readback(0, -1), None);
    assert_eq!(readback(0x1fff_ffff, 1).unwrap().size, 0x7fff_fffc);
}

#[test]
fn pixels_are_packed_without_alpha() {
    let mut buffer = [9, 9, 9];
    copy_pixels(&[0x12, 0x34, 0x56, 0x78, 0xff, 0, 1, 2, 3], &mut buffer);
    assert_eq!(buffer, [0x12_3456, 0xff_0001, 9]);
    let mut short = [9];
    copy_pixels(&[0x12, 0x34, 0x56, 0x78, 0xff, 0, 1, 2], &mut short);
    assert_eq!(short, [0x12_3456]);
    let mut untouched = [9];
    copy_pixels(&[1, 2, 3], &mut untouched);
    assert_eq!(untouched, [9]);
}
