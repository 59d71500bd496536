use egui_skia::geometry::Color32;
use egui_skia::texture::{
    ColorImage, FilterMode, ImageDelta, MipmapMode, PaintHandle, PaintType, Patch, SamplingOptions,
    TextureFilter, TextureId, TextureOptions, TextureUpdate, Upload,
};

fn options(magnification: TextureFilter, minification: TextureFilter) -> TextureOptions {
    TextureOptions { magnification, minification }
}

fn delta(width: usize, height: usize, pos: Option<[usize; 2]>) -> ImageDelta {
    let mut pixels = Vec::new();
    for i in 0..(width * height) {
        pixels.push(Color32 { r: i as u8, g: 10, b: 20, a: 30 });
    }
    ImageDelta {
        image: ColorImage { size: [width, height], pixels },
        options: options(TextureFilter::Linear, TextureFilter::Nearest),
        pos,
    }
}

#[test]
fn the_default_texture_is_the_font_atlas() {
    assert_eq!(TextureId::default(), TextureId::Managed(0));
    assert_eq!(egui::TextureId::default(), egui::TextureId::Managed(0));
    assert_eq!(PaintType::of(TextureId::Managed(0)), PaintType::Font);
    assert_eq!(PaintType::of(TextureId::Managed(1)), PaintType::Image);
    assert_eq!(PaintType::of(TextureId::User(0)), PaintType::Image);
}

#[test]
fn sampling_follows_the_options() {
    let near = TextureFilter::Nearest;
    let linear = TextureFilter::Linear;
    assert_eq!(
        SamplingOptions::for_texture(false, options(near, near)),
        SamplingOptions { filter: FilterMode::Nearest, mipmap: MipmapMode::Nearest }
    );
    assert_eq!(
        SamplingOptions::for_texture(false, options(near, linear)),
        SamplingOptions { filter: FilterMode::Nearest, mipmap: MipmapMode::Linear }
    );
    assert_eq!(
        SamplingOptions::for_texture(false, options(linear, near)),
        SamplingOptions { filter: FilterMode::Linear, mipmap: MipmapMode::Nearest }
    );
    assert_eq!(
        SamplingOptions::for_texture(false, options(linear, linear)),
        SamplingOptions { filter: FilterMode::Linear, mipmap: MipmapMode::Linear }
    );
}

#[test]
fn sampling_is_plain_with_the_workaround() {
    for magnification in [TextureFilter::Nearest, TextureFilter::Linear] {
        for minification in [TextureFilter::Nearest, TextureFilter::Linear] {
            assert_eq!(
                SamplingOptions::for_texture(true, options(magnification, minification)),
                SamplingOptions { filter: FilterMode::Nearest, mipmap: MipmapMode::Disabled }
            );
        }
    }
}

#[test]
fn a_whole_texture_is_uploaded() {
    let update = TextureUpdate::plan(None, false, TextureId::Managed(0), &delta(2, 1, None));
    assert_eq!(
        update,
        TextureUpdate {
            id: TextureId::Managed(0),
            upload: Upload {
                width: 2,
                height: 1,
                row_bytes: 8,
                bytes: vec![0, 10, 20, 30, 1, 10, 20, 30],
            },
            patch: None,
            handle: PaintHandle {
                width: 2,
                height: 1,
                paint_type: PaintType::Font,
                sampling: SamplingOptions {
                    filter: FilterMode::Linear,
                    mipmap: MipmapMode::Nearest,
                },
            },
        }
    );
}

#[test]
fn a_patch_keeps_the_size_of_the_texture() {
    let id = TextureId::User(7);
    let old = TextureUpdate::plan(None, true, id, &delta(5, 4, None)).handle;
    let update = TextureUpdate::plan(Some(old), true, id, &delta(2, 3, Some([1, 2])));
    assert_eq!(
        update.patch,
        Some(Patch {
            surface_width: 5,
            surface_height: 4,
            left: 1,
            top: 2,
            right: 3,
            bottom: 5,
        })
    );
    assert_eq!((update.upload.width, update.upload.height), (2, 3));
    assert_eq!(update.upload.row_bytes, 8);
    assert_eq!(update.upload.bytes.len(), 24);
    assert_eq!((update.handle.width, update.handle.height), (5, 4));
    assert_eq!(update.handle.paint_type, PaintType::Image);
}

#[test]
fn a_whole_texture_forgets_the_old_size() {
    let id = TextureId::User(7);
    let old = TextureUpdate::plan(None, true, id, &delta(5, 4, None)).handle;
    let update = TextureUpdate::plan(Some(old), true, id, &delta(2, 3, None));
    assert_eq!(update.patch, None);
    assert_eq!((update.handle.width, update.handle.height), (2, 3));
}

#[test]
fn an_image_needs_valid_sides_and_all_its_texels() {
    let sized = |width: usize, height: usize, texels: usize| ImageDelta {
        image: ColorImage {
            size: [width, height],
            pixels: vec![Color32 { r: 1, g: 2, b: 3, a: 4 }; texels],
        },
        ..delta(0, 0, None)
    };
    assert!(sized(1, 1, 1).check_uploadable());
    assert!(sized(3, 2, 6).check_uploadable());
    assert!(sized(3, 2, 7).check_uploadable());
    assert!(!sized(3, 2, 5).check_uploadable());
    assert!(!sized(0, 2, 6).check_uploadable());
    assert!(!sized(3, 0, 6).check_uploadable());
    assert!(!sized(0x1fff_ffff, 1, 6).check_uploadable());
    assert!(!sized(0x2000_0000, 1, 6).check_uploadable());
    assert!(!sized(1, 0x2000_0000, 6).check_uploadable());
    assert!(!sized(0x8000_0000, 1, 6).check_uploadable());
    assert!(!sized(usize::MAX, usize::MAX, 6).check_uploadable());
}

#[test]
fn sizes_have_to_fit() {
    let sized = |width: usize, height: usize, pos: Option<[usize; 2]>| ImageDelta {
        image: ColorImage { size: [width, height], pixels: Vec::new() },
        ..delta(0, 0, pos)
    };
    assert!(sized(1, 1, None).check_fits());
    assert!(sized(usize::MAX / 4, 1, None).check_fits());
    assert!(!sized(usize::MAX / 4 + 1, 1, None).check_fits());
    let last = i32::MAX as usize;
    assert!(sized(1, 1, Some([last - 1, 0])).check_fits());
    assert!(!sized(1, 1, Some([last, 0])).check_fits());
    assert!(sized(1, 1, Some([0, last - 1])).check_fits());
    assert!(!sized(1, 1, Some([0, last])).check_fits());
}
