//! Raster surfaces: their size, and how their pixels are handed to a window.
use vstd::prelude::*;

verus! {

/// The size of the surface for a window of this size. Skia makes no empty surface.
pub fn surface_size(width: i32, height: i32) -> (r: (i32, i32))
    ensures
        r.0 == (if width < 1 {
            1
        } else {
            width
        }),
        r.1 == (if height < 1 {
            1
        } else {
            height
        }),
{
    (
        if width < 1 {
            1
        } else {
            width
        },
        if height < 1 {
            1
        } else {
            height
        },
    )
}

/// The memory that the pixels of a surface are read into, four bytes each.
#[derive(Clone, Copy, Debug, PartialEq, Eq, Structural)]
pub struct Readback {
    /// The distance between two rows, in bytes.
    pub row_bytes: usize,
    /// The size of all rows, in bytes.
    pub size: usize,
}

/// Works out the memory for the pixels of a surface. An empty surface has none.
pub fn readback(width: i32, height: i32) -> (r: Option<Readback>)
    requires
        width == 0 || height == 0 || (0 < width && 0 < height && width * height * 4 <= i32::MAX),
    ensures
        r is None <==> width == 0 || height == 0,
        r matches Some(memory) ==> {
            &&& memory.row_bytes == width * 4
            &&& memory.size == width * height * 4
        },
{
    if width == 0 || height == 0 {
        return None;
    }
    assert(width * 4 <= width * height * 4) by (nonlinear_arith)
        requires
            0 < width,
            0 < height,
    ;
    Some(Readback { row_bytes: (width * 4) as usize, size: (width * height * 4) as usize })
}

/// A pixel as the number `0x00RRGGBB`.
pub open spec fn packed(r: u8, g: u8, b: u8) -> u32 {
    (r * 0x1_0000 + g * 0x100 + b) as u32
}

/// A packed pixel holds blue in its lowest eight bits, green in the next eight, red in the eight
/// above, and nothing above that.
pub proof fn law_packed_channels(r: u8, g: u8, b: u8)
    ensures
        packed(r, g, b) % 0x100 == b,
        packed(r, g, b) / 0x100 % 0x100 == g,
        packed(r, g, b) / 0x1_0000 == r,
{
}

/// Packs a pixel into the number `0x00RRGGBB`.
fn pack(r: u8, g: u8, b: u8) -> (n: u32)
    ensures
        n == packed(r, g, b),
{
    assert(((r as u32) << 16) | ((g as u32) << 8) | (b as u32) == (r * 0x1_0000 + g * 0x100 + b)
        as u32) by (bit_vector);
    ((r as u32) << 16) | ((g as u32) << 8) | (b as u32)
}

/// Copies pixels to the buffer of a window.
///
/// The pixels come as red, green, blue and alpha bytes and go as `0x00RRGGBB`, without alpha. The
/// copy ends where the whole pixels or the buffer ends; the rest of the buffer stays as it is.
pub fn copy_pixels(rgba: &[u8], buffer: &mut [u32])
    ensures
        final(buffer)@.len() == old(buffer)@.len(),
        forall|i: int|
            #![trigger final(buffer)@[i]]
            0 <= i < old(buffer)@.len() ==> final(buffer)@[i] == (if 4 * i + 3 < rgba@.len() {
                packed(rgba@[4 * i], rgba@[4 * i + 1], rgba@[4 * i + 2])
            } else {
                old(buffer)@[i]
            }),
{
    let size: usize = rgba.len();
    let pixels: usize = size / 4;
    let count: usize = if pixels < buffer.len() {
        pixels
    } else {
        buffer.len()
    };
    for i in 0..count
        invariant
            count <= buffer@.len(),
            size == rgba@.len(),
            count <= size / 4,
            buffer@.len() == old(buffer)@.len(),
            forall|j: int|
                #![trigger buffer@[j]]
                0 <= j < buffer@.len() ==> buffer@[j] == (if j < i {
                    packed(rgba@[4 * j], rgba@[4 * j + 1], rgba@[4 * j + 2])
                } else {
                    old(buffer)@[j]
                }),
    {
        buffer[i] = pack(rgba[4 * i], rgba[4 * i + 1], rgba[4 * i + 2]);
    }
}

} // verus!
