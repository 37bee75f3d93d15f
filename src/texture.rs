use vstd::prelude::*;

verus! {

/// Bytes per pixel of a decoded RGB image.
pub const BYTES_PER_PIXEL: usize = 3;

/// The texel that an image lookup at column `i`, row `j` reads: both are
/// clamped to the image, and a buffer that is empty or too short gives none.
pub open spec fn texel_at(data: Seq<u8>, width: int, height: int, stride: int, i: int, j: int) -> Option<(u8, u8, u8)> {
    if data.len() == 0 || width <= 0 || height <= 0 {
        None
    } else {
        let ci = if i < width { i } else { width - 1 };
        let cj = if j < height { j } else { height - 1 };
        let idx = cj * stride + ci * 3;
        if idx + 2 < data.len() {
            Some((data[idx], data[idx + 1], data[idx + 2]))
        } else {
            None
        }
    }
}

/// Reads the RGB bytes of the pixel at column `i`, row `j` (row 0 on top) of a
/// decoded image, clamping the coordinates to the image. `None` stands for the
/// diagnostic colour: an empty image, or a pixel that lies past the buffer.
pub fn image_texel(
    data: &Vec<u8>,
    width: usize,
    height: usize,
    bytes_per_scanline: usize,
    i: usize,
    j: usize,
) -> (r: Option<(u8, u8, u8)>)
    ensures
        r == texel_at(data@, width as int, height as int, bytes_per_scanline as int, i as int, j as int),
{
    if data.len() == 0 || width == 0 || height == 0 {
        return None;
    }
    let ci: usize = if i < width { i } else { width - 1 };
    let cj: usize = if j < height { j } else { height - 1 };
    if ci > usize::MAX / BYTES_PER_PIXEL {
        return None;
    }
    let row: usize = match cj.checked_mul(bytes_per_scanline) {
        Some(row) => row,
        None => {
            assert(cj * bytes_per_scanline + ci * 3 + 2 >= data@.len()) by (nonlinear_arith)
                requires
                    cj * bytes_per_scanline > usize::MAX,
                    data@.len() <= usize::MAX,
                    ci >= 0,
            ;
            return None;
        },
    };
    let idx: usize = match row.checked_add(ci * BYTES_PER_PIXEL) {
        Some(idx) => idx,
        None => return None,
    };
    if data.len() < 3 || idx > data.len() - 3 {
        return None;
    }
    Some((data[idx], data[idx + 1], data[idx + 2]))
}

} // verus!
