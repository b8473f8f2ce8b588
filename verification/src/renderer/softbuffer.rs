//! From the pixels of a software framebuffer to the words that a window
//! surface shows.

use vstd::prelude::*;

verus! {

/// One pixel of a framebuffer.
#[derive(Clone, Copy, Debug, PartialEq, Eq, Structural)]
pub struct Pixel {
    pub red: u8,
    pub green: u8,
    pub blue: u8,
    pub alpha: u8,
}

/// Red, green and blue packed into one word: blue in the low byte, green
/// above it, red above green.
pub open spec fn encoded(r: u32, g: u32, b: u32) -> u32 {
    b | (g << 8) | (r << 16)
}

/// The word of a pixel; its alpha is left out.
pub open spec fn pixel_word(pixel: Pixel) -> u32 {
    encoded(pixel.red as u32, pixel.green as u32, pixel.blue as u32)
}

pub fn rgb_to_encoded_u32(r: u32, g: u32, b: u32) -> (word: u32)
    ensures
        word == encoded(r, g, b),
{
    b | (g << 8) | (r << 16)
}

/// Copies the first `height` rows of `width` pixels from `framebuffer` to
/// `buffer`, row by row, each pixel as its word.
pub fn copy_pixels(framebuffer: &Vec<Pixel>, buffer: &mut Vec<u32>, width: u32, height: u32)
    requires
        width * height <= framebuffer@.len(),
        width * height <= old(buffer)@.len(),
    ensures
        final(buffer)@.len() == old(buffer)@.len(),
        forall|i: int| 0 <= i < width * height ==> final(buffer)@[i] == pixel_word(framebuffer@[i]),
        forall|i: int| width * height <= i < old(buffer)@.len() ==> final(buffer)@[i] == old(buffer)@[i],
{
    let width_usize = width as usize;
    let length = buffer.len();
    let mut y: u32 = 0;
    while y < height
        invariant
            y <= height,
            width_usize == width,
            width * height <= length,
            width * height <= framebuffer@.len(),
            width * height <= buffer@.len(),
            buffer@.len() == old(buffer)@.len(),
            forall|i: int| 0 <= i < y * width ==> buffer@[i] == pixel_word(framebuffer@[i]),
            forall|i: int| y * width <= i < buffer@.len() ==> buffer@[i] == old(buffer)@[i],
        decreases height - y,
    {
        assert(y * width + width <= width * height && 0 <= y * width) by (nonlinear_arith)
            requires
                0 <= y < height,
                0 <= width,
        ;
        let row = y as usize * width_usize;
        let mut x: u32 = 0;
        while x < width
            invariant
                x <= width,
                y < height,
                width_usize == width,
                row == y * width,
                y * width + width <= width * height,
                width * height <= length,
                width * height <= framebuffer@.len(),
                width * height <= buffer@.len(),
                buffer@.len() == old(buffer)@.len(),
                forall|i: int| 0 <= i < y * width + x ==> buffer@[i] == pixel_word(framebuffer@[i]),
                forall|i: int| y * width + x <= i < buffer@.len() ==> buffer@[i] == old(buffer)@[i],
            decreases width - x,
        {
            let index = row + x as usize;
            let current_pixel = framebuffer[index];
            let red = current_pixel.red as u32;
            let green = current_pixel.green as u32;
            let blue = current_pixel.blue as u32;
            buffer.set(index, rgb_to_encoded_u32(red, green, blue));
            x += 1;
        }
        assert((y + 1) * width == y * width + width) by (nonlinear_arith);
        y += 1;
    }
    assert(height * width == width * height) by (nonlinear_arith);
}

} // verus!
