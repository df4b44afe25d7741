//! Filling a frame of RGBA bytes, row by row, from a per-pixel shader.
use vstd::prelude::*;

verus! {

/// The opacity byte written with every pixel.
pub const OPAQUE: u8 = 0xff;

/// The column and row of the pixel at `index` in a frame `width` pixels wide.
pub open spec fn pixel_of(index: int, width: int) -> (u32, u32) {
    ((index % width) as u32, (index / width) as u32)
}

/// The color bytes of the pixel at `index`.
pub open spec fn rgb_at(frame: Seq<u8>, index: int) -> (u8, u8, u8) {
    (frame[4 * index], frame[4 * index + 1], frame[4 * index + 2])
}

/// The opacity byte of the pixel at `index`.
pub open spec fn alpha_at(frame: Seq<u8>, index: int) -> u8 {
    frame[4 * index + 3]
}

/// Writes every pixel of `frame`, four bytes each, in row-major order over
/// rows `width` pixels wide: the color bytes are those `shade` gives for the
/// pixel's column and row, the fourth byte is opaque. Bytes after the last
/// whole pixel stay as they were.
pub fn draw<F: Fn(u32, u32) -> (u8, u8, u8)>(frame: &mut [u8], width: u32, shade: F)
    requires
        width > 0,
        (old(frame)@.len() / 4) as int / (width as int) <= u32::MAX,
        forall|x: u32, y: u32| shade.requires((x, y)),
    ensures
        final(frame)@.len() == old(frame)@.len(),
        forall|i: int|
            0 <= i < old(frame)@.len() / 4 ==> shade.ensures(
                pixel_of(i, width as int),
                #[trigger] rgb_at(final(frame)@, i),
            ) && alpha_at(final(frame)@, i) == OPAQUE,
        forall|j: int|
            4 * (old(frame)@.len() / 4) <= j < old(frame)@.len() ==> final(frame)@[j] == old(
                frame,
            )@[j],
{
    let ghost start = frame@;
    let pixels = frame.len() / 4;
    let mut i: usize = 0;
    while i < pixels
        invariant
            pixels == start.len() / 4,
            start.len() <= usize::MAX,
            (pixels as int) / (width as int) <= u32::MAX,
            width > 0,
            i <= pixels,
            frame@.len() == start.len(),
            forall|x: u32, y: u32| shade.requires((x, y)),
            forall|k: int|
                0 <= k < i ==> shade.ensures(pixel_of(k, width as int), #[trigger] rgb_at(frame@, k))
                    && alpha_at(frame@, k) == OPAQUE,
            forall|j: int| 4 * i <= j < start.len() ==> frame@[j] == start[j],
        decreases pixels - i,
    {
        assert((i as int) / (width as int) <= (pixels as int) / (width as int)) by (nonlinear_arith)
            requires
                i < pixels,
                width > 0,
        ;
        let x = (i % width as usize) as u32;
        let y = (i / width as usize) as u32;
        let (red, green, blue) = shade(x, y);
        assert(4 * i + 3 < start.len()) by (nonlinear_arith)
            requires
                i < pixels,
                pixels == start.len() / 4,
        ;
        let base = 4 * i;
        let ghost before = frame@;
        frame[base] = red;
        frame[base + 1] = green;
        frame[base + 2] = blue;
        frame[base + 3] = OPAQUE;
        proof {
            assert forall|k: int| 0 <= k < i implies #[trigger] rgb_at(frame@, k) == rgb_at(before, k)
                && alpha_at(frame@, k) == alpha_at(before, k) by {}
            assert(rgb_at(frame@, i as int) == (red, green, blue));
        }
        i = i + 1;
    }
}

} // verus!
