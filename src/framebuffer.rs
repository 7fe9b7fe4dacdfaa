use vstd::prelude::*;

verus! {

/// A display color: three 8-bit channels, already gamma encoded.
#[derive(Clone, Copy, Debug, PartialEq, Eq, Structural)]
pub struct Rgb8 {
    pub r: u8,
    pub g: u8,
    pub b: u8,
}

impl Rgb8 {
    pub fn new(r: u8, g: u8, b: u8) -> (c: Rgb8)
        ensures
            c == (Rgb8 { r, g, b }),
    {
        Rgb8 { r, g, b }
    }

    pub open spec fn spec_black() -> Rgb8 {
        Rgb8 { r: 0, g: 0, b: 0 }
    }

    /// The color of a pixel that nothing has been written to.
    pub fn black() -> (c: Rgb8)
        ensures
            c == Self::spec_black(),
    {
        Rgb8 { r: 0, g: 0, b: 0 }
    }
}

/// The color as one word `0x00RRGGBB`, the layout window buffers expect.
pub open spec fn packed(c: Rgb8) -> u32 {
    (c.r as nat * 0x10000 + c.g as nat * 0x100 + c.b as nat) as u32
}

/// Packs a color into `0x00RRGGBB`.
pub fn pack_rgb(c: Rgb8) -> (w: u32)
    ensures
        w == packed(c),
        w as nat == c.r as nat * 0x10000 + c.g as nat * 0x100 + c.b as nat,
{
    let r = c.r as u32;
    let g = c.g as u32;
    let b = c.b as u32;
    let w = (r << 16u32) | (g << 8u32) | b;
    assert(w == r * 0x10000 + g * 0x100 + b) by (bit_vector)
        requires
            r < 256,
            g < 256,
            b < 256,
            w == (r << 16u32) | (g << 8u32) | b,
    ;
    w
}

/// A `width` by `height` image held row by row: the pixel `(x, y)` is at
/// `y * width + x`.
pub struct Framebuffer {
    pub width: usize,
    pub height: usize,
    pub buffer: Vec<Rgb8>,
}

/// The buffer after writing `c` at `(x, y)`; a position outside the image
/// leaves it as it was.
pub open spec fn with_pixel(
    buffer: Seq<Rgb8>,
    width: nat,
    height: nat,
    x: nat,
    y: nat,
    c: Rgb8,
) -> Seq<Rgb8> {
    if x < width && y < height {
        buffer.update((y * width + x) as int, c)
    } else {
        buffer
    }
}

impl Framebuffer {
    /// The buffer holds exactly one color per pixel.
    pub open spec fn wf(&self) -> bool {
        self.buffer@.len() == self.width * self.height
    }

    /// A black image of the given size.
    pub fn new(width: usize, height: usize) -> (fb: Framebuffer)
        requires
            width * height <= usize::MAX,
        ensures
            fb.wf(),
            fb.width == width,
            fb.height == height,
            forall|i: int| 0 <= i < fb.buffer@.len() ==> fb.buffer@[i] == Rgb8::spec_black(),
    {
        let n = width * height;
        let mut buffer: Vec<Rgb8> = Vec::with_capacity(n);
        let mut i: usize = 0;
        while i < n
            invariant
                i <= n,
                buffer@.len() == i,
                forall|j: int| 0 <= j < i ==> buffer@[j] == Rgb8::spec_black(),
            decreases n - i,
        {
            buffer.push(Rgb8::black());
            i = i + 1;
        }
        Framebuffer { width, height, buffer }
    }

    /// Sets every pixel back to black.
    pub fn clear(&mut self)
        requires
            old(self).wf(),
        ensures
            final(self).wf(),
            final(self).width == old(self).width,
            final(self).height == old(self).height,
            forall|i: int|
                0 <= i < final(self).buffer@.len() ==> final(self).buffer@[i]
                    == Rgb8::spec_black(),
    {
        let n = self.buffer.len();
        let mut i: usize = 0;
        while i < n
            invariant
                i <= n,
                n == self.buffer@.len(),
                self.buffer@.len() == self.width * self.height,
                self.width == old(self).width,
                self.height == old(self).height,
                forall|j: int| 0 <= j < i ==> self.buffer@[j] == Rgb8::spec_black(),
            decreases n - i,
        {
            self.buffer.set(i, Rgb8::black());
            i = i + 1;
        }
    }

    /// Writes `color` at `(x, y)`. A position outside the image is ignored.
    pub fn set_pixel(&mut self, x: usize, y: usize, color: Rgb8)
        requires
            old(self).wf(),
        ensures
            final(self).wf(),
            final(self).width == old(self).width,
            final(self).height == old(self).height,
            final(self).buffer@ == with_pixel(
                old(self).buffer@,
                old(self).width as nat,
                old(self).height as nat,
                x as nat,
                y as nat,
                color,
            ),
    {
        let len = self.buffer.len();
        if x < self.width && y < self.height {
            proof {
                lemma_index_in_image(x as nat, y as nat, self.width as nat, self.height as nat);
                assert(y * self.width + x < len);
            }
            let index = y * self.width + x;
            self.buffer.set(index, color);
        }
    }

    /// The image as one `0x00RRGGBB` word per pixel, in the same order.
    pub fn to_u32_buffer(&self) -> (out: Vec<u32>)
        requires
            self.wf(),
        ensures
            out@.len() == self.buffer@.len(),
            forall|i: int| 0 <= i < out@.len() ==> out@[i] == packed(#[trigger] self.buffer@[i]),
    {
        let n = self.buffer.len();
        let mut out: Vec<u32> = Vec::with_capacity(n);
        let mut i: usize = 0;
        while i < n
            invariant
                i <= n,
                n == self.buffer@.len(),
                out@.len() == i,
                forall|j: int| 0 <= j < i ==> out@[j] == packed(#[trigger] self.buffer@[j]),
            decreases n - i,
        {
            out.push(pack_rgb(self.buffer[i]));
            i = i + 1;
        }
        out
    }
}

/// A pixel inside a `width` by `height` image has its row-major index inside
/// the buffer.
pub proof fn lemma_index_in_image(x: nat, y: nat, width: nat, height: nat)
    requires
        x < width,
        y < height,
    ensures
        y * width + x < width * height,
{
    assert(y * width + x < width * height) by (nonlinear_arith)
        requires
            x < width,
            y < height,
    ;
}

/// Writes to two different pixels can be made in either order: the image
/// that results is the same.
pub proof fn lemma_set_pixel_commutes(
    buffer: Seq<Rgb8>,
    width: nat,
    height: nat,
    x1: nat,
    y1: nat,
    c1: Rgb8,
    x2: nat,
    y2: nat,
    c2: Rgb8,
)
    requires
        buffer.len() == width * height,
        x1 != x2 || y1 != y2,
    ensures
        with_pixel(with_pixel(buffer, width, height, x1, y1, c1), width, height, x2, y2, c2)
            == with_pixel(with_pixel(buffer, width, height, x2, y2, c2), width, height, x1, y1, c1),
{
    if x1 < width && y1 < height && x2 < width && y2 < height {
        let i1 = (y1 * width + x1) as int;
        let i2 = (y2 * width + x2) as int;
        lemma_index_in_image(x1, y1, width, height);
        lemma_index_in_image(x2, y2, width, height);
        assert(i1 != i2) by (nonlinear_arith)
            requires
                x1 < width,
                x2 < width,
                x1 != x2 || y1 != y2,
                i1 == y1 * width + x1,
                i2 == y2 * width + x2,
        {
            if y1 == y2 {
            } else if y1 < y2 {
                assert(y1 * width + width <= y2 * width);
            } else {
                assert(y2 * width + width <= y1 * width);
            }
        }
        assert(buffer.update(i1, c1).update(i2, c2) =~= buffer.update(i2, c2).update(i1, c1));
    }
}

} // verus!
