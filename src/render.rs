use vstd::prelude::*;

use crate::framebuffer::Rgb8;

verus! {

/// The longest run of consecutive pixels that makes one job.
pub const MAX_CHUNK_LEN: usize = 1024;

/// Runs per worker that the pixel jobs are split into, so that a worker that
/// finishes early can take over work from the others.
pub const CHUNKS_PER_WORKER: usize = 4;

pub open spec fn spec_chunk_len(pixel_count: nat, workers: nat) -> nat {
    let even = pixel_count / (workers * CHUNKS_PER_WORKER as nat);
    if even < 1 {
        1
    } else if even > MAX_CHUNK_LEN {
        MAX_CHUNK_LEN as nat
    } else {
        even
    }
}

/// How many consecutive pixels make one job: an even share of
/// `CHUNKS_PER_WORKER` runs per worker, but never under 1 nor over
/// `MAX_CHUNK_LEN`.
pub fn chunk_len(pixel_count: usize, workers: usize) -> (len: usize)
    requires
        workers >= 1,
        workers * CHUNKS_PER_WORKER <= usize::MAX,
    ensures
        len == spec_chunk_len(pixel_count as nat, workers as nat),
        1 <= len <= MAX_CHUNK_LEN,
{
    let even = pixel_count / (workers * CHUNKS_PER_WORKER);
    if even < 1 {
        1
    } else if even > MAX_CHUNK_LEN {
        MAX_CHUNK_LEN
    } else {
        even
    }
}

/// The column and row of the pixel stored at `index` in a row-major image
/// `width` pixels wide.
pub fn pixel_position(index: usize, width: usize) -> (xy: (usize, usize))
    requires
        width > 0,
    ensures
        xy.0 == index % width,
        xy.1 == index / width,
        xy.0 < width,
        xy.1 * width + xy.0 == index,
{
    let x = index % width;
    let y = index / width;
    proof {
        vstd::arithmetic::div_mod::lemma_fundamental_div_mod(index as int, width as int);
        assert(y * width == width * y) by (nonlinear_arith);
    }
    (x, y)
}

/// Image rows count down from the top and camera rows up from the bottom: the
/// camera row that image row `y` shows.
pub fn sample_row(y: usize, height: usize) -> (row: usize)
    requires
        y < height,
    ensures
        row == height - 1 - y,
        row < height,
{
    height - 1 - y
}

/// Every index of a `width` by `height` image names exactly one pixel inside
/// it, and every pixel is named by exactly one index: a job per index renders
/// each pixel once.
pub proof fn lemma_pixel_positions_cover_once(width: nat, height: nat)
    requires
        width > 0,
    ensures
        forall|i: nat| i < width * height ==> i % width < width && #[trigger] (i / width) < height,
        forall|x: nat, y: nat|
            #![trigger y * width + x]
            x < width && y < height ==> (y * width + x) % width == x && (y * width + x) / width
                == y && y * width + x < width * height,
{
    assert forall|i: nat| i < width * height implies i % width < width && #[trigger] (i / width)
        < height by {
        vstd::arithmetic::div_mod::lemma_fundamental_div_mod(i as int, width as int);
        vstd::arithmetic::div_mod::lemma_mod_pos_bound(i as int, width as int);
        let q = i / width;
        let r = i % width;
        assert(q < height) by (nonlinear_arith)
            requires
                i == width * q + r,
                0 <= r,
                i < width * height,
        ;
    }
    assert forall|x: nat, y: nat| #![trigger y * width + x] x < width && y < height implies (y
        * width + x) % width == x && (y * width + x) / width == y && y * width + x < width
        * height by {
        vstd::arithmetic::div_mod::lemma_fundamental_div_mod_converse(
            (y * width + x) as int,
            width as int,
            y as int,
            x as int,
        );
        assert(y * width + x < width * height) by (nonlinear_arith)
            requires
                x < width,
                y < height,
        ;
        assert(width * y == y * width) by (nonlinear_arith);
    }
}

/// Byte `k` (0 to 3) of a pixel in an RGBA frame: red, green, blue, then a
/// fully opaque alpha.
pub open spec fn rgba_byte(c: Rgb8, k: int) -> u8 {
    if k == 0 {
        c.r
    } else if k == 1 {
        c.g
    } else if k == 2 {
        c.b
    } else {
        255
    }
}

/// The RGBA bytes of a run of pixels, four per pixel, in order.
pub open spec fn frame_bytes(img: Seq<Rgb8>) -> Seq<u8> {
    Seq::new(4 * img.len(), |k: int| rgba_byte(img[k / 4], k % 4))
}

/// Writes a run of pixels into the part of an RGBA frame that holds them.
pub fn write_pixels(frame: &mut [u8], colors: &[Rgb8])
    requires
        old(frame)@.len() == 4 * colors@.len(),
    ensures
        final(frame)@ == frame_bytes(colors@),
{
    let n = colors.len();
    let total = frame.len();
    let mut i: usize = 0;
    while i < n
        invariant
            i <= n,
            n == colors@.len(),
            frame@.len() == total,
            total == 4 * n,
            forall|k: int| 0 <= k < 4 * i ==> frame@[k] == rgba_byte(colors@[k / 4], k % 4),
        decreases n - i,
    {
        let c = colors[i];
        let at = 4 * i;
        assert(at + 3 < total);
        frame[at] = c.r;
        frame[at + 1] = c.g;
        frame[at + 2] = c.b;
        frame[at + 3] = 255;
        assert forall|k: int| 0 <= k < 4 * (i + 1) implies frame@[k] == rgba_byte(
            colors@[k / 4],
            k % 4,
        ) by {
            if k >= 4 * i {
                assert(k / 4 == i);
            }
        }
        i = i + 1;
    }
    assert(frame@ =~= frame_bytes(colors@));
}

/// The frame assembled from runs of `len` pixels each (the last one possibly
/// shorter), each run encoded on its own.
pub open spec fn chunked_frame(img: Seq<Rgb8>, len: nat) -> Seq<u8>
    decreases img.len(),
{
    if len == 0 || img.len() <= len {
        frame_bytes(img)
    } else {
        frame_bytes(img.take(len as int)) + chunked_frame(img.skip(len as int), len)
    }
}

/// Encoding two runs one after the other gives the encoding of the whole.
pub proof fn lemma_frame_bytes_concat(a: Seq<Rgb8>, b: Seq<Rgb8>)
    ensures
        frame_bytes(a + b) == frame_bytes(a) + frame_bytes(b),
{
    let whole = frame_bytes(a + b);
    let parts = frame_bytes(a) + frame_bytes(b);
    assert forall|k: int| 0 <= k < whole.len() implies whole[k] == parts[k] by {
        if k >= 4 * a.len() {
            assert((k - 4 * a.len()) / 4 == k / 4 - a.len());
            assert((k - 4 * a.len()) % 4 == k % 4);
        }
    }
    assert(whole =~= parts);
}

/// Splitting the pixels into runs of any length, and encoding each run on its
/// own, gives byte for byte the frame encoded in one piece: the output does
/// not depend on how the pixel jobs were partitioned.
pub proof fn lemma_chunking_preserves_frame(img: Seq<Rgb8>, len_a: nat, len_b: nat)
    requires
        len_a > 0,
        len_b > 0,
    ensures
        chunked_frame(img, len_a) == frame_bytes(img),
        chunked_frame(img, len_a) == chunked_frame(img, len_b),
{
    lemma_chunked_frame_whole(img, len_a);
    lemma_chunked_frame_whole(img, len_b);
}

proof fn lemma_chunked_frame_whole(img: Seq<Rgb8>, len: nat)
    requires
        len > 0,
    ensures
        chunked_frame(img, len) == frame_bytes(img),
    decreases img.len(),
{
    if img.len() > len {
        let head = img.take(len as int);
        let tail = img.skip(len as int);
        lemma_chunked_frame_whole(tail, len);
        assert(img =~= head + tail);
        lemma_frame_bytes_concat(head, tail);
    }
}

} // verus!
