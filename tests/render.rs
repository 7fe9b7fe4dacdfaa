use raytracer::framebuffer::Rgb8;
use raytracer::render::{
    chunk_len, pixel_position, sample_row, write_pixels, CHUNKS_PER_WORKER,
    MAX_CHUNK_LEN,
};

#[test]
fn chunk_len_even_share() {
    // 200 x 150 pixels over 8 workers, 4 runs each.
    assert_eq!(chunk_len(30000, 8), 937);
    assert_eq!(chunk_len(30000, 16), 468);
}

#[test]
fn chunk_len_is_capped() {
    assert_eq!(chunk_len(30000, 1), MAX_CHUNK_LEN);
    assert_eq!(chunk_len(usize::MAX, 1), 1024);
}

#[test]
fn chunk_len_is_at_least_one() {
    assert_eq!(chunk_len(0, 4), 1);
    assert_eq!(chunk_len(10, 64), 1);
    assert_eq!(CHUNKS_PER_WORKER, 4);
}

#[test]
fn pixel_position_row_major() {
    assert_eq!(pixel_position(0, 200), (0, 0));
    assert_eq!(pixel_position(199, 200), (199, 0));
    assert_eq!(pixel_position(205, 200), (5, 1));
    assert_eq!(pixel_position(29999, 200), (199, 149));
}

#[test]
fn pixel_positions_cover_each_pixel_once() {
    let (w, h) = (7usize, 5usize);
    let mut seen = vec![0u32; w * h];
    for i in 0..w * h {
        let (x, y) = pixel_position(i, w);
        assert!(x < w && y < h);
        seen[y * w + x] += 1;
    }
    assert!(seen.iter().all(|&n| n == 1));
}

#[test]
fn sample_row_flips_vertically() {
    assert_eq!(sample_row(0, 150), 149);
    assert_eq!(sample_row(149, 150), 0);
    assert_eq!(sample_row(0, 1), 0);
}

#[test]
fn write_pixels_single_pixel_is_opaque() {
    let mut px = [9u8; 4];
    write_pixels(&mut px, &[Rgb8::new(1, 2, 3)]);
    assert_eq!(px, [1, 2, 3, 255]);
}

#[test]
fn write_pixels_encodes_run() {
    let mut frame = vec![0u8; 8];
    write_pixels(&mut frame, &[Rgb8::new(10, 20, 30), Rgb8::new(40, 50, 60)]);
    assert_eq!(frame, vec![10, 20, 30, 255, 40, 50, 60, 255]);
}

#[test]
fn write_pixels_empty_run() {
    let mut frame: Vec<u8> = Vec::new();
    write_pixels(&mut frame, &[]);
    assert!(frame.is_empty());
}

fn image(n: usize) -> Vec<Rgb8> {
    (0..n)
        .map(|i| Rgb8::new((i * 7 % 256) as u8, (i * 13 % 256) as u8, (i * 31 % 256) as u8))
        .collect()
}

fn frame_in_chunks(img: &[Rgb8], len: usize) -> Vec<u8> {
    let mut frame = vec![0u8; 4 * img.len()];
    for (k, part) in frame.chunks_mut(4 * len).enumerate() {
        let first = k * len;
        let colors = &img[first..first + part.len() / 4];
        write_pixels(part, colors);
    }
    frame
}

#[test]
fn frame_is_the_same_for_every_partition() {
    let img = image(157);
    let whole = frame_in_chunks(&img, img.len());
    for len in [1usize, 2, 3, 10, 64, 156, 157, 1000] {
        assert_eq!(frame_in_chunks(&img, len), whole);
    }
}

#[test]
fn frame_is_the_same_for_every_worker_count() {
    let img = image(200 * 150);
    let one = frame_in_chunks(&img, chunk_len(img.len(), 1));
    for workers in [2usize, 3, 8, 32] {
        assert_eq!(frame_in_chunks(&img, chunk_len(img.len(), workers)), one);
    }
}
