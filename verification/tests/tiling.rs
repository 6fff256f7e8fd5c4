use tiled_texture::geometry::{axis_span, ceil_div, compute_grid};
use tiled_texture::message::Message;
use tiled_texture::raster::RasterImage;

/// A fresh test image: `w * h` pixels whose bytes count up from 0.
fn counting_image(w: u32, h: u32) -> RasterImage {
    let n = 4 * (w as usize) * (h as usize);
    let data: Vec<u8> = (0..n).map(|i| (i % 251) as u8).collect();
    RasterImage::new(w, h, data).expect("buffer length matches the dimensions")
}

#[test]
fn ceil_div_exact_values() {
    assert_eq!(ceil_div(1, 1), 1);
    assert_eq!(ceil_div(5000, 2048), 3);
    assert_eq!(ceil_div(4096, 2048), 2);
    assert_eq!(ceil_div(4097, 2048), 3);
    assert_eq!(ceil_div(2048, 2048), 1);
}

#[test]
fn partition_5000_3000_under_2048() {
    let g = compute_grid(5000, 3000, 2048);
    assert_eq!(g.col_count, 3);
    assert_eq!(g.row_count, 2);
    assert_eq!(g.col_translation, 2048);
    assert_eq!(g.row_translation, 2048);
    // Last column tile is 5000 - 2 * 2048 pixels wide.
    let (x, w) = axis_span(2, g.col_translation, 5000);
    assert_eq!(x, 4096);
    assert_eq!(w, 904);
    // Last row tile is 3000 - 1 * 2048 pixels tall.
    let (y, h) = axis_span(1, g.row_translation, 3000);
    assert_eq!(y, 2048);
    assert_eq!(h, 952);
}

#[test]
fn partition_small_image_is_single_tile() {
    let g = compute_grid(800, 600, 2048);
    assert_eq!(g.col_count, 1);
    assert_eq!(g.row_count, 1);
    assert_eq!(g.col_translation, 800);
    assert_eq!(g.row_translation, 600);
    let (x, w) = axis_span(0, g.col_translation, 800);
    assert_eq!((x, w), (0, 800));
    let (y, h) = axis_span(0, g.row_translation, 600);
    assert_eq!((y, h), (0, 600));
}

#[test]
fn partition_degenerates_exactly_at_the_limit() {
    let g = compute_grid(2048, 2048, 2048);
    assert_eq!((g.col_count, g.row_count), (1, 1));
    let g = compute_grid(2049, 2048, 2048);
    assert_eq!((g.col_count, g.row_count), (2, 1));
    let g = compute_grid(2048, 2049, 2048);
    assert_eq!((g.col_count, g.row_count), (1, 2));
    let g = compute_grid(1, 1, 1);
    assert_eq!((g.col_count, g.row_count), (1, 1));
}

#[test]
fn tiles_cover_without_gap_or_overlap() {
    // Walk the 3 x 2 grid of a 5 x 3 image with limit 2 and count, for every
    // pixel, how many tile rectangles hold it.
    let g = compute_grid(5, 3, 2);
    assert_eq!((g.col_count, g.row_count), (3, 2));
    let mut covered = [[0u32; 5]; 3];
    for r in 0..g.row_count {
        let (y0, th) = axis_span(r, g.row_translation, 3);
        for c in 0..g.col_count {
            let (x0, tw) = axis_span(c, g.col_translation, 5);
            for py in y0..y0 + th {
                for px in x0..x0 + tw {
                    covered[py as usize][px as usize] += 1;
                }
            }
        }
    }
    for row in covered.iter() {
        for count in row.iter() {
            assert_eq!(*count, 1);
        }
    }
}

#[test]
fn raster_new_checks_buffer_length() {
    assert!(RasterImage::new(2, 2, vec![0u8; 16]).is_some());
    assert!(RasterImage::new(2, 2, vec![0u8; 15]).is_none());
    assert!(RasterImage::new(2, 2, vec![0u8; 17]).is_none());
    assert!(RasterImage::new(0, 7, vec![]).is_some());
}

#[test]
fn crop_extracts_the_expected_bytes() {
    let data: Vec<u8> = (0u8..32).collect();
    let img = RasterImage::new(4, 2, data).unwrap();
    let out = img.crop(1, 0, 2, 2);
    assert_eq!(
        out,
        vec![4, 5, 6, 7, 8, 9, 10, 11, 20, 21, 22, 23, 24, 25, 26, 27]
    );
    let corner = img.crop(3, 1, 1, 1);
    assert_eq!(corner, vec![28, 29, 30, 31]);
}

#[test]
fn crop_of_whole_image_is_the_buffer() {
    let img = counting_image(6, 4);
    assert_eq!(img.crop(0, 0, 6, 4), img.data);
}

#[test]
fn crop_is_deterministic() {
    // The bytes a refresh uploads for a tile depend on the image alone, so
    // cropping the same rectangle twice gives identical buffers.
    let img = counting_image(7, 5);
    let first = img.crop(2, 1, 3, 4);
    let second = img.crop(2, 1, 3, 4);
    assert_eq!(first, second);
}

#[test]
fn tile_crops_reassemble_to_the_image() {
    // Crop every tile of the computed grid and lay the crops back into one
    // buffer; the result must be the original pixel buffer, byte for byte.
    let img = counting_image(5, 3);
    let g = compute_grid(5, 3, 2);
    let mut out = vec![0u8; img.data.len()];
    for r in 0..g.row_count {
        let (y0, th) = axis_span(r, g.row_translation, 3);
        for c in 0..g.col_count {
            let (x0, tw) = axis_span(c, g.col_translation, 5);
            let tile = img.crop(x0, y0, tw, th);
            for ly in 0..th {
                for lx in 0..tw {
                    for ch in 0..4u32 {
                        let src = 4 * (ly * tw + lx) + ch;
                        let dst = 4 * ((y0 + ly) * 5 + (x0 + lx)) + ch;
                        out[dst as usize] = tile[src as usize];
                    }
                }
            }
        }
    }
    assert_eq!(out, img.data);
}

#[test]
fn larger_reassembly_with_uneven_edges() {
    let img = counting_image(11, 7);
    let g = compute_grid(11, 7, 4);
    assert_eq!((g.col_count, g.row_count), (3, 2));
    let mut out = vec![0u8; img.data.len()];
    for r in 0..g.row_count {
        let (y0, th) = axis_span(r, g.row_translation, 7);
        for c in 0..g.col_count {
            let (x0, tw) = axis_span(c, g.col_translation, 11);
            let tile = img.crop(x0, y0, tw, th);
            for ly in 0..th {
                for lx in 0..tw {
                    for ch in 0..4u32 {
                        let src = 4 * (ly * tw + lx) + ch;
                        let dst = 4 * ((y0 + ly) * 11 + (x0 + lx)) + ch;
                        out[dst as usize] = tile[src as usize];
                    }
                }
            }
        }
    }
    assert_eq!(out, img.data);
}

#[test]
fn message_saved_clone_keeps_the_path() {
    let m = Message::Saved(std::path::PathBuf::from("shot.png"));
    let c = m.clone();
    assert!(matches!(c, Message::Saved(p) if p == std::path::PathBuf::from("shot.png")));
}

#[test]
fn message_constructors_wrap_the_text() {
    assert!(matches!(Message::info("hello"), Message::Info(s) if s == "hello"));
    assert!(matches!(Message::warn("careful"), Message::Warning(s) if s == "careful"));
    assert!(matches!(Message::err("broken"), Message::Error(s) if s == "broken"));
}
