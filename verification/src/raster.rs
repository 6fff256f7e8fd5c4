//! The raster image model: a row-major RGBA pixel buffer with four bytes per
//! pixel, and the extraction of a tile's pixel sub-rectangle from it.

use vstd::prelude::*;

verus! {

use crate::geometry::TileGrid;
use crate::geometry::covering_tile;
use crate::geometry::grid_valid;
use crate::geometry::lemma_tile_in_bounds;
use crate::geometry::lemma_tiles_cover;
use crate::geometry::tile_contains;
use crate::geometry::tile_h;
use crate::geometry::tile_w;
use crate::geometry::tile_x;
use crate::geometry::tile_y;

/// A decoded raster image: `width * height` pixels, row-major, four bytes
/// (RGBA) per pixel.
pub struct RasterImage {
    pub width: u32,
    pub height: u32,
    pub data: Vec<u8>,
}

/// Index of channel `ch` of pixel (px, py) in a row-major RGBA buffer of
/// row length `img_w`.
pub open spec fn pixel_byte(img_w: int, px: int, py: int, ch: int) -> int {
    4 * (py * img_w + px) + ch
}

/// The bytes of the `w` by `h` sub-rectangle at (x, y) of a row-major RGBA
/// buffer of row length `img_w`, again row-major with four bytes per pixel.
pub open spec fn crop_spec(data: Seq<u8>, img_w: int, x: int, y: int, w: int, h: int) -> Seq<u8> {
    Seq::new(
        (4 * w * h) as nat,
        |k: int|
            {
                let pix = k / 4;
                let ch = k % 4;
                let rr = pix / w;
                let cc = pix % w;
                data[pixel_byte(img_w, x + cc, y + rr, ch)]
            },
    )
}

/// The bytes of tile `i` of grid `g`, cut from a `w` by `h` image.
pub open spec fn tile_bytes(g: TileGrid, data: Seq<u8>, w: int, h: int, i: int) -> Seq<u8> {
    crop_spec(data, w, tile_x(g, i), tile_y(g, i), tile_w(g, i, w), tile_h(g, i, h))
}

impl RasterImage {
    /// The buffer holds exactly four bytes for every pixel.
    pub open spec fn wf(self) -> bool {
        self.data@.len() == 4 * (self.width as int) * (self.height as int)
    }

    /// Wraps a pixel buffer as an image, if the buffer length matches the
    /// dimensions.
    pub fn new(width: u32, height: u32, data: Vec<u8>) -> (r: Option<RasterImage>)
        ensures
            r is Some <==> data@.len() == 4 * (width as int) * (height as int),
            r matches Some(img) ==> img.width == width && img.height == height && img.data@
                == data@ && img.wf(),
    {
        proof {
            assert(4 * (width as int) * (height as int) <= 0x4_0000_0000_0000_0000)
                by (nonlinear_arith)
                requires
                    0 <= width < 0x1_0000_0000,
                    0 <= height < 0x1_0000_0000,
            ;
        }
        let expected: u128 = 4u128 * (width as u128) * (height as u128);
        if (data.len() as u128) == expected {
            Some(RasterImage { width, height, data })
        } else {
            None
        }
    }

    /// Copies the `w` by `h` pixel sub-rectangle at (x, y) out of the image
    /// into a fresh row-major RGBA buffer.
    pub fn crop(&self, x: u32, y: u32, w: u32, h: u32) -> (out: Vec<u8>)
        requires
            self.wf(),
            x + w <= self.width,
            y + h <= self.height,
        ensures
            out@ == crop_spec(
                self.data@,
                self.width as int,
                x as int,
                y as int,
                w as int,
                h as int,
            ),
            out@.len() == 4 * (w as int) * (h as int),
    {
        let ghost target = crop_spec(
            self.data@,
            self.width as int,
            x as int,
            y as int,
            w as int,
            h as int,
        );
        let n: usize = self.data.len();
        proof {
            assert(4 * 0 * (w as int) == 0 && 4 * (w as int) * (h as int) >= 0)
                by (nonlinear_arith);
        }
        let mut out: Vec<u8> = Vec::new();
        let iw: usize = self.width as usize;
        for rr in 0..h
            invariant
                self.wf(),
                x + w <= self.width,
                y + h <= self.height,
                iw == self.width,
                n == self.data@.len(),
                target == crop_spec(
                    self.data@,
                    self.width as int,
                    x as int,
                    y as int,
                    w as int,
                    h as int,
                ),
                out@.len() == 4 * (rr as int) * (w as int),
                forall|k: int| 0 <= k < out@.len() ==> out@[k] == target[k],
        {
            let py: usize = (y + rr) as usize;
            for cc in 0..w
                invariant
                    self.wf(),
                    x + w <= self.width,
                    y + h <= self.height,
                    iw == self.width,
                    n == self.data@.len(),
                    rr < h,
                    py == y + rr,
                    target == crop_spec(
                        self.data@,
                        self.width as int,
                        x as int,
                        y as int,
                        w as int,
                        h as int,
                    ),
                    out@.len() == 4 * (rr as int) * (w as int) + 4 * (cc as int),
                    forall|k: int| 0 <= k < out@.len() ==> out@[k] == target[k],
            {
                let px: usize = (x + cc) as usize;
                let ghost len0 = out@.len() as int;
                proof {
                    lemma_pixel_in_range(
                        self.width as int,
                        self.height as int,
                        px as int,
                        py as int,
                    );
                    lemma_pixel_in_range(w as int, h as int, cc as int, rr as int);
                    lemma_crop_index(w as int, rr as int, cc as int, 0);
                    lemma_crop_index(w as int, rr as int, cc as int, 1);
                    lemma_crop_index(w as int, rr as int, cc as int, 2);
                    lemma_crop_index(w as int, rr as int, cc as int, 3);
                    assert(4 * ((rr as int) * (w as int) + cc as int) == 4 * (rr as int) * (
                    w as int) + 4 * (cc as int)) by (nonlinear_arith);
                }
                let base: usize = 4 * (py * iw + px);
                out.push(self.data[base]);
                out.push(self.data[base + 1]);
                out.push(self.data[base + 2]);
                out.push(self.data[base + 3]);
                proof {
                    assert(out@[len0] == target[len0]);
                    assert(out@[len0 + 1] == target[len0 + 1]);
                    assert(out@[len0 + 2] == target[len0 + 2]);
                    assert(out@[len0 + 3] == target[len0 + 3]);
                }
            }
            proof {
                assert(4 * (rr as int) * (w as int) + 4 * (w as int) == 4 * ((rr as int) + 1) * (
                w as int)) by (nonlinear_arith);
            }
        }
        proof {
            assert(4 * (h as int) * (w as int) == 4 * (w as int) * (h as int)) by (nonlinear_arith);
            assert(out@ =~= target);
        }
        out
    }
}

/// Channel `ch` of pixel (px, py) lies inside a `w` by `h` RGBA buffer.
pub proof fn lemma_pixel_in_range(w: int, h: int, px: int, py: int)
    requires
        w >= 1,
        h >= 1,
        0 <= px < w,
        0 <= py < h,
    ensures
        0 <= 4 * (py * w + px),
        4 * (py * w + px) + 3 < 4 * w * h,
{
    assert(0 <= 4 * (py * w + px) && 4 * (py * w + px) + 3 < 4 * w * h) by (nonlinear_arith)
        requires
            w >= 1,
            h >= 1,
            0 <= px < w,
            0 <= py < h,
    ;
}

/// Decodes the flat byte index of channel `ch` of pixel (cc, rr) of a
/// `w`-pixel-wide buffer back into its parts.
pub proof fn lemma_crop_index(w: int, rr: int, cc: int, ch: int)
    requires
        w >= 1,
        0 <= rr,
        0 <= cc < w,
        0 <= ch < 4,
    ensures
        (4 * (rr * w + cc) + ch) / 4 == rr * w + cc,
        (4 * (rr * w + cc) + ch) % 4 == ch,
        (rr * w + cc) / w == rr,
        (rr * w + cc) % w == cc,
{
    let s = rr * w + cc;
    assert(s / w == rr && s % w == cc && s >= 0) by (nonlinear_arith)
        requires
            w >= 1,
            0 <= rr,
            0 <= cc < w,
            s == rr * w + cc,
    ;
    assert((4 * s + ch) / 4 == s && (4 * s + ch) % 4 == ch) by (nonlinear_arith)
        requires
            s >= 0,
            0 <= ch < 4,
    ;
}

/// A flat pixel index of a `w` by `h` buffer decodes to a row below `h` and a
/// column below `w`.
pub proof fn lemma_pixel_decode(w: int, h: int, pix: int)
    requires
        w >= 1,
        h >= 1,
        0 <= pix < w * h,
    ensures
        0 <= pix / w < h,
        0 <= pix % w < w,
        pix == (pix / w) * w + pix % w,
{
    assert(0 <= pix / w < h && 0 <= pix % w < w && pix == (pix / w) * w + pix % w)
        by (nonlinear_arith)
        requires
            w >= 1,
            h >= 1,
            0 <= pix < w * h,
    ;
}

/// Cropping the whole image changes nothing: the full-size sub-rectangle at
/// the origin is the buffer itself.
pub proof fn lemma_crop_full(data: Seq<u8>, w: int, h: int)
    requires
        w >= 1,
        h >= 1,
        data.len() == 4 * w * h,
    ensures
        crop_spec(data, w, 0, 0, w, h) == data,
{
    let c = crop_spec(data, w, 0, 0, w, h);
    assert forall|k: int| 0 <= k < data.len() implies c[k] == data[k] by {
        let pix = k / 4;
        let ch = k % 4;
        assert(0 <= pix < w * h && 0 <= ch < 4 && k == 4 * pix + ch) by (nonlinear_arith)
            requires
                0 <= k < 4 * w * h,
                pix == k / 4,
                ch == k % 4,
        ;
        lemma_pixel_decode(w, h, pix);
        assert(pixel_byte(w, 0 + pix % w, 0 + pix / w, ch) == k) by (nonlinear_arith)
            requires
                pix == (pix / w) * w + pix % w,
                k == 4 * pix + ch,
        ;
    }
    assert(c =~= data);
}

/// The bytes that stand at tile `i`'s place when the tile crops of grid `g`
/// are laid back row-major into one `w` by `h` buffer.
pub open spec fn reassembled(g: TileGrid, data: Seq<u8>, w: int, h: int) -> Seq<u8> {
    Seq::new(
        (4 * w * h) as nat,
        |k: int|
            {
                let pix = k / 4;
                let ch = k % 4;
                let py = pix / w;
                let px = pix % w;
                let i = covering_tile(g, px, py);
                tile_bytes(g, data, w, h, i)[4 * ((py - tile_y(g, i)) * tile_w(g, i, w) + (px
                    - tile_x(g, i))) + ch]
            },
    )
}

/// Round trip: cropping the image at every tile rectangle of a valid grid and
/// reassembling the crops row-major reproduces the image's buffer exactly.
pub proof fn lemma_tiles_reassemble(g: TileGrid, data: Seq<u8>, w: int, h: int)
    requires
        grid_valid(g, w, h),
        w >= 1,
        h >= 1,
        data.len() == 4 * w * h,
    ensures
        reassembled(g, data, w, h) == data,
{
    let r = reassembled(g, data, w, h);
    assert forall|k: int| 0 <= k < data.len() implies r[k] == data[k] by {
        let pix = k / 4;
        let ch = k % 4;
        assert(0 <= pix < w * h && 0 <= ch < 4 && k == 4 * pix + ch) by (nonlinear_arith)
            requires
                0 <= k < 4 * w * h,
                pix == k / 4,
                ch == k % 4,
        ;
        lemma_pixel_decode(w, h, pix);
        let py = pix / w;
        let px = pix % w;
        lemma_tiles_cover(g, w, h, px, py);
        let i = covering_tile(g, px, py);
        lemma_tile_in_bounds(g, w, h, i);
        let tx = tile_x(g, i);
        let ty = tile_y(g, i);
        let tw = tile_w(g, i, w);
        let th = tile_h(g, i, h);
        let lx = px - tx;
        let ly = py - ty;
        assert(tile_contains(g, i, w, h, px, py));
        lemma_pixel_in_range(tw, th, lx, ly);
        lemma_crop_index(tw, ly, lx, ch);
        assert(r[k] == data[pixel_byte(w, tx + lx, ty + ly, ch)]);
        assert(pixel_byte(w, tx + lx, ty + ly, ch) == k) by (nonlinear_arith)
            requires
                tx + lx == px,
                ty + ly == py,
                pix == py * w + px,
                k == 4 * pix + ch,
        ;
    }
    assert(r =~= data);
}

} // verus!
