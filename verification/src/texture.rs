//! The tiled texture itself: GPU allocation of a tile set from a raster
//! image, and in-place refresh of the tile contents.

use vstd::prelude::*;

verus! {

use vstd::math::min;
use notan::prelude::Graphics;
use notan::prelude::Texture;
use notan::prelude::TextureFilter;
use crate::geometry::TileGrid;
use crate::geometry::axis_span;
use crate::geometry::compute_grid;
use crate::geometry::grid_valid;
use crate::geometry::spec_ceil_div;
use crate::raster::RasterImage;
use crate::raster::lemma_crop_full;
use crate::raster::tile_bytes;

/// `notan::prelude::Graphics` (the GPU context) carried opaquely.
#[verifier::external_type_specification]
#[verifier::external_body]
pub struct ExGraphics(Graphics);

/// `notan::prelude::Texture` (one GPU texture handle) carried opaquely.
#[verifier::external_type_specification]
#[verifier::external_body]
pub struct ExTexture(Texture);

/// How tile textures are allocated: as the bytes stand, or premultiplying
/// the color channels by alpha during upload. One build call picks one mode
/// and applies it to every tile.
#[derive(Clone, Copy, Debug, PartialEq, Eq, Structural)]
pub enum AllocationMode {
    Standard,
    Premultiplied,
}

/// Why a build returned no tile set. A failed build never hands out a
/// partially populated tile set: every texture allocated before the failure
/// is released again.
#[derive(Debug, Clone)]
pub enum BuildError {
    /// The reported hardware tile limit admits no usable tile size.
    InvalidTileLimit,
    /// The GPU refused the allocation of the tile at `tile_index`.
    TileAllocation { tile_index: usize, reason: String },
}

/// The per-tile contents after a refresh: tile `i` holds the fresh crop of
/// the image where the update succeeded (`ok[i]`), and its previous bytes
/// where it failed.
pub open spec fn refresh_outcome(
    prev: Seq<Seq<u8>>,
    g: TileGrid,
    data: Seq<u8>,
    w: int,
    h: int,
    ok: Seq<bool>,
) -> Seq<Seq<u8>> {
    Seq::new(
        prev.len(),
        |i: int|
            if 0 <= i < ok.len() && ok[i] {
                tile_bytes(g, data, w, h, i)
            } else {
                prev[i]
            },
    )
}

/// Refreshing twice from the same raster image, with the same per-tile
/// outcomes, leaves exactly the tile contents of refreshing once.
pub proof fn lemma_refresh_idempotent(
    prev: Seq<Seq<u8>>,
    g: TileGrid,
    data: Seq<u8>,
    w: int,
    h: int,
    ok: Seq<bool>,
)
    ensures
        refresh_outcome(refresh_outcome(prev, g, data, w, h, ok), g, data, w, h, ok)
            == refresh_outcome(prev, g, data, w, h, ok),
{
    let once = refresh_outcome(prev, g, data, w, h, ok);
    let twice = refresh_outcome(once, g, data, w, h, ok);
    assert(twice =~= once);
}

/// A refresh whose every tile update succeeds determines the tile contents
/// from the raster image alone: what the tiles held before does not matter.
pub proof fn lemma_refresh_overwrites(
    prev1: Seq<Seq<u8>>,
    prev2: Seq<Seq<u8>>,
    g: TileGrid,
    data: Seq<u8>,
    w: int,
    h: int,
    ok: Seq<bool>,
)
    requires
        prev1.len() == prev2.len(),
        ok.len() == prev1.len(),
        forall|i: int| 0 <= i < ok.len() ==> ok[i],
    ensures
        refresh_outcome(prev1, g, data, w, h, ok) == refresh_outcome(prev2, g, data, w, h, ok),
{
    assert(refresh_outcome(prev1, g, data, w, h, ok) =~= refresh_outcome(
        prev2,
        g,
        data,
        w,
        h,
        ok,
    ));
}

/// A refresh whose every tile update succeeds leaves exactly the tile
/// contents that a successful build from the same raster image records, so
/// a second such refresh from the same image changes nothing.
pub proof fn lemma_refresh_full_success(t: TexWrap, prev: Seq<Seq<u8>>, data: Seq<u8>, ok: Seq<
    bool,
>)
    requires
        t.wf(),
        prev.len() == t.tile_total(),
        ok.len() == t.tile_total(),
        forall|i: int| 0 <= i < ok.len() ==> ok[i],
        t.tile_contents@ == refresh_outcome(
            prev,
            t.spec_grid(),
            data,
            t.size_vec.0 as int,
            t.size_vec.1 as int,
            ok,
        ),
    ensures
        t.contents_match(data),
{
}

/// A set of GPU textures that together hold one logical raster image, with
/// the partition geometry that maps logical pixels to tiles.
pub struct TexWrap {
    /// The tile handles, in row-major tile order.
    pub texture_array: Vec<Texture>,
    pub col_count: u32,
    pub row_count: u32,
    pub col_translation: u32,
    pub row_translation: u32,
    /// The logical image extents captured at build time.
    pub size_vec: (u32, u32),
    /// The bytes most recently uploaded to each tile, in tile order.
    pub tile_contents: Ghost<Seq<Seq<u8>>>,
}

impl TexWrap {
    /// The partition geometry as a grid value.
    pub open spec fn spec_grid(self) -> TileGrid {
        TileGrid {
            col_count: self.col_count,
            row_count: self.row_count,
            col_translation: self.col_translation,
            row_translation: self.row_translation,
        }
    }

    /// Number of tiles of the grid.
    pub open spec fn tile_total(self) -> int {
        (self.col_count as int) * (self.row_count as int)
    }

    /// The grid covers the logical image and there is one handle, and one
    /// recorded content buffer, per tile.
    pub open spec fn wf(self) -> bool {
        &&& grid_valid(self.spec_grid(), self.size_vec.0 as int, self.size_vec.1 as int)
        &&& self.texture_array@.len() == self.tile_total()
        &&& self.tile_contents@.len() == self.tile_total()
    }

    /// Every tile holds exactly the crop of `data` at its rectangle.
    pub open spec fn contents_match(self, data: Seq<u8>) -> bool {
        forall|i: int|
            0 <= i < self.tile_total() ==> self.tile_contents@[i] == tile_bytes(
                self.spec_grid(),
                data,
                self.size_vec.0 as int,
                self.size_vec.1 as int,
                i,
            )
    }

    /// Builds a tile set from the image with the standard allocation mode.
    pub fn from_rgbaimage(gfx: &mut Graphics, linear_mag_filter: bool, image: &RasterImage) -> (r:
        Option<TexWrap>)
        requires
            image.wf(),
            image.width >= 1,
            image.height >= 1,
        ensures
            r matches Some(t) ==> t.wf() && t.texture_array@.len() == (t.col_count as int)
                * (t.row_count as int) && t.size_vec.0 == image.width && t.size_vec.1
                == image.height && t.contents_match(image.data@),
    {
        match Self::gen_from_rgbaimage(gfx, linear_mag_filter, image, AllocationMode::Standard) {
            Ok(t) => Some(t),
            Err(_) => None,
        }
    }

    /// Builds a tile set from the image, premultiplying alpha during upload.
    pub fn from_rgbaimage_premult(
        gfx: &mut Graphics,
        linear_mag_filter: bool,
        image: &RasterImage,
    ) -> (r: Option<TexWrap>)
        requires
            image.wf(),
            image.width >= 1,
            image.height >= 1,
        ensures
            r matches Some(t) ==> t.wf() && t.texture_array@.len() == (t.col_count as int)
                * (t.row_count as int) && t.size_vec.0 == image.width && t.size_vec.1
                == image.height && t.contents_match(image.data@),
    {
        match Self::gen_from_rgbaimage(gfx, linear_mag_filter, image, AllocationMode::Premultiplied)
        {
            Ok(t) => Some(t),
            Err(_) => None,
        }
    }

    /// Builds a tile set from the image against the GPU context's reported
    /// tile limit. All or nothing: on any tile failure the whole build fails
    /// and every already-allocated texture is dropped.
    pub fn gen_from_rgbaimage(
        gfx: &mut Graphics,
        linear_mag_filter: bool,
        image: &RasterImage,
        mode: AllocationMode,
    ) -> (r: Result<TexWrap, BuildError>)
        requires
            image.wf(),
            image.width >= 1,
            image.height >= 1,
        ensures
            r matches Ok(t) ==> t.wf() && t.texture_array@.len() == (t.col_count as int) * (
            t.row_count as int) && t.size_vec.0 == image.width && t.size_vec.1 == image.height
                && t.contents_match(image.data@),
    {
        let limit = Self::max_texture_size(gfx);
        if limit == 0 {
            return Err(BuildError::InvalidTileLimit);
        }
        Self::build_tiles(gfx, linear_mag_filter, image, mode, limit)
    }

    /// Builds a tile set from the image for a given positive tile limit:
    /// `ceil(extent / limit)` tiles per axis, cropped row-major from the
    /// image and allocated one GPU texture each.
    pub fn build_tiles(
        gfx: &mut Graphics,
        linear_mag_filter: bool,
        image: &RasterImage,
        mode: AllocationMode,
        limit: u32,
    ) -> (r: Result<TexWrap, BuildError>)
        requires
            image.wf(),
            image.width >= 1,
            image.height >= 1,
            limit >= 1,
        ensures
            r matches Ok(t) ==> {
                &&& t.wf()
                &&& t.size_vec.0 == image.width
                &&& t.size_vec.1 == image.height
                &&& t.col_count == spec_ceil_div(image.width as int, limit as int)
                &&& t.row_count == spec_ceil_div(image.height as int, limit as int)
                &&& t.col_translation == min(image.width as int, limit as int)
                &&& t.row_translation == min(image.height as int, limit as int)
                &&& t.contents_match(image.data@)
            },
            r matches Err(e) ==> (e matches BuildError::InvalidTileLimit <==> 4 * min(
                image.width as int,
                limit as int,
            ) * min(image.height as int, limit as int) > u32::MAX),
    {
        let w = image.width;
        let h = image.height;
        let g = compute_grid(w, h, limit);
        proof {
            assert(4 * (g.col_translation as int) * (g.row_translation as int)
                <= 0x4_0000_0000_0000_0000) by (nonlinear_arith)
                requires
                    0 <= g.col_translation < 0x1_0000_0000,
                    0 <= g.row_translation < 0x1_0000_0000,
            ;
        }
        if 4u128 * (g.col_translation as u128) * (g.row_translation as u128) > u32::MAX as u128 {
            return Err(BuildError::InvalidTileLimit);
        }
        let mut a: Vec<Texture> = Vec::new();
        let ghost mut contents: Seq<Seq<u8>> = Seq::empty();
        proof {
            assert(0 * (g.col_count as int) == 0) by (nonlinear_arith);
        }
        for row_index in 0..g.row_count
            invariant
                image.wf(),
                image.width == w,
                image.height == h,
                w >= 1,
                h >= 1,
                grid_valid(g, w as int, h as int),
                g.col_translation == min(w as int, limit as int),
                g.row_translation == min(h as int, limit as int),
                4 * (g.col_translation as int) * (g.row_translation as int) <= u32::MAX,
                a@.len() == (row_index as int) * (g.col_count as int),
                contents.len() == a@.len(),
                forall|j: int|
                    0 <= j < a@.len() ==> contents[j] == tile_bytes(
                        g,
                        image.data@,
                        w as int,
                        h as int,
                        j,
                    ),
        {
            let (tex_start_y, tex_height) = axis_span(row_index, g.row_translation, h);
            for col_index in 0..g.col_count
                invariant
                    image.wf(),
                    image.width == w,
                    image.height == h,
                    w >= 1,
                    h >= 1,
                    grid_valid(g, w as int, h as int),
                    g.col_translation == min(w as int, limit as int),
                    g.row_translation == min(h as int, limit as int),
                    4 * (g.col_translation as int) * (g.row_translation as int) <= u32::MAX,
                    row_index < g.row_count,
                    tex_start_y == (row_index as int) * (g.row_translation as int),
                    tex_height == min(g.row_translation as int, h as int - tex_start_y as int),
                    1 <= tex_height <= g.row_translation,
                    tex_start_y + tex_height <= h,
                    a@.len() == (row_index as int) * (g.col_count as int) + col_index as int,
                    contents.len() == a@.len(),
                    forall|j: int|
                        0 <= j < a@.len() ==> contents[j] == tile_bytes(
                            g,
                            image.data@,
                            w as int,
                            h as int,
                            j,
                        ),
            {
                let (tex_start_x, tex_width) = axis_span(col_index, g.col_translation, w);
                let ghost j = a@.len() as int;
                proof {
                    assert(4 * (tex_width as int) * (tex_height as int) <= 4 * (
                    g.col_translation as int) * (g.row_translation as int)) by (nonlinear_arith)
                        requires
                            1 <= tex_width <= g.col_translation,
                            1 <= tex_height <= g.row_translation,
                    ;
                    assert(j % (g.col_count as int) == col_index as int && j / (g.col_count as int)
                        == row_index as int) by (nonlinear_arith)
                        requires
                            g.col_count >= 1,
                            0 <= col_index < g.col_count,
                            0 <= row_index,
                            j == (row_index as int) * (g.col_count as int) + col_index as int,
                    ;
                }
                let buf = image.crop(tex_start_x, tex_start_y, tex_width, tex_height);
                let tex = match mode {
                    AllocationMode::Standard => Self::gen_texture_standard(
                        gfx,
                        &buf,
                        tex_width,
                        tex_height,
                        linear_mag_filter,
                    ),
                    AllocationMode::Premultiplied => Self::gen_texture_premult(
                        gfx,
                        &buf,
                        tex_width,
                        tex_height,
                        linear_mag_filter,
                    ),
                };
                match tex {
                    Ok(t) => {
                        a.push(t);
                        proof {
                            contents = contents.push(buf@);
                        }
                    },
                    Err(e) => {
                        return Err(BuildError::TileAllocation { tile_index: a.len(), reason: e });
                    },
                }
            }
            proof {
                assert((row_index as int) * (g.col_count as int) + (g.col_count as int) == ((
                row_index as int) + 1) * (g.col_count as int)) by (nonlinear_arith);
            }
        }
        proof {
            assert((g.row_count as int) * (g.col_count as int) == (g.col_count as int) * (
            g.row_count as int)) by (nonlinear_arith);
        }
        Ok(
            TexWrap {
                texture_array: a,
                col_count: g.col_count,
                row_count: g.row_count,
                col_translation: g.col_translation,
                row_translation: g.row_translation,
                size_vec: (w, h),
                tile_contents: Ghost(contents),
            },
        )
    }

    /// Rewrites the pixel contents of the existing tile set in place from a
    /// raster image of the same logical extents. The partition and the
    /// texture handles are never changed; a tile whose GPU update fails
    /// keeps its previous contents, and the remaining tiles are still
    /// updated.
    pub fn update_textures(&mut self, gfx: &mut Graphics, image: &RasterImage)
        requires
            old(self).wf(),
            image.wf(),
            image.width == old(self).size_vec.0,
            image.height == old(self).size_vec.1,
            image.width >= 1,
            image.height >= 1,
        ensures
            final(self).texture_array@ == old(self).texture_array@,
            final(self).col_count == old(self).col_count,
            final(self).row_count == old(self).row_count,
            final(self).col_translation == old(self).col_translation,
            final(self).row_translation == old(self).row_translation,
            final(self).size_vec == old(self).size_vec,
            final(self).wf(),
            exists|ok: Seq<bool>|
                final(self).tile_contents@ == refresh_outcome(
                    old(self).tile_contents@,
                    old(self).spec_grid(),
                    image.data@,
                    image.width as int,
                    image.height as int,
                    ok,
                ),
    {
        let ghost g = self.spec_grid();
        let ghost prev = self.tile_contents@;
        let w = image.width;
        let h = image.height;
        if self.col_count == 1 && self.row_count == 1 {
            proof {
                lemma_crop_full(image.data@, w as int, h as int);
                assert((self.col_count as int) * (self.row_count as int) == 1) by (nonlinear_arith)
                    requires
                        self.col_count == 1,
                        self.row_count == 1,
                ;
            }
            match Self::update_texture_bytes(gfx, &mut self.texture_array, 0, &image.data) {
                Ok(_) => {
                    self.tile_contents = Ghost(
                        prev.update(0, tile_bytes(g, image.data@, w as int, h as int, 0)),
                    );
                    proof {
                        let ok = seq![true];
                        assert(self.tile_contents@ =~= refresh_outcome(
                            prev,
                            g,
                            image.data@,
                            w as int,
                            h as int,
                            ok,
                        ));
                    }
                },
                Err(_) => {
                    proof {
                        let ok = seq![false];
                        assert(self.tile_contents@ =~= refresh_outcome(
                            prev,
                            g,
                            image.data@,
                            w as int,
                            h as int,
                            ok,
                        ));
                    }
                },
            }
        } else {
            let mut tex_index: usize = 0;
            let ghost mut ok: Seq<bool> = Seq::empty();
            let col_count = self.col_count;
            let row_count = self.row_count;
            let col_translation = self.col_translation;
            let row_translation = self.row_translation;
            let total: usize = self.texture_array.len();
            proof {
                assert(0 * (col_count as int) == 0 && (col_count as int) * (row_count as int) == (
                row_count as int) * (col_count as int)) by (nonlinear_arith);
            }
            for row_index in 0..row_count
                invariant
                    image.wf(),
                    image.width == w,
                    image.height == h,
                    w >= 1,
                    h >= 1,
                    old(self).wf(),
                    g == old(self).spec_grid(),
                    prev == old(self).tile_contents@,
                    col_count == old(self).col_count,
                    row_count == old(self).row_count,
                    col_translation == old(self).col_translation,
                    row_translation == old(self).row_translation,
                    w == old(self).size_vec.0,
                    h == old(self).size_vec.1,
                    self.col_count == old(self).col_count,
                    self.row_count == old(self).row_count,
                    self.col_translation == old(self).col_translation,
                    self.row_translation == old(self).row_translation,
                    self.size_vec == old(self).size_vec,
                    self.texture_array@ == old(self).texture_array@,
                    total as int == (row_count as int) * (col_count as int),
                    total as int == self.texture_array@.len(),
                    tex_index as int == (row_index as int) * (col_count as int),
                    ok.len() == tex_index as int,
                    self.tile_contents@.len() == prev.len(),
                    forall|j: int|
                        0 <= j < tex_index as int ==> self.tile_contents@[j] == (if ok[j] {
                            tile_bytes(g, image.data@, w as int, h as int, j)
                        } else {
                            prev[j]
                        }),
                    forall|j: int|
                        tex_index as int <= j < prev.len() ==> self.tile_contents@[j] == prev[j],
            {
                let (tex_start_y, tex_height) = axis_span(row_index, row_translation, h);
                for col_index in 0..col_count
                    invariant
                        image.wf(),
                        image.width == w,
                        image.height == h,
                        w >= 1,
                        h >= 1,
                        old(self).wf(),
                        g == old(self).spec_grid(),
                        prev == old(self).tile_contents@,
                        col_count == old(self).col_count,
                        row_count == old(self).row_count,
                        col_translation == old(self).col_translation,
                        row_translation == old(self).row_translation,
                        w == old(self).size_vec.0,
                        h == old(self).size_vec.1,
                        self.col_count == old(self).col_count,
                        self.row_count == old(self).row_count,
                        self.col_translation == old(self).col_translation,
                        self.row_translation == old(self).row_translation,
                        self.size_vec == old(self).size_vec,
                        self.texture_array@ == old(self).texture_array@,
                        total as int == (row_count as int) * (col_count as int),
                        total as int == self.texture_array@.len(),
                        row_index < row_count,
                        tex_start_y == (row_index as int) * (row_translation as int),
                        tex_height == min(row_translation as int, h as int - tex_start_y as int),
                        1 <= tex_height <= row_translation,
                        tex_start_y + tex_height <= h,
                        tex_index as int == (row_index as int) * (col_count as int)
                            + col_index as int,
                        ok.len() == tex_index as int,
                        self.tile_contents@.len() == prev.len(),
                        forall|j: int|
                            0 <= j < tex_index as int ==> self.tile_contents@[j] == (if ok[j] {
                                tile_bytes(g, image.data@, w as int, h as int, j)
                            } else {
                                prev[j]
                            }),
                        forall|j: int|
                            tex_index as int <= j < prev.len() ==> self.tile_contents@[j]
                                == prev[j],
                {
                    let (tex_start_x, tex_width) = axis_span(col_index, col_translation, w);
                    proof {
                        assert((row_index as int) * (col_count as int) + (col_index as int) < (
                        row_count as int) * (col_count as int) && (tex_index as int) % (
                        col_count as int) == col_index as int && (tex_index as int) / (
                        col_count as int) == row_index as int) by (nonlinear_arith)
                            requires
                                col_count >= 1,
                                0 <= col_index < col_count,
                                0 <= row_index < row_count,
                                tex_index as int == (row_index as int) * (col_count as int)
                                    + col_index as int,
                        ;
                        assert(tex_index < total);
                    }
                    let buf = image.crop(tex_start_x, tex_start_y, tex_width, tex_height);
                    match Self::update_texture_bytes(gfx, &mut self.texture_array, tex_index, &buf)
                    {
                        Ok(_) => {
                            self.tile_contents = Ghost(
                                self.tile_contents@.update(tex_index as int, buf@),
                            );
                            proof {
                                ok = ok.push(true);
                            }
                        },
                        Err(_) => {
                            proof {
                                ok = ok.push(false);
                            }
                        },
                    }
                    tex_index += 1;
                }
                proof {
                    assert((row_index as int) * (col_count as int) + (col_count as int) == ((
                    row_index as int) + 1) * (col_count as int)) by (nonlinear_arith);
                }
            }
            proof {
                assert(self.tile_contents@ =~= refresh_outcome(
                    prev,
                    g,
                    image.data@,
                    w as int,
                    h as int,
                    ok,
                ));
            }
        }
    }

    /// The logical image extents captured at build time.
    pub fn size(&self) -> (s: (u32, u32))
        ensures
            s == self.size_vec,
    {
        self.size_vec
    }

    /// The logical image width captured at build time.
    pub fn width(&self) -> (w: u32)
        ensures
            w == self.size_vec.0,
    {
        self.size_vec.0
    }

    /// The logical image height captured at build time.
    pub fn height(&self) -> (h: u32)
        ensures
            h == self.size_vec.1,
    {
        self.size_vec.1
    }

    /// Relies on notan's texture builder (`Graphics::create_texture`,
    /// `TextureBuilder::from_bytes` ... `build`): allocates a GPU texture
    /// from a row-major RGBA buffer, with mipmaps, linear minification and
    /// the chosen magnification filter; `Err` carries the failure reason.
    #[verifier::external_body]
    fn gen_texture_standard(
        gfx: &mut Graphics,
        bytes: &Vec<u8>,
        width: u32,
        height: u32,
        linear_mag_filter: bool,
    ) -> (r: Result<Texture, String>)
        requires
            bytes@.len() == 4 * (width as int) * (height as int),
            4 * (width as int) * (height as int) <= u32::MAX,
    {
        gfx.create_texture()
            .from_bytes(bytes, width, height)
            .with_mipmaps(true)
            .with_filter(
                TextureFilter::Linear,
                if linear_mag_filter {
                    TextureFilter::Linear
                } else {
                    TextureFilter::Nearest
                },
            )
            .build()
    }

    /// Relies on notan's texture builder as `gen_texture_standard` does,
    /// additionally asking the GPU layer (`with_premultiplied_alpha`) to
    /// premultiply the color channels by alpha during upload.
    #[verifier::external_body]
    fn gen_texture_premult(
        gfx: &mut Graphics,
        bytes: &Vec<u8>,
        width: u32,
        height: u32,
        linear_mag_filter: bool,
    ) -> (r: Result<Texture, String>)
        requires
            bytes@.len() == 4 * (width as int) * (height as int),
            4 * (width as int) * (height as int) <= u32::MAX,
    {
        gfx.create_texture()
            .from_bytes(bytes, width, height)
            .with_premultiplied_alpha()
            .with_mipmaps(true)
            .with_filter(
                TextureFilter::Linear,
                if linear_mag_filter {
                    TextureFilter::Linear
                } else {
                    TextureFilter::Nearest
                },
            )
            .build()
    }

    /// Relies on `Graphics::limits`: the maximum single-texture dimension
    /// the GPU context reports. Nothing is promised of the value; callers
    /// must check it.
    #[verifier::external_body]
    fn max_texture_size(gfx: &Graphics) -> (r: u32) {
        gfx.limits().max_texture_size
    }

    /// Relies on notan's texture updater (`Graphics::update_texture`,
    /// `TextureUpdater::with_data` ... `update`): replaces the pixel
    /// contents of the GPU texture at `index`. The updater writes GPU memory
    /// only and reads the handle's id, so the vector's elements are
    /// unchanged as Rust values.
    #[verifier::external_body]
    fn update_texture_bytes(
        gfx: &mut Graphics,
        textures: &mut Vec<Texture>,
        index: usize,
        bytes: &Vec<u8>,
    ) -> (r: Result<(), String>)
        requires
            index < old(textures)@.len(),
        ensures
            final(textures)@ == old(textures)@,
    {
        gfx.update_texture(&mut textures[index]).with_data(bytes).update()
    }
}

} // verus!
