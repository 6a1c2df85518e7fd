//! Cels: per-(layer, frame) image or tilemap data, and the pixel buffers
//! behind image cels and tile images.
use vstd::prelude::*;

use super::color::Rgba;
use super::color_mode::{bpp, ColorMode};
use super::frame::FrameIndex;
use super::layer::LayerId;

verus! {

/// A buffer of pixel data backing an image cel or a tile image.
///
/// The byte layout depends on [`ColorMode`]:
/// - `Rgba`: 4 bytes per pixel (R, G, B, A) in row-major order
/// - `Indexed`: 1 byte per pixel, palette index
/// - `Grayscale`: 2 bytes per pixel (V, A)
#[derive(Debug, PartialEq, Eq)]
pub struct PixelBuffer {
    pub width: u32,
    pub height: u32,
    pub color_mode: ColorMode,
    pub data: Vec<u8>,
}

/// Model of a pixel buffer: dimensions, color mode and the bytes.
pub struct PixelBufferModel {
    pub width: u32,
    pub height: u32,
    pub color_mode: ColorMode,
    pub data: Seq<u8>,
}

impl View for PixelBuffer {
    type V = PixelBufferModel;

    open spec fn view(&self) -> PixelBufferModel {
        PixelBufferModel {
            width: self.width,
            height: self.height,
            color_mode: self.color_mode,
            data: self.data@,
        }
    }
}

/// `true` when the byte count matches `width * height * bytes_per_pixel`.
pub open spec fn buffer_wf(b: PixelBufferModel) -> bool {
    b.data.len() == b.width * b.height * bpp(b.color_mode)
}

/// `true` when the buffer is a well-formed RGBA buffer.
pub open spec fn rgba_wf(b: PixelBufferModel) -> bool {
    b.color_mode == ColorMode::Rgba && buffer_wf(b)
}

/// Byte offset of pixel `(x, y)` in a row-major RGBA buffer of width `w`.
pub open spec fn pixel_offset(w: int, x: int, y: int) -> int {
    (y * w + x) * 4
}

/// The RGBA pixel stored at `(x, y)`.
pub open spec fn pixel_at(data: Seq<u8>, w: int, x: int, y: int) -> Rgba {
    let o = pixel_offset(w, x, y);
    Rgba { r: data[o], g: data[o + 1], b: data[o + 2], a: data[o + 3] }
}

/// `data` with the pixel at `(x, y)` replaced by `c`.
pub open spec fn with_pixel(data: Seq<u8>, w: int, x: int, y: int, c: Rgba) -> Seq<u8> {
    let o = pixel_offset(w, x, y);
    data.update(o, c.r).update(o + 1, c.g).update(o + 2, c.b).update(o + 3, c.a)
}

/// Every in-range pixel address lands inside a well-formed RGBA buffer.
pub proof fn lemma_pixel_in_bounds(w: int, h: int, x: int, y: int)
    requires
        0 <= x < w,
        0 <= y < h,
    ensures
        0 <= pixel_offset(w, x, y),
        pixel_offset(w, x, y) + 4 <= w * h * 4,
{
    assert(0 <= y * w + x) by (nonlinear_arith)
        requires
            0 <= x < w,
            0 <= y < h,
    ;
    assert(y * w + x + 1 <= w * h) by (nonlinear_arith)
        requires
            0 <= x < w,
            0 <= y < h,
    ;
}

/// A `w × h` RGBA buffer is determined by its pixels.
pub proof fn lemma_pixels_determine(d1: Seq<u8>, d2: Seq<u8>, w: int, h: int)
    requires
        w >= 0,
        h >= 0,
        d1.len() == w * h * 4,
        d2.len() == w * h * 4,
        forall|x: int, y: int|
            0 <= x < w && 0 <= y < h ==> #[trigger] pixel_at(d1, w, x, y) == pixel_at(d2, w, x, y),
    ensures
        d1 == d2,
{
    assert forall|i: int| 0 <= i < d1.len() implies d1[i] == d2[i] by {
        let p = i / 4;
        let ch = i % 4;
        assert(w > 0 && h > 0) by (nonlinear_arith)
            requires
                d1.len() == w * h * 4,
                0 <= i < d1.len(),
                h >= 0,
                w >= 0,
        ;
        let x = p % w;
        let y = p / w;
        assert(p * 4 + ch == i && 0 <= ch < 4 && 0 <= p < w * h) by (nonlinear_arith)
            requires
                p == i / 4,
                ch == i % 4,
                0 <= i < w * h * 4,
        ;
        assert(y * w + x == p && 0 <= x < w) by (nonlinear_arith)
            requires
                x == p % w,
                y == p / w,
                w > 0,
                p >= 0,
        ;
        assert(0 <= y < h) by (nonlinear_arith)
            requires
                y * w + x == p,
                0 <= x < w,
                0 <= p < w * h,
                w > 0,
        ;
        assert(pixel_at(d1, w, x, y) == pixel_at(d2, w, x, y));
        assert(pixel_offset(w, x, y) == p * 4);
    }
    assert(d1 =~= d2);
}

/// Distinct pixels occupy disjoint byte ranges.
pub proof fn lemma_pixels_disjoint(w: int, x1: int, y1: int, x2: int, y2: int)
    requires
        0 <= x1 < w,
        0 <= x2 < w,
        0 <= y1,
        0 <= y2,
        x1 != x2 || y1 != y2,
    ensures
        pixel_offset(w, x1, y1) + 4 <= pixel_offset(w, x2, y2) || pixel_offset(w, x2, y2) + 4
            <= pixel_offset(w, x1, y1),
{
    assert(y1 * w + x1 != y2 * w + x2) by (nonlinear_arith)
        requires
            0 <= x1 < w,
            0 <= x2 < w,
            0 <= y1,
            0 <= y2,
            x1 != x2 || y1 != y2,
    ;
}

/// Writing a pixel and then writing back its former value restores the
/// bytes.
pub proof fn lemma_with_pixel_undo(data: Seq<u8>, w: int, x: int, y: int, c: Rgba)
    requires
        0 <= pixel_offset(w, x, y),
        pixel_offset(w, x, y) + 4 <= data.len(),
    ensures
        with_pixel(with_pixel(data, w, x, y, c), w, x, y, pixel_at(data, w, x, y)) == data,
        pixel_at(with_pixel(data, w, x, y, c), w, x, y) == c,
        with_pixel(data, w, x, y, c).len() == data.len(),
{
    assert(with_pixel(with_pixel(data, w, x, y, c), w, x, y, pixel_at(data, w, x, y)) =~= data);
}

impl Clone for PixelBuffer {
    fn clone(&self) -> (b: Self)
        ensures
            b@ == self@,
    {
        let data = self.data.clone();
        proof {
            assert(data@ =~= self.data@);
        }
        PixelBuffer { width: self.width, height: self.height, color_mode: self.color_mode, data }
    }
}

impl PixelBuffer {
    /// Allocate a transparent buffer of the given dimensions and color mode.
    pub fn empty(width: u32, height: u32, color_mode: ColorMode) -> (b: Self)
        requires
            width * height * bpp(color_mode) <= usize::MAX,
        ensures
            b.width == width,
            b.height == height,
            b.color_mode == color_mode,
            b.data@ == Seq::new((width * height * bpp(color_mode)) as nat, |i: int| 0u8),
            buffer_wf(b@),
    {
        let per = color_mode.bytes_per_pixel();
        assert(width * height <= width * height * per) by (nonlinear_arith)
            requires
                per >= 1,
        ;
        let bytes = (width as usize) * (height as usize) * per;
        let data = vec![0u8; bytes];
        proof {
            assert(data@ =~= Seq::new((width * height * bpp(color_mode)) as nat, |i: int| 0u8));
        }
        PixelBuffer { width, height, color_mode, data }
    }

    /// Bytes per pixel implied by the color mode.
    pub fn bytes_per_pixel(&self) -> (n: usize)
        ensures
            n == bpp(self.color_mode),
    {
        self.color_mode.bytes_per_pixel()
    }

    /// `true` if the buffer dimensions are consistent with `data.len()`.
    pub fn is_well_formed(&self) -> (b: bool)
        ensures
            b == buffer_wf(self@),
    {
        let per = self.bytes_per_pixel();
        let len = self.data.len();
        assert((self.width as u64) * (self.height as u64) <= u64::MAX) by (nonlinear_arith)
            requires
                self.width <= u32::MAX,
                self.height <= u32::MAX,
        ;
        let wh = (self.width as u64) * (self.height as u64);
        // A product past u64::MAX can never match an in-memory length.
        match wh.checked_mul(per as u64) {
            Some(n) => {
                assert(n == self.width * self.height * bpp(self.color_mode));
                len as u64 == n
            },
            None => false,
        }
    }

    /// The RGBA pixel at `(x, y)`.
    pub fn read_pixel(&self, x: u32, y: u32) -> (c: Rgba)
        requires
            buffer_wf(self@),
            self.color_mode == ColorMode::Rgba,
            x < self.width,
            y < self.height,
        ensures
            c == pixel_at(self.data@, self.width as int, x as int, y as int),
    {
        let _len = self.data.len();
        proof {
            lemma_pixel_in_bounds(self.width as int, self.height as int, x as int, y as int);
            assert(y * self.width <= y * self.width + x) by (nonlinear_arith)
                requires
                    x >= 0,
            ;
            assert(self.data@.len() == self.width * self.height * 4);
            assert((y * self.width + x) * 4 + 4 <= self.data@.len());
        }
        let off = ((y as usize) * (self.width as usize) + (x as usize)) * 4;
        Rgba {
            r: self.data[off],
            g: self.data[off + 1],
            b: self.data[off + 2],
            a: self.data[off + 3],
        }
    }

    /// Overwrite the RGBA pixel at `(x, y)` with `c`.
    pub fn write_pixel(&mut self, x: u32, y: u32, c: Rgba)
        requires
            buffer_wf(old(self)@),
            old(self).color_mode == ColorMode::Rgba,
            x < old(self).width,
            y < old(self).height,
        ensures
            final(self).width == old(self).width,
            final(self).height == old(self).height,
            final(self).color_mode == old(self).color_mode,
            final(self).data@ == with_pixel(
                old(self).data@,
                old(self).width as int,
                x as int,
                y as int,
                c,
            ),
            buffer_wf(final(self)@),
    {
        let _len = self.data.len();
        proof {
            lemma_pixel_in_bounds(self.width as int, self.height as int, x as int, y as int);
            assert(y * self.width <= y * self.width + x) by (nonlinear_arith)
                requires
                    x >= 0,
            ;
            assert(self.data@.len() == self.width * self.height * 4);
            assert((y * self.width + x) * 4 + 4 <= self.data@.len());
        }
        let off = ((y as usize) * (self.width as usize) + (x as usize)) * 4;
        self.data.set(off, c.r);
        self.data.set(off + 1, c.g);
        self.data.set(off + 2, c.b);
        self.data.set(off + 3, c.a);
    }
}

/// A reference to a tile inside a tileset, with optional flips and rotation.
#[derive(Debug, Clone, Copy, PartialEq, Eq, Structural)]
pub struct TileRef {
    pub tile_id: u32,
    pub flip_x: bool,
    pub flip_y: bool,
    pub rotate_90: bool,
}

/// The empty / transparent tile reference (tile id 0, no flips).
pub open spec fn empty_tile() -> TileRef {
    TileRef { tile_id: 0, flip_x: false, flip_y: false, rotate_90: false }
}

impl TileRef {
    /// The empty / transparent tile (Aseprite convention: tile id 0).
    pub fn empty() -> (t: TileRef)
        ensures
            t == empty_tile(),
    {
        TileRef { tile_id: 0, flip_x: false, flip_y: false, rotate_90: false }
    }

    pub fn new(tile_id: u32) -> (t: Self)
        ensures
            t == (TileRef { tile_id, flip_x: false, flip_y: false, rotate_90: false }),
    {
        TileRef { tile_id, flip_x: false, flip_y: false, rotate_90: false }
    }
}

/// The payload of a cel.
#[derive(Debug, PartialEq, Eq)]
pub enum CelData {
    /// A bitmap image at the cel's position.
    Image(PixelBuffer),
    /// A tile grid referencing a tileset bound to the parent layer.
    Tilemap { grid_w: u32, grid_h: u32, tiles: Vec<TileRef> },
    /// This cel reuses the data of another cel in the same layer at the
    /// referenced frame.
    Linked(FrameIndex),
}

/// Model of a cel payload.
pub enum CelDataModel {
    Image(PixelBufferModel),
    Tilemap { grid_w: u32, grid_h: u32, tiles: Seq<TileRef> },
    Linked(FrameIndex),
}

impl View for CelData {
    type V = CelDataModel;

    open spec fn view(&self) -> CelDataModel {
        match self {
            CelData::Image(b) => CelDataModel::Image(b@),
            CelData::Tilemap { grid_w, grid_h, tiles } => CelDataModel::Tilemap {
                grid_w: *grid_w,
                grid_h: *grid_h,
                tiles: tiles@,
            },
            CelData::Linked(f) => CelDataModel::Linked(*f),
        }
    }
}

impl Clone for CelData {
    fn clone(&self) -> (d: Self)
        ensures
            d@ == self@,
    {
        match self {
            CelData::Image(b) => CelData::Image(b.clone()),
            CelData::Tilemap { grid_w, grid_h, tiles } => {
                let t = tiles.clone();
                proof {
                    assert(t@ =~= tiles@);
                }
                CelData::Tilemap { grid_w: *grid_w, grid_h: *grid_h, tiles: t }
            },
            CelData::Linked(f) => CelData::Linked(*f),
        }
    }
}

/// A cel: data attached to a `(layer, frame)` pair.
#[derive(Debug, PartialEq, Eq)]
pub struct Cel {
    pub layer: LayerId,
    pub frame: FrameIndex,
    /// Top-left in sprite coordinates. May be off-canvas.
    pub position: (i32, i32),
    pub opacity: u8,
    pub data: CelData,
}

/// Model of a cel.
pub struct CelModel {
    pub layer: LayerId,
    pub frame: FrameIndex,
    pub position: (i32, i32),
    pub opacity: u8,
    pub data: CelDataModel,
}

impl View for Cel {
    type V = CelModel;

    open spec fn view(&self) -> CelModel {
        CelModel {
            layer: self.layer,
            frame: self.frame,
            position: self.position,
            opacity: self.opacity,
            data: self.data@,
        }
    }
}

impl Clone for Cel {
    fn clone(&self) -> (c: Self)
        ensures
            c@ == self@,
    {
        Cel {
            layer: self.layer,
            frame: self.frame,
            position: self.position,
            opacity: self.opacity,
            data: self.data.clone(),
        }
    }
}

impl Cel {
    /// Cel containing the given image buffer at the sprite origin.
    pub fn image(layer: LayerId, frame: FrameIndex, buffer: PixelBuffer) -> (c: Self)
        ensures
            c@ == (CelModel {
                layer,
                frame,
                position: (0, 0),
                opacity: 255,
                data: CelDataModel::Image(buffer@),
            }),
    {
        Cel { layer, frame, position: (0, 0), opacity: 255, data: CelData::Image(buffer) }
    }

    /// Cel containing a `grid_w × grid_h` tilemap of `TileRef::EMPTY`s at the
    /// sprite origin.
    pub fn tilemap(layer: LayerId, frame: FrameIndex, grid_w: u32, grid_h: u32) -> (c: Self)
        requires
            grid_w * grid_h <= usize::MAX,
        ensures
            c@ == (CelModel {
                layer,
                frame,
                position: (0, 0),
                opacity: 255,
                data: CelDataModel::Tilemap {
                    grid_w,
                    grid_h,
                    tiles: Seq::new((grid_w * grid_h) as nat, |i: int| empty_tile()),
                },
            }),
    {
        let tile_count = (grid_w as usize) * (grid_h as usize);
        let tiles = vec![TileRef::empty(); tile_count];
        proof {
            assert(tiles@ =~= Seq::new((grid_w * grid_h) as nat, |i: int| empty_tile()));
        }
        Cel {
            layer,
            frame,
            position: (0, 0),
            opacity: 255,
            data: CelData::Tilemap { grid_w, grid_h, tiles },
        }
    }
}

} // verus!
