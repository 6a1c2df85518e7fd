//! Shared machinery of the pixel-painting commands: locating the RGBA image
//! cel a command paints on, translating sprite coordinates into cel-local
//! ones, and the undo log of overwritten pixels.
use vstd::prelude::*;

use super::error::CommandError;
use super::{cel_wf, cels_wf, CelsModel};
use crate::document::cel::{
    lemma_pixel_in_bounds, lemma_with_pixel_undo, pixel_at, rgba_wf, with_pixel, CelDataModel,
    CelModel, PixelBufferModel,
};
use crate::document::{Cel, CelData, CelMap, ColorMode, FrameIndex, LayerId, PixelBuffer, Rgba};
use crate::geometry::{max_int, min_int, rect_has_point, Rect};

verus! {

/// A pixel overwritten by a command: its cel-local position and the value it
/// held before the write.
#[derive(Debug, Clone, Copy, PartialEq, Eq)]
pub struct PriorPixel {
    pub local_x: u32,
    pub local_y: u32,
    pub prior: Rgba,
}

/// The RGBA buffer of an image cel (arbitrary for other cels).
pub open spec fn image_buf(c: CelModel) -> PixelBufferModel {
    match c.data {
        CelDataModel::Image(b) => b,
        _ => arbitrary(),
    }
}

/// The cel holds a well-formed RGBA image.
pub open spec fn rgba_image(c: CelModel) -> bool {
    &&& c.data is Image
    &&& rgba_wf(image_buf(c))
}

/// Why painting on the cel at `(layer, frame)` is refused, if it is: the
/// cel is missing, is not an image, or is not RGBA.
pub open spec fn image_error(cels: CelsModel, layer: LayerId, frame: FrameIndex) -> Option<
    CommandError,
> {
    if !cels.contains_key((layer, frame)) {
        Some(CommandError::MissingCel { layer, frame })
    } else if !(cels[(layer, frame)].data is Image) {
        Some(CommandError::NotAnImageCel { layer, frame })
    } else if image_buf(cels[(layer, frame)]).color_mode != ColorMode::Rgba {
        Some(CommandError::UnsupportedColorMode)
    } else {
        None
    }
}

/// `cels` with the pixel bytes of the image cel at `key` replaced by `data`.
pub open spec fn with_image_data(cels: CelsModel, key: (LayerId, FrameIndex), data: Seq<u8>) -> CelsModel {
    let c = cels[key];
    cels.insert(
        key,
        CelModel { data: CelDataModel::Image(PixelBufferModel { data, ..image_buf(c) }), ..c },
    )
}

/// Sprite coordinates translated into a cel at `position`; `None` when the
/// difference leaves `i32` or is negative.
pub open spec fn local_of(sx: i32, sy: i32, position: (i32, i32)) -> Option<(u32, u32)> {
    let lx = sx - position.0;
    let ly = sy - position.1;
    if 0 <= lx <= i32::MAX && 0 <= ly <= i32::MAX {
        Some((lx as u32, ly as u32))
    } else {
        None
    }
}

/// Translate sprite coordinates into the cel-local space of a cel at
/// `position`.
pub fn local_coords(sprite_x: i32, sprite_y: i32, position: (i32, i32)) -> (r: Option<(u32, u32)>)
    ensures
        r == local_of(sprite_x, sprite_y, position),
{
    let lx = match sprite_x.checked_sub(position.0) {
        Some(v) => v,
        None => {
            return None;
        },
    };
    let ly = match sprite_y.checked_sub(position.1) {
        Some(v) => v,
        None => {
            return None;
        },
    };
    if lx < 0 || ly < 0 {
        return None;
    }
    Some((lx as u32, ly as u32))
}

/// Undo a log of writes on a `w × h` RGBA buffer: entries are restored last
/// first; entries outside the buffer are skipped.
pub open spec fn restore_log(data: Seq<u8>, w: u32, h: u32, log: Seq<PriorPixel>) -> Seq<u8>
    decreases log.len(),
{
    if log.len() == 0 {
        data
    } else {
        let e = log.last();
        let d1 = if e.local_x < w && e.local_y < h {
            with_pixel(data, w as int, e.local_x as int, e.local_y as int, e.prior)
        } else {
            data
        };
        restore_log(d1, w, h, log.drop_last())
    }
}

/// Logging a write of `c` at an in-range `(x, y)` together with the value it
/// replaces leaves what the log restores unchanged.
pub proof fn lemma_restore_push(
    data: Seq<u8>,
    w: u32,
    h: u32,
    log: Seq<PriorPixel>,
    x: u32,
    y: u32,
    c: Rgba,
)
    requires
        x < w,
        y < h,
        data.len() == w * h * 4,
    ensures
        restore_log(
            with_pixel(data, w as int, x as int, y as int, c),
            w,
            h,
            log.push(PriorPixel { local_x: x, local_y: y, prior: pixel_at(data, w as int, x as int, y as int) }),
        ) == restore_log(data, w, h, log),
{
    let e = PriorPixel { local_x: x, local_y: y, prior: pixel_at(data, w as int, x as int, y as int) };
    lemma_pixel_in_bounds(w as int, h as int, x as int, y as int);
    lemma_with_pixel_undo(data, w as int, x as int, y as int, c);
    assert(log.push(e).drop_last() =~= log);
}

/// Restoring a log keeps the length of the bytes.
pub proof fn lemma_restore_len(data: Seq<u8>, w: u32, h: u32, log: Seq<PriorPixel>)
    requires
        data.len() == w * h * 4,
    ensures
        restore_log(data, w, h, log).len() == data.len(),
    decreases log.len(),
{
    if log.len() > 0 {
        let e = log.last();
        if e.local_x < w && e.local_y < h {
            lemma_pixel_in_bounds(w as int, h as int, e.local_x as int, e.local_y as int);
            lemma_with_pixel_undo(data, w as int, e.local_x as int, e.local_y as int, e.prior);
            lemma_restore_len(
                with_pixel(data, w as int, e.local_x as int, e.local_y as int, e.prior),
                w,
                h,
                log.drop_last(),
            );
        } else {
            lemma_restore_len(data, w, h, log.drop_last());
        }
    }
}

/// Write `c` at `(x, y)` and log the value it replaces.
pub fn write_logged(buffer: &mut PixelBuffer, x: u32, y: u32, c: Rgba, log: &mut Vec<PriorPixel>)
    requires
        rgba_wf(old(buffer)@),
        x < old(buffer).width,
        y < old(buffer).height,
    ensures
        final(buffer).width == old(buffer).width,
        final(buffer).height == old(buffer).height,
        final(buffer).color_mode == old(buffer).color_mode,
        final(buffer).data@ == with_pixel(
            old(buffer).data@,
            old(buffer).width as int,
            x as int,
            y as int,
            c,
        ),
        final(log)@ == old(log)@.push(
            PriorPixel {
                local_x: x,
                local_y: y,
                prior: pixel_at(old(buffer).data@, old(buffer).width as int, x as int, y as int),
            },
        ),
        rgba_wf(final(buffer)@),
{
    let before = buffer.read_pixel(x, y);
    buffer.write_pixel(x, y, c);
    log.push(PriorPixel { local_x: x, local_y: y, prior: before });
}

/// Restore every logged pixel, last first, skipping entries that fall
/// outside the buffer.
pub fn restore_pixels(buffer: &mut PixelBuffer, log: &Vec<PriorPixel>)
    requires
        rgba_wf(old(buffer)@),
    ensures
        final(buffer).width == old(buffer).width,
        final(buffer).height == old(buffer).height,
        final(buffer).color_mode == old(buffer).color_mode,
        final(buffer).data@ == restore_log(
            old(buffer).data@,
            old(buffer).width,
            old(buffer).height,
            log@,
        ),
        rgba_wf(final(buffer)@),
{
    let mut i = log.len();
    let w = buffer.width;
    let h = buffer.height;
    let ghost d0 = buffer.data@;
    proof {
        assert(log@.take(i as int) =~= log@);
    }
    while i > 0
        invariant
            i <= log@.len(),
            buffer.width == w,
            buffer.height == h,
            buffer.color_mode == old(buffer).color_mode,
            w == old(buffer).width,
            h == old(buffer).height,
            rgba_wf(buffer@),
            restore_log(d0, w, h, log@) == restore_log(buffer.data@, w, h, log@.take(i as int)),
        decreases i,
    {
        i = i - 1;
        let e = log[i];
        let ghost before = buffer.data@;
        if e.local_x < w && e.local_y < h {
            buffer.write_pixel(e.local_x, e.local_y, e.prior);
        }
        proof {
            assert(log@.take(i + 1 as int).drop_last() =~= log@.take(i as int));
            assert(log@.take(i + 1 as int).last() == e);
        }
    }
}

/// The RGBA image cel at `(layer, frame)`, ready to be painted on, or why it
/// is refused.
pub fn image_target(cels: &mut CelMap, layer: LayerId, frame: FrameIndex) -> (r: Result<&mut Cel, CommandError>)
    requires
        old(cels).wf(),
        cels_wf(old(cels)@),
    ensures
        final(cels).wf(),
        match r {
            Ok(c) => image_error(old(cels)@, layer, frame) is None && c@ == old(cels)@[(layer, frame)]
                && rgba_image(c@) && final(cels)@ == old(cels)@.insert((layer, frame), final(c)@),
            Err(e) => image_error(old(cels)@, layer, frame) == Some(e) && final(cels)@ == old(cels)@,
        },
{
    let cel = match cels.get_mut(layer, frame) {
        Some(c) => c,
        None => {
            return Err(CommandError::MissingCel { layer, frame });
        },
    };
    proof {
        assert(cel_wf(old(cels)@[(layer, frame)]));
    }
    let is_rgba = match &cel.data {
        CelData::Image(b) => b.color_mode == ColorMode::Rgba,
        _ => {
            return Err(CommandError::NotAnImageCel { layer, frame });
        },
    };
    if !is_rgba {
        return Err(CommandError::UnsupportedColorMode);
    }
    Ok(cel)
}

/// The pixel buffer of an image cel.
pub fn image_mut(cel: &mut Cel) -> (b: &mut PixelBuffer)
    requires
        old(cel).data is Image,
    ensures
        b@ == image_buf(old(cel)@),
        final(cel)@ == (CelModel { data: CelDataModel::Image(final(b)@), ..old(cel)@ }),
{
    match &mut cel.data {
        CelData::Image(b) => b,
        _ => unreached(),
    }
}

/// Sprite point `(sx, sy)` lands inside a `w × h` cel at `position`.
pub open spec fn in_cel(sx: int, sy: int, position: (i32, i32), w: u32, h: u32) -> bool {
    &&& 0 <= sx - position.0 < w
    &&& 0 <= sy - position.1 < h
}

/// `data` is the buffer `b` with every pixel whose sprite position is
/// `covered` set to `c`, and every other pixel as it was.
pub open spec fn painted(
    b: PixelBufferModel,
    data: Seq<u8>,
    position: (i32, i32),
    covered: spec_fn(int, int) -> bool,
    c: Rgba,
) -> bool {
    &&& data.len() == b.data.len()
    &&& forall|x: int, y: int|
        0 <= x < b.width && 0 <= y < b.height ==> #[trigger] pixel_at(data, b.width as int, x, y)
            == if covered(x + position.0, y + position.1) {
            c
        } else {
            pixel_at(b.data, b.width as int, x, y)
        }
}

/// Writing one pixel changes that pixel and no other.
pub proof fn lemma_pixel_after_write(
    data: Seq<u8>,
    w: int,
    h: int,
    x: int,
    y: int,
    c: Rgba,
    x2: int,
    y2: int,
)
    requires
        0 <= x < w,
        0 <= y < h,
        0 <= x2 < w,
        0 <= y2 < h,
        data.len() == w * h * 4,
    ensures
        pixel_at(with_pixel(data, w, x, y, c), w, x2, y2) == if x == x2 && y == y2 {
            c
        } else {
            pixel_at(data, w, x2, y2)
        },
{
    lemma_pixel_in_bounds(w, h, x, y);
    lemma_pixel_in_bounds(w, h, x2, y2);
    if x != x2 || y != y2 {
        crate::document::cel::lemma_pixels_disjoint(w, x, y, x2, y2);
    }
}

/// Painting one more point extends the painted set by that point.
pub proof fn lemma_paint_step(
    b: PixelBufferModel,
    data: Seq<u8>,
    position: (i32, i32),
    covered: spec_fn(int, int) -> bool,
    c: Rgba,
    sx: int,
    sy: int,
    next: spec_fn(int, int) -> bool,
)
    requires
        rgba_wf(b),
        painted(b, data, position, covered, c),
        forall|x: int, y: int| #[trigger] next(x, y) == (covered(x, y) || (x == sx && y == sy)),
    ensures
        painted(
            b,
            if in_cel(sx, sy, position, b.width, b.height) {
                with_pixel(
                    data,
                    b.width as int,
                    sx - position.0,
                    sy - position.1,
                    c,
                )
            } else {
                data
            },
            position,
            next,
            c,
        ),
{
    let w = b.width as int;
    let h = b.height as int;
    let nd = if in_cel(sx, sy, position, b.width, b.height) {
        with_pixel(data, w, sx - position.0, sy - position.1, c)
    } else {
        data
    };
    if in_cel(sx, sy, position, b.width, b.height) {
        lemma_pixel_in_bounds(w, h, sx - position.0, sy - position.1);
        lemma_with_pixel_undo(data, w, sx - position.0, sy - position.1, c);
    }
    assert forall|x: int, y: int| 0 <= x < b.width && 0 <= y < b.height implies #[trigger] pixel_at(
        nd,
        w,
        x,
        y,
    ) == if next(x + position.0, y + position.1) {
        c
    } else {
        pixel_at(b.data, w, x, y)
    } by {
        assert(pixel_at(data, w, x, y) == if covered(x + position.0, y + position.1) {
            c
        } else {
            pixel_at(b.data, w, x, y)
        });
        if in_cel(sx, sy, position, b.width, b.height) {
            lemma_pixel_after_write(data, w, h, sx - position.0, sy - position.1, c, x, y);
        }
    }
}

/// Two descriptions of the same set give the same painted buffer.
pub proof fn lemma_painted_same_set(
    b: PixelBufferModel,
    data: Seq<u8>,
    position: (i32, i32),
    s1: spec_fn(int, int) -> bool,
    s2: spec_fn(int, int) -> bool,
    c: Rgba,
)
    requires
        painted(b, data, position, s1, c),
        forall|x: int, y: int| #[trigger] s1(x, y) == s2(x, y),
    ensures
        painted(b, data, position, s2, c),
{
    assert forall|x: int, y: int| 0 <= x < b.width && 0 <= y < b.height implies #[trigger] pixel_at(
        data,
        b.width as int,
        x,
        y,
    ) == if s2(x + position.0, y + position.1) {
        c
    } else {
        pixel_at(b.data, b.width as int, x, y)
    } by {
        assert(s1(x + position.0, y + position.1) == s2(x + position.0, y + position.1));
    }
}

/// Nothing painted yet: the buffer is unchanged.
pub proof fn lemma_painted_none(b: PixelBufferModel, position: (i32, i32), c: Rgba)
    ensures
        painted(b, b.data, position, |x: int, y: int| false, c),
{
}

/// Paint `c` at sprite point `(sx, sy)` if it lands in the cel at
/// `position`, logging the value it replaces.
pub fn paint_point(
    buffer: &mut PixelBuffer,
    position: (i32, i32),
    sx: i32,
    sy: i32,
    c: Rgba,
    log: &mut Vec<PriorPixel>,
)
    requires
        rgba_wf(old(buffer)@),
    ensures
        final(buffer).width == old(buffer).width,
        final(buffer).height == old(buffer).height,
        final(buffer).color_mode == old(buffer).color_mode,
        rgba_wf(final(buffer)@),
        final(buffer).data@ == if in_cel(
            sx as int,
            sy as int,
            position,
            old(buffer).width,
            old(buffer).height,
        ) {
            with_pixel(
                old(buffer).data@,
                old(buffer).width as int,
                sx - position.0,
                sy - position.1,
                c,
            )
        } else {
            old(buffer).data@
        },
        restore_log(final(buffer).data@, old(buffer).width, old(buffer).height, final(log)@)
            == restore_log(old(buffer).data@, old(buffer).width, old(buffer).height, old(log)@),
{
    let lx = sx as i64 - position.0 as i64;
    let ly = sy as i64 - position.1 as i64;
    if 0 <= lx && lx < buffer.width as i64 && 0 <= ly && ly < buffer.height as i64 {
        let ghost d0 = buffer.data@;
        let ghost l0 = log@;
        write_logged(buffer, lx as u32, ly as u32, c, log);
        proof {
            lemma_restore_push(d0, buffer.width, buffer.height, l0, lx as u32, ly as u32, c);
        }
    }
}

/// Two sets that agree on every point inside the cel paint the same buffer.
pub proof fn lemma_painted_agree(
    b: PixelBufferModel,
    data: Seq<u8>,
    position: (i32, i32),
    s1: spec_fn(int, int) -> bool,
    s2: spec_fn(int, int) -> bool,
    c: Rgba,
)
    requires
        painted(b, data, position, s1, c),
        forall|x: int, y: int|
            in_cel(x, y, position, b.width, b.height) ==> #[trigger] s1(x, y) == s2(x, y),
    ensures
        painted(b, data, position, s2, c),
{
    assert forall|x: int, y: int| 0 <= x < b.width && 0 <= y < b.height implies #[trigger] pixel_at(
        data,
        b.width as int,
        x,
        y,
    ) == if s2(x + position.0, y + position.1) {
        c
    } else {
        pixel_at(b.data, b.width as int, x, y)
    } by {
        assert(in_cel(x + position.0, y + position.1, position, b.width, b.height));
        assert(s1(x + position.0, y + position.1) == s2(x + position.0, y + position.1));
    }
}

/// Paint the sprite points `(x, y)` for `x_lo <= x <= x_hi` that land in
/// the cel, logging what they replace.
pub fn paint_hline(
    buffer: &mut PixelBuffer,
    position: (i32, i32),
    x_lo: i32,
    x_hi: i32,
    y: i32,
    c: Rgba,
    log: &mut Vec<PriorPixel>,
    Ghost(b0): Ghost<PixelBufferModel>,
    Ghost(cov): Ghost<spec_fn(int, int) -> bool>,
)
    requires
        rgba_wf(b0),
        old(buffer).width == b0.width,
        old(buffer).height == b0.height,
        old(buffer).color_mode == b0.color_mode,
        painted(b0, old(buffer).data@, position, cov, c),
        restore_log(old(buffer).data@, b0.width, b0.height, old(log)@) == b0.data,
    ensures
        final(buffer).width == b0.width,
        final(buffer).height == b0.height,
        final(buffer).color_mode == b0.color_mode,
        rgba_wf(final(buffer)@),
        painted(
            b0,
            final(buffer).data@,
            position,
            |px: int, py: int| cov(px, py) || (py == y && x_lo <= px <= x_hi),
            c,
        ),
        restore_log(final(buffer).data@, b0.width, b0.height, final(log)@) == b0.data,
{
    let ghost target = |px: int, py: int| cov(px, py) || (py == y && x_lo <= px <= x_hi);
    let ly = y as i64 - position.1 as i64;
    if ly < 0 || ly >= buffer.height as i64 || buffer.width == 0 {
        proof {
            lemma_painted_agree(b0, buffer.data@, position, cov, target, c);
        }
        return ;
    }
    let cel_lo = position.0 as i64;
    let cel_hi = position.0 as i64 + buffer.width as i64 - 1;
    let lo: i64 = if (x_lo as i64) < cel_lo {
        cel_lo
    } else {
        x_lo as i64
    };
    let hi: i64 = if (x_hi as i64) > cel_hi {
        cel_hi
    } else {
        x_hi as i64
    };
    let mut xc: i64 = lo;
    proof {
        lemma_painted_agree(
            b0,
            buffer.data@,
            position,
            cov,
            |px: int, py: int| cov(px, py) || (py == y && x_lo <= px <= x_hi && px < lo),
            c,
        );
    }
    while xc <= hi
        invariant
            lo <= xc <= hi + 1 || (xc == lo && lo > hi),
            x_lo <= lo,
            hi <= x_hi,
            cel_lo <= lo,
            hi <= cel_hi,
            cel_lo == position.0,
            cel_hi == position.0 + b0.width - 1,
            rgba_wf(b0),
            buffer.width == b0.width,
            buffer.height == b0.height,
            buffer.color_mode == b0.color_mode,
            rgba_wf(buffer@),
            painted(
                b0,
                buffer.data@,
                position,
                |px: int, py: int| cov(px, py) || (py == y && x_lo <= px <= x_hi && px < xc),
                c,
            ),
            restore_log(buffer.data@, b0.width, b0.height, log@) == b0.data,
        decreases hi + 1 - xc,
    {
        let ghost d = buffer.data@;
        paint_point(buffer, position, xc as i32, y, c, log);
        proof {
            lemma_paint_step(
                b0,
                d,
                position,
                |px: int, py: int| cov(px, py) || (py == y && x_lo <= px <= x_hi && px < xc),
                c,
                xc as int,
                y as int,
                |px: int, py: int| cov(px, py) || (py == y && x_lo <= px <= x_hi && px < xc + 1),
            );
        }
        xc = xc + 1;
    }
    proof {
        lemma_painted_agree(
            b0,
            buffer.data@,
            position,
            |px: int, py: int| cov(px, py) || (py == y && x_lo <= px <= x_hi && px < xc),
            target,
            c,
        );
    }
}

/// Paint the sprite points `(x, y)` for `y_lo <= y <= y_hi` that land in
/// the cel, logging what they replace.
pub fn paint_vline(
    buffer: &mut PixelBuffer,
    position: (i32, i32),
    x: i32,
    y_lo: i32,
    y_hi: i32,
    c: Rgba,
    log: &mut Vec<PriorPixel>,
    Ghost(b0): Ghost<PixelBufferModel>,
    Ghost(cov): Ghost<spec_fn(int, int) -> bool>,
)
    requires
        rgba_wf(b0),
        old(buffer).width == b0.width,
        old(buffer).height == b0.height,
        old(buffer).color_mode == b0.color_mode,
        painted(b0, old(buffer).data@, position, cov, c),
        restore_log(old(buffer).data@, b0.width, b0.height, old(log)@) == b0.data,
    ensures
        final(buffer).width == b0.width,
        final(buffer).height == b0.height,
        final(buffer).color_mode == b0.color_mode,
        rgba_wf(final(buffer)@),
        painted(
            b0,
            final(buffer).data@,
            position,
            |px: int, py: int| cov(px, py) || (px == x && y_lo <= py <= y_hi),
            c,
        ),
        restore_log(final(buffer).data@, b0.width, b0.height, final(log)@) == b0.data,
{
    let ghost target = |px: int, py: int| cov(px, py) || (px == x && y_lo <= py <= y_hi);
    let lx = x as i64 - position.0 as i64;
    if lx < 0 || lx >= buffer.width as i64 || buffer.height == 0 {
        proof {
            lemma_painted_agree(b0, buffer.data@, position, cov, target, c);
        }
        return ;
    }
    let cel_lo = position.1 as i64;
    let cel_hi = position.1 as i64 + buffer.height as i64 - 1;
    let lo: i64 = if (y_lo as i64) < cel_lo {
        cel_lo
    } else {
        y_lo as i64
    };
    let hi: i64 = if (y_hi as i64) > cel_hi {
        cel_hi
    } else {
        y_hi as i64
    };
    let mut yc: i64 = lo;
    proof {
        lemma_painted_agree(
            b0,
            buffer.data@,
            position,
            cov,
            |px: int, py: int| cov(px, py) || (px == x && y_lo <= py <= y_hi && py < lo),
            c,
        );
    }
    while yc <= hi
        invariant
            lo <= yc <= hi + 1 || (yc == lo && lo > hi),
            y_lo <= lo,
            hi <= y_hi,
            cel_lo <= lo,
            hi <= cel_hi,
            cel_lo == position.1,
            cel_hi == position.1 + b0.height - 1,
            rgba_wf(b0),
            buffer.width == b0.width,
            buffer.height == b0.height,
            buffer.color_mode == b0.color_mode,
            rgba_wf(buffer@),
            painted(
                b0,
                buffer.data@,
                position,
                |px: int, py: int| cov(px, py) || (px == x && y_lo <= py <= y_hi && py < yc),
                c,
            ),
            restore_log(buffer.data@, b0.width, b0.height, log@) == b0.data,
        decreases hi + 1 - yc,
    {
        let ghost d = buffer.data@;
        paint_point(buffer, position, x, yc as i32, c, log);
        proof {
            lemma_paint_step(
                b0,
                d,
                position,
                |px: int, py: int| cov(px, py) || (px == x && y_lo <= py <= y_hi && py < yc),
                c,
                x as int,
                yc as int,
                |px: int, py: int| cov(px, py) || (px == x && y_lo <= py <= y_hi && py < yc + 1),
            );
        }
        yc = yc + 1;
    }
    proof {
        lemma_painted_agree(
            b0,
            buffer.data@,
            position,
            |px: int, py: int| cov(px, py) || (px == x && y_lo <= py <= y_hi && py < yc),
            target,
            c,
        );
    }
}

/// After a logged paint on the cel at `key`: the cels are the old ones with
/// that cel's pixels replaced, and the new pixels are the old buffer with
/// the `covered` sprite points set to `c`.
pub open spec fn paint_outcome(
    old: CelsModel,
    new: CelsModel,
    key: (LayerId, FrameIndex),
    covered: spec_fn(int, int) -> bool,
    c: Rgba,
) -> bool {
    let c0 = old[key];
    let nd = image_buf(new[key]).data;
    &&& new == with_image_data(old, key, nd)
    &&& painted(image_buf(c0), nd, c0.position, covered, c)
}

/// The cels after painting `c` over the covered points of the image cel at
/// `key`, as [`paint_outcome`] describes them.
pub open spec fn painted_cels(
    cels: CelsModel,
    key: (LayerId, FrameIndex),
    covered: spec_fn(int, int) -> bool,
    c: Rgba,
) -> CelsModel {
    choose|n: CelsModel| paint_outcome(cels, n, key, covered, c)
}

/// A paint outcome on a well-formed RGBA cel is unique, so
/// [`painted_cels`] names it.
pub proof fn lemma_painted_cels(
    cels: CelsModel,
    n: CelsModel,
    key: (LayerId, FrameIndex),
    covered: spec_fn(int, int) -> bool,
    c: Rgba,
)
    requires
        rgba_wf(image_buf(cels[key])),
        paint_outcome(cels, n, key, covered, c),
    ensures
        painted_cels(cels, key, covered, c) == n,
{
    let m = painted_cels(cels, key, covered, c);
    assert(paint_outcome(cels, m, key, covered, c));
    let c0 = cels[key];
    let b = image_buf(c0);
    let dm = image_buf(m[key]).data;
    let dn = image_buf(n[key]).data;
    assert forall|x: int, y: int| 0 <= x < b.width && 0 <= y < b.height implies #[trigger] pixel_at(
        dm,
        b.width as int,
        x,
        y,
    ) == pixel_at(dn, b.width as int, x, y) by {
        assert(pixel_at(dm, b.width as int, x, y) == if covered(x + c0.position.0, y + c0.position.1) {
            c
        } else {
            pixel_at(b.data, b.width as int, x, y)
        });
        assert(pixel_at(dn, b.width as int, x, y) == if covered(x + c0.position.0, y + c0.position.1) {
            c
        } else {
            pixel_at(b.data, b.width as int, x, y)
        });
    }
    crate::document::cel::lemma_pixels_determine(dm, dn, b.width as int, b.height as int);
}

/// Two image cels that agree on every field but their bytes, whose `w × h`
/// RGBA buffers agree on every pixel, are equal.
pub proof fn lemma_image_cel_unique(a: CelModel, b: CelModel, w: int, h: int)
    requires
        a.layer == b.layer,
        a.frame == b.frame,
        a.position == b.position,
        a.opacity == b.opacity,
        a.data is Image,
        b.data is Image,
        a.data->Image_0.width == b.data->Image_0.width,
        a.data->Image_0.height == b.data->Image_0.height,
        a.data->Image_0.color_mode == b.data->Image_0.color_mode,
        w >= 0,
        h >= 0,
        a.data->Image_0.data.len() == w * h * 4,
        b.data->Image_0.data.len() == w * h * 4,
        forall|x: int, y: int|
            0 <= x < w && 0 <= y < h ==> #[trigger] pixel_at(a.data->Image_0.data, w, x, y)
                == pixel_at(b.data->Image_0.data, w, x, y),
    ensures
        a == b,
{
    crate::document::cel::lemma_pixels_determine(a.data->Image_0.data, b.data->Image_0.data, w, h);
    assert(a.data->Image_0 == b.data->Image_0);
}

/// What reverting a logged paint does to the cels: the logged pixels of the
/// cel at `key` get their prior values back, last first.
pub open spec fn logged_reverted(
    cels: CelsModel,
    key: (LayerId, FrameIndex),
    previous: Option<Vec<PriorPixel>>,
) -> CelsModel {
    match previous {
        Some(log) => if image_error(cels, key.0, key.1) is None {
            let b = image_buf(cels[key]);
            with_image_data(cels, key, restore_log(b.data, b.width, b.height, log@))
        } else {
            cels
        },
        None => cels,
    }
}

/// Put back the pixels of a paint log on the RGBA image cel at
/// `(layer, frame)`; nothing happens when that cel is gone or changed kind.
pub fn revert_logged(cels: &mut CelMap, layer: LayerId, frame: FrameIndex, log: &Vec<PriorPixel>)
    requires
        old(cels).wf(),
        cels_wf(old(cels)@),
    ensures
        final(cels).wf(),
        cels_wf(final(cels)@),
        final(cels)@ == if image_error(old(cels)@, layer, frame) is None {
            let b = image_buf(old(cels)@[(layer, frame)]);
            with_image_data(
                old(cels)@,
                (layer, frame),
                restore_log(b.data, b.width, b.height, log@),
            )
        } else {
            old(cels)@
        },
{
    let ghost c0 = cels@;
    match image_target(cels, layer, frame) {
        Ok(cel) => {
            let buffer = image_mut(cel);
            restore_pixels(buffer, log);
        },
        Err(_) => {},
    }
    proof {
        if image_error(c0, layer, frame) is None {
            let key = (layer, frame);
            assert(cel_wf(cels@[key]));
            assert forall|k: (LayerId, FrameIndex)| #[trigger] cels@.contains_key(k) implies cel_wf(
                cels@[k],
            ) by {
                if k != key {
                    assert(cel_wf(c0[k]));
                }
            }
        }
    }
}

/// Writing a pixel's own value back changes nothing.
pub proof fn lemma_with_pixel_same(data: Seq<u8>, w: int, h: int, x: int, y: int)
    requires
        0 <= x < w,
        0 <= y < h,
        data.len() == w * h * 4,
    ensures
        with_pixel(data, w, x, y, pixel_at(data, w, x, y)) == data,
{
    lemma_pixel_in_bounds(w, h, x, y);
    assert(with_pixel(data, w, x, y, pixel_at(data, w, x, y)) =~= data);
}

/// The number of cel-local pixels `lo <= x < hi` of row `y` whose color is
/// not `c`.
pub open spec fn row_differs(data: Seq<u8>, w: int, y: int, lo: int, hi: int, c: Rgba) -> nat
    decreases hi - lo,
{
    if hi <= lo {
        0
    } else {
        row_differs(data, w, y, lo, hi - 1, c) + if pixel_at(data, w, hi - 1, y) != c {
            1nat
        } else {
            0nat
        }
    }
}

/// The number of cel-local pixels in `[x0, x1) × [y0, y1)` whose color is
/// not `c`.
pub open spec fn area_differs(data: Seq<u8>, w: int, x0: int, x1: int, y0: int, y1: int, c: Rgba) -> nat
    decreases y1 - y0,
{
    if y1 <= y0 {
        0
    } else {
        area_differs(data, w, x0, x1, y0, y1 - 1, c) + row_differs(data, w, y1 - 1, x0, x1, c)
    }
}

/// Rows that agree on `[lo, hi)` count the same pixels.
pub proof fn lemma_row_differs_agree(
    d1: Seq<u8>,
    d2: Seq<u8>,
    w: int,
    y: int,
    lo: int,
    hi: int,
    c: Rgba,
)
    requires
        forall|x: int| lo <= x < hi ==> pixel_at(d1, w, x, y) == pixel_at(d2, w, x, y),
    ensures
        row_differs(d1, w, y, lo, hi, c) == row_differs(d2, w, y, lo, hi, c),
    decreases hi - lo,
{
    if hi > lo {
        lemma_row_differs_agree(d1, d2, w, y, lo, hi - 1, c);
        assert(pixel_at(d1, w, hi - 1, y) == pixel_at(d2, w, hi - 1, y));
    }
}

/// Paint `c` at cel-local `(lx, ly)`, logging the value it replaces. With
/// `skip_same`, a pixel that already holds `c` is left alone and not logged.
pub fn paint_local(
    buffer: &mut PixelBuffer,
    lx: u32,
    ly: u32,
    c: Rgba,
    skip_same: bool,
    log: &mut Vec<PriorPixel>,
)
    requires
        rgba_wf(old(buffer)@),
        lx < old(buffer).width,
        ly < old(buffer).height,
    ensures
        final(buffer).width == old(buffer).width,
        final(buffer).height == old(buffer).height,
        final(buffer).color_mode == old(buffer).color_mode,
        rgba_wf(final(buffer)@),
        final(buffer).data@ == with_pixel(
            old(buffer).data@,
            old(buffer).width as int,
            lx as int,
            ly as int,
            c,
        ),
        restore_log(final(buffer).data@, old(buffer).width, old(buffer).height, final(log)@)
            == restore_log(old(buffer).data@, old(buffer).width, old(buffer).height, old(log)@),
        final(log)@.len() == old(log)@.len() + (if skip_same && pixel_at(
            old(buffer).data@,
            old(buffer).width as int,
            lx as int,
            ly as int,
        ) == c {
            0int
        } else {
            1int
        }),
{
    let ghost d0 = buffer.data@;
    let ghost l0 = log@;
    let before = buffer.read_pixel(lx, ly);
    if skip_same && before.r == c.r && before.g == c.g && before.b == c.b && before.a == c.a {
        proof {
            lemma_with_pixel_same(d0, buffer.width as int, buffer.height as int, lx as int, ly as int);
        }
        return ;
    }
    write_logged(buffer, lx, ly, c, log);
    proof {
        lemma_restore_push(d0, buffer.width, buffer.height, l0, lx, ly, c);
    }
}

/// Paint the cel-local pixels `lo <= x < hi` of row `ly`, logging what they
/// replace (see [`paint_local`] for `skip_same`).
pub fn paint_local_row(
    buffer: &mut PixelBuffer,
    position: (i32, i32),
    lo: u32,
    hi: u32,
    ly: u32,
    c: Rgba,
    skip_same: bool,
    log: &mut Vec<PriorPixel>,
    Ghost(b0): Ghost<PixelBufferModel>,
    Ghost(cov): Ghost<spec_fn(int, int) -> bool>,
)
    requires
        rgba_wf(b0),
        old(buffer).width == b0.width,
        old(buffer).height == b0.height,
        old(buffer).color_mode == b0.color_mode,
        lo <= hi <= b0.width,
        ly < b0.height,
        painted(b0, old(buffer).data@, position, cov, c),
        restore_log(old(buffer).data@, b0.width, b0.height, old(log)@) == b0.data,
    ensures
        final(buffer).width == b0.width,
        final(buffer).height == b0.height,
        final(buffer).color_mode == b0.color_mode,
        rgba_wf(final(buffer)@),
        painted(
            b0,
            final(buffer).data@,
            position,
            |px: int, py: int|
                cov(px, py) || (py == ly + position.1 && lo + position.0 <= px < hi + position.0),
            c,
        ),
        restore_log(final(buffer).data@, b0.width, b0.height, final(log)@) == b0.data,
        final(log)@.len() >= old(log)@.len(),
        final(log)@.len() <= old(log)@.len() + (hi - lo),
        !skip_same ==> final(log)@.len() == old(log)@.len() + (hi - lo),
        skip_same ==> final(log)@.len() == old(log)@.len() + row_differs(
            old(buffer).data@,
            b0.width as int,
            ly as int,
            lo as int,
            hi as int,
            c,
        ),
{
    let mut lx = lo;
    let ghost l0 = log@.len();
    let ghost d_in = buffer.data@;
    while lx < hi
        invariant
            lo <= lx <= hi <= b0.width,
            ly < b0.height,
            rgba_wf(b0),
            buffer.width == b0.width,
            buffer.height == b0.height,
            buffer.color_mode == b0.color_mode,
            rgba_wf(buffer@),
            painted(
                b0,
                buffer.data@,
                position,
                |px: int, py: int|
                    cov(px, py) || (py == ly + position.1 && lo + position.0 <= px < lx
                        + position.0),
                c,
            ),
            restore_log(buffer.data@, b0.width, b0.height, log@) == b0.data,
            l0 <= log@.len() <= l0 + (lx - lo),
            !skip_same ==> log@.len() == l0 + (lx - lo),
            skip_same ==> log@.len() == l0 + row_differs(d_in, b0.width as int, ly as int, lo as int, lx as int, c),
            d_in.len() == b0.width * b0.height * 4,
            forall|x: int|
                lx <= x < hi ==> #[trigger] pixel_at(buffer.data@, b0.width as int, x, ly as int)
                    == pixel_at(d_in, b0.width as int, x, ly as int),
        decreases hi - lx,
    {
        let ghost d = buffer.data@;
        assert(pixel_at(d, b0.width as int, lx as int, ly as int) == pixel_at(d_in, b0.width as int, lx as int, ly as int));
        paint_local(buffer, lx, ly, c, skip_same, log);
        proof {
            assert forall|x: int| lx + 1 <= x < hi implies #[trigger] pixel_at(buffer.data@, b0.width as int, x, ly as int)
                == pixel_at(d_in, b0.width as int, x, ly as int) by {
                lemma_pixel_after_write(d, b0.width as int, b0.height as int, lx as int, ly as int, c, x, ly as int);
                assert(pixel_at(d, b0.width as int, x, ly as int) == pixel_at(d_in, b0.width as int, x, ly as int));
            }
            lemma_paint_step(
                b0,
                d,
                position,
                |px: int, py: int|
                    cov(px, py) || (py == ly + position.1 && lo + position.0 <= px < lx
                        + position.0),
                c,
                lx + position.0,
                ly + position.1,
                |px: int, py: int|
                    cov(px, py) || (py == ly + position.1 && lo + position.0 <= px < lx + 1
                        + position.0),
            );
        }
        lx = lx + 1;
    }
}

/// The cel-local rectangle `(x, y, w, h)` where `rect` overlaps a
/// `cel_w × cel_h` cel at `cel_pos`, or `None` when they do not overlap.
pub fn intersect_with_cel(rect: Rect, cel_pos: (i32, i32), cel_w: u32, cel_h: u32) -> (r: Option<
    (u32, u32, u32, u32),
>)
    ensures
        match r {
            Some((x, y, w, h)) => {
                &&& w > 0 && h > 0
                &&& x + w <= cel_w && y + h <= cel_h
                &&& x + cel_pos.0 == max_int(rect.x as int, cel_pos.0 as int)
                &&& y + cel_pos.1 == max_int(rect.y as int, cel_pos.1 as int)
                &&& x + w + cel_pos.0 == min_int(rect.x + rect.width, cel_pos.0 + cel_w)
                &&& y + h + cel_pos.1 == min_int(rect.y + rect.height, cel_pos.1 + cel_h)
                &&& forall|px: int, py: int|
                    0 <= px < cel_w && 0 <= py < cel_h ==> (#[trigger] rect_has_point(
                        rect,
                        px + cel_pos.0,
                        py + cel_pos.1,
                    ) <==> (x <= px < x + w && y <= py < y + h))
            },
            None => {
                &&& (max_int(rect.x as int, cel_pos.0 as int) >= min_int(
                    rect.x + rect.width,
                    cel_pos.0 + cel_w,
                ) || max_int(rect.y as int, cel_pos.1 as int) >= min_int(
                    rect.y + rect.height,
                    cel_pos.1 + cel_h,
                ))
                &&& forall|px: int, py: int|
                    0 <= px < cel_w && 0 <= py < cel_h ==> !#[trigger] rect_has_point(
                        rect,
                        px + cel_pos.0,
                        py + cel_pos.1,
                    )
            },
        },
{
    let cel_min_x = cel_pos.0 as i64;
    let cel_min_y = cel_pos.1 as i64;
    let cel_max_x = cel_min_x + cel_w as i64;
    let cel_max_y = cel_min_y + cel_h as i64;
    let r_min_x = rect.x as i64;
    let r_min_y = rect.y as i64;
    let r_max_x = r_min_x + rect.width as i64;
    let r_max_y = r_min_y + rect.height as i64;
    let lo_x = if r_min_x > cel_min_x {
        r_min_x
    } else {
        cel_min_x
    };
    let lo_y = if r_min_y > cel_min_y {
        r_min_y
    } else {
        cel_min_y
    };
    let hi_x = if r_max_x < cel_max_x {
        r_max_x
    } else {
        cel_max_x
    };
    let hi_y = if r_max_y < cel_max_y {
        r_max_y
    } else {
        cel_max_y
    };
    if lo_x >= hi_x || lo_y >= hi_y {
        return None;
    }
    Some(
        (
            (lo_x - cel_min_x) as u32,
            (lo_y - cel_min_y) as u32,
            (hi_x - lo_x) as u32,
            (hi_y - lo_y) as u32,
        ),
    )
}

} // verus!
