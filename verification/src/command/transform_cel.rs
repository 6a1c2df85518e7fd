//! `TransformCel` command — flip or rotate the pixels of one image cel,
//! optionally restricted to a sprite-space rect (the selection).
//!
//! The cel is normalised to a canvas-sized buffer at `(0, 0)` first, so
//! trimmed cels from opened files behave like tool-created ones. The region
//! (the whole canvas when no rect is given) is reoriented about its own
//! centre; a quarter turn of a non-square region keeps what fits inside it.
//! `revert` restores the exact prior cel.
use vstd::prelude::*;

use super::dirty::DirtyRegion;
use super::error::CommandError;
use super::transform_support::{
    canvas_fits, canvas_px, cel_to_canvas, fits_canvas, raster_to_cel, reoriented_px, rgba_buffer,
    rgba_cel, Orientation,
};
use super::{cel_wf, CelsModel, Command};
use crate::document::cel::{pixel_at, CelDataModel, CelModel};
use crate::document::sprite::SpriteModel;
use crate::document::{Cel, CelMap, ColorMode, FrameIndex, LayerId, Sprite};
use crate::geometry::{rect_intersection, rect_is_empty, Rect};

verus! {

/// Reorient the pixels of the cel at `(layer, frame)`.
#[derive(Debug)]
pub struct TransformCel {
    pub layer: LayerId,
    pub frame: FrameIndex,
    pub op: Orientation,
    /// The sprite rect to reorient, or `None` for the whole canvas.
    pub region: Option<Rect>,
    /// The cel as it was before a successful `apply`.
    pub prior: Option<Cel>,
}

/// The sprite rect a transform of a `w × h` canvas works on: the whole
/// canvas, or `region` clipped to it.
pub open spec fn transform_area(region: Option<Rect>, w: u32, h: u32) -> Rect {
    let canvas = Rect { x: 0, y: 0, width: w, height: h };
    match region {
        Some(r) => rect_intersection(r, canvas),
        None => canvas,
    }
}

/// Why reorienting the cel at `(layer, frame)` fails, if it does.
pub open spec fn transform_cel_error(
    doc: SpriteModel,
    cels: CelsModel,
    layer: LayerId,
    frame: FrameIndex,
    region: Option<Rect>,
) -> Option<CommandError> {
    let key = (layer, frame);
    if !cels.contains_key(key) {
        Some(CommandError::MissingCel { layer, frame })
    } else if !rgba_cel(cels[key]) {
        Some(CommandError::NotAnImageCel { layer, frame })
    } else if rect_is_empty(transform_area(region, doc.width, doc.height)) {
        Some(CommandError::EmptyRegion)
    } else {
        None
    }
}

/// `out` is the cel `c` reoriented on a `w × h` canvas: a canvas-sized RGBA
/// image at the origin, fully opaque, whose pixels are those of `c` drawn on
/// the canvas with `area` reoriented by `op`.
pub open spec fn is_transformed_cel(
    c: CelModel,
    w: u32,
    h: u32,
    area: Rect,
    op: Orientation,
    out: CelModel,
) -> bool {
    &&& out.layer == c.layer
    &&& out.frame == c.frame
    &&& out.position == (0i32, 0i32)
    &&& out.opacity == 255
    &&& out.data is Image
    &&& out.data->Image_0.width == w
    &&& out.data->Image_0.height == h
    &&& out.data->Image_0.color_mode == ColorMode::Rgba
    &&& out.data->Image_0.data.len() == w * h * 4
    &&& forall|x: int, y: int|
        0 <= x < w && 0 <= y < h ==> #[trigger] pixel_at(out.data->Image_0.data, w as int, x, y)
            == reoriented_px(
            |px: int, py: int| canvas_px(c.position, c.data->Image_0, px, py),
            area,
            op,
            x,
            y,
        )
}

/// The cel [`is_transformed_cel`] describes: it is unique.
pub open spec fn transformed_cel(c: CelModel, w: u32, h: u32, area: Rect, op: Orientation) -> CelModel {
    choose|o: CelModel| is_transformed_cel(c, w, h, area, op, o)
}

/// [`transformed_cel`] names the one cel [`is_transformed_cel`] allows.
pub proof fn lemma_transformed_cel(c: CelModel, w: u32, h: u32, area: Rect, op: Orientation, o: CelModel)
    requires
        is_transformed_cel(c, w, h, area, op, o),
    ensures
        transformed_cel(c, w, h, area, op) == o,
{
    let m = transformed_cel(c, w, h, area, op);
    assert(is_transformed_cel(c, w, h, area, op, m));
    assert forall|x: int, y: int| 0 <= x < w && 0 <= y < h implies #[trigger] pixel_at(
        m.data->Image_0.data,
        w as int,
        x,
        y,
    ) == pixel_at(o.data->Image_0.data, w as int, x, y) by {}
    super::pixels::lemma_image_cel_unique(m, o, w as int, h as int);
}

impl TransformCel {
    /// Reorient the whole cel at `(layer, frame)` by `op`.
    pub fn new(layer: LayerId, frame: FrameIndex, op: Orientation) -> (c: Self)
        ensures
            c == (TransformCel { layer, frame, op, region: None, prior: None }),
    {
        TransformCel { layer, frame, op, region: None, prior: None }
    }

    /// Restrict the transform to `rect` (sprite space), leaving pixels
    /// outside it untouched.
    pub fn within(self, rect: Rect) -> (c: Self)
        ensures
            c == (TransformCel { region: Some(rect), ..self }),
    {
        TransformCel { region: Some(rect), ..self }
    }
}

impl Command for TransformCel {
    open spec fn fits(&self, doc: SpriteModel) -> bool {
        canvas_fits(doc.width, doc.height)
    }

    fn fits_doc(&self, doc: &Sprite) -> (b: bool) {
        fits_canvas(doc.width, doc.height)
    }

    open spec fn inv(&self) -> bool {
        match self.prior {
            Some(p) => cel_wf(p@),
            None => true,
        }
    }

    open spec fn ready(&self) -> bool {
        true
    }

    fn is_ready(&self) -> (b: bool) {
        true
    }

    open spec fn applied_on(&self, doc: SpriteModel, cels: CelsModel) -> bool {
        self.prior is Some
    }

    open spec fn reverted(&self, doc: SpriteModel, cels: CelsModel) -> (SpriteModel, CelsModel) {
        match self.prior {
            Some(p) => (doc, cels.insert((p.layer, p.frame), p@)),
            None => (doc, cels),
        }
    }

    open spec fn fails_with(&self, doc: SpriteModel, cels: CelsModel, e: CommandError) -> bool {
        transform_cel_error(doc, cels, self.layer, self.frame, self.region) == Some(e)
    }

    open spec fn outcome(&self, doc: SpriteModel, cels: CelsModel) -> (SpriteModel, CelsModel) {
        let key = (self.layer, self.frame);
        (
            doc,
            cels.insert(
                key,
                transformed_cel(
                    cels[key],
                    doc.width,
                    doc.height,
                    transform_area(self.region, doc.width, doc.height),
                    self.op,
                ),
            ),
        )
    }

    open spec fn reverts_to(&self, back: Self, doc: SpriteModel, cels: CelsModel) -> bool {
        back.layer == self.layer && back.frame == self.frame && back.op == self.op && back.region == self.region
    }

    open spec fn succeeds_on(&self, doc: SpriteModel, cels: CelsModel) -> bool {
        transform_cel_error(doc, cels, self.layer, self.frame, self.region) is None
    }

    fn apply(&mut self, doc: &mut Sprite, cels: &mut CelMap) -> (r: Result<(), CommandError>)
        ensures
            r is Err ==> *final(self) == *old(self),
            final(doc)@ == old(doc)@,
            match r {
                Ok(_) => {
                    let key = (old(self).layer, old(self).frame);
                    &&& transform_cel_error(
                        old(doc)@,
                        old(cels)@,
                        old(self).layer,
                        old(self).frame,
                        old(self).region,
                    ) is None
                    &&& final(cels)@ == old(cels)@.insert(key, final(cels)@[key])
                    &&& is_transformed_cel(
                        old(cels)@[key],
                        old(doc)@.width,
                        old(doc)@.height,
                        transform_area(old(self).region, old(doc)@.width, old(doc)@.height),
                        old(self).op,
                        final(cels)@[key],
                    )
                },
                Err(e) => transform_cel_error(
                    old(doc)@,
                    old(cels)@,
                    old(self).layer,
                    old(self).frame,
                    old(self).region,
                ) == Some(e),
            },
    {
        let layer = self.layer;
        let frame = self.frame;
        let ghost key = (layer, frame);
        let ghost c0 = cels@;
        let cel = match cels.get(layer, frame) {
            Some(c) => c,
            None => {
                return Err(CommandError::MissingCel { layer, frame });
            },
        };
        let buffer = match rgba_buffer(cel) {
            Some(b) => b,
            None => {
                return Err(CommandError::NotAnImageCel { layer, frame });
            },
        };
        let ghost b0 = buffer@;
        let ghost pos = cel.position;
        assert(cel_wf(c0[key]));
        let mut raster = cel_to_canvas(cel, buffer, doc.width, doc.height);
        let canvas = Rect::new(0, 0, doc.width, doc.height);
        let region = match self.region {
            Some(r) => r.intersect(canvas),
            None => canvas,
        };
        if region.is_empty() {
            return Err(CommandError::EmptyRegion);
        }
        let ghost r0 = raster;
        raster.orient_region(region, self.op);
        let ghost r1 = raster;
        let prior = match cels.remove(layer, frame) {
            Some(p) => p,
            None => {
                unreached()
            },
        };
        let out = raster_to_cel(layer, frame, raster);
        cels.insert(out);
        self.prior = Some(prior);
        proof {
            let w = doc.width;
            let h = doc.height;
            assert(rect_intersection(region, Rect { x: 0, y: 0, width: w, height: h }) == region);
            assert forall|x: int, y: int| 0 <= x < w && 0 <= y < h implies #[trigger] pixel_at(
                r1.data@,
                w as int,
                x,
                y,
            ) == reoriented_px(
                |px: int, py: int| canvas_px(pos, b0, px, py),
                region,
                self.op,
                x,
                y,
            ) by {
                assert(r1.px(x, y) == reoriented_px(
                    |px: int, py: int| r0.px(px, py),
                    region,
                    self.op,
                    x,
                    y,
                ));
            }
            assert(cels@ =~= c0.insert(key, cels@[key]));
            lemma_transformed_cel(
                c0[key],
                doc@.width,
                doc@.height,
                transform_area(self.region, doc@.width, doc@.height),
                self.op,
                cels@[key],
            );
        }
        Ok(())
    }

    fn revert(&mut self, _doc: &mut Sprite, cels: &mut CelMap)
        ensures
            forall|d: SpriteModel, c: CelsModel| #[trigger] final(self).reverted(d, c) == (d, c),
    {
        let prior = match self.prior.take() {
            Some(p) => p,
            None => {
                return ;
            },
        };
        cels.insert(prior);
    }

    open spec fn dirty(&self) -> DirtyRegion {
        match self.prior {
            None => DirtyRegion::NoChange,
            Some(_) => match self.region {
                Some(rect) => DirtyRegion::Layer { layer: self.layer, frame: self.frame, rect },
                None => DirtyRegion::Canvas,
            },
        }
    }

    fn dirty_region(&self) -> (d: DirtyRegion)
        ensures
            d == self.dirty(),
    {
        if self.prior.is_none() {
            return DirtyRegion::NoChange;
        }
        match self.region {
            Some(r) => DirtyRegion::layer_rect(self.layer, self.frame, r),
            None => DirtyRegion::Canvas,
        }
    }
}

} // verus!
