//! `TransformCanvas` command — flip or rotate the whole sprite: every image
//! cel on every frame, the slice keys, and (for quarter turns) the canvas
//! dimensions.
//!
//! Tilemap cels cannot be reoriented without rewriting their tile grid, so
//! a document with a tilemap layer is rejected. The selection is cleared.
//! `revert` restores the prior cel map, slices and dimensions wholesale.
use vstd::prelude::*;

use super::error::CommandError;
use super::transform_support::{
    canvas_fits, canvas_px, cel_to_canvas, fits_canvas, orient_from, orient_point, orient_rect,
    oriented_h, oriented_point, oriented_rect, oriented_w, raster_to_cel, rgba_buffer, rgba_cel,
    swaps, Orientation,
};
use super::{cel_wf, cels_wf, CelsModel, Command};
use crate::document::cel::{pixel_at, rgba_wf, CelModel};
use crate::document::cel_map::{has_key, key_lt, CelKey};
use crate::document::layer::LayerModel;
use crate::document::slice::{SliceKey, SliceModel};
use crate::document::sprite::SpriteModel;
use crate::document::{Cel, CelMap, ColorMode, LayerKind, Slice, Sprite};
use crate::geometry::Rect;

verus! {

/// Reorient the entire sprite.
#[derive(Debug)]
pub struct TransformCanvas {
    pub op: Orientation,
    /// What a successful `apply` replaced.
    pub prior: Option<Prior>,
}

/// What a whole-canvas edit replaced: the canvas size, every cel, the
/// slices and the selection.
#[derive(Debug)]
pub struct Prior {
    pub width: u32,
    pub height: u32,
    pub cels: CelMap,
    pub slices: Vec<Slice>,
    pub selection: Option<Rect>,
}

/// The first tilemap layer of `layers` is at `i`.
pub open spec fn first_tilemap_at(layers: Seq<LayerModel>, i: int) -> bool {
    &&& 0 <= i < layers.len()
    &&& layers[i].kind is Tilemap
    &&& forall|j: int| 0 <= j < i ==> !((#[trigger] layers[j]).kind is Tilemap)
}

/// The first cel in key order that is not an RGBA image has key `k`.
pub open spec fn first_non_rgba_at(cels: CelsModel, k: CelKey) -> bool {
    &&& cels.contains_key(k)
    &&& !rgba_cel(cels[k])
    &&& forall|k2: CelKey| #[trigger] cels.contains_key(k2) && key_lt(k2, k) ==> rgba_cel(cels[k2])
}

/// Why an edit that re-renders every cel of the sprite as an RGBA image is
/// refused, if it is: the first tilemap layer, else the first cel (in key
/// order) that is not an RGBA image.
pub open spec fn canvas_edit_error(doc: SpriteModel, cels: CelsModel) -> Option<CommandError> {
    if exists|i: int| first_tilemap_at(doc.layers, i) {
        let i = choose|i: int| first_tilemap_at(doc.layers, i);
        Some(CommandError::UnsupportedLayerKind(doc.layers[i].id.0))
    } else if exists|k: CelKey| first_non_rgba_at(cels, k) {
        let k = choose|k: CelKey| first_non_rgba_at(cels, k);
        Some(CommandError::NotAnImageCel { layer: k.0, frame: k.1 })
    } else {
        None
    }
}

/// `out` is the image cel `c` of a `w × h` canvas reoriented by `op`: a
/// canvas-sized RGBA image at the origin that keeps `c`'s opacity, whose
/// pixel `(nx, ny)` is the canvas pixel of `c` that lands there.
pub open spec fn is_oriented_cel(c: CelModel, w: u32, h: u32, op: Orientation, out: CelModel) -> bool {
    let ow = oriented_w(op, w as int, h as int);
    let oh = oriented_h(op, w as int, h as int);
    &&& out.layer == c.layer
    &&& out.frame == c.frame
    &&& out.position == (0i32, 0i32)
    &&& out.opacity == c.opacity
    &&& out.data is Image
    &&& out.data->Image_0.width == ow
    &&& out.data->Image_0.height == oh
    &&& out.data->Image_0.color_mode == ColorMode::Rgba
    &&& out.data->Image_0.data.len() == w * h * 4
    &&& forall|nx: int, ny: int|
        0 <= nx < ow && 0 <= ny < oh ==> #[trigger] pixel_at(out.data->Image_0.data, ow, nx, ny)
            == canvas_px(
            c.position,
            c.data->Image_0,
            orient_from(op, w as int, h as int, nx, ny).0,
            orient_from(op, w as int, h as int, nx, ny).1,
        )
}

/// The cel [`is_oriented_cel`] describes: it is unique.
pub open spec fn oriented_cel(c: CelModel, w: u32, h: u32, op: Orientation) -> CelModel {
    choose|o: CelModel| is_oriented_cel(c, w, h, op, o)
}

/// The cels of a whole-canvas orientation change.
pub open spec fn oriented_cels(cels: CelsModel, w: u32, h: u32, op: Orientation) -> CelsModel {
    Map::new(|k: CelKey| cels.contains_key(k), |k: CelKey| oriented_cel(cels[k], w, h, op))
}

/// [`oriented_cel`] names the one cel [`is_oriented_cel`] allows.
pub proof fn lemma_oriented_cel(c: CelModel, w: u32, h: u32, op: Orientation, o: CelModel)
    requires
        is_oriented_cel(c, w, h, op, o),
    ensures
        oriented_cel(c, w, h, op) == o,
{
    let m = oriented_cel(c, w, h, op);
    assert(is_oriented_cel(c, w, h, op, m));
    let ow = oriented_w(op, w as int, h as int);
    let oh = oriented_h(op, w as int, h as int);
    assert(ow * oh == w * h) by (nonlinear_arith)
        requires
            (ow == w && oh == h) || (ow == h && oh == w),
    ;
    assert forall|x: int, y: int| 0 <= x < ow && 0 <= y < oh implies #[trigger] pixel_at(
        m.data->Image_0.data,
        ow,
        x,
        y,
    ) == pixel_at(o.data->Image_0.data, ow, x, y) by {}
    super::pixels::lemma_image_cel_unique(m, o, ow, oh);
}

/// Cels that each are the orientation of the cel under the same key are
/// [`oriented_cels`].
pub proof fn lemma_oriented_cels(cels: CelsModel, out: CelsModel, w: u32, h: u32, op: Orientation)
    requires
        out.dom() == cels.dom(),
        forall|k: CelKey| #[trigger] cels.contains_key(k) ==> is_oriented_cel(cels[k], w, h, op, out[k]),
    ensures
        oriented_cels(cels, w, h, op) == out,
{
    assert forall|k: CelKey| #[trigger] cels.contains_key(k) implies oriented_cel(cels[k], w, h, op) == out[k] by {
        lemma_oriented_cel(cels[k], w, h, op, out[k]);
    }
    assert(oriented_cels(cels, w, h, op) =~= out);
}

/// A slice key mapped through a whole-canvas orientation change.
pub open spec fn oriented_key(k: SliceKey, op: Orientation, w: int, h: int) -> SliceKey {
    SliceKey {
        frame: k.frame,
        bounds: oriented_rect(k.bounds, op, w, h),
        center: match k.center {
            Some(c) => Some(oriented_rect(c, op, w, h)),
            None => None,
        },
        pivot: match k.pivot {
            Some(p) => Some(oriented_point(p, op, w, h)),
            None => None,
        },
    }
}

/// A slice with every key mapped through a whole-canvas orientation change.
pub open spec fn oriented_slice(s: SliceModel, op: Orientation, w: int, h: int) -> SliceModel {
    SliceModel {
        id: s.id,
        name: s.name,
        color: s.color,
        keys: s.keys.map_values(|k: SliceKey| oriented_key(k, op, w, h)),
    }
}

/// The document a whole-canvas edit restores from what it replaced.
pub open spec fn restored(doc: SpriteModel, p: Prior) -> SpriteModel {
    SpriteModel {
        width: p.width,
        height: p.height,
        slices: p.slices@.map_values(|s: Slice| s@),
        selection: p.selection,
        ..doc
    }
}

/// `i` is the first tilemap layer: no earlier one is.
pub proof fn lemma_first_tilemap_unique(layers: Seq<LayerModel>, i: int)
    requires
        first_tilemap_at(layers, i),
    ensures
        (choose|j: int| first_tilemap_at(layers, j)) == i,
{
    let j = choose|j: int| first_tilemap_at(layers, j);
    if j < i {
        assert(!(layers[j].kind is Tilemap));
    } else if j > i {
        assert(!(layers[i].kind is Tilemap));
    }
}

/// `k` is the first cel that is not an RGBA image: no earlier one is.
pub proof fn lemma_first_non_rgba_unique(cels: CelsModel, k: CelKey)
    requires
        first_non_rgba_at(cels, k),
    ensures
        (choose|j: CelKey| first_non_rgba_at(cels, j)) == k,
{
    let j = choose|j: CelKey| first_non_rgba_at(cels, j);
    if key_lt(j, k) {
        assert(rgba_cel(cels[j]));
    } else if key_lt(k, j) {
        assert(rgba_cel(cels[k]));
    }
}

/// Map one slice through a whole-canvas orientation change.
fn orient_slice(s: &Slice, op: Orientation, w: u32, h: u32) -> (o: Slice)
    ensures
        o@ == oriented_slice(s@, op, w as int, h as int),
{
    let mut o = s.clone();
    let ghost s0 = s@;
    let mut ki: usize = 0;
    while ki < o.keys.len()
        invariant
            ki <= o.keys@.len(),
            o@.id == s0.id,
            o@.name == s0.name,
            o@.color == s0.color,
            o.keys@.len() == s0.keys.len(),
            forall|j: int| 0 <= j < ki ==> #[trigger] o.keys@[j] == oriented_key(s0.keys[j], op, w as int, h as int),
            forall|j: int| ki <= j < o.keys@.len() ==> #[trigger] o.keys@[j] == s0.keys[j],
        decreases o.keys@.len() - ki,
    {
        let k = o.keys[ki];
        let center = match k.center {
            Some(c) => Some(orient_rect(c, op, w, h)),
            None => None,
        };
        let pivot = match k.pivot {
            Some(p) => Some(orient_point(p, op, w, h)),
            None => None,
        };
        let nk = SliceKey { frame: k.frame, bounds: orient_rect(k.bounds, op, w, h), center, pivot };
        o.keys.set(ki, nk);
        ki = ki + 1;
    }
    proof {
        assert(o.keys@ =~= s0.keys.map_values(|k: SliceKey| oriented_key(k, op, w as int, h as int)));
    }
    o
}

impl TransformCanvas {
    /// Reorient the whole sprite by `op`.
    pub fn new(op: Orientation) -> (c: Self)
        ensures
            c.op == op,
            c.prior is None,
    {
        TransformCanvas { op, prior: None }
    }
}

impl Command for TransformCanvas {
    open spec fn fits(&self, doc: SpriteModel) -> bool {
        canvas_fits(doc.width, doc.height)
    }

    fn fits_doc(&self, doc: &Sprite) -> (b: bool) {
        fits_canvas(doc.width, doc.height)
    }

    open spec fn inv(&self) -> bool {
        match self.prior {
            Some(p) => p.cels.wf() && cels_wf(p.cels@),
            None => true,
        }
    }

    open spec fn ready(&self) -> bool {
        true
    }

    fn is_ready(&self) -> (b: bool) {
        true
    }

    open spec fn applied_on(&self, doc: SpriteModel, cels: CelsModel) -> bool {
        self.prior is Some
    }

    open spec fn reverted(&self, doc: SpriteModel, cels: CelsModel) -> (SpriteModel, CelsModel) {
        match self.prior {
            Some(p) => (restored(doc, p), p.cels@),
            None => (doc, cels),
        }
    }

    open spec fn fails_with(&self, doc: SpriteModel, cels: CelsModel, e: CommandError) -> bool {
        canvas_edit_error(doc, cels) == Some(e)
    }

    open spec fn outcome(&self, doc: SpriteModel, cels: CelsModel) -> (SpriteModel, CelsModel) {
        let w = doc.width;
        let h = doc.height;
        (
            SpriteModel {
                width: oriented_w(self.op, w as int, h as int) as u32,
                height: oriented_h(self.op, w as int, h as int) as u32,
                slices: doc.slices.map_values(
                    |s: SliceModel| oriented_slice(s, self.op, w as int, h as int),
                ),
                selection: None,
                ..doc
            },
            oriented_cels(cels, w, h, self.op),
        )
    }

    open spec fn reverts_to(&self, back: Self, doc: SpriteModel, cels: CelsModel) -> bool {
        back.op == self.op
    }

    open spec fn succeeds_on(&self, doc: SpriteModel, cels: CelsModel) -> bool {
        canvas_edit_error(doc, cels) is None
    }

    fn apply(&mut self, doc: &mut Sprite, cels: &mut CelMap) -> (r: Result<(), CommandError>)
        ensures
            r is Err ==> *final(self) == *old(self),
            match r {
                Ok(_) => {
                    let w = old(doc)@.width;
                    let h = old(doc)@.height;
                    &&& canvas_edit_error(old(doc)@, old(cels)@) is None
                    &&& final(doc)@ == SpriteModel {
                        width: oriented_w(old(self).op, w as int, h as int) as u32,
                        height: oriented_h(old(self).op, w as int, h as int) as u32,
                        slices: old(doc)@.slices.map_values(
                            |s: SliceModel| oriented_slice(s, old(self).op, w as int, h as int),
                        ),
                        selection: None,
                        ..old(doc)@
                    }
                    &&& final(cels)@.dom() == old(cels)@.dom()
                    &&& forall|k: CelKey| #[trigger]
                        old(cels)@.contains_key(k) ==> is_oriented_cel(
                            old(cels)@[k],
                            w,
                            h,
                            old(self).op,
                            final(cels)@[k],
                        )
                },
                Err(e) => canvas_edit_error(old(doc)@, old(cels)@) == Some(e),
            },
    {
        let op = self.op;
        let ghost d0 = doc@;
        let ghost c0 = cels@;
        let mut li: usize = 0;
        while li < doc.layers.len()
            invariant
                li <= doc.layers@.len(),
                doc@ == d0,
                cels@ == c0,
                cels.wf(),
                super::doc_wf(d0, c0),
                forall|j: int| 0 <= j < li ==> !((#[trigger] d0.layers[j]).kind is Tilemap),
            decreases doc.layers@.len() - li,
        {
            match doc.layers[li].kind {
                LayerKind::Tilemap { .. } => {
                    proof {
                        assert(first_tilemap_at(d0.layers, li as int));
                        lemma_first_tilemap_unique(d0.layers, li as int);
                    }
                    return Err(CommandError::UnsupportedLayerKind(doc.layers[li].id.0));
                },
                _ => {},
            }
            li = li + 1;
        }
        let w = doc.width;
        let h = doc.height;
        let entries = cels.iter();
        proof {
            assert forall|j: int| 0 <= j < entries@.len() implies c0.contains_key(
                (#[trigger] entries@[j]).0,
            ) && c0[entries@[j].0] == entries@[j].1@ by {
                assert(cels@.contains_key(entries@[j].0));
            }
        }
        let mut new_cels = CelMap::new();
        let mut i: usize = 0;
        while i < entries.len()
            invariant
                i <= entries@.len(),
                cels@ == c0,
                doc@ == d0,
                super::doc_wf(d0, c0),
                forall|j: int| 0 <= j < d0.layers.len() ==> !((#[trigger] d0.layers[j]).kind is Tilemap),
                cels.wf(),
                cels_wf(c0),
                canvas_fits(w, h),
                crate::document::cel_map::sorted_keys(entries@),
                forall|j: int|
                    0 <= j < entries@.len() ==> c0.contains_key((#[trigger] entries@[j]).0)
                        && c0[entries@[j].0] == entries@[j].1@,
                forall|k: CelKey| #[trigger] c0.contains_key(k) ==> has_key(entries@, k),
                forall|j: int| 0 <= j < i ==> rgba_cel(#[trigger] entries@[j].1@),
                new_cels.wf(),
                forall|k: CelKey|
                    #[trigger] new_cels@.contains_key(k) <==> exists|j: int|
                        0 <= j < i && (#[trigger] entries@[j]).0 == k,
                forall|k: CelKey| #[trigger]
                    new_cels@.contains_key(k) ==> is_oriented_cel(c0[k], w, h, op, new_cels@[k]),
            decreases entries@.len() - i,
        {
            let entry = &entries[i];
            let cel = &entry.1;
            let buffer = match rgba_buffer(cel) {
                Some(b) => b,
                None => {
                    proof {
                        let k = entry.0;
                        assert forall|k2: CelKey| #[trigger]
                            c0.contains_key(k2) && key_lt(k2, k) implies rgba_cel(c0[k2]) by {
                            let j = crate::document::cel_map::index_of_key(entries@, k2);
                            assert(has_key(entries@, k2));
                            if j > i {
                                assert(key_lt(entries@[i as int].0, entries@[j].0));
                            } else if j == i {
                            } else {
                                assert(rgba_cel(entries@[j].1@));
                            }
                        }
                        assert(first_non_rgba_at(c0, k));
                        lemma_first_non_rgba_unique(c0, k);
                        if exists|t: int| first_tilemap_at(d0.layers, t) {
                            let t = choose|t: int| first_tilemap_at(d0.layers, t);
                            assert(!(d0.layers[t].kind is Tilemap));
                        }
                    }
                    return Err(CommandError::NotAnImageCel { layer: entry.0.0, frame: entry.0.1 });
                },
            };
            proof {
                assert(cel_wf(c0[entry.0]));
            }
            let raster = cel_to_canvas(cel, buffer, w, h);
            let turned = raster.oriented(op);
            let mut out = raster_to_cel(entry.0.0, entry.0.1, turned);
            out.opacity = cel.opacity;
            let ghost n0 = new_cels@;
            new_cels.insert(out);
            proof {
                let k = entry.0;
                assert(k == (k.0, k.1));
                assert(c0[k] == cel@);
                assert forall|k2: CelKey|
                    #[trigger] new_cels@.contains_key(k2) <==> exists|j: int|
                        0 <= j < i + 1 && (#[trigger] entries@[j]).0 == k2 by {
                    if new_cels@.contains_key(k2) && k2 != k {
                        assert(n0.contains_key(k2));
                    }
                    if exists|j: int| 0 <= j < i + 1 && (#[trigger] entries@[j]).0 == k2 {
                        let j = choose|j: int| 0 <= j < i + 1 && (#[trigger] entries@[j]).0 == k2;
                        if j < i {
                            assert(n0.contains_key(k2));
                        }
                    }
                }
                assert forall|k2: CelKey| #[trigger]
                    new_cels@.contains_key(k2) implies is_oriented_cel(
                    c0[k2],
                    w,
                    h,
                    op,
                    new_cels@[k2],
                ) by {
                    if k2 != k {
                        assert(n0.contains_key(k2));
                    } else {
                        let ow = oriented_w(op, w as int, h as int);
                        let oh = oriented_h(op, w as int, h as int);
                        assert forall|nx: int, ny: int|
                            0 <= nx < ow && 0 <= ny < oh implies #[trigger] pixel_at(
                            turned.data@,
                            ow,
                            nx,
                            ny,
                        ) == canvas_px(
                            cel@.position,
                            cel@.data->Image_0,
                            orient_from(op, w as int, h as int, nx, ny).0,
                            orient_from(op, w as int, h as int, nx, ny).1,
                        ) by {
                            assert(turned.px(nx, ny) == raster.px(
                                orient_from(op, w as int, h as int, nx, ny).0,
                                orient_from(op, w as int, h as int, nx, ny).1,
                            ));
                        }
                        assert(h * w * 4 == w * h * 4) by (nonlinear_arith);
                    }
                }
            }
            i = i + 1;
        }
        proof {
            assert forall|k: CelKey| new_cels@.dom().contains(k) <==> c0.dom().contains(k) by {
                if c0.contains_key(k) {
                    assert(has_key(entries@, k));
                    let j = choose|j: int| 0 <= j < entries@.len() && #[trigger] entries@[j].0 == k;
                    assert(new_cels@.contains_key(k));
                }
                if new_cels@.contains_key(k) {
                    let j = choose|j: int| 0 <= j < i && (#[trigger] entries@[j]).0 == k;
                    assert(c0.contains_key(entries@[j].0));
                }
            }
            assert(new_cels@.dom() =~= c0.dom());
            assert forall|k: CelKey| #[trigger] new_cels@.contains_key(k) implies cel_wf(new_cels@[k])
                && new_cels@[k].layer == k.0 && new_cels@[k].frame == k.1 by {
                assert(is_oriented_cel(c0[k], w, h, op, new_cels@[k]));
                if swaps(op) {
                    assert(h * w * 4 == w * h * 4) by (nonlinear_arith);
                }
            }
        }
        let mut new_slices: Vec<Slice> = Vec::new();
        let mut si: usize = 0;
        while si < doc.slices.len()
            invariant
                si <= doc.slices@.len(),
                doc@ == d0,
                w == d0.width,
                h == d0.height,
                new_slices@.len() == si,
                forall|j: int|
                    0 <= j < si ==> (#[trigger] new_slices@[j])@ == oriented_slice(
                        d0.slices[j],
                        op,
                        w as int,
                        h as int,
                    ),
            decreases doc.slices@.len() - si,
        {
            let s = orient_slice(&doc.slices[si], op, w, h);
            new_slices.push(s);
            si = si + 1;
        }
        std::mem::swap(cels, &mut new_cels);
        std::mem::swap(&mut doc.slices, &mut new_slices);
        let selection = doc.selection.take();
        if op.swaps_axes() {
            doc.width = h;
            doc.height = w;
        }
        self.prior = Some(Prior { width: w, height: h, cels: new_cels, slices: new_slices, selection });
        proof {
            assert(doc@.slices =~= d0.slices.map_values(
                |s: SliceModel| oriented_slice(s, op, w as int, h as int),
            ));
            assert(new_slices@.map_values(|s: Slice| s@) =~= d0.slices);
            lemma_oriented_cels(old(cels)@, cels@, w, h, op);
        }
        Ok(())
    }

    fn revert(&mut self, doc: &mut Sprite, cels: &mut CelMap)
        ensures
            forall|d: SpriteModel, c: CelsModel| #[trigger] final(self).reverted(d, c) == (d, c),
    {
        let p = match self.prior.take() {
            Some(p) => p,
            None => {
                return ;
            },
        };
        doc.width = p.width;
        doc.height = p.height;
        *cels = p.cels;
        doc.slices = p.slices;
        doc.selection = p.selection;
        proof {
            assert(doc@.tilesets == old(doc)@.tilesets);
        }
    }
}

} // verus!
