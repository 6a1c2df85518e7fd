//! `MergeDown` checks — whether an image layer can be merged onto the
//! image layer directly below it.
//!
//! The target must be an image layer that is the immediate lower sibling
//! (same parent): the flat layer list keeps each subtree contiguous, so the
//! layer at `index - 1` is either that sibling or the tail of another
//! subtree. Every cel of the upper layer must be an RGBA image, since it is
//! composited over the lower layer's pixels; the frames are checked in
//! order and the first that blocks the merge gives the error.
//!
//! Undoing a merge puts back what it replaced: the upper layer at its
//! position, its cels, and the lower layer's cel of every frame it
//! touched, or no cel where the lower layer had none.
use vstd::prelude::*;

use super::error::CommandError;
use super::remove_layer::insert_cels;
use super::CelsModel;
use crate::document::cel::CelDataModel;
use crate::document::layer::LayerModel;
use crate::document::sprite::{first_layer_at, layer_pos, lemma_layer_pos, no_layer, SpriteModel};
use crate::document::{Cel, CelData, CelKey, CelMap, ColorMode, FrameIndex, Layer, LayerId, LayerKind, Sprite};

verus! {

/// Why layer `upper` of `doc` has no layer to merge onto, if it has none.
pub open spec fn merge_target_error(doc: SpriteModel, upper: LayerId) -> Option<CommandError> {
    if no_layer(doc.layers, upper) {
        Some(CommandError::UnknownLayer(upper.0))
    } else {
        let i = layer_pos(doc.layers, upper);
        if !(doc.layers[i].kind is Image) {
            Some(CommandError::UnsupportedLayerKind(upper.0))
        } else if i == 0 || !(doc.layers[i - 1].kind is Image) || doc.layers[i - 1].parent
            != doc.layers[i].parent {
            Some(CommandError::NoMergeTarget(upper.0))
        } else {
            None
        }
    }
}

/// Why the cel of layer `upper` at frame `f` cannot be merged down, if it
/// cannot: it is not an image, or its pixels are not RGBA. A frame where
/// the layer has no cel blocks nothing.
pub open spec fn merge_cel_error(cels: CelsModel, upper: LayerId, f: int) -> Option<CommandError> {
    let key: CelKey = (upper, FrameIndex(f as u32));
    if !cels.contains_key(key) {
        None
    } else {
        match cels[key].data {
            CelDataModel::Image(b) => if b.color_mode == ColorMode::Rgba {
                None
            } else {
                Some(CommandError::UnsupportedColorMode)
            },
            _ => Some(CommandError::NotAnImageCel { layer: upper, frame: FrameIndex(f as u32) }),
        }
    }
}

/// The error of the first frame from `f` up to `n` whose cel of `upper`
/// blocks a merge, if any does.
pub open spec fn first_merge_cel_error(cels: CelsModel, upper: LayerId, f: int, n: int) -> Option<
    CommandError,
>
    decreases n - f,
{
    if f >= n {
        None
    } else {
        match merge_cel_error(cels, upper, f) {
            Some(e) => Some(e),
            None => first_merge_cel_error(cels, upper, f + 1, n),
        }
    }
}

/// Why merging layer `upper` down fails on `doc` and `cels`, if it does:
/// the layer checks come first, then the frames in order.
pub open spec fn merge_down_error(doc: SpriteModel, cels: CelsModel, upper: LayerId) -> Option<
    CommandError,
> {
    match merge_target_error(doc, upper) {
        Some(e) => Some(e),
        None => first_merge_cel_error(cels, upper, 0, doc.frames.len() as int),
    }
}

/// Check that layer `layer` can be merged onto the layer below it, before
/// anything is changed. On success, gives the positions of the layer and of
/// the layer it merges onto.
pub fn merge_down_checks(doc: &Sprite, cels: &CelMap, layer: LayerId) -> (r: Result<
    (usize, usize),
    CommandError,
>)
    requires
        cels.wf(),
    ensures
        match r {
            Ok((upper, lower)) => {
                &&& merge_down_error(doc@, cels@, layer) is None
                &&& first_layer_at(doc@.layers, layer, upper as int)
                &&& upper >= 1
                &&& lower == upper - 1
            },
            Err(e) => merge_down_error(doc@, cels@, layer) == Some(e),
        },
{
    let index = match doc.layer_index(layer) {
        Some(i) => i,
        None => {
            return Err(CommandError::UnknownLayer(layer.0));
        },
    };
    proof {
        lemma_layer_pos(doc@.layers, layer, index as int);
    }
    let upper_is_image = match doc.layers[index].kind {
        LayerKind::Image => true,
        _ => false,
    };
    if !upper_is_image {
        return Err(CommandError::UnsupportedLayerKind(layer.0));
    }
    if index == 0 {
        return Err(CommandError::NoMergeTarget(layer.0));
    }
    let lower_is_image = match doc.layers[index - 1].kind {
        LayerKind::Image => true,
        _ => false,
    };
    if !lower_is_image || doc.layers[index - 1].parent != doc.layers[index].parent {
        return Err(CommandError::NoMergeTarget(layer.0));
    }
    let n = doc.frames.len();
    let mut f: usize = 0;
    while f < n
        invariant
            cels.wf(),
            n == doc@.frames.len(),
            f <= n,
            merge_down_error(doc@, cels@, layer) == first_merge_cel_error(
                cels@,
                layer,
                f as int,
                n as int,
            ),
        decreases n - f,
    {
        let frame = FrameIndex(f as u32);
        match cels.get(layer, frame) {
            Some(cel) => match &cel.data {
                CelData::Image(buf) => match buf.color_mode {
                    ColorMode::Rgba => {},
                    _ => {
                        return Err(CommandError::UnsupportedColorMode);
                    },
                },
                _ => {
                    return Err(CommandError::NotAnImageCel { layer, frame });
                },
            },
            None => {},
        }
        f = f + 1;
    }
    Ok((index, index - 1))
}

/// What a merge replaced: the upper layer and its position, its cels, and
/// the lower layer's cel of each frame the merge touched (`None` where it
/// had none).
#[derive(Debug)]
pub struct MergePrior {
    pub upper_index: usize,
    pub upper: Layer,
    pub upper_cels: Vec<Cel>,
    pub lower_cels: Vec<(FrameIndex, Option<Cel>)>,
}

/// The layer a merge at position `at` went into: the one just below it,
/// if there is one.
pub open spec fn merge_lower(layers: Seq<LayerModel>, at: int) -> Option<LayerId> {
    if 0 < at && at - 1 < layers.len() {
        Some(layers[at - 1].id)
    } else {
        None
    }
}

/// `layers` with `upper` back at `at` (clamped to the end), unless a layer
/// with its id is already there.
pub open spec fn upper_restored(layers: Seq<LayerModel>, at: int, upper: LayerModel) -> Seq<LayerModel> {
    if no_layer(layers, upper.id) {
        layers.insert(if at <= layers.len() { at } else { layers.len() as int }, upper)
    } else {
        layers
    }
}

/// `cels` with the lower layer's cels of `prior` put back, first to last:
/// a cel where there was one, none where there was none.
pub open spec fn lower_restored(
    cels: CelsModel,
    lower: Option<LayerId>,
    prior: Seq<(FrameIndex, Option<Cel>)>,
) -> CelsModel
    decreases prior.len(),
{
    if prior.len() == 0 {
        cels
    } else {
        let before = lower_restored(cels, lower, prior.drop_last());
        match prior.last().1 {
            Some(c) => before.insert((c.layer, c.frame), c@),
            None => match lower {
                Some(l) => before.remove((l, prior.last().0)),
                None => before,
            },
        }
    }
}

/// Put back what a merge replaced, as recorded in `p`.
pub fn merge_down_restore(doc: &mut Sprite, cels: &mut CelMap, p: MergePrior)
    requires
        old(cels).wf(),
    ensures
        final(cels).wf(),
        final(doc)@ == (SpriteModel {
            layers: upper_restored(old(doc)@.layers, p.upper_index as int, p.upper@),
            ..old(doc)@
        }),
        final(cels)@ == lower_restored(
            insert_cels(old(cels)@, p.upper_cels@),
            merge_lower(old(doc)@.layers, p.upper_index as int),
            p.lower_cels@,
        ),
{
    let ghost d0 = doc@;
    let ghost c0 = cels@;
    let MergePrior { upper_index, upper, upper_cels, lower_cels } = p;
    let lower: Option<LayerId> = if 0 < upper_index && upper_index - 1 < doc.layers.len() {
        Some(doc.layers[upper_index - 1].id)
    } else {
        None
    };
    assert(lower == merge_lower(d0.layers, upper_index as int));
    let ghost um = upper@;
    if doc.layer_index(upper.id).is_none() {
        let n = doc.layers.len();
        let at = if upper_index <= n {
            upper_index
        } else {
            n
        };
        doc.layers.insert(at, upper);
        proof {
            assert(doc@.layers =~= d0.layers.insert(at as int, um));
        }
    }
    proof {
        assert(doc@ == (SpriteModel { layers: upper_restored(d0.layers, upper_index as int, um), ..d0 }));
    }
    let mut j: usize = 0;
    proof {
        assert(upper_cels@.take(0) =~= Seq::<Cel>::empty());
    }
    while j < upper_cels.len()
        invariant
            j <= upper_cels@.len(),
            cels.wf(),
            cels@ == insert_cels(c0, upper_cels@.take(j as int)),
        decreases upper_cels@.len() - j,
    {
        let c = upper_cels[j].clone();
        cels.insert(c);
        proof {
            assert(upper_cels@.take(j + 1).last() == upper_cels@[j as int]);
            assert(upper_cels@.take(j + 1).drop_last() =~= upper_cels@.take(j as int));
        }
        j = j + 1;
    }
    proof {
        assert(upper_cels@.take(j as int) =~= upper_cels@);
    }
    let ghost c1 = cels@;
    let mut k: usize = 0;
    proof {
        assert(lower_cels@.take(0) =~= Seq::<(FrameIndex, Option<Cel>)>::empty());
    }
    while k < lower_cels.len()
        invariant
            k <= lower_cels@.len(),
            cels.wf(),
            cels@ == lower_restored(c1, lower, lower_cels@.take(k as int)),
        decreases lower_cels@.len() - k,
    {
        let frame = lower_cels[k].0;
        match &lower_cels[k].1 {
            Some(c) => {
                cels.insert(c.clone());
            },
            None => {
                if let Some(l) = lower {
                    let _ = cels.remove(l, frame);
                }
            },
        }
        proof {
            assert(lower_cels@.take(k + 1).last() == lower_cels@[k as int]);
            assert(lower_cels@.take(k + 1).drop_last() =~= lower_cels@.take(k as int));
        }
        k = k + 1;
    }
    proof {
        assert(lower_cels@.take(k as int) =~= lower_cels@);
    }
}

} // verus!
