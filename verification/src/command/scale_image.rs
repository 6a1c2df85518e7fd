//! `ScaleImage` support — what resampling the whole sprite to a new size
//! checks first, and how it swaps the scaled document in and back out.
//!
//! Scaling renders every image cel at canvas size and resamples it, and
//! scales the slice keys; both are floating-point work done outside this
//! library. What is decided here: a zero target size is refused, then a
//! tilemap layer (its grid cannot be resampled), then the first cel, in key
//! order, that is not an RGBA image. The scaled cels and slices replace the
//! old ones wholesale, the selection is cleared, and what was replaced is
//! kept so that undo restores it exactly.
use vstd::prelude::*;

use super::error::CommandError;
use super::transform_canvas::{
    canvas_edit_error, first_non_rgba_at, first_tilemap_at, lemma_first_non_rgba_unique,
    lemma_first_tilemap_unique, restored, Prior,
};
use super::transform_support::{rgba_buffer, rgba_cel};
use super::CelsModel;
use crate::document::cel_map::{has_key, key_lt, CelKey};
use crate::document::slice::SliceModel;
use crate::document::sprite::SpriteModel;
use crate::document::{CelMap, LayerKind, Slice, Sprite};

verus! {

/// Why scaling `doc` to `width × height` is refused, if it is: a zero size
/// first, then what refuses any whole-canvas re-render.
pub open spec fn scale_image_error(doc: SpriteModel, cels: CelsModel, width: u32, height: u32) -> Option<
    CommandError,
> {
    if width == 0 || height == 0 {
        Some(CommandError::EmptyRegion)
    } else {
        canvas_edit_error(doc, cels)
    }
}

/// Check whether `doc` can be scaled to `width × height`, before anything
/// is changed.
pub fn scale_image_checks(doc: &Sprite, cels: &CelMap, width: u32, height: u32) -> (r: Result<
    (),
    CommandError,
>)
    requires
        cels.wf(),
    ensures
        match r {
            Ok(_) => scale_image_error(doc@, cels@, width, height) is None,
            Err(e) => scale_image_error(doc@, cels@, width, height) == Some(e),
        },
{
    if width == 0 || height == 0 {
        return Err(CommandError::EmptyRegion);
    }
    let ghost d0 = doc@;
    let ghost c0 = cels@;
    let mut li: usize = 0;
    while li < doc.layers.len()
        invariant
            li <= doc.layers@.len(),
            doc@ == d0,
            cels@ == c0,
            width > 0 && height > 0,
            forall|j: int| 0 <= j < li ==> !((#[trigger] d0.layers[j]).kind is Tilemap),
        decreases doc.layers@.len() - li,
    {
        match doc.layers[li].kind {
            LayerKind::Tilemap { .. } => {
                proof {
                    assert(first_tilemap_at(d0.layers, li as int));
                    lemma_first_tilemap_unique(d0.layers, li as int);
                }
                return Err(CommandError::UnsupportedLayerKind(doc.layers[li].id.0));
            },
            _ => {},
        }
        li = li + 1;
    }
    assert forall|t: int| !first_tilemap_at(d0.layers, t) by {
        if first_tilemap_at(d0.layers, t) {
            assert(!(d0.layers[t].kind is Tilemap));
        }
    }
    let entries = cels.iter();
    let mut i: usize = 0;
    while i < entries.len()
        invariant
            i <= entries@.len(),
            cels@ == c0,
            doc@ == d0,
            width > 0 && height > 0,
            forall|t: int| !first_tilemap_at(d0.layers, t),
            crate::document::cel_map::sorted_keys(entries@),
            forall|j: int|
                0 <= j < entries@.len() ==> c0.contains_key((#[trigger] entries@[j]).0)
                    && c0[entries@[j].0] == entries@[j].1@,
            forall|k: CelKey| #[trigger] c0.contains_key(k) ==> has_key(entries@, k),
            forall|j: int| 0 <= j < i ==> rgba_cel(#[trigger] entries@[j].1@),
        decreases entries@.len() - i,
    {
        let entry = &entries[i];
        if rgba_buffer(&entry.1).is_none() {
            proof {
                let k = entry.0;
                assert forall|k2: CelKey| #[trigger]
                    c0.contains_key(k2) && key_lt(k2, k) implies rgba_cel(c0[k2]) by {
                    let j = crate::document::cel_map::index_of_key(entries@, k2);
                    assert(has_key(entries@, k2));
                    if j > i {
                        assert(key_lt(entries@[i as int].0, entries@[j].0));
                    } else if j < i {
                        assert(rgba_cel(entries@[j].1@));
                    }
                }
                assert(first_non_rgba_at(c0, k));
                lemma_first_non_rgba_unique(c0, k);
            }
            return Err(CommandError::NotAnImageCel { layer: entry.0.0, frame: entry.0.1 });
        }
        i = i + 1;
    }
    proof {
        if exists|k: CelKey| first_non_rgba_at(c0, k) {
            let k = choose|k: CelKey| first_non_rgba_at(c0, k);
            let j = crate::document::cel_map::index_of_key(entries@, k);
            assert(has_key(entries@, k));
            assert(rgba_cel(entries@[j].1@));
        }
    }
    Ok(())
}

/// `doc` at size `width × height` with `slices` in place of its slices and
/// nothing selected.
pub open spec fn scaled_doc(doc: SpriteModel, width: u32, height: u32, slices: Seq<SliceModel>) -> SpriteModel {
    SpriteModel { width, height, slices, selection: None, ..doc }
}

/// Swap the scaled cels and slices in, set the new size and clear the
/// selection; gives back what was replaced, from which
/// [`restore_scaled`] rebuilds the document as it was.
pub fn install_scaled(
    doc: &mut Sprite,
    cels: &mut CelMap,
    width: u32,
    height: u32,
    new_cels: CelMap,
    new_slices: Vec<Slice>,
) -> (p: Prior)
    ensures
        final(doc)@ == scaled_doc(
            old(doc)@,
            width,
            height,
            new_slices@.map_values(|s: Slice| s@),
        ),
        final(cels)@ == new_cels@,
        new_cels.wf() ==> final(cels).wf(),
        p.cels@ == old(cels)@,
        old(cels).wf() ==> p.cels.wf(),
        restored(final(doc)@, p) == old(doc)@,
{
    let mut old_cels = new_cels;
    std::mem::swap(cels, &mut old_cels);
    let mut old_slices = new_slices;
    std::mem::swap(&mut doc.slices, &mut old_slices);
    let selection = doc.selection;
    let p = Prior { width: doc.width, height: doc.height, cels: old_cels, slices: old_slices, selection };
    doc.selection = None;
    doc.width = width;
    doc.height = height;
    proof {
        assert(doc@.tilesets == old(doc)@.tilesets);
        assert(restored(doc@, p) =~= old(doc)@);
    }
    p
}

/// Put back what [`install_scaled`] replaced.
pub fn restore_scaled(doc: &mut Sprite, cels: &mut CelMap, p: Prior)
    ensures
        final(doc)@ == restored(old(doc)@, p),
        final(cels)@ == p.cels@,
        p.cels.wf() ==> final(cels).wf(),
{
    doc.width = p.width;
    doc.height = p.height;
    *cels = p.cels;
    doc.slices = p.slices;
    doc.selection = p.selection;
    proof {
        assert(doc@.tilesets == old(doc)@.tilesets);
    }
}

} // verus!
