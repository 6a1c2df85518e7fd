//! Commands and the undo / redo bus.
use vstd::prelude::*;

use crate::document::cel::{buffer_wf, CelDataModel, CelModel};
use crate::document::cel_map::CelKey;
use crate::document::sprite::SpriteModel;
use crate::document::tileset::TilesetModel;
use crate::document::{CelMap, Sprite};

pub mod add_frame;
pub mod add_layer;
pub mod add_slice;
pub mod add_tile;
pub mod add_tilemap_layer;
pub mod add_tileset;
pub mod any;
pub mod bus;
pub mod clear_region;
pub mod dirty;
pub mod draw_ellipse;
pub mod draw_line;
pub mod draw_rectangle;
pub mod draw_shape;
pub mod draw_text;
pub mod duplicate_layer;
pub mod error;
pub mod fill_region;
pub mod layer_tree;
pub mod merge_down;
pub mod move_layer;
pub mod move_selection_content;
pub mod pixels;
pub mod place_tile;
pub mod reframe_canvas;
pub mod remove_layer;
pub mod remove_slice;
pub mod replace_cel_pixels;
pub mod scale_image;
pub mod set_frame_duration;
pub mod set_layer_blend_mode;
pub mod set_layer_name;
pub mod set_layer_opacity;
pub mod set_layer_visible;
pub mod set_pixel;
pub mod set_slice_key;
pub mod set_tile_pixel;
pub mod transform_canvas;
pub mod transform_cel;
pub mod transform_support;

pub use add_frame::AddFrame;
pub use add_layer::AddLayer;
pub use add_slice::AddSlice;
pub use add_tile::AddTile;
pub use add_tilemap_layer::AddTilemapLayer;
pub use add_tileset::AddTileset;
pub use any::AnyCommand;
pub use bus::Bus;
pub use bus::DEFAULT_HISTORY_CAP;
pub use clear_region::ClearRegion;
pub use dirty::DirtyRegion;
pub use draw_ellipse::DrawEllipse;
pub use draw_line::DrawLine;
pub use draw_rectangle::DrawRectangle;
pub use draw_shape::{ShapeMode, ShapeStyle};
pub use draw_text::TextAlign;
pub use duplicate_layer::DuplicateLayer;
pub use error::CommandError;
pub use fill_region::FillRegion;
pub use move_layer::MoveDirection;
pub use move_layer::MoveLayer;
pub use move_selection_content::MoveSelectionContent;
pub use place_tile::PlaceTile;
pub use reframe_canvas::Anchor;
pub use reframe_canvas::ReframeCanvas;
pub use remove_layer::RemoveLayer;
pub use remove_slice::RemoveSlice;
pub use replace_cel_pixels::ReplaceCelPixels;
pub use set_frame_duration::SetFrameDuration;
pub use set_layer_blend_mode::SetLayerBlendMode;
pub use set_layer_name::SetLayerName;
pub use set_layer_opacity::SetLayerOpacity;
pub use set_layer_visible::SetLayerVisible;
pub use set_pixel::SetPixel;
pub use set_slice_key::SetSliceKey;
pub use set_tile_pixel::SetTilePixel;
pub use transform_canvas::TransformCanvas;
pub use transform_cel::TransformCel;
pub use transform_support::{Interpolation, Orientation};

verus! {

/// Model of the cel store: the cels by `(layer, frame)`.
pub type CelsModel = Map<CelKey, CelModel>;

/// A cel is well formed when its payload is consistent with its
/// dimensions: an image buffer holds `width * height * bpp` bytes. A tilemap
/// cel may hold any number of tile references; an edit refuses one whose
/// count differs from `grid_w * grid_h`.
pub open spec fn cel_wf(c: CelModel) -> bool {
    match c.data {
        CelDataModel::Image(b) => buffer_wf(b),
        CelDataModel::Tilemap { .. } => true,
        CelDataModel::Linked(_) => true,
    }
}

/// Every stored cel is well formed and stored under its own
/// `(layer, frame)`.
pub open spec fn cels_wf(cels: CelsModel) -> bool {
    forall|k: CelKey|
        #[trigger] cels.contains_key(k) ==> cel_wf(cels[k]) && cels[k].layer == k.0 && cels[k].frame
            == k.1
}

/// A tileset is well formed when its tile images are, and its tile size is
/// addressable as an RGBA buffer.
pub open spec fn tileset_wf(t: TilesetModel) -> bool {
    &&& forall|i: int| 0 <= i < t.tiles.len() ==> buffer_wf(#[trigger] t.tiles[i])
    &&& t.tile_size.0 * t.tile_size.1 * 4 <= usize::MAX
}

/// Every tileset of the sprite is well formed.
pub open spec fn tiles_wf(doc: SpriteModel) -> bool {
    forall|t: int| 0 <= t < doc.tilesets.len() ==> #[trigger] tileset_wf(doc.tilesets[t])
}

/// The document invariant every command relies on: pixel buffers and tile
/// grids match their stated dimensions.
pub open spec fn doc_wf(doc: SpriteModel, cels: CelsModel) -> bool {
    cels_wf(cels) && tiles_wf(doc)
}

/// A reversible mutation on a [`Sprite`] and its [`CelMap`].
///
/// Implementations record any state needed to undo their effect during
/// [`Command::apply`], so [`Command::revert`] can restore the document
/// precisely.
pub trait Command: Sized {
    /// The command still holds its payload, so it can be applied.
    spec fn ready(&self) -> bool;

    /// The command was applied and `(doc, cels)` is the state it produced.
    spec fn applied_on(&self, doc: SpriteModel, cels: CelsModel) -> bool;

    /// The state that [`Command::revert`] produces from `(doc, cels)`.
    spec fn reverted(&self, doc: SpriteModel, cels: CelsModel) -> (SpriteModel, CelsModel);

    /// The states on which revert undoes apply exactly. Most commands undo
    /// exactly on every state.
    open spec fn exact_on(&self, doc: SpriteModel, cels: CelsModel) -> bool {
        true
    }

    /// What the undo state the command records guarantees, so that revert
    /// restores a well-formed document. Most commands need nothing.
    open spec fn inv(&self) -> bool {
        true
    }

    /// The buffers that applying the command to `doc` allocates fit in the
    /// address space. Most commands allocate nothing that grows with the
    /// canvas.
    open spec fn fits(&self, doc: SpriteModel) -> bool {
        true
    }

    /// The states on which [`Command::apply`] succeeds; on every other state
    /// it fails and leaves the document as it was.
    spec fn succeeds_on(&self, doc: SpriteModel, cels: CelsModel) -> bool;

    /// The document and cels a successful [`Command::apply`] leaves, from
    /// `(doc, cels)`.
    spec fn outcome(&self, doc: SpriteModel, cels: CelsModel) -> (SpriteModel, CelsModel);

    /// `back` is the command [`Command::revert`] leaves when it reverts this
    /// one from `(doc, cels)`: as far as applying it again is concerned.
    spec fn reverts_to(&self, back: Self, doc: SpriteModel, cels: CelsModel) -> bool;

    /// `e` is the error [`Command::apply`] reports on a state it fails on.
    spec fn fails_with(&self, doc: SpriteModel, cels: CelsModel, e: CommandError) -> bool;

    /// Whether the buffers that applying the command to `doc` allocates fit
    /// in the address space.
    fn fits_doc(&self, doc: &Sprite) -> (b: bool)
        ensures
            b == self.fits(doc@),
    ;

    /// Whether the command still holds its payload, so it can be applied.
    fn is_ready(&self) -> (b: bool)
        ensures
            b == self.ready(),
    ;

    /// Apply the command, mutating the document and cel map in place. A
    /// failed apply leaves both untouched; a successful one can be undone
    /// exactly by [`Command::revert`].
    fn apply(&mut self, doc: &mut Sprite, cels: &mut CelMap) -> (r: Result<(), CommandError>)
        requires
            old(cels).wf(),
            old(self).ready(),
            old(self).fits(old(doc)@),
            doc_wf(old(doc)@, old(cels)@),
        ensures
            final(cels).wf(),
            doc_wf(final(doc)@, final(cels)@),
            r is Ok <==> old(self).succeeds_on(old(doc)@, old(cels)@),
            r is Ok ==> (final(doc)@, final(cels)@) == old(self).outcome(old(doc)@, old(cels)@),
            r is Ok && old(self).exact_on(old(doc)@, old(cels)@) ==> forall|b: Self|
                #[trigger] final(self).reverts_to(b, final(doc)@, final(cels)@) ==> {
                    &&& b.ready()
                    &&& b.fits(old(doc)@)
                    &&& b.succeeds_on(old(doc)@, old(cels)@)
                    &&& b.outcome(old(doc)@, old(cels)@) == (final(doc)@, final(cels)@)
                },
            r matches Err(e) ==> old(self).fails_with(old(doc)@, old(cels)@, e),
            r is Err ==> final(doc)@ == old(doc)@ && final(cels)@ == old(cels)@,
            r is Ok ==> final(self).applied_on(final(doc)@, final(cels)@),
            r is Ok ==> final(self).inv(),
            r is Ok && old(self).exact_on(old(doc)@, old(cels)@) ==> final(self).reverted(
                final(doc)@,
                final(cels)@,
            ) == (old(doc)@, old(cels)@),
    ;

    /// Reverse a previously-applied command. A no-op for a command that has
    /// not been applied (or that already failed).
    fn revert(&mut self, doc: &mut Sprite, cels: &mut CelMap)
        requires
            old(self).inv(),
            old(cels).wf(),
            doc_wf(old(doc)@, old(cels)@),
        ensures
            final(cels).wf(),
            doc_wf(final(doc)@, final(cels)@),
            (final(doc)@, final(cels)@) == old(self).reverted(old(doc)@, old(cels)@),
            old(self).reverts_to(*final(self), old(doc)@, old(cels)@),
            old(self).applied_on(old(doc)@, old(cels)@) ==> final(self).ready(),
    ;

    /// Whether this command absorbs `next` in [`Command::merge`]. Unless a
    /// command says otherwise, it absorbs nothing.
    open spec fn merges_with(&self, next: &Self) -> bool {
        false
    }

    /// If this command can absorb `next` (e.g. consecutive pencil strokes
    /// inside one press-drag-release), update `self` to subsume both effects
    /// and return `true`. Default: no merging.
    fn merge(&mut self, next: &Self) -> (r: bool)
        ensures
            !r ==> *final(self) == *old(self),
            r && old(self).inv() && next.inv() ==> final(self).inv(),
            r ==> forall|d1: SpriteModel, c1: CelsModel, d2: SpriteModel, c2: CelsModel|
                #![trigger final(self).reverted(d2, c2), old(self).reverted(d1, c1)]
                old(self).applied_on(d1, c1) && next.applied_on(d2, c2) && next.reverted(d2, c2)
                    == (d1, c1) ==> {
                    &&& final(self).applied_on(d2, c2)
                    &&& final(self).reverted(d2, c2) == old(self).reverted(d1, c1)
                },
        default_ensures
            !r,
    {
        false
    }

    /// The part of the document a successful apply (or revert) changed,
    /// as a value: the whole canvas, unless a command says otherwise.
    open spec fn dirty(&self) -> DirtyRegion {
        DirtyRegion::Canvas
    }

    /// The part of the document a successful apply (or revert) changed. A
    /// command that keeps this default reports the whole canvas; one that
    /// overrides it states its own region as [`Command::dirty`].
    fn dirty_region(&self) -> (d: DirtyRegion)
        default_ensures
            d == DirtyRegion::Canvas,
    {
        DirtyRegion::Canvas
    }
}

} // verus!
