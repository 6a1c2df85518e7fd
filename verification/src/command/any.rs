//! [`AnyCommand`] — every command of the library in one type, so the undo
//! history can hold them side by side.
use vstd::prelude::*;

use super::dirty::DirtyRegion;
use super::error::CommandError;
use super::{CelsModel, Command};
use crate::document::sprite::SpriteModel;
use crate::document::{CelMap, Sprite};

use super::add_frame::AddFrame;
use super::add_layer::AddLayer;
use super::add_slice::AddSlice;
use super::add_tile::AddTile;
use super::add_tileset::AddTileset;
use super::clear_region::ClearRegion;
use super::draw_line::DrawLine;
use super::draw_rectangle::DrawRectangle;
use super::place_tile::PlaceTile;
use super::remove_slice::RemoveSlice;
use super::replace_cel_pixels::ReplaceCelPixels;
use super::set_frame_duration::SetFrameDuration;
use super::set_layer_blend_mode::SetLayerBlendMode;
use super::set_layer_name::SetLayerName;
use super::set_layer_opacity::SetLayerOpacity;
use super::set_layer_visible::SetLayerVisible;
use super::set_pixel::SetPixel;
use super::set_slice_key::SetSliceKey;
use super::set_tile_pixel::SetTilePixel;
use super::duplicate_layer::DuplicateLayer;
use super::move_selection_content::MoveSelectionContent;
use super::draw_ellipse::DrawEllipse;
use super::transform_cel::TransformCel;
use super::transform_canvas::TransformCanvas;
use super::reframe_canvas::ReframeCanvas;
use super::fill_region::FillRegion;
use super::remove_layer::RemoveLayer;
use super::add_tilemap_layer::AddTilemapLayer;
use super::move_layer::MoveLayer;

verus! {

/// One command of any kind.
#[derive(Debug)]
pub enum AnyCommand {
    AddFrame(AddFrame),
    AddLayer(AddLayer),
    AddSlice(AddSlice),
    AddTile(AddTile),
    AddTileset(AddTileset),
    ClearRegion(ClearRegion),
    DrawLine(DrawLine),
    DrawRectangle(DrawRectangle),
    PlaceTile(PlaceTile),
    RemoveSlice(RemoveSlice),
    ReplaceCelPixels(ReplaceCelPixels),
    SetFrameDuration(SetFrameDuration),
    SetLayerBlendMode(SetLayerBlendMode),
    SetLayerName(SetLayerName),
    SetLayerOpacity(SetLayerOpacity),
    SetLayerVisible(SetLayerVisible),
    SetPixel(SetPixel),
    SetSliceKey(SetSliceKey),
    SetTilePixel(SetTilePixel),
    DuplicateLayer(DuplicateLayer),
    MoveSelectionContent(MoveSelectionContent),
    DrawEllipse(DrawEllipse),
    TransformCel(TransformCel),
    TransformCanvas(TransformCanvas),
    ReframeCanvas(ReframeCanvas),
    FillRegion(FillRegion),
    RemoveLayer(RemoveLayer),
    AddTilemapLayer(AddTilemapLayer),
    MoveLayer(MoveLayer),
}

impl Command for AnyCommand {
    open spec fn ready(&self) -> bool {
        match self {
            AnyCommand::AddFrame(c) => c.ready(),
            AnyCommand::AddLayer(c) => c.ready(),
            AnyCommand::AddSlice(c) => c.ready(),
            AnyCommand::AddTile(c) => c.ready(),
            AnyCommand::AddTileset(c) => c.ready(),
            AnyCommand::ClearRegion(c) => c.ready(),
            AnyCommand::DrawLine(c) => c.ready(),
            AnyCommand::DrawRectangle(c) => c.ready(),
            AnyCommand::PlaceTile(c) => c.ready(),
            AnyCommand::RemoveSlice(c) => c.ready(),
            AnyCommand::ReplaceCelPixels(c) => c.ready(),
            AnyCommand::SetFrameDuration(c) => c.ready(),
            AnyCommand::SetLayerBlendMode(c) => c.ready(),
            AnyCommand::SetLayerName(c) => c.ready(),
            AnyCommand::SetLayerOpacity(c) => c.ready(),
            AnyCommand::SetLayerVisible(c) => c.ready(),
            AnyCommand::SetPixel(c) => c.ready(),
            AnyCommand::SetSliceKey(c) => c.ready(),
            AnyCommand::SetTilePixel(c) => c.ready(),
            AnyCommand::DuplicateLayer(c) => c.ready(),
            AnyCommand::MoveSelectionContent(c) => c.ready(),
            AnyCommand::DrawEllipse(c) => c.ready(),
            AnyCommand::TransformCel(c) => c.ready(),
            AnyCommand::TransformCanvas(c) => c.ready(),
            AnyCommand::ReframeCanvas(c) => c.ready(),
            AnyCommand::FillRegion(c) => c.ready(),
            AnyCommand::RemoveLayer(c) => c.ready(),
            AnyCommand::AddTilemapLayer(c) => c.ready(),
            AnyCommand::MoveLayer(c) => c.ready(),
        }
    }

    open spec fn applied_on(&self, doc: SpriteModel, cels: CelsModel) -> bool {
        match self {
            AnyCommand::AddFrame(c) => c.applied_on(doc, cels),
            AnyCommand::AddLayer(c) => c.applied_on(doc, cels),
            AnyCommand::AddSlice(c) => c.applied_on(doc, cels),
            AnyCommand::AddTile(c) => c.applied_on(doc, cels),
            AnyCommand::AddTileset(c) => c.applied_on(doc, cels),
            AnyCommand::ClearRegion(c) => c.applied_on(doc, cels),
            AnyCommand::DrawLine(c) => c.applied_on(doc, cels),
            AnyCommand::DrawRectangle(c) => c.applied_on(doc, cels),
            AnyCommand::PlaceTile(c) => c.applied_on(doc, cels),
            AnyCommand::RemoveSlice(c) => c.applied_on(doc, cels),
            AnyCommand::ReplaceCelPixels(c) => c.applied_on(doc, cels),
            AnyCommand::SetFrameDuration(c) => c.applied_on(doc, cels),
            AnyCommand::SetLayerBlendMode(c) => c.applied_on(doc, cels),
            AnyCommand::SetLayerName(c) => c.applied_on(doc, cels),
            AnyCommand::SetLayerOpacity(c) => c.applied_on(doc, cels),
            AnyCommand::SetLayerVisible(c) => c.applied_on(doc, cels),
            AnyCommand::SetPixel(c) => c.applied_on(doc, cels),
            AnyCommand::SetSliceKey(c) => c.applied_on(doc, cels),
            AnyCommand::SetTilePixel(c) => c.applied_on(doc, cels),
            AnyCommand::DuplicateLayer(c) => c.applied_on(doc, cels),
            AnyCommand::MoveSelectionContent(c) => c.applied_on(doc, cels),
            AnyCommand::DrawEllipse(c) => c.applied_on(doc, cels),
            AnyCommand::TransformCel(c) => c.applied_on(doc, cels),
            AnyCommand::TransformCanvas(c) => c.applied_on(doc, cels),
            AnyCommand::ReframeCanvas(c) => c.applied_on(doc, cels),
            AnyCommand::FillRegion(c) => c.applied_on(doc, cels),
            AnyCommand::RemoveLayer(c) => c.applied_on(doc, cels),
            AnyCommand::AddTilemapLayer(c) => c.applied_on(doc, cels),
            AnyCommand::MoveLayer(c) => c.applied_on(doc, cels),
        }
    }

    open spec fn reverted(&self, doc: SpriteModel, cels: CelsModel) -> (SpriteModel, CelsModel) {
        match self {
            AnyCommand::AddFrame(c) => c.reverted(doc, cels),
            AnyCommand::AddLayer(c) => c.reverted(doc, cels),
            AnyCommand::AddSlice(c) => c.reverted(doc, cels),
            AnyCommand::AddTile(c) => c.reverted(doc, cels),
            AnyCommand::AddTileset(c) => c.reverted(doc, cels),
            AnyCommand::ClearRegion(c) => c.reverted(doc, cels),
            AnyCommand::DrawLine(c) => c.reverted(doc, cels),
            AnyCommand::DrawRectangle(c) => c.reverted(doc, cels),
            AnyCommand::PlaceTile(c) => c.reverted(doc, cels),
            AnyCommand::RemoveSlice(c) => c.reverted(doc, cels),
            AnyCommand::ReplaceCelPixels(c) => c.reverted(doc, cels),
            AnyCommand::SetFrameDuration(c) => c.reverted(doc, cels),
            AnyCommand::SetLayerBlendMode(c) => c.reverted(doc, cels),
            AnyCommand::SetLayerName(c) => c.reverted(doc, cels),
            AnyCommand::SetLayerOpacity(c) => c.reverted(doc, cels),
            AnyCommand::SetLayerVisible(c) => c.reverted(doc, cels),
            AnyCommand::SetPixel(c) => c.reverted(doc, cels),
            AnyCommand::SetSliceKey(c) => c.reverted(doc, cels),
            AnyCommand::SetTilePixel(c) => c.reverted(doc, cels),
            AnyCommand::DuplicateLayer(c) => c.reverted(doc, cels),
            AnyCommand::MoveSelectionContent(c) => c.reverted(doc, cels),
            AnyCommand::DrawEllipse(c) => c.reverted(doc, cels),
            AnyCommand::TransformCel(c) => c.reverted(doc, cels),
            AnyCommand::TransformCanvas(c) => c.reverted(doc, cels),
            AnyCommand::ReframeCanvas(c) => c.reverted(doc, cels),
            AnyCommand::FillRegion(c) => c.reverted(doc, cels),
            AnyCommand::RemoveLayer(c) => c.reverted(doc, cels),
            AnyCommand::AddTilemapLayer(c) => c.reverted(doc, cels),
            AnyCommand::MoveLayer(c) => c.reverted(doc, cels),
        }
    }

    open spec fn exact_on(&self, doc: SpriteModel, cels: CelsModel) -> bool {
        match self {
            AnyCommand::AddFrame(c) => c.exact_on(doc, cels),
            AnyCommand::AddLayer(c) => c.exact_on(doc, cels),
            AnyCommand::AddSlice(c) => c.exact_on(doc, cels),
            AnyCommand::AddTile(c) => c.exact_on(doc, cels),
            AnyCommand::AddTileset(c) => c.exact_on(doc, cels),
            AnyCommand::ClearRegion(c) => c.exact_on(doc, cels),
            AnyCommand::DrawLine(c) => c.exact_on(doc, cels),
            AnyCommand::DrawRectangle(c) => c.exact_on(doc, cels),
            AnyCommand::PlaceTile(c) => c.exact_on(doc, cels),
            AnyCommand::RemoveSlice(c) => c.exact_on(doc, cels),
            AnyCommand::ReplaceCelPixels(c) => c.exact_on(doc, cels),
            AnyCommand::SetFrameDuration(c) => c.exact_on(doc, cels),
            AnyCommand::SetLayerBlendMode(c) => c.exact_on(doc, cels),
            AnyCommand::SetLayerName(c) => c.exact_on(doc, cels),
            AnyCommand::SetLayerOpacity(c) => c.exact_on(doc, cels),
            AnyCommand::SetLayerVisible(c) => c.exact_on(doc, cels),
            AnyCommand::SetPixel(c) => c.exact_on(doc, cels),
            AnyCommand::SetSliceKey(c) => c.exact_on(doc, cels),
            AnyCommand::SetTilePixel(c) => c.exact_on(doc, cels),
            AnyCommand::DuplicateLayer(c) => c.exact_on(doc, cels),
            AnyCommand::MoveSelectionContent(c) => c.exact_on(doc, cels),
            AnyCommand::DrawEllipse(c) => c.exact_on(doc, cels),
            AnyCommand::TransformCel(c) => c.exact_on(doc, cels),
            AnyCommand::TransformCanvas(c) => c.exact_on(doc, cels),
            AnyCommand::ReframeCanvas(c) => c.exact_on(doc, cels),
            AnyCommand::FillRegion(c) => c.exact_on(doc, cels),
            AnyCommand::RemoveLayer(c) => c.exact_on(doc, cels),
            AnyCommand::AddTilemapLayer(c) => c.exact_on(doc, cels),
            AnyCommand::MoveLayer(c) => c.exact_on(doc, cels),
        }
    }

    open spec fn dirty(&self) -> DirtyRegion {
        match self {
            AnyCommand::AddFrame(c) => c.dirty(),
            AnyCommand::AddLayer(c) => c.dirty(),
            AnyCommand::AddSlice(c) => c.dirty(),
            AnyCommand::AddTile(c) => c.dirty(),
            AnyCommand::AddTileset(c) => c.dirty(),
            AnyCommand::ClearRegion(c) => c.dirty(),
            AnyCommand::DrawLine(c) => c.dirty(),
            AnyCommand::DrawRectangle(c) => c.dirty(),
            AnyCommand::PlaceTile(c) => c.dirty(),
            AnyCommand::RemoveSlice(c) => c.dirty(),
            AnyCommand::ReplaceCelPixels(c) => c.dirty(),
            AnyCommand::SetFrameDuration(c) => c.dirty(),
            AnyCommand::SetLayerBlendMode(c) => c.dirty(),
            AnyCommand::SetLayerName(c) => c.dirty(),
            AnyCommand::SetLayerOpacity(c) => c.dirty(),
            AnyCommand::SetLayerVisible(c) => c.dirty(),
            AnyCommand::SetPixel(c) => c.dirty(),
            AnyCommand::SetSliceKey(c) => c.dirty(),
            AnyCommand::SetTilePixel(c) => c.dirty(),
            AnyCommand::DuplicateLayer(c) => c.dirty(),
            AnyCommand::MoveSelectionContent(c) => c.dirty(),
            AnyCommand::DrawEllipse(c) => c.dirty(),
            AnyCommand::TransformCel(c) => c.dirty(),
            AnyCommand::TransformCanvas(c) => c.dirty(),
            AnyCommand::ReframeCanvas(c) => c.dirty(),
            AnyCommand::FillRegion(c) => c.dirty(),
            AnyCommand::RemoveLayer(c) => c.dirty(),
            AnyCommand::AddTilemapLayer(c) => c.dirty(),
            AnyCommand::MoveLayer(c) => c.dirty(),
        }
    }

    open spec fn merges_with(&self, next: &Self) -> bool {
        match (self, next) {
            (AnyCommand::AddFrame(a), AnyCommand::AddFrame(b)) => a.merges_with(b),
            (AnyCommand::AddLayer(a), AnyCommand::AddLayer(b)) => a.merges_with(b),
            (AnyCommand::AddSlice(a), AnyCommand::AddSlice(b)) => a.merges_with(b),
            (AnyCommand::AddTile(a), AnyCommand::AddTile(b)) => a.merges_with(b),
            (AnyCommand::AddTileset(a), AnyCommand::AddTileset(b)) => a.merges_with(b),
            (AnyCommand::ClearRegion(a), AnyCommand::ClearRegion(b)) => a.merges_with(b),
            (AnyCommand::DrawLine(a), AnyCommand::DrawLine(b)) => a.merges_with(b),
            (AnyCommand::DrawRectangle(a), AnyCommand::DrawRectangle(b)) => a.merges_with(b),
            (AnyCommand::PlaceTile(a), AnyCommand::PlaceTile(b)) => a.merges_with(b),
            (AnyCommand::RemoveSlice(a), AnyCommand::RemoveSlice(b)) => a.merges_with(b),
            (AnyCommand::ReplaceCelPixels(a), AnyCommand::ReplaceCelPixels(b)) => a.merges_with(b),
            (AnyCommand::SetFrameDuration(a), AnyCommand::SetFrameDuration(b)) => a.merges_with(b),
            (AnyCommand::SetLayerBlendMode(a), AnyCommand::SetLayerBlendMode(b)) => a.merges_with(b),
            (AnyCommand::SetLayerName(a), AnyCommand::SetLayerName(b)) => a.merges_with(b),
            (AnyCommand::SetLayerOpacity(a), AnyCommand::SetLayerOpacity(b)) => a.merges_with(b),
            (AnyCommand::SetLayerVisible(a), AnyCommand::SetLayerVisible(b)) => a.merges_with(b),
            (AnyCommand::SetPixel(a), AnyCommand::SetPixel(b)) => a.merges_with(b),
            (AnyCommand::SetSliceKey(a), AnyCommand::SetSliceKey(b)) => a.merges_with(b),
            (AnyCommand::SetTilePixel(a), AnyCommand::SetTilePixel(b)) => a.merges_with(b),
            (AnyCommand::DuplicateLayer(a), AnyCommand::DuplicateLayer(b)) => a.merges_with(b),
            (AnyCommand::MoveSelectionContent(a), AnyCommand::MoveSelectionContent(b)) => a.merges_with(b),
            (AnyCommand::DrawEllipse(a), AnyCommand::DrawEllipse(b)) => a.merges_with(b),
            (AnyCommand::TransformCel(a), AnyCommand::TransformCel(b)) => a.merges_with(b),
            (AnyCommand::TransformCanvas(a), AnyCommand::TransformCanvas(b)) => a.merges_with(b),
            (AnyCommand::ReframeCanvas(a), AnyCommand::ReframeCanvas(b)) => a.merges_with(b),
            (AnyCommand::FillRegion(a), AnyCommand::FillRegion(b)) => a.merges_with(b),
            (AnyCommand::RemoveLayer(a), AnyCommand::RemoveLayer(b)) => a.merges_with(b),
            (AnyCommand::AddTilemapLayer(a), AnyCommand::AddTilemapLayer(b)) => a.merges_with(b),
            (AnyCommand::MoveLayer(a), AnyCommand::MoveLayer(b)) => a.merges_with(b),
            _ => false,
        }
    }

    open spec fn succeeds_on(&self, doc: SpriteModel, cels: CelsModel) -> bool {
        match self {
            AnyCommand::AddFrame(c) => c.succeeds_on(doc, cels),
            AnyCommand::AddLayer(c) => c.succeeds_on(doc, cels),
            AnyCommand::AddSlice(c) => c.succeeds_on(doc, cels),
            AnyCommand::AddTile(c) => c.succeeds_on(doc, cels),
            AnyCommand::AddTileset(c) => c.succeeds_on(doc, cels),
            AnyCommand::ClearRegion(c) => c.succeeds_on(doc, cels),
            AnyCommand::DrawLine(c) => c.succeeds_on(doc, cels),
            AnyCommand::DrawRectangle(c) => c.succeeds_on(doc, cels),
            AnyCommand::PlaceTile(c) => c.succeeds_on(doc, cels),
            AnyCommand::RemoveSlice(c) => c.succeeds_on(doc, cels),
            AnyCommand::ReplaceCelPixels(c) => c.succeeds_on(doc, cels),
            AnyCommand::SetFrameDuration(c) => c.succeeds_on(doc, cels),
            AnyCommand::SetLayerBlendMode(c) => c.succeeds_on(doc, cels),
            AnyCommand::SetLayerName(c) => c.succeeds_on(doc, cels),
            AnyCommand::SetLayerOpacity(c) => c.succeeds_on(doc, cels),
            AnyCommand::SetLayerVisible(c) => c.succeeds_on(doc, cels),
            AnyCommand::SetPixel(c) => c.succeeds_on(doc, cels),
            AnyCommand::SetSliceKey(c) => c.succeeds_on(doc, cels),
            AnyCommand::SetTilePixel(c) => c.succeeds_on(doc, cels),
            AnyCommand::DuplicateLayer(c) => c.succeeds_on(doc, cels),
            AnyCommand::MoveSelectionContent(c) => c.succeeds_on(doc, cels),
            AnyCommand::DrawEllipse(c) => c.succeeds_on(doc, cels),
            AnyCommand::TransformCel(c) => c.succeeds_on(doc, cels),
            AnyCommand::TransformCanvas(c) => c.succeeds_on(doc, cels),
            AnyCommand::ReframeCanvas(c) => c.succeeds_on(doc, cels),
            AnyCommand::FillRegion(c) => c.succeeds_on(doc, cels),
            AnyCommand::RemoveLayer(c) => c.succeeds_on(doc, cels),
            AnyCommand::AddTilemapLayer(c) => c.succeeds_on(doc, cels),
            AnyCommand::MoveLayer(c) => c.succeeds_on(doc, cels),
        }
    }

    open spec fn fails_with(&self, doc: SpriteModel, cels: CelsModel, e: CommandError) -> bool {
        match self {
            AnyCommand::AddFrame(c) => c.fails_with(doc, cels, e),
            AnyCommand::AddLayer(c) => c.fails_with(doc, cels, e),
            AnyCommand::AddSlice(c) => c.fails_with(doc, cels, e),
            AnyCommand::AddTile(c) => c.fails_with(doc, cels, e),
            AnyCommand::AddTileset(c) => c.fails_with(doc, cels, e),
            AnyCommand::ClearRegion(c) => c.fails_with(doc, cels, e),
            AnyCommand::DrawLine(c) => c.fails_with(doc, cels, e),
            AnyCommand::DrawRectangle(c) => c.fails_with(doc, cels, e),
            AnyCommand::PlaceTile(c) => c.fails_with(doc, cels, e),
            AnyCommand::RemoveSlice(c) => c.fails_with(doc, cels, e),
            AnyCommand::ReplaceCelPixels(c) => c.fails_with(doc, cels, e),
            AnyCommand::SetFrameDuration(c) => c.fails_with(doc, cels, e),
            AnyCommand::SetLayerBlendMode(c) => c.fails_with(doc, cels, e),
            AnyCommand::SetLayerName(c) => c.fails_with(doc, cels, e),
            AnyCommand::SetLayerOpacity(c) => c.fails_with(doc, cels, e),
            AnyCommand::SetLayerVisible(c) => c.fails_with(doc, cels, e),
            AnyCommand::SetPixel(c) => c.fails_with(doc, cels, e),
            AnyCommand::SetSliceKey(c) => c.fails_with(doc, cels, e),
            AnyCommand::SetTilePixel(c) => c.fails_with(doc, cels, e),
            AnyCommand::DuplicateLayer(c) => c.fails_with(doc, cels, e),
            AnyCommand::MoveSelectionContent(c) => c.fails_with(doc, cels, e),
            AnyCommand::DrawEllipse(c) => c.fails_with(doc, cels, e),
            AnyCommand::TransformCel(c) => c.fails_with(doc, cels, e),
            AnyCommand::TransformCanvas(c) => c.fails_with(doc, cels, e),
            AnyCommand::ReframeCanvas(c) => c.fails_with(doc, cels, e),
            AnyCommand::FillRegion(c) => c.fails_with(doc, cels, e),
            AnyCommand::RemoveLayer(c) => c.fails_with(doc, cels, e),
            AnyCommand::AddTilemapLayer(c) => c.fails_with(doc, cels, e),
            AnyCommand::MoveLayer(c) => c.fails_with(doc, cels, e),
        }
    }

    open spec fn outcome(&self, doc: SpriteModel, cels: CelsModel) -> (SpriteModel, CelsModel) {
        match self {
            AnyCommand::AddFrame(c) => c.outcome(doc, cels),
            AnyCommand::AddLayer(c) => c.outcome(doc, cels),
            AnyCommand::AddSlice(c) => c.outcome(doc, cels),
            AnyCommand::AddTile(c) => c.outcome(doc, cels),
            AnyCommand::AddTileset(c) => c.outcome(doc, cels),
            AnyCommand::ClearRegion(c) => c.outcome(doc, cels),
            AnyCommand::DrawLine(c) => c.outcome(doc, cels),
            AnyCommand::DrawRectangle(c) => c.outcome(doc, cels),
            AnyCommand::PlaceTile(c) => c.outcome(doc, cels),
            AnyCommand::RemoveSlice(c) => c.outcome(doc, cels),
            AnyCommand::ReplaceCelPixels(c) => c.outcome(doc, cels),
            AnyCommand::SetFrameDuration(c) => c.outcome(doc, cels),
            AnyCommand::SetLayerBlendMode(c) => c.outcome(doc, cels),
            AnyCommand::SetLayerName(c) => c.outcome(doc, cels),
            AnyCommand::SetLayerOpacity(c) => c.outcome(doc, cels),
            AnyCommand::SetLayerVisible(c) => c.outcome(doc, cels),
            AnyCommand::SetPixel(c) => c.outcome(doc, cels),
            AnyCommand::SetSliceKey(c) => c.outcome(doc, cels),
            AnyCommand::SetTilePixel(c) => c.outcome(doc, cels),
            AnyCommand::DuplicateLayer(c) => c.outcome(doc, cels),
            AnyCommand::MoveSelectionContent(c) => c.outcome(doc, cels),
            AnyCommand::DrawEllipse(c) => c.outcome(doc, cels),
            AnyCommand::TransformCel(c) => c.outcome(doc, cels),
            AnyCommand::TransformCanvas(c) => c.outcome(doc, cels),
            AnyCommand::ReframeCanvas(c) => c.outcome(doc, cels),
            AnyCommand::FillRegion(c) => c.outcome(doc, cels),
            AnyCommand::RemoveLayer(c) => c.outcome(doc, cels),
            AnyCommand::AddTilemapLayer(c) => c.outcome(doc, cels),
            AnyCommand::MoveLayer(c) => c.outcome(doc, cels),
        }
    }

    open spec fn reverts_to(&self, back: Self, doc: SpriteModel, cels: CelsModel) -> bool {
        match (self, back) {
            (AnyCommand::AddFrame(a), AnyCommand::AddFrame(b)) => a.reverts_to(b, doc, cels),
            (AnyCommand::AddLayer(a), AnyCommand::AddLayer(b)) => a.reverts_to(b, doc, cels),
            (AnyCommand::AddSlice(a), AnyCommand::AddSlice(b)) => a.reverts_to(b, doc, cels),
            (AnyCommand::AddTile(a), AnyCommand::AddTile(b)) => a.reverts_to(b, doc, cels),
            (AnyCommand::AddTileset(a), AnyCommand::AddTileset(b)) => a.reverts_to(b, doc, cels),
            (AnyCommand::ClearRegion(a), AnyCommand::ClearRegion(b)) => a.reverts_to(b, doc, cels),
            (AnyCommand::DrawLine(a), AnyCommand::DrawLine(b)) => a.reverts_to(b, doc, cels),
            (AnyCommand::DrawRectangle(a), AnyCommand::DrawRectangle(b)) => a.reverts_to(b, doc, cels),
            (AnyCommand::PlaceTile(a), AnyCommand::PlaceTile(b)) => a.reverts_to(b, doc, cels),
            (AnyCommand::RemoveSlice(a), AnyCommand::RemoveSlice(b)) => a.reverts_to(b, doc, cels),
            (AnyCommand::ReplaceCelPixels(a), AnyCommand::ReplaceCelPixels(b)) => a.reverts_to(b, doc, cels),
            (AnyCommand::SetFrameDuration(a), AnyCommand::SetFrameDuration(b)) => a.reverts_to(b, doc, cels),
            (AnyCommand::SetLayerBlendMode(a), AnyCommand::SetLayerBlendMode(b)) => a.reverts_to(b, doc, cels),
            (AnyCommand::SetLayerName(a), AnyCommand::SetLayerName(b)) => a.reverts_to(b, doc, cels),
            (AnyCommand::SetLayerOpacity(a), AnyCommand::SetLayerOpacity(b)) => a.reverts_to(b, doc, cels),
            (AnyCommand::SetLayerVisible(a), AnyCommand::SetLayerVisible(b)) => a.reverts_to(b, doc, cels),
            (AnyCommand::SetPixel(a), AnyCommand::SetPixel(b)) => a.reverts_to(b, doc, cels),
            (AnyCommand::SetSliceKey(a), AnyCommand::SetSliceKey(b)) => a.reverts_to(b, doc, cels),
            (AnyCommand::SetTilePixel(a), AnyCommand::SetTilePixel(b)) => a.reverts_to(b, doc, cels),
            (AnyCommand::DuplicateLayer(a), AnyCommand::DuplicateLayer(b)) => a.reverts_to(b, doc, cels),
            (AnyCommand::MoveSelectionContent(a), AnyCommand::MoveSelectionContent(b)) => a.reverts_to(b, doc, cels),
            (AnyCommand::DrawEllipse(a), AnyCommand::DrawEllipse(b)) => a.reverts_to(b, doc, cels),
            (AnyCommand::TransformCel(a), AnyCommand::TransformCel(b)) => a.reverts_to(b, doc, cels),
            (AnyCommand::TransformCanvas(a), AnyCommand::TransformCanvas(b)) => a.reverts_to(b, doc, cels),
            (AnyCommand::ReframeCanvas(a), AnyCommand::ReframeCanvas(b)) => a.reverts_to(b, doc, cels),
            (AnyCommand::FillRegion(a), AnyCommand::FillRegion(b)) => a.reverts_to(b, doc, cels),
            (AnyCommand::RemoveLayer(a), AnyCommand::RemoveLayer(b)) => a.reverts_to(b, doc, cels),
            (AnyCommand::AddTilemapLayer(a), AnyCommand::AddTilemapLayer(b)) => a.reverts_to(b, doc, cels),
            (AnyCommand::MoveLayer(a), AnyCommand::MoveLayer(b)) => a.reverts_to(b, doc, cels),
            _ => false,
        }
    }

    fn is_ready(&self) -> (b: bool) {
        match self {
            AnyCommand::AddFrame(c) => c.is_ready(),
            AnyCommand::AddLayer(c) => c.is_ready(),
            AnyCommand::AddSlice(c) => c.is_ready(),
            AnyCommand::AddTile(c) => c.is_ready(),
            AnyCommand::AddTileset(c) => c.is_ready(),
            AnyCommand::ClearRegion(c) => c.is_ready(),
            AnyCommand::DrawLine(c) => c.is_ready(),
            AnyCommand::DrawRectangle(c) => c.is_ready(),
            AnyCommand::PlaceTile(c) => c.is_ready(),
            AnyCommand::RemoveSlice(c) => c.is_ready(),
            AnyCommand::ReplaceCelPixels(c) => c.is_ready(),
            AnyCommand::SetFrameDuration(c) => c.is_ready(),
            AnyCommand::SetLayerBlendMode(c) => c.is_ready(),
            AnyCommand::SetLayerName(c) => c.is_ready(),
            AnyCommand::SetLayerOpacity(c) => c.is_ready(),
            AnyCommand::SetLayerVisible(c) => c.is_ready(),
            AnyCommand::SetPixel(c) => c.is_ready(),
            AnyCommand::SetSliceKey(c) => c.is_ready(),
            AnyCommand::SetTilePixel(c) => c.is_ready(),
            AnyCommand::DuplicateLayer(c) => c.is_ready(),
            AnyCommand::MoveSelectionContent(c) => c.is_ready(),
            AnyCommand::DrawEllipse(c) => c.is_ready(),
            AnyCommand::TransformCel(c) => c.is_ready(),
            AnyCommand::TransformCanvas(c) => c.is_ready(),
            AnyCommand::ReframeCanvas(c) => c.is_ready(),
            AnyCommand::FillRegion(c) => c.is_ready(),
            AnyCommand::RemoveLayer(c) => c.is_ready(),
            AnyCommand::AddTilemapLayer(c) => c.is_ready(),
            AnyCommand::MoveLayer(c) => c.is_ready(),
        }
    }

    open spec fn fits(&self, doc: SpriteModel) -> bool {
        match self {
            AnyCommand::AddFrame(c) => c.fits(doc),
            AnyCommand::AddLayer(c) => c.fits(doc),
            AnyCommand::AddSlice(c) => c.fits(doc),
            AnyCommand::AddTile(c) => c.fits(doc),
            AnyCommand::AddTileset(c) => c.fits(doc),
            AnyCommand::ClearRegion(c) => c.fits(doc),
            AnyCommand::DrawLine(c) => c.fits(doc),
            AnyCommand::DrawRectangle(c) => c.fits(doc),
            AnyCommand::PlaceTile(c) => c.fits(doc),
            AnyCommand::RemoveSlice(c) => c.fits(doc),
            AnyCommand::ReplaceCelPixels(c) => c.fits(doc),
            AnyCommand::SetFrameDuration(c) => c.fits(doc),
            AnyCommand::SetLayerBlendMode(c) => c.fits(doc),
            AnyCommand::SetLayerName(c) => c.fits(doc),
            AnyCommand::SetLayerOpacity(c) => c.fits(doc),
            AnyCommand::SetLayerVisible(c) => c.fits(doc),
            AnyCommand::SetPixel(c) => c.fits(doc),
            AnyCommand::SetSliceKey(c) => c.fits(doc),
            AnyCommand::SetTilePixel(c) => c.fits(doc),
            AnyCommand::DuplicateLayer(c) => c.fits(doc),
            AnyCommand::MoveSelectionContent(c) => c.fits(doc),
            AnyCommand::DrawEllipse(c) => c.fits(doc),
            AnyCommand::TransformCel(c) => c.fits(doc),
            AnyCommand::TransformCanvas(c) => c.fits(doc),
            AnyCommand::ReframeCanvas(c) => c.fits(doc),
            AnyCommand::FillRegion(c) => c.fits(doc),
            AnyCommand::RemoveLayer(c) => c.fits(doc),
            AnyCommand::AddTilemapLayer(c) => c.fits(doc),
            AnyCommand::MoveLayer(c) => c.fits(doc),
        }
    }

    open spec fn inv(&self) -> bool {
        match self {
            AnyCommand::AddFrame(c) => c.inv(),
            AnyCommand::AddLayer(c) => c.inv(),
            AnyCommand::AddSlice(c) => c.inv(),
            AnyCommand::AddTile(c) => c.inv(),
            AnyCommand::AddTileset(c) => c.inv(),
            AnyCommand::ClearRegion(c) => c.inv(),
            AnyCommand::DrawLine(c) => c.inv(),
            AnyCommand::DrawRectangle(c) => c.inv(),
            AnyCommand::PlaceTile(c) => c.inv(),
            AnyCommand::RemoveSlice(c) => c.inv(),
            AnyCommand::ReplaceCelPixels(c) => c.inv(),
            AnyCommand::SetFrameDuration(c) => c.inv(),
            AnyCommand::SetLayerBlendMode(c) => c.inv(),
            AnyCommand::SetLayerName(c) => c.inv(),
            AnyCommand::SetLayerOpacity(c) => c.inv(),
            AnyCommand::SetLayerVisible(c) => c.inv(),
            AnyCommand::SetPixel(c) => c.inv(),
            AnyCommand::SetSliceKey(c) => c.inv(),
            AnyCommand::SetTilePixel(c) => c.inv(),
            AnyCommand::DuplicateLayer(c) => c.inv(),
            AnyCommand::MoveSelectionContent(c) => c.inv(),
            AnyCommand::DrawEllipse(c) => c.inv(),
            AnyCommand::TransformCel(c) => c.inv(),
            AnyCommand::TransformCanvas(c) => c.inv(),
            AnyCommand::ReframeCanvas(c) => c.inv(),
            AnyCommand::FillRegion(c) => c.inv(),
            AnyCommand::RemoveLayer(c) => c.inv(),
            AnyCommand::AddTilemapLayer(c) => c.inv(),
            AnyCommand::MoveLayer(c) => c.inv(),
        }
    }

    fn fits_doc(&self, doc: &Sprite) -> (b: bool) {
        match self {
            AnyCommand::AddFrame(c) => c.fits_doc(doc),
            AnyCommand::AddLayer(c) => c.fits_doc(doc),
            AnyCommand::AddSlice(c) => c.fits_doc(doc),
            AnyCommand::AddTile(c) => c.fits_doc(doc),
            AnyCommand::AddTileset(c) => c.fits_doc(doc),
            AnyCommand::ClearRegion(c) => c.fits_doc(doc),
            AnyCommand::DrawLine(c) => c.fits_doc(doc),
            AnyCommand::DrawRectangle(c) => c.fits_doc(doc),
            AnyCommand::PlaceTile(c) => c.fits_doc(doc),
            AnyCommand::RemoveSlice(c) => c.fits_doc(doc),
            AnyCommand::ReplaceCelPixels(c) => c.fits_doc(doc),
            AnyCommand::SetFrameDuration(c) => c.fits_doc(doc),
            AnyCommand::SetLayerBlendMode(c) => c.fits_doc(doc),
            AnyCommand::SetLayerName(c) => c.fits_doc(doc),
            AnyCommand::SetLayerOpacity(c) => c.fits_doc(doc),
            AnyCommand::SetLayerVisible(c) => c.fits_doc(doc),
            AnyCommand::SetPixel(c) => c.fits_doc(doc),
            AnyCommand::SetSliceKey(c) => c.fits_doc(doc),
            AnyCommand::SetTilePixel(c) => c.fits_doc(doc),
            AnyCommand::DuplicateLayer(c) => c.fits_doc(doc),
            AnyCommand::MoveSelectionContent(c) => c.fits_doc(doc),
            AnyCommand::DrawEllipse(c) => c.fits_doc(doc),
            AnyCommand::TransformCel(c) => c.fits_doc(doc),
            AnyCommand::TransformCanvas(c) => c.fits_doc(doc),
            AnyCommand::ReframeCanvas(c) => c.fits_doc(doc),
            AnyCommand::FillRegion(c) => c.fits_doc(doc),
            AnyCommand::RemoveLayer(c) => c.fits_doc(doc),
            AnyCommand::AddTilemapLayer(c) => c.fits_doc(doc),
            AnyCommand::MoveLayer(c) => c.fits_doc(doc),
        }
    }

    #[verifier::rlimit(100)]
    #[verifier::spinoff_prover]
    fn apply(&mut self, doc: &mut Sprite, cels: &mut CelMap) -> (r: Result<(), CommandError>)
        ensures
            forall|p: AnyCommand| #[trigger] p.merges_with(final(self)) == p.merges_with(old(self)),
    {
        match self {
            AnyCommand::AddFrame(c) => {
                let r = c.apply(doc, cels);
                proof {
                    if r is Ok && old(self).exact_on(old(doc)@, old(cels)@) {
                        assert forall|b: AnyCommand| #[trigger] self.reverts_to(b, doc@, cels@) implies {
                            &&& b.ready()
                            &&& b.fits(old(doc)@)
                            &&& b.succeeds_on(old(doc)@, old(cels)@)
                            &&& b.outcome(old(doc)@, old(cels)@) == (doc@, cels@)
                        } by {
                            if let AnyCommand::AddFrame(bi) = b {
                                if let AnyCommand::AddFrame(a) = *self {
                                    assert(a.reverts_to(bi, doc@, cels@));
                                }
                            }
                        }
                    }
                }
                r
            },
            AnyCommand::AddLayer(c) => {
                let r = c.apply(doc, cels);
                proof {
                    if r is Ok && old(self).exact_on(old(doc)@, old(cels)@) {
                        assert forall|b: AnyCommand| #[trigger] self.reverts_to(b, doc@, cels@) implies {
                            &&& b.ready()
                            &&& b.fits(old(doc)@)
                            &&& b.succeeds_on(old(doc)@, old(cels)@)
                            &&& b.outcome(old(doc)@, old(cels)@) == (doc@, cels@)
                        } by {
                            if let AnyCommand::AddLayer(bi) = b {
                                if let AnyCommand::AddLayer(a) = *self {
                                    assert(a.reverts_to(bi, doc@, cels@));
                                }
                            }
                        }
                    }
                }
                r
            },
            AnyCommand::AddSlice(c) => {
                let r = c.apply(doc, cels);
                proof {
                    if r is Ok && old(self).exact_on(old(doc)@, old(cels)@) {
                        assert forall|b: AnyCommand| #[trigger] self.reverts_to(b, doc@, cels@) implies {
                            &&& b.ready()
                            &&& b.fits(old(doc)@)
                            &&& b.succeeds_on(old(doc)@, old(cels)@)
                            &&& b.outcome(old(doc)@, old(cels)@) == (doc@, cels@)
                        } by {
                            if let AnyCommand::AddSlice(bi) = b {
                                if let AnyCommand::AddSlice(a) = *self {
                                    assert(a.reverts_to(bi, doc@, cels@));
                                }
                            }
                        }
                    }
                }
                r
            },
            AnyCommand::AddTile(c) => {
                let r = c.apply(doc, cels);
                proof {
                    if r is Ok && old(self).exact_on(old(doc)@, old(cels)@) {
                        assert forall|b: AnyCommand| #[trigger] self.reverts_to(b, doc@, cels@) implies {
                            &&& b.ready()
                            &&& b.fits(old(doc)@)
                            &&& b.succeeds_on(old(doc)@, old(cels)@)
                            &&& b.outcome(old(doc)@, old(cels)@) == (doc@, cels@)
                        } by {
                            if let AnyCommand::AddTile(bi) = b {
                                if let AnyCommand::AddTile(a) = *self {
                                    assert(a.reverts_to(bi, doc@, cels@));
                                }
                            }
                        }
                    }
                }
                r
            },
            AnyCommand::AddTileset(c) => {
                let r = c.apply(doc, cels);
                proof {
                    if r is Ok && old(self).exact_on(old(doc)@, old(cels)@) {
                        assert forall|b: AnyCommand| #[trigger] self.reverts_to(b, doc@, cels@) implies {
                            &&& b.ready()
                            &&& b.fits(old(doc)@)
                            &&& b.succeeds_on(old(doc)@, old(cels)@)
                            &&& b.outcome(old(doc)@, old(cels)@) == (doc@, cels@)
                        } by {
                            if let AnyCommand::AddTileset(bi) = b {
                                if let AnyCommand::AddTileset(a) = *self {
                                    assert(a.reverts_to(bi, doc@, cels@));
                                }
                            }
                        }
                    }
                }
                r
            },
            AnyCommand::ClearRegion(c) => {
                let r = c.apply(doc, cels);
                proof {
                    if r is Ok && old(self).exact_on(old(doc)@, old(cels)@) {
                        assert forall|b: AnyCommand| #[trigger] self.reverts_to(b, doc@, cels@) implies {
                            &&& b.ready()
                            &&& b.fits(old(doc)@)
                            &&& b.succeeds_on(old(doc)@, old(cels)@)
                            &&& b.outcome(old(doc)@, old(cels)@) == (doc@, cels@)
                        } by {
                            if let AnyCommand::ClearRegion(bi) = b {
                                if let AnyCommand::ClearRegion(a) = *self {
                                    assert(a.reverts_to(bi, doc@, cels@));
                                }
                            }
                        }
                    }
                }
                r
            },
            AnyCommand::DrawLine(c) => {
                let r = c.apply(doc, cels);
                proof {
                    if r is Ok && old(self).exact_on(old(doc)@, old(cels)@) {
                        assert forall|b: AnyCommand| #[trigger] self.reverts_to(b, doc@, cels@) implies {
                            &&& b.ready()
                            &&& b.fits(old(doc)@)
                            &&& b.succeeds_on(old(doc)@, old(cels)@)
                            &&& b.outcome(old(doc)@, old(cels)@) == (doc@, cels@)
                        } by {
                            if let AnyCommand::DrawLine(bi) = b {
                                if let AnyCommand::DrawLine(a) = *self {
                                    assert(a.reverts_to(bi, doc@, cels@));
                                }
                            }
                        }
                    }
                }
                r
            },
            AnyCommand::DrawRectangle(c) => {
                let r = c.apply(doc, cels);
                proof {
                    if r is Ok && old(self).exact_on(old(doc)@, old(cels)@) {
                        assert forall|b: AnyCommand| #[trigger] self.reverts_to(b, doc@, cels@) implies {
                            &&& b.ready()
                            &&& b.fits(old(doc)@)
                            &&& b.succeeds_on(old(doc)@, old(cels)@)
                            &&& b.outcome(old(doc)@, old(cels)@) == (doc@, cels@)
                        } by {
                            if let AnyCommand::DrawRectangle(bi) = b {
                                if let AnyCommand::DrawRectangle(a) = *self {
                                    assert(a.reverts_to(bi, doc@, cels@));
                                }
                            }
                        }
                    }
                }
                r
            },
            AnyCommand::PlaceTile(c) => {
                let r = c.apply(doc, cels);
                proof {
                    if r is Ok && old(self).exact_on(old(doc)@, old(cels)@) {
                        assert forall|b: AnyCommand| #[trigger] self.reverts_to(b, doc@, cels@) implies {
                            &&& b.ready()
                            &&& b.fits(old(doc)@)
                            &&& b.succeeds_on(old(doc)@, old(cels)@)
                            &&& b.outcome(old(doc)@, old(cels)@) == (doc@, cels@)
                        } by {
                            if let AnyCommand::PlaceTile(bi) = b {
                                if let AnyCommand::PlaceTile(a) = *self {
                                    assert(a.reverts_to(bi, doc@, cels@));
                                }
                            }
                        }
                    }
                }
                r
            },
            AnyCommand::RemoveSlice(c) => {
                let r = c.apply(doc, cels);
                proof {
                    if r is Ok && old(self).exact_on(old(doc)@, old(cels)@) {
                        assert forall|b: AnyCommand| #[trigger] self.reverts_to(b, doc@, cels@) implies {
                            &&& b.ready()
                            &&& b.fits(old(doc)@)
                            &&& b.succeeds_on(old(doc)@, old(cels)@)
                            &&& b.outcome(old(doc)@, old(cels)@) == (doc@, cels@)
                        } by {
                            if let AnyCommand::RemoveSlice(bi) = b {
                                if let AnyCommand::RemoveSlice(a) = *self {
                                    assert(a.reverts_to(bi, doc@, cels@));
                                }
                            }
                        }
                    }
                }
                r
            },
            AnyCommand::ReplaceCelPixels(c) => {
                let r = c.apply(doc, cels);
                proof {
                    if r is Ok && old(self).exact_on(old(doc)@, old(cels)@) {
                        assert forall|b: AnyCommand| #[trigger] self.reverts_to(b, doc@, cels@) implies {
                            &&& b.ready()
                            &&& b.fits(old(doc)@)
                            &&& b.succeeds_on(old(doc)@, old(cels)@)
                            &&& b.outcome(old(doc)@, old(cels)@) == (doc@, cels@)
                        } by {
                            if let AnyCommand::ReplaceCelPixels(bi) = b {
                                if let AnyCommand::ReplaceCelPixels(a) = *self {
                                    assert(a.reverts_to(bi, doc@, cels@));
                                }
                            }
                        }
                    }
                }
                r
            },
            AnyCommand::SetFrameDuration(c) => {
                let r = c.apply(doc, cels);
                proof {
                    if r is Ok && old(self).exact_on(old(doc)@, old(cels)@) {
                        assert forall|b: AnyCommand| #[trigger] self.reverts_to(b, doc@, cels@) implies {
                            &&& b.ready()
                            &&& b.fits(old(doc)@)
                            &&& b.succeeds_on(old(doc)@, old(cels)@)
                            &&& b.outcome(old(doc)@, old(cels)@) == (doc@, cels@)
                        } by {
                            if let AnyCommand::SetFrameDuration(bi) = b {
                                if let AnyCommand::SetFrameDuration(a) = *self {
                                    assert(a.reverts_to(bi, doc@, cels@));
                                }
                            }
                        }
                    }
                }
                r
            },
            AnyCommand::SetLayerBlendMode(c) => {
                let r = c.apply(doc, cels);
                proof {
                    if r is Ok && old(self).exact_on(old(doc)@, old(cels)@) {
                        assert forall|b: AnyCommand| #[trigger] self.reverts_to(b, doc@, cels@) implies {
                            &&& b.ready()
                            &&& b.fits(old(doc)@)
                            &&& b.succeeds_on(old(doc)@, old(cels)@)
                            &&& b.outcome(old(doc)@, old(cels)@) == (doc@, cels@)
                        } by {
                            if let AnyCommand::SetLayerBlendMode(bi) = b {
                                if let AnyCommand::SetLayerBlendMode(a) = *self {
                                    assert(a.reverts_to(bi, doc@, cels@));
                                }
                            }
                        }
                    }
                }
                r
            },
            AnyCommand::SetLayerName(c) => {
                let r = c.apply(doc, cels);
                proof {
                    if r is Ok && old(self).exact_on(old(doc)@, old(cels)@) {
                        assert forall|b: AnyCommand| #[trigger] self.reverts_to(b, doc@, cels@) implies {
                            &&& b.ready()
                            &&& b.fits(old(doc)@)
                            &&& b.succeeds_on(old(doc)@, old(cels)@)
                            &&& b.outcome(old(doc)@, old(cels)@) == (doc@, cels@)
                        } by {
                            if let AnyCommand::SetLayerName(bi) = b {
                                if let AnyCommand::SetLayerName(a) = *self {
                                    assert(a.reverts_to(bi, doc@, cels@));
                                }
                            }
                        }
                    }
                }
                r
            },
            AnyCommand::SetLayerOpacity(c) => {
                let r = c.apply(doc, cels);
                proof {
                    if r is Ok && old(self).exact_on(old(doc)@, old(cels)@) {
                        assert forall|b: AnyCommand| #[trigger] self.reverts_to(b, doc@, cels@) implies {
                            &&& b.ready()
                            &&& b.fits(old(doc)@)
                            &&& b.succeeds_on(old(doc)@, old(cels)@)
                            &&& b.outcome(old(doc)@, old(cels)@) == (doc@, cels@)
                        } by {
                            if let AnyCommand::SetLayerOpacity(bi) = b {
                                if let AnyCommand::SetLayerOpacity(a) = *self {
                                    assert(a.reverts_to(bi, doc@, cels@));
                                }
                            }
                        }
                    }
                }
                r
            },
            AnyCommand::SetLayerVisible(c) => {
                let r = c.apply(doc, cels);
                proof {
                    if r is Ok && old(self).exact_on(old(doc)@, old(cels)@) {
                        assert forall|b: AnyCommand| #[trigger] self.reverts_to(b, doc@, cels@) implies {
                            &&& b.ready()
                            &&& b.fits(old(doc)@)
                            &&& b.succeeds_on(old(doc)@, old(cels)@)
                            &&& b.outcome(old(doc)@, old(cels)@) == (doc@, cels@)
                        } by {
                            if let AnyCommand::SetLayerVisible(bi) = b {
                                if let AnyCommand::SetLayerVisible(a) = *self {
                                    assert(a.reverts_to(bi, doc@, cels@));
                                }
                            }
                        }
                    }
                }
                r
            },
            AnyCommand::SetPixel(c) => {
                let r = c.apply(doc, cels);
                proof {
                    if r is Ok && old(self).exact_on(old(doc)@, old(cels)@) {
                        assert forall|b: AnyCommand| #[trigger] self.reverts_to(b, doc@, cels@) implies {
                            &&& b.ready()
                            &&& b.fits(old(doc)@)
                            &&& b.succeeds_on(old(doc)@, old(cels)@)
                            &&& b.outcome(old(doc)@, old(cels)@) == (doc@, cels@)
                        } by {
                            if let AnyCommand::SetPixel(bi) = b {
                                if let AnyCommand::SetPixel(a) = *self {
                                    assert(a.reverts_to(bi, doc@, cels@));
                                }
                            }
                        }
                    }
                }
                r
            },
            AnyCommand::SetSliceKey(c) => {
                let r = c.apply(doc, cels);
                proof {
                    if r is Ok && old(self).exact_on(old(doc)@, old(cels)@) {
                        assert forall|b: AnyCommand| #[trigger] self.reverts_to(b, doc@, cels@) implies {
                            &&& b.ready()
                            &&& b.fits(old(doc)@)
                            &&& b.succeeds_on(old(doc)@, old(cels)@)
                            &&& b.outcome(old(doc)@, old(cels)@) == (doc@, cels@)
                        } by {
                            if let AnyCommand::SetSliceKey(bi) = b {
                                if let AnyCommand::SetSliceKey(a) = *self {
                                    assert(a.reverts_to(bi, doc@, cels@));
                                }
                            }
                        }
                    }
                }
                r
            },
            AnyCommand::SetTilePixel(c) => {
                let r = c.apply(doc, cels);
                proof {
                    if r is Ok && old(self).exact_on(old(doc)@, old(cels)@) {
                        assert forall|b: AnyCommand| #[trigger] self.reverts_to(b, doc@, cels@) implies {
                            &&& b.ready()
                            &&& b.fits(old(doc)@)
                            &&& b.succeeds_on(old(doc)@, old(cels)@)
                            &&& b.outcome(old(doc)@, old(cels)@) == (doc@, cels@)
                        } by {
                            if let AnyCommand::SetTilePixel(bi) = b {
                                if let AnyCommand::SetTilePixel(a) = *self {
                                    assert(a.reverts_to(bi, doc@, cels@));
                                }
                            }
                        }
                    }
                }
                r
            },
            AnyCommand::DuplicateLayer(c) => {
                let r = c.apply(doc, cels);
                proof {
                    if r is Ok && old(self).exact_on(old(doc)@, old(cels)@) {
                        assert forall|b: AnyCommand| #[trigger] self.reverts_to(b, doc@, cels@) implies {
                            &&& b.ready()
                            &&& b.fits(old(doc)@)
                            &&& b.succeeds_on(old(doc)@, old(cels)@)
                            &&& b.outcome(old(doc)@, old(cels)@) == (doc@, cels@)
                        } by {
                            if let AnyCommand::DuplicateLayer(bi) = b {
                                if let AnyCommand::DuplicateLayer(a) = *self {
                                    assert(a.reverts_to(bi, doc@, cels@));
                                }
                            }
                        }
                    }
                }
                r
            },
            AnyCommand::MoveSelectionContent(c) => {
                let r = c.apply(doc, cels);
                proof {
                    if r is Ok && old(self).exact_on(old(doc)@, old(cels)@) {
                        assert forall|b: AnyCommand| #[trigger] self.reverts_to(b, doc@, cels@) implies {
                            &&& b.ready()
                            &&& b.fits(old(doc)@)
                            &&& b.succeeds_on(old(doc)@, old(cels)@)
                            &&& b.outcome(old(doc)@, old(cels)@) == (doc@, cels@)
                        } by {
                            if let AnyCommand::MoveSelectionContent(bi) = b {
                                if let AnyCommand::MoveSelectionContent(a) = *self {
                                    assert(a.reverts_to(bi, doc@, cels@));
                                }
                            }
                        }
                    }
                }
                r
            },
            AnyCommand::DrawEllipse(c) => {
                let r = c.apply(doc, cels);
                proof {
                    if r is Ok && old(self).exact_on(old(doc)@, old(cels)@) {
                        assert forall|b: AnyCommand| #[trigger] self.reverts_to(b, doc@, cels@) implies {
                            &&& b.ready()
                            &&& b.fits(old(doc)@)
                            &&& b.succeeds_on(old(doc)@, old(cels)@)
                            &&& b.outcome(old(doc)@, old(cels)@) == (doc@, cels@)
                        } by {
                            if let AnyCommand::DrawEllipse(bi) = b {
                                if let AnyCommand::DrawEllipse(a) = *self {
                                    assert(a.reverts_to(bi, doc@, cels@));
                                }
                            }
                        }
                    }
                }
                r
            },
            AnyCommand::TransformCel(c) => {
                let r = c.apply(doc, cels);
                proof {
                    if r is Ok && old(self).exact_on(old(doc)@, old(cels)@) {
                        assert forall|b: AnyCommand| #[trigger] self.reverts_to(b, doc@, cels@) implies {
                            &&& b.ready()
                            &&& b.fits(old(doc)@)
                            &&& b.succeeds_on(old(doc)@, old(cels)@)
                            &&& b.outcome(old(doc)@, old(cels)@) == (doc@, cels@)
                        } by {
                            if let AnyCommand::TransformCel(bi) = b {
                                if let AnyCommand::TransformCel(a) = *self {
                                    assert(a.reverts_to(bi, doc@, cels@));
                                }
                            }
                        }
                    }
                }
                r
            },
            AnyCommand::TransformCanvas(c) => {
                let r = c.apply(doc, cels);
                proof {
                    if r is Ok && old(self).exact_on(old(doc)@, old(cels)@) {
                        assert forall|b: AnyCommand| #[trigger] self.reverts_to(b, doc@, cels@) implies {
                            &&& b.ready()
                            &&& b.fits(old(doc)@)
                            &&& b.succeeds_on(old(doc)@, old(cels)@)
                            &&& b.outcome(old(doc)@, old(cels)@) == (doc@, cels@)
                        } by {
                            if let AnyCommand::TransformCanvas(bi) = b {
                                if let AnyCommand::TransformCanvas(a) = *self {
                                    assert(a.reverts_to(bi, doc@, cels@));
                                }
                            }
                        }
                    }
                }
                r
            },
            AnyCommand::ReframeCanvas(c) => {
                let r = c.apply(doc, cels);
                proof {
                    if r is Ok && old(self).exact_on(old(doc)@, old(cels)@) {
                        assert forall|b: AnyCommand| #[trigger] self.reverts_to(b, doc@, cels@) implies {
                            &&& b.ready()
                            &&& b.fits(old(doc)@)
                            &&& b.succeeds_on(old(doc)@, old(cels)@)
                            &&& b.outcome(old(doc)@, old(cels)@) == (doc@, cels@)
                        } by {
                            if let AnyCommand::ReframeCanvas(bi) = b {
                                if let AnyCommand::ReframeCanvas(a) = *self {
                                    assert(a.reverts_to(bi, doc@, cels@));
                                }
                            }
                        }
                    }
                }
                r
            },
            AnyCommand::FillRegion(c) => {
                let r = c.apply(doc, cels);
                proof {
                    if r is Ok && old(self).exact_on(old(doc)@, old(cels)@) {
                        assert forall|b: AnyCommand| #[trigger] self.reverts_to(b, doc@, cels@) implies {
                            &&& b.ready()
                            &&& b.fits(old(doc)@)
                            &&& b.succeeds_on(old(doc)@, old(cels)@)
                            &&& b.outcome(old(doc)@, old(cels)@) == (doc@, cels@)
                        } by {
                            if let AnyCommand::FillRegion(bi) = b {
                                if let AnyCommand::FillRegion(a) = *self {
                                    assert(a.reverts_to(bi, doc@, cels@));
                                }
                            }
                        }
                    }
                }
                r
            },
            AnyCommand::RemoveLayer(c) => {
                let r = c.apply(doc, cels);
                proof {
                    if r is Ok && old(self).exact_on(old(doc)@, old(cels)@) {
                        assert forall|b: AnyCommand| #[trigger] self.reverts_to(b, doc@, cels@) implies {
                            &&& b.ready()
                            &&& b.fits(old(doc)@)
                            &&& b.succeeds_on(old(doc)@, old(cels)@)
                            &&& b.outcome(old(doc)@, old(cels)@) == (doc@, cels@)
                        } by {
                            if let AnyCommand::RemoveLayer(bi) = b {
                                if let AnyCommand::RemoveLayer(a) = *self {
                                    assert(a.reverts_to(bi, doc@, cels@));
                                }
                            }
                        }
                    }
                }
                r
            },
            AnyCommand::AddTilemapLayer(c) => {
                let r = c.apply(doc, cels);
                proof {
                    if r is Ok && old(self).exact_on(old(doc)@, old(cels)@) {
                        assert forall|b: AnyCommand| #[trigger] self.reverts_to(b, doc@, cels@) implies {
                            &&& b.ready()
                            &&& b.fits(old(doc)@)
                            &&& b.succeeds_on(old(doc)@, old(cels)@)
                            &&& b.outcome(old(doc)@, old(cels)@) == (doc@, cels@)
                        } by {
                            if let AnyCommand::AddTilemapLayer(bi) = b {
                                if let AnyCommand::AddTilemapLayer(a) = *self {
                                    assert(a.reverts_to(bi, doc@, cels@));
                                }
                            }
                        }
                    }
                }
                r
            },
            AnyCommand::MoveLayer(c) => {
                let r = c.apply(doc, cels);
                proof {
                    if r is Ok && old(self).exact_on(old(doc)@, old(cels)@) {
                        assert forall|b: AnyCommand| #[trigger] self.reverts_to(b, doc@, cels@) implies {
                            &&& b.ready()
                            &&& b.fits(old(doc)@)
                            &&& b.succeeds_on(old(doc)@, old(cels)@)
                            &&& b.outcome(old(doc)@, old(cels)@) == (doc@, cels@)
                        } by {
                            if let AnyCommand::MoveLayer(bi) = b {
                                if let AnyCommand::MoveLayer(a) = *self {
                                    assert(a.reverts_to(bi, doc@, cels@));
                                }
                            }
                        }
                    }
                }
                r
            },
        }
    }

    #[verifier::rlimit(60)]
    fn revert(&mut self, doc: &mut Sprite, cels: &mut CelMap) {
        match self {
            AnyCommand::AddFrame(c) => c.revert(doc, cels),
            AnyCommand::AddLayer(c) => c.revert(doc, cels),
            AnyCommand::AddSlice(c) => c.revert(doc, cels),
            AnyCommand::AddTile(c) => c.revert(doc, cels),
            AnyCommand::AddTileset(c) => c.revert(doc, cels),
            AnyCommand::ClearRegion(c) => c.revert(doc, cels),
            AnyCommand::DrawLine(c) => c.revert(doc, cels),
            AnyCommand::DrawRectangle(c) => c.revert(doc, cels),
            AnyCommand::PlaceTile(c) => c.revert(doc, cels),
            AnyCommand::RemoveSlice(c) => c.revert(doc, cels),
            AnyCommand::ReplaceCelPixels(c) => c.revert(doc, cels),
            AnyCommand::SetFrameDuration(c) => c.revert(doc, cels),
            AnyCommand::SetLayerBlendMode(c) => c.revert(doc, cels),
            AnyCommand::SetLayerName(c) => c.revert(doc, cels),
            AnyCommand::SetLayerOpacity(c) => c.revert(doc, cels),
            AnyCommand::SetLayerVisible(c) => c.revert(doc, cels),
            AnyCommand::SetPixel(c) => c.revert(doc, cels),
            AnyCommand::SetSliceKey(c) => c.revert(doc, cels),
            AnyCommand::SetTilePixel(c) => c.revert(doc, cels),
            AnyCommand::DuplicateLayer(c) => c.revert(doc, cels),
            AnyCommand::MoveSelectionContent(c) => c.revert(doc, cels),
            AnyCommand::DrawEllipse(c) => c.revert(doc, cels),
            AnyCommand::TransformCel(c) => c.revert(doc, cels),
            AnyCommand::TransformCanvas(c) => c.revert(doc, cels),
            AnyCommand::ReframeCanvas(c) => c.revert(doc, cels),
            AnyCommand::FillRegion(c) => c.revert(doc, cels),
            AnyCommand::RemoveLayer(c) => c.revert(doc, cels),
            AnyCommand::AddTilemapLayer(c) => c.revert(doc, cels),
            AnyCommand::MoveLayer(c) => c.revert(doc, cels),
        }
    }

    #[verifier::rlimit(60)]
    fn merge(&mut self, next: &Self) -> (r: bool)
        ensures
            r == old(self).merges_with(next),
    {
        match self {
            AnyCommand::AddFrame(a) => match next {
                AnyCommand::AddFrame(b) => {
                    let ghost a0 = *a;
                    let r = a.merge(b);
                    proof {
                        if r {
                            assert forall|d1: SpriteModel, c1: CelsModel, d2: SpriteModel, c2: CelsModel|
                                a0.applied_on(d1, c1) && b.applied_on(d2, c2) && b.reverted(d2, c2) == (d1, c1)
                                implies a.applied_on(d2, c2) && a.reverted(d2, c2) == a0.reverted(d1, c1) by {
                                assert(a.reverted(d2, c2) == a.reverted(d2, c2));
                                assert(a0.reverted(d1, c1) == a0.reverted(d1, c1));
                            }
                        }
                    }
                    r
                },
                _ => false,
            },
            AnyCommand::AddLayer(a) => match next {
                AnyCommand::AddLayer(b) => {
                    let ghost a0 = *a;
                    let r = a.merge(b);
                    proof {
                        if r {
                            assert forall|d1: SpriteModel, c1: CelsModel, d2: SpriteModel, c2: CelsModel|
                                a0.applied_on(d1, c1) && b.applied_on(d2, c2) && b.reverted(d2, c2) == (d1, c1)
                                implies a.applied_on(d2, c2) && a.reverted(d2, c2) == a0.reverted(d1, c1) by {
                                assert(a.reverted(d2, c2) == a.reverted(d2, c2));
                                assert(a0.reverted(d1, c1) == a0.reverted(d1, c1));
                            }
                        }
                    }
                    r
                },
                _ => false,
            },
            AnyCommand::AddSlice(a) => match next {
                AnyCommand::AddSlice(b) => {
                    let ghost a0 = *a;
                    let r = a.merge(b);
                    proof {
                        if r {
                            assert forall|d1: SpriteModel, c1: CelsModel, d2: SpriteModel, c2: CelsModel|
                                a0.applied_on(d1, c1) && b.applied_on(d2, c2) && b.reverted(d2, c2) == (d1, c1)
                                implies a.applied_on(d2, c2) && a.reverted(d2, c2) == a0.reverted(d1, c1) by {
                                assert(a.reverted(d2, c2) == a.reverted(d2, c2));
                                assert(a0.reverted(d1, c1) == a0.reverted(d1, c1));
                            }
                        }
                    }
                    r
                },
                _ => false,
            },
            AnyCommand::AddTile(a) => match next {
                AnyCommand::AddTile(b) => {
                    let ghost a0 = *a;
                    let r = a.merge(b);
                    proof {
                        if r {
                            assert forall|d1: SpriteModel, c1: CelsModel, d2: SpriteModel, c2: CelsModel|
                                a0.applied_on(d1, c1) && b.applied_on(d2, c2) && b.reverted(d2, c2) == (d1, c1)
                                implies a.applied_on(d2, c2) && a.reverted(d2, c2) == a0.reverted(d1, c1) by {
                                assert(a.reverted(d2, c2) == a.reverted(d2, c2));
                                assert(a0.reverted(d1, c1) == a0.reverted(d1, c1));
                            }
                        }
                    }
                    r
                },
                _ => false,
            },
            AnyCommand::AddTileset(a) => match next {
                AnyCommand::AddTileset(b) => {
                    let ghost a0 = *a;
                    let r = a.merge(b);
                    proof {
                        if r {
                            assert forall|d1: SpriteModel, c1: CelsModel, d2: SpriteModel, c2: CelsModel|
                                a0.applied_on(d1, c1) && b.applied_on(d2, c2) && b.reverted(d2, c2) == (d1, c1)
                                implies a.applied_on(d2, c2) && a.reverted(d2, c2) == a0.reverted(d1, c1) by {
                                assert(a.reverted(d2, c2) == a.reverted(d2, c2));
                                assert(a0.reverted(d1, c1) == a0.reverted(d1, c1));
                            }
                        }
                    }
                    r
                },
                _ => false,
            },
            AnyCommand::ClearRegion(a) => match next {
                AnyCommand::ClearRegion(b) => {
                    let ghost a0 = *a;
                    let r = a.merge(b);
                    proof {
                        if r {
                            assert forall|d1: SpriteModel, c1: CelsModel, d2: SpriteModel, c2: CelsModel|
                                a0.applied_on(d1, c1) && b.applied_on(d2, c2) && b.reverted(d2, c2) == (d1, c1)
                                implies a.applied_on(d2, c2) && a.reverted(d2, c2) == a0.reverted(d1, c1) by {
                                assert(a.reverted(d2, c2) == a.reverted(d2, c2));
                                assert(a0.reverted(d1, c1) == a0.reverted(d1, c1));
                            }
                        }
                    }
                    r
                },
                _ => false,
            },
            AnyCommand::DrawLine(a) => match next {
                AnyCommand::DrawLine(b) => {
                    let ghost a0 = *a;
                    let r = a.merge(b);
                    proof {
                        if r {
                            assert forall|d1: SpriteModel, c1: CelsModel, d2: SpriteModel, c2: CelsModel|
                                a0.applied_on(d1, c1) && b.applied_on(d2, c2) && b.reverted(d2, c2) == (d1, c1)
                                implies a.applied_on(d2, c2) && a.reverted(d2, c2) == a0.reverted(d1, c1) by {
                                assert(a.reverted(d2, c2) == a.reverted(d2, c2));
                                assert(a0.reverted(d1, c1) == a0.reverted(d1, c1));
                            }
                        }
                    }
                    r
                },
                _ => false,
            },
            AnyCommand::DrawRectangle(a) => match next {
                AnyCommand::DrawRectangle(b) => {
                    let ghost a0 = *a;
                    let r = a.merge(b);
                    proof {
                        if r {
                            assert forall|d1: SpriteModel, c1: CelsModel, d2: SpriteModel, c2: CelsModel|
                                a0.applied_on(d1, c1) && b.applied_on(d2, c2) && b.reverted(d2, c2) == (d1, c1)
                                implies a.applied_on(d2, c2) && a.reverted(d2, c2) == a0.reverted(d1, c1) by {
                                assert(a.reverted(d2, c2) == a.reverted(d2, c2));
                                assert(a0.reverted(d1, c1) == a0.reverted(d1, c1));
                            }
                        }
                    }
                    r
                },
                _ => false,
            },
            AnyCommand::PlaceTile(a) => match next {
                AnyCommand::PlaceTile(b) => {
                    let ghost a0 = *a;
                    let r = a.merge(b);
                    proof {
                        if r {
                            assert forall|d1: SpriteModel, c1: CelsModel, d2: SpriteModel, c2: CelsModel|
                                a0.applied_on(d1, c1) && b.applied_on(d2, c2) && b.reverted(d2, c2) == (d1, c1)
                                implies a.applied_on(d2, c2) && a.reverted(d2, c2) == a0.reverted(d1, c1) by {
                                assert(a.reverted(d2, c2) == a.reverted(d2, c2));
                                assert(a0.reverted(d1, c1) == a0.reverted(d1, c1));
                            }
                        }
                    }
                    r
                },
                _ => false,
            },
            AnyCommand::RemoveSlice(a) => match next {
                AnyCommand::RemoveSlice(b) => {
                    let ghost a0 = *a;
                    let r = a.merge(b);
                    proof {
                        if r {
                            assert forall|d1: SpriteModel, c1: CelsModel, d2: SpriteModel, c2: CelsModel|
                                a0.applied_on(d1, c1) && b.applied_on(d2, c2) && b.reverted(d2, c2) == (d1, c1)
                                implies a.applied_on(d2, c2) && a.reverted(d2, c2) == a0.reverted(d1, c1) by {
                                assert(a.reverted(d2, c2) == a.reverted(d2, c2));
                                assert(a0.reverted(d1, c1) == a0.reverted(d1, c1));
                            }
                        }
                    }
                    r
                },
                _ => false,
            },
            AnyCommand::ReplaceCelPixels(a) => match next {
                AnyCommand::ReplaceCelPixels(b) => {
                    let ghost a0 = *a;
                    let r = a.merge(b);
                    proof {
                        if r {
                            assert forall|d1: SpriteModel, c1: CelsModel, d2: SpriteModel, c2: CelsModel|
                                a0.applied_on(d1, c1) && b.applied_on(d2, c2) && b.reverted(d2, c2) == (d1, c1)
                                implies a.applied_on(d2, c2) && a.reverted(d2, c2) == a0.reverted(d1, c1) by {
                                assert(a.reverted(d2, c2) == a.reverted(d2, c2));
                                assert(a0.reverted(d1, c1) == a0.reverted(d1, c1));
                            }
                        }
                    }
                    r
                },
                _ => false,
            },
            AnyCommand::SetFrameDuration(a) => match next {
                AnyCommand::SetFrameDuration(b) => {
                    let ghost a0 = *a;
                    let r = a.merge(b);
                    proof {
                        if r {
                            assert forall|d1: SpriteModel, c1: CelsModel, d2: SpriteModel, c2: CelsModel|
                                a0.applied_on(d1, c1) && b.applied_on(d2, c2) && b.reverted(d2, c2) == (d1, c1)
                                implies a.applied_on(d2, c2) && a.reverted(d2, c2) == a0.reverted(d1, c1) by {
                                assert(a.reverted(d2, c2) == a.reverted(d2, c2));
                                assert(a0.reverted(d1, c1) == a0.reverted(d1, c1));
                            }
                        }
                    }
                    r
                },
                _ => false,
            },
            AnyCommand::SetLayerBlendMode(a) => match next {
                AnyCommand::SetLayerBlendMode(b) => {
                    let ghost a0 = *a;
                    let r = a.merge(b);
                    proof {
                        if r {
                            assert forall|d1: SpriteModel, c1: CelsModel, d2: SpriteModel, c2: CelsModel|
                                a0.applied_on(d1, c1) && b.applied_on(d2, c2) && b.reverted(d2, c2) == (d1, c1)
                                implies a.applied_on(d2, c2) && a.reverted(d2, c2) == a0.reverted(d1, c1) by {
                                assert(a.reverted(d2, c2) == a.reverted(d2, c2));
                                assert(a0.reverted(d1, c1) == a0.reverted(d1, c1));
                            }
                        }
                    }
                    r
                },
                _ => false,
            },
            AnyCommand::SetLayerName(a) => match next {
                AnyCommand::SetLayerName(b) => {
                    let ghost a0 = *a;
                    let r = a.merge(b);
                    proof {
                        if r {
                            assert forall|d1: SpriteModel, c1: CelsModel, d2: SpriteModel, c2: CelsModel|
                                a0.applied_on(d1, c1) && b.applied_on(d2, c2) && b.reverted(d2, c2) == (d1, c1)
                                implies a.applied_on(d2, c2) && a.reverted(d2, c2) == a0.reverted(d1, c1) by {
                                assert(a.reverted(d2, c2) == a.reverted(d2, c2));
                                assert(a0.reverted(d1, c1) == a0.reverted(d1, c1));
                            }
                        }
                    }
                    r
                },
                _ => false,
            },
            AnyCommand::SetLayerOpacity(a) => match next {
                AnyCommand::SetLayerOpacity(b) => {
                    let ghost a0 = *a;
                    let r = a.merge(b);
                    proof {
                        if r {
                            assert forall|d1: SpriteModel, c1: CelsModel, d2: SpriteModel, c2: CelsModel|
                                a0.applied_on(d1, c1) && b.applied_on(d2, c2) && b.reverted(d2, c2) == (d1, c1)
                                implies a.applied_on(d2, c2) && a.reverted(d2, c2) == a0.reverted(d1, c1) by {
                                assert(a.reverted(d2, c2) == a.reverted(d2, c2));
                                assert(a0.reverted(d1, c1) == a0.reverted(d1, c1));
                            }
                        }
                    }
                    r
                },
                _ => false,
            },
            AnyCommand::SetLayerVisible(a) => match next {
                AnyCommand::SetLayerVisible(b) => {
                    let ghost a0 = *a;
                    let r = a.merge(b);
                    proof {
                        if r {
                            assert forall|d1: SpriteModel, c1: CelsModel, d2: SpriteModel, c2: CelsModel|
                                a0.applied_on(d1, c1) && b.applied_on(d2, c2) && b.reverted(d2, c2) == (d1, c1)
                                implies a.applied_on(d2, c2) && a.reverted(d2, c2) == a0.reverted(d1, c1) by {
                                assert(a.reverted(d2, c2) == a.reverted(d2, c2));
                                assert(a0.reverted(d1, c1) == a0.reverted(d1, c1));
                            }
                        }
                    }
                    r
                },
                _ => false,
            },
            AnyCommand::SetPixel(a) => match next {
                AnyCommand::SetPixel(b) => {
                    let ghost a0 = *a;
                    let r = a.merge(b);
                    proof {
                        if r {
                            assert forall|d1: SpriteModel, c1: CelsModel, d2: SpriteModel, c2: CelsModel|
                                a0.applied_on(d1, c1) && b.applied_on(d2, c2) && b.reverted(d2, c2) == (d1, c1)
                                implies a.applied_on(d2, c2) && a.reverted(d2, c2) == a0.reverted(d1, c1) by {
                                assert(a.reverted(d2, c2) == a.reverted(d2, c2));
                                assert(a0.reverted(d1, c1) == a0.reverted(d1, c1));
                            }
                        }
                    }
                    r
                },
                _ => false,
            },
            AnyCommand::SetSliceKey(a) => match next {
                AnyCommand::SetSliceKey(b) => {
                    let ghost a0 = *a;
                    let r = a.merge(b);
                    proof {
                        if r {
                            assert forall|d1: SpriteModel, c1: CelsModel, d2: SpriteModel, c2: CelsModel|
                                a0.applied_on(d1, c1) && b.applied_on(d2, c2) && b.reverted(d2, c2) == (d1, c1)
                                implies a.applied_on(d2, c2) && a.reverted(d2, c2) == a0.reverted(d1, c1) by {
                                assert(a.reverted(d2, c2) == a.reverted(d2, c2));
                                assert(a0.reverted(d1, c1) == a0.reverted(d1, c1));
                            }
                        }
                    }
                    r
                },
                _ => false,
            },
            AnyCommand::SetTilePixel(a) => match next {
                AnyCommand::SetTilePixel(b) => {
                    let ghost a0 = *a;
                    let r = a.merge(b);
                    proof {
                        if r {
                            assert forall|d1: SpriteModel, c1: CelsModel, d2: SpriteModel, c2: CelsModel|
                                a0.applied_on(d1, c1) && b.applied_on(d2, c2) && b.reverted(d2, c2) == (d1, c1)
                                implies a.applied_on(d2, c2) && a.reverted(d2, c2) == a0.reverted(d1, c1) by {
                                assert(a.reverted(d2, c2) == a.reverted(d2, c2));
                                assert(a0.reverted(d1, c1) == a0.reverted(d1, c1));
                            }
                        }
                    }
                    r
                },
                _ => false,
            },
            AnyCommand::DuplicateLayer(a) => match next {
                AnyCommand::DuplicateLayer(b) => {
                    let ghost a0 = *a;
                    let r = a.merge(b);
                    proof {
                        if r {
                            assert forall|d1: SpriteModel, c1: CelsModel, d2: SpriteModel, c2: CelsModel|
                                a0.applied_on(d1, c1) && b.applied_on(d2, c2) && b.reverted(d2, c2) == (d1, c1)
                                implies a.applied_on(d2, c2) && a.reverted(d2, c2) == a0.reverted(d1, c1) by {
                                assert(a.reverted(d2, c2) == a.reverted(d2, c2));
                                assert(a0.reverted(d1, c1) == a0.reverted(d1, c1));
                            }
                        }
                    }
                    r
                },
                _ => false,
            },
            AnyCommand::MoveSelectionContent(a) => match next {
                AnyCommand::MoveSelectionContent(b) => {
                    let ghost a0 = *a;
                    let r = a.merge(b);
                    proof {
                        if r {
                            assert forall|d1: SpriteModel, c1: CelsModel, d2: SpriteModel, c2: CelsModel|
                                a0.applied_on(d1, c1) && b.applied_on(d2, c2) && b.reverted(d2, c2) == (d1, c1)
                                implies a.applied_on(d2, c2) && a.reverted(d2, c2) == a0.reverted(d1, c1) by {
                                assert(a.reverted(d2, c2) == a.reverted(d2, c2));
                                assert(a0.reverted(d1, c1) == a0.reverted(d1, c1));
                            }
                        }
                    }
                    r
                },
                _ => false,
            },
            AnyCommand::DrawEllipse(a) => match next {
                AnyCommand::DrawEllipse(b) => {
                    let ghost a0 = *a;
                    let r = a.merge(b);
                    proof {
                        if r {
                            assert forall|d1: SpriteModel, c1: CelsModel, d2: SpriteModel, c2: CelsModel|
                                a0.applied_on(d1, c1) && b.applied_on(d2, c2) && b.reverted(d2, c2) == (d1, c1)
                                implies a.applied_on(d2, c2) && a.reverted(d2, c2) == a0.reverted(d1, c1) by {
                                assert(a.reverted(d2, c2) == a.reverted(d2, c2));
                                assert(a0.reverted(d1, c1) == a0.reverted(d1, c1));
                            }
                        }
                    }
                    r
                },
                _ => false,
            },
            AnyCommand::TransformCel(a) => match next {
                AnyCommand::TransformCel(b) => {
                    let ghost a0 = *a;
                    let r = a.merge(b);
                    proof {
                        if r {
                            assert forall|d1: SpriteModel, c1: CelsModel, d2: SpriteModel, c2: CelsModel|
                                a0.applied_on(d1, c1) && b.applied_on(d2, c2) && b.reverted(d2, c2) == (d1, c1)
                                implies a.applied_on(d2, c2) && a.reverted(d2, c2) == a0.reverted(d1, c1) by {
                                assert(a.reverted(d2, c2) == a.reverted(d2, c2));
                                assert(a0.reverted(d1, c1) == a0.reverted(d1, c1));
                            }
                        }
                    }
                    r
                },
                _ => false,
            },
            AnyCommand::TransformCanvas(a) => match next {
                AnyCommand::TransformCanvas(b) => {
                    let ghost a0 = *a;
                    let r = a.merge(b);
                    proof {
                        if r {
                            assert forall|d1: SpriteModel, c1: CelsModel, d2: SpriteModel, c2: CelsModel|
                                a0.applied_on(d1, c1) && b.applied_on(d2, c2) && b.reverted(d2, c2) == (d1, c1)
                                implies a.applied_on(d2, c2) && a.reverted(d2, c2) == a0.reverted(d1, c1) by {
                                assert(a.reverted(d2, c2) == a.reverted(d2, c2));
                                assert(a0.reverted(d1, c1) == a0.reverted(d1, c1));
                            }
                        }
                    }
                    r
                },
                _ => false,
            },
            AnyCommand::ReframeCanvas(a) => match next {
                AnyCommand::ReframeCanvas(b) => {
                    let ghost a0 = *a;
                    let r = a.merge(b);
                    proof {
                        if r {
                            assert forall|d1: SpriteModel, c1: CelsModel, d2: SpriteModel, c2: CelsModel|
                                a0.applied_on(d1, c1) && b.applied_on(d2, c2) && b.reverted(d2, c2) == (d1, c1)
                                implies a.applied_on(d2, c2) && a.reverted(d2, c2) == a0.reverted(d1, c1) by {
                                assert(a.reverted(d2, c2) == a.reverted(d2, c2));
                                assert(a0.reverted(d1, c1) == a0.reverted(d1, c1));
                            }
                        }
                    }
                    r
                },
                _ => false,
            },
            AnyCommand::FillRegion(a) => match next {
                AnyCommand::FillRegion(b) => {
                    let ghost a0 = *a;
                    let r = a.merge(b);
                    proof {
                        if r {
                            assert forall|d1: SpriteModel, c1: CelsModel, d2: SpriteModel, c2: CelsModel|
                                a0.applied_on(d1, c1) && b.applied_on(d2, c2) && b.reverted(d2, c2) == (d1, c1)
                                implies a.applied_on(d2, c2) && a.reverted(d2, c2) == a0.reverted(d1, c1) by {
                                assert(a.reverted(d2, c2) == a.reverted(d2, c2));
                                assert(a0.reverted(d1, c1) == a0.reverted(d1, c1));
                            }
                        }
                    }
                    r
                },
                _ => false,
            },
            AnyCommand::RemoveLayer(a) => match next {
                AnyCommand::RemoveLayer(b) => {
                    let ghost a0 = *a;
                    let r = a.merge(b);
                    proof {
                        if r {
                            assert forall|d1: SpriteModel, c1: CelsModel, d2: SpriteModel, c2: CelsModel|
                                a0.applied_on(d1, c1) && b.applied_on(d2, c2) && b.reverted(d2, c2) == (d1, c1)
                                implies a.applied_on(d2, c2) && a.reverted(d2, c2) == a0.reverted(d1, c1) by {
                                assert(a.reverted(d2, c2) == a.reverted(d2, c2));
                                assert(a0.reverted(d1, c1) == a0.reverted(d1, c1));
                            }
                        }
                    }
                    r
                },
                _ => false,
            },
            AnyCommand::AddTilemapLayer(a) => match next {
                AnyCommand::AddTilemapLayer(b) => {
                    let ghost a0 = *a;
                    let r = a.merge(b);
                    proof {
                        if r {
                            assert forall|d1: SpriteModel, c1: CelsModel, d2: SpriteModel, c2: CelsModel|
                                a0.applied_on(d1, c1) && b.applied_on(d2, c2) && b.reverted(d2, c2) == (d1, c1)
                                implies a.applied_on(d2, c2) && a.reverted(d2, c2) == a0.reverted(d1, c1) by {
                                assert(a.reverted(d2, c2) == a.reverted(d2, c2));
                                assert(a0.reverted(d1, c1) == a0.reverted(d1, c1));
                            }
                        }
                    }
                    r
                },
                _ => false,
            },
            AnyCommand::MoveLayer(a) => match next {
                AnyCommand::MoveLayer(b) => {
                    let ghost a0 = *a;
                    let r = a.merge(b);
                    proof {
                        if r {
                            assert forall|d1: SpriteModel, c1: CelsModel, d2: SpriteModel, c2: CelsModel|
                                a0.applied_on(d1, c1) && b.applied_on(d2, c2) && b.reverted(d2, c2) == (d1, c1)
                                implies a.applied_on(d2, c2) && a.reverted(d2, c2) == a0.reverted(d1, c1) by {
                                assert(a.reverted(d2, c2) == a.reverted(d2, c2));
                                assert(a0.reverted(d1, c1) == a0.reverted(d1, c1));
                            }
                        }
                    }
                    r
                },
                _ => false,
            },
        }
    }

    fn dirty_region(&self) -> (d: DirtyRegion)
        ensures
            d == self.dirty(),
    {
        match self {
            AnyCommand::AddFrame(c) => c.dirty_region(),
            AnyCommand::AddLayer(c) => c.dirty_region(),
            AnyCommand::AddSlice(c) => c.dirty_region(),
            AnyCommand::AddTile(c) => c.dirty_region(),
            AnyCommand::AddTileset(c) => c.dirty_region(),
            AnyCommand::ClearRegion(c) => c.dirty_region(),
            AnyCommand::DrawLine(c) => c.dirty_region(),
            AnyCommand::DrawRectangle(c) => c.dirty_region(),
            AnyCommand::PlaceTile(c) => c.dirty_region(),
            AnyCommand::RemoveSlice(c) => c.dirty_region(),
            AnyCommand::ReplaceCelPixels(c) => c.dirty_region(),
            AnyCommand::SetFrameDuration(c) => c.dirty_region(),
            AnyCommand::SetLayerBlendMode(c) => c.dirty_region(),
            AnyCommand::SetLayerName(c) => c.dirty_region(),
            AnyCommand::SetLayerOpacity(c) => c.dirty_region(),
            AnyCommand::SetLayerVisible(c) => c.dirty_region(),
            AnyCommand::SetPixel(c) => c.dirty_region(),
            AnyCommand::SetSliceKey(c) => c.dirty_region(),
            AnyCommand::SetTilePixel(c) => c.dirty_region(),
            AnyCommand::DuplicateLayer(c) => c.dirty_region(),
            AnyCommand::MoveSelectionContent(c) => c.dirty_region(),
            AnyCommand::DrawEllipse(c) => c.dirty_region(),
            AnyCommand::TransformCel(c) => c.dirty_region(),
            AnyCommand::TransformCanvas(c) => c.dirty_region(),
            AnyCommand::ReframeCanvas(c) => c.dirty_region(),
            AnyCommand::FillRegion(c) => c.dirty_region(),
            AnyCommand::RemoveLayer(c) => c.dirty_region(),
            AnyCommand::AddTilemapLayer(c) => c.dirty_region(),
            AnyCommand::MoveLayer(c) => c.dirty_region(),
        }
    }
}

impl From<AddFrame> for AnyCommand {
    fn from(c: AddFrame) -> (r: Self) {
        AnyCommand::AddFrame(c)
    }
}

impl vstd::std_specs::convert::FromSpecImpl<AddFrame> for AnyCommand {
    open spec fn obeys_from_spec() -> bool {
        true
    }

    open spec fn from_spec(v: AddFrame) -> Self {
        AnyCommand::AddFrame(v)
    }
}

impl From<AddLayer> for AnyCommand {
    fn from(c: AddLayer) -> (r: Self) {
        AnyCommand::AddLayer(c)
    }
}

impl vstd::std_specs::convert::FromSpecImpl<AddLayer> for AnyCommand {
    open spec fn obeys_from_spec() -> bool {
        true
    }

    open spec fn from_spec(v: AddLayer) -> Self {
        AnyCommand::AddLayer(v)
    }
}

impl From<AddSlice> for AnyCommand {
    fn from(c: AddSlice) -> (r: Self) {
        AnyCommand::AddSlice(c)
    }
}

impl vstd::std_specs::convert::FromSpecImpl<AddSlice> for AnyCommand {
    open spec fn obeys_from_spec() -> bool {
        true
    }

    open spec fn from_spec(v: AddSlice) -> Self {
        AnyCommand::AddSlice(v)
    }
}

impl From<AddTile> for AnyCommand {
    fn from(c: AddTile) -> (r: Self) {
        AnyCommand::AddTile(c)
    }
}

impl vstd::std_specs::convert::FromSpecImpl<AddTile> for AnyCommand {
    open spec fn obeys_from_spec() -> bool {
        true
    }

    open spec fn from_spec(v: AddTile) -> Self {
        AnyCommand::AddTile(v)
    }
}

impl From<AddTileset> for AnyCommand {
    fn from(c: AddTileset) -> (r: Self) {
        AnyCommand::AddTileset(c)
    }
}

impl vstd::std_specs::convert::FromSpecImpl<AddTileset> for AnyCommand {
    open spec fn obeys_from_spec() -> bool {
        true
    }

    open spec fn from_spec(v: AddTileset) -> Self {
        AnyCommand::AddTileset(v)
    }
}

impl From<ClearRegion> for AnyCommand {
    fn from(c: ClearRegion) -> (r: Self) {
        AnyCommand::ClearRegion(c)
    }
}

impl vstd::std_specs::convert::FromSpecImpl<ClearRegion> for AnyCommand {
    open spec fn obeys_from_spec() -> bool {
        true
    }

    open spec fn from_spec(v: ClearRegion) -> Self {
        AnyCommand::ClearRegion(v)
    }
}

impl From<DrawLine> for AnyCommand {
    fn from(c: DrawLine) -> (r: Self) {
        AnyCommand::DrawLine(c)
    }
}

impl vstd::std_specs::convert::FromSpecImpl<DrawLine> for AnyCommand {
    open spec fn obeys_from_spec() -> bool {
        true
    }

    open spec fn from_spec(v: DrawLine) -> Self {
        AnyCommand::DrawLine(v)
    }
}

impl From<DrawRectangle> for AnyCommand {
    fn from(c: DrawRectangle) -> (r: Self) {
        AnyCommand::DrawRectangle(c)
    }
}

impl vstd::std_specs::convert::FromSpecImpl<DrawRectangle> for AnyCommand {
    open spec fn obeys_from_spec() -> bool {
        true
    }

    open spec fn from_spec(v: DrawRectangle) -> Self {
        AnyCommand::DrawRectangle(v)
    }
}

impl From<PlaceTile> for AnyCommand {
    fn from(c: PlaceTile) -> (r: Self) {
        AnyCommand::PlaceTile(c)
    }
}

impl vstd::std_specs::convert::FromSpecImpl<PlaceTile> for AnyCommand {
    open spec fn obeys_from_spec() -> bool {
        true
    }

    open spec fn from_spec(v: PlaceTile) -> Self {
        AnyCommand::PlaceTile(v)
    }
}

impl From<RemoveSlice> for AnyCommand {
    fn from(c: RemoveSlice) -> (r: Self) {
        AnyCommand::RemoveSlice(c)
    }
}

impl vstd::std_specs::convert::FromSpecImpl<RemoveSlice> for AnyCommand {
    open spec fn obeys_from_spec() -> bool {
        true
    }

    open spec fn from_spec(v: RemoveSlice) -> Self {
        AnyCommand::RemoveSlice(v)
    }
}

impl From<ReplaceCelPixels> for AnyCommand {
    fn from(c: ReplaceCelPixels) -> (r: Self) {
        AnyCommand::ReplaceCelPixels(c)
    }
}

impl vstd::std_specs::convert::FromSpecImpl<ReplaceCelPixels> for AnyCommand {
    open spec fn obeys_from_spec() -> bool {
        true
    }

    open spec fn from_spec(v: ReplaceCelPixels) -> Self {
        AnyCommand::ReplaceCelPixels(v)
    }
}

impl From<SetFrameDuration> for AnyCommand {
    fn from(c: SetFrameDuration) -> (r: Self) {
        AnyCommand::SetFrameDuration(c)
    }
}

impl vstd::std_specs::convert::FromSpecImpl<SetFrameDuration> for AnyCommand {
    open spec fn obeys_from_spec() -> bool {
        true
    }

    open spec fn from_spec(v: SetFrameDuration) -> Self {
        AnyCommand::SetFrameDuration(v)
    }
}

impl From<SetLayerBlendMode> for AnyCommand {
    fn from(c: SetLayerBlendMode) -> (r: Self) {
        AnyCommand::SetLayerBlendMode(c)
    }
}

impl vstd::std_specs::convert::FromSpecImpl<SetLayerBlendMode> for AnyCommand {
    open spec fn obeys_from_spec() -> bool {
        true
    }

    open spec fn from_spec(v: SetLayerBlendMode) -> Self {
        AnyCommand::SetLayerBlendMode(v)
    }
}

impl From<SetLayerName> for AnyCommand {
    fn from(c: SetLayerName) -> (r: Self) {
        AnyCommand::SetLayerName(c)
    }
}

impl vstd::std_specs::convert::FromSpecImpl<SetLayerName> for AnyCommand {
    open spec fn obeys_from_spec() -> bool {
        true
    }

    open spec fn from_spec(v: SetLayerName) -> Self {
        AnyCommand::SetLayerName(v)
    }
}

impl From<SetLayerOpacity> for AnyCommand {
    fn from(c: SetLayerOpacity) -> (r: Self) {
        AnyCommand::SetLayerOpacity(c)
    }
}

impl vstd::std_specs::convert::FromSpecImpl<SetLayerOpacity> for AnyCommand {
    open spec fn obeys_from_spec() -> bool {
        true
    }

    open spec fn from_spec(v: SetLayerOpacity) -> Self {
        AnyCommand::SetLayerOpacity(v)
    }
}

impl From<SetLayerVisible> for AnyCommand {
    fn from(c: SetLayerVisible) -> (r: Self) {
        AnyCommand::SetLayerVisible(c)
    }
}

impl vstd::std_specs::convert::FromSpecImpl<SetLayerVisible> for AnyCommand {
    open spec fn obeys_from_spec() -> bool {
        true
    }

    open spec fn from_spec(v: SetLayerVisible) -> Self {
        AnyCommand::SetLayerVisible(v)
    }
}

impl From<SetPixel> for AnyCommand {
    fn from(c: SetPixel) -> (r: Self) {
        AnyCommand::SetPixel(c)
    }
}

impl vstd::std_specs::convert::FromSpecImpl<SetPixel> for AnyCommand {
    open spec fn obeys_from_spec() -> bool {
        true
    }

    open spec fn from_spec(v: SetPixel) -> Self {
        AnyCommand::SetPixel(v)
    }
}

impl From<SetSliceKey> for AnyCommand {
    fn from(c: SetSliceKey) -> (r: Self) {
        AnyCommand::SetSliceKey(c)
    }
}

impl vstd::std_specs::convert::FromSpecImpl<SetSliceKey> for AnyCommand {
    open spec fn obeys_from_spec() -> bool {
        true
    }

    open spec fn from_spec(v: SetSliceKey) -> Self {
        AnyCommand::SetSliceKey(v)
    }
}

impl From<SetTilePixel> for AnyCommand {
    fn from(c: SetTilePixel) -> (r: Self) {
        AnyCommand::SetTilePixel(c)
    }
}

impl vstd::std_specs::convert::FromSpecImpl<SetTilePixel> for AnyCommand {
    open spec fn obeys_from_spec() -> bool {
        true
    }

    open spec fn from_spec(v: SetTilePixel) -> Self {
        AnyCommand::SetTilePixel(v)
    }
}

impl From<DuplicateLayer> for AnyCommand {
    fn from(c: DuplicateLayer) -> (r: Self) {
        AnyCommand::DuplicateLayer(c)
    }
}

impl vstd::std_specs::convert::FromSpecImpl<DuplicateLayer> for AnyCommand {
    open spec fn obeys_from_spec() -> bool {
        true
    }

    open spec fn from_spec(v: DuplicateLayer) -> Self {
        AnyCommand::DuplicateLayer(v)
    }
}

impl From<MoveSelectionContent> for AnyCommand {
    fn from(c: MoveSelectionContent) -> (r: Self) {
        AnyCommand::MoveSelectionContent(c)
    }
}

impl vstd::std_specs::convert::FromSpecImpl<MoveSelectionContent> for AnyCommand {
    open spec fn obeys_from_spec() -> bool {
        true
    }

    open spec fn from_spec(v: MoveSelectionContent) -> Self {
        AnyCommand::MoveSelectionContent(v)
    }
}

impl From<DrawEllipse> for AnyCommand {
    fn from(c: DrawEllipse) -> (r: Self) {
        AnyCommand::DrawEllipse(c)
    }
}

impl vstd::std_specs::convert::FromSpecImpl<DrawEllipse> for AnyCommand {
    open spec fn obeys_from_spec() -> bool {
        true
    }

    open spec fn from_spec(v: DrawEllipse) -> Self {
        AnyCommand::DrawEllipse(v)
    }
}

impl From<TransformCel> for AnyCommand {
    fn from(c: TransformCel) -> (r: Self) {
        AnyCommand::TransformCel(c)
    }
}

impl vstd::std_specs::convert::FromSpecImpl<TransformCel> for AnyCommand {
    open spec fn obeys_from_spec() -> bool {
        true
    }

    open spec fn from_spec(v: TransformCel) -> Self {
        AnyCommand::TransformCel(v)
    }
}

impl From<TransformCanvas> for AnyCommand {
    fn from(c: TransformCanvas) -> (r: Self) {
        AnyCommand::TransformCanvas(c)
    }
}

impl vstd::std_specs::convert::FromSpecImpl<TransformCanvas> for AnyCommand {
    open spec fn obeys_from_spec() -> bool {
        true
    }

    open spec fn from_spec(v: TransformCanvas) -> Self {
        AnyCommand::TransformCanvas(v)
    }
}

impl From<ReframeCanvas> for AnyCommand {
    fn from(c: ReframeCanvas) -> (r: Self) {
        AnyCommand::ReframeCanvas(c)
    }
}

impl vstd::std_specs::convert::FromSpecImpl<ReframeCanvas> for AnyCommand {
    open spec fn obeys_from_spec() -> bool {
        true
    }

    open spec fn from_spec(v: ReframeCanvas) -> Self {
        AnyCommand::ReframeCanvas(v)
    }
}

impl From<FillRegion> for AnyCommand {
    fn from(c: FillRegion) -> (r: Self) {
        AnyCommand::FillRegion(c)
    }
}

impl vstd::std_specs::convert::FromSpecImpl<FillRegion> for AnyCommand {
    open spec fn obeys_from_spec() -> bool {
        true
    }

    open spec fn from_spec(v: FillRegion) -> Self {
        AnyCommand::FillRegion(v)
    }
}

impl From<RemoveLayer> for AnyCommand {
    fn from(c: RemoveLayer) -> (r: Self) {
        AnyCommand::RemoveLayer(c)
    }
}

impl vstd::std_specs::convert::FromSpecImpl<RemoveLayer> for AnyCommand {
    open spec fn obeys_from_spec() -> bool {
        true
    }

    open spec fn from_spec(v: RemoveLayer) -> Self {
        AnyCommand::RemoveLayer(v)
    }
}

impl From<AddTilemapLayer> for AnyCommand {
    fn from(c: AddTilemapLayer) -> (r: Self) {
        AnyCommand::AddTilemapLayer(c)
    }
}

impl vstd::std_specs::convert::FromSpecImpl<AddTilemapLayer> for AnyCommand {
    open spec fn obeys_from_spec() -> bool {
        true
    }

    open spec fn from_spec(v: AddTilemapLayer) -> Self {
        AnyCommand::AddTilemapLayer(v)
    }
}

impl From<MoveLayer> for AnyCommand {
    fn from(c: MoveLayer) -> (r: Self) {
        AnyCommand::MoveLayer(c)
    }
}

impl vstd::std_specs::convert::FromSpecImpl<MoveLayer> for AnyCommand {
    open spec fn obeys_from_spec() -> bool {
        true
    }

    open spec fn from_spec(v: MoveLayer) -> Self {
        AnyCommand::MoveLayer(v)
    }
}

} // verus!
