//! The sprite document and its validating builder.
use vstd::prelude::*;

use super::color_mode::ColorMode;
use super::frame::Frame;
use super::layer::{Layer, LayerId, LayerModel};
use super::palette::{Palette, PaletteEntryModel};
use super::slice::{Slice, SliceModel};
use super::tag::{Tag, TagModel};
use super::tileset::{Tileset, TilesetId, TilesetModel};
use crate::error::DocumentError;
use crate::geometry::{rect_is_empty, Rect};

verus! {

/// Free-form metadata associated with a sprite.
#[derive(Debug, Clone, Copy, Default, PartialEq, Eq)]
pub struct Metadata {
    /// Pixel aspect ratio as `(width, height)`. `(1, 1)` is square pixels;
    /// `(0, 0)` is treated as `(1, 1)` by readers.
    pub pixel_ratio: (u8, u8),
}

/// The Pincel document. Every persistent field mirrors the Aseprite v1.3 file
/// format one-to-one; [`Sprite::selection`] is transient editor state.
#[derive(Debug, PartialEq, Eq)]
pub struct Sprite {
    pub width: u32,
    pub height: u32,
    pub color_mode: ColorMode,
    /// Z-order: index `0` is the bottom-most layer.
    pub layers: Vec<Layer>,
    /// Sequential, in playback order.
    pub frames: Vec<Frame>,
    pub palette: Palette,
    pub tilesets: Vec<Tileset>,
    pub tags: Vec<Tag>,
    pub slices: Vec<Slice>,
    pub metadata: Metadata,
    /// Active marquee selection in sprite coordinates, or `None` when nothing
    /// is selected. Transient editor state, not part of the file format; the
    /// rect may extend past the canvas.
    pub selection: Option<Rect>,
}

/// Model of a sprite: every field, collections as sequences of models.
pub struct SpriteModel {
    pub width: u32,
    pub height: u32,
    pub color_mode: ColorMode,
    pub layers: Seq<LayerModel>,
    pub frames: Seq<Frame>,
    pub palette: Seq<PaletteEntryModel>,
    pub tilesets: Seq<TilesetModel>,
    pub tags: Seq<TagModel>,
    pub slices: Seq<SliceModel>,
    pub metadata: Metadata,
    pub selection: Option<Rect>,
}

impl View for Sprite {
    type V = SpriteModel;

    open spec fn view(&self) -> SpriteModel {
        SpriteModel {
            width: self.width,
            height: self.height,
            color_mode: self.color_mode,
            layers: self.layers@.map_values(|l: Layer| l@),
            frames: self.frames@,
            palette: self.palette@,
            tilesets: self.tilesets@.map_values(|t: Tileset| t@),
            tags: self.tags@.map_values(|t: Tag| t@),
            slices: self.slices@.map_values(|s: Slice| s@),
            metadata: self.metadata,
            selection: self.selection,
        }
    }
}

/// `i` is the position of the first layer with id `id`.
pub open spec fn first_layer_at(layers: Seq<LayerModel>, id: LayerId, i: int) -> bool {
    &&& 0 <= i < layers.len()
    &&& layers[i].id == id
    &&& forall|j: int| 0 <= j < i ==> (#[trigger] layers[j]).id != id
}

impl Clone for Sprite {
    fn clone(&self) -> (s: Self)
        ensures
            s@ == self@,
    {
        let mut layers: Vec<Layer> = Vec::new();
        let n = self.layers.len();
        for i in 0..n
            invariant
                n == self.layers@.len(),
                layers@.len() == i,
                forall|k: int| 0 <= k < i ==> #[trigger] layers@[k]@ == self.layers@[k]@,
        {
            layers.push(self.layers[i].clone());
        }
        proof {
            assert(layers@.map_values(|e: Layer| e@) =~= self.layers@.map_values(|e: Layer| e@));
        }
        let mut tilesets: Vec<Tileset> = Vec::new();
        let n = self.tilesets.len();
        for i in 0..n
            invariant
                n == self.tilesets@.len(),
                tilesets@.len() == i,
                forall|k: int| 0 <= k < i ==> #[trigger] tilesets@[k]@ == self.tilesets@[k]@,
        {
            tilesets.push(self.tilesets[i].clone());
        }
        proof {
            assert(tilesets@.map_values(|e: Tileset| e@) =~= self.tilesets@.map_values(|e: Tileset| e@));
        }
        let mut tags: Vec<Tag> = Vec::new();
        let n = self.tags.len();
        for i in 0..n
            invariant
                n == self.tags@.len(),
                tags@.len() == i,
                forall|k: int| 0 <= k < i ==> #[trigger] tags@[k]@ == self.tags@[k]@,
        {
            tags.push(self.tags[i].clone());
        }
        proof {
            assert(tags@.map_values(|e: Tag| e@) =~= self.tags@.map_values(|e: Tag| e@));
        }
        let mut slices: Vec<Slice> = Vec::new();
        let n = self.slices.len();
        for i in 0..n
            invariant
                n == self.slices@.len(),
                slices@.len() == i,
                forall|k: int| 0 <= k < i ==> #[trigger] slices@[k]@ == self.slices@[k]@,
        {
            slices.push(self.slices[i].clone());
        }
        proof {
            assert(slices@.map_values(|e: Slice| e@) =~= self.slices@.map_values(|e: Slice| e@));
        }
        let frames = self.frames.clone();
        proof {
            assert(frames@ =~= self.frames@);
        }
        Sprite {
            width: self.width,
            height: self.height,
            color_mode: self.color_mode,
            layers,
            frames,
            palette: self.palette.clone(),
            tilesets,
            tags,
            slices,
            metadata: self.metadata,
            selection: self.selection,
        }
    }
}

/// Position of the first layer with id `id`; meaningful when one exists.
pub open spec fn layer_pos(layers: Seq<LayerModel>, id: LayerId) -> int {
    choose|i: int| first_layer_at(layers, id, i)
}

/// `doc` with the first layer carrying `id` replaced by `l`.
pub open spec fn with_layer(doc: SpriteModel, id: LayerId, l: LayerModel) -> SpriteModel {
    SpriteModel { layers: doc.layers.update(layer_pos(doc.layers, id), l), ..doc }
}

/// The first position of an id is unique, so [`layer_pos`] names it.
pub proof fn lemma_layer_pos(layers: Seq<LayerModel>, id: LayerId, i: int)
    requires
        first_layer_at(layers, id, i),
    ensures
        layer_pos(layers, id) == i,
{
    let j = layer_pos(layers, id);
    assert(first_layer_at(layers, id, j));
    if j < i {
        assert(layers[j].id != id);
    } else if i < j {
        assert(layers[i].id != id);
    }
}

/// A layer with `id` at `k` means some position is the first one.
pub proof fn lemma_first_layer_exists(layers: Seq<LayerModel>, id: LayerId, k: int) -> (m: int)
    requires
        0 <= k < layers.len(),
        layers[k].id == id,
    ensures
        first_layer_at(layers, id, m),
    decreases k,
{
    if exists|q: int| 0 <= q < k && (#[trigger] layers[q]).id == id {
        let q = choose|q: int| 0 <= q < k && (#[trigger] layers[q]).id == id;
        lemma_first_layer_exists(layers, id, q)
    } else {
        k
    }
}

/// A layer with `id` exists exactly when [`layer_pos`] is its first position.
pub proof fn lemma_first_layer_pos_exists(layers: Seq<LayerModel>, id: LayerId) -> (m: int)
    requires
        !no_layer(layers, id),
    ensures
        first_layer_at(layers, id, m),
        m == layer_pos(layers, id),
{
    let k = choose|k: int| 0 <= k < layers.len() && (#[trigger] layers[k]).id == id;
    let m = lemma_first_layer_exists(layers, id, k);
    lemma_layer_pos(layers, id, m);
    m
}

/// Replacing a layer by one with the same id keeps every id's first position.
pub proof fn lemma_layer_pos_update(layers: Seq<LayerModel>, id: LayerId, i: int, l: LayerModel)
    requires
        0 <= i < layers.len(),
        l.id == layers[i].id,
    ensures
        no_layer(layers, id) <==> no_layer(layers.update(i, l), id),
        !no_layer(layers, id) ==> layer_pos(layers.update(i, l), id) == layer_pos(layers, id),
{
    let u = layers.update(i, l);
    assert forall|j: int| 0 <= j < layers.len() implies (#[trigger] u[j]).id == layers[j].id by {}
    if !no_layer(layers, id) {
        let k = choose|k: int| 0 <= k < layers.len() && (#[trigger] layers[k]).id == id;
        let m = lemma_first_layer_exists(layers, id, k);
        assert(first_layer_at(layers, id, m));
        assert(first_layer_at(u, id, m));
        lemma_layer_pos(layers, id, m);
        lemma_layer_pos(u, id, m);
    }
}

/// No layer has id `id`.
pub open spec fn no_layer(layers: Seq<LayerModel>, id: LayerId) -> bool {
    forall|j: int| 0 <= j < layers.len() ==> (#[trigger] layers[j]).id != id
}

/// Position of the first tileset with id `id`; meaningful when one exists.
pub open spec fn tileset_pos(tilesets: Seq<TilesetModel>, id: TilesetId) -> int {
    choose|i: int| first_tileset_at(tilesets, id, i)
}

/// `doc` with the first tileset carrying `id` replaced by `l`.
pub open spec fn with_tileset(doc: SpriteModel, id: TilesetId, l: TilesetModel) -> SpriteModel {
    SpriteModel { tilesets: doc.tilesets.update(tileset_pos(doc.tilesets, id), l), ..doc }
}

/// The first position of an id is unique, so [`tileset_pos`] names it.
pub proof fn lemma_tileset_pos(tilesets: Seq<TilesetModel>, id: TilesetId, i: int)
    requires
        first_tileset_at(tilesets, id, i),
    ensures
        tileset_pos(tilesets, id) == i,
{
    let j = tileset_pos(tilesets, id);
    assert(first_tileset_at(tilesets, id, j));
    if j < i {
        assert(tilesets[j].id != id);
    } else if i < j {
        assert(tilesets[i].id != id);
    }
}

/// A tileset with `id` at `k` means some position is the first one.
pub proof fn lemma_first_tileset_exists(tilesets: Seq<TilesetModel>, id: TilesetId, k: int) -> (m: int)
    requires
        0 <= k < tilesets.len(),
        tilesets[k].id == id,
    ensures
        first_tileset_at(tilesets, id, m),
    decreases k,
{
    if exists|q: int| 0 <= q < k && (#[trigger] tilesets[q]).id == id {
        let q = choose|q: int| 0 <= q < k && (#[trigger] tilesets[q]).id == id;
        lemma_first_tileset_exists(tilesets, id, q)
    } else {
        k
    }
}

/// A tileset with `id` exists exactly when [`tileset_pos`] is its first position.
pub proof fn lemma_first_tileset_pos_exists(tilesets: Seq<TilesetModel>, id: TilesetId) -> (m: int)
    requires
        !no_tileset(tilesets, id),
    ensures
        first_tileset_at(tilesets, id, m),
        m == tileset_pos(tilesets, id),
{
    let k = choose|k: int| 0 <= k < tilesets.len() && (#[trigger] tilesets[k]).id == id;
    let m = lemma_first_tileset_exists(tilesets, id, k);
    lemma_tileset_pos(tilesets, id, m);
    m
}

/// Replacing a tileset by one with the same id keeps every id's first position.
pub proof fn lemma_tileset_pos_update(tilesets: Seq<TilesetModel>, id: TilesetId, i: int, l: TilesetModel)
    requires
        0 <= i < tilesets.len(),
        l.id == tilesets[i].id,
    ensures
        no_tileset(tilesets, id) <==> no_tileset(tilesets.update(i, l), id),
        !no_tileset(tilesets, id) ==> tileset_pos(tilesets.update(i, l), id) == tileset_pos(tilesets, id),
{
    let u = tilesets.update(i, l);
    assert forall|j: int| 0 <= j < tilesets.len() implies (#[trigger] u[j]).id == tilesets[j].id by {}
    if !no_tileset(tilesets, id) {
        let k = choose|k: int| 0 <= k < tilesets.len() && (#[trigger] tilesets[k]).id == id;
        let m = lemma_first_tileset_exists(tilesets, id, k);
        assert(first_tileset_at(tilesets, id, m));
        assert(first_tileset_at(u, id, m));
        lemma_tileset_pos(tilesets, id, m);
        lemma_tileset_pos(u, id, m);
    }
}

/// `i` is the position of the first tileset with id `id`.
pub open spec fn first_tileset_at(tilesets: Seq<TilesetModel>, id: TilesetId, i: int) -> bool {
    &&& 0 <= i < tilesets.len()
    &&& tilesets[i].id == id
    &&& forall|j: int| 0 <= j < i ==> (#[trigger] tilesets[j]).id != id
}

/// No tileset has id `id`.
pub open spec fn no_tileset(tilesets: Seq<TilesetModel>, id: TilesetId) -> bool {
    forall|j: int| 0 <= j < tilesets.len() ==> (#[trigger] tilesets[j]).id != id
}

/// `i` is the first position whose value already occurred earlier in `ids`.
pub open spec fn first_repeat_at(ids: Seq<u32>, i: int) -> bool {
    &&& 0 <= i < ids.len()
    &&& exists|j: int| 0 <= j < i && ids[j] == ids[i]
    &&& forall|a: int, b: int| 0 <= a < b < i ==> ids[a] != ids[b]
}

/// All values of `ids` are distinct.
pub open spec fn all_distinct(ids: Seq<u32>) -> bool {
    forall|a: int, b: int| 0 <= a < b < ids.len() ==> ids[a] != ids[b]
}

/// The validation outcome of building a sprite with the given dimensions
/// and layer / tileset / slice ids: dimensions first, then layer, tileset
/// and slice ids, each reporting its first repeated id.
pub open spec fn build_outcome(
    width: u32,
    height: u32,
    layer_ids: Seq<u32>,
    tileset_ids: Seq<u32>,
    slice_ids: Seq<u32>,
) -> Option<(int, u32)> {
    if width == 0 || height == 0 {
        Some((0, 0))
    } else if !all_distinct(layer_ids) {
        Some((1, layer_ids[choose|i: int| first_repeat_at(layer_ids, i)]))
    } else if !all_distinct(tileset_ids) {
        Some((2, tileset_ids[choose|i: int| first_repeat_at(tileset_ids, i)]))
    } else if !all_distinct(slice_ids) {
        Some((3, slice_ids[choose|i: int| first_repeat_at(slice_ids, i)]))
    } else {
        None
    }
}

/// A sequence that is not all-distinct has exactly one first repeat.
pub proof fn lemma_first_repeat_unique(ids: Seq<u32>, i: int, k: int)
    requires
        first_repeat_at(ids, i),
        first_repeat_at(ids, k),
    ensures
        i == k,
{
    if i < k {
        let j = choose|j: int| 0 <= j < i && ids[j] == ids[i];
        assert(ids[j] == ids[i]);
    } else if k < i {
        let j = choose|j: int| 0 <= j < k && ids[j] == ids[k];
        assert(ids[j] == ids[k]);
    }
}

/// Report the first id that occurs twice, scanning in order.
fn first_duplicate(ids: &Vec<u32>) -> (r: Option<u32>)
    ensures
        match r {
            Some(id) => !all_distinct(ids@) && id == ids@[choose|i: int| first_repeat_at(ids@, i)],
            None => all_distinct(ids@),
        },
{
    let n = ids.len();
    let mut i: usize = 0;
    while i < n
        invariant
            n == ids@.len(),
            i <= n,
            forall|a: int, b: int| 0 <= a < b < i ==> ids@[a] != ids@[b],
        decreases n - i,
    {
        let mut j: usize = 0;
        while j < i
            invariant
                n == ids@.len(),
                i < n,
                j <= i,
                forall|a: int| 0 <= a < j ==> ids@[a] != ids@[i as int],
                forall|a: int, b: int| 0 <= a < b < i ==> ids@[a] != ids@[b],
            decreases i - j,
        {
            if ids[j] == ids[i] {
                proof {
                    assert(ids@[j as int] == ids@[i as int]);
                    assert(first_repeat_at(ids@, i as int));
                    let k = choose|k: int| first_repeat_at(ids@, k);
                    lemma_first_repeat_unique(ids@, i as int, k);
                }
                return Some(ids[i]);
            }
            j = j + 1;
        }
        i = i + 1;
    }
    None
}

impl Sprite {
    /// Start a builder for a sprite with the given canvas dimensions.
    pub fn builder(width: u32, height: u32) -> (b: SpriteBuilder)
        ensures
            b@ == SpriteBuilder::initial(width, height),
    {
        SpriteBuilder::new(width, height)
    }

    /// Replace the active marquee selection. An empty `rect` (zero width or
    /// height) clears the selection instead of storing a degenerate marquee.
    pub fn set_selection(&mut self, rect: Rect)
        ensures
            final(self)@ == (SpriteModel {
                selection: if rect_is_empty(rect) {
                    None
                } else {
                    Some(rect)
                },
                ..old(self)@
            }),
    {
        self.selection = if rect.is_empty() {
            None
        } else {
            Some(rect)
        };
    }

    /// Drop the active marquee selection, if any.
    pub fn clear_selection(&mut self)
        ensures
            final(self)@ == (SpriteModel { selection: None, ..old(self)@ }),
    {
        self.selection = None;
    }

    /// `true` when a non-empty marquee selection is active.
    pub fn has_selection(&self) -> (b: bool)
        ensures
            b == (self.selection matches Some(r) && !rect_is_empty(r)),
    {
        match self.selection {
            Some(r) => !r.is_empty(),
            None => false,
        }
    }

    /// Position of the first layer with id `id`.
    pub fn layer_index(&self, id: LayerId) -> (r: Option<usize>)
        ensures
            match r {
                Some(i) => first_layer_at(self@.layers, id, i as int),
                None => no_layer(self@.layers, id),
            },
    {
        let n = self.layers.len();
        let mut i: usize = 0;
        while i < n
            invariant
                n == self.layers@.len(),
                i <= n,
                forall|j: int| 0 <= j < i ==> (#[trigger] self.layers@[j]).id != id,
            decreases n - i,
        {
            if self.layers[i].id == id {
                return Some(i);
            }
            i = i + 1;
        }
        None
    }

    /// Look up a layer by id. Returns `None` if no layer has the given id.
    pub fn layer(&self, id: LayerId) -> (r: Option<&Layer>)
        ensures
            match r {
                Some(l) => exists|i: int|
                    first_layer_at(self@.layers, id, i) && l@ == #[trigger] self@.layers[i],
                None => no_layer(self@.layers, id),
            },
    {
        match self.layer_index(id) {
            Some(i) => Some(&self.layers[i]),
            None => None,
        }
    }

    /// Mutable layer lookup by id.
    pub fn layer_mut(&mut self, id: LayerId) -> (r: Option<&mut Layer>)
        ensures
            r is Some <==> !no_layer(old(self)@.layers, id),
            r matches Some(l) ==> exists|i: int|
                #![trigger old(self)@.layers[i]]
                first_layer_at(old(self)@.layers, id, i) && l@ == old(self)@.layers[i]
                    && final(self)@ == (SpriteModel {
                    layers: old(self)@.layers.update(i, final(l)@),
                    ..old(self)@
                }),
            r is None ==> final(self)@ == old(self)@,
    {
        match self.layer_index(id) {
            Some(i) => {
                proof {
                    let s0 = self.layers@;
                    assert forall|v: Layer| #![trigger s0.update(i as int, v)]
                        s0.update(i as int, v).map_values(|l: Layer| l@)
                            == s0.map_values(|l: Layer| l@).update(i as int, v@) by {
                        assert(s0.update(i as int, v).map_values(|l: Layer| l@)
                            =~= s0.map_values(|l: Layer| l@).update(i as int, v@));
                    }
                }
                Some(&mut self.layers[i])
            },
            None => None,
        }
    }

    /// Position of the first tileset with id `id`.
    pub fn tileset_index(&self, id: TilesetId) -> (r: Option<usize>)
        ensures
            match r {
                Some(i) => first_tileset_at(self@.tilesets, id, i as int),
                None => no_tileset(self@.tilesets, id),
            },
    {
        let n = self.tilesets.len();
        let mut i: usize = 0;
        while i < n
            invariant
                n == self.tilesets@.len(),
                i <= n,
                forall|j: int| 0 <= j < i ==> (#[trigger] self.tilesets@[j]).id != id,
            decreases n - i,
        {
            if self.tilesets[i].id == id {
                return Some(i);
            }
            i = i + 1;
        }
        None
    }

    /// Look up a tileset by id. Returns `None` if no tileset has the given id.
    pub fn tileset(&self, id: TilesetId) -> (r: Option<&Tileset>)
        ensures
            match r {
                Some(t) => exists|i: int|
                    first_tileset_at(self@.tilesets, id, i) && t@ == #[trigger] self@.tilesets[i],
                None => no_tileset(self@.tilesets, id),
            },
    {
        match self.tileset_index(id) {
            Some(i) => Some(&self.tilesets[i]),
            None => None,
        }
    }

    /// Mutable tileset lookup by id.
    pub fn tileset_mut(&mut self, id: TilesetId) -> (r: Option<&mut Tileset>)
        ensures
            r is Some <==> !no_tileset(old(self)@.tilesets, id),
            r matches Some(t) ==> exists|i: int|
                #![trigger old(self)@.tilesets[i]]
                first_tileset_at(old(self)@.tilesets, id, i) && t@ == old(self)@.tilesets[i]
                    && final(self)@ == (SpriteModel {
                    tilesets: old(self)@.tilesets.update(i, final(t)@),
                    ..old(self)@
                }),
            r is None ==> final(self)@ == old(self)@,
    {
        match self.tileset_index(id) {
            Some(i) => {
                proof {
                    let s0 = self.tilesets@;
                    assert forall|v: Tileset| #![trigger s0.update(i as int, v)]
                        s0.update(i as int, v).map_values(|t: Tileset| t@)
                            == s0.map_values(|t: Tileset| t@).update(i as int, v@) by {
                        assert(s0.update(i as int, v).map_values(|t: Tileset| t@)
                            =~= s0.map_values(|t: Tileset| t@).update(i as int, v@));
                    }
                }
                Some(&mut self.tilesets[i])
            },
            None => None,
        }
    }
}

/// Fluent builder for [`Sprite`]. Validates non-zero canvas dimensions and
/// uniqueness of layer / tileset / slice ids on `build`.
#[derive(Debug)]
pub struct SpriteBuilder {
    width: u32,
    height: u32,
    color_mode: ColorMode,
    layers: Vec<Layer>,
    frames: Vec<Frame>,
    palette: Palette,
    tilesets: Vec<Tileset>,
    tags: Vec<Tag>,
    slices: Vec<Slice>,
    metadata: super::sprite::Metadata,
}

impl View for SpriteBuilder {
    /// The sprite the builder describes (with no selection).
    type V = SpriteModel;

    closed spec fn view(&self) -> SpriteModel {
        SpriteModel {
            width: self.width,
            height: self.height,
            color_mode: self.color_mode,
            layers: self.layers@.map_values(|l: Layer| l@),
            frames: self.frames@,
            palette: self.palette@,
            tilesets: self.tilesets@.map_values(|t: Tileset| t@),
            tags: self.tags@.map_values(|t: Tag| t@),
            slices: self.slices@.map_values(|s: Slice| s@),
            metadata: self.metadata,
            selection: None,
        }
    }
}

impl SpriteBuilder {
    /// The model of a freshly started builder: an empty RGBA document.
    pub open spec fn initial(width: u32, height: u32) -> SpriteModel {
        SpriteModel {
            width,
            height,
            color_mode: ColorMode::Rgba,
            layers: Seq::empty(),
            frames: Seq::empty(),
            palette: Seq::empty(),
            tilesets: Seq::empty(),
            tags: Seq::empty(),
            slices: Seq::empty(),
            metadata: Metadata { pixel_ratio: (0, 0) },
            selection: None,
        }
    }

    pub fn new(width: u32, height: u32) -> (b: Self)
        ensures
            b@ == Self::initial(width, height),
    {
        let b = SpriteBuilder {
            width,
            height,
            color_mode: ColorMode::Rgba,
            layers: Vec::new(),
            frames: Vec::new(),
            palette: Palette::new(),
            tilesets: Vec::new(),
            tags: Vec::new(),
            slices: Vec::new(),
            metadata: Metadata { pixel_ratio: (0, 0) },
        };
        proof {
            assert(b@.layers =~= Seq::<LayerModel>::empty());
            assert(b@.frames =~= Seq::<Frame>::empty());
            assert(b@.tilesets =~= Seq::<TilesetModel>::empty());
            assert(b@.tags =~= Seq::<TagModel>::empty());
            assert(b@.slices =~= Seq::<SliceModel>::empty());
        }
        b
    }

    pub fn color_mode(self, mode: ColorMode) -> (b: Self)
        ensures
            b@ == (SpriteModel { color_mode: mode, ..self@ }),
    {
        let mut b = self;
        b.color_mode = mode;
        b
    }

    pub fn add_layer(self, layer: Layer) -> (b: Self)
        ensures
            b@ == (SpriteModel { layers: self@.layers.push(layer@), ..self@ }),
    {
        let mut b = self;
        let ghost old_layers = b.layers@;
        b.layers.push(layer);
        proof {
            assert(b.layers@.map_values(|l: Layer| l@) =~= old_layers.map_values(
                |l: Layer| l@,
            ).push(layer@));
        }
        b
    }

    pub fn add_frame(self, frame: Frame) -> (b: Self)
        ensures
            b@ == (SpriteModel { frames: self@.frames.push(frame), ..self@ }),
    {
        let mut b = self;
        b.frames.push(frame);
        b
    }

    pub fn palette(self, palette: Palette) -> (b: Self)
        ensures
            b@ == (SpriteModel { palette: palette@, ..self@ }),
    {
        let mut b = self;
        b.palette = palette;
        b
    }

    pub fn add_tileset(self, tileset: Tileset) -> (b: Self)
        ensures
            b@ == (SpriteModel { tilesets: self@.tilesets.push(tileset@), ..self@ }),
    {
        let mut b = self;
        let ghost old_t = b.tilesets@;
        b.tilesets.push(tileset);
        proof {
            assert(b.tilesets@.map_values(|t: Tileset| t@) =~= old_t.map_values(
                |t: Tileset| t@,
            ).push(tileset@));
        }
        b
    }

    pub fn add_tag(self, tag: Tag) -> (b: Self)
        ensures
            b@ == (SpriteModel { tags: self@.tags.push(tag@), ..self@ }),
    {
        let mut b = self;
        let ghost old_t = b.tags@;
        b.tags.push(tag);
        proof {
            assert(b.tags@.map_values(|t: Tag| t@) =~= old_t.map_values(|t: Tag| t@).push(
                tag@,
            ));
        }
        b
    }

    pub fn add_slice(self, slice: Slice) -> (b: Self)
        ensures
            b@ == (SpriteModel { slices: self@.slices.push(slice@), ..self@ }),
    {
        let mut b = self;
        let ghost old_s = b.slices@;
        b.slices.push(slice);
        proof {
            assert(b.slices@.map_values(|s: Slice| s@) =~= old_s.map_values(|s: Slice| s@).push(
                slice@,
            ));
        }
        b
    }

    pub fn metadata(self, metadata: Metadata) -> (b: Self)
        ensures
            b@ == (SpriteModel { metadata, ..self@ }),
    {
        let mut b = self;
        b.metadata = metadata;
        b
    }

    /// Consume the builder and return a validated [`Sprite`].
    pub fn build(self) -> (r: Result<Sprite, DocumentError>)
        ensures
            ({
                let outcome = build_outcome(
                    self@.width,
                    self@.height,
                    self@.layers.map_values(|l: LayerModel| l.id.0),
                    self@.tilesets.map_values(|t: TilesetModel| t.id.0),
                    self@.slices.map_values(|s: SliceModel| s.id.0),
                );
                match r {
                    Ok(s) => outcome is None && s@ == self@,
                    Err(DocumentError::InvalidDimensions { width, height }) => outcome == Some(
                        (0int, 0u32),
                    ) && width == self@.width && height == self@.height,
                    Err(DocumentError::DuplicateId { kind, id }) => {
                        ||| outcome == Some((1int, id)) && kind == "layer"
                        ||| outcome == Some((2int, id)) && kind == "tileset"
                        ||| outcome == Some((3int, id)) && kind == "slice"
                    },
                    Err(DocumentError::UnknownId { .. }) => false,
                }
            }),
    {
        if self.width == 0 || self.height == 0 {
            return Err(DocumentError::InvalidDimensions { width: self.width, height: self.height });
        }
        let ghost model = self@;
        let mut layer_ids: Vec<u32> = Vec::new();
        let mut i: usize = 0;
        while i < self.layers.len()
            invariant
                i <= self.layers@.len(),
                layer_ids@ == self.layers@.subrange(0, i as int).map_values(|l: Layer| l.id.0),
            decreases self.layers@.len() - i,
        {
            layer_ids.push(self.layers[i].id.0);
            proof {
                assert(self.layers@.subrange(0, i + 1).map_values(|l: Layer| l.id.0)
                    =~= self.layers@.subrange(0, i as int).map_values(|l: Layer| l.id.0).push(
                    self.layers@[i as int].id.0,
                ));
            }
            i = i + 1;
        }
        proof {
            assert(self.layers@.subrange(0, i as int) =~= self.layers@);
            assert(layer_ids@ =~= model.layers.map_values(|l: LayerModel| l.id.0));
        }
        let mut tileset_ids: Vec<u32> = Vec::new();
        let mut i: usize = 0;
        while i < self.tilesets.len()
            invariant
                i <= self.tilesets@.len(),
                tileset_ids@ == self.tilesets@.subrange(0, i as int).map_values(
                    |t: Tileset| t.id.0,
                ),
            decreases self.tilesets@.len() - i,
        {
            tileset_ids.push(self.tilesets[i].id.0);
            proof {
                assert(self.tilesets@.subrange(0, i + 1).map_values(|t: Tileset| t.id.0)
                    =~= self.tilesets@.subrange(0, i as int).map_values(|t: Tileset| t.id.0).push(
                    self.tilesets@[i as int].id.0,
                ));
            }
            i = i + 1;
        }
        proof {
            assert(self.tilesets@.subrange(0, i as int) =~= self.tilesets@);
            assert(tileset_ids@ =~= model.tilesets.map_values(|t: TilesetModel| t.id.0));
        }
        let mut slice_ids: Vec<u32> = Vec::new();
        let mut i: usize = 0;
        while i < self.slices.len()
            invariant
                i <= self.slices@.len(),
                slice_ids@ == self.slices@.subrange(0, i as int).map_values(|s: Slice| s.id.0),
            decreases self.slices@.len() - i,
        {
            slice_ids.push(self.slices[i].id.0);
            proof {
                assert(self.slices@.subrange(0, i + 1).map_values(|s: Slice| s.id.0)
                    =~= self.slices@.subrange(0, i as int).map_values(|s: Slice| s.id.0).push(
                    self.slices@[i as int].id.0,
                ));
            }
            i = i + 1;
        }
        proof {
            assert(self.slices@.subrange(0, i as int) =~= self.slices@);
            assert(slice_ids@ =~= model.slices.map_values(|s: SliceModel| s.id.0));
        }
        if let Some(id) = first_duplicate(&layer_ids) {
            return Err(DocumentError::DuplicateId { kind: "layer", id });
        }
        if let Some(id) = first_duplicate(&tileset_ids) {
            return Err(DocumentError::DuplicateId { kind: "tileset", id });
        }
        if let Some(id) = first_duplicate(&slice_ids) {
            return Err(DocumentError::DuplicateId { kind: "slice", id });
        }
        Ok(
            Sprite {
                width: self.width,
                height: self.height,
                color_mode: self.color_mode,
                layers: self.layers,
                frames: self.frames,
                palette: self.palette,
                tilesets: self.tilesets,
                tags: self.tags,
                slices: self.slices,
                metadata: self.metadata,
                selection: None,
            },
        )
    }
}

} // verus!
