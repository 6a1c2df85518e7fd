//! Staging a sprite for the `.aseprite` writer: every check that decides
//! whether a document can be written without loss, and the plain values
//! the writer is handed.
//!
//! Scope: RGBA color mode only; image and group layers only; image and
//! linked cels only. Slices and tilesets on the document are dropped.
use vstd::prelude::*;

use super::error::CodecError;
use crate::document::cel::{buffer_wf, CelDataModel, CelModel, PixelBufferModel};
use crate::document::cel_map::CelKey;
use crate::document::layer::LayerModel;
use crate::document::sprite::SpriteModel;
use crate::document::tag::TagModel;
use crate::document::{
    BlendMode, Cel, CelData, CelMap, ColorMode, Layer, LayerId, LayerKind, Palette, PaletteEntry,
    Sprite, Tag, TagDirection,
};

verus! {

/// A layer as it goes to the file.
#[derive(Debug)]
pub struct StagedLayer {
    pub visible: bool,
    pub editable: bool,
    /// `true` for a group layer, `false` for an image layer.
    pub group: bool,
    /// Nesting depth: the number of groups above the layer.
    pub child_level: u16,
    pub blend_mode: BlendMode,
    pub opacity: u8,
    pub name: String,
}

/// The position an id→position table filled from `layers` in order finds
/// for `id`: that of the last layer carrying it.
pub open spec fn layer_index_of(layers: Seq<LayerModel>, id: LayerId) -> Option<int>
    decreases layers.len(),
{
    if layers.len() == 0 {
        None
    } else if layers.last().id == id {
        Some(layers.len() - 1)
    } else {
        layer_index_of(layers.drop_last(), id)
    }
}

/// The layer an id→layer table filled from `layers` in order finds for
/// `id`: the last layer carrying it.
pub open spec fn layer_by_id(layers: Seq<LayerModel>, id: LayerId) -> Option<LayerModel> {
    match layer_index_of(layers, id) {
        Some(i) => Some(layers[i]),
        None => None,
    }
}

/// What the parent check reports for layer `l`: a parent must exist and
/// be a group.
pub open spec fn parent_kind_error(layers: Seq<LayerModel>, l: LayerModel) -> Option<CodecError> {
    match l.parent {
        None => None,
        Some(p) => match layer_by_id(layers, p) {
            None => Some(CodecError::LayerParentNotFound { id: p.0 }),
            Some(q) => if q.kind == LayerKind::Group {
                None
            } else {
                Some(CodecError::LayerParentNotGroup { child: l.id.0, parent: p.0 })
            },
        },
    }
}

/// The first parent-check error among the layers from index `i` on.
pub open spec fn first_parent_kind_error(layers: Seq<LayerModel>, i: int) -> Option<CodecError>
    decreases layers.len() - i,
{
    if i >= layers.len() {
        None
    } else {
        match parent_kind_error(layers, layers[i]) {
            Some(e) => Some(e),
            None => first_parent_kind_error(layers, i + 1),
        }
    }
}

/// The nesting depth found by walking a parent chain: `seen` holds the
/// ids visited so far (the starting layer first), `next` the parent still
/// to visit. A parent met twice is a cycle; a depth past `u16::MAX` does
/// not fit the file. `fuel` bounds the walk (a chain of distinct ids
/// never needs more steps than there are layers).
pub open spec fn walk_depth(
    layers: Seq<LayerModel>,
    seen: Seq<LayerId>,
    next: Option<LayerId>,
    fuel: nat,
) -> Result<u16, CodecError>
    decreases fuel,
{
    match next {
        None => Ok((seen.len() - 1) as u16),
        Some(p) => if seen.contains(p) {
            Err(CodecError::LayerCycle { id: p.0 })
        } else if seen.len() > 65535 {
            Err(CodecError::OutOfRange { what: "layer depth", value: 65536 })
        } else if fuel == 0 {
            Err(CodecError::LayerCycle { id: p.0 })
        } else {
            match layer_by_id(layers, p) {
                None => Err(CodecError::LayerParentNotFound { id: p.0 }),
                Some(q) => walk_depth(layers, seen.push(p), q.parent, (fuel - 1) as nat),
            }
        },
    }
}

/// The `child_level` of layer `l`: the length of its parent chain.
pub open spec fn child_level(layers: Seq<LayerModel>, l: LayerModel) -> Result<u16, CodecError> {
    walk_depth(layers, seq![l.id], l.parent, (layers.len() + 1) as nat)
}

/// The first depth error among the layers from index `i` on.
pub open spec fn first_depth_error(layers: Seq<LayerModel>, i: int) -> Option<CodecError>
    decreases layers.len() - i,
{
    if i >= layers.len() {
        None
    } else {
        match child_level(layers, layers[i]) {
            Err(e) => Some(e),
            Ok(_) => first_depth_error(layers, i + 1),
        }
    }
}

/// The depth of layer `i` (meaningful when no depth error occurs).
pub open spec fn depth_of(layers: Seq<LayerModel>, i: int) -> u16 {
    match child_level(layers, layers[i]) {
        Ok(d) => d,
        Err(_) => 0,
    }
}

/// The parent a reader reconstructs for a layer at `depth` from its stack
/// of open groups (`stack[d]` is the group most recently opened at `d`).
pub open spec fn stack_parent(stack: Seq<LayerId>, depth: u16) -> Option<LayerId> {
    if depth == 0 || depth > stack.len() {
        None
    } else {
        Some(stack[depth - 1])
    }
}

/// The reader's group stack after a layer at `depth`: deeper entries are
/// dropped, and a group opens its own level.
pub open spec fn stack_after(stack: Seq<LayerId>, l: LayerModel, depth: u16) -> Seq<LayerId> {
    let t = if (depth as int) < stack.len() {
        stack.take(depth as int)
    } else {
        stack
    };
    if l.kind == LayerKind::Group {
        t.push(l.id)
    } else {
        t
    }
}

/// The layer ids as the error reports them.
pub open spec fn id_number(p: Option<LayerId>) -> Option<u32> {
    match p {
        Some(id) => Some(id.0),
        None => None,
    }
}

/// The first layer, from index `i` on with the reader's stack `stack`,
/// whose reconstructed parent differs from its parent.
pub open spec fn first_order_error(layers: Seq<LayerModel>, stack: Seq<LayerId>, i: int) -> Option<
    CodecError,
>
    decreases layers.len() - i,
{
    if i < 0 || i >= layers.len() {
        None
    } else {
        let l = layers[i];
        let d = depth_of(layers, i);
        if stack_parent(stack, d) != l.parent {
            Some(
                CodecError::LayerOrderingInconsistent {
                    child: l.id.0,
                    expected: id_number(l.parent),
                    reconstructed: id_number(stack_parent(stack, d)),
                },
            )
        } else {
            first_order_error(layers, stack_after(stack, l, d), i + 1)
        }
    }
}

/// The reader's stack of open groups after the layers before `i`, walked
/// with the depths staging gives them.
pub open spec fn order_stack(layers: Seq<LayerModel>, i: int) -> Seq<LayerId>
    decreases i,
{
    if i <= 0 {
        seq![]
    } else {
        stack_after(order_stack(layers, i - 1), layers[i - 1], depth_of(layers, i - 1))
    }
}

/// From index `i` on, a walk that reports no ordering error rebuilds every
/// parent.
proof fn lemma_order_ok_from(layers: Seq<LayerModel>, i: int)
    requires
        0 <= i <= layers.len(),
        first_order_error(layers, order_stack(layers, i), i) is None,
    ensures
        forall|j: int|
            i <= j < layers.len() ==> stack_parent(order_stack(layers, j), depth_of(layers, j))
                == (#[trigger] layers[j]).parent,
    decreases layers.len() - i,
{
    if i < layers.len() {
        assert(order_stack(layers, i + 1) == stack_after(
            order_stack(layers, i),
            layers[i],
            depth_of(layers, i),
        ));
        lemma_order_ok_from(layers, i + 1);
    }
}

/// A layer list that stages without error is one from which a reader that
/// rebuilds parents with a stack of open groups, walking the staged depths
/// in order, gets every layer's parent back.
pub proof fn lemma_staged_depths_rebuild_parents(layers: Seq<LayerModel>)
    requires
        layers_error(layers) is None,
    ensures
        forall|i: int|
            0 <= i < layers.len() ==> stack_parent(order_stack(layers, i), depth_of(layers, i))
                == (#[trigger] layers[i]).parent,
{
    assert(order_stack(layers, 0) == Seq::<LayerId>::empty());
    lemma_order_ok_from(layers, 0);
}

/// The first tilemap layer from index `i` on, which the file cannot hold.
pub open spec fn first_tilemap_layer(layers: Seq<LayerModel>, i: int) -> bool
    decreases layers.len() - i,
{
    if i < 0 || i >= layers.len() {
        false
    } else {
        layers[i].kind is Tilemap || first_tilemap_layer(layers, i + 1)
    }
}

/// The outcome of staging the layer list: the parent checks, then the
/// depths, then the reader's reconstruction, then the layer kinds.
pub open spec fn layers_error(layers: Seq<LayerModel>) -> Option<CodecError> {
    if first_parent_kind_error(layers, 0) is Some {
        first_parent_kind_error(layers, 0)
    } else if first_depth_error(layers, 0) is Some {
        first_depth_error(layers, 0)
    } else if first_order_error(layers, seq![], 0) is Some {
        first_order_error(layers, seq![], 0)
    } else if first_tilemap_layer(layers, 0) {
        Some(CodecError::UnsupportedLayerKind { kind: 2 })
    } else {
        None
    }
}

/// `s` is layer `l` as staged at depth `d`.
pub open spec fn staged_layer_is(s: StagedLayer, l: LayerModel, d: u16) -> bool {
    &&& s.visible == l.visible
    &&& s.editable == l.editable
    &&& s.group == (l.kind == LayerKind::Group)
    &&& s.child_level == d
    &&& s.blend_mode == l.blend_mode
    &&& s.opacity == l.opacity
    &&& s.name@ == l.name
}

/// A sequence of distinct ids, each carried by some layer, is no longer
/// than the layer list.
proof fn lemma_distinct_ids_bounded(seen: Seq<LayerId>, layers: Seq<LayerModel>)
    requires
        seen.no_duplicates(),
        forall|k: int|
            0 <= k < seen.len() ==> exists|j: int|
                0 <= j < layers.len() && (#[trigger] layers[j]).id == #[trigger] seen[k],
    ensures
        seen.len() <= layers.len(),
{
    let ids = layers.map_values(|l: LayerModel| l.id);
    seen.unique_seq_to_set();
    ids.lemma_cardinality_of_set();
    vstd::seq_lib::seq_to_set_is_finite(ids);
    assert forall|x: LayerId| seen.to_set().contains(x) implies ids.to_set().contains(x) by {
        let k = choose|k: int| 0 <= k < seen.len() && seen[k] == x;
        let j = choose|j: int| 0 <= j < layers.len() && (#[trigger] layers[j]).id == seen[k];
        assert(ids[j] == x);
    }
    vstd::set_lib::lemma_len_subset(seen.to_set(), ids.to_set());
}

/// The position found for an id holds a layer carrying it; no position
/// is found only when no layer carries it.
pub proof fn lemma_layer_index_of(layers: Seq<LayerModel>, id: LayerId)
    ensures
        match layer_index_of(layers, id) {
            Some(i) => 0 <= i < layers.len() && layers[i].id == id,
            None => forall|j: int| 0 <= j < layers.len() ==> (#[trigger] layers[j]).id != id,
        },
    decreases layers.len(),
{
    if layers.len() > 0 {
        lemma_layer_index_of(layers.drop_last(), id);
        if layers.last().id != id {
            match layer_index_of(layers.drop_last(), id) {
                Some(i) => {
                    assert(layers.drop_last()[i] == layers[i]);
                },
                None => {
                    assert forall|j: int| 0 <= j < layers.len() implies (#[trigger] layers[j]).id != id by {
                        if j < layers.len() - 1 {
                            assert(layers.drop_last()[j] == layers[j]);
                        }
                    }
                },
            }
        }
    }
}

/// The position an id→position table finds for `id`: that of the last
/// layer carrying it.
fn find_layer(layers: &Vec<Layer>, id: LayerId) -> (r: Option<usize>)
    ensures
        match r {
            Some(k) => k < layers@.len() && layer_index_of(layers@.map_values(|l: Layer| l@), id)
                == Some(k as int),
            None => layer_index_of(layers@.map_values(|l: Layer| l@), id) is None,
        },
{
    let ghost models = layers@.map_values(|l: Layer| l@);
    let mut j: usize = layers.len();
    proof {
        assert(models.take(j as int) =~= models);
    }
    while j > 0
        invariant
            j <= layers@.len(),
            models == layers@.map_values(|l: Layer| l@),
            layer_index_of(models, id) == layer_index_of(models.take(j as int), id),
        decreases j,
    {
        proof {
            let t = models.take(j as int);
            assert(t.drop_last() =~= models.take(j - 1));
            assert(t.last() == layers@[j - 1]@);
        }
        if layers[j - 1].id.0 == id.0 {
            return Some(j - 1);
        }
        j = j - 1;
    }
    proof {
        assert(models.take(0).len() == 0);
    }
    None
}

/// The first parent-check error over the whole layer list.
fn validate_parent_kinds(layers: &Vec<Layer>) -> (r: Result<(), CodecError>)
    ensures
        match r {
            Ok(()) => first_parent_kind_error(layers@.map_values(|l: Layer| l@), 0) is None,
            Err(e) => first_parent_kind_error(layers@.map_values(|l: Layer| l@), 0) == Some(e),
        },
{
    let ghost models = layers@.map_values(|l: Layer| l@);
    let n = layers.len();
    let mut i: usize = 0;
    while i < n
        invariant
            n == layers@.len(),
            models == layers@.map_values(|l: Layer| l@),
            i <= n,
            first_parent_kind_error(models, 0) == first_parent_kind_error(models, i as int),
        decreases n - i,
    {
        let layer = &layers[i];
        assert(models[i as int] == layer@);
        if let Some(parent_id) = layer.parent {
            match find_layer(layers, parent_id) {
                None => {
                    return Err(CodecError::LayerParentNotFound { id: parent_id.0 });
                },
                Some(k) => {
                    let is_group = match layers[k].kind {
                        LayerKind::Group => true,
                        _ => false,
                    };
                    if !is_group {
                        return Err(
                            CodecError::LayerParentNotGroup { child: layer.id.0, parent: parent_id.0 },
                        );
                    }
                },
            }
        }
        i = i + 1;
    }
    Ok(())
}

/// `true` when `ids` holds `id`.
fn contains_id(ids: &Vec<LayerId>, id: LayerId) -> (b: bool)
    ensures
        b == ids@.contains(id),
{
    let n = ids.len();
    let mut i: usize = 0;
    while i < n
        invariant
            n == ids@.len(),
            i <= n,
            forall|k: int| 0 <= k < i ==> ids@[k] != id,
        decreases n - i,
    {
        if ids[i].0 == id.0 {
            assert(ids@[i as int] == id);
            return true;
        }
        i = i + 1;
    }
    false
}

/// Walk the parent chain of layer `target` to the root, counting hops.
/// Detects cycles (the document model does not rule them out).
fn compute_child_level(layers: &Vec<Layer>, target: usize) -> (r: Result<u16, CodecError>)
    requires
        target < layers@.len(),
    ensures
        r == child_level(layers@.map_values(|l: Layer| l@), layers@[target as int]@),
{
    let ghost models = layers@.map_values(|l: Layer| l@);
    let mut depth: u16 = 0;
    let mut seen: Vec<LayerId> = Vec::new();
    seen.push(layers[target].id);
    let mut next: Option<LayerId> = layers[target].parent;
    let ghost mut fuel: nat = (models.len() + 1) as nat;
    proof {
        assert(seen@ =~= seq![models[target as int].id]);
        assert(models[target as int] == layers@[target as int]@);
    }
    loop
        invariant
            models == layers@.map_values(|l: Layer| l@),
            target < layers@.len(),
            child_level(models, layers@[target as int]@) == walk_depth(models, seen@, next, fuel),
            seen@.len() == depth + 1,
            seen@.no_duplicates(),
            forall|k: int|
                0 <= k < seen@.len() ==> exists|j: int|
                    0 <= j < models.len() && (#[trigger] models[j]).id == #[trigger] seen@[k],
            fuel + seen@.len() == models.len() + 2,
        decreases fuel,
    {
        match next {
            None => {
                return Ok(depth);
            },
            Some(p) => {
                if contains_id(&seen, p) {
                    return Err(CodecError::LayerCycle { id: p.0 });
                }
                if depth == 65535 {
                    return Err(CodecError::OutOfRange { what: "layer depth", value: 65536 });
                }
                proof {
                    lemma_distinct_ids_bounded(seen@, models);
                }
                match find_layer(layers, p) {
                    None => {
                        return Err(CodecError::LayerParentNotFound { id: p.0 });
                    },
                    Some(k) => {
                        proof {
                            lemma_layer_index_of(models, p);
                        }
                        let ghost old_seen = seen@;
                        seen.push(p);
                        depth = depth + 1;
                        next = layers[k].parent;
                        proof {
                            fuel = (fuel - 1) as nat;
                            assert forall|a: int, b: int| 0 <= a < seen@.len() && 0 <= b < seen@.len() && a != b implies seen@[a] != seen@[b] by {
                                if a < old_seen.len() && b < old_seen.len() {
                                    assert(old_seen[a] == seen@[a] && old_seen[b] == seen@[b]);
                                } else if a == old_seen.len() {
                                    assert(seen@[b] == old_seen[b]);
                                    assert(old_seen.contains(old_seen[b]));
                                } else {
                                    assert(seen@[a] == old_seen[a]);
                                    assert(old_seen.contains(old_seen[a]));
                                }
                            }
                            assert forall|kk: int| 0 <= kk < seen@.len() implies exists|j: int|
                                0 <= j < models.len() && (#[trigger] models[j]).id == #[trigger] seen@[kk] by {
                                if kk < old_seen.len() {
                                    assert(seen@[kk] == old_seen[kk]);
                                } else {
                                    assert(models[k as int].id == seen@[kk]);
                                }
                            }
                        }
                    },
                }
            },
        }
    }
}

/// The depth of every layer, or the first depth error.
fn compute_depths(layers: &Vec<Layer>) -> (r: Result<Vec<u16>, CodecError>)
    ensures
        match r {
            Ok(v) => first_depth_error(layers@.map_values(|l: Layer| l@), 0) is None && v@.len()
                == layers@.len() && forall|i: int|
                0 <= i < v@.len() ==> #[trigger] v@[i] == depth_of(
                    layers@.map_values(|l: Layer| l@),
                    i,
                ),
            Err(e) => first_depth_error(layers@.map_values(|l: Layer| l@), 0) == Some(e),
        },
{
    let ghost models = layers@.map_values(|l: Layer| l@);
    let n = layers.len();
    let mut out: Vec<u16> = Vec::new();
    let mut i: usize = 0;
    while i < n
        invariant
            n == layers@.len(),
            models == layers@.map_values(|l: Layer| l@),
            i <= n,
            out@.len() == i,
            first_depth_error(models, 0) == first_depth_error(models, i as int),
            forall|k: int| 0 <= k < i ==> #[trigger] out@[k] == depth_of(models, k),
        decreases n - i,
    {
        assert(models[i as int] == layers@[i as int]@);
        match compute_child_level(layers, i) {
            Err(e) => {
                return Err(e);
            },
            Ok(d) => {
                out.push(d);
            },
        }
        i = i + 1;
    }
    Ok(out)
}

/// Replay the reader's reconstruction of parents (a stack of open groups,
/// walked in layer order) on the depths about to be written, and reject a
/// layer whose parent would change after a write→read round-trip.
fn validate_layer_order(layers: &Vec<Layer>, depths: &Vec<u16>) -> (r: Result<(), CodecError>)
    requires
        depths@.len() == layers@.len(),
        forall|i: int|
            0 <= i < depths@.len() ==> #[trigger] depths@[i] == depth_of(
                layers@.map_values(|l: Layer| l@),
                i,
            ),
    ensures
        match r {
            Ok(()) => first_order_error(layers@.map_values(|l: Layer| l@), seq![], 0) is None,
            Err(e) => first_order_error(layers@.map_values(|l: Layer| l@), seq![], 0) == Some(e),
        },
{
    let ghost models = layers@.map_values(|l: Layer| l@);
    let n = layers.len();
    let mut stack: Vec<LayerId> = Vec::new();
    let mut i: usize = 0;
    proof {
        assert(stack@ =~= seq![]);
    }
    while i < n
        invariant
            n == layers@.len(),
            n == depths@.len(),
            models == layers@.map_values(|l: Layer| l@),
            forall|k: int| 0 <= k < depths@.len() ==> #[trigger] depths@[k] == depth_of(models, k),
            i <= n,
            first_order_error(models, seq![], 0) == first_order_error(models, stack@, i as int),
        decreases n - i,
    {
        let layer = &layers[i];
        let depth = depths[i];
        assert(models[i as int] == layer@);
        let du = depth as usize;
        if du < stack.len() {
            stack.truncate(du);
        }
        let reconstructed: Option<LayerId> = if depth == 0 || du > stack.len() {
            None
        } else {
            Some(stack[du - 1])
        };
        let same = match (reconstructed, layer.parent) {
            (None, None) => true,
            (Some(a), Some(b)) => a.0 == b.0,
            _ => false,
        };
        if !same {
            return Err(
                CodecError::LayerOrderingInconsistent {
                    child: layer.id.0,
                    expected: match layer.parent {
                        Some(p) => Some(p.0),
                        None => None,
                    },
                    reconstructed: match reconstructed {
                        Some(p) => Some(p.0),
                        None => None,
                    },
                },
            );
        }
        let is_group = match layer.kind {
            LayerKind::Group => true,
            _ => false,
        };
        if is_group {
            stack.push(layer.id);
        }
        i = i + 1;
    }
    Ok(())
}

/// Stage the layer list: parent checks, depths, the reader's
/// reconstruction, then each layer (tilemap layers cannot be written).
fn build_layers(layers: &Vec<Layer>) -> (r: Result<Vec<StagedLayer>, CodecError>)
    ensures
        match r {
            Ok(v) => layers_error(layers@.map_values(|l: Layer| l@)) is None && v@.len()
                == layers@.len() && forall|i: int|
                0 <= i < v@.len() ==> staged_layer_is(
                    #[trigger] v@[i],
                    layers@[i]@,
                    depth_of(layers@.map_values(|l: Layer| l@), i),
                ),
            Err(e) => layers_error(layers@.map_values(|l: Layer| l@)) == Some(e),
        },
{
    let ghost models = layers@.map_values(|l: Layer| l@);
    validate_parent_kinds(layers)?;
    let depths = compute_depths(layers)?;
    validate_layer_order(layers, &depths)?;
    let n = layers.len();
    let mut out: Vec<StagedLayer> = Vec::new();
    let mut i: usize = 0;
    while i < n
        invariant
            n == layers@.len(),
            n == depths@.len(),
            models == layers@.map_values(|l: Layer| l@),
            forall|k: int| 0 <= k < depths@.len() ==> #[trigger] depths@[k] == depth_of(models, k),
            i <= n,
            out@.len() == i,
            first_parent_kind_error(models, 0) is None,
            first_depth_error(models, 0) is None,
            first_order_error(models, seq![], 0) is None,
            first_tilemap_layer(models, 0) == first_tilemap_layer(models, i as int),
            forall|k: int| 0 <= k < i ==> staged_layer_is(#[trigger] out@[k], layers@[k]@, depth_of(models, k)),
        decreases n - i,
    {
        let layer = &layers[i];
        assert(models[i as int] == layer@);
        let group = match layer.kind {
            LayerKind::Image => false,
            LayerKind::Group => true,
            LayerKind::Tilemap { .. } => {
                assert(first_tilemap_layer(models, i as int));
                return Err(CodecError::UnsupportedLayerKind { kind: 2 });
            },
        };
        out.push(
            StagedLayer {
                visible: layer.visible,
                editable: layer.editable,
                group,
                child_level: depths[i],
                blend_mode: layer.blend_mode,
                opacity: layer.opacity,
                name: layer.name.clone(),
            },
        );
        i = i + 1;
    }
    Ok(out)
}

/// A tag as it goes to the file.
#[derive(Debug)]
pub struct StagedTag {
    pub from_frame: u16,
    pub to_frame: u16,
    pub direction: TagDirection,
    pub repeat: u16,
    /// The tag color's red, green and blue.
    pub color: (u8, u8, u8),
    pub name: String,
}

/// What a cel carries in the file.
#[derive(Debug)]
pub enum StagedCelContent {
    /// Raw RGBA pixels.
    Image { width: u16, height: u16, data: Vec<u8> },
    /// A link to the cel of the same layer at another frame.
    Linked { frame_position: u16 },
}

/// A cel as it goes to the file.
#[derive(Debug)]
pub struct StagedCel {
    /// Position of the cel's layer in the layer list.
    pub layer_index: u16,
    pub x: i16,
    pub y: i16,
    pub opacity: u8,
    pub content: StagedCelContent,
}

/// A frame as it goes to the file: its duration and its cels.
#[derive(Debug)]
pub struct StagedFrame {
    pub duration: u16,
    pub cels: Vec<StagedCel>,
}

/// Everything the `.aseprite` writer is handed.
#[derive(Debug)]
pub struct StagedFile {
    pub width: u16,
    pub height: u16,
    pub layers: Vec<StagedLayer>,
    /// `None` when the sprite's palette is empty.
    pub palette: Option<Vec<PaletteEntry>>,
    pub tags: Vec<StagedTag>,
    pub frames: Vec<StagedFrame>,
}

/// What staging reports for tag `t`: its frame range must fit `u16`.
pub open spec fn tag_error(t: TagModel) -> Option<CodecError> {
    if t.from.0 > 65535 {
        Some(CodecError::OutOfRange { what: "tag from-frame", value: t.from.0 as i64 })
    } else if t.to.0 > 65535 {
        Some(CodecError::OutOfRange { what: "tag to-frame", value: t.to.0 as i64 })
    } else {
        None
    }
}

/// The first tag error among the tags from index `i` on.
pub open spec fn first_tag_error(tags: Seq<TagModel>, i: int) -> Option<CodecError>
    decreases tags.len() - i,
{
    if i >= tags.len() {
        None
    } else {
        match tag_error(tags[i]) {
            Some(e) => Some(e),
            None => first_tag_error(tags, i + 1),
        }
    }
}

/// `s` is tag `t` as staged.
pub open spec fn staged_tag_is(s: StagedTag, t: TagModel) -> bool {
    &&& s.from_frame == t.from.0
    &&& s.to_frame == t.to.0
    &&& s.direction == t.direction
    &&& s.repeat == t.repeats
    &&& s.color == (t.color.r, t.color.g, t.color.b)
    &&& s.name@ == t.name
}

/// `v` fits a signed 16-bit slot.
pub open spec fn fits_i16(v: i32) -> bool {
    -32768 <= v <= 32767
}

/// What staging reports for an image cel `c` holding `b`.
pub open spec fn image_cel_error(c: CelModel, b: PixelBufferModel) -> Option<CodecError> {
    if b.color_mode != ColorMode::Rgba {
        Some(CodecError::CelImageNotRgba { layer: c.layer.0, frame: c.frame.0 })
    } else if !buffer_wf(b) {
        Some(CodecError::CelImageBufferMalformed { layer: c.layer.0, frame: c.frame.0 })
    } else if b.width > 65535 {
        Some(CodecError::OutOfRange { what: "cel width", value: b.width as i64 })
    } else if b.height > 65535 {
        Some(CodecError::OutOfRange { what: "cel height", value: b.height as i64 })
    } else {
        None
    }
}

/// What staging reports for a cel `c` linked to frame `f`: the target
/// must be an image cel of the same layer at an existing frame.
pub open spec fn linked_cel_error(
    cels: Map<CelKey, CelModel>,
    frame_count: nat,
    c: CelModel,
    f: crate::document::FrameIndex,
) -> Option<CodecError> {
    if f.0 >= frame_count {
        Some(CodecError::LinkedFrameNotFound { index: f.0 })
    } else if !cels.contains_key((c.layer, f)) {
        Some(
            CodecError::LinkedCelTargetMissing {
                layer: c.layer.0,
                from_frame: c.frame.0,
                target: f.0,
            },
        )
    } else if !(cels[(c.layer, f)].data is Image) {
        Some(
            CodecError::LinkedCelTargetNotImage {
                layer: c.layer.0,
                from_frame: c.frame.0,
                target: f.0,
            },
        )
    } else if f.0 > 65535 {
        Some(CodecError::OutOfRange { what: "linked frame index", value: f.0 as i64 })
    } else {
        None
    }
}

/// What staging reports for cel `c`.
pub open spec fn cel_error(
    layers: Seq<LayerModel>,
    frame_count: nat,
    cels: Map<CelKey, CelModel>,
    c: CelModel,
) -> Option<CodecError> {
    if c.frame.0 >= frame_count {
        Some(CodecError::CelFrameNotFound { index: c.frame.0 })
    } else if layer_index_of(layers, c.layer) is None {
        Some(CodecError::CelLayerNotFound { id: c.layer.0 })
    } else if !fits_i16(c.position.0) {
        Some(CodecError::OutOfRange { what: "cel x", value: c.position.0 as i64 })
    } else if !fits_i16(c.position.1) {
        Some(CodecError::OutOfRange { what: "cel y", value: c.position.1 as i64 })
    } else {
        match c.data {
            CelDataModel::Image(b) => image_cel_error(c, b),
            CelDataModel::Linked(f) => linked_cel_error(cels, frame_count, c, f),
            CelDataModel::Tilemap { .. } => Some(CodecError::UnsupportedCelKind { kind: 3 }),
        }
    }
}

/// The first cel error among the cels of `ord` from index `i` on.
pub open spec fn first_cel_error(
    layers: Seq<LayerModel>,
    frame_count: nat,
    cels: Map<CelKey, CelModel>,
    ord: Seq<(CelKey, CelModel)>,
    i: int,
) -> Option<CodecError>
    decreases ord.len() - i,
{
    if i >= ord.len() {
        None
    } else {
        match cel_error(layers, frame_count, cels, ord[i].1) {
            Some(e) => Some(e),
            None => first_cel_error(layers, frame_count, cels, ord, i + 1),
        }
    }
}

/// `s` is cel `c` as staged.
pub open spec fn staged_cel_is(s: StagedCel, layers: Seq<LayerModel>, c: CelModel) -> bool {
    &&& layer_index_of(layers, c.layer) == Some(s.layer_index as int)
    &&& s.x == c.position.0
    &&& s.y == c.position.1
    &&& s.opacity == c.opacity
    &&& match s.content {
        StagedCelContent::Image { width, height, data } => match c.data {
            CelDataModel::Image(b) => width == b.width && height == b.height && data@ == b.data,
            _ => false,
        },
        StagedCelContent::Linked { frame_position } => match c.data {
            CelDataModel::Linked(f) => frame_position == f.0,
            _ => false,
        },
    }
}

/// The cels of `ord` that sit at frame `f`, in order.
pub open spec fn cels_of_frame(ord: Seq<(CelKey, CelModel)>, f: int) -> Seq<CelModel>
    decreases ord.len(),
{
    if ord.len() == 0 {
        Seq::empty()
    } else if ord.last().1.frame.0 == f {
        cels_of_frame(ord.drop_last(), f).push(ord.last().1)
    } else {
        cels_of_frame(ord.drop_last(), f)
    }
}

/// The outcome of staging `s` with the cels `cels` (listed in key order by
/// `ord`): color mode, canvas size, layers, tags, layer count, then each
/// cel in key order.
pub open spec fn stage_error(
    s: SpriteModel,
    cels: Map<CelKey, CelModel>,
    ord: Seq<(CelKey, CelModel)>,
) -> Option<CodecError> {
    if s.color_mode != ColorMode::Rgba {
        Some(CodecError::UnsupportedColorMode)
    } else if s.width > 65535 {
        Some(CodecError::OutOfRange { what: "canvas width", value: s.width as i64 })
    } else if s.height > 65535 {
        Some(CodecError::OutOfRange { what: "canvas height", value: s.height as i64 })
    } else if layers_error(s.layers) is Some {
        layers_error(s.layers)
    } else if first_tag_error(s.tags, 0) is Some {
        first_tag_error(s.tags, 0)
    } else if s.layers.len() > 65536 {
        Some(CodecError::OutOfRange { what: "layer index", value: 65536 })
    } else {
        first_cel_error(s.layers, s.frames.len(), cels, ord, 0)
    }
}

/// `f` is what staging `s` with `ord` produces when no check fails.
pub open spec fn staged_file_is(f: StagedFile, s: SpriteModel, ord: Seq<(CelKey, CelModel)>) -> bool {
    &&& f.width == s.width
    &&& f.height == s.height
    &&& f.layers@.len() == s.layers.len()
    &&& forall|i: int|
        0 <= i < s.layers.len() ==> staged_layer_is(
            #[trigger] f.layers@[i],
            s.layers[i],
            depth_of(s.layers, i),
        )
    &&& match f.palette {
        None => s.palette.len() == 0,
        Some(p) => s.palette.len() > 0 && p@.map_values(|e: PaletteEntry| e@) == s.palette,
    }
    &&& f.tags@.len() == s.tags.len()
    &&& forall|i: int| 0 <= i < s.tags.len() ==> staged_tag_is(#[trigger] f.tags@[i], s.tags[i])
    &&& f.frames@.len() == s.frames.len()
    &&& forall|i: int|
        0 <= i < s.frames.len() ==> {
            &&& (#[trigger] f.frames@[i]).duration == s.frames[i].duration_ms
            &&& f.frames@[i].cels@.len() == cels_of_frame(ord, i).len()
            &&& forall|k: int|
                0 <= k < cels_of_frame(ord, i).len() ==> staged_cel_is(
                    #[trigger] f.frames@[i].cels@[k],
                    s.layers,
                    cels_of_frame(ord, i)[k],
                )
        }
}

/// The palette as the file holds it: nothing for an empty palette.
fn build_palette(palette: &Palette) -> (r: Option<Vec<PaletteEntry>>)
    ensures
        match r {
            None => palette@.len() == 0,
            Some(p) => palette@.len() > 0 && p@.map_values(|e: PaletteEntry| e@) == palette@,
        },
{
    if palette.is_empty() {
        return None;
    }
    Some(palette.clone().colors)
}

/// Stage one tag, or report its frame range out of `u16`.
fn map_tag(tag: &Tag) -> (r: Result<StagedTag, CodecError>)
    ensures
        match r {
            Ok(s) => tag_error(tag@) is None && staged_tag_is(s, tag@),
            Err(e) => tag_error(tag@) == Some(e),
        },
{
    if tag.from.0 > 65535 {
        return Err(CodecError::OutOfRange { what: "tag from-frame", value: tag.from.0 as i64 });
    }
    if tag.to.0 > 65535 {
        return Err(CodecError::OutOfRange { what: "tag to-frame", value: tag.to.0 as i64 });
    }
    Ok(
        StagedTag {
            from_frame: tag.from.0 as u16,
            to_frame: tag.to.0 as u16,
            direction: tag.direction,
            repeat: tag.repeats,
            color: (tag.color.r, tag.color.g, tag.color.b),
            name: tag.name.clone(),
        },
    )
}

/// Stage every tag, or report the first tag that does not fit.
fn build_tags(tags: &Vec<Tag>) -> (r: Result<Vec<StagedTag>, CodecError>)
    ensures
        match r {
            Ok(v) => first_tag_error(tags@.map_values(|t: Tag| t@), 0) is None && v@.len()
                == tags@.len() && forall|i: int|
                0 <= i < v@.len() ==> staged_tag_is(#[trigger] v@[i], tags@[i]@),
            Err(e) => first_tag_error(tags@.map_values(|t: Tag| t@), 0) == Some(e),
        },
{
    let ghost models = tags@.map_values(|t: Tag| t@);
    let n = tags.len();
    let mut out: Vec<StagedTag> = Vec::new();
    let mut i: usize = 0;
    while i < n
        invariant
            n == tags@.len(),
            models == tags@.map_values(|t: Tag| t@),
            i <= n,
            out@.len() == i,
            first_tag_error(models, 0) == first_tag_error(models, i as int),
            forall|k: int| 0 <= k < i ==> staged_tag_is(#[trigger] out@[k], tags@[k]@),
        decreases n - i,
    {
        assert(models[i as int] == tags@[i as int]@);
        let t = map_tag(&tags[i])?;
        out.push(t);
        i = i + 1;
    }
    Ok(out)
}

/// Check cel `cel` against the layers, the frame count and the other cels.
fn check_cel(layers: &Vec<Layer>, frame_count: usize, cels: &CelMap, cel: &Cel) -> (r: Result<
    (),
    CodecError,
>)
    requires
        cels.wf(),
    ensures
        match r {
            Ok(()) => cel_error(
                layers@.map_values(|l: Layer| l@),
                frame_count as nat,
                cels@,
                cel@,
            ) is None,
            Err(e) => cel_error(layers@.map_values(|l: Layer| l@), frame_count as nat, cels@, cel@)
                == Some(e),
        },
{
    if (cel.frame.0 as usize) >= frame_count {
        return Err(CodecError::CelFrameNotFound { index: cel.frame.0 });
    }
    if find_layer(layers, cel.layer).is_none() {
        return Err(CodecError::CelLayerNotFound { id: cel.layer.0 });
    }
    if cel.position.0 < -32768 || cel.position.0 > 32767 {
        return Err(CodecError::OutOfRange { what: "cel x", value: cel.position.0 as i64 });
    }
    if cel.position.1 < -32768 || cel.position.1 > 32767 {
        return Err(CodecError::OutOfRange { what: "cel y", value: cel.position.1 as i64 });
    }
    match &cel.data {
        CelData::Image(buf) => {
            match buf.color_mode {
                ColorMode::Rgba => {},
                _ => {
                    return Err(
                        CodecError::CelImageNotRgba { layer: cel.layer.0, frame: cel.frame.0 },
                    );
                },
            }
            if !buf.is_well_formed() {
                return Err(
                    CodecError::CelImageBufferMalformed { layer: cel.layer.0, frame: cel.frame.0 },
                );
            }
            if buf.width > 65535 {
                return Err(CodecError::OutOfRange { what: "cel width", value: buf.width as i64 });
            }
            if buf.height > 65535 {
                return Err(CodecError::OutOfRange { what: "cel height", value: buf.height as i64 });
            }
            Ok(())
        },
        CelData::Linked(frame) => {
            if (frame.0 as usize) >= frame_count {
                return Err(CodecError::LinkedFrameNotFound { index: frame.0 });
            }
            match cels.get(cel.layer, *frame) {
                None => {
                    return Err(
                        CodecError::LinkedCelTargetMissing {
                            layer: cel.layer.0,
                            from_frame: cel.frame.0,
                            target: frame.0,
                        },
                    );
                },
                Some(target) => {
                    let is_image = match target.data {
                        CelData::Image(_) => true,
                        _ => false,
                    };
                    if !is_image {
                        return Err(
                            CodecError::LinkedCelTargetNotImage {
                                layer: cel.layer.0,
                                from_frame: cel.frame.0,
                                target: frame.0,
                            },
                        );
                    }
                },
            }
            if frame.0 > 65535 {
                return Err(
                    CodecError::OutOfRange { what: "linked frame index", value: frame.0 as i64 },
                );
            }
            Ok(())
        },
        CelData::Tilemap { .. } => Err(CodecError::UnsupportedCelKind { kind: 3 }),
    }
}

/// Stage a cel that passed [`check_cel`].
fn build_cel_chunk(layers: &Vec<Layer>, cel: &Cel) -> (s: StagedCel)
    requires
        layers@.len() <= 65536,
        layer_index_of(layers@.map_values(|l: Layer| l@), cel.layer) is Some,
        fits_i16(cel.position.0),
        fits_i16(cel.position.1),
        match cel@.data {
            CelDataModel::Image(b) => b.width <= 65535 && b.height <= 65535,
            CelDataModel::Linked(f) => f.0 <= 65535,
            CelDataModel::Tilemap { .. } => false,
        },
    ensures
        staged_cel_is(s, layers@.map_values(|l: Layer| l@), cel@),
{
    let layer_index = match find_layer(layers, cel.layer) {
        Some(k) => k as u16,
        None => 0,
    };
    let content = match &cel.data {
        CelData::Image(buf) => {
            let data = buf.data.clone();
            proof {
                assert(data@ =~= buf.data@);
            }
            StagedCelContent::Image { width: buf.width as u16, height: buf.height as u16, data }
        },
        CelData::Linked(frame) => StagedCelContent::Linked { frame_position: frame.0 as u16 },
        CelData::Tilemap { .. } => StagedCelContent::Linked { frame_position: 0 },
    };
    StagedCel {
        layer_index,
        x: cel.position.0 as i16,
        y: cel.position.1 as i16,
        opacity: cel.opacity,
        content,
    }
}

/// Stage the frames with their cels, or report the first cel (in key
/// order) that cannot be written.
fn build_frames(sprite: &Sprite, cels: &CelMap) -> (r: Result<Vec<StagedFrame>, CodecError>)
    requires
        cels.wf(),
    ensures
        match r {
            Ok(v) => sprite@.layers.len() <= 65536 && first_cel_error(
                sprite@.layers,
                sprite@.frames.len(),
                cels@,
                cels.in_key_order(),
                0,
            ) is None && v@.len() == sprite@.frames.len() && forall|i: int|
                0 <= i < v@.len() ==> {
                    &&& (#[trigger] v@[i]).duration == sprite@.frames[i].duration_ms
                    &&& v@[i].cels@.len() == cels_of_frame(cels.in_key_order(), i).len()
                    &&& forall|k: int|
                        0 <= k < cels_of_frame(cels.in_key_order(), i).len() ==> staged_cel_is(
                            #[trigger] v@[i].cels@[k],
                            sprite@.layers,
                            cels_of_frame(cels.in_key_order(), i)[k],
                        )
                },
            Err(e) => if sprite@.layers.len() > 65536 {
                e == CodecError::OutOfRange { what: "layer index", value: 65536 }
            } else {
                first_cel_error(
                    sprite@.layers,
                    sprite@.frames.len(),
                    cels@,
                    cels.in_key_order(),
                    0,
                ) == Some(e)
            },
        },
{
    let ghost models = sprite@.layers;
    let ghost ord = cels.in_key_order();
    if sprite.layers.len() > 65536 {
        return Err(CodecError::OutOfRange { what: "layer index", value: 65536 });
    }
    let entries = cels.iter();
    let n = entries.len();
    let frame_count = sprite.frames.len();
    let mut j: usize = 0;
    while j < n
        invariant
            cels.wf(),
            n == entries@.len(),
            entries@.map_values(|e: (CelKey, Cel)| (e.0, e.1@)) == ord,
            ord == cels.in_key_order(),
            models == sprite.layers@.map_values(|l: Layer| l@),
            frame_count == sprite@.frames.len(),
            models.len() <= 65536,
            j <= n,
            first_cel_error(models, frame_count as nat, cels@, ord, 0) == first_cel_error(
                models,
                frame_count as nat,
                cels@,
                ord,
                j as int,
            ),
            forall|k: int|
                0 <= k < j ==> cel_error(models, frame_count as nat, cels@, (#[trigger] ord[k]).1)
                    is None,
        decreases n - j,
    {
        assert(ord[j as int].1 == entries@[j as int].1@);
        if let Err(e) = check_cel(&sprite.layers, frame_count, cels, &entries[j].1) {
            assert(first_cel_error(models, frame_count as nat, cels@, ord, j as int) == Some(e));
            return Err(e);
        }
        j = j + 1;
    }
    let mut frames: Vec<StagedFrame> = Vec::new();
    let mut f: usize = 0;
    while f < frame_count
        invariant
            n == entries@.len(),
            entries@.map_values(|e: (CelKey, Cel)| (e.0, e.1@)) == ord,
            ord == cels.in_key_order(),
            models == sprite.layers@.map_values(|l: Layer| l@),
            models.len() <= 65536,
            frame_count == sprite@.frames.len(),
            forall|k: int|
                0 <= k < n ==> cel_error(models, frame_count as nat, cels@, (#[trigger] ord[k]).1)
                    is None,
            f <= frame_count,
            frames@.len() == f,
            forall|i: int|
                0 <= i < f ==> {
                    &&& (#[trigger] frames@[i]).duration == sprite@.frames[i].duration_ms
                    &&& frames@[i].cels@.len() == cels_of_frame(ord, i).len()
                    &&& forall|k: int|
                        0 <= k < cels_of_frame(ord, i).len() ==> staged_cel_is(
                            #[trigger] frames@[i].cels@[k],
                            models,
                            cels_of_frame(ord, i)[k],
                        )
                },
        decreases frame_count - f,
    {
        let mut list: Vec<StagedCel> = Vec::new();
        let mut j: usize = 0;
        proof {
            assert(ord.take(0).len() == 0);
        }
        while j < n
            invariant
                n == entries@.len(),
                entries@.map_values(|e: (CelKey, Cel)| (e.0, e.1@)) == ord,
                models == sprite.layers@.map_values(|l: Layer| l@),
                models.len() <= 65536,
                frame_count == sprite@.frames.len(),
                f < frame_count,
                forall|k: int|
                    0 <= k < n ==> cel_error(
                        models,
                        frame_count as nat,
                        cels@,
                        (#[trigger] ord[k]).1,
                    ) is None,
                j <= n,
                list@.len() == cels_of_frame(ord.take(j as int), f as int).len(),
                forall|k: int|
                    0 <= k < list@.len() ==> staged_cel_is(
                        #[trigger] list@[k],
                        models,
                        cels_of_frame(ord.take(j as int), f as int)[k],
                    ),
            decreases n - j,
        {
            let cel = &entries[j].1;
            proof {
                assert(ord[j as int].1 == cel@);
                assert(ord.take(j + 1).drop_last() =~= ord.take(j as int));
                assert(ord.take(j + 1).last() == ord[j as int]);
                assert(cel_error(models, frame_count as nat, cels@, ord[j as int].1) is None);
            }
            if (cel.frame.0 as usize) == f {
                let staged = build_cel_chunk(&sprite.layers, cel);
                list.push(staged);
            }
            j = j + 1;
        }
        proof {
            assert(ord.take(n as int) =~= ord);
        }
        frames.push(StagedFrame { duration: sprite.frames[f].duration_ms, cels: list });
        f = f + 1;
    }
    Ok(frames)
}

/// Stage a sprite and its cels for the `.aseprite` writer, or report the
/// first reason it cannot be written without loss.
pub fn stage_aseprite(sprite: &Sprite, cels: &CelMap) -> (r: Result<StagedFile, CodecError>)
    requires
        cels.wf(),
    ensures
        match r {
            Ok(f) => stage_error(sprite@, cels@, cels.in_key_order()) is None && staged_file_is(
                f,
                sprite@,
                cels.in_key_order(),
            ),
            Err(e) => stage_error(sprite@, cels@, cels.in_key_order()) == Some(e),
        },
{
    match sprite.color_mode {
        ColorMode::Rgba => {},
        _ => {
            return Err(CodecError::UnsupportedColorMode);
        },
    }
    if sprite.width > 65535 {
        return Err(CodecError::OutOfRange { what: "canvas width", value: sprite.width as i64 });
    }
    if sprite.height > 65535 {
        return Err(CodecError::OutOfRange { what: "canvas height", value: sprite.height as i64 });
    }
    let layers = build_layers(&sprite.layers)?;
    let palette = build_palette(&sprite.palette);
    let tags = build_tags(&sprite.tags)?;
    let frames = build_frames(sprite, cels)?;
    Ok(
        StagedFile {
            width: sprite.width as u16,
            height: sprite.height as u16,
            layers,
            palette,
            tags,
            frames,
        },
    )
}

} // verus!
