//! `MoveLayer` command — reorder a layer up or down among its siblings.
//!
//! `Sprite.layers` is a flat Vec in z-order (index `0` = bottom). Group
//! nesting is encoded by `Layer::parent` plus the invariant that a group's
//! subtree is contiguous immediately after the group header. This command
//! swaps a layer's whole subtree with the adjacent sibling's subtree, so
//! moving a group carries its children and a layer never crosses into or
//! out of a group.
use vstd::prelude::*;

use super::error::CommandError;
use super::layer_tree::{lemma_subtree_end, subtree_end, subtree_end_of};
use super::{CelsModel, Command};
use crate::document::layer::LayerModel;
use crate::document::sprite::{first_layer_at, layer_pos, lemma_layer_pos, no_layer, SpriteModel};
use crate::document::{CelMap, Layer, LayerId, Sprite};

verus! {

/// Direction to move a layer through the z-order stack.
#[derive(Debug, Clone, Copy, PartialEq, Eq, Structural)]
pub enum MoveDirection {
    /// Toward the top of the stack (higher index).
    Up,
    /// Toward the bottom of the stack (lower index).
    Down,
}

/// Reorder `layer` one sibling position in `direction`, moving its whole
/// subtree as a unit. Fails with [`CommandError::LayerAtEdge`] when there is
/// no sibling in that direction, and [`CommandError::UnknownLayer`] when the
/// id is absent — neither touches the document.
#[derive(Debug, Clone)]
pub struct MoveLayer {
    pub layer: LayerId,
    pub direction: MoveDirection,
    /// `Some((start, amount, end))` after a successful apply: `apply`
    /// rotated `layers[start..end]` left by `amount`, so `revert` rotates
    /// the same range right by `amount`.
    pub applied: Option<(usize, usize, usize)>,
}

/// Walking down from index `k` toward the previous sibling of a layer whose
/// parent is `parent`: the index of that sibling's subtree root, or `None`
/// when the walk reaches the parent group, the top level, a missing parent
/// or runs out of `fuel` steps (the layer is then at the edge).
pub open spec fn prev_sibling(layers: Seq<LayerModel>, parent: Option<LayerId>, k: int, fuel: nat) -> Option<int>
    decreases fuel,
{
    if fuel == 0 || k < 0 || k >= layers.len() {
        None
    } else if Some(layers[k].id) == parent {
        None
    } else if layers[k].parent == parent {
        Some(k)
    } else {
        match layers[k].parent {
            Some(pid) => if no_layer(layers, pid) {
                None
            } else {
                prev_sibling(layers, parent, layer_pos(layers, pid), (fuel - 1) as nat)
            },
            None => None,
        }
    }
}

/// What moving layer `id` in direction `dir` does: the range
/// `[start, end)` it rotates left by `amount`, as `(start, amount, end)`,
/// or why it is refused.
pub open spec fn move_plan(layers: Seq<LayerModel>, id: LayerId, dir: MoveDirection) -> Result<
    (int, int, int),
    CommandError,
> {
    if no_layer(layers, id) {
        Err(CommandError::UnknownLayer(id.0))
    } else {
        let i = layer_pos(layers, id);
        let parent = layers[i].parent;
        let end_i = subtree_end(layers, id, i + 1);
        match dir {
            MoveDirection::Up => if end_i >= layers.len() || layers[end_i].parent != parent {
                Err(CommandError::LayerAtEdge(id.0))
            } else {
                let sib_end = subtree_end(layers, layers[end_i].id, end_i + 1);
                Ok((i, end_i - i, sib_end))
            },
            MoveDirection::Down => if i == 0 {
                Err(CommandError::LayerAtEdge(id.0))
            } else {
                match prev_sibling(layers, parent, i - 1, layers.len()) {
                    Some(prev) => if prev < i {
                        Ok((prev, i - prev, end_i))
                    } else {
                        Err(CommandError::LayerAtEdge(id.0))
                    },
                    None => Err(CommandError::LayerAtEdge(id.0)),
                }
            },
        }
    }
}

/// `s` with the range `[start, end)` rotated left by `amount`.
pub open spec fn rotated_left<T>(s: Seq<T>, start: int, amount: int, end: int) -> Seq<T> {
    s.subrange(0, start) + s.subrange(start + amount, end) + s.subrange(start, start + amount)
        + s.subrange(end, s.len() as int)
}

/// `s` with the range `[start, end)` rotated right by `amount`.
pub open spec fn rotated_right<T>(s: Seq<T>, start: int, amount: int, end: int) -> Seq<T> {
    s.subrange(0, start) + s.subrange(end - amount, end) + s.subrange(start, end - amount)
        + s.subrange(end, s.len() as int)
}

/// Rotating a range right undoes rotating it left by the same amount.
pub proof fn lemma_rotate_round_trip<T>(s: Seq<T>, start: int, amount: int, end: int)
    requires
        0 <= start,
        0 <= amount <= end - start,
        end <= s.len(),
    ensures
        rotated_right(rotated_left(s, start, amount, end), start, amount, end) == s,
        rotated_left(s, start, amount, end).len() == s.len(),
{
    let r = rotated_left(s, start, amount, end);
    assert(r.subrange(end - amount, end) =~= s.subrange(start, start + amount));
    assert(r.subrange(start, end - amount) =~= s.subrange(start + amount, end));
    assert(r.subrange(0, start) =~= s.subrange(0, start));
    assert(r.subrange(end, r.len() as int) =~= s.subrange(end, s.len() as int));
    assert(rotated_right(r, start, amount, end) =~= s);
}

/// Rotate `layers[start..end]` left by `amount`.
fn rotate_left(layers: &mut Vec<Layer>, start: usize, amount: usize, end: usize)
    requires
        start + amount <= end <= old(layers)@.len(),
    ensures
        final(layers)@ == rotated_left(old(layers)@, start as int, amount as int, end as int),
{
    let ghost s0 = layers@;
    let mut t: usize = 0;
    proof {
        assert(rotated_left(s0, start as int, 0, end as int) =~= s0);
    }
    while t < amount
        invariant
            t <= amount,
            start + amount <= end <= s0.len(),
            layers@ == rotated_left(s0, start as int, t as int, end as int),
        decreases amount - t,
    {
        let ghost before = layers@;
        let l = layers.remove(start);
        layers.insert(end - 1, l);
        proof {
            assert(layers@ =~= rotated_left(s0, start as int, t + 1, end as int));
        }
        t = t + 1;
    }
}

/// Rotate `layers[start..end]` right by `amount`.
fn rotate_right(layers: &mut Vec<Layer>, start: usize, amount: usize, end: usize)
    requires
        start + amount <= end <= old(layers)@.len(),
    ensures
        final(layers)@ == rotated_right(old(layers)@, start as int, amount as int, end as int),
{
    let ghost s0 = layers@;
    let mut t: usize = 0;
    proof {
        assert(rotated_right(s0, start as int, 0, end as int) =~= s0);
    }
    while t < amount
        invariant
            t <= amount,
            start + amount <= end <= s0.len(),
            layers@ == rotated_right(s0, start as int, t as int, end as int),
        decreases amount - t,
    {
        let l = layers.remove(end - 1);
        layers.insert(start, l);
        proof {
            assert(layers@ =~= rotated_right(s0, start as int, t + 1, end as int));
        }
        t = t + 1;
    }
}

/// Whether two optional parents are the same.
fn same_parent(a: Option<LayerId>, b: Option<LayerId>) -> (r: bool)
    ensures
        r == (a == b),
{
    match (a, b) {
        (Some(x), Some(y)) => x.0 == y.0,
        (None, None) => true,
        _ => false,
    }
}

/// Walk down from index `start` to the previous sibling of a layer whose
/// parent is `parent` (see [`prev_sibling`]).
fn find_prev_sibling(doc: &Sprite, parent: Option<LayerId>, start: usize) -> (r: Option<usize>)
    requires
        start < doc@.layers.len(),
    ensures
        match r {
            Some(p) => p < doc@.layers.len() && prev_sibling(doc@.layers, parent, start as int, doc@.layers.len()) == Some(p as int),
            None => prev_sibling(doc@.layers, parent, start as int, doc@.layers.len()) is None,
        },
{
    let ghost ls = doc@.layers;
    let n = doc.layers.len();
    let mut k = start;
    let mut fuel = n;
    while fuel > 0
        invariant
            ls == doc@.layers,
            n == ls.len(),
            doc.layers@.len() == n,
            k < n,
            fuel <= n,
            prev_sibling(ls, parent, start as int, ls.len()) == prev_sibling(ls, parent, k as int, fuel as nat),
        decreases fuel,
    {
        let here = doc.layers[k].id;
        let is_parent = match parent {
            Some(p) => here.0 == p.0,
            None => false,
        };
        if is_parent {
            return None;
        }
        if same_parent(doc.layers[k].parent, parent) {
            return Some(k);
        }
        match doc.layers[k].parent {
            Some(pid) => match doc.layer_index(pid) {
                Some(k2) => {
                    proof {
                        lemma_layer_pos(ls, pid, k2 as int);
                    }
                    k = k2;
                },
                None => {
                    return None;
                },
            },
            None => {
                return None;
            },
        }
        fuel = fuel - 1;
    }
    None
}

/// The range `[start, end)` that moving `id` in direction `dir` rotates
/// left by `amount`, as `(start, amount, end)`, or why the move is refused.
fn plan_move(doc: &Sprite, id: LayerId, dir: MoveDirection) -> (r: Result<(usize, usize, usize), CommandError>)
    ensures
        match r {
            Ok(p) => {
                &&& move_plan(doc@.layers, id, dir) == Ok::<(int, int, int), CommandError>((p.0 as int, p.1 as int, p.2 as int))
                &&& p.0 + p.1 <= p.2 <= doc@.layers.len()
                &&& p.0 < p.2
            },
            Err(e) => move_plan(doc@.layers, id, dir) == Err::<(int, int, int), CommandError>(e),
        },
{
    let ghost ls = doc@.layers;
    let n = doc.layers.len();
    let i = match doc.layer_index(id) {
        Some(i) => i,
        None => {
            return Err(CommandError::UnknownLayer(id.0));
        },
    };
    proof {
        lemma_layer_pos(ls, id, i as int);
        lemma_subtree_end(ls, id, i + 1);
    }
    let parent = doc.layers[i].parent;
    let end_i = subtree_end_of(doc, i, id);
    match dir {
        MoveDirection::Up => {
            if end_i >= n || !same_parent(doc.layers[end_i].parent, parent) {
                return Err(CommandError::LayerAtEdge(id.0));
            }
            let sib_end = subtree_end_of(doc, end_i, doc.layers[end_i].id);
            Ok((i, end_i - i, sib_end))
        },
        MoveDirection::Down => {
            if i == 0 {
                return Err(CommandError::LayerAtEdge(id.0));
            }
            let prev = match find_prev_sibling(doc, parent, i - 1) {
                Some(p) => p,
                None => {
                    return Err(CommandError::LayerAtEdge(id.0));
                },
            };
            if prev >= i {
                return Err(CommandError::LayerAtEdge(id.0));
            }
            Ok((prev, i - prev, end_i))
        },
    }
}

impl MoveLayer {
    /// Move `layer` one sibling position in `direction`.
    pub fn new(layer: LayerId, direction: MoveDirection) -> (c: Self)
        ensures
            c == (MoveLayer { layer, direction, applied: None }),
    {
        MoveLayer { layer, direction, applied: None }
    }
}

impl Command for MoveLayer {
    fn fits_doc(&self, doc: &Sprite) -> (b: bool) {
        true
    }

    open spec fn ready(&self) -> bool {
        true
    }

    fn is_ready(&self) -> (b: bool) {
        true
    }

    open spec fn applied_on(&self, doc: SpriteModel, cels: CelsModel) -> bool {
        self.applied is Some
    }

    open spec fn reverted(&self, doc: SpriteModel, cels: CelsModel) -> (SpriteModel, CelsModel) {
        match self.applied {
            Some(a) => if a.2 <= doc.layers.len() && a.0 < a.2 && a.1 <= a.2 - a.0 {
                (
                    SpriteModel {
                        layers: rotated_right(doc.layers, a.0 as int, a.1 as int, a.2 as int),
                        ..doc
                    },
                    cels,
                )
            } else {
                (doc, cels)
            },
            None => (doc, cels),
        }
    }

    open spec fn fails_with(&self, doc: SpriteModel, cels: CelsModel, e: CommandError) -> bool {
        move_plan(doc.layers, self.layer, self.direction) == Err::<(int, int, int), CommandError>(e)
    }

    open spec fn outcome(&self, doc: SpriteModel, cels: CelsModel) -> (SpriteModel, CelsModel) {
        {
            let plan = move_plan(doc.layers, self.layer, self.direction)->Ok_0;
            (SpriteModel { layers: rotated_left(doc.layers, plan.0, plan.1, plan.2), ..doc }, cels)
        }
    }

    open spec fn reverts_to(&self, back: Self, doc: SpriteModel, cels: CelsModel) -> bool {
        back.layer == self.layer && back.direction == self.direction
    }

    open spec fn succeeds_on(&self, doc: SpriteModel, cels: CelsModel) -> bool {
        move_plan(doc.layers, self.layer, self.direction) is Ok
    }

    fn apply(&mut self, doc: &mut Sprite, cels: &mut CelMap) -> (r: Result<(), CommandError>)
        ensures
            r is Err ==> *final(self) == *old(self),
            final(cels)@ == old(cels)@,
            match r {
                Ok(_) => {
                    let plan = move_plan(old(doc)@.layers, old(self).layer, old(self).direction);
                    &&& plan is Ok
                    &&& final(doc)@ == SpriteModel {
                        layers: rotated_left(old(doc)@.layers, plan->Ok_0.0, plan->Ok_0.1, plan->Ok_0.2),
                        ..old(doc)@
                    }
                },
                Err(e) => move_plan(old(doc)@.layers, old(self).layer, old(self).direction) == Err::<
                    (int, int, int),
                    CommandError,
                >(e),
            },
    {
        let ghost d0 = doc@;
        let ghost ls = d0.layers;
        let (start, amount, end) = plan_move(doc, self.layer, self.direction)?;
        rotate_left(&mut doc.layers, start, amount, end);
        self.applied = Some((start, amount, end));
        proof {
            assert(doc@.layers =~= rotated_left(ls, start as int, amount as int, end as int));
            assert(doc@.tilesets == d0.tilesets);
            lemma_rotate_round_trip(ls, start as int, amount as int, end as int);
        }
        Ok(())
    }

    fn revert(&mut self, doc: &mut Sprite, _cels: &mut CelMap)
        ensures
            forall|d: SpriteModel, c: CelsModel| #[trigger] final(self).reverted(d, c) == (d, c),
    {
        let (start, amount, end) = match self.applied.take() {
            Some(a) => a,
            None => {
                return ;
            },
        };
        let ghost d0 = doc@;
        if end <= doc.layers.len() && start < end && amount <= end - start {
            rotate_right(&mut doc.layers, start, amount, end);
            proof {
                assert(doc@.layers =~= rotated_right(d0.layers, start as int, amount as int, end as int));
            }
        }
        proof {
            assert(doc@.tilesets == d0.tilesets);
        }
    }
}

} // verus!
