//! The layer tree as the flat layer list encodes it: each layer names its
//! parent group, and a group's subtree is the unbroken run of its
//! descendants right after it.
use vstd::prelude::*;

use crate::document::layer::LayerModel;
use crate::document::sprite::SpriteModel;
use crate::document::{LayerId, Sprite};

verus! {

/// The parent recorded for `id` by the last layer carrying it, or `None`
/// when no layer carries it.
pub open spec fn parent_entry(layers: Seq<LayerModel>, id: LayerId) -> Option<Option<LayerId>>
    decreases layers.len(),
{
    if layers.len() == 0 {
        None
    } else if layers.last().id == id {
        Some(layers.last().parent)
    } else {
        parent_entry(layers.drop_last(), id)
    }
}

/// `id`'s parent chain reaches `ancestor` within `fuel` steps.
pub open spec fn descends(layers: Seq<LayerModel>, id: LayerId, ancestor: LayerId, fuel: nat) -> bool
    decreases fuel,
{
    if fuel == 0 {
        false
    } else {
        match parent_entry(layers, id) {
            Some(Some(p)) => p == ancestor || descends(layers, p, ancestor, (fuel - 1) as nat),
            _ => false,
        }
    }
}

/// `id` is a descendant of `ancestor`: its parent chain reaches it. An
/// acyclic chain visits each layer at most once, so as many steps as there
/// are layers decide it.
pub open spec fn is_descendant_of(layers: Seq<LayerModel>, id: LayerId, ancestor: LayerId) -> bool {
    descends(layers, id, ancestor, layers.len())
}

/// `layers` without the entries that carry `x`.
pub open spec fn without_id(layers: Seq<LayerModel>, x: LayerId) -> Seq<LayerModel>
    decreases layers.len(),
{
    if layers.len() == 0 {
        layers
    } else if layers.last().id == x {
        without_id(layers.drop_last(), x)
    } else {
        without_id(layers.drop_last(), x).push(layers.last())
    }
}

/// Dropping the entries of `x` leaves every other layer's parent as it was,
/// forgets `x`, and shortens the list when `x` was in it.
proof fn lemma_without_id(layers: Seq<LayerModel>, x: LayerId)
    ensures
        without_id(layers, x).len() <= layers.len(),
        parent_entry(layers, x) is Some ==> without_id(layers, x).len() < layers.len(),
        parent_entry(without_id(layers, x), x) is None,
        forall|y: LayerId| y != x ==> #[trigger] parent_entry(without_id(layers, x), y) == parent_entry(layers, y),
    decreases layers.len(),
{
    if layers.len() > 0 {
        let init = layers.drop_last();
        lemma_without_id(init, x);
        if layers.last().id != x {
            let w = without_id(init, x).push(layers.last());
            assert(w.drop_last() =~= without_id(init, x));
            assert(w.last() == layers.last());
        }
        assert forall|y: LayerId| y != x implies #[trigger] parent_entry(without_id(layers, x), y)
            == parent_entry(layers, y) by {
            assert(parent_entry(without_id(init, x), y) == parent_entry(init, y));
        }
    }
}

/// More steps never lose an ancestor.
proof fn lemma_descends_more_fuel(layers: Seq<LayerModel>, y: LayerId, anc: LayerId, n: nat, m: nat)
    requires
        n <= m,
        descends(layers, y, anc, n),
    ensures
        descends(layers, y, anc, m),
    decreases n,
{
    if let Some(Some(p)) = parent_entry(layers, y) {
        if p != anc {
            lemma_descends_more_fuel(layers, p, anc, (n - 1) as nat, (m - 1) as nat);
        }
    }
}

/// A chain in the list without `x` is a chain in the whole list.
proof fn lemma_descends_lift(layers: Seq<LayerModel>, x: LayerId, y: LayerId, anc: LayerId, n: nat)
    requires
        descends(without_id(layers, x), y, anc, n),
    ensures
        descends(layers, y, anc, n),
    decreases n,
{
    lemma_without_id(layers, x);
    assert(y != x);
    assert(parent_entry(without_id(layers, x), y) == parent_entry(layers, y));
    if let Some(Some(p)) = parent_entry(layers, y) {
        if p != anc {
            lemma_descends_lift(layers, x, p, anc, (n - 1) as nat);
        }
    }
}

/// A chain from `y` (not `x`) to `anc` either avoids `x`, or passes through
/// `x`, which then reaches `anc` in fewer steps.
proof fn lemma_descends_split(layers: Seq<LayerModel>, x: LayerId, y: LayerId, anc: LayerId, m: nat) -> (r:
    Option<nat>)
    requires
        y != x,
        descends(layers, y, anc, m),
    ensures
        r is None ==> descends(without_id(layers, x), y, anc, m),
        r matches Some(k) ==> k < m && descends(layers, x, anc, k),
    decreases m,
{
    lemma_without_id(layers, x);
    assert(parent_entry(without_id(layers, x), y) == parent_entry(layers, y));
    let p = parent_entry(layers, y)->0->0;
    if p == anc {
        None
    } else if p == x {
        Some((m - 1) as nat)
    } else {
        let r = lemma_descends_split(layers, x, p, anc, (m - 1) as nat);
        r
    }
}

/// An ancestor reached at all is reached within as many steps as there are
/// layers: a longer chain repeats a layer and can be cut short.
proof fn lemma_descends_within_len(layers: Seq<LayerModel>, x: LayerId, anc: LayerId, n: nat)
    requires
        descends(layers, x, anc, n),
    ensures
        descends(layers, x, anc, layers.len()),
    decreases layers.len(), n,
{
    lemma_without_id(layers, x);
    let p = parent_entry(layers, x)->0->0;
    if p == anc {
    } else if p == x {
        lemma_descends_within_len(layers, x, anc, (n - 1) as nat);
    } else {
        match lemma_descends_split(layers, x, p, anc, (n - 1) as nat) {
            None => {
                let w = without_id(layers, x);
                lemma_descends_within_len(w, p, anc, (n - 1) as nat);
                lemma_descends_lift(layers, x, p, anc, w.len());
                lemma_descends_more_fuel(layers, p, anc, w.len(), (layers.len() - 1) as nat);
            },
            Some(k) => {
                lemma_descends_within_len(layers, x, anc, k);
            },
        }
    }
}

/// The descendants of a layer are exactly the layers below it in the
/// parent chain: `id` descends from `anc` when its parent is `anc`, or its
/// parent descends from `anc`, and only then. So a removed or moved group
/// takes every transitive descendant along.
pub proof fn lemma_descendant_by_parent_chain(layers: Seq<LayerModel>, id: LayerId, anc: LayerId)
    ensures
        is_descendant_of(layers, id, anc) <==> (parent_entry(layers, id) matches Some(Some(p)) && (p
            == anc || is_descendant_of(layers, p, anc))),
{
    lemma_without_id(layers, id);
    if let Some(Some(p)) = parent_entry(layers, id) {
        if is_descendant_of(layers, id, anc) && p != anc {
            lemma_descends_more_fuel(layers, p, anc, (layers.len() - 1) as nat, layers.len());
        }
        if p != anc && is_descendant_of(layers, p, anc) {
            assert(descends(layers, id, anc, layers.len() + 1));
            lemma_descends_within_len(layers, id, anc, layers.len() + 1);
        }
    }
}

/// Exclusive end of the run of descendants of `root` that starts at `j`:
/// the first index from `j` on whose layer is not a descendant of `root`.
pub open spec fn subtree_end(layers: Seq<LayerModel>, root: LayerId, j: int) -> int
    decreases layers.len() - j,
{
    if j < 0 || j >= layers.len() || !is_descendant_of(layers, layers[j].id, root) {
        j
    } else {
        subtree_end(layers, root, j + 1)
    }
}

/// Every index of `[j, subtree_end)` holds a descendant of `root`, and the
/// end lies in `[j, len]`.
pub proof fn lemma_subtree_end(layers: Seq<LayerModel>, root: LayerId, j: int)
    requires
        0 <= j <= layers.len(),
    ensures
        j <= subtree_end(layers, root, j) <= layers.len(),
        forall|k: int|
            j <= k < subtree_end(layers, root, j) ==> is_descendant_of(
                layers,
                (#[trigger] layers[k]).id,
                root,
            ),
    decreases layers.len() - j,
{
    if j < layers.len() && is_descendant_of(layers, layers[j].id, root) {
        lemma_subtree_end(layers, root, j + 1);
    }
}

/// The parent recorded for `id` by the last layer carrying it.
pub fn parent_lookup(doc: &Sprite, id: LayerId) -> (r: Option<Option<LayerId>>)
    ensures
        r == parent_entry(doc@.layers, id),
{
    let ghost ls = doc@.layers;
    let mut i = doc.layers.len();
    proof {
        assert(ls.take(i as int) =~= ls);
    }
    while i > 0
        invariant
            i <= ls.len(),
            ls == doc@.layers,
            parent_entry(ls, id) == parent_entry(ls.take(i as int), id),
        decreases i,
    {
        assert(ls.take(i as int).last() == ls[i - 1]);
        assert(ls.take(i as int).drop_last() =~= ls.take(i - 1));
        if doc.layers[i - 1].id == id {
            return Some(doc.layers[i - 1].parent);
        }
        i = i - 1;
    }
    None
}

/// `id` is a descendant of `ancestor` in the document's layer tree.
pub fn is_descendant(doc: &Sprite, id: LayerId, ancestor: LayerId) -> (b: bool)
    ensures
        b == is_descendant_of(doc@.layers, id, ancestor),
{
    let ghost ls = doc@.layers;
    let mut cur = id;
    let mut fuel = doc.layers.len();
    while fuel > 0
        invariant
            ls == doc@.layers,
            fuel <= ls.len(),
            is_descendant_of(ls, id, ancestor) == descends(ls, cur, ancestor, fuel as nat),
        decreases fuel,
    {
        match parent_lookup(doc, cur) {
            Some(Some(p)) => {
                if p == ancestor {
                    return true;
                }
                cur = p;
            },
            _ => {
                return false;
            },
        }
        fuel = fuel - 1;
    }
    false
}

/// Exclusive end of the subtree rooted at `layers[i]`, which carries `root`:
/// the first index after `i` whose layer is not a descendant of `root`.
pub fn subtree_end_of(doc: &Sprite, i: usize, root: LayerId) -> (e: usize)
    requires
        i < doc@.layers.len(),
    ensures
        e == subtree_end(doc@.layers, root, i + 1),
        i < e <= doc@.layers.len(),
{
    let ghost ls = doc@.layers;
    let _n = doc.layers.len();
    let mut j = i + 1;
    while j < doc.layers.len() && is_descendant(doc, doc.layers[j].id, root)
        invariant
            ls == doc@.layers,
            i < j <= ls.len(),
            subtree_end(ls, root, i + 1) == subtree_end(ls, root, j as int),
        decreases ls.len() - j,
    {
        j = j + 1;
    }
    proof {
        lemma_subtree_end(ls, root, i + 1);
    }
    j
}

} // verus!
