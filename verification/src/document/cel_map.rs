//! Per-`(layer, frame)` cel storage, kept sorted by key.
use vstd::prelude::*;

use super::cel::{Cel, CelModel};
use super::frame::FrameIndex;
use super::layer::LayerId;

verus! {

/// Composite key identifying a cel.
pub type CelKey = (LayerId, FrameIndex);

/// Key order: by layer id, then by frame index.
pub open spec fn key_lt(a: CelKey, b: CelKey) -> bool {
    a.0.0 < b.0.0 || (a.0.0 == b.0.0 && a.1.0 < b.1.0)
}

/// Owning storage for cels, keyed by `(layer, frame)` and kept in key order.
#[derive(Debug, PartialEq, Eq)]
pub struct CelMap {
    entries: Vec<(CelKey, Cel)>,
}

/// `true` when the keys of `s` strictly increase.
pub open spec fn sorted_keys(s: Seq<(CelKey, Cel)>) -> bool {
    forall|i: int, j: int| 0 <= i < j < s.len() ==> key_lt(#[trigger] s[i].0, #[trigger] s[j].0)
}

/// `true` when some entry of `s` has key `k`.
pub open spec fn has_key(s: Seq<(CelKey, Cel)>, k: CelKey) -> bool {
    exists|i: int| 0 <= i < s.len() && #[trigger] s[i].0 == k
}

/// Index of the entry with key `k` (meaningful when [`has_key`] holds).
pub open spec fn index_of_key(s: Seq<(CelKey, Cel)>, k: CelKey) -> int {
    choose|i: int| 0 <= i < s.len() && #[trigger] s[i].0 == k
}

/// The map from key to cel model described by a key-sorted entry list.
pub open spec fn entries_map(s: Seq<(CelKey, Cel)>) -> Map<CelKey, CelModel> {
    Map::new(|k: CelKey| has_key(s, k), |k: CelKey| s[index_of_key(s, k)].1@)
}

/// In a sorted entry list, entry `i` is what the map holds for its key.
pub proof fn lemma_entry_in_map(s: Seq<(CelKey, Cel)>, i: int)
    requires
        sorted_keys(s),
        0 <= i < s.len(),
    ensures
        entries_map(s).contains_key(s[i].0),
        entries_map(s)[s[i].0] == s[i].1@,
        index_of_key(s, s[i].0) == i,
{
    assert(has_key(s, s[i].0));
    let j = index_of_key(s, s[i].0);
    if j < i {
        assert(key_lt(s[j].0, s[i].0));
    } else if j > i {
        assert(key_lt(s[i].0, s[j].0));
    }
}

/// Every key of the map comes from some entry.
pub proof fn lemma_map_key_from_entry(s: Seq<(CelKey, Cel)>, k: CelKey)
    requires
        entries_map(s).contains_key(k),
    ensures
        0 <= index_of_key(s, k) < s.len(),
        s[index_of_key(s, k)].0 == k,
{
}

/// Replacing the cel of entry `i` (keeping its key) replaces the mapped
/// value of that key and keeps the order.
pub proof fn lemma_update_entry(s: Seq<(CelKey, Cel)>, i: int, v: Cel)
    requires
        sorted_keys(s),
        0 <= i < s.len(),
    ensures
        sorted_keys(s.update(i, (s[i].0, v))),
        entries_map(s.update(i, (s[i].0, v))) == entries_map(s).insert(s[i].0, v@),
{
    let k = s[i].0;
    let s1 = s.update(i, (k, v));
    assert(sorted_keys(s1)) by {
        assert forall|a: int, b: int| 0 <= a < b < s1.len() implies key_lt(
            #[trigger] s1[a].0,
            #[trigger] s1[b].0,
        ) by {
            assert(s1[a].0 == s[a].0);
            assert(s1[b].0 == s[b].0);
        }
    }
    lemma_entry_in_map(s, i);
    assert(entries_map(s1) =~= entries_map(s).insert(k, v@)) by {
        assert forall|kk: CelKey| #[trigger]
            entries_map(s1).contains_key(kk) implies entries_map(s).insert(k, v@).contains_key(kk)
            && entries_map(s1)[kk] == entries_map(s).insert(k, v@)[kk] by {
            let j = index_of_key(s1, kk);
            lemma_entry_in_map(s1, j);
            if j != i {
                lemma_entry_in_map(s, j);
            }
        }
        assert forall|kk: CelKey| #[trigger]
            entries_map(s).insert(k, v@).contains_key(kk) implies entries_map(s1).contains_key(kk) by {
            if kk == k {
                lemma_entry_in_map(s1, i);
            } else {
                let j = index_of_key(s, kk);
                assert(s1[j].0 == kk);
            }
        }
    }
}

impl View for CelMap {
    type V = Map<CelKey, CelModel>;

    closed spec fn view(&self) -> Map<CelKey, CelModel> {
        entries_map(self.entries@)
    }
}

impl CelMap {
    /// The structural invariant: entries are kept in strictly increasing
    /// key order (so each key occurs once).
    pub closed spec fn wf(&self) -> bool {
        sorted_keys(self.entries@)
    }

    /// The map holds finitely many cels.
    pub proof fn lemma_finite(&self)
        requires
            self.wf(),
        ensures
            self@.dom().finite(),
    {
        let s = self.entries@;
        let ks = s.map_values(|e: (CelKey, Cel)| e.0);
        assert(self@.dom() =~= ks.to_set()) by {
            assert forall|k: CelKey| self@.dom().contains(k) implies ks.to_set().contains(k) by {
                let i = index_of_key(s, k);
                assert(ks[i] == k);
            }
            assert forall|k: CelKey| ks.to_set().contains(k) implies self@.dom().contains(k) by {
                let i = choose|i: int| 0 <= i < ks.len() && #[trigger] ks[i] == k;
                assert(s[i].0 == k);
            }
        }
        vstd::seq_lib::seq_to_set_is_finite(ks);
    }

    pub fn new() -> (m: Self)
        ensures
            m.wf(),
            m@ == Map::<CelKey, CelModel>::empty(),
    {
        let m = CelMap { entries: Vec::new() };
        proof {
            assert(m@ =~= Map::<CelKey, CelModel>::empty());
        }
        m
    }

    /// Number of cels stored.
    pub fn len(&self) -> (n: usize)
        requires
            self.wf(),
        ensures
            n == self@.len(),
    {
        proof {
            let s = self.entries@;
            let ks = s.map_values(|e: (CelKey, Cel)| e.0);
            assert(self@.dom() =~= ks.to_set()) by {
                assert forall|k: CelKey| self@.dom().contains(k) implies ks.to_set().contains(k) by {
                    let i = index_of_key(s, k);
                    assert(ks[i] == k);
                }
                assert forall|k: CelKey| ks.to_set().contains(k) implies self@.dom().contains(
                    k,
                ) by {
                    let i = choose|i: int| 0 <= i < ks.len() && #[trigger] ks[i] == k;
                    assert(s[i].0 == k);
                }
            }
            assert(ks.no_duplicates()) by {
                assert forall|i: int, j: int|
                    0 <= i < ks.len() && 0 <= j < ks.len() && i != j implies ks[i] != ks[j] by {
                    if i < j {
                        assert(key_lt(s[i].0, s[j].0));
                    } else {
                        assert(key_lt(s[j].0, s[i].0));
                    }
                }
            }
            ks.unique_seq_to_set();
        }
        self.entries.len()
    }

    pub fn is_empty(&self) -> (b: bool)
        requires
            self.wf(),
        ensures
            b == (self@.len() == 0),
    {
        self.len() == 0
    }

    /// Position of the first entry whose key is not below `k`.
    fn lower_bound(&self, k: CelKey) -> (i: usize)
        requires
            self.wf(),
        ensures
            i <= self.entries@.len(),
            forall|j: int| 0 <= j < i ==> key_lt(#[trigger] self.entries@[j].0, k),
            i < self.entries@.len() ==> !key_lt(self.entries@[i as int].0, k),
    {
        let mut i: usize = 0;
        while i < self.entries.len()
            invariant
                self.wf(),
                i <= self.entries@.len(),
                forall|j: int| 0 <= j < i ==> key_lt(#[trigger] self.entries@[j].0, k),
            decreases self.entries@.len() - i,
        {
            let ek = self.entries[i].0;
            if !(ek.0.0 < k.0.0 || (ek.0.0 == k.0.0 && ek.1.0 < k.1.0)) {
                return i;
            }
            i = i + 1;
        }
        i
    }

    /// Index of the entry with key `k`, if any.
    fn find(&self, k: CelKey) -> (r: Option<usize>)
        requires
            self.wf(),
        ensures
            match r {
                Some(i) => i < self.entries@.len() && self.entries@[i as int].0 == k,
                None => !self@.contains_key(k),
            },
    {
        let i = self.lower_bound(k);
        if i < self.entries.len() && self.entries[i].0.0 == k.0 && self.entries[i].0.1 == k.1 {
            Some(i)
        } else {
            proof {
                if self@.contains_key(k) {
                    let j = index_of_key(self.entries@, k);
                    if j < i {
                        assert(key_lt(self.entries@[j].0, k));
                    } else if j > i {
                        assert(key_lt(self.entries@[i as int].0, self.entries@[j].0));
                    }
                }
            }
            None
        }
    }

    /// Insert (or replace) a cel. Returns the previous cel if one existed at
    /// the same `(layer, frame)`.
    pub fn insert(&mut self, cel: Cel) -> (prev: Option<Cel>)
        requires
            old(self).wf(),
        ensures
            final(self).wf(),
            final(self)@ == old(self)@.insert((cel.layer, cel.frame), cel@),
            match prev {
                Some(p) => old(self)@.contains_key((cel.layer, cel.frame)) && p@ == old(
                    self,
                )@[(cel.layer, cel.frame)],
                None => !old(self)@.contains_key((cel.layer, cel.frame)),
            },
    {
        let k = (cel.layer, cel.frame);
        let ghost cm = cel@;
        let i = self.lower_bound(k);
        let ghost s0 = self.entries@;
        if i < self.entries.len() && self.entries[i].0.0 == k.0 && self.entries[i].0.1 == k.1 {
            let mut old_entry = (k, cel);
            std::mem::swap(&mut self.entries[i], &mut old_entry);
            proof {
                let s1 = self.entries@;
                assert(s1 == s0.update(i as int, (k, cel)));
                assert(sorted_keys(s1)) by {
                    assert forall|a: int, b: int| 0 <= a < b < s1.len() implies key_lt(
                        #[trigger] s1[a].0,
                        #[trigger] s1[b].0,
                    ) by {
                        assert(s1[a].0 == s0[a].0);
                        assert(s1[b].0 == s0[b].0);
                    }
                }
                lemma_entry_in_map(s0, i as int);
                assert(entries_map(s1) =~= entries_map(s0).insert(k, cm)) by {
                    assert forall|kk: CelKey| #[trigger]
                        entries_map(s1).contains_key(kk) implies entries_map(s0).insert(
                        k,
                        cm,
                    ).contains_key(kk) && entries_map(s1)[kk] == entries_map(s0).insert(k, cm)[kk] by {
                        let j = index_of_key(s1, kk);
                        lemma_entry_in_map(s1, j);
                        if j != i {
                            lemma_entry_in_map(s0, j);
                        }
                    }
                    assert forall|kk: CelKey| #[trigger]
                        entries_map(s0).insert(k, cm).contains_key(kk) implies entries_map(
                        s1,
                    ).contains_key(kk) by {
                        if kk == k {
                            lemma_entry_in_map(s1, i as int);
                        } else {
                            let j = index_of_key(s0, kk);
                            assert(s1[j].0 == kk);
                        }
                    }
                }
            }
            Some(old_entry.1)
        } else {
            self.entries.insert(i, (k, cel));
            proof {
                let s1 = self.entries@;
                assert(s1 == s0.insert(i as int, (k, cel)));
                assert(!has_key(s0, k)) by {
                    if has_key(s0, k) {
                        let j = index_of_key(s0, k);
                        if j < i {
                            assert(key_lt(s0[j].0, k));
                        } else if j > i {
                            assert(key_lt(s0[i as int].0, s0[j].0));
                        }
                    }
                }
                assert(sorted_keys(s1)) by {
                    assert forall|a: int, b: int| 0 <= a < b < s1.len() implies key_lt(
                        #[trigger] s1[a].0,
                        #[trigger] s1[b].0,
                    ) by {
                        if a < i && b < i {
                            assert(key_lt(s0[a].0, s0[b].0));
                        } else if a < i && b == i {
                        } else if a < i && b > i {
                            assert(key_lt(s0[a].0, s0[b - 1].0));
                        } else if a == i {
                            assert(!key_lt(s0[i as int].0, k));
                            if b - 1 > i {
                                assert(key_lt(s0[i as int].0, s0[b - 1].0));
                            }
                        } else {
                            assert(key_lt(s0[a - 1].0, s0[b - 1].0));
                        }
                    }
                }
                assert(entries_map(s1) =~= entries_map(s0).insert(k, cm)) by {
                    assert forall|kk: CelKey| #[trigger]
                        entries_map(s1).contains_key(kk) implies entries_map(s0).insert(
                        k,
                        cm,
                    ).contains_key(kk) && entries_map(s1)[kk] == entries_map(s0).insert(k, cm)[kk] by {
                        let j = index_of_key(s1, kk);
                        lemma_entry_in_map(s1, j);
                        if j < i {
                            lemma_entry_in_map(s0, j);
                        } else if j > i {
                            lemma_entry_in_map(s0, j - 1);
                        }
                    }
                    assert forall|kk: CelKey| #[trigger]
                        entries_map(s0).insert(k, cm).contains_key(kk) implies entries_map(
                        s1,
                    ).contains_key(kk) by {
                        if kk == k {
                            lemma_entry_in_map(s1, i as int);
                        } else {
                            let j = index_of_key(s0, kk);
                            if j < i {
                                assert(s1[j].0 == kk);
                            } else {
                                assert(s1[j + 1].0 == kk);
                            }
                        }
                    }
                }
            }
            None
        }
    }

    /// Borrow the cel at `(layer, frame)`, if present.
    pub fn get(&self, layer: LayerId, frame: FrameIndex) -> (r: Option<&Cel>)
        requires
            self.wf(),
        ensures
            match r {
                Some(c) => self@.contains_key((layer, frame)) && c@ == self@[(layer, frame)],
                None => !self@.contains_key((layer, frame)),
            },
    {
        match self.find((layer, frame)) {
            Some(i) => {
                proof {
                    lemma_entry_in_map(self.entries@, i as int);
                }
                Some(&self.entries[i].1)
            },
            None => None,
        }
    }

    /// Mutably borrow the cel at `(layer, frame)`, if present.
    #[verifier::spinoff_prover]
    pub fn get_mut(&mut self, layer: LayerId, frame: FrameIndex) -> (r: Option<&mut Cel>)
        requires
            old(self).wf(),
        ensures
            final(self).wf(),
            r is Some <==> old(self)@.contains_key((layer, frame)),
            r matches Some(c) ==> c@ == old(self)@[(layer, frame)],
            r matches Some(c) ==> final(self)@ == old(self)@.insert((layer, frame), final(c)@),
            r is None ==> final(self)@ == old(self)@,
    {
        match self.find((layer, frame)) {
            Some(i) => {
                proof {
                    lemma_entry_in_map(self.entries@, i as int);
                    let s0 = self.entries@;
                    assert forall|v: Cel|
                        #![trigger s0.update(i as int, (s0[i as int].0, v))]
                        sorted_keys(s0.update(i as int, (s0[i as int].0, v))) && entries_map(
                            s0.update(i as int, (s0[i as int].0, v)),
                        ) == entries_map(s0).insert((layer, frame), v@) by {
                        lemma_update_entry(s0, i as int, v);
                    }
                }
                let e = &mut self.entries[i];
                Some(&mut e.1)
            },
            None => None,
        }
    }

    /// Remove and return the cel at `(layer, frame)`, if present.
    pub fn remove(&mut self, layer: LayerId, frame: FrameIndex) -> (r: Option<Cel>)
        requires
            old(self).wf(),
        ensures
            final(self).wf(),
            final(self)@ == old(self)@.remove((layer, frame)),
            match r {
                Some(c) => old(self)@.contains_key((layer, frame)) && c@ == old(self)@[(
                    layer,
                    frame,
                )],
                None => !old(self)@.contains_key((layer, frame)),
            },
    {
        let k = (layer, frame);
        match self.find(k) {
            Some(i) => {
                let ghost s0 = self.entries@;
                proof {
                    lemma_entry_in_map(s0, i as int);
                }
                let e = self.entries.remove(i);
                proof {
                    let s1 = self.entries@;
                    assert(s1 == s0.remove(i as int));
                    assert(sorted_keys(s1)) by {
                        assert forall|a: int, b: int| 0 <= a < b < s1.len() implies key_lt(
                            #[trigger] s1[a].0,
                            #[trigger] s1[b].0,
                        ) by {
                            let a0 = if a < i { a } else { a + 1 };
                            let b0 = if b < i { b } else { b + 1 };
                            assert(s1[a] == s0[a0]);
                            assert(s1[b] == s0[b0]);
                            assert(key_lt(s0[a0].0, s0[b0].0));
                        }
                    }
                    assert(entries_map(s1) =~= entries_map(s0).remove(k)) by {
                        assert forall|kk: CelKey| #[trigger]
                            entries_map(s1).contains_key(kk) implies entries_map(s0).remove(
                            k,
                        ).contains_key(kk) && entries_map(s1)[kk] == entries_map(s0).remove(
                            k,
                        )[kk] by {
                            let j = index_of_key(s1, kk);
                            lemma_entry_in_map(s1, j);
                            let j0 = if j < i { j } else { j + 1 };
                            assert(s1[j] == s0[j0]);
                            lemma_entry_in_map(s0, j0);
                            if j0 < i {
                                assert(key_lt(s0[j0].0, s0[i as int].0));
                            } else {
                                assert(key_lt(s0[i as int].0, s0[j0].0));
                            }
                        }
                        assert forall|kk: CelKey| #[trigger]
                            entries_map(s0).remove(k).contains_key(kk) implies entries_map(
                            s1,
                        ).contains_key(kk) by {
                            let j = index_of_key(s0, kk);
                            if j < i {
                                assert(s1[j].0 == kk);
                            } else {
                                assert(j != i);
                                assert(s1[j - 1].0 == kk);
                            }
                        }
                    }
                }
                Some(e.1)
            },
            None => {
                proof {
                    assert(self@ =~= self@.remove(k));
                }
                None
            },
        }
    }

    /// The cels in `(layer, frame)` key order, each with its key.
    pub closed spec fn in_key_order(&self) -> Seq<(CelKey, CelModel)> {
        self.entries@.map_values(|e: (CelKey, Cel)| (e.0, e.1@))
    }

    /// [`CelMap::in_key_order`] lists exactly the map's entries, keys
    /// strictly increasing.
    pub proof fn lemma_in_key_order(&self)
        requires
            self.wf(),
        ensures
            forall|i: int, j: int|
                0 <= i < j < self.in_key_order().len() ==> key_lt(
                    #[trigger] self.in_key_order()[i].0,
                    #[trigger] self.in_key_order()[j].0,
                ),
            forall|i: int|
                0 <= i < self.in_key_order().len() ==> #[trigger] self@.contains_key(
                    self.in_key_order()[i].0,
                ) && self@[self.in_key_order()[i].0] == self.in_key_order()[i].1,
            forall|k: CelKey|
                #[trigger] self@.contains_key(k) ==> exists|i: int|
                    0 <= i < self.in_key_order().len() && #[trigger] self.in_key_order()[i].0 == k,
    {
        let s = self.entries@;
        assert forall|i: int| 0 <= i < self.in_key_order().len() implies #[trigger] self@.contains_key(
            self.in_key_order()[i].0,
        ) && self@[self.in_key_order()[i].0] == self.in_key_order()[i].1 by {
            lemma_entry_in_map(s, i);
        }
        assert forall|k: CelKey| #[trigger] self@.contains_key(k) implies exists|i: int|
            0 <= i < self.in_key_order().len() && #[trigger] self.in_key_order()[i].0 == k by {
            let i = index_of_key(s, k);
            assert(self.in_key_order()[i].0 == k);
        }
    }

    /// The cels in `(layer, frame)` key order, each with its key.
    pub fn iter(&self) -> (r: &[(CelKey, Cel)])
        requires
            self.wf(),
        ensures
            sorted_keys(r@),
            r@.map_values(|e: (CelKey, Cel)| (e.0, e.1@)) == self.in_key_order(),
            forall|i: int| 0 <= i < r@.len() ==> #[trigger] self@.contains_key(r@[i].0) && self@[r@[i].0] == r@[i].1@,
            forall|k: CelKey| #[trigger] self@.contains_key(k) ==> has_key(r@, k),
    {
        proof {
            assert forall|i: int| 0 <= i < self.entries@.len() implies #[trigger] self@.contains_key(self.entries@[i].0) && self@[self.entries@[i].0] == self.entries@[i].1@ by {
                lemma_entry_in_map(self.entries@, i);
            }
        }
        self.entries.as_slice()
    }
}

impl Default for CelMap {
    fn default() -> (m: Self)
        ensures
            m.wf(),
            m@ == Map::<CelKey, CelModel>::empty(),
    {
        CelMap::new()
    }
}

/// Entry lists with the same keys and the same cels, both in key order,
/// describe the same map.
proof fn lemma_same_entries(s1: Seq<(CelKey, Cel)>, s2: Seq<(CelKey, Cel)>)
    requires
        sorted_keys(s1),
        s1.len() == s2.len(),
        forall|i: int| 0 <= i < s1.len() ==> (#[trigger] s2[i]).0 == s1[i].0 && s2[i].1@ == s1[i].1@,
    ensures
        sorted_keys(s2),
        entries_map(s2) == entries_map(s1),
{
    assert(sorted_keys(s2)) by {
        assert forall|a: int, b: int| 0 <= a < b < s2.len() implies key_lt(
            #[trigger] s2[a].0,
            #[trigger] s2[b].0,
        ) by {
            assert(key_lt(s1[a].0, s1[b].0));
        }
    }
    assert forall|k: CelKey| #[trigger] entries_map(s1).contains_key(k) implies entries_map(s2).contains_key(k)
        && entries_map(s2)[k] == entries_map(s1)[k] by {
        let j = index_of_key(s1, k);
        lemma_entry_in_map(s1, j);
        lemma_entry_in_map(s2, j);
    }
    assert forall|k: CelKey| #[trigger] entries_map(s2).contains_key(k) implies entries_map(s1).contains_key(k) by {
        let j = index_of_key(s2, k);
        lemma_entry_in_map(s1, j);
    }
    assert(entries_map(s2) =~= entries_map(s1));
}

impl Clone for CelMap {
    /// A copy holding copies of the same cels under the same keys.
    fn clone(&self) -> (c: Self)
        ensures
            self.wf() ==> c.wf() && c@ == self@,
    {
        let n = self.entries.len();
        let mut entries: Vec<(CelKey, Cel)> = Vec::new();
        let mut i: usize = 0;
        while i < n
            invariant
                n == self.entries@.len(),
                i <= n,
                entries@.len() == i,
                forall|j: int|
                    0 <= j < i ==> (#[trigger] entries@[j]).0 == self.entries@[j].0 && entries@[j].1@
                        == self.entries@[j].1@,
            decreases n - i,
        {
            let k = self.entries[i].0;
            let cel = self.entries[i].1.clone();
            entries.push((k, cel));
            i = i + 1;
        }
        let c = CelMap { entries };
        proof {
            if self.wf() {
                lemma_same_entries(self.entries@, c.entries@);
            }
        }
        c
    }
}

} // verus!
