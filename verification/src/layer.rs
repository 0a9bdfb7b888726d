//! Management of the active layers.
//!
//! The layers are kept on a stack: the layer that was pushed last is the active one. Every push
//! hands out a [`LayerManagerEntry`] with which the layer can be removed again, in any order.
//! Conditional layers are activated automatically when all of their required layers are active.
use vstd::prelude::*;

verus! {

/// The ID of a layer.
#[derive(Debug, Clone, Copy, PartialEq, Eq, Structural)]
pub struct LayerId(pub u8);

/// Handle to an entry in [`LayerManager`].
#[derive(Debug, PartialEq, Eq, Structural)]
pub struct LayerManagerEntry(u64);

impl LayerManagerEntry {
    /// The key under which the entry is stored in the layer stack.
    pub closed spec fn key(self) -> u64 {
        self.0
    }
}

/// Conditional layer configuration.
///
/// If all layers in the `required` array are active, the layer in the `then_layer` field is activated
/// as well.
#[derive(Debug, Clone, Copy)]
pub struct ConditionalLayer {
    /// The layers that need to be active for the conditional layer to be activated.
    pub required: [LayerId; 2],
    /// The layer to activate when all layers in `required` are active.
    pub then_layer: LayerId,
}

impl ConditionalLayer {
    /// Creates a new [`ConditionalLayer`] with the specified required layers and the layer to
    /// activate.
    pub fn new(required: [LayerId; 2], then_layer: LayerId) -> (r: Self)
        ensures
            r.required@ == required@,
            r.then_layer == then_layer,
    {
        Self { required, then_layer }
    }
}

/// An entry of the layer stack: the key of the entry and the layer it activates.
pub type StackEntry = (u64, LayerId);

/// A conditional layer that is currently activated: its two required layers and the key of the
/// stack entry that activated its `then_layer` layer.
pub type Activation = (LayerId, LayerId, u64);

/// The layer that is active on the given stack: the one on top, or layer 0 on an empty stack.
pub open spec fn top_layer(entries: Seq<StackEntry>) -> LayerId {
    if entries.len() == 0 {
        LayerId(0)
    } else {
        entries.last().1
    }
}

/// The key that the next pushed entry receives: one more than the key on top of the stack.
pub open spec fn next_key(entries: Seq<StackEntry>) -> int {
    if entries.len() == 0 {
        0
    } else {
        entries.last().0 + 1
    }
}

/// Whether some entry of the stack activates the given layer.
pub open spec fn layer_on_stack(entries: Seq<StackEntry>, layer: LayerId) -> bool {
    exists|i: int| 0 <= i < entries.len() && #[trigger] entries[i].1 == layer
}

/// Whether an entry with the given key is on the stack.
pub open spec fn key_on_stack(entries: Seq<StackEntry>, key: u64) -> bool {
    exists|i: int| 0 <= i < entries.len() && #[trigger] entries[i].0 == key
}

/// Whether all layers that the conditional layer requires are on the stack.
pub open spec fn requirements_met(entries: Seq<StackEntry>, c: ConditionalLayer) -> bool {
    layer_on_stack(entries, c.required@[0]) && layer_on_stack(entries, c.required@[1])
}

/// Runs through the conditional layers in order and activates each one whose requirements are
/// met at that point (the layers activated by earlier conditional layers count).
pub open spec fn activate_conditional(
    entries: Seq<StackEntry>,
    activated: Seq<Activation>,
    conds: Seq<ConditionalLayer>,
) -> (Seq<StackEntry>, Seq<Activation>)
    decreases conds.len(),
{
    if conds.len() == 0 {
        (entries, activated)
    } else {
        let prev = activate_conditional(entries, activated, conds.drop_last());
        let c = conds.last();
        if requirements_met(prev.0, c) {
            let k = next_key(prev.0) as u64;
            (prev.0.push((k, c.then_layer)), prev.1.push((c.required@[0], c.required@[1], k)))
        } else {
            prev
        }
    }
}

/// The stack and the activated conditional layers after pushing `layer`.
pub open spec fn push_result(
    entries: Seq<StackEntry>,
    activated: Seq<Activation>,
    conds: Seq<ConditionalLayer>,
    layer: LayerId,
) -> (Seq<StackEntry>, Seq<Activation>) {
    activate_conditional(entries.push((next_key(entries) as u64, layer)), activated, conds)
}

/// Whether the activated conditional layer requires the given layer.
pub open spec fn requires_layer(a: Activation, layer: LayerId) -> bool {
    a.0 == layer || a.1 == layer
}

/// Selects the activated conditional layers that require `layer`.
pub open spec fn drops_activation(layer: LayerId) -> spec_fn(Activation) -> bool {
    |a: Activation| requires_layer(a, layer)
}

/// Selects the activated conditional layers that do not require `layer`.
pub open spec fn keeps_activation(layer: LayerId) -> spec_fn(Activation) -> bool {
    |a: Activation| !requires_layer(a, layer)
}

/// The keys of the entries that are removed together with `layer` because the conditional layer
/// they activated required it.
pub open spec fn deactivated_keys(activated: Seq<Activation>, layer: LayerId) -> Seq<u64> {
    activated.filter(drops_activation(layer)).map_values(|a: Activation| a.2)
}

/// Selects the entries that stay on the stack when the entry with key `key`, which activates
/// `layer`, is removed.
pub open spec fn keeps_entry(activated: Seq<Activation>, key: u64, layer: LayerId) -> spec_fn(
    StackEntry,
) -> bool {
    |e: StackEntry| e.0 != key && !deactivated_keys(activated, layer).contains(e.0)
}

/// The stack after removing the entry with key `key`, which activates `layer`.
pub open spec fn remove_entries(
    entries: Seq<StackEntry>,
    activated: Seq<Activation>,
    key: u64,
    layer: LayerId,
) -> Seq<StackEntry> {
    entries.filter(keeps_entry(activated, key, layer))
}

/// The activated conditional layers after removing an entry that activates `layer`.
pub open spec fn remove_activations(activated: Seq<Activation>, layer: LayerId) -> Seq<
    Activation,
> {
    activated.filter(keeps_activation(layer))
}

/// Well-formedness of the layer stack: the keys increase strictly from bottom to top, and every
/// activated conditional layer has its own entry on the stack.
pub open spec fn stack_wf(entries: Seq<StackEntry>, activated: Seq<Activation>) -> bool {
    &&& forall|i: int, j: int| 0 <= i < j < entries.len() ==> entries[i].0 < entries[j].0
    &&& forall|i: int| 0 <= i < activated.len() ==> key_on_stack(entries, #[trigger] activated[i].2)
    &&& forall|i: int, j: int|
        0 <= i < j < activated.len() ==> activated[i].2 != activated[j].2
}

/// Whether the activated conditional layer `a` is one of the configured conditional layers.
pub open spec fn configured(a: Activation, conds: Seq<ConditionalLayer>) -> bool {
    exists|j: int|
        0 <= j < conds.len() && #[trigger] conds[j].required@[0] == a.0 && conds[j].required@[1]
            == a.1
}

/// Well-formedness of a layer manager: a well-formed stack (see [`stack_wf`]) whose activated
/// conditional layers are all configured ones, so that a manager without conditional layers never
/// has an activated one.
pub open spec fn manager_wf(
    entries: Seq<StackEntry>,
    activated: Seq<Activation>,
    conds: Seq<ConditionalLayer>,
) -> bool {
    &&& stack_wf(entries, activated)
    &&& forall|i: int| 0 <= i < activated.len() ==> configured(#[trigger] activated[i], conds)
}

/// The part of the layer manager that does not depend on the number of conditional layers.
pub struct LayerManagerInner {
    entries: Vec<StackEntry>,
    conditional_layers: Vec<ConditionalLayer>,
    activated: Vec<Activation>,
}

impl LayerManagerInner {
    /// The entries of the stack, from bottom to top.
    pub closed spec fn entries(&self) -> Seq<StackEntry> {
        self.entries@
    }

    /// The conditional layers that are currently activated.
    pub closed spec fn activated(&self) -> Seq<Activation> {
        self.activated@
    }

    /// The configured conditional layers.
    pub closed spec fn conditional_layers(&self) -> Seq<ConditionalLayer> {
        self.conditional_layers@
    }

    /// Well-formedness of the layer manager (see [`manager_wf`]).
    pub open spec fn wf(&self) -> bool {
        manager_wf(self.entries(), self.activated(), self.conditional_layers())
    }

    /// Whether `entry` can be removed: it is on the stack, and it is not the entry of a
    /// conditional layer.
    pub open spec fn holds_entry(&self, entry: LayerManagerEntry) -> bool {
        &&& key_on_stack(self.entries(), entry.key())
        &&& forall|i: int|
            0 <= i < self.activated().len() ==> #[trigger] self.activated()[i].2 != entry.key()
    }

    /// Whether a push has room for its key and the keys of all conditional layers.
    pub open spec fn can_push(&self) -> bool {
        next_key(self.entries()) + self.conditional_layers().len() < u64::MAX
    }

    fn new(conditional_layers: Vec<ConditionalLayer>) -> (r: Self)
        ensures
            r.entries() == Seq::<StackEntry>::empty(),
            r.activated() == Seq::<Activation>::empty(),
            r.conditional_layers() == conditional_layers@,
            r.wf(),
    {
        Self { entries: Vec::new(), conditional_layers, activated: Vec::new() }
    }

    fn next_key_exec(&self) -> (k: u64)
        requires
            next_key(self.entries()) < u64::MAX,
        ensures
            k == next_key(self.entries()),
    {
        let n = self.entries.len();
        if n == 0 {
            0
        } else {
            self.entries[n - 1].0 + 1
        }
    }

    fn is_on_stack(&self, layer: LayerId) -> (r: bool)
        ensures
            r == layer_on_stack(self.entries(), layer),
    {
        let mut i: usize = 0;
        while i < self.entries.len()
            invariant
                i <= self.entries@.len(),
                forall|j: int| 0 <= j < i ==> self.entries@[j].1 != layer,
            decreases self.entries@.len() - i,
        {
            if self.entries[i].1 == layer {
                return true;
            }
            i += 1;
        }
        false
    }

    fn find_entry(&self, key: u64) -> (idx: usize)
        requires
            key_on_stack(self.entries(), key),
        ensures
            idx < self.entries().len(),
            self.entries()[idx as int].0 == key,
    {
        let mut i: usize = 0;
        while i < self.entries.len()
            invariant
                i <= self.entries@.len(),
                key_on_stack(self.entries@, key),
                forall|j: int| 0 <= j < i ==> self.entries@[j].0 != key,
            decreases self.entries@.len() - i,
        {
            if self.entries[i].0 == key {
                return i;
            }
            i += 1;
        }
        proof {
            let w = choose|w: int| 0 <= w < self.entries@.len() && #[trigger] self.entries@[w].0 == key;
        }
        0
    }

    /// Returns the ID of the layer on top of the stack, or layer 0 if the stack is empty.
    pub fn active(&self) -> (r: LayerId)
        ensures
            r == top_layer(self.entries()),
    {
        let n = self.entries.len();
        if n == 0 {
            LayerId(0)
        } else {
            self.entries[n - 1].1
        }
    }

    /// Pushes `layer` on the stack and activates the conditional layers whose requirements are
    /// met afterwards.
    pub fn push(&mut self, layer: LayerId) -> (entry: LayerManagerEntry)
        requires
            old(self).wf(),
            old(self).can_push(),
        ensures
            final(self).wf(),
            (final(self).entries(), final(self).activated()) == push_result(
                old(self).entries(),
                old(self).activated(),
                old(self).conditional_layers(),
                layer,
            ),
            final(self).conditional_layers() == old(self).conditional_layers(),
            entry.key() == next_key(old(self).entries()),
            final(self).holds_entry(entry),
    {
        let ghost old_entries = self.entries@;
        let ghost old_activated = self.activated@;
        let ghost conds = self.conditional_layers@;
        let key = self.next_key_exec();
        self.entries.push((key, layer));
        proof {
            lemma_push_keeps_wf(old_entries, old_activated, (key, layer));
            assert(self.entries@[self.entries@.len() - 1].0 == key);
            assert(activate_conditional(self.entries@, old_activated, conds.take(0)) == (
                self.entries@,
                old_activated,
            ));
        }
        let mut i: usize = 0;
        while i < self.conditional_layers.len()
            invariant
                i <= conds.len(),
                conds == self.conditional_layers@,
                next_key(old_entries) + conds.len() < u64::MAX,
                key == next_key(old_entries),
                (self.entries@, self.activated@) == activate_conditional(
                    old_entries.push((key, layer)),
                    old_activated,
                    conds.take(i as int),
                ),
                stack_wf(self.entries@, self.activated@),
                forall|j: int| 0 <= j < self.activated@.len() ==> configured(#[trigger] self.activated@[j], conds),
                next_key(self.entries@) <= next_key(old_entries) + 1 + i,
                key_on_stack(self.entries@, key),
                forall|j: int| 0 <= j < self.activated@.len() ==> #[trigger] self.activated@[j].2 != key,
            decreases conds.len() - i,
        {
            let ghost prev_entries = self.entries@;
            let ghost prev_activated = self.activated@;
            let c = &self.conditional_layers[i];
            let r0 = c.required[0];
            let r1 = c.required[1];
            let then_layer = c.then_layer;
            let met = self.is_on_stack(r0) && self.is_on_stack(r1);
            if met {
                let k = self.next_key_exec();
                self.entries.push((k, then_layer));
                self.activated.push((r0, r1, k));
                proof {
                    assert(configured(self.activated@[self.activated@.len() - 1], conds)) by {
                        assert(conds[i as int].required@[0] == r0 && conds[i as int].required@[1] == r1);
                    }
                    assert forall|j: int| 0 <= j < self.activated@.len() implies configured(#[trigger] self.activated@[j], conds) by {
                        if j < prev_activated.len() {
                            assert(self.activated@[j] == prev_activated[j]);
                        }
                    }
                    lemma_push_keeps_wf(prev_entries, prev_activated, (k, then_layer));
                    lemma_activate_fresh(prev_entries, prev_activated, (k, then_layer), (r0, r1, k));
                    assert(key_on_stack(self.entries@, key)) by {
                        let w = choose|w: int| 0 <= w < prev_entries.len() && #[trigger] prev_entries[w].0 == key;
                        assert(self.entries@[w].0 == key);
                    }
                    if prev_entries.len() > 0 {
                        assert(prev_entries[0].0 <= prev_entries.last().0);
                    }
                    let w = choose|w: int| 0 <= w < prev_entries.len() && #[trigger] prev_entries[w].0 == key;
                    if w < prev_entries.len() - 1 {
                        assert(prev_entries[w].0 < prev_entries.last().0);
                    }
                }
            }
            proof {
                assert(conds.take(i as int + 1).drop_last() == conds.take(i as int));
                assert(conds.take(i as int + 1).last() == conds[i as int]);
            }
            i += 1;
        }
        proof {
            assert(conds.take(conds.len() as int) == conds);
        }
        LayerManagerEntry(key)
    }

    /// Removes the entry `entry` from the stack, together with the entries of all activated
    /// conditional layers that require the removed layer, and returns the removed layer.
    pub fn remove(&mut self, entry: LayerManagerEntry) -> (r: LayerId)
        requires
            old(self).wf(),
            old(self).holds_entry(entry),
        ensures
            final(self).wf(),
            exists|i: int|
                0 <= i < old(self).entries().len() && #[trigger] old(self).entries()[i] == (
                    entry.key(),
                    r,
                ),
            final(self).entries() == remove_entries(
                old(self).entries(),
                old(self).activated(),
                entry.key(),
                r,
            ),
            final(self).activated() == remove_activations(old(self).activated(), r),
            final(self).conditional_layers() == old(self).conditional_layers(),
            next_key(final(self).entries()) <= next_key(old(self).entries()),
    {
        let key = entry.0;
        let ghost old_entries = self.entries@;
        let ghost old_activated = self.activated@;
        let idx = self.find_entry(key);
        let removed_layer = self.entries[idx].1;
        // Split the activated conditional layers into those that stay and the keys of those that
        // are deactivated.
        let ghost keep = keeps_activation(removed_layer);
        let ghost drop = drops_activation(removed_layer);
        let ghost key_of = |a: Activation| a.2;
        let mut kept: Vec<Activation> = Vec::new();
        let mut dropped_keys: Vec<u64> = Vec::new();
        let mut i: usize = 0;
        while i < self.activated.len()
            invariant
                i <= old_activated.len(),
                self.activated@ == old_activated,
                keep == keeps_activation(removed_layer),
                drop == drops_activation(removed_layer),
                key_of == (|a: Activation| a.2),
                kept@ == old_activated.take(i as int).filter(keep),
                dropped_keys@ == old_activated.take(i as int).filter(drop).map_values(key_of),
            decreases old_activated.len() - i,
        {
            let a = self.activated[i];
            let ghost prefix = old_activated.take(i as int);
            let ghost next = old_activated.take(i as int + 1);
            proof {
                reveal_with_fuel(Seq::filter, 1);
                assert(next.drop_last() == prefix);
                assert(next.last() == a);
            }
            if a.0 == removed_layer || a.1 == removed_layer {
                dropped_keys.push(a.2);
                proof {
                    assert(next.filter(drop) == prefix.filter(drop).push(a));
                    assert(next.filter(keep) == prefix.filter(keep));
                    assert(prefix.filter(drop).push(a).map_values(key_of) =~= prefix.filter(
                        drop,
                    ).map_values(key_of).push(a.2));
                }
            } else {
                kept.push(a);
                proof {
                    assert(next.filter(drop) == prefix.filter(drop));
                    assert(next.filter(keep) == prefix.filter(keep).push(a));
                }
            }
            i += 1;
        }
        proof {
            assert(old_activated.take(old_activated.len() as int) == old_activated);
            assert(dropped_keys@ == deactivated_keys(old_activated, removed_layer));
        }
        // Rebuild the stack without the removed entries.
        let ghost pred = keeps_entry(old_activated, key, removed_layer);
        let mut remaining: Vec<StackEntry> = Vec::new();
        let mut j: usize = 0;
        while j < self.entries.len()
            invariant
                j <= old_entries.len(),
                self.entries@ == old_entries,
                pred == keeps_entry(old_activated, key, removed_layer),
                dropped_keys@ == deactivated_keys(old_activated, removed_layer),
                remaining@ == old_entries.take(j as int).filter(pred),
            decreases old_entries.len() - j,
        {
            let e = self.entries[j];
            let ghost prefix = old_entries.take(j as int);
            let ghost next = old_entries.take(j as int + 1);
            proof {
                reveal_with_fuel(Seq::filter, 1);
                assert(next.drop_last() == prefix);
                assert(next.last() == e);
            }
            if e.0 != key && !contains_key(&dropped_keys, e.0) {
                remaining.push(e);
                proof {
                    assert(next.filter(pred) == prefix.filter(pred).push(e));
                }
            } else {
                proof {
                    assert(next.filter(pred) == prefix.filter(pred));
                }
            }
            j += 1;
        }
        proof {
            assert(old_entries.take(old_entries.len() as int) == old_entries);
            lemma_remove_keeps_wf(old_entries, old_activated, key, removed_layer);
            lemma_filter_keeps_configured(old_activated, keeps_activation(removed_layer), self.conditional_layers@);
        }
        self.entries = remaining;
        self.activated = kept;
        removed_layer
    }
}

/// Whether the entry with key `key` can be removed from the stack: it is on the stack, and it is
/// not the entry of an activated conditional layer.
pub open spec fn holds_key(entries: Seq<StackEntry>, activated: Seq<Activation>, key: u64) -> bool {
    &&& key_on_stack(entries, key)
    &&& forall|i: int| 0 <= i < activated.len() ==> #[trigger] activated[i].2 != key
}

/// The layer that the entry with key `key` activates.
pub open spec fn entry_layer(entries: Seq<StackEntry>, key: u64) -> LayerId {
    entries[choose|i: int| 0 <= i < entries.len() && #[trigger] entries[i].0 == key].1
}

/// The stack and the activated conditional layers after the entry with key `key`, if any, is
/// removed where it can be; otherwise they stay as they are.
pub open spec fn after_release(
    entries: Seq<StackEntry>,
    activated: Seq<Activation>,
    key: Option<u64>,
) -> (Seq<StackEntry>, Seq<Activation>) {
    match key {
        Some(k) => if holds_key(entries, activated, k) {
            let layer = entry_layer(entries, k);
            (remove_entries(entries, activated, k, layer), remove_activations(activated, layer))
        } else {
            (entries, activated)
        },
        None => (entries, activated),
    }
}

/// The key of an entry, if there is one.
pub open spec fn entry_key(entry: Option<LayerManagerEntry>) -> Option<u64> {
    match entry {
        Some(e) => Some(e.key()),
        None => None,
    }
}

impl LayerManagerInner {
    /// Adds a conditional layer: from the next push on, whenever both `required` layers are
    /// active, `then_layer` is activated as well.
    pub fn add_conditional_layer(&mut self, conditional_layer: ConditionalLayer)
        requires
            old(self).wf(),
        ensures
            final(self).wf(),
            final(self).entries() == old(self).entries(),
            final(self).activated() == old(self).activated(),
            final(self).conditional_layers() == old(self).conditional_layers().push(
                conditional_layer,
            ),
    {
        let ghost conds = self.conditional_layers@;
        self.conditional_layers.push(conditional_layer);
        proof {
            assert forall|i: int| 0 <= i < self.activated@.len() implies configured(#[trigger] self.activated@[i], self.conditional_layers@) by {
                let a = self.activated@[i];
                assert(configured(a, conds));
                let j = choose|j: int|
                    0 <= j < conds.len() && #[trigger] conds[j].required@[0] == a.0 && conds[j].required@[1] == a.1;
                assert(self.conditional_layers@[j] == conds[j]);
            }
        }
    }

    /// Whether `entry` can be removed.
    pub fn holds(&self, entry: &LayerManagerEntry) -> (r: bool)
        ensures
            r == self.holds_entry(*entry),
    {
        let key = entry.0;
        let mut on_stack = false;
        let mut i: usize = 0;
        while i < self.entries.len()
            invariant
                i <= self.entries@.len(),
                key == entry.key(),
                on_stack == exists|j: int| 0 <= j < i && #[trigger] self.entries@[j].0 == key,
            decreases self.entries@.len() - i,
        {
            if self.entries[i].0 == key {
                on_stack = true;
            }
            i += 1;
        }
        if !on_stack {
            return false;
        }
        let mut k: usize = 0;
        while k < self.activated.len()
            invariant
                k <= self.activated@.len(),
                key == entry.key(),
                key_on_stack(self.entries@, key),
                forall|j: int| 0 <= j < k ==> #[trigger] self.activated@[j].2 != key,
            decreases self.activated@.len() - k,
        {
            if self.activated[k].2 == key {
                assert(self.activated()[k as int].2 == entry.key());
                assert(!self.holds_entry(*entry));
                return false;
            }
            k += 1;
        }
        true
    }

    /// Whether a push has room for its key and those of all conditional layers.
    pub fn has_room(&self) -> (r: bool)
        ensures
            r == self.can_push(),
    {
        let n = self.entries.len();
        let next: u128 = if n == 0 {
            0
        } else {
            self.entries[n - 1].0 as u128 + 1
        };
        next + (self.conditional_layers.len() as u128) < u64::MAX as u128
    }

    /// Removes `entry` if there is one and it can be removed; otherwise changes nothing.
    pub fn release(&mut self, entry: Option<LayerManagerEntry>)
        requires
            old(self).wf(),
        ensures
            final(self).wf(),
            (final(self).entries(), final(self).activated()) == after_release(
                old(self).entries(),
                old(self).activated(),
                entry_key(entry),
            ),
            final(self).conditional_layers() == old(self).conditional_layers(),
    {
        if let Some(e) = entry {
            if self.holds(&e) {
                let ghost entries = self.entries@;
                let ghost activated = self.activated@;
                let ghost k = e.key();
                let layer = self.remove(e);
                proof {
                    let i = choose|i: int| 0 <= i < entries.len() && #[trigger] entries[i] == (k, layer);
                    lemma_entry_layer_unique(entries, activated, k, i);
                }
            }
        }
    }

    /// Pushes `layer` if there is room for it, and returns its entry; otherwise changes nothing.
    pub fn try_push(&mut self, layer: LayerId) -> (r: Option<LayerManagerEntry>)
        requires
            old(self).wf(),
        ensures
            final(self).wf(),
            final(self).conditional_layers() == old(self).conditional_layers(),
            old(self).can_push() ==> {
                &&& (final(self).entries(), final(self).activated()) == push_result(
                    old(self).entries(),
                    old(self).activated(),
                    old(self).conditional_layers(),
                    layer,
                )
                &&& r matches Some(e) && e.key() == next_key(old(self).entries())
                &&& final(self).holds_entry(r->0)
            },
            !old(self).can_push() ==> {
                &&& final(self).entries() == old(self).entries()
                &&& final(self).activated() == old(self).activated()
                &&& r.is_none()
            },
    {
        if self.has_room() {
            Some(self.push(layer))
        } else {
            None
        }
    }
}

proof fn lemma_filter_keeps_configured(
    s: Seq<Activation>,
    pred: spec_fn(Activation) -> bool,
    conds: Seq<ConditionalLayer>,
)
    requires
        forall|i: int| 0 <= i < s.len() ==> configured(#[trigger] s[i], conds),
    ensures
        forall|i: int| 0 <= i < s.filter(pred).len() ==> configured(#[trigger] s.filter(pred)[i], conds),
    decreases s.len(),
{
    reveal_with_fuel(Seq::filter, 1);
    if s.len() > 0 {
        lemma_filter_keeps_configured(s.drop_last(), pred, conds);
        let sub = s.drop_last().filter(pred);
        assert forall|i: int| 0 <= i < s.filter(pred).len() implies configured(#[trigger] s.filter(pred)[i], conds) by {
            if i < sub.len() {
                assert(s.filter(pred)[i] == sub[i]);
            } else {
                assert(s.filter(pred)[i] == s[s.len() - 1]);
            }
        }
    }
}

/// On a well-formed stack the entry with a given key is the only one with that key, so it names
/// the layer of that key.
proof fn lemma_entry_layer_unique(entries: Seq<StackEntry>, activated: Seq<Activation>, key: u64, i: int)
    requires
        stack_wf(entries, activated),
        0 <= i < entries.len(),
        entries[i].0 == key,
    ensures
        entry_layer(entries, key) == entries[i].1,
{
    let j = choose|j: int| 0 <= j < entries.len() && #[trigger] entries[j].0 == key;
    if j < i {
        assert(entries[j].0 < entries[i].0);
    } else if j > i {
        assert(entries[i].0 < entries[j].0);
    }
}

fn contains_key(keys: &Vec<u64>, key: u64) -> (r: bool)
    ensures
        r == keys@.contains(key),
{
    let mut i: usize = 0;
    while i < keys.len()
        invariant
            i <= keys@.len(),
            forall|j: int| 0 <= j < i ==> keys@[j] != key,
        decreases keys@.len() - i,
    {
        if keys[i] == key {
            return true;
        }
        i += 1;
    }
    false
}

proof fn lemma_push_keeps_wf(entries: Seq<StackEntry>, activated: Seq<Activation>, e: StackEntry)
    requires
        stack_wf(entries, activated),
        e.0 == next_key(entries),
    ensures
        stack_wf(entries.push(e), activated),
        key_on_stack(entries.push(e), e.0),
{
    let s = entries.push(e);
    assert(s[s.len() - 1] == e);
    assert forall|i: int, j: int| 0 <= i < j < s.len() implies s[i].0 < s[j].0 by {
        if j == s.len() - 1 {
            if i < entries.len() - 1 {
                assert(entries[i].0 < entries[entries.len() - 1].0);
            }
        }
    }
    assert forall|i: int| 0 <= i < activated.len() implies key_on_stack(s, #[trigger] activated[i].2) by {
        let w = choose|w: int| 0 <= w < entries.len() && #[trigger] entries[w].0 == activated[i].2;
        assert(s[w].0 == activated[i].2);
    }
}

proof fn lemma_activate_fresh(
    entries: Seq<StackEntry>,
    activated: Seq<Activation>,
    e: StackEntry,
    a: Activation,
)
    requires
        stack_wf(entries, activated),
        e.0 == next_key(entries),
        a.2 == e.0,
    ensures
        stack_wf(entries.push(e), activated.push(a)),
{
    lemma_push_keeps_wf(entries, activated, e);
    let s = entries.push(e);
    let t = activated.push(a);
    assert forall|i: int| 0 <= i < t.len() implies key_on_stack(s, #[trigger] t[i].2) by {
        if i == t.len() - 1 {
            assert(s[s.len() - 1].0 == a.2);
        } else {
            assert(t[i] == activated[i]);
        }
    }
    assert forall|i: int, j: int| 0 <= i < j < t.len() implies t[i].2 != t[j].2 by {
        if j == t.len() - 1 {
            assert(t[i] == activated[i]);
            let w = choose|w: int| 0 <= w < entries.len() && #[trigger] entries[w].0 == activated[i].2;
            if w < entries.len() - 1 {
                assert(entries[w].0 < entries[entries.len() - 1].0);
            }
        }
    }
}

proof fn lemma_filter_sorted(s: Seq<StackEntry>, pred: spec_fn(StackEntry) -> bool)
    requires
        forall|i: int, j: int| 0 <= i < j < s.len() ==> s[i].0 < s[j].0,
    ensures
        forall|i: int, j: int|
            0 <= i < j < s.filter(pred).len() ==> s.filter(pred)[i].0 < s.filter(pred)[j].0,
        forall|i: int| 0 <= i < s.filter(pred).len() ==> s.contains(#[trigger] s.filter(pred)[i]),
        forall|i: int| 0 <= i < s.len() && pred(s[i]) ==> s.filter(pred).contains(#[trigger] s[i]),
    decreases s.len(),
{
    reveal_with_fuel(Seq::filter, 1);
    if s.len() > 0 {
        let r = s.drop_last();
        lemma_filter_sorted(r, pred);
        let f = s.filter(pred);
        let g = r.filter(pred);
        assert forall|i: int| 0 <= i < g.len() implies s.contains(#[trigger] g[i]) by {
            let w = choose|w: int| 0 <= w < r.len() && r[w] == g[i];
            assert(s[w] == g[i]);
        }
        assert forall|i: int| 0 <= i < f.len() implies s.contains(#[trigger] f[i]) by {
            if pred(s.last()) && i == f.len() - 1 {
                assert(s[s.len() - 1] == f[i]);
            } else {
                assert(f[i] == g[i]);
            }
        }
        assert forall|i: int, j: int| 0 <= i < j < f.len() implies f[i].0 < f[j].0 by {
            if pred(s.last()) && j == f.len() - 1 {
                assert(f[i] == g[i]);
                let w = choose|w: int| 0 <= w < r.len() && r[w] == g[i];
                assert(s[w] == g[i]);
            } else {
                assert(f[i] == g[i]);
                assert(f[j] == g[j]);
            }
        }
        assert forall|i: int| 0 <= i < s.len() && pred(s[i]) implies f.contains(#[trigger] s[i]) by {
            if i == s.len() - 1 {
                assert(f[f.len() - 1] == s[i]);
            } else {
                assert(r[i] == s[i]);
                let w = choose|w: int| 0 <= w < g.len() && g[w] == r[i];
                assert(f[w] == g[w]);
            }
        }
    }
}

proof fn lemma_filter_activations(s: Seq<Activation>, pred: spec_fn(Activation) -> bool)
    ensures
        forall|i: int| 0 <= i < s.filter(pred).len() ==> s.contains(#[trigger] s.filter(pred)[i]),
        forall|i: int| 0 <= i < s.len() && pred(s[i]) ==> s.filter(pred).contains(#[trigger] s[i]),
        forall|i: int, j: int|
            #![trigger s.filter(pred)[i], s.filter(pred)[j]]
            0 <= i < j < s.filter(pred).len() ==> exists|a: int, b: int|
                #![trigger s[a], s[b]]
                0 <= a < b < s.len() && s[a] == s.filter(pred)[i] && s[b] == s.filter(pred)[j],
    decreases s.len(),
{
    reveal_with_fuel(Seq::filter, 1);
    if s.len() > 0 {
        let r = s.drop_last();
        lemma_filter_activations(r, pred);
        let f = s.filter(pred);
        let g = r.filter(pred);
        assert forall|i: int| 0 <= i < f.len() implies s.contains(#[trigger] f[i]) by {
            if pred(s.last()) && i == f.len() - 1 {
                assert(s[s.len() - 1] == f[i]);
            } else {
                assert(f[i] == g[i]);
                let w = choose|w: int| 0 <= w < r.len() && r[w] == g[i];
                assert(s[w] == g[i]);
            }
        }
        assert forall|i: int| 0 <= i < s.len() && pred(s[i]) implies f.contains(#[trigger] s[i]) by {
            if i == s.len() - 1 {
                assert(f[f.len() - 1] == s[i]);
            } else {
                assert(r[i] == s[i]);
                let w = choose|w: int| 0 <= w < g.len() && g[w] == r[i];
                assert(f[w] == g[w]);
            }
        }
        assert forall|i: int, j: int| #![trigger f[i], f[j]] 0 <= i < j < f.len() implies exists|a: int, b: int|
            #![trigger s[a], s[b]]
            0 <= a < b < s.len() && s[a] == f[i] && s[b] == f[j] by {
            if pred(s.last()) && j == f.len() - 1 {
                assert(f[i] == g[i]);
                let w = choose|w: int| 0 <= w < r.len() && r[w] == g[i];
                assert(s[w] == f[i] && s[s.len() - 1] == f[j]);
            } else {
                assert(f[i] == g[i] && f[j] == g[j]);
                let (a, b) = choose|a: int, b: int|
                    0 <= a < b < r.len() && r[a] == g[i] && r[b] == g[j];
                assert(s[a] == f[i] && s[b] == f[j]);
            }
        }
    }
}

proof fn lemma_remove_keeps_wf(
    entries: Seq<StackEntry>,
    activated: Seq<Activation>,
    key: u64,
    layer: LayerId,
)
    requires
        stack_wf(entries, activated),
        forall|i: int| 0 <= i < activated.len() ==> #[trigger] activated[i].2 != key,
    ensures
        stack_wf(remove_entries(entries, activated, key, layer), remove_activations(activated, layer)),
        next_key(remove_entries(entries, activated, key, layer)) <= next_key(entries),
{
    let dk = deactivated_keys(activated, layer);
    let pred = keeps_entry(activated, key, layer);
    let keep = keeps_activation(layer);
    let drop = drops_activation(layer);
    let s = entries.filter(pred);
    let t = activated.filter(keep);
    lemma_filter_sorted(entries, pred);
    lemma_filter_activations(activated, keep);
    lemma_filter_activations(activated, drop);
    assert(s == remove_entries(entries, activated, key, layer));
    assert(t == remove_activations(activated, layer));
    assert forall|i: int| 0 <= i < t.len() implies key_on_stack(s, #[trigger] t[i].2) by {
        assert(activated.contains(t[i]));
        let a = choose|a: int| 0 <= a < activated.len() && activated[a] == t[i];
        let w = choose|w: int| 0 <= w < entries.len() && #[trigger] entries[w].0 == activated[a].2;
        // The key of a kept activation is not among the deactivated keys.
        assert(!dk.contains(t[i].2)) by {
            if dk.contains(t[i].2) {
                let d = choose|d: int| 0 <= d < dk.len() && dk[d] == t[i].2;
                let fd = activated.filter(drop);
                assert(fd.contains(fd[d]));
                let b = choose|b: int| 0 <= b < activated.len() && activated[b] == fd[d];
                assert(requires_layer(activated[b], layer));
                assert(a != b);
                if a < b {
                    assert(activated[a].2 != activated[b].2);
                } else {
                    assert(activated[b].2 != activated[a].2);
                }
            }
        }
        assert(pred(entries[w]));
        assert(s.contains(entries[w]));
        let v = choose|v: int| 0 <= v < s.len() && s[v] == entries[w];
        assert(s[v].0 == t[i].2);
    }
    if s.len() > 0 {
        assert(entries.contains(s[s.len() - 1]));
        let w = choose|w: int| 0 <= w < entries.len() && entries[w] == s[s.len() - 1];
        if w < entries.len() - 1 {
            assert(entries[w].0 < entries[entries.len() - 1].0);
        }
    }
    assert forall|i: int, j: int| #![trigger t[i], t[j]] 0 <= i < j < t.len() implies t[i].2 != t[j].2 by {
        let (a, b) = choose|a: int, b: int| 0 <= a < b < activated.len() && activated[a] == t[i] && activated[b] == t[j];
    }
}

} // verus!

verus! {

/// Type for managing the currently active layers.
///
/// Internally a stack-like datastructure is used to keep track of the order in which the layers
/// got activated. When pushing a new layer ID to the [`LayerManager`] it becomes the active one
/// and a [`LayerManagerEntry`] is returned that can be used to deactivate the layer again.
pub struct LayerManager<const CONDITIONAL_LAYER_SLOTS: usize> {
    inner: LayerManagerInner,
}

impl LayerManager<0> {
    /// Creates a new [`LayerManager`] without any conditional layers.
    pub fn new() -> (r: Self)
        ensures
            r.inner().wf(),
            r.inner().entries() == Seq::<StackEntry>::empty(),
            r.inner().activated() == Seq::<Activation>::empty(),
            r.inner().conditional_layers() == Seq::<ConditionalLayer>::empty(),
    {
        Self { inner: LayerManagerInner::new(Vec::new()) }
    }
}

impl Default for LayerManager<0> {
    fn default() -> (r: Self)
        ensures
            r.inner().wf(),
            r.inner().entries() == Seq::<StackEntry>::empty(),
            r.inner().activated() == Seq::<Activation>::empty(),
            r.inner().conditional_layers() == Seq::<ConditionalLayer>::empty(),
    {
        Self::new()
    }
}

impl<const N: usize> LayerManager<N> {
    /// The state of the layer stack.
    pub closed spec fn inner(&self) -> LayerManagerInner {
        self.inner
    }

    /// Creates a new [`LayerManager`] with the specified conditional layers.
    pub fn with_conditional_layers(conditional_layers: [ConditionalLayer; N]) -> (r: Self)
        ensures
            r.inner().wf(),
            r.inner().entries() == Seq::<StackEntry>::empty(),
            r.inner().activated() == Seq::<Activation>::empty(),
            r.inner().conditional_layers() == conditional_layers@,
    {
        let mut v: Vec<ConditionalLayer> = Vec::new();
        let mut i: usize = 0;
        while i < N
            invariant
                i <= N,
                conditional_layers@.len() == N,
                v@ == conditional_layers@.take(i as int),
            decreases N - i,
        {
            v.push(conditional_layers[i]);
            proof {
                assert(conditional_layers@.take(i as int + 1) == conditional_layers@.take(
                    i as int,
                ).push(conditional_layers@[i as int]));
            }
            i += 1;
        }
        proof {
            assert(conditional_layers@.take(N as int) == conditional_layers@);
        }
        Self { inner: LayerManagerInner::new(v) }
    }

    /// Returns the ID of the currently active layer (i.e. the layer ID that was last pushed to
    /// the stack).
    pub fn active(&self) -> (r: LayerId)
        ensures
            r == top_layer(self.inner().entries()),
    {
        self.inner.active()
    }

    /// Sets the active layer to the layer with the specified ID.
    pub fn push(&mut self, layer: LayerId) -> (entry: LayerManagerEntry)
        requires
            old(self).inner().wf(),
            old(self).inner().can_push(),
        ensures
            final(self).inner().wf(),
            (final(self).inner().entries(), final(self).inner().activated()) == push_result(
                old(self).inner().entries(),
                old(self).inner().activated(),
                old(self).inner().conditional_layers(),
                layer,
            ),
            final(self).inner().conditional_layers() == old(self).inner().conditional_layers(),
            entry.key() == next_key(old(self).inner().entries()),
            final(self).inner().holds_entry(entry),
    {
        self.inner.push(layer)
    }

    /// Deactivates the layer that was pushed to the stack with the specified
    /// [`LayerManagerEntry`].
    pub fn remove(&mut self, entry: LayerManagerEntry) -> (r: LayerId)
        requires
            old(self).inner().wf(),
            old(self).inner().holds_entry(entry),
        ensures
            final(self).inner().wf(),
            exists|i: int|
                0 <= i < old(self).inner().entries().len() && #[trigger] old(
                    self,
                ).inner().entries()[i] == (entry.key(), r),
            final(self).inner().entries() == remove_entries(
                old(self).inner().entries(),
                old(self).inner().activated(),
                entry.key(),
                r,
            ),
            final(self).inner().activated() == remove_activations(old(self).inner().activated(), r),
            final(self).inner().conditional_layers() == old(self).inner().conditional_layers(),
            next_key(final(self).inner().entries()) <= next_key(old(self).inner().entries()),
    {
        self.inner.remove(entry)
    }

    /// Returns a view of the layer manager that does not depend on the number of conditional
    /// layers. The layer manager takes over the state of the view when the view is dropped.
    pub fn to_query(&mut self) -> (q: LayerManagerQuery<'_>)
        ensures
            *q.inner == old(self).inner(),
            final(self).inner() == *final(q.inner),
    {
        LayerManagerQuery { inner: &mut self.inner }
    }
}

/// State query type for [`LayerManager`].
///
/// This type can be used to access the layer manager when the number of its conditional layers is
/// not known.
pub struct LayerManagerQuery<'a> {
    pub inner: &'a mut LayerManagerInner,
}

impl<'a> LayerManagerQuery<'a> {
    /// Returns the ID of the currently active layer (i.e. the layer ID that was last pushed to
    /// the stack).
    pub fn active(&self) -> (r: LayerId)
        ensures
            r == top_layer(old(self.inner).entries()),
    {
        self.inner.active()
    }

    /// Sets the active layer to the layer with the specified ID.
    pub fn push(&mut self, layer: LayerId) -> (entry: LayerManagerEntry)
        requires
            old(self).inner.wf(),
            old(self).inner.can_push(),
        ensures
            final(self).inner.wf(),
            (final(self).inner.entries(), final(self).inner.activated()) == push_result(
                old(self).inner.entries(),
                old(self).inner.activated(),
                old(self).inner.conditional_layers(),
                layer,
            ),
            final(self).inner.conditional_layers() == old(self).inner.conditional_layers(),
            entry.key() == next_key(old(self).inner.entries()),
            final(self).inner.holds_entry(entry),
            *final(final(self).inner) == *final(old(self).inner),
    {
        self.inner.push(layer)
    }

    /// Deactivates the layer that was pushed to the stack with the specified
    /// [`LayerManagerEntry`].
    pub fn remove(&mut self, entry: LayerManagerEntry) -> (r: LayerId)
        requires
            old(self).inner.wf(),
            old(self).inner.holds_entry(entry),
        ensures
            final(self).inner.wf(),
            exists|i: int|
                0 <= i < old(self).inner.entries().len() && #[trigger] old(
                    self,
                ).inner.entries()[i] == (entry.key(), r),
            final(self).inner.entries() == remove_entries(
                old(self).inner.entries(),
                old(self).inner.activated(),
                entry.key(),
                r,
            ),
            final(self).inner.activated() == remove_activations(old(self).inner.activated(), r),
            final(self).inner.conditional_layers() == old(self).inner.conditional_layers(),
            next_key(final(self).inner.entries()) <= next_key(old(self).inner.entries()),
            *final(final(self).inner) == *final(old(self).inner),
    {
        self.inner.remove(entry)
    }
}

} // verus!

verus! {

proof fn lemma_activate_extends(
    entries: Seq<StackEntry>,
    activated: Seq<Activation>,
    conds: Seq<ConditionalLayer>,
)
    ensures
        activate_conditional(entries, activated, conds).0.len() - entries.len()
            == activate_conditional(entries, activated, conds).1.len() - activated.len(),
        activate_conditional(entries, activated, conds).0.len() >= entries.len(),
        activate_conditional(entries, activated, conds).0.take(entries.len() as int) == entries,
        activate_conditional(entries, activated, conds).1.take(activated.len() as int)
            == activated,
    decreases conds.len(),
{
    if conds.len() > 0 {
        lemma_activate_extends(entries, activated, conds.drop_last());
        let prev = activate_conditional(entries, activated, conds.drop_last());
        let res = activate_conditional(entries, activated, conds);
        if requirements_met(prev.0, conds.last()) {
            assert(res.0.take(entries.len() as int) =~= prev.0.take(entries.len() as int));
            assert(res.1.take(activated.len() as int) =~= prev.1.take(activated.len() as int));
        }
    }
}

proof fn lemma_on_stack_prefix(s: Seq<StackEntry>, t: Seq<StackEntry>, layer: LayerId)
    requires
        t.len() >= s.len(),
        t.take(s.len() as int) == s,
        layer_on_stack(s, layer),
    ensures
        layer_on_stack(t, layer),
{
    let w = choose|w: int| 0 <= w < s.len() && #[trigger] s[w].1 == layer;
    assert(t.take(s.len() as int)[w] == t[w]);
    assert(t[w].1 == layer);
}

/// Pushing a layer on a layer manager without conditional layers puts exactly that layer on top
/// of the stack, under a fresh key, and activates no conditional layer.
pub proof fn law_push_without_conditional_layers(
    entries: Seq<StackEntry>,
    activated: Seq<Activation>,
    layer: LayerId,
)
    ensures
        push_result(entries, activated, Seq::empty(), layer) == (
            entries.push((next_key(entries) as u64, layer)),
            activated,
        ),
        top_layer(push_result(entries, activated, Seq::empty(), layer).0) == layer,
{
}

/// Whenever all layers that a conditional layer requires are active after a push, the push
/// activates the conditional layer's `then_layer` as well.
pub proof fn law_conditional_layer_follows_requirements(
    entries: Seq<StackEntry>,
    activated: Seq<Activation>,
    conds: Seq<ConditionalLayer>,
    layer: LayerId,
    i: int,
)
    requires
        0 <= i < conds.len(),
        requirements_met(entries.push((next_key(entries) as u64, layer)), conds[i]),
    ensures
        layer_on_stack(push_result(entries, activated, conds, layer).0, conds[i].then_layer),
    decreases conds.len(),
{
    let start = entries.push((next_key(entries) as u64, layer));
    let prev = activate_conditional(start, activated, conds.drop_last());
    let res = activate_conditional(start, activated, conds);
    lemma_activate_extends(start, activated, conds.drop_last());
    if i == conds.len() - 1 {
        lemma_on_stack_prefix(start, prev.0, conds[i].required@[0]);
        lemma_on_stack_prefix(start, prev.0, conds[i].required@[1]);
        assert(res.0[res.0.len() - 1].1 == conds[i].then_layer);
    } else {
        law_conditional_layer_follows_requirements(
            entries,
            activated,
            conds.drop_last(),
            layer,
            i,
        );
        assert(conds.drop_last()[i] == conds[i]);
        if requirements_met(prev.0, conds.last()) {
            assert(res.0.take(prev.0.len() as int) =~= prev.0);
            lemma_on_stack_prefix(prev.0, res.0, conds[i].then_layer);
        }
    }
}

/// The entries that activating conditional layers adds come after the given ones with the
/// following keys in order, and each has the key of the activation added at the same position.
proof fn lemma_activate_new_keys(
    entries: Seq<StackEntry>,
    activated: Seq<Activation>,
    conds: Seq<ConditionalLayer>,
)
    requires
        next_key(entries) + conds.len() <= u64::MAX,
    ensures
        ({
            let res = activate_conditional(entries, activated, conds);
            let n = entries.len() as int;
            let a = activated.len() as int;
            &&& res.0.len() - n <= conds.len()
            &&& forall|j: int|
                0 <= j < res.0.len() - n ==> #[trigger] res.0[n + j].0 == next_key(entries) + j
                    && res.1[a + j].2 == next_key(entries) + j
        }),
    decreases conds.len(),
{
    lemma_activate_extends(entries, activated, conds);
    if conds.len() > 0 {
        lemma_activate_new_keys(entries, activated, conds.drop_last());
        lemma_activate_extends(entries, activated, conds.drop_last());
        let prev = activate_conditional(entries, activated, conds.drop_last());
        let res = activate_conditional(entries, activated, conds);
        let n = entries.len() as int;
        let a = activated.len() as int;
        let m = prev.0.len() - n;
        if requirements_met(prev.0, conds.last()) {
            assert(next_key(prev.0) == next_key(entries) + m) by {
                if m > 0 {
                    assert(prev.0[n + (m - 1)].0 == next_key(entries) + (m - 1));
                } else {
                    assert(prev.0 =~= prev.0.take(n));
                }
            }
            assert forall|j: int| 0 <= j < res.0.len() - n implies #[trigger] res.0[n + j].0
                == next_key(entries) + j && res.1[a + j].2 == next_key(entries) + j by {
                if j < m {
                    assert(res.0[n + j] == prev.0[n + j]);
                    assert(res.1[a + j] == prev.1[a + j]);
                }
            }
        }
    }
}

/// Removing a layer drops exactly the activations that require it; when those are exactly the
/// ones added last, the earlier ones remain, and the deactivated keys are those of the new ones.
#[verifier::spinoff_prover]
proof fn lemma_remove_new_activations(activated: Seq<Activation>, new: Seq<Activation>, layer: LayerId)
    requires
        forall|i: int| 0 <= i < activated.len() ==> !requires_layer(#[trigger] activated[i], layer),
        forall|j: int| 0 <= j < new.len() ==> requires_layer(#[trigger] new[j], layer),
    ensures
        remove_activations(activated + new, layer) == activated,
        deactivated_keys(activated + new, layer).len() == new.len(),
        forall|j: int|
            0 <= j < new.len() ==> #[trigger] deactivated_keys(activated + new, layer)[j] == new[j].2,
{
    let keep = keeps_activation(layer);
    let drop = drops_activation(layer);
    lemma_filter_all(activated, drop, keep);
    lemma_filter_all(new, keep, drop);
    Seq::filter_distributes_over_add(activated, new, keep);
    Seq::filter_distributes_over_add(activated, new, drop);
    assert((activated + new).filter(keep) =~= activated);
    assert((activated + new).filter(drop) =~= new);
}

/// Removing the pushed entry, together with the entries after it whose keys are deactivated,
/// leaves the entries before it.
proof fn lemma_remove_pushed_entries(
    entries: Seq<StackEntry>,
    x: Seq<StackEntry>,
    a2: Seq<Activation>,
    k: u64,
    layer: LayerId,
)
    requires
        forall|i: int| 0 <= i < entries.len() ==> #[trigger] entries[i].0 < k,
        deactivated_keys(a2, layer).len() == x.len(),
        forall|j: int| 0 <= j < x.len() ==> #[trigger] x[j].0 == deactivated_keys(a2, layer)[j],
        forall|j: int| 0 <= j < x.len() ==> #[trigger] deactivated_keys(a2, layer)[j] > k,
    ensures
        (entries.push((k, layer)) + x).filter(keeps_entry(a2, k, layer)) == entries,
{
    let pred = keeps_entry(a2, k, layer);
    let dk = deactivated_keys(a2, layer);
    assert forall|i: int| 0 <= i < entries.len() implies pred(entries[i]) by {
        assert(entries[i].0 < k);
        if dk.contains(entries[i].0) {
            let j = choose|j: int| 0 <= j < dk.len() && dk[j] == entries[i].0;
            assert(dk[j] > k);
        }
    }
    lemma_filter_keeps_all(entries, pred);
    assert forall|j: int| 0 <= j < x.len() implies !pred(x[j]) by {
        assert(dk[j] == x[j].0);
        assert(dk.contains(x[j].0));
    }
    lemma_filter_drops_all(x, pred);
    let start = entries.push((k, layer));
    Seq::filter_distributes_over_add(start, x, pred);
    reveal_with_fuel(Seq::filter, 1);
    assert(start.drop_last() == entries);
    assert(start.filter(pred) == entries);
    assert((start + x).filter(pred) =~= entries);
}

/// After a push, the stack is the old one, the pushed entry with the next key, and the entries of
/// the activated conditional layers with the keys after it, one for each new activation.
#[verifier::spinoff_prover]
proof fn lemma_push_result_shape(
    entries: Seq<StackEntry>,
    activated: Seq<Activation>,
    conds: Seq<ConditionalLayer>,
    layer: LayerId,
) -> (parts: (Seq<StackEntry>, Seq<Activation>))
    requires
        next_key(entries) + conds.len() < u64::MAX,
    ensures
        ({
            let (e2, a2) = push_result(entries, activated, conds, layer);
            let k = next_key(entries);
            let (x, new) = parts;
            &&& e2 == entries.push((k as u64, layer)) + x
            &&& a2 == activated + new
            &&& x.len() == new.len()
            &&& forall|j: int| 0 <= j < x.len() ==> #[trigger] x[j].0 == k + 1 + j
            &&& forall|j: int| 0 <= j < new.len() ==> #[trigger] new[j].2 == k + 1 + j
        }),
{
    let k = next_key(entries) as u64;
    let start = entries.push((k, layer));
    let (e2, a2) = push_result(entries, activated, conds, layer);
    let n = entries.len() as int;
    let an = activated.len() as int;
    assert(next_key(start) == k + 1);
    lemma_activate_extends(start, activated, conds);
    lemma_activate_new_keys(start, activated, conds);
    let x = e2.skip(n + 1);
    let new = a2.skip(an);
    assert(e2 =~= start + x);
    assert(a2 =~= activated + new);
    assert forall|j: int| 0 <= j < x.len() implies #[trigger] x[j].0 == k + 1 + j by {
        assert(x[j] == e2[n + 1 + j]);
        assert(e2[n + 1 + j].0 == next_key(start) + j);
    }
    assert forall|j: int| 0 <= j < new.len() implies #[trigger] new[j].2 == k + 1 + j by {
        assert(new[j] == a2[an + j]);
        assert(e2[n + 1 + j].0 == next_key(start) + j);
        assert(a2[an + j].2 == next_key(start) + j);
    }
    (x, new)
}

/// On a well-formed stack every key lies below the next key.
proof fn lemma_keys_below_next(entries: Seq<StackEntry>, activated: Seq<Activation>)
    requires
        stack_wf(entries, activated),
    ensures
        forall|i: int| 0 <= i < entries.len() ==> #[trigger] entries[i].0 < next_key(entries),
{
    let n = entries.len() as int;
    assert forall|i: int| 0 <= i < n implies #[trigger] entries[i].0 < next_key(entries) by {
        if i < n - 1 {
            assert(entries[i].0 < entries[n - 1].0);
        }
    }
}

/// Removing the pushed entry from a stack of the shape that a push leaves (see
/// [`lemma_push_result_shape`]) gives back the stack and the activations before the push, when
/// exactly the new activations require the pushed layer.
#[verifier::spinoff_prover]
#[verifier::rlimit(60)]
proof fn lemma_undo_push_parts(
    entries: Seq<StackEntry>,
    activated: Seq<Activation>,
    x: Seq<StackEntry>,
    new: Seq<Activation>,
    layer: LayerId,
    k: u64,
)
    requires
        forall|i: int| 0 <= i < entries.len() ==> #[trigger] entries[i].0 < k,
        forall|i: int| 0 <= i < activated.len() ==> !requires_layer(#[trigger] activated[i], layer),
        forall|j: int| 0 <= j < new.len() ==> requires_layer(#[trigger] new[j], layer),
        x.len() == new.len(),
        forall|j: int| 0 <= j < x.len() ==> #[trigger] x[j].0 == k + 1 + j,
        forall|j: int| 0 <= j < new.len() ==> #[trigger] new[j].2 == k + 1 + j,
    ensures
        remove_entries(entries.push((k, layer)) + x, activated + new, k, layer) == entries,
        remove_activations(activated + new, layer) == activated,
{
    let a2 = activated + new;
    lemma_remove_new_activations(activated, new, layer);
    lemma_remove_pushed_entries(entries, x, a2, k, layer);
}

/// In a stack of the shape that a push leaves, the pushed entry is the only one with its key.
proof fn lemma_pushed_key_is_unique(entries: Seq<StackEntry>, x: Seq<StackEntry>, layer: LayerId, k: u64)
    requires
        forall|i: int| 0 <= i < entries.len() ==> #[trigger] entries[i].0 < k,
        forall|j: int| 0 <= j < x.len() ==> #[trigger] x[j].0 == k + 1 + j,
    ensures
        forall|i: int|
            0 <= i < (entries.push((k, layer)) + x).len() && #[trigger] (entries.push((k, layer))
                + x)[i].0 == k ==> (entries.push((k, layer)) + x)[i].1 == layer,
{
    let e2 = entries.push((k, layer)) + x;
    let n = entries.len() as int;
    assert forall|i: int| 0 <= i < e2.len() && #[trigger] e2[i].0 == k implies e2[i].1 == layer by {
        if i < n {
            assert(e2[i] == entries[i]);
        } else if i > n {
            assert(e2[i] == x[i - n - 1]);
        }
    }
}

/// Removing the entry that a push returned undoes the push, and gives back the pushed layer,
/// when no conditional layer that was active before requires the pushed layer and every
/// conditional layer that the push activated requires it.
#[verifier::spinoff_prover]
#[verifier::rlimit(60)]
pub proof fn law_remove_undoes_push(
    entries: Seq<StackEntry>,
    activated: Seq<Activation>,
    conds: Seq<ConditionalLayer>,
    layer: LayerId,
)
    requires
        stack_wf(entries, activated),
        next_key(entries) + conds.len() < u64::MAX,
        forall|i: int| 0 <= i < activated.len() ==> !requires_layer(#[trigger] activated[i], layer),
        forall|i: int|
            activated.len() <= i < push_result(entries, activated, conds, layer).1.len()
                ==> requires_layer(#[trigger] push_result(entries, activated, conds, layer).1[i], layer),
    ensures
        ({
            let (e2, a2) = push_result(entries, activated, conds, layer);
            let k = next_key(entries) as u64;
            &&& forall|i: int| 0 <= i < e2.len() && #[trigger] e2[i].0 == k ==> e2[i].1 == layer
            &&& remove_entries(e2, a2, k, layer) == entries
            &&& remove_activations(a2, layer) == activated
        }),
{
    let pushed = push_result(entries, activated, conds, layer);
    let k = next_key(entries) as u64;
    let (x, new) = lemma_push_result_shape(entries, activated, conds, layer);
    let an = activated.len() as int;
    assert forall|j: int| 0 <= j < new.len() implies requires_layer(#[trigger] new[j], layer) by {
        assert(pushed.1[an + j] == new[j]);
    }
    lemma_keys_below_next(entries, activated);
    lemma_undo_push_parts(entries, activated, x, new, layer, k);
    lemma_pushed_key_is_unique(entries, x, layer, k);
}

/// On a layer manager without conditional layers (such as every `LayerManager<0>` and its
/// query), removing the entry that a push returned gives back the pushed layer and leaves the
/// stack, and so the active layer, as it was before the push; while the entry is on the stack its
/// layer is the active one.
pub proof fn law_remove_undoes_push_without_conditional_layers(
    entries: Seq<StackEntry>,
    activated: Seq<Activation>,
    layer: LayerId,
)
    requires
        manager_wf(entries, activated, Seq::<ConditionalLayer>::empty()),
        next_key(entries) < u64::MAX,
    ensures
        activated.len() == 0,
        ({
            let conds = Seq::<ConditionalLayer>::empty();
            let (e2, a2) = push_result(entries, activated, conds, layer);
            let k = next_key(entries) as u64;
            &&& top_layer(e2) == layer
            &&& a2 == activated
            &&& forall|i: int| 0 <= i < e2.len() && #[trigger] e2[i].0 == k ==> e2[i].1 == layer
            &&& remove_entries(e2, a2, k, layer) == entries
            &&& remove_activations(a2, layer) == activated
            &&& top_layer(remove_entries(e2, a2, k, layer)) == top_layer(entries)
        }),
{
    let conds = Seq::<ConditionalLayer>::empty();
    if activated.len() > 0 {
        assert(configured(activated[0], conds));
    }
    let pushed = push_result(entries, activated, conds, layer);
    assert(pushed.1 == activated);
    law_remove_undoes_push(entries, activated, conds, layer);
}

/// A call on a layer manager: a push of a layer, or a remove of the entry that the push at the
/// given position among the calls returned.
#[derive(Debug, Clone, Copy)]
pub enum LayerCall {
    Push(LayerId),
    Remove(usize),
}

/// The stack after making `calls` in order on a new layer manager without conditional layers,
/// each as [`LayerManager::push`] and [`LayerManager::remove`] state it, and the key of the entry
/// that each call returned (0 for a remove).
pub open spec fn run_calls(calls: Seq<LayerCall>) -> (Seq<StackEntry>, Seq<u64>)
    decreases calls.len(),
{
    if calls.len() == 0 {
        (Seq::empty(), Seq::empty())
    } else {
        let (entries, keys) = run_calls(calls.drop_last());
        match calls.last() {
            LayerCall::Push(layer) => (
                push_result(entries, Seq::empty(), Seq::empty(), layer).0,
                keys.push(next_key(entries) as u64),
            ),
            LayerCall::Remove(i) => {
                let k = keys[i as int];
                (remove_entries(entries, Seq::empty(), k, entry_layer(entries, k)), keys.push(0))
            },
        }
    }
}

/// Whether the call removes the entry of the call at position `j`.
pub open spec fn removes(call: LayerCall, j: int) -> bool {
    call matches LayerCall::Remove(i) && i == j
}

/// Whether the call at position `j` is a push whose entry no later call removed.
pub open spec fn live_push(calls: Seq<LayerCall>, j: int) -> bool {
    &&& 0 <= j < calls.len()
    &&& calls[j] is Push
    &&& forall|m: int| j < m < calls.len() ==> !#[trigger] removes(calls[m], j)
}

/// The layer that the call pushes.
pub open spec fn pushed_layer(call: LayerCall) -> LayerId {
    match call {
        LayerCall::Push(layer) => layer,
        LayerCall::Remove(_) => LayerId(0),
    }
}

/// Whether every remove names an earlier push whose entry is still on the stack, and the keys
/// cannot run out.
pub open spec fn valid_calls(calls: Seq<LayerCall>) -> bool {
    &&& calls.len() < u64::MAX
    &&& forall|m: int|
        0 <= m < calls.len() && #[trigger] calls[m] is Remove ==> live_push(
            calls.take(m),
            calls[m]->Remove_0 as int,
        )
}

proof fn lemma_removes_nothing_empty(layer: LayerId)
    ensures
        deactivated_keys(Seq::<Activation>::empty(), layer) == Seq::<u64>::empty(),
        remove_activations(Seq::<Activation>::empty(), layer) == Seq::<Activation>::empty(),
{
    reveal_with_fuel(Seq::filter, 1);
    assert(deactivated_keys(Seq::<Activation>::empty(), layer) =~= Seq::<u64>::empty());
}

proof fn lemma_filter_from<A>(s: Seq<A>, pred: spec_fn(A) -> bool)
    ensures
        forall|i: int|
            0 <= i < s.filter(pred).len() ==> pred(#[trigger] s.filter(pred)[i]) && s.contains(
                s.filter(pred)[i],
            ),
    decreases s.len(),
{
    reveal_with_fuel(Seq::filter, 1);
    s.filter_lemma(pred);
    if s.len() > 0 {
        lemma_filter_from(s.drop_last(), pred);
        let sub = s.drop_last().filter(pred);
        assert forall|i: int| 0 <= i < s.filter(pred).len() implies s.contains(
            #[trigger] s.filter(pred)[i],
        ) by {
            if i < sub.len() {
                assert(s.filter(pred)[i] == sub[i]);
                let w = choose|w: int| 0 <= w < s.drop_last().len() && s.drop_last()[w] == sub[i];
                assert(s[w] == sub[i]);
            } else {
                assert(s.filter(pred)[i] == s[s.len() - 1]);
            }
        }
    }
}

/// What the stack is after a run of calls: well formed, and holding exactly the entries of the
/// pushes that no call removed, with keys that grow with the position of the push.
pub open spec fn run_invariant(calls: Seq<LayerCall>) -> bool {
    let (entries, keys) = run_calls(calls);
    &&& stack_wf(entries, Seq::empty())
    &&& keys.len() == calls.len()
    &&& next_key(entries) <= calls.len()
    &&& forall|j: int| #[trigger] live_push(calls, j) ==> entries.contains((keys[j], pushed_layer(calls[j])))
    &&& forall|i: int|
        0 <= i < entries.len() ==> exists|j: int| #[trigger] live_push(calls, j) && #[trigger] entries[i] == (keys[j], pushed_layer(calls[j]))
    &&& forall|j1: int, j2: int| #[trigger] live_push(calls, j1) && #[trigger] live_push(calls, j2) && j1 < j2 ==> keys[j1] < keys[j2]
}

proof fn lemma_run_invariant(calls: Seq<LayerCall>)
    requires
        valid_calls(calls),
    ensures
        run_invariant(calls),
    decreases calls.len(),
{
    if calls.len() > 0 {
        let prev = calls.drop_last();
        let n = prev.len() as int;
        assert(valid_calls(prev)) by {
            assert forall|m: int| 0 <= m < prev.len() && #[trigger] prev[m] is Remove implies live_push(
                prev.take(m),
                prev[m]->Remove_0 as int,
            ) by {
                assert(calls[m] is Remove);
                assert(prev.take(m) =~= calls.take(m));
            }
        }
        lemma_run_invariant(prev);
        let (entries, keys) = run_calls(prev);
        let (e2, k2) = run_calls(calls);
        let empty = Seq::<Activation>::empty();
        let c = calls.last();
        assert(forall|j: int| 0 <= j < n ==> prev[j] == #[trigger] calls[j]);
        // Liveness after the new call.
        assert forall|j: int| 0 <= j < n implies (#[trigger] live_push(calls, j) <==> (live_push(prev, j)
            && !removes(c, j))) by {
            if live_push(calls, j) {
                assert forall|m: int| j < m < prev.len() implies !#[trigger] removes(prev[m], j) by {
                    assert(!removes(calls[m], j));
                }
            }
            if live_push(prev, j) && !removes(c, j) {
                assert forall|m: int| j < m < calls.len() implies !#[trigger] removes(calls[m], j) by {
                    if m < n {
                        assert(!removes(prev[m], j));
                    }
                }
            }
        }
        match c {
            LayerCall::Push(layer) => {
                let k = next_key(entries) as u64;
                lemma_push_keeps_wf(entries, empty, (k, layer));
                assert(push_result(entries, empty, Seq::<ConditionalLayer>::empty(), layer).0 == entries.push((k, layer)));
                assert(e2 == entries.push((k, layer)));
                assert(k2 == keys.push(k));
                assert(live_push(calls, n));
                assert forall|j: int| #[trigger] live_push(calls, j) implies e2.contains((k2[j], pushed_layer(calls[j]))) by {
                    if j < n {
                        assert(live_push(prev, j));
                        let w = choose|w: int| 0 <= w < entries.len() && entries[w] == (keys[j], pushed_layer(prev[j]));
                        assert(e2[w] == entries[w]);
                    } else {
                        assert(e2[entries.len() as int] == (k, layer));
                        assert(k2[n] == k);
                    }
                }
                assert forall|i: int| 0 <= i < e2.len() implies exists|j: int| #[trigger] live_push(calls, j) && #[trigger] e2[i] == (k2[j], pushed_layer(calls[j])) by {
                    if i < entries.len() {
                        let j = choose|j: int| #[trigger] live_push(prev, j) && entries[i] == (keys[j], pushed_layer(prev[j]));
                        assert(live_push(calls, j));
                        assert(e2[i] == entries[i]);
                    } else {
                        assert(live_push(calls, n) && e2[i] == (k2[n], pushed_layer(calls[n])));
                    }
                }
                assert forall|j1: int, j2: int| #[trigger] live_push(calls, j1) && #[trigger] live_push(calls, j2) && j1 < j2 implies k2[j1] < k2[j2] by {
                    if j2 < n {
                        assert(live_push(prev, j1) && live_push(prev, j2));
                    } else {
                        assert(live_push(prev, j1));
                        let w = choose|w: int| 0 <= w < entries.len() && entries[w] == (keys[j1], pushed_layer(prev[j1]));
                        if w < entries.len() - 1 {
                            assert(entries[w].0 < entries[entries.len() - 1].0);
                        }
                    }
                }
            },
            LayerCall::Remove(r) => {
                let r = r as int;
                assert(live_push(calls.take(n), r));
                assert(calls.take(n) =~= prev);
                let k = keys[r];
                let layer = entry_layer(entries, k);
                lemma_removes_nothing_empty(layer);
                lemma_remove_keeps_wf(entries, empty, k, layer);
                let pred = keeps_entry(empty, k, layer);
                assert(e2 == entries.filter(pred));
                assert(k2 == keys.push(0));
                assert(!live_push(calls, n));
                lemma_filter_from(entries, pred);
                entries.filter_lemma(pred);
                assert forall|j: int| #[trigger] live_push(calls, j) implies e2.contains((k2[j], pushed_layer(calls[j]))) by {
                    assert(j < n);
                    assert(live_push(prev, j));
                    assert(j != r);
                    let w = choose|w: int| 0 <= w < entries.len() && entries[w] == (keys[j], pushed_layer(prev[j]));
                    if j < r {
                        assert(keys[j] < keys[r]);
                    } else {
                        assert(keys[r] < keys[j]);
                    }
                    assert(pred(entries[w]));
                    assert(e2.contains(entries[w]));
                }
                assert forall|i: int| 0 <= i < e2.len() implies exists|j: int| #[trigger] live_push(calls, j) && #[trigger] e2[i] == (k2[j], pushed_layer(calls[j])) by {
                    assert(pred(e2[i]) && entries.contains(e2[i]));
                    let w = choose|w: int| 0 <= w < entries.len() && entries[w] == e2[i];
                    let j = choose|j: int| #[trigger] live_push(prev, j) && entries[w] == (keys[j], pushed_layer(prev[j]));
                    assert(j != r);
                    assert(live_push(calls, j));
                }
                assert forall|j1: int, j2: int| #[trigger] live_push(calls, j1) && #[trigger] live_push(calls, j2) && j1 < j2 implies k2[j1] < k2[j2] by {
                    assert(live_push(prev, j1) && live_push(prev, j2));
                }
            },
        }
    }
}

/// On a layer manager without conditional layers, after any valid sequence of pushes and
/// removes, the stack holds exactly the entries of the pushes that were not removed, and the
/// active layer is the layer of the most recent push that was not removed, or layer 0 when every
/// push was removed.
pub proof fn law_active_is_latest_unremoved_push(calls: Seq<LayerCall>)
    requires
        valid_calls(calls),
    ensures
        ({
            let (entries, keys) = run_calls(calls);
            &&& forall|j: int| #[trigger] live_push(calls, j) ==> entries.contains((keys[j], pushed_layer(calls[j])))
            &&& forall|i: int|
                0 <= i < entries.len() ==> exists|j: int| #[trigger] live_push(calls, j) && #[trigger] entries[i] == (keys[j], pushed_layer(calls[j]))
            &&& forall|j: int|
                #[trigger] live_push(calls, j) && (forall|m: int| j < m < calls.len() ==> !live_push(calls, m))
                    ==> top_layer(entries) == pushed_layer(calls[j])
            &&& (forall|j: int| !live_push(calls, j)) ==> top_layer(entries) == LayerId(0)
        }),
{
    lemma_run_invariant(calls);
    let (entries, keys) = run_calls(calls);
    assert forall|j: int|
        #[trigger] live_push(calls, j) && (forall|m: int| j < m < calls.len() ==> !live_push(calls, m))
            implies top_layer(entries) == pushed_layer(calls[j]) by {
        let w = choose|w: int| 0 <= w < entries.len() && entries[w] == (keys[j], pushed_layer(calls[j]));
        let last = entries.len() - 1;
        let j0 = choose|j0: int| #[trigger] live_push(calls, j0) && entries[last] == (keys[j0], pushed_layer(calls[j0]));
        if w < last {
            assert(entries[w].0 < entries[last].0);
            if j0 < j {
                assert(keys[j0] < keys[j]);
            } else if j0 == j {
            } else {
                assert(!live_push(calls, j0));
            }
        }
    }
    if forall|j: int| !live_push(calls, j) {
        if entries.len() > 0 {
            let j0 = choose|j0: int| #[trigger] live_push(calls, j0) && entries[0] == (keys[j0], pushed_layer(calls[j0]));
        }
    }
}

proof fn lemma_filter_drops_all(s: Seq<StackEntry>, pred: spec_fn(StackEntry) -> bool)
    requires
        forall|i: int| 0 <= i < s.len() ==> !pred(s[i]),
    ensures
        s.filter(pred) == Seq::<StackEntry>::empty(),
    decreases s.len(),
{
    reveal_with_fuel(Seq::filter, 1);
    if s.len() > 0 {
        lemma_filter_drops_all(s.drop_last(), pred);
    }
}

proof fn lemma_filter_all(
    s: Seq<Activation>,
    none: spec_fn(Activation) -> bool,
    all: spec_fn(Activation) -> bool,
)
    requires
        forall|i: int| 0 <= i < s.len() ==> !none(s[i]) && all(s[i]),
    ensures
        s.filter(none) == Seq::<Activation>::empty(),
        s.filter(all) == s,
    decreases s.len(),
{
    reveal_with_fuel(Seq::filter, 1);
    if s.len() > 0 {
        lemma_filter_all(s.drop_last(), none, all);
        assert(s.drop_last().push(s.last()) =~= s);
    }
}

proof fn lemma_filter_keeps_all(s: Seq<StackEntry>, pred: spec_fn(StackEntry) -> bool)
    requires
        forall|i: int| 0 <= i < s.len() ==> pred(s[i]),
    ensures
        s.filter(pred) == s,
    decreases s.len(),
{
    reveal_with_fuel(Seq::filter, 1);
    if s.len() > 0 {
        lemma_filter_keeps_all(s.drop_last(), pred);
        assert(s.drop_last().push(s.last()) =~= s);
    }
}

/// After removing an entry, no activated conditional layer requires the removed layer any more.
pub proof fn law_remove_deactivates_dependents(activated: Seq<Activation>, layer: LayerId)
    ensures
        forall|i: int|
            0 <= i < remove_activations(activated, layer).len() ==> !requires_layer(
                #[trigger] remove_activations(activated, layer)[i],
                layer,
            ),
{
    let t = remove_activations(activated, layer);
    assert forall|i: int| 0 <= i < t.len() implies !requires_layer(#[trigger] t[i], layer) by {
        activated.lemma_filter_pred(keeps_activation(layer), i);
    }
}

/// Whether the activated conditional layer has the required layers of `c`.
pub open spec fn same_requirements(a: Activation, c: ConditionalLayer) -> bool {
    a.0 == c.required@[0] && a.1 == c.required@[1]
}

/// Whether a conditional layer with the required layers of `c` is activated.
pub open spec fn is_activated(activated: Seq<Activation>, c: ConditionalLayer) -> bool {
    exists|i: int| 0 <= i < activated.len() && #[trigger] same_requirements(activated[i], c)
}

/// Whether some conditional layer requires `layer`.
pub open spec fn is_required(conds: Seq<ConditionalLayer>, layer: LayerId) -> bool {
    exists|j: int|
        #![trigger conds[j]]
        0 <= j < conds.len() && (conds[j].required@[0] == layer || conds[j].required@[1] == layer)
}

/// Whether no conditional layer requires a layer that a conditional layer activates.
pub open spec fn then_layers_not_required(conds: Seq<ConditionalLayer>) -> bool {
    forall|j: int| 0 <= j < conds.len() ==> !is_required(conds, #[trigger] conds[j].then_layer)
}

/// How the activated conditional layers follow the stack: each conditional layer is activated
/// exactly when its required layers are on the stack; a required layer is on the stack at most
/// once; and no entry of an activated conditional layer has a required layer.
pub open spec fn conditions_hold(
    entries: Seq<StackEntry>,
    activated: Seq<Activation>,
    conds: Seq<ConditionalLayer>,
) -> bool {
    &&& forall|j: int|
        0 <= j < conds.len() ==> (is_activated(activated, #[trigger] conds[j]) <==> requirements_met(
            entries,
            conds[j],
        ))
    &&& forall|i1: int, i2: int|
        #![trigger entries[i1], entries[i2]]
        0 <= i1 < entries.len() && 0 <= i2 < entries.len() && entries[i1].1 == entries[i2].1
            && is_required(conds, entries[i1].1) ==> i1 == i2
    &&& forall|a: int, e: int|
        #![trigger activated[a], entries[e]]
        0 <= a < activated.len() && 0 <= e < entries.len() && activated[a].2 == entries[e].0
            ==> !is_required(conds, entries[e].1)
}

/// What activating the conditional layers `conds` on top of `base` does, for the conditional
/// layers `all` of the manager.
#[verifier::spinoff_prover]
#[verifier::rlimit(60)]
proof fn lemma_activation_parts(
    base: Seq<StackEntry>,
    activated: Seq<Activation>,
    conds: Seq<ConditionalLayer>,
    all: Seq<ConditionalLayer>,
)
    requires
        forall|j: int|
            0 <= j < conds.len() ==> !is_required(all, #[trigger] conds[j].then_layer)
                && is_required(all, conds[j].required@[0]) && is_required(all, conds[j].required@[1]),
        next_key(base) + conds.len() <= u64::MAX,
    ensures
        ({
            let (e, a) = activate_conditional(base, activated, conds);
            &&& (forall|j: int| 0 <= j < conds.len() ==> !requirements_met(base, #[trigger] conds[j]))
                ==> e == base
            &&& forall|j: int|
                0 <= j < conds.len() && requirements_met(base, #[trigger] conds[j]) && (forall|m: int|
                    j < m < conds.len() ==> !requirements_met(base, #[trigger] conds[m]))
                    ==> top_layer(e) == conds[j].then_layer
            &&& next_key(e) <= next_key(base) + conds.len()
            &&& e.len() >= base.len()
            &&& e.take(base.len() as int) == base
            &&& a.len() >= activated.len()
            &&& a.take(activated.len() as int) == activated
            &&& forall|i: int| base.len() <= i < e.len() ==> !is_required(all, #[trigger] e[i].1)
            &&& forall|i: int| base.len() <= i < e.len() ==> #[trigger] e[i].0 >= next_key(base)
            &&& forall|i: int| activated.len() <= i < a.len() ==> #[trigger] a[i].2 >= next_key(base)
            &&& forall|r: LayerId|
                is_required(all, r) ==> (#[trigger] layer_on_stack(e, r) <==> layer_on_stack(base, r))
            &&& forall|c: ConditionalLayer|
                is_required(all, c.required@[0]) && is_required(all, c.required@[1]) ==> (
                #[trigger] is_activated(a, c) <==> (is_activated(activated, c) || exists|j: int|
                    0 <= j < conds.len() && #[trigger] conds[j].required@ == c.required@
                        && requirements_met(base, conds[j])))
        }),
    decreases conds.len(),
{
    lemma_activate_extends(base, activated, conds);
    let (e, a) = activate_conditional(base, activated, conds);
    if conds.len() == 0 {
        assert forall|r: LayerId| is_required(all, r) implies (#[trigger] layer_on_stack(e, r)
            <==> layer_on_stack(base, r)) by {}
    } else {
        let rest = conds.drop_last();
        assert forall|j: int| 0 <= j < rest.len() implies !is_required(all, #[trigger] rest[j].then_layer)
            && is_required(all, rest[j].required@[0]) && is_required(all, rest[j].required@[1]) by {
            assert(rest[j] == conds[j]);
        }
        lemma_activation_parts(base, activated, rest, all);
        lemma_activate_extends(base, activated, rest);
        let (pe, pa) = activate_conditional(base, activated, rest);
        let c = conds.last();
        assert(!is_required(all, conds[conds.len() - 1].then_layer));
        // The requirements of a conditional layer of the manager are met on the grown stack exactly
        // when they are met on `base`.
        assert forall|r: LayerId| is_required(all, r) implies (#[trigger] layer_on_stack(pe, r)
            <==> layer_on_stack(base, r)) by {}
        if requirements_met(pe, c) {
            let k = next_key(pe) as u64;
            assert(k == next_key(pe));
            assert(e == pe.push((k, c.then_layer)));
            assert(a == pa.push((c.required@[0], c.required@[1], k)));
            assert(next_key(pe) >= next_key(base)) by {
                if pe.len() > base.len() {
                    assert(pe[pe.len() - 1].0 >= next_key(base));
                } else {
                    assert(pe =~= base);
                }
            }
            assert forall|r: LayerId| is_required(all, r) implies (#[trigger] layer_on_stack(e, r)
                <==> layer_on_stack(base, r)) by {
                if layer_on_stack(e, r) {
                    let w = choose|w: int| 0 <= w < e.len() && #[trigger] e[w].1 == r;
                    if w < pe.len() {
                        assert(pe[w].1 == r);
                    }
                }
                if layer_on_stack(pe, r) {
                    let w = choose|w: int| 0 <= w < pe.len() && #[trigger] pe[w].1 == r;
                    assert(e[w].1 == r);
                }
            }
            assert forall|i: int| base.len() <= i < e.len() implies !is_required(all, #[trigger] e[i].1) by {
                if i < pe.len() {
                    assert(e[i] == pe[i]);
                }
            }
            let last = conds.len() - 1;
            assert(conds[last] == c);
            assert(requirements_met(base, conds[last]));
            assert forall|j: int|
                0 <= j < conds.len() && requirements_met(base, #[trigger] conds[j]) && (forall|m: int|
                    j < m < conds.len() ==> !requirements_met(base, #[trigger] conds[m]))
                    implies top_layer(e) == conds[j].then_layer by {
                if j < last {
                    assert(!requirements_met(base, conds[last]));
                }
            }
            assert forall|i: int| base.len() <= i < e.len() implies #[trigger] e[i].0 >= next_key(base) by {
                if i < pe.len() {
                    assert(e[i] == pe[i]);
                }
            }
            assert forall|i: int| activated.len() <= i < a.len() implies #[trigger] a[i].2 >= next_key(base) by {
                if i < pa.len() {
                    assert(a[i] == pa[i]);
                }
            }
            assert forall|q: ConditionalLayer|
                is_required(all, q.required@[0]) && is_required(all, q.required@[1]) implies (
                #[trigger] is_activated(a, q) <==> (is_activated(activated, q) || exists|j: int|
                    0 <= j < conds.len() && #[trigger] conds[j].required@ == q.required@
                        && requirements_met(base, conds[j]))) by {
                if is_activated(a, q) {
                    let w = choose|w: int| 0 <= w < a.len() && #[trigger] same_requirements(a[w], q);
                    if w < pa.len() {
                        assert(a[w] == pa[w]);
                        assert(same_requirements(pa[w], q));
                        assert(is_activated(pa, q));
                        if !is_activated(activated, q) {
                            assert(exists|j: int|
                                0 <= j < rest.len() && #[trigger] rest[j].required@ == q.required@
                                    && requirements_met(base, rest[j]));
                            let j = choose|j: int|
                                0 <= j < rest.len() && #[trigger] rest[j].required@ == q.required@
                                    && requirements_met(base, rest[j]);
                            assert(conds[j] == rest[j]);
                            assert(conds[j].required@ == q.required@ && requirements_met(base, conds[j]));
                        }
                    } else {
                        assert(c.required@ =~= q.required@);
                        let last = conds.len() - 1;
                        assert(conds[last] == c);
                        assert(requirements_met(base, c));
                    }
                }
                if is_activated(activated, q) {
                    assert(is_activated(pa, q));
                    let w = choose|w: int| 0 <= w < pa.len() && #[trigger] same_requirements(pa[w], q);
                    assert(a[w] == pa[w]);
                }
                if exists|j: int|
                    0 <= j < conds.len() && #[trigger] conds[j].required@ == q.required@
                        && requirements_met(base, conds[j]) {
                    let j = choose|j: int|
                        0 <= j < conds.len() && #[trigger] conds[j].required@ == q.required@
                            && requirements_met(base, conds[j]);
                    if j < rest.len() {
                        assert(rest[j] == conds[j]);
                        assert(is_activated(pa, q));
                        let w = choose|w: int| 0 <= w < pa.len() && #[trigger] same_requirements(pa[w], q);
                        assert(a[w] == pa[w]);
                    } else {
                        assert(same_requirements(a[a.len() - 1], q));
                    }
                }
            }
        } else {
            assert(e == pe && a == pa);
            let last = conds.len() - 1;
            assert(conds[last] == c);
            assert(!requirements_met(base, conds[last]));
            assert forall|j: int|
                0 <= j < conds.len() && requirements_met(base, #[trigger] conds[j]) && (forall|m: int|
                    j < m < conds.len() ==> !requirements_met(base, #[trigger] conds[m]))
                    implies top_layer(e) == conds[j].then_layer by {
                assert(j < last);
                assert(rest[j] == conds[j]);
                assert forall|m: int| j < m < rest.len() implies !requirements_met(base, #[trigger] rest[m]) by {
                    assert(rest[m] == conds[m]);
                }
            }
            if forall|j: int| 0 <= j < conds.len() ==> !requirements_met(base, #[trigger] conds[j]) {
                assert forall|j: int| 0 <= j < rest.len() implies !requirements_met(base, #[trigger] rest[j]) by {
                    assert(rest[j] == conds[j]);
                }
            }
            assert forall|q: ConditionalLayer|
                is_required(all, q.required@[0]) && is_required(all, q.required@[1]) implies (
                #[trigger] is_activated(a, q) <==> (is_activated(activated, q) || exists|j: int|
                    0 <= j < conds.len() && #[trigger] conds[j].required@ == q.required@
                        && requirements_met(base, conds[j]))) by {
                if exists|j: int|
                    0 <= j < conds.len() && #[trigger] conds[j].required@ == q.required@
                        && requirements_met(base, conds[j]) {
                    let j = choose|j: int|
                        0 <= j < conds.len() && #[trigger] conds[j].required@ == q.required@
                            && requirements_met(base, conds[j]);
                    if j < rest.len() {
                        assert(rest[j] == conds[j]);
                    } else {
                        assert(c.required@ == q.required@);
                        assert(layer_on_stack(pe, c.required@[0]) == layer_on_stack(base, c.required@[0]));
                        assert(layer_on_stack(pe, c.required@[1]) == layer_on_stack(base, c.required@[1]));
                    }
                }
            }
        }
    }
}

/// A push keeps the activated conditional layers following the stack, when no conditional layer
/// requires a layer that a conditional layer activates and the pushed layer, if some conditional
/// layer requires it, is not on the stack yet: after the push, each conditional layer is
/// activated exactly when all its required layers are on the stack.
pub proof fn law_push_keeps_conditions(
    entries: Seq<StackEntry>,
    activated: Seq<Activation>,
    conds: Seq<ConditionalLayer>,
    layer: LayerId,
)
    requires
        stack_wf(entries, activated),
        then_layers_not_required(conds),
        conditions_hold(entries, activated, conds),
        next_key(entries) + conds.len() < u64::MAX,
        is_required(conds, layer) ==> !layer_on_stack(entries, layer),
    ensures
        conditions_hold(
            push_result(entries, activated, conds, layer).0,
            push_result(entries, activated, conds, layer).1,
            conds,
        ),
{
    let base = entries.push((next_key(entries) as u64, layer));
    assert forall|j: int| 0 <= j < conds.len() implies !is_required(conds, #[trigger] conds[j].then_layer)
        && is_required(conds, conds[j].required@[0]) && is_required(conds, conds[j].required@[1]) by {
        assert(conds[j] == conds[j]);
    }
    lemma_activation_parts(base, activated, conds, conds);
    lemma_keys_below_next(entries, activated);
    let (e, a) = activate_conditional(base, activated, conds);
    let n = entries.len() as int;
    assert(forall|i: int| 0 <= i < base.len() ==> #[trigger] e[i] == base[i]);
    assert(forall|i: int| 0 <= i < activated.len() ==> #[trigger] a[i] == activated[i]);
    // Each conditional layer follows its requirements.
    assert forall|j: int| 0 <= j < conds.len() implies (is_activated(a, #[trigger] conds[j])
        <==> requirements_met(e, conds[j])) by {
        let c = conds[j];
        assert(is_required(conds, c.required@[0]) && is_required(conds, c.required@[1]));
        assert(layer_on_stack(e, c.required@[0]) == layer_on_stack(base, c.required@[0]));
        assert(layer_on_stack(e, c.required@[1]) == layer_on_stack(base, c.required@[1]));
        if requirements_met(base, c) {
            assert(conds[j].required@ == c.required@);
        } else {
            assert(!requirements_met(entries, c)) by {
                if layer_on_stack(entries, c.required@[0]) {
                    let w = choose|w: int| 0 <= w < entries.len() && #[trigger] entries[w].1 == c.required@[0];
                    assert(base[w].1 == c.required@[0]);
                }
                if layer_on_stack(entries, c.required@[1]) {
                    let w = choose|w: int| 0 <= w < entries.len() && #[trigger] entries[w].1 == c.required@[1];
                    assert(base[w].1 == c.required@[1]);
                }
            }
            assert(!is_activated(activated, c));
            if exists|j2: int|
                0 <= j2 < conds.len() && #[trigger] conds[j2].required@ == c.required@
                    && requirements_met(base, conds[j2]) {
                let j2 = choose|j2: int|
                    0 <= j2 < conds.len() && #[trigger] conds[j2].required@ == c.required@
                        && requirements_met(base, conds[j2]);
                assert(conds[j2].required@[0] == c.required@[0]);
                assert(conds[j2].required@[1] == c.required@[1]);
            }
        }
    }
    // A required layer is on the stack at most once.
    assert forall|i1: int, i2: int|
        0 <= i1 < e.len() && 0 <= i2 < e.len() && e[i1].1 == e[i2].1 && is_required(conds, e[i1].1)
            implies i1 == i2 by {
        if i1 < n && i2 < n {
            assert(entries[i1] == e[i1] && entries[i2] == e[i2]);
        } else if i1 == n && i2 < n {
            assert(entries[i2].1 == layer);
        } else if i2 == n && i1 < n {
            assert(entries[i1].1 == layer);
        }
    }
    // No entry of an activated conditional layer has a required layer.
    assert forall|x: int, y: int|
        0 <= x < a.len() && 0 <= y < e.len() && a[x].2 == e[y].0 implies !is_required(conds, e[y].1) by {
        if x < activated.len() {
            assert(key_on_stack(entries, activated[x].2));
            let w = choose|w: int| 0 <= w < entries.len() && #[trigger] entries[w].0 == activated[x].2;
            assert(activated[x].2 < next_key(entries));
            if y < n {
                assert(entries[y] == e[y]);
                assert(activated[x] == a[x]);
            } else if y == n {
                assert(e[y].0 == next_key(entries));
            } else {
                assert(e[y].0 >= next_key(base));
            }
        } else {
            if y < base.len() {
                assert(e[y] == base[y]);
                if y < n {
                    assert(entries[y].0 < next_key(entries));
                }
            }
        }
    }
}

/// Removing an entry that a push returned keeps the activated conditional layers following the
/// stack, when no conditional layer requires a layer that a conditional layer activates and a
/// required layer is on the stack at most once: the conditional layers that require the removed
/// layer are deactivated, and the others stay as they were. Without the second condition, see
/// [`law_remove_deactivates_exactly_the_dependents`].
pub proof fn law_remove_keeps_conditions(
    entries: Seq<StackEntry>,
    activated: Seq<Activation>,
    conds: Seq<ConditionalLayer>,
    index: int,
)
    requires
        stack_wf(entries, activated),
        then_layers_not_required(conds),
        conditions_hold(entries, activated, conds),
        0 <= index < entries.len(),
        forall|i: int| 0 <= i < activated.len() ==> #[trigger] activated[i].2 != entries[index].0,
    ensures
        ({
            let (key, layer) = entries[index];
            conditions_hold(
                remove_entries(entries, activated, key, layer),
                remove_activations(activated, layer),
                conds,
            )
        }),
{
    let (key, layer) = entries[index];
    let e2 = remove_entries(entries, activated, key, layer);
    let a2 = remove_activations(activated, layer);
    let pe = keeps_entry(activated, key, layer);
    let pa = keeps_activation(layer);
    lemma_remove_keeps_wf(entries, activated, key, layer);
    lemma_filter_from(entries, pe);
    lemma_filter_from(activated, pa);
    entries.filter_lemma(pe);
    activated.filter_lemma(pa);
    let dk = deactivated_keys(activated, layer);
    let drop = drops_activation(layer);
    lemma_filter_from(activated, drop);
    // The deactivated keys are keys of activated conditional layers.
    assert forall|v: u64| #[trigger] dk.contains(v) implies exists|x: int| 0 <= x < activated.len() && activated[x].2 == v by {
        let t = choose|t: int| 0 <= t < dk.len() && dk[t] == v;
        let f = activated.filter(drop);
        assert(dk[t] == f[t].2);
        assert(activated.contains(f[t]));
        let x = choose|x: int| 0 <= x < activated.len() && activated[x] == f[t];
    }
    // A required layer other than the removed one is on the stack after the remove exactly when
    // it was before.
    assert forall|r: LayerId| is_required(conds, r) && r != layer implies (#[trigger] layer_on_stack(e2, r)
        <==> layer_on_stack(entries, r)) by {
        if layer_on_stack(e2, r) {
            let w = choose|w: int| 0 <= w < e2.len() && #[trigger] e2[w].1 == r;
            assert(entries.contains(e2[w]));
            let v = choose|v: int| 0 <= v < entries.len() && entries[v] == e2[w];
            assert(entries[v].1 == r);
        }
        if layer_on_stack(entries, r) {
            let w = choose|w: int| 0 <= w < entries.len() && #[trigger] entries[w].1 == r;
            assert(entries[w].0 != key) by {
                if w < index {
                    assert(entries[w].0 < entries[index].0);
                } else if w > index {
                    assert(entries[index].0 < entries[w].0);
                }
            }
            assert(!dk.contains(entries[w].0)) by {
                if dk.contains(entries[w].0) {
                    let x = choose|x: int| 0 <= x < activated.len() && activated[x].2 == entries[w].0;
                    assert(!is_required(conds, entries[w].1));
                }
            }
            assert(pe(entries[w]));
            assert(e2.contains(entries[w]));
            let v = choose|v: int| 0 <= v < e2.len() && e2[v] == entries[w];
            assert(e2[v].1 == r);
        }
    }
    // The removed layer, if required, is on the stack no more.
    assert(is_required(conds, layer) ==> !layer_on_stack(e2, layer)) by {
        if is_required(conds, layer) && layer_on_stack(e2, layer) {
            let w = choose|w: int| 0 <= w < e2.len() && #[trigger] e2[w].1 == layer;
            assert(entries.contains(e2[w]));
            let v = choose|v: int| 0 <= v < entries.len() && entries[v] == e2[w];
            assert(entries[v].1 == entries[index].1);
            assert(v == index);
            assert(pe(e2[w]));
        }
    }
    assert forall|j: int| 0 <= j < conds.len() implies (is_activated(a2, #[trigger] conds[j])
        <==> requirements_met(e2, conds[j])) by {
        let c = conds[j];
        assert(is_required(conds, c.required@[0]) && is_required(conds, c.required@[1]));
        if c.required@[0] == layer || c.required@[1] == layer {
            if is_activated(a2, c) {
                let w = choose|w: int| 0 <= w < a2.len() && #[trigger] same_requirements(a2[w], c);
                assert(pa(a2[w]));
            }
        } else {
            if is_activated(a2, c) {
                let w = choose|w: int| 0 <= w < a2.len() && #[trigger] same_requirements(a2[w], c);
                assert(activated.contains(a2[w]));
                let v = choose|v: int| 0 <= v < activated.len() && activated[v] == a2[w];
                assert(same_requirements(activated[v], c));
            }
            if is_activated(activated, c) {
                let w = choose|w: int| 0 <= w < activated.len() && #[trigger] same_requirements(activated[w], c);
                assert(pa(activated[w]));
                assert(a2.contains(activated[w]));
                let v = choose|v: int| 0 <= v < a2.len() && a2[v] == activated[w];
                assert(same_requirements(a2[v], c));
            }
        }
    }
    assert forall|i1: int, i2: int|
        0 <= i1 < e2.len() && 0 <= i2 < e2.len() && e2[i1].1 == e2[i2].1 && is_required(conds, e2[i1].1)
            implies i1 == i2 by {
        assert(entries.contains(e2[i1]) && entries.contains(e2[i2]));
        let v1 = choose|v: int| 0 <= v < entries.len() && entries[v] == e2[i1];
        let v2 = choose|v: int| 0 <= v < entries.len() && entries[v] == e2[i2];
        assert(v1 == v2);
        if i1 < i2 {
            assert(e2[i1].0 < e2[i2].0);
        } else if i2 < i1 {
            assert(e2[i2].0 < e2[i1].0);
        }
    }
    assert forall|x: int, y: int|
        0 <= x < a2.len() && 0 <= y < e2.len() && a2[x].2 == e2[y].0 implies !is_required(conds, e2[y].1) by {
        assert(activated.contains(a2[x]) && entries.contains(e2[y]));
        let v = choose|v: int| 0 <= v < activated.len() && activated[v] == a2[x];
        let w = choose|w: int| 0 <= w < entries.len() && entries[w] == e2[y];
    }
}

/// A new layer manager has no activated conditional layer and an empty stack, so the
/// activated conditional layers follow the stack from the start.
pub proof fn law_new_manager_keeps_conditions(conds: Seq<ConditionalLayer>)
    ensures
        conditions_hold(Seq::<StackEntry>::empty(), Seq::<Activation>::empty(), conds),
        activations_sound(Seq::<StackEntry>::empty(), Seq::<Activation>::empty(), conds),
{
}

/// After a push, the active layer is the layer that the last conditional layer whose required
/// layers are all on the stack activates, or the pushed layer when there is no such conditional
/// layer, when no conditional layer requires a layer that a conditional layer activates.
pub proof fn law_push_puts_last_completed_on_top(
    entries: Seq<StackEntry>,
    activated: Seq<Activation>,
    conds: Seq<ConditionalLayer>,
    layer: LayerId,
)
    requires
        then_layers_not_required(conds),
        next_key(entries) + conds.len() < u64::MAX,
    ensures
        ({
            let pushed = entries.push((next_key(entries) as u64, layer));
            let e = push_result(entries, activated, conds, layer).0;
            &&& (forall|j: int| 0 <= j < conds.len() ==> !requirements_met(pushed, #[trigger] conds[j]))
                ==> top_layer(e) == layer
            &&& forall|j: int|
                0 <= j < conds.len() && requirements_met(pushed, #[trigger] conds[j]) && (forall|m: int|
                    j < m < conds.len() ==> !requirements_met(pushed, #[trigger] conds[m]))
                    ==> top_layer(e) == conds[j].then_layer
        }),
{
    let base = entries.push((next_key(entries) as u64, layer));
    assert forall|j: int| 0 <= j < conds.len() implies !is_required(conds, #[trigger] conds[j].then_layer)
        && is_required(conds, conds[j].required@[0]) && is_required(conds, conds[j].required@[1]) by {
        assert(conds[j] == conds[j]);
    }
    lemma_activation_parts(base, activated, conds, conds);
    assert(base[base.len() - 1].1 == layer);
}

/// Whether every activated conditional layer has its required layers on the stack, and no entry
/// of an activated conditional layer has a required layer. This holds on every state that pushes
/// and removes reach, also when a required layer is pushed more than once, as long as no
/// conditional layer requires a layer that a conditional layer activates.
pub open spec fn activations_sound(
    entries: Seq<StackEntry>,
    activated: Seq<Activation>,
    conds: Seq<ConditionalLayer>,
) -> bool {
    &&& forall|j: int|
        0 <= j < conds.len() ==> (is_activated(activated, #[trigger] conds[j]) ==> requirements_met(
            entries,
            conds[j],
        ))
    &&& forall|a: int, e: int|
        #![trigger activated[a], entries[e]]
        0 <= a < activated.len() && 0 <= e < entries.len() && activated[a].2 == entries[e].0
            ==> !is_required(conds, entries[e].1)
}

/// After every push, each conditional layer is activated exactly when all its required layers are
/// on the stack, whatever was pushed before (a required layer may be pushed again), when no
/// conditional layer requires a layer that a conditional layer activates.
pub proof fn law_push_activates_exactly_the_completed(
    entries: Seq<StackEntry>,
    activated: Seq<Activation>,
    conds: Seq<ConditionalLayer>,
    layer: LayerId,
)
    requires
        stack_wf(entries, activated),
        then_layers_not_required(conds),
        activations_sound(entries, activated, conds),
        next_key(entries) + conds.len() < u64::MAX,
    ensures
        ({
            let (e, a) = push_result(entries, activated, conds, layer);
            &&& activations_sound(e, a, conds)
            &&& forall|j: int|
                0 <= j < conds.len() ==> (is_activated(a, #[trigger] conds[j]) <==> requirements_met(
                    e,
                    conds[j],
                ))
        }),
{
    let base = entries.push((next_key(entries) as u64, layer));
    assert forall|j: int| 0 <= j < conds.len() implies !is_required(conds, #[trigger] conds[j].then_layer)
        && is_required(conds, conds[j].required@[0]) && is_required(conds, conds[j].required@[1]) by {
        assert(conds[j] == conds[j]);
    }
    lemma_activation_parts(base, activated, conds, conds);
    lemma_keys_below_next(entries, activated);
    let (e, a) = activate_conditional(base, activated, conds);
    let n = entries.len() as int;
    assert(forall|i: int| 0 <= i < base.len() ==> #[trigger] e[i] == base[i]);
    assert(forall|i: int| 0 <= i < activated.len() ==> #[trigger] a[i] == activated[i]);
    assert forall|j: int| 0 <= j < conds.len() implies (is_activated(a, #[trigger] conds[j])
        <==> requirements_met(e, conds[j])) by {
        let c = conds[j];
        assert(is_required(conds, c.required@[0]) && is_required(conds, c.required@[1]));
        assert(layer_on_stack(e, c.required@[0]) == layer_on_stack(base, c.required@[0]));
        assert(layer_on_stack(e, c.required@[1]) == layer_on_stack(base, c.required@[1]));
        if requirements_met(base, c) {
            assert(conds[j].required@ == c.required@);
        } else {
            assert(!requirements_met(entries, c)) by {
                if layer_on_stack(entries, c.required@[0]) {
                    let w = choose|w: int| 0 <= w < entries.len() && #[trigger] entries[w].1 == c.required@[0];
                    assert(base[w].1 == c.required@[0]);
                }
                if layer_on_stack(entries, c.required@[1]) {
                    let w = choose|w: int| 0 <= w < entries.len() && #[trigger] entries[w].1 == c.required@[1];
                    assert(base[w].1 == c.required@[1]);
                }
            }
            assert(!is_activated(activated, c));
            if exists|j2: int|
                0 <= j2 < conds.len() && #[trigger] conds[j2].required@ == c.required@
                    && requirements_met(base, conds[j2]) {
                let j2 = choose|j2: int|
                    0 <= j2 < conds.len() && #[trigger] conds[j2].required@ == c.required@
                        && requirements_met(base, conds[j2]);
                assert(conds[j2].required@[0] == c.required@[0]);
                assert(conds[j2].required@[1] == c.required@[1]);
            }
        }
    }
    assert forall|x: int, y: int|
        0 <= x < a.len() && 0 <= y < e.len() && a[x].2 == e[y].0 implies !is_required(conds, e[y].1) by {
        if x < activated.len() {
            assert(key_on_stack(entries, activated[x].2));
            let w = choose|w: int| 0 <= w < entries.len() && #[trigger] entries[w].0 == activated[x].2;
            assert(activated[x].2 < next_key(entries));
            if y < n {
                assert(entries[y] == e[y]);
                assert(activated[x] == a[x]);
            } else if y == n {
                assert(e[y].0 == next_key(entries));
            } else {
                assert(e[y].0 >= next_key(base));
            }
        } else {
            if y < base.len() {
                assert(e[y] == base[y]);
                if y < n {
                    assert(entries[y].0 < next_key(entries));
                }
            }
        }
    }
}

/// Removing an entry that a push returned deactivates exactly the conditional layers that require
/// its layer, even when that layer is still pushed by another entry, and leaves the others as they
/// were; the required layers on the stack afterwards are those of the other entries. So a
/// conditional layer whose required layer was pushed twice stays active until an entry of that
/// layer is removed, and becomes active again with the next push. This holds when no conditional
/// layer requires a layer that a conditional layer activates.
pub proof fn law_remove_deactivates_exactly_the_dependents(
    entries: Seq<StackEntry>,
    activated: Seq<Activation>,
    conds: Seq<ConditionalLayer>,
    index: int,
)
    requires
        stack_wf(entries, activated),
        then_layers_not_required(conds),
        activations_sound(entries, activated, conds),
        0 <= index < entries.len(),
        forall|i: int| 0 <= i < activated.len() ==> #[trigger] activated[i].2 != entries[index].0,
    ensures
        ({
            let (key, layer) = entries[index];
            let e2 = remove_entries(entries, activated, key, layer);
            let a2 = remove_activations(activated, layer);
            &&& activations_sound(e2, a2, conds)
            &&& forall|j: int|
                0 <= j < conds.len() ==> (requirements_met(e2, #[trigger] conds[j])
                    <==> requirements_met(entries.remove(index), conds[j]))
            &&& forall|j: int|
                0 <= j < conds.len() ==> (if #[trigger] conds[j].required@[0] == layer
                    || conds[j].required@[1] == layer {
                    !is_activated(a2, conds[j])
                } else {
                    is_activated(a2, conds[j]) == is_activated(activated, conds[j])
                })
        }),
{
    let (key, layer) = entries[index];
    let e2 = remove_entries(entries, activated, key, layer);
    let a2 = remove_activations(activated, layer);
    let rest = entries.remove(index);
    let pe = keeps_entry(activated, key, layer);
    let pa = keeps_activation(layer);
    lemma_remove_keeps_wf(entries, activated, key, layer);
    lemma_filter_from(entries, pe);
    lemma_filter_from(activated, pa);
    entries.filter_lemma(pe);
    activated.filter_lemma(pa);
    let dk = deactivated_keys(activated, layer);
    let drop = drops_activation(layer);
    lemma_filter_from(activated, drop);
    assert forall|v: u64| #[trigger] dk.contains(v) implies exists|x: int| 0 <= x < activated.len() && activated[x].2 == v by {
        let t = choose|t: int| 0 <= t < dk.len() && dk[t] == v;
        let f = activated.filter(drop);
        assert(dk[t] == f[t].2);
        assert(activated.contains(f[t]));
        let x = choose|x: int| 0 <= x < activated.len() && activated[x] == f[t];
    }
    // A required layer is on the stack afterwards exactly when an entry other than the removed
    // one has it.
    assert forall|r: LayerId| is_required(conds, r) implies (#[trigger] layer_on_stack(e2, r)
        <==> layer_on_stack(rest, r)) by {
        if layer_on_stack(e2, r) {
            let w = choose|w: int| 0 <= w < e2.len() && #[trigger] e2[w].1 == r;
            assert(entries.contains(e2[w]));
            let v = choose|v: int| 0 <= v < entries.len() && entries[v] == e2[w];
            assert(pe(e2[w]));
            assert(v != index);
            if v < index {
                assert(rest[v] == entries[v]);
            } else {
                assert(rest[v - 1] == entries[v]);
            }
        }
        if layer_on_stack(rest, r) {
            let u = choose|u: int| 0 <= u < rest.len() && #[trigger] rest[u].1 == r;
            let w = if u < index { u } else { u + 1 };
            assert(entries[w] == rest[u]);
            assert(entries[w].0 != key) by {
                if w < index {
                    assert(entries[w].0 < entries[index].0);
                } else {
                    assert(entries[index].0 < entries[w].0);
                }
            }
            assert(!dk.contains(entries[w].0)) by {
                if dk.contains(entries[w].0) {
                    let x = choose|x: int| 0 <= x < activated.len() && activated[x].2 == entries[w].0;
                    assert(!is_required(conds, entries[w].1));
                }
            }
            assert(pe(entries[w]));
            assert(e2.contains(entries[w]));
            let v = choose|v: int| 0 <= v < e2.len() && e2[v] == entries[w];
            assert(e2[v].1 == r);
        }
    }
    assert forall|j: int| 0 <= j < conds.len() implies (requirements_met(e2, #[trigger] conds[j])
        <==> requirements_met(rest, conds[j])) by {
        let c = conds[j];
        assert(is_required(conds, c.required@[0]) && is_required(conds, c.required@[1]));
        assert(layer_on_stack(e2, c.required@[0]) == layer_on_stack(rest, c.required@[0]));
        assert(layer_on_stack(e2, c.required@[1]) == layer_on_stack(rest, c.required@[1]));
    }
    assert forall|j: int| 0 <= j < conds.len() implies (if #[trigger] conds[j].required@[0] == layer
        || conds[j].required@[1] == layer {
        !is_activated(a2, conds[j])
    } else {
        is_activated(a2, conds[j]) == is_activated(activated, conds[j])
    }) by {
        let c = conds[j];
        if c.required@[0] == layer || c.required@[1] == layer {
            if is_activated(a2, c) {
                let w = choose|w: int| 0 <= w < a2.len() && #[trigger] same_requirements(a2[w], c);
                assert(pa(a2[w]));
            }
        } else {
            if is_activated(a2, c) {
                let w = choose|w: int| 0 <= w < a2.len() && #[trigger] same_requirements(a2[w], c);
                assert(activated.contains(a2[w]));
                let v = choose|v: int| 0 <= v < activated.len() && activated[v] == a2[w];
                assert(same_requirements(activated[v], c));
            }
            if is_activated(activated, c) {
                let w = choose|w: int| 0 <= w < activated.len() && #[trigger] same_requirements(activated[w], c);
                assert(pa(activated[w]));
                assert(a2.contains(activated[w]));
                let v = choose|v: int| 0 <= v < a2.len() && a2[v] == activated[w];
                assert(same_requirements(a2[v], c));
            }
        }
    }
    // Soundness: a conditional layer that stays active does not require the removed layer, so its
    // required layers keep their entries.
    assert forall|j: int| 0 <= j < conds.len() implies (is_activated(a2, #[trigger] conds[j])
        ==> requirements_met(e2, conds[j])) by {
        let c = conds[j];
        if is_activated(a2, c) {
            assert(!(c.required@[0] == layer || c.required@[1] == layer));
            assert(is_activated(activated, c));
            assert(requirements_met(entries, c));
            assert(is_required(conds, c.required@[0]) && is_required(conds, c.required@[1]));
            let w0 = choose|w: int| 0 <= w < entries.len() && #[trigger] entries[w].1 == c.required@[0];
            let w1 = choose|w: int| 0 <= w < entries.len() && #[trigger] entries[w].1 == c.required@[1];
            assert(w0 != index && w1 != index);
            let u0 = if w0 < index { w0 } else { w0 - 1 };
            let u1 = if w1 < index { w1 } else { w1 - 1 };
            assert(rest[u0] == entries[w0]);
            assert(rest[u1] == entries[w1]);
            assert(layer_on_stack(rest, c.required@[0]));
            assert(layer_on_stack(rest, c.required@[1]));
        }
    }
    assert forall|x: int, y: int|
        0 <= x < a2.len() && 0 <= y < e2.len() && a2[x].2 == e2[y].0 implies !is_required(conds, e2[y].1) by {
        assert(activated.contains(a2[x]) && entries.contains(e2[y]));
        let v = choose|v: int| 0 <= v < activated.len() && activated[v] == a2[x];
        let w = choose|w: int| 0 <= w < entries.len() && entries[w] == e2[y];
    }
}

/// The activated conditional layers of a manager that follow the stack exactly also are sound.
pub proof fn law_conditions_hold_are_sound(
    entries: Seq<StackEntry>,
    activated: Seq<Activation>,
    conds: Seq<ConditionalLayer>,
)
    requires
        conditions_hold(entries, activated, conds),
    ensures
        activations_sound(entries, activated, conds),
{
}

} // verus!
