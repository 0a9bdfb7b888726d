//! Building a layout from layers: the actions of each key on each layer, where a key that is
//! transparent on a layer keeps the action it has on the layer below.
use crate::layer::LayerId;
use vstd::prelude::*;

verus! {

/// The entry of one key on one layer.
#[derive(Debug, Clone, Copy)]
pub enum LayoutEntry<T> {
    /// The key runs this action on the layer.
    Action(T),
    /// The key runs the action it has on the layer below, or nothing on the first layer.
    Transparent,
}

/// The layers of a layout do not all have the same number of keys.
#[derive(Debug, Clone, Copy, PartialEq, Eq, Structural)]
pub struct UnequalLayers {
    /// The first layer whose number of keys differs from that of the first layer.
    pub layer: usize,
}

/// The action of key `key` on layer `layer`: its own, or for a transparent key the one of the
/// layer below, and `no_op` below the first layer.
pub open spec fn resolved<T>(layers: Seq<Seq<LayoutEntry<T>>>, key: int, layer: int, no_op: T) -> T
    decreases layer + 1,
{
    if layer < 0 {
        no_op
    } else {
        match layers[layer][key] {
            LayoutEntry::Action(a) => a,
            LayoutEntry::Transparent => resolved(layers, key, layer - 1, no_op),
        }
    }
}

/// The entries of each layer.
pub open spec fn entries_of<T>(layers: Seq<Vec<LayoutEntry<T>>>) -> Seq<Seq<LayoutEntry<T>>> {
    layers.map_values(|v: Vec<LayoutEntry<T>>| v@)
}

/// Whether layer `i` has a different number of keys than the first layer.
pub open spec fn differs_from_first<T>(layers: Seq<Seq<LayoutEntry<T>>>, i: int) -> bool {
    0 <= i < layers.len() && layers[i].len() != layers[0].len()
}

/// The actions of each key, one for each layer, from the layers of a layout: `r[key][layer]` is
/// the action of `key` on `layer`, where a transparent key takes the action of the layer below
/// and `no_op` on the first layer. All layers must have the same number of keys.
pub fn layer_actions<T: Copy>(layers: &Vec<Vec<LayoutEntry<T>>>, no_op: T) -> (r: Result<
    Vec<Vec<T>>,
    UnequalLayers,
>)
    ensures
        match r {
            Err(e) => {
                &&& differs_from_first(entries_of(layers@), e.layer as int)
                &&& forall|i: int|
                    0 <= i < e.layer ==> !#[trigger] differs_from_first(
                        entries_of(layers@),
                        i,
                    )
            },
            Ok(keys) => {
                let ls = entries_of(layers@);
                &&& forall|i: int| 0 <= i < ls.len() ==> !#[trigger] differs_from_first(ls, i)
                &&& keys@.len() == (if ls.len() == 0 {
                    0
                } else {
                    ls[0].len()
                })
                &&& forall|k: int| 0 <= k < keys@.len() ==> #[trigger] keys@[k]@.len() == ls.len()
                &&& forall|k: int, l: int|
                    0 <= k < keys@.len() && 0 <= l < ls.len() ==> #[trigger] keys@[k]@[l]
                        == resolved(ls, k, l, no_op)
            },
        },
{
    let ghost ls = entries_of(layers@);
    let num_keys = if layers.len() == 0 {
        0
    } else {
        layers[0].len()
    };
    let mut i: usize = 0;
    while i < layers.len()
        invariant
            i <= layers@.len(),
            ls == entries_of(layers@),
            layers@.len() > 0 ==> num_keys == layers@[0]@.len(),
            forall|j: int| 0 <= j < i ==> !#[trigger] differs_from_first(ls, j),
        decreases layers@.len() - i,
    {
        if layers[i].len() != num_keys {
            return Err(UnequalLayers { layer: i });
        }
        i += 1;
    }
    let mut keys: Vec<Vec<T>> = Vec::new();
    let mut k: usize = 0;
    while k < num_keys
        invariant
            k <= num_keys,
            ls == entries_of(layers@),
            layers@.len() > 0 ==> num_keys == layers@[0]@.len(),
            layers@.len() == 0 ==> num_keys == 0,
            forall|j: int| 0 <= j < ls.len() ==> !#[trigger] differs_from_first(ls, j),
            keys@.len() == k,
            forall|kk: int| 0 <= kk < k ==> #[trigger] keys@[kk]@.len() == ls.len(),
            forall|kk: int, l: int|
                0 <= kk < k && 0 <= l < ls.len() ==> #[trigger] keys@[kk]@[l] == resolved(
                    ls,
                    kk,
                    l,
                    no_op,
                ),
        decreases num_keys - k,
    {
        let mut column: Vec<T> = Vec::new();
        let mut below: T = no_op;
        let mut l: usize = 0;
        while l < layers.len()
            invariant
                l <= layers@.len(),
                k < num_keys,
                ls == entries_of(layers@),
                layers@.len() > 0 ==> num_keys == layers@[0]@.len(),
                forall|j: int| 0 <= j < ls.len() ==> !#[trigger] differs_from_first(ls, j),
                column@.len() == l,
                below == resolved(ls, k as int, l - 1, no_op),
                forall|m: int| 0 <= m < l ==> #[trigger] column@[m] == resolved(ls, k as int, m, no_op),
            decreases layers@.len() - l,
        {
            assert(!differs_from_first(ls, l as int));
            assert(ls[l as int] == layers@[l as int]@);
            let action = match layers[l][k] {
                LayoutEntry::Action(a) => a,
                LayoutEntry::Transparent => below,
            };
            column.push(action);
            below = action;
            l += 1;
        }
        keys.push(column);
        k += 1;
    }
    Ok(keys)
}

/// The IDs of the layers of a layout with `num_layers` layers: layer `i` has ID `i`.
pub fn layer_ids(num_layers: usize) -> (r: Vec<LayerId>)
    requires
        num_layers <= 256,
    ensures
        r@.len() == num_layers,
        forall|i: int| 0 <= i < num_layers ==> #[trigger] r@[i] == LayerId(i as u8),
{
    let mut ids: Vec<LayerId> = Vec::new();
    let mut i: usize = 0;
    while i < num_layers
        invariant
            i <= num_layers <= 256,
            ids@.len() == i,
            forall|j: int| 0 <= j < i ==> #[trigger] ids@[j] == LayerId(j as u8),
        decreases num_layers - i,
    {
        ids.push(LayerId(i as u8));
        i += 1;
    }
    ids
}

/// A key that is transparent on all layers up to `layer` runs `no_op` on each of them.
pub proof fn law_transparent_key_runs_no_op<T>(layers: Seq<Seq<LayoutEntry<T>>>, key: int, layer: int, no_op: T)
    requires
        forall|l: int| 0 <= l <= layer ==> #[trigger] layers[l][key] is Transparent,
    ensures
        resolved(layers, key, layer, no_op) == no_op,
    decreases layer + 1,
{
    if layer >= 0 {
        law_transparent_key_runs_no_op(layers, key, layer - 1, no_op);
    }
}

/// A transparent key runs the same action as on the layer below.
pub proof fn law_transparent_takes_layer_below<T>(layers: Seq<Seq<LayoutEntry<T>>>, key: int, layer: int, no_op: T)
    requires
        layer >= 1,
        layers[layer][key] is Transparent,
    ensures
        resolved(layers, key, layer, no_op) == resolved(layers, key, layer - 1, no_op),
{
}

} // verus!
