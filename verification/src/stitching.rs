//! Stitching a freshly built layer of a navigation mesh to the layers it is
//! connected to, and deciding what becomes of the mesh afterwards.
//!
//! The geometric work (finding the vertices that lie on a stitch segment,
//! comparing their positions) is done by the caller; this module decides in
//! which order it is done, what each outcome does to the state of the run,
//! and when the mesh can be published.
use vstd::prelude::*;

use crate::sorted::{sorted_unique_pairs, strictly_sorted_pairs};
use crate::updater::NavMeshStatus;

verus! {

/// The layer at the other end of the stitch `stitch` from `layer`, if the
/// stitch touches `layer`. A stitch that starts at `layer` is read from its start.
pub open spec fn other_layer(stitch: (u8, u8), layer: u8) -> Option<u8> {
    if stitch.0 == layer {
        Some(stitch.1)
    } else if stitch.1 == layer {
        Some(stitch.0)
    } else {
        None
    }
}

/// For each stitch that touches `layer`, in order, its index in `stitches`
/// and the layer at its other end.
pub open spec fn stitch_targets_spec(stitches: Seq<(u8, u8)>, layer: u8) -> Seq<(usize, u8)>
    decreases stitches.len(),
{
    if stitches.len() == 0 {
        Seq::empty()
    } else {
        let before = stitch_targets_spec(stitches.drop_last(), layer);
        match other_layer(stitches.last(), layer) {
            Some(other) => before.push(((stitches.len() - 1) as usize, other)),
            None => before,
        }
    }
}

/// The stitches that touch a layer are all of them, each once, in order: every
/// stitch with `layer` at one of its ends is listed, under its own index
/// (several stitches to the same layer are each listed); every listed entry
/// is such a stitch, with the layer at its other end (its end when it starts
/// at `layer`); and the indices increase.
pub proof fn stitch_targets_law(stitches: Seq<(u8, u8)>, layer: u8)
    requires
        stitches.len() <= usize::MAX,
    ensures
        ({
            let t = stitch_targets_spec(stitches, layer);
            &&& forall|i: int|
                0 <= i < stitches.len() && (stitches[i].0 == layer || stitches[i].1 == layer)
                    ==> exists|k: int| 0 <= k < t.len() && #[trigger] t[k].0 == i
            &&& forall|k: int|
                0 <= k < t.len() ==> {
                    let i = (#[trigger] t[k]).0 as int;
                    &&& 0 <= i < stitches.len()
                    &&& stitches[i].0 == layer ==> t[k].1 == stitches[i].1
                    &&& stitches[i].0 != layer ==> stitches[i].1 == layer && t[k].1
                        == stitches[i].0
                }
            &&& forall|k: int, j: int| 0 <= k < j < t.len() ==> (#[trigger] t[k]).0 < (
            #[trigger] t[j]).0
        }),
    decreases stitches.len(),
{
    if stitches.len() > 0 {
        let rest = stitches.drop_last();
        stitch_targets_law(rest, layer);
        let before = stitch_targets_spec(rest, layer);
        let t = stitch_targets_spec(stitches, layer);
        let last = (stitches.len() - 1) as int;
        assert forall|i: int|
            0 <= i < stitches.len() && (stitches[i].0 == layer || stitches[i].1 == layer) implies exists|k: int|
                0 <= k < t.len() && #[trigger] t[k].0 == i by {
            if i < last {
                assert(rest[i] == stitches[i]);
                let k = choose|k: int| 0 <= k < before.len() && #[trigger] before[k].0 == i;
                assert(t[k] == before[k]);
            } else {
                assert(stitches.last() == stitches[i]);
                assert(other_layer(stitches.last(), layer) is Some);
                assert(t[t.len() - 1].0 == i);
            }
        }
        assert forall|k: int| 0 <= k < t.len() implies {
            let i = (#[trigger] t[k]).0 as int;
            &&& 0 <= i < stitches.len()
            &&& stitches[i].0 == layer ==> t[k].1 == stitches[i].1
            &&& stitches[i].0 != layer ==> stitches[i].1 == layer && t[k].1 == stitches[i].0
        } by {
            if k < before.len() {
                assert(t[k] == before[k]);
                assert(rest[before[k].0 as int] == stitches[before[k].0 as int]);
            }
        }
        assert forall|k: int, j: int| 0 <= k < j < t.len() implies (#[trigger] t[k]).0 < (
        #[trigger] t[j]).0 by {
            if j < before.len() {
                assert(t[k] == before[k] && t[j] == before[j]);
            } else {
                assert(t[k] == before[k]);
            }
        }
    }
}

/// The stitches of the settings that touch `layer`: for each, its index in
/// `stitches` (a pair of layer ids per stitch) and the other layer.
pub fn stitch_targets(stitches: &Vec<(u8, u8)>, layer: u8) -> (r: Vec<(usize, u8)>)
    ensures
        r@ == stitch_targets_spec(stitches@, layer),
        forall|i: int|
            0 <= i < stitches@.len() && (stitches@[i].0 == layer || stitches@[i].1 == layer)
                ==> exists|k: int| 0 <= k < r@.len() && #[trigger] r@[k].0 == i,
        forall|k: int|
            0 <= k < r@.len() ==> {
                let i = (#[trigger] r@[k]).0 as int;
                &&& 0 <= i < stitches@.len()
                &&& stitches@[i].0 == layer ==> r@[k].1 == stitches@[i].1
                &&& stitches@[i].0 != layer ==> stitches@[i].1 == layer && r@[k].1
                    == stitches@[i].0
            },
        forall|k: int, j: int| 0 <= k < j < r@.len() ==> (#[trigger] r@[k]).0 < (#[trigger] r@[j]).0,
{
    let mut r: Vec<(usize, u8)> = Vec::new();
    let mut i: usize = 0;
    while i < stitches.len()
        invariant
            0 <= i <= stitches.len(),
            r@ == stitch_targets_spec(stitches@.subrange(0, i as int), layer),
        decreases stitches.len() - i,
    {
        let (from, to) = stitches[i];
        proof {
            assert(stitches@.subrange(0, i + 1).drop_last() =~= stitches@.subrange(0, i as int));
            assert(stitches@.subrange(0, i + 1).last() == stitches@[i as int]);
        }
        if from == layer {
            r.push((i, to));
        } else if to == layer {
            r.push((i, from));
        }
        i = i + 1;
    }
    proof {
        assert(stitches@.subrange(0, stitches@.len() as int) =~= stitches@);
        stitch_targets_law(stitches@, layer);
    }
    r
}

/// The number of layers a mesh needs so that layer `layer` exists, given that
/// it has `layer_count`: layers are only ever added.
pub fn layer_count_for(layer_count: usize, layer: u8) -> (r: usize)
    ensures
        r == if layer_count <= layer { layer + 1 } else { layer_count as int },
        r > layer,
        r >= layer_count,
{
    if layer_count < layer as usize + 1 {
        layer as usize + 1
    } else {
        layer_count
    }
}

/// Which layer a finished build replaces, and whether it is stitched to the
/// other layers afterwards.
#[derive(Debug, Clone, Copy, PartialEq, Eq, Structural)]
pub struct LayerUpdate {
    /// The layer that the built layer replaces.
    pub layer_id: u8,
    /// Stitch the layer to the layers it is connected to, and publish the mesh
    /// only when every stitch holds; otherwise publish it at once.
    pub stitch: bool,
}

/// Plans how a build lands in the mesh from the layer its settings name: a
/// named layer is replaced and stitched; without one, the first layer is
/// replaced and the mesh is published at once.
pub fn layer_update_plan(layer: Option<u8>) -> (r: LayerUpdate)
    ensures
        r.layer_id == match layer {
            Some(l) => l,
            None => 0u8,
        },
        r.stitch == layer.is_some(),
{
    match layer {
        Some(l) => LayerUpdate { layer_id: l, stitch: true },
        None => LayerUpdate { layer_id: 0, stitch: false },
    }
}

/// Gives a mesh the layers it needs so that layer `layer` exists: the layers
/// it has stay as they are, and each new one is a clone of `filler`.
pub fn grow_layers<T: Clone>(layers: &mut Vec<T>, layer: u8, filler: &T)
    ensures
        final(layers)@.len() == if old(layers)@.len() <= layer {
            layer + 1
        } else {
            old(layers)@.len() as int
        },
        final(layers)@.subrange(0, old(layers)@.len() as int) == old(layers)@,
        forall|i: int|
            old(layers)@.len() <= i < final(layers)@.len() ==> cloned::<T>(
                *filler,
                #[trigger] final(layers)@[i],
            ),
{
    let count = layer_count_for(layers.len(), layer);
    let ghost before = layers@;
    while layers.len() < count
        invariant
            count == if before.len() <= layer { layer + 1 } else { before.len() as int },
            before.len() <= layers@.len() <= count,
            layers@.subrange(0, before.len() as int) == before,
            forall|i: int|
                before.len() <= i < layers@.len() ==> cloned::<T>(*filler, #[trigger] layers@[i]),
        decreases count - layers.len(),
    {
        let item = filler.clone();
        let ghost prev = layers@;
        layers.push(item);
        proof {
            assert(layers@.subrange(0, before.len() as int) =~= prev.subrange(0, before.len() as int));
        }
    }
}

/// Pairs the vertices found on a stitch segment on both sides, in order:
/// `None` when the two sides do not hold as many.
pub open spec fn paired_points(from: Seq<usize>, to: Seq<usize>) -> Option<Seq<(usize, usize)>> {
    if from.len() == to.len() {
        Some(Seq::new(from.len(), |k: int| (from[k], to[k])))
    } else {
        None
    }
}

/// A stitch is no longer failing between `a` and `b`, in either direction.
pub open spec fn not_between(p: (u8, u8), a: u8, b: u8) -> bool {
    !(p.0 == a && p.1 == b) && !(p.1 == a && p.0 == b)
}

/// Making the stitch between `a` and `b` forgets, of the stitches that failed
/// earlier, exactly that stitch, in either direction: every other earlier
/// failure is still there, in the same order, and none is added.
pub proof fn made_stitch_forgets_only_itself(failed: Seq<(u8, u8)>, a: u8, b: u8)
    ensures
        ({
            let kept = failed.filter(|p: (u8, u8)| not_between(p, a, b));
            &&& forall|p: (u8, u8)|
                #![trigger kept.contains(p)]
                kept.contains(p) <==> (failed.contains(p) && p != (a, b) && p != (b, a))
            &&& kept.len() <= failed.len()
            &&& kept.len() + failed.filter(|p: (u8, u8)| p == (a, b) || p == (b, a)).len()
                == failed.len()
        }),
    decreases failed.len(),
{
    let pred = |p: (u8, u8)| not_between(p, a, b);
    let other = |p: (u8, u8)| p == (a, b) || p == (b, a);
    let kept = failed.filter(pred);
    assert forall|p: (u8, u8)| #![trigger kept.contains(p)] kept.contains(p) <==> (failed.contains(
        p,
    ) && p != (a, b) && p != (b, a)) by {
        if kept.contains(p) {
            failed.lemma_filter_contains_rev(pred, p);
            let k = choose|k: int| 0 <= k < kept.len() && kept[k] == p;
            failed.lemma_filter_pred(pred, k);
        }
        if failed.contains(p) && p != (a, b) && p != (b, a) {
            let k = choose|k: int| 0 <= k < failed.len() && failed[k] == p;
            failed.lemma_filter_contains(pred, k);
        }
    }
    if failed.len() > 0 {
        let rest = failed.drop_last();
        made_stitch_forgets_only_itself(rest, a, b);
        assert(failed =~= rest.push(failed.last()));
        rest.lemma_filter_push(failed.last(), pred);
        rest.lemma_filter_push(failed.last(), other);
    }
}

/// A stitch that was made: the two layers, and the pairs of vertex indices
/// (one in each layer) that were joined.
#[derive(Debug)]
pub struct MadeStitch {
    /// The layer that was rebuilt, then the layer it is stitched to.
    pub layers: (u8, u8),
    /// Pairs of vertex indices, in the first layer and in the second.
    pub vertices: Vec<(usize, usize)>,
}

/// The state of the stitching of one rebuilt layer to the others.
#[derive(Debug)]
pub struct StitchRun {
    /// The status the navigation mesh will have; `Built` unless a stitch went wrong.
    pub status: NavMeshStatus,
    /// The stitches that failed in this run, as (rebuilt layer, other layer).
    pub failed_stitches: Vec<(u8, u8)>,
    /// The stitches that failed in earlier runs and were not made since.
    pub previously_failed: Vec<(u8, u8)>,
    /// The stitches made in this run.
    pub stitched: Vec<MadeStitch>,
}

/// The outcome of a stitching run.
#[derive(Debug)]
pub enum StitchFinish {
    /// Every stitch was made: the mesh replaces the published one. Its
    /// transform is the one of the entity for layer `0`, and the one of the
    /// published mesh for the other layers.
    Publish {
        /// Take the transform of the entity that holds the navigation mesh.
        use_entity_transform: bool,
    },
    /// Some stitch failed and a mesh is published: the mesh is kept aside to
    /// be completed, with the stitches still failing.
    KeepBuilding {
        /// The failing stitches, each once, in increasing order.
        failed_stitches: Vec<(u8, u8)>,
    },
    /// Some stitch failed and no mesh is published yet: the mesh is published,
    /// marked as unusable.
    PublishInvalid,
}

impl StitchRun {
    /// Starts stitching a rebuilt layer, with the stitches that were still
    /// failing from earlier runs.
    pub fn new(previously_failed: Vec<(u8, u8)>) -> (r: Self)
        ensures
            r.status == NavMeshStatus::Built,
            r.failed_stitches@ == Seq::<(u8, u8)>::empty(),
            r.previously_failed@ == previously_failed@,
            r.stitched@ == Seq::<MadeStitch>::empty(),
    {
        StitchRun {
            status: NavMeshStatus::Built,
            failed_stitches: Vec::new(),
            previously_failed,
            stitched: Vec::new(),
        }
    }

    /// Checks that the layer `target` exists and has vertices, given the
    /// number of vertices of each layer of the mesh. When it does not, the mesh
    /// is marked as unusable and the stitch is skipped.
    pub fn target_available(&mut self, layer_vertex_counts: &Vec<usize>, target: u8) -> (r: bool)
        ensures
            r == (target < layer_vertex_counts@.len() && layer_vertex_counts@[target as int] > 0),
            final(self).status == (if r { old(self).status } else { NavMeshStatus::Invalid }),
            final(self).failed_stitches@ == old(self).failed_stitches@,
            final(self).previously_failed@ == old(self).previously_failed@,
            final(self).stitched@ == old(self).stitched@,
    {
        let available = (target as usize) < layer_vertex_counts.len()
            && layer_vertex_counts[target as usize] > 0;
        if !available {
            self.status = NavMeshStatus::Invalid;
        }
        available
    }

    /// Pairs the vertices found on the stitch segment in the rebuilt layer
    /// (`from`) and in the target layer (`to`). When their numbers differ, the
    /// stitch fails: the mesh is marked as failed and the stitch recorded.
    pub fn pair_points(&mut self, layer: u8, target: u8, from: &Vec<usize>, to: &Vec<usize>) -> (r:
        Option<Vec<(usize, usize)>>)
        ensures
            r is Some <==> from@.len() == to@.len(),
            r matches Some(pairs) ==> Some(pairs@) == paired_points(from@, to@),
            r is Some ==> *final(self) == *old(self),
            r is None ==> final(self).status == NavMeshStatus::Failed,
            r is None ==> final(self).failed_stitches@ == old(self).failed_stitches@.push((layer, target)),
            r is None ==> final(self).previously_failed@ == old(self).previously_failed@,
            r is None ==> final(self).stitched@ == old(self).stitched@,
    {
        if from.len() != to.len() {
            self.fail(layer, target);
            return None;
        }
        let mut pairs: Vec<(usize, usize)> = Vec::new();
        let mut k: usize = 0;
        while k < from.len()
            invariant
                0 <= k <= from.len(),
                from@.len() == to@.len(),
                pairs@.len() == k,
                forall|j: int| 0 <= j < k ==> pairs@[j] == (from@[j], to@[j]),
            decreases from.len() - k,
        {
            pairs.push((from[k], to[k]));
            k = k + 1;
        }
        proof {
            assert(pairs@ =~= Seq::new(from@.len(), |j: int| (from@[j], to@[j])));
        }
        Some(pairs)
    }

    /// The paired vertices of a stitch are too far apart: the stitch fails,
    /// the mesh is marked as failed and the stitch recorded.
    pub fn points_mismatch(&mut self, layer: u8, target: u8)
        ensures
            final(self).status == NavMeshStatus::Failed,
            final(self).failed_stitches@ == old(self).failed_stitches@.push((layer, target)),
            final(self).previously_failed@ == old(self).previously_failed@,
            final(self).stitched@ == old(self).stitched@,
    {
        self.fail(layer, target);
    }

    fn fail(&mut self, layer: u8, target: u8)
        ensures
            final(self).status == NavMeshStatus::Failed,
            final(self).failed_stitches@ == old(self).failed_stitches@.push((layer, target)),
            final(self).previously_failed@ == old(self).previously_failed@,
            final(self).stitched@ == old(self).stitched@,
    {
        self.status = NavMeshStatus::Failed;
        self.failed_stitches.push((layer, target));
    }

    /// The stitch between `layer` and `target` is made with the paired
    /// vertices `pairs`: it no longer fails, in either direction, and it is
    /// recorded with its vertices. The status is left as it is.
    pub fn stitch_made(&mut self, layer: u8, target: u8, pairs: Vec<(usize, usize)>)
        ensures
            final(self).status == old(self).status,
            final(self).failed_stitches@ == old(self).failed_stitches@,
            final(self).previously_failed@ == old(self).previously_failed@.filter(
                |p: (u8, u8)| not_between(p, layer, target),
            ),
            !final(self).previously_failed@.contains((layer, target)),
            !final(self).previously_failed@.contains((target, layer)),
            forall|p: (u8, u8)|
                #![trigger final(self).previously_failed@.contains(p)]
                final(self).previously_failed@.contains(p) <==> (old(
                    self,
                ).previously_failed@.contains(p) && p != (layer, target) && p != (target, layer)),
            final(self).previously_failed@.len() <= old(self).previously_failed@.len(),
            final(self).stitched@ == old(self).stitched@.push(
                MadeStitch { layers: (layer, target), vertices: pairs },
            ),
    {
        let ghost pred = |p: (u8, u8)| not_between(p, layer, target);
        let mut kept: Vec<(u8, u8)> = Vec::new();
        let mut i: usize = 0;
        while i < self.previously_failed.len()
            invariant
                0 <= i <= self.previously_failed.len(),
                kept@ == self.previously_failed@.subrange(0, i as int).filter(pred),
                pred == (|q: (u8, u8)| not_between(q, layer, target)),
            decreases self.previously_failed.len() - i,
        {
            let p = self.previously_failed[i];
            proof {
                let pre = self.previously_failed@.subrange(0, i as int);
                assert(self.previously_failed@.subrange(0, i + 1) =~= pre.push(p));
                pre.lemma_filter_push(p, pred);
                assert(pred(p) == (!(p.0 == layer && p.1 == target) && !(p.1 == layer && p.0
                    == target)));
            }
            if !(p.0 == layer && p.1 == target) && !(p.1 == layer && p.0 == target) {
                kept.push(p);
            }
            i = i + 1;
        }
        proof {
            assert(self.previously_failed@.subrange(0, self.previously_failed@.len() as int)
                =~= self.previously_failed@);
            if kept@.contains((layer, target)) {
                self.previously_failed@.lemma_filter_contains_rev(pred, (layer, target));
            }
            if kept@.contains((target, layer)) {
                self.previously_failed@.lemma_filter_contains_rev(pred, (target, layer));
            }
        }
        proof {
            made_stitch_forgets_only_itself(self.previously_failed@, layer, target);
        }
        self.previously_failed = kept;
        self.stitched.push(MadeStitch { layers: (layer, target), vertices: pairs });
    }

    /// Ends the run: `mesh_published` tells whether a navigation mesh is
    /// already published under this handle. Returns the status of the mesh and
    /// what becomes of it.
    ///
    /// The mesh is published exactly when every stitch was made and none
    /// still fails from an earlier run. Otherwise, when a mesh is published it
    /// is kept aside with the failing stitches (those of this run and the
    /// earlier ones, each once, sorted); when none is, it is published as unusable.
    pub fn finish(self, layer: u8, mesh_published: bool) -> (r: (NavMeshStatus, StitchFinish))
        ensures
            (r.1 is Publish) <==> (self.status == NavMeshStatus::Built
                && self.previously_failed@.len() == 0),
            r.1 matches StitchFinish::Publish { use_entity_transform } ==> use_entity_transform == (
            layer == 0),
            (r.1 is KeepBuilding) <==> (!(self.status == NavMeshStatus::Built
                && self.previously_failed@.len() == 0) && mesh_published),
            r.1 matches StitchFinish::KeepBuilding { failed_stitches } ==> strictly_sorted_pairs(
                failed_stitches@,
            ) && forall|p: (u8, u8)|
                failed_stitches@.contains(p) <==> (self.failed_stitches@.contains(p)
                    || self.previously_failed@.contains(p)),
            r.0 == (if r.1 is PublishInvalid { NavMeshStatus::Invalid } else { self.status }),
    {
        if self.status == NavMeshStatus::Built && self.previously_failed.len() == 0 {
            (self.status, StitchFinish::Publish { use_entity_transform: layer == 0 })
        } else if mesh_published {
            let mut all = self.failed_stitches;
            let ghost failed = all@;
            let mut extra = self.previously_failed;
            let ghost earlier = extra@;
            all.append(&mut extra);
            proof {
                assert forall|p: (u8, u8)| all@.contains(p) <==> (failed.contains(p) || earlier.contains(p)) by {
                    vstd::seq_lib::lemma_seq_concat_contains_all_elements(failed, earlier, p);
                }
            }
            let failed_stitches = sorted_unique_pairs(&all);
            (self.status, StitchFinish::KeepBuilding { failed_stitches })
        } else {
            (NavMeshStatus::Invalid, StitchFinish::PublishInvalid)
        }
    }
}

} // verus!
