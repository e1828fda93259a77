//! Keeping the bounding boxes of world SVG entities in step with their assets.
use crate::anchor::{anchor_extent, helper_calculate_aabb, AabbExtent, VelloSvgAnchor};
use crate::asset_key::{contains_key, AssetKey};
use vstd::prelude::*;

verus! {

/// An event about an SVG asset.
#[derive(Clone, Copy, Debug, PartialEq, Eq, Structural)]
pub enum SvgAssetEvent {
    Added { id: AssetKey },
    Modified { id: AssetKey },
    Removed { id: AssetKey },
    Unused { id: AssetKey },
    LoadedWithDependencies { id: AssetKey },
}

/// A world SVG entity whose bounding box follows its asset.
#[derive(Clone, Copy, Debug, PartialEq, Eq)]
pub struct AabbEntity {
    /// The entity's SVG asset.
    pub svg_id: AssetKey,
    pub anchor: VelloSvgAnchor,
    /// Whether the asset holds what the entity shows: always for a whole-SVG
    /// entity; for a layer entity, whether the asset has that layer.
    pub has_content: bool,
}

/// A new bounding box for an entity, in half-size units of what it shows.
#[derive(Clone, Copy, Debug, PartialEq, Eq)]
pub struct AabbUpdate {
    pub entity: usize,
    pub extent: AabbExtent,
}

/// An entity's box is refreshed: its asset is loaded and holds its content.
pub open spec fn refreshed(e: AabbEntity, loaded: Seq<AssetKey>) -> bool {
    loaded.contains(e.svg_id) && e.has_content
}

/// The updates, in order, for the first `m` entities showing asset `id`.
pub open spec fn updates_for_asset(id: AssetKey, entities: Seq<AabbEntity>, m: nat) -> Seq<
    AabbUpdate,
>
    decreases m,
{
    if m == 0 {
        Seq::empty()
    } else {
        let before = updates_for_asset(id, entities, (m - 1) as nat);
        let e = entities[m - 1];
        if e.svg_id == id && e.has_content {
            before.push(AabbUpdate { entity: (m - 1) as usize, extent: anchor_extent(e.anchor) })
        } else {
            before
        }
    }
}

/// The updates, in order, for the first `n` events: each loaded-with-
/// dependencies event of a loaded asset refreshes the entities showing it.
pub open spec fn updates_on_load(
    events: Seq<SvgAssetEvent>,
    loaded: Seq<AssetKey>,
    entities: Seq<AabbEntity>,
    n: nat,
) -> Seq<AabbUpdate>
    decreases n,
{
    if n == 0 {
        Seq::empty()
    } else {
        let before = updates_on_load(events, loaded, entities, (n - 1) as nat);
        match events[n - 1] {
            SvgAssetEvent::LoadedWithDependencies { id } => if loaded.contains(id) {
                before + updates_for_asset(id, entities, entities.len())
            } else {
                before
            },
            _ => before,
        }
    }
}

/// The updates, in order, for the first `m` changed entities.
pub open spec fn updates_on_change(loaded: Seq<AssetKey>, entities: Seq<AabbEntity>, m: nat) -> Seq<
    AabbUpdate,
>
    decreases m,
{
    if m == 0 {
        Seq::empty()
    } else {
        let before = updates_on_change(loaded, entities, (m - 1) as nat);
        let e = entities[m - 1];
        if refreshed(e, loaded) {
            before.push(AabbUpdate { entity: (m - 1) as usize, extent: anchor_extent(e.anchor) })
        } else {
            before
        }
    }
}

/// Appends the updates for the entities showing asset `id`.
fn push_updates_for_asset(id: &AssetKey, entities: &[AabbEntity], updates: &mut Vec<AabbUpdate>)
    ensures
        final(updates)@ == old(updates)@ + updates_for_asset(*id, entities@, entities@.len()),
{
    let ghost start = updates@;
    let mut j: usize = 0;
    while j < entities.len()
        invariant
            j <= entities@.len(),
            updates@ == start + updates_for_asset(*id, entities@, j as nat),
        decreases entities@.len() - j,
    {
        let e = &entities[j];
        if e.svg_id == *id && e.has_content {
            updates.push(AabbUpdate { entity: j, extent: helper_calculate_aabb(&e.anchor) });
        }
        proof {
            let u = updates_for_asset(*id, entities@, (j + 1) as nat);
            assert(updates@ =~= start + u);
        }
        j = j + 1;
    }
}

/// The bounding-box updates for world SVG layer entities after asset events:
/// when an asset has finished loading, every entity showing one of its
/// layers that the asset holds gets the box of its anchor.
pub fn update_svg_layer_2d_aabb_on_asset_load(
    events: &[SvgAssetEvent],
    loaded: &[AssetKey],
    entities: &[AabbEntity],
) -> (r: Vec<AabbUpdate>)
    ensures
        r@ == updates_on_load(events@, loaded@, entities@, events@.len()),
{
    let mut updates: Vec<AabbUpdate> = Vec::new();
    let mut i: usize = 0;
    while i < events.len()
        invariant
            i <= events@.len(),
            updates@ == updates_on_load(events@, loaded@, entities@, i as nat),
        decreases events@.len() - i,
    {
        if let SvgAssetEvent::LoadedWithDependencies { id } = &events[i] {
            if contains_key(loaded, id) {
                push_updates_for_asset(id, entities, &mut updates);
            }
        }
        i = i + 1;
    }
    updates
}

/// The bounding-box updates for whole-SVG world entities after asset events
/// (their `has_content` is always set, so only the asset matters).
pub fn update_svg_2d_aabb_on_asset_load(
    events: &[SvgAssetEvent],
    loaded: &[AssetKey],
    entities: &[AabbEntity],
) -> (r: Vec<AabbUpdate>)
    ensures
        r@ == updates_on_load(events@, loaded@, entities@, events@.len()),
{
    update_svg_layer_2d_aabb_on_asset_load(events, loaded, entities)
}

/// The bounding-box updates for world SVG layer entities whose component
/// changed: each one whose asset is loaded and holds its layer.
pub fn update_svg_layer_2d_aabb_on_change(loaded: &[AssetKey], entities: &[AabbEntity]) -> (r: Vec<
    AabbUpdate,
>)
    ensures
        r@ == updates_on_change(loaded@, entities@, entities@.len()),
{
    let mut updates: Vec<AabbUpdate> = Vec::new();
    let mut j: usize = 0;
    while j < entities.len()
        invariant
            j <= entities@.len(),
            updates@ == updates_on_change(loaded@, entities@, j as nat),
        decreases entities@.len() - j,
    {
        let e = &entities[j];
        if contains_key(loaded, &e.svg_id) && e.has_content {
            updates.push(AabbUpdate { entity: j, extent: helper_calculate_aabb(&e.anchor) });
        }
        j = j + 1;
    }
    updates
}

/// The bounding-box updates for whole-SVG world entities whose component
/// changed: each one whose asset is loaded.
pub fn update_svg_2d_aabb_on_change(loaded: &[AssetKey], entities: &[AabbEntity]) -> (r: Vec<
    AabbUpdate,
>)
    ensures
        r@ == updates_on_change(loaded@, entities@, entities@.len()),
{
    update_svg_layer_2d_aabb_on_change(loaded, entities)
}

/// The updates for one asset go, once each and in order, exactly to the
/// entities that show the asset and hold their content, with their anchor's
/// box.
pub proof fn lemma_updates_for_asset(id: AssetKey, entities: Seq<AabbEntity>, m: nat)
    requires
        m <= entities.len(),
        entities.len() <= usize::MAX,
    ensures
        ({
            let u = updates_for_asset(id, entities, m);
            &&& forall|k: int|
                0 <= k < u.len() ==> {
                    let e = (#[trigger] u[k]).entity as int;
                    &&& 0 <= e < m
                    &&& entities[e].svg_id == id && entities[e].has_content
                    &&& u[k].extent == anchor_extent(entities[e].anchor)
                }
            &&& forall|k: int, l: int| 0 <= k < l < u.len() ==> #[trigger] u[k].entity < #[trigger] u[l].entity
            &&& forall|j: int|
                0 <= j < m && (#[trigger] entities[j]).svg_id == id && entities[j].has_content
                    ==> exists|k: int| 0 <= k < u.len() && u[k].entity == j
        }),
    decreases m,
{
    if m > 0 {
        lemma_updates_for_asset(id, entities, (m - 1) as nat);
        let before = updates_for_asset(id, entities, (m - 1) as nat);
        let u = updates_for_asset(id, entities, m);
        let e = entities[m - 1];
        if e.svg_id == id && e.has_content {
            assert(u[before.len() as int].entity == m - 1);
            assert forall|j: int|
                0 <= j < m && (#[trigger] entities[j]).svg_id == id && entities[j].has_content
                    implies exists|k: int| 0 <= k < u.len() && u[k].entity == j by {
                if j == m - 1 {
                    assert(u[before.len() as int].entity == j);
                } else {
                    let k = choose|k: int| 0 <= k < before.len() && before[k].entity == j;
                    assert(u[k] == before[k]);
                }
            }
        }
    }
}

/// The updates after entities changed go, once each and in order, exactly to
/// the entities whose asset is loaded and holds their content, with their
/// anchor's box.
pub proof fn lemma_updates_on_change(loaded: Seq<AssetKey>, entities: Seq<AabbEntity>, m: nat)
    requires
        m <= entities.len(),
        entities.len() <= usize::MAX,
    ensures
        ({
            let u = updates_on_change(loaded, entities, m);
            &&& forall|k: int|
                0 <= k < u.len() ==> {
                    let e = (#[trigger] u[k]).entity as int;
                    &&& 0 <= e < m
                    &&& refreshed(entities[e], loaded)
                    &&& u[k].extent == anchor_extent(entities[e].anchor)
                }
            &&& forall|k: int, l: int| 0 <= k < l < u.len() ==> #[trigger] u[k].entity < #[trigger] u[l].entity
            &&& forall|j: int|
                0 <= j < m && refreshed(#[trigger] entities[j], loaded) ==> exists|k: int|
                    0 <= k < u.len() && u[k].entity == j
        }),
    decreases m,
{
    if m > 0 {
        lemma_updates_on_change(loaded, entities, (m - 1) as nat);
        let before = updates_on_change(loaded, entities, (m - 1) as nat);
        let u = updates_on_change(loaded, entities, m);
        if refreshed(entities[m - 1], loaded) {
            assert(u[before.len() as int].entity == m - 1);
            assert forall|j: int|
                0 <= j < m && refreshed(#[trigger] entities[j], loaded) implies exists|k: int|
                0 <= k < u.len() && u[k].entity == j by {
                if j == m - 1 {
                    assert(u[before.len() as int].entity == j);
                } else {
                    let k = choose|k: int| 0 <= k < before.len() && before[k].entity == j;
                    assert(u[k] == before[k]);
                }
            }
        }
    }
}

/// Every update after asset events is for an entity that shows an asset
/// reported loaded-with-dependencies and still loaded, holds its content, and
/// gets its anchor's box; and every such entity is updated.
pub proof fn lemma_updates_on_load(
    events: Seq<SvgAssetEvent>,
    loaded: Seq<AssetKey>,
    entities: Seq<AabbEntity>,
    n: nat,
)
    requires
        n <= events.len(),
        entities.len() <= usize::MAX,
    ensures
        ({
            let u = updates_on_load(events, loaded, entities, n);
            &&& forall|k: int|
                0 <= k < u.len() ==> {
                    let e = (#[trigger] u[k]).entity as int;
                    &&& 0 <= e < entities.len()
                    &&& refreshed(entities[e], loaded)
                    &&& exists|i: int|
                        0 <= i < n && events[i] == SvgAssetEvent::LoadedWithDependencies {
                            id: entities[e].svg_id,
                        }
                    &&& u[k].extent == anchor_extent(entities[e].anchor)
                }
            &&& forall|i: int, j: int|
                #![trigger events[i], entities[j]]
                0 <= i < n && 0 <= j < entities.len() && events[i]
                    == (SvgAssetEvent::LoadedWithDependencies { id: entities[j].svg_id })
                    && refreshed(entities[j], loaded) ==> exists|k: int|
                    0 <= k < u.len() && u[k].entity == j
        }),
    decreases n,
{
    if n > 0 {
        lemma_updates_on_load(events, loaded, entities, (n - 1) as nat);
        let before = updates_on_load(events, loaded, entities, (n - 1) as nat);
        let u = updates_on_load(events, loaded, entities, n);
        match events[n - 1] {
            SvgAssetEvent::LoadedWithDependencies { id } => {
                if loaded.contains(id) {
                    let mine = updates_for_asset(id, entities, entities.len());
                    lemma_updates_for_asset(id, entities, entities.len());
                    assert(u == before + mine);
                    assert forall|k: int| 0 <= k < u.len() implies {
                        let e = (#[trigger] u[k]).entity as int;
                        &&& 0 <= e < entities.len()
                        &&& refreshed(entities[e], loaded)
                        &&& exists|i: int|
                            0 <= i < n && events[i] == SvgAssetEvent::LoadedWithDependencies {
                                id: entities[e].svg_id,
                            }
                        &&& u[k].extent == anchor_extent(entities[e].anchor)
                    } by {
                        if k < before.len() {
                            assert(u[k] == before[k]);
                        } else {
                            assert(u[k] == mine[k - before.len()]);
                            let e = u[k].entity as int;
                            assert(events[n - 1] == SvgAssetEvent::LoadedWithDependencies {
                                id: entities[e].svg_id,
                            });
                        }
                    }
                    assert forall|i: int, j: int|
                        #![trigger events[i], entities[j]]
                        0 <= i < n && 0 <= j < entities.len() && events[i]
                            == (SvgAssetEvent::LoadedWithDependencies { id: entities[j].svg_id })
                            && refreshed(entities[j], loaded) implies exists|k: int|
                        0 <= k < u.len() && u[k].entity == j by {
                        if i < n - 1 {
                            let k = choose|k: int|
                                0 <= k < before.len() && before[k].entity == j;
                            assert(u[k] == before[k]);
                        } else {
                            assert(entities[j].svg_id == id);
                            assert(entities[j].svg_id == id && entities[j].has_content);
                            let k = choose|k: int| 0 <= k < mine.len() && mine[k].entity == j;
                            assert(u[before.len() + k] == mine[k]);
                        }
                    }
                } else {
                    assert forall|i: int, j: int|
                        #![trigger events[i], entities[j]]
                        0 <= i < n && 0 <= j < entities.len() && events[i]
                            == (SvgAssetEvent::LoadedWithDependencies { id: entities[j].svg_id })
                            && refreshed(entities[j], loaded) implies exists|k: int|
                        0 <= k < u.len() && u[k].entity == j by {
                        if i == n - 1 {
                            assert(entities[j].svg_id == id);
                        }
                    }
                }
            },
            _ => {
                assert forall|i: int, j: int|
                    #![trigger events[i], entities[j]]
                    0 <= i < n && 0 <= j < entities.len() && events[i]
                        == (SvgAssetEvent::LoadedWithDependencies { id: entities[j].svg_id })
                        && refreshed(entities[j], loaded) implies exists|k: int|
                    0 <= k < u.len() && u[k].entity == j by {
                    if i == n - 1 {
                        assert(false);
                    }
                }
            },
        }
    }
}

} // verus!
