//! Which SVG entities are handed to the render world each frame.
//!
//! An entity is extracted when it is visible, its asset is loaded, and some
//! camera that draws Vello content renders one of its render layers.
use vstd::prelude::*;

verus! {

/// A set of render layers, as the layer indices it holds.
pub struct RenderLayerSet {
    pub layers: Vec<usize>,
}

impl View for RenderLayerSet {
    type V = Set<usize>;

    open spec fn view(&self) -> Set<usize> {
        self.layers@.to_set()
    }
}

impl Default for RenderLayerSet {
    /// The default set holds layer 0 alone.
    fn default() -> (r: Self)
        ensures
            r@ == set![0usize],
    {
        let r = RenderLayerSet { layers: vec![0] };
        assert(r@ =~= set![0usize]) by {
            assert(r.layers@[0] == 0);
        }
        r
    }
}

/// The layers an entity or camera is on: its own set, or layer 0 alone when
/// it has none.
pub open spec fn effective_layers(layers: Option<RenderLayerSet>) -> Set<usize> {
    match layers {
        Some(l) => l@,
        None => set![0usize],
    }
}

/// Two sets of layers share a layer.
pub open spec fn layers_intersect(a: Set<usize>, b: Set<usize>) -> bool {
    exists|l: usize| a.contains(l) && b.contains(l)
}

impl RenderLayerSet {
    /// Whether the two sets share a layer.
    pub fn intersects(&self, other: &RenderLayerSet) -> (r: bool)
        ensures
            r == layers_intersect(self@, other@),
    {
        let mut i: usize = 0;
        while i < self.layers.len()
            invariant
                i <= self.layers@.len(),
                forall|a: int, b: int|
                    0 <= a < i && 0 <= b < other.layers@.len() ==> self.layers@[a]
                        != other.layers@[b],
            decreases self.layers@.len() - i,
        {
            let mut j: usize = 0;
            while j < other.layers.len()
                invariant
                    i < self.layers@.len(),
                    j <= other.layers@.len(),
                    forall|a: int, b: int|
                        0 <= a < i && 0 <= b < other.layers@.len() ==> self.layers@[a]
                            != other.layers@[b],
                    forall|b: int| 0 <= b < j ==> self.layers@[i as int] != other.layers@[b],
                decreases other.layers@.len() - j,
            {
                if self.layers[i] == other.layers[j] {
                    proof {
                        let l = self.layers@[i as int];
                        assert(self.layers@[i as int] == l);
                        assert(other.layers@[j as int] == l);
                        assert(self.layers@.contains(l));
                        assert(other.layers@.contains(l));
                        assert(self@.contains(l) && other@.contains(l));
                    }
                    return true;
                }
                j = j + 1;
            }
            i = i + 1;
        }
        proof {
            assert forall|l: usize| !(self@.contains(l) && other@.contains(l)) by {
                if self@.contains(l) && other@.contains(l) {
                    let a = choose|a: int| 0 <= a < self.layers@.len() && self.layers@[a] == l;
                    let b = choose|b: int| 0 <= b < other.layers@.len() && other.layers@[b] == l;
                    assert(self.layers@[a] != other.layers@[b]);
                }
            }
        }
        false
    }
}

/// Whether layers given as an optional set (default: layer 0) intersect.
pub fn optional_layers_intersect(a: &Option<RenderLayerSet>, b: &Option<RenderLayerSet>) -> (r:
    bool)
    ensures
        r == layers_intersect(effective_layers(*a), effective_layers(*b)),
{
    let default_layers = RenderLayerSet::default();
    let x = match a {
        Some(l) => l,
        None => &default_layers,
    };
    let y = match b {
        Some(l) => l,
        None => &default_layers,
    };
    x.intersects(y)
}

/// Some camera renders an entity on `layers`.
pub open spec fn some_camera_renders(
    layers: Option<RenderLayerSet>,
    cameras: Seq<Option<RenderLayerSet>>,
) -> bool {
    exists|c: int|
        0 <= c < cameras.len() && layers_intersect(
            effective_layers(layers),
            effective_layers(#[trigger] cameras[c]),
        )
}

/// Whether any of the cameras renders an entity on `layers`.
pub fn any_camera_renders(layers: &Option<RenderLayerSet>, cameras: &[Option<RenderLayerSet>]) -> (r:
    bool)
    ensures
        r == some_camera_renders(*layers, cameras@),
{
    let mut c: usize = 0;
    while c < cameras.len()
        invariant
            c <= cameras@.len(),
            forall|k: int|
                0 <= k < c ==> !layers_intersect(
                    effective_layers(*layers),
                    effective_layers(#[trigger] cameras@[k]),
                ),
        decreases cameras@.len() - c,
    {
        if optional_layers_intersect(layers, &cameras[c]) {
            return true;
        }
        c = c + 1;
    }
    false
}

/// A world-space SVG entity, as extraction sees it.
pub struct WorldSvgEntity {
    pub view_visible: bool,
    pub inherited_visible: bool,
    /// The entity's asset is loaded (and, for a layer entity, holds the layer).
    pub asset_loaded: bool,
    pub render_layers: Option<RenderLayerSet>,
}

/// A UI SVG entity, as extraction sees it. It carries no view visibility:
/// UI SVGs are extracted whatever their view visibility is.
pub struct UiSvgEntity {
    pub inherited_visible: bool,
    pub asset_loaded: bool,
    pub render_layers: Option<RenderLayerSet>,
}

/// The per-frame counts of extracted SVG entities.
pub struct SvgEntityCounts {
    pub n_world_svgs: usize,
    pub n_ui_svgs: usize,
}

/// A world entity is extracted: visible in view and by inheritance, loaded,
/// and rendered by some camera.
pub open spec fn world_entity_extracted(
    e: WorldSvgEntity,
    cameras: Seq<Option<RenderLayerSet>>,
) -> bool {
    &&& e.view_visible
    &&& e.inherited_visible
    &&& e.asset_loaded
    &&& some_camera_renders(e.render_layers, cameras)
}

/// A UI entity is extracted: visible by inheritance (UI ignores view
/// visibility), loaded, and rendered by some camera.
pub open spec fn ui_entity_extracted(e: UiSvgEntity, cameras: Seq<Option<RenderLayerSet>>) -> bool {
    &&& e.inherited_visible
    &&& e.asset_loaded
    &&& some_camera_renders(e.render_layers, cameras)
}

/// The indices, in order, of the world entities among the first `n` that are
/// extracted.
pub open spec fn world_selection(
    entities: Seq<WorldSvgEntity>,
    cameras: Seq<Option<RenderLayerSet>>,
    n: nat,
) -> Seq<usize>
    decreases n,
{
    if n == 0 {
        Seq::empty()
    } else {
        let before = world_selection(entities, cameras, (n - 1) as nat);
        if world_entity_extracted(entities[n - 1], cameras) {
            before.push((n - 1) as usize)
        } else {
            before
        }
    }
}

/// The indices, in order, of the UI entities among the first `n` that are
/// extracted.
pub open spec fn ui_selection(
    entities: Seq<UiSvgEntity>,
    cameras: Seq<Option<RenderLayerSet>>,
    n: nat,
) -> Seq<usize>
    decreases n,
{
    if n == 0 {
        Seq::empty()
    } else {
        let before = ui_selection(entities, cameras, (n - 1) as nat);
        if ui_entity_extracted(entities[n - 1], cameras) {
            before.push((n - 1) as usize)
        } else {
            before
        }
    }
}

/// Picks the world entities to extract.
fn select_world_entities(entities: &[WorldSvgEntity], cameras: &[Option<RenderLayerSet>]) -> (r:
    Vec<usize>)
    ensures
        r@ == world_selection(entities@, cameras@, entities@.len()),
{
    let mut selected: Vec<usize> = Vec::new();
    let mut i: usize = 0;
    while i < entities.len()
        invariant
            i <= entities@.len(),
            selected@ == world_selection(entities@, cameras@, i as nat),
        decreases entities@.len() - i,
    {
        let e = &entities[i];
        if e.view_visible && e.inherited_visible && e.asset_loaded && any_camera_renders(
            &e.render_layers,
            cameras,
        ) {
            selected.push(i);
        }
        i = i + 1;
    }
    selected
}

/// Picks the world SVG entities to extract, and records how many there are.
pub fn extract_world_svg_assets(
    entities: &[WorldSvgEntity],
    cameras: &[Option<RenderLayerSet>],
    counts: &mut SvgEntityCounts,
) -> (r: Vec<usize>)
    ensures
        r@ == world_selection(entities@, cameras@, entities@.len()),
        final(counts).n_world_svgs == r@.len(),
        final(counts).n_ui_svgs == old(counts).n_ui_svgs,
{
    let selected = select_world_entities(entities, cameras);
    proof {
        lemma_world_selection_bounded(entities@, cameras@, entities@.len());
    }
    counts.n_world_svgs = selected.len();
    selected
}

/// Picks the world SVG layer entities to extract; they add to the world SVG
/// count of this frame.
pub fn extract_world_svg_layer_assets(
    entities: &[WorldSvgEntity],
    cameras: &[Option<RenderLayerSet>],
    counts: &mut SvgEntityCounts,
) -> (r: Vec<usize>)
    requires
        old(counts).n_world_svgs + world_selection(entities@, cameras@, entities@.len()).len()
            <= usize::MAX,
    ensures
        r@ == world_selection(entities@, cameras@, entities@.len()),
        final(counts).n_world_svgs == old(counts).n_world_svgs + r@.len(),
        final(counts).n_ui_svgs == old(counts).n_ui_svgs,
{
    let selected = select_world_entities(entities, cameras);
    counts.n_world_svgs = counts.n_world_svgs + selected.len();
    selected
}

/// Picks the UI SVG entities to extract, and records how many there are.
pub fn extract_ui_svg_assets(
    entities: &[UiSvgEntity],
    cameras: &[Option<RenderLayerSet>],
    counts: &mut SvgEntityCounts,
) -> (r: Vec<usize>)
    ensures
        r@ == ui_selection(entities@, cameras@, entities@.len()),
        final(counts).n_ui_svgs == r@.len(),
        final(counts).n_world_svgs == old(counts).n_world_svgs,
{
    let mut selected: Vec<usize> = Vec::new();
    let mut i: usize = 0;
    while i < entities.len()
        invariant
            i <= entities@.len(),
            selected@ == ui_selection(entities@, cameras@, i as nat),
        decreases entities@.len() - i,
    {
        let e = &entities[i];
        if e.inherited_visible && e.asset_loaded && any_camera_renders(&e.render_layers, cameras) {
            selected.push(i);
        }
        i = i + 1;
    }
    counts.n_ui_svgs = selected.len();
    selected
}

/// No more world entities are extracted than there are.
pub proof fn lemma_world_selection_bounded(
    entities: Seq<WorldSvgEntity>,
    cameras: Seq<Option<RenderLayerSet>>,
    n: nat,
)
    ensures
        world_selection(entities, cameras, n).len() <= n,
    decreases n,
{
    if n > 0 {
        lemma_world_selection_bounded(entities, cameras, (n - 1) as nat);
    }
}

/// Whether an entity is rendered does not depend on the order in which the
/// cameras are listed (nor on repeated cameras): only on which cameras there
/// are.
pub proof fn lemma_camera_order_irrelevant(
    layers: Option<RenderLayerSet>,
    cameras: Seq<Option<RenderLayerSet>>,
    reordered: Seq<Option<RenderLayerSet>>,
)
    requires
        cameras.to_set() == reordered.to_set(),
    ensures
        some_camera_renders(layers, cameras) == some_camera_renders(layers, reordered),
{
    if some_camera_renders(layers, cameras) {
        let c = choose|c: int|
            0 <= c < cameras.len() && layers_intersect(
                effective_layers(layers),
                effective_layers(#[trigger] cameras[c]),
            );
        assert(cameras.to_set().contains(cameras[c]));
        assert(reordered.contains(cameras[c]));
        let d = choose|d: int| 0 <= d < reordered.len() && reordered[d] == cameras[c];
        assert(layers_intersect(effective_layers(layers), effective_layers(reordered[d])));
    }
    if some_camera_renders(layers, reordered) {
        let d = choose|d: int|
            0 <= d < reordered.len() && layers_intersect(
                effective_layers(layers),
                effective_layers(#[trigger] reordered[d]),
            );
        assert(reordered.to_set().contains(reordered[d]));
        assert(cameras.contains(reordered[d]));
        let c = choose|c: int| 0 <= c < cameras.len() && cameras[c] == reordered[d];
        assert(layers_intersect(effective_layers(layers), effective_layers(cameras[c])));
    }
}

/// The UI entities extracted are, in increasing order and each once,
/// exactly those that are visible by inheritance, whose asset is loaded and
/// that some camera renders.
pub proof fn lemma_ui_extraction_exact(
    entities: Seq<UiSvgEntity>,
    cameras: Seq<Option<RenderLayerSet>>,
    n: nat,
)
    requires
        n <= entities.len(),
        entities.len() <= usize::MAX,
    ensures
        ({
            let r = ui_selection(entities, cameras, n);
            &&& forall|k: int|
                0 <= k < r.len() ==> {
                    let i = (#[trigger] r[k]) as int;
                    &&& 0 <= i < n
                    &&& entities[i].inherited_visible
                    &&& entities[i].asset_loaded
                    &&& some_camera_renders(entities[i].render_layers, cameras)
                }
            &&& forall|k: int, l: int| 0 <= k < l < r.len() ==> #[trigger] r[k] < #[trigger] r[l]
            &&& forall|i: int|
                0 <= i < n && (#[trigger] entities[i]).inherited_visible && entities[i].asset_loaded
                    && some_camera_renders(entities[i].render_layers, cameras) ==> r.contains(
                    i as usize,
                )
        }),
    decreases n,
{
    if n > 0 {
        lemma_ui_extraction_exact(entities, cameras, (n - 1) as nat);
        let before = ui_selection(entities, cameras, (n - 1) as nat);
        let r = ui_selection(entities, cameras, n);
        if ui_entity_extracted(entities[n - 1], cameras) {
            assert(r[before.len() as int] == (n - 1) as usize);
            assert forall|i: int|
                0 <= i < n && (#[trigger] entities[i]).inherited_visible && entities[i].asset_loaded
                    && some_camera_renders(entities[i].render_layers, cameras) implies r.contains(
                i as usize,
            ) by {
                if i == n - 1 {
                    assert(r[before.len() as int] == i as usize);
                } else {
                    let k = choose|k: int| 0 <= k < before.len() && before[k] == i as usize;
                    assert(r[k] == before[k]);
                }
            }
        }
    }
}

/// The world entities extracted are, in increasing order and each once,
/// exactly those visible in view and by inheritance, whose asset is loaded
/// and that some camera renders.
pub proof fn lemma_world_extraction_exact(
    entities: Seq<WorldSvgEntity>,
    cameras: Seq<Option<RenderLayerSet>>,
    n: nat,
)
    requires
        n <= entities.len(),
        entities.len() <= usize::MAX,
    ensures
        ({
            let r = world_selection(entities, cameras, n);
            &&& forall|k: int|
                0 <= k < r.len() ==> {
                    let i = (#[trigger] r[k]) as int;
                    &&& 0 <= i < n
                    &&& entities[i].view_visible
                    &&& entities[i].inherited_visible
                    &&& entities[i].asset_loaded
                    &&& some_camera_renders(entities[i].render_layers, cameras)
                }
            &&& forall|k: int, l: int| 0 <= k < l < r.len() ==> #[trigger] r[k] < #[trigger] r[l]
            &&& forall|i: int|
                0 <= i < n && (#[trigger] entities[i]).view_visible && entities[i].inherited_visible
                    && entities[i].asset_loaded && some_camera_renders(
                    entities[i].render_layers,
                    cameras,
                ) ==> r.contains(i as usize)
        }),
    decreases n,
{
    if n > 0 {
        lemma_world_extraction_exact(entities, cameras, (n - 1) as nat);
        let before = world_selection(entities, cameras, (n - 1) as nat);
        let r = world_selection(entities, cameras, n);
        if world_entity_extracted(entities[n - 1], cameras) {
            assert(r[before.len() as int] == (n - 1) as usize);
            assert forall|i: int|
                0 <= i < n && (#[trigger] entities[i]).view_visible && entities[i].inherited_visible
                    && entities[i].asset_loaded && some_camera_renders(
                    entities[i].render_layers,
                    cameras,
                ) implies r.contains(i as usize) by {
                if i == n - 1 {
                    assert(r[before.len() as int] == i as usize);
                } else {
                    let k = choose|k: int| 0 <= k < before.len() && before[k] == i as usize;
                    assert(r[k] == before[k]);
                }
            }
        }
    }
}

} // verus!
