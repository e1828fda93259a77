//! Rendering UI SVGs into their per-entity images, once per image.
use crate::asset_key::AssetKey;
use vstd::prelude::*;

verus! {

/// How an SVG's opacity compares with the two thresholds that matter:
/// at most 0, strictly between 0 and 1, or anything else.
#[derive(Clone, Copy, Debug, PartialEq, Eq, Structural)]
pub enum SvgOpacity {
    Invisible,
    Translucent,
    Opaque,
}

/// One extracted UI SVG, as the texture renderer sees it.
#[derive(Clone, Copy, Debug, PartialEq, Eq, Structural)]
pub struct UiSvgRenderInput {
    /// The entity's render image, if it has one.
    pub render_image: Option<AssetKey>,
    /// The GPU side of that image is ready.
    pub gpu_image_ready: bool,
    pub opacity: SvgOpacity,
}

/// What the renderer does for one UI SVG.
#[derive(Clone, Copy, Debug, PartialEq, Eq, Structural)]
pub enum UiRenderStep {
    /// Nothing: no image, already rendered, or the GPU image is not ready.
    Skip,
    /// Nothing is drawn (the SVG is invisible), but the image counts as rendered.
    MarkRendered,
    /// Draw the SVG into its image, inside an opacity layer when translucent.
    Render { with_alpha_layer: bool },
}

/// The render images that have already been rendered, keyed by image id.
/// A new image (after a resize or an asset change) has a new id, so it is
/// rendered again.
pub struct UiSvgRenderCache {
    rendered: Vec<AssetKey>,
}

impl View for UiSvgRenderCache {
    type V = Set<AssetKey>;

    closed spec fn view(&self) -> Set<AssetKey> {
        self.rendered@.to_set()
    }
}

impl UiSvgRenderCache {
    /// An empty cache.
    pub fn new() -> (r: Self)
        ensures
            r@ == Set::<AssetKey>::empty(),
    {
        let r = UiSvgRenderCache { rendered: Vec::new() };
        assert(r@ =~= Set::<AssetKey>::empty());
        r
    }

    /// Whether the image has been rendered.
    pub fn contains(&self, image: &AssetKey) -> (r: bool)
        ensures
            r == self@.contains(*image),
    {
        crate::asset_key::contains_key(self.rendered.as_slice(), image)
    }

    /// Records the image as rendered.
    pub fn insert(&mut self, image: AssetKey)
        ensures
            final(self)@ == old(self)@.insert(image),
    {
        let ghost before = self.rendered@;
        if !self.contains(&image) {
            self.rendered.push(image);
            assert forall|k: AssetKey| #[trigger] self.rendered@.contains(k) <==> (before.contains(
                k,
            ) || k == image) by {
                if k == image {
                    assert(self.rendered@[before.len() as int] == k);
                }
                if before.contains(k) {
                    let j = choose|j: int| 0 <= j < before.len() && before[j] == k;
                    assert(self.rendered@[j] == k);
                }
                if self.rendered@.contains(k) && k != image {
                    let j = choose|j: int| 0 <= j < self.rendered@.len() && self.rendered@[j] == k;
                    assert(before[j] == k);
                }
            }
        }
        assert(self@ =~= old(self)@.insert(image));
    }
}

/// The step for one SVG, and the rendered set afterwards.
pub open spec fn render_step(rendered: Set<AssetKey>, svg: UiSvgRenderInput) -> (
    UiRenderStep,
    Set<AssetKey>,
) {
    match svg.render_image {
        None => (UiRenderStep::Skip, rendered),
        Some(image) => if rendered.contains(image) || !svg.gpu_image_ready {
            (UiRenderStep::Skip, rendered)
        } else {
            match svg.opacity {
                SvgOpacity::Invisible => (UiRenderStep::MarkRendered, rendered.insert(image)),
                SvgOpacity::Translucent => (
                    UiRenderStep::Render { with_alpha_layer: true },
                    rendered.insert(image),
                ),
                SvgOpacity::Opaque => (
                    UiRenderStep::Render { with_alpha_layer: false },
                    rendered.insert(image),
                ),
            }
        },
    }
}

/// The steps for the first `n` SVGs, taken in order, and the rendered set
/// afterwards.
pub open spec fn render_steps(rendered: Set<AssetKey>, svgs: Seq<UiSvgRenderInput>, n: nat) -> (
    Seq<UiRenderStep>,
    Set<AssetKey>,
)
    decreases n,
{
    if n == 0 {
        (Seq::empty(), rendered)
    } else {
        let (steps, after) = render_steps(rendered, svgs, (n - 1) as nat);
        let (step, last) = render_step(after, svgs[n - 1]);
        (steps.push(step), last)
    }
}

/// Decides the step for one SVG and records its image when it is handled.
pub fn render_ui_svg_step(cache: &mut UiSvgRenderCache, svg: &UiSvgRenderInput) -> (r:
    UiRenderStep)
    ensures
        (r, final(cache)@) == render_step(old(cache)@, *svg),
{
    let image = match svg.render_image {
        None => {
            return UiRenderStep::Skip;
        },
        Some(image) => image,
    };
    if cache.contains(&image) || !svg.gpu_image_ready {
        return UiRenderStep::Skip;
    }
    cache.insert(image);
    match svg.opacity {
        SvgOpacity::Invisible => UiRenderStep::MarkRendered,
        SvgOpacity::Translucent => UiRenderStep::Render { with_alpha_layer: true },
        SvgOpacity::Opaque => UiRenderStep::Render { with_alpha_layer: false },
    }
}

/// Decides, in order, what to do for each extracted UI SVG, recording every
/// image that is rendered (or skipped for being invisible).
pub fn render_ui_svgs_to_textures(cache: &mut UiSvgRenderCache, svgs: &[UiSvgRenderInput]) -> (r:
    Vec<UiRenderStep>)
    ensures
        (r@, final(cache)@) == render_steps(old(cache)@, svgs@, svgs@.len()),
{
    let mut steps: Vec<UiRenderStep> = Vec::new();
    let mut i: usize = 0;
    while i < svgs.len()
        invariant
            i <= svgs@.len(),
            (steps@, cache@) == render_steps(old(cache)@, svgs@, i as nat),
        decreases svgs@.len() - i,
    {
        let step = render_ui_svg_step(cache, &svgs[i]);
        steps.push(step);
        i = i + 1;
    }
    steps
}

/// An SVG is ready to be handled: it has a render image whose GPU side exists.
pub open spec fn ready_image(svg: UiSvgRenderInput) -> Option<AssetKey> {
    if svg.gpu_image_ready {
        svg.render_image
    } else {
        None
    }
}

/// What a pass over the first `n` SVGs does: one step per SVG; the rendered
/// set only grows; every ready image ends up in it; a step that is not a
/// skip is for a ready image that was not yet rendered; and no two such
/// steps share an image.
pub proof fn lemma_render_steps(rendered: Set<AssetKey>, svgs: Seq<UiSvgRenderInput>, n: nat)
    requires
        n <= svgs.len(),
    ensures
        ({
            let (steps, after) = render_steps(rendered, svgs, n);
            &&& steps.len() == n
            &&& rendered.subset_of(after)
            &&& forall|i: int|
                0 <= i < n && (#[trigger] ready_image(svgs[i])) is Some ==> after.contains(
                    ready_image(svgs[i])->0,
                )
            &&& forall|i: int|
                0 <= i < n && #[trigger] steps[i] != UiRenderStep::Skip ==> ready_image(
                    svgs[i],
                ) is Some && !rendered.contains(ready_image(svgs[i])->0)
            &&& forall|i: int, j: int|
                0 <= i < j < n && #[trigger] steps[i] != UiRenderStep::Skip && #[trigger] steps[j]
                    != UiRenderStep::Skip ==> ready_image(svgs[i]) != ready_image(svgs[j])
        }),
    decreases n,
{
    if n > 0 {
        lemma_render_steps(rendered, svgs, (n - 1) as nat);
        let (prev_steps, mid) = render_steps(rendered, svgs, (n - 1) as nat);
        let (steps, after) = render_steps(rendered, svgs, n);
        let (step, last) = render_step(mid, svgs[n - 1]);
        assert(steps == prev_steps.push(step));
        assert(after == last);
        assert(mid.subset_of(after));
        assert forall|i: int|
            0 <= i < n && #[trigger] steps[i] != UiRenderStep::Skip implies ready_image(
                svgs[i],
            ) is Some && !rendered.contains(ready_image(svgs[i])->0) by {
            if i < n - 1 {
                assert(steps[i] == prev_steps[i]);
            }
        }
        assert forall|i: int, j: int|
            0 <= i < j < n && #[trigger] steps[i] != UiRenderStep::Skip && #[trigger] steps[j]
                != UiRenderStep::Skip implies ready_image(svgs[i]) != ready_image(svgs[j]) by {
            assert(steps[i] == prev_steps[i]);
            if j < n - 1 {
                assert(steps[j] == prev_steps[j]);
            } else {
                assert(mid.contains(ready_image(svgs[i])->0));
            }
        }
    }
}

/// A pass from a rendered set that already holds every ready image of the
/// SVGs skips them all.
pub proof fn lemma_all_skipped(rendered: Set<AssetKey>, svgs: Seq<UiSvgRenderInput>, n: nat)
    requires
        n <= svgs.len(),
        forall|i: int|
            0 <= i < n && (#[trigger] ready_image(svgs[i])) is Some ==> rendered.contains(
                ready_image(svgs[i])->0,
            ),
    ensures
        render_steps(rendered, svgs, n).1 == rendered,
        forall|i: int| 0 <= i < n ==> #[trigger] render_steps(rendered, svgs, n).0[i]
            == UiRenderStep::Skip,
    decreases n,
{
    if n > 0 {
        lemma_all_skipped(rendered, svgs, (n - 1) as nat);
        lemma_render_steps(rendered, svgs, n);
        let (prev_steps, mid) = render_steps(rendered, svgs, (n - 1) as nat);
        let steps = render_steps(rendered, svgs, n).0;
        if ready_image(svgs[n - 1]) is Some {
            assert(rendered.contains(ready_image(svgs[n - 1])->0));
        }
        assert(render_steps(rendered, svgs, n).1 == rendered);
        assert forall|i: int| 0 <= i < n implies #[trigger] steps[i] == UiRenderStep::Skip by {
            if i < n - 1 {
                assert(steps[i] == prev_steps[i]);
            }
        }
    }
}

/// Each render image is handled at most once: a pass never handles an image
/// that was already rendered, nor the same image twice.
pub proof fn lemma_each_image_handled_once(
    rendered: Set<AssetKey>,
    svgs: Seq<UiSvgRenderInput>,
)
    ensures
        ({
            let steps = render_steps(rendered, svgs, svgs.len()).0;
            &&& forall|i: int|
                0 <= i < svgs.len() && #[trigger] steps[i] != UiRenderStep::Skip ==> !rendered.contains(
                    svgs[i].render_image->0,
                )
            &&& forall|i: int, j: int|
                0 <= i < j < svgs.len() && #[trigger] steps[i] != UiRenderStep::Skip
                    && #[trigger] steps[j] != UiRenderStep::Skip ==> svgs[i].render_image
                    != svgs[j].render_image
        }),
{
    lemma_render_steps(rendered, svgs, svgs.len());
    let steps = render_steps(rendered, svgs, svgs.len()).0;
    assert forall|i: int|
        0 <= i < svgs.len() && #[trigger] steps[i] != UiRenderStep::Skip implies !rendered.contains(
        svgs[i].render_image->0,
    ) by {
        assert(ready_image(svgs[i]) == svgs[i].render_image);
    }
    assert forall|i: int, j: int|
        0 <= i < j < svgs.len() && #[trigger] steps[i] != UiRenderStep::Skip
            && #[trigger] steps[j] != UiRenderStep::Skip implies svgs[i].render_image
        != svgs[j].render_image by {
        assert(ready_image(svgs[i]) == svgs[i].render_image);
        assert(ready_image(svgs[j]) == svgs[j].render_image);
    }
}

/// The rendered set only grows, and once a pass is done, a second pass over
/// the same SVGs draws nothing and changes nothing.
pub proof fn lemma_second_pass_is_idle(rendered: Set<AssetKey>, svgs: Seq<UiSvgRenderInput>)
    ensures
        rendered.subset_of(render_steps(rendered, svgs, svgs.len()).1),
        ({
            let after = render_steps(rendered, svgs, svgs.len()).1;
            &&& render_steps(after, svgs, svgs.len()).1 == after
            &&& forall|i: int|
                0 <= i < svgs.len() ==> #[trigger] render_steps(after, svgs, svgs.len()).0[i]
                    == UiRenderStep::Skip
        }),
{
    lemma_render_steps(rendered, svgs, svgs.len());
    let after = render_steps(rendered, svgs, svgs.len()).1;
    lemma_all_skipped(after, svgs, svgs.len());
}

/// A render image that is not in the cache (a new image, made after a
/// resize or an asset change) is handled as soon as its GPU side is ready.
pub proof fn lemma_new_image_is_handled(rendered: Set<AssetKey>, svg: UiSvgRenderInput)
    requires
        svg.render_image matches Some(image) && !rendered.contains(image),
        svg.gpu_image_ready,
    ensures
        render_step(rendered, svg).0 != UiRenderStep::Skip,
        render_step(rendered, svg).1 == rendered.insert(svg.render_image->0),
{
}

} // verus!
