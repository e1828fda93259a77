//! Per-entity render images for UI SVGs: when a new one must be created.
use crate::asset_key::AssetKey;
use vstd::prelude::*;

verus! {

/// A size in whole pixels.
#[derive(Clone, Copy, Debug, PartialEq, Eq, Structural)]
pub struct PixelSize {
    pub width: u32,
    pub height: u32,
}

/// The render image an entity already has.
#[derive(Clone, Copy, Debug, PartialEq, Eq, Structural)]
pub struct ExistingRenderImage {
    /// The SVG asset the image was made for.
    pub svg_id: AssetKey,
    /// The image's size, when the image asset is still alive.
    pub image_size: Option<PixelSize>,
}

/// A UI SVG entity, as render-image management sees it.
#[derive(Clone, Copy, Debug, PartialEq, Eq, Structural)]
pub struct UiSvgImageInput {
    /// The entity's SVG asset.
    pub svg_id: AssetKey,
    /// The asset's width and height rounded up to whole pixels, when the
    /// asset is loaded.
    pub svg_pixel_size: Option<PixelSize>,
    pub existing: Option<ExistingRenderImage>,
}

/// The size of the image an SVG of the given whole-pixel size renders into:
/// at least one pixel each way.
pub open spec fn image_target(size: PixelSize) -> PixelSize {
    PixelSize {
        width: if size.width >= 1 {
            size.width
        } else {
            1
        },
        height: if size.height >= 1 {
            size.height
        } else {
            1
        },
    }
}

/// The image to create for an entity, if any: none while its SVG is not
/// loaded, none when its image was made for the same SVG and has the target
/// size, and otherwise a new one of the target size.
pub open spec fn image_request(input: UiSvgImageInput) -> Option<PixelSize> {
    match input.svg_pixel_size {
        None => None,
        Some(size) => {
            let target = image_target(size);
            if input.existing matches Some(e) && e.svg_id == input.svg_id && e.image_size == Some(
                target,
            ) {
                None
            } else {
                Some(target)
            }
        },
    }
}

/// The size of the render image for an SVG of the given whole-pixel size.
pub fn render_image_target(size: PixelSize) -> (r: PixelSize)
    ensures
        r == image_target(size),
{
    PixelSize {
        width: if size.width >= 1 {
            size.width
        } else {
            1
        },
        height: if size.height >= 1 {
            size.height
        } else {
            1
        },
    }
}

/// Decides whether the entity needs a new render image, and of which size.
pub fn render_image_request(input: &UiSvgImageInput) -> (r: Option<PixelSize>)
    ensures
        r == image_request(*input),
{
    let size = match input.svg_pixel_size {
        None => {
            return None;
        },
        Some(size) => size,
    };
    let target = render_image_target(size);
    if let Some(existing) = &input.existing {
        if existing.svg_id == input.svg_id {
            if let Some(current) = existing.image_size {
                if current == target {
                    return None;
                }
            }
        }
    }
    Some(target)
}

/// Decides, for each UI SVG entity, whether a new render image must be
/// created for it.
pub fn manage_ui_svg_render_images(inputs: &[UiSvgImageInput]) -> (r: Vec<Option<PixelSize>>)
    ensures
        r@.len() == inputs@.len(),
        forall|i: int| 0 <= i < inputs@.len() ==> #[trigger] r@[i] == image_request(inputs@[i]),
{
    let mut requests: Vec<Option<PixelSize>> = Vec::new();
    let mut i: usize = 0;
    while i < inputs.len()
        invariant
            i <= inputs@.len(),
            requests@.len() == i,
            forall|j: int| 0 <= j < i ==> #[trigger] requests@[j] == image_request(inputs@[j]),
        decreases inputs@.len() - i,
    {
        requests.push(render_image_request(&inputs[i]));
        i = i + 1;
    }
    requests
}

/// A UI SVG entity whose SVG or layout node changed, as content sizing sees it.
#[derive(Clone, Copy, Debug, PartialEq, Eq, Structural)]
pub struct UiContentSizeInput {
    /// The entity's SVG asset is loaded.
    pub svg_loaded: bool,
    /// The entity draws through a render image (its size then comes from the
    /// image node instead).
    pub has_render_image: bool,
}

/// A changed UI SVG entity gets a fixed content size from its SVG: it draws
/// without a render image and its SVG is loaded.
pub open spec fn gets_content_size(e: UiContentSizeInput) -> bool {
    !e.has_render_image && e.svg_loaded
}

/// The indices, in order, of the first `n` entities that get a content size.
pub open spec fn content_size_selection(entities: Seq<UiContentSizeInput>, n: nat) -> Seq<usize>
    decreases n,
{
    if n == 0 {
        Seq::empty()
    } else {
        let before = content_size_selection(entities, (n - 1) as nat);
        if gets_content_size(entities[n - 1]) {
            before.push((n - 1) as usize)
        } else {
            before
        }
    }
}

/// Picks the changed UI SVG entities whose content size is set from their SVG.
pub fn update_ui_svg_content_size_on_change(entities: &[UiContentSizeInput]) -> (r: Vec<usize>)
    ensures
        r@ == content_size_selection(entities@, entities@.len()),
{
    let mut selected: Vec<usize> = Vec::new();
    let mut i: usize = 0;
    while i < entities.len()
        invariant
            i <= entities@.len(),
            selected@ == content_size_selection(entities@, i as nat),
        decreases entities@.len() - i,
    {
        if !entities[i].has_render_image && entities[i].svg_loaded {
            selected.push(i);
        }
        i = i + 1;
    }
    selected
}

/// A requested image is never empty.
pub proof fn lemma_requested_image_not_empty(input: UiSvgImageInput)
    ensures
        image_request(input) matches Some(size) ==> size.width >= 1 && size.height >= 1,
{
}

/// Once the requested image is attached to the entity, the entity asks for
/// nothing more until its SVG or size changes.
pub proof fn lemma_request_settles(input: UiSvgImageInput)
    requires
        image_request(input) is Some,
    ensures
        image_request(
            UiSvgImageInput {
                existing: Some(
                    ExistingRenderImage {
                        svg_id: input.svg_id,
                        image_size: image_request(input),
                    },
                ),
                ..input
            },
        ) is None,
{
}

/// When an entity's SVG changes, a new render image is requested for it
/// (and, having a new id, it will be rendered afresh).
pub proof fn lemma_svg_change_requests_image(input: UiSvgImageInput)
    requires
        input.svg_pixel_size is Some,
        input.existing matches Some(e) && e.svg_id != input.svg_id,
    ensures
        image_request(input) == Some(image_target(input.svg_pixel_size->0)),
{
}

/// The entity already has an image made for its SVG, `width` by `height`
/// pixels.
pub open spec fn has_image_of(input: UiSvgImageInput, width: u32, height: u32) -> bool {
    &&& input.existing is Some
    &&& input.existing->0.svg_id == input.svg_id
    &&& input.existing->0.image_size is Some
    &&& input.existing->0.image_size->0.width == width
    &&& input.existing->0.image_size->0.height == height
}

/// What a request decides: nothing while the SVG is not loaded; otherwise no
/// new image exactly when the entity already has one made for the same SVG
/// whose width and height both equal the SVG's whole-pixel size (at least
/// one pixel each way), and else a new image of that size.
pub proof fn lemma_image_request_decides(input: UiSvgImageInput)
    ensures
        input.svg_pixel_size is None ==> image_request(input) is None,
        input.svg_pixel_size matches Some(s) ==> {
            let w: u32 = if s.width >= 1 {
                s.width
            } else {
                1
            };
            let h: u32 = if s.height >= 1 {
                s.height
            } else {
                1
            };
            &&& image_request(input) is None <==> has_image_of(input, w, h)
            &&& image_request(input) matches Some(r) ==> r.width == w && r.height == h
        },
{
}

} // verus!
