use bevy_vello::asset_key::AssetKey;
use bevy_vello::render_cache::{
    render_ui_svg_step, render_ui_svgs_to_textures, SvgOpacity, UiRenderStep, UiSvgRenderCache,
    UiSvgRenderInput,
};
use bevy_vello::render_images::{
    manage_ui_svg_render_images, render_image_request, render_image_target,
    update_ui_svg_content_size_on_change, ExistingRenderImage, PixelSize, UiContentSizeInput,
    UiSvgImageInput,
};

fn image(i: u32) -> AssetKey {
    AssetKey::Index { generation: 0, index: i }
}

fn svg(img: Option<AssetKey>, ready: bool, opacity: SvgOpacity) -> UiSvgRenderInput {
    UiSvgRenderInput { render_image: img, gpu_image_ready: ready, opacity }
}

#[test]
fn each_image_is_rendered_once() {
    let mut cache = UiSvgRenderCache::new();
    let svgs = vec![
        svg(Some(image(1)), true, SvgOpacity::Opaque),
        svg(Some(image(2)), true, SvgOpacity::Translucent),
        svg(Some(image(3)), true, SvgOpacity::Invisible),
        svg(Some(image(4)), false, SvgOpacity::Opaque),
        svg(None, true, SvgOpacity::Opaque),
        svg(Some(image(1)), true, SvgOpacity::Opaque),
    ];
    let steps = render_ui_svgs_to_textures(&mut cache, &svgs);
    assert_eq!(
        steps,
        vec![
            UiRenderStep::Render { with_alpha_layer: false },
            UiRenderStep::Render { with_alpha_layer: true },
            UiRenderStep::MarkRendered,
            UiRenderStep::Skip,
            UiRenderStep::Skip,
            UiRenderStep::Skip,
        ]
    );
    assert!(cache.contains(&image(1)) && cache.contains(&image(2)) && cache.contains(&image(3)));
    assert!(!cache.contains(&image(4)));
    let again = render_ui_svgs_to_textures(&mut cache, &svgs);
    assert!(again.iter().all(|s| *s == UiRenderStep::Skip));
}

#[test]
fn an_image_whose_gpu_side_appears_later_is_rendered_then() {
    let mut cache = UiSvgRenderCache::new();
    let pending = svg(Some(AssetKey::Uuid(7)), false, SvgOpacity::Opaque);
    assert_eq!(render_ui_svg_step(&mut cache, &pending), UiRenderStep::Skip);
    let ready = svg(Some(AssetKey::Uuid(7)), true, SvgOpacity::Opaque);
    assert_eq!(
        render_ui_svg_step(&mut cache, &ready),
        UiRenderStep::Render { with_alpha_layer: false }
    );
    assert_eq!(render_ui_svg_step(&mut cache, &ready), UiRenderStep::Skip);
}

#[test]
fn render_image_size_is_at_least_one_pixel() {
    assert_eq!(
        render_image_target(PixelSize { width: 0, height: 12 }),
        PixelSize { width: 1, height: 12 }
    );
    assert_eq!(
        render_image_target(PixelSize { width: 30, height: 0 }),
        PixelSize { width: 30, height: 1 }
    );
}

#[test]
fn render_images_are_created_when_missing_stale_or_resized() {
    let svg_a = image(10);
    let svg_b = image(11);
    let size = Some(PixelSize { width: 64, height: 32 });
    let fresh = UiSvgImageInput { svg_id: svg_a, svg_pixel_size: size, existing: None };
    let unloaded = UiSvgImageInput { svg_id: svg_a, svg_pixel_size: None, existing: None };
    let current = UiSvgImageInput {
        svg_id: svg_a,
        svg_pixel_size: size,
        existing: Some(ExistingRenderImage { svg_id: svg_a, image_size: size }),
    };
    let other_svg = UiSvgImageInput {
        svg_id: svg_b,
        svg_pixel_size: size,
        existing: Some(ExistingRenderImage { svg_id: svg_a, image_size: size }),
    };
    let resized = UiSvgImageInput {
        svg_id: svg_a,
        svg_pixel_size: size,
        existing: Some(ExistingRenderImage {
            svg_id: svg_a,
            image_size: Some(PixelSize { width: 64, height: 31 }),
        }),
    };
    let dropped = UiSvgImageInput {
        svg_id: svg_a,
        svg_pixel_size: size,
        existing: Some(ExistingRenderImage { svg_id: svg_a, image_size: None }),
    };
    let requests =
        manage_ui_svg_render_images(&[fresh, unloaded, current, other_svg, resized, dropped]);
    assert_eq!(requests, vec![size, None, None, size, size, size]);
}

#[test]
fn a_created_render_image_settles_the_entity() {
    let input = UiSvgImageInput {
        svg_id: image(3),
        svg_pixel_size: Some(PixelSize { width: 0, height: 0 }),
        existing: None,
    };
    let created = render_image_request(&input).expect("an image is needed");
    assert_eq!(created, PixelSize { width: 1, height: 1 });
    let settled = UiSvgImageInput {
        existing: Some(ExistingRenderImage { svg_id: image(3), image_size: Some(created) }),
        ..input
    };
    assert_eq!(render_image_request(&settled), None);
}

#[test]
fn content_size_goes_to_loaded_svgs_without_render_image() {
    let entities = [
        UiContentSizeInput { svg_loaded: true, has_render_image: false },
        UiContentSizeInput { svg_loaded: false, has_render_image: false },
        UiContentSizeInput { svg_loaded: true, has_render_image: true },
        UiContentSizeInput { svg_loaded: true, has_render_image: false },
    ];
    assert_eq!(update_ui_svg_content_size_on_change(&entities), vec![0, 3]);
}
