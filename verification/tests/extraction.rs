use bevy_vello::extract::{
    any_camera_renders, extract_ui_svg_assets, extract_world_svg_assets,
    extract_world_svg_layer_assets, RenderLayerSet, SvgEntityCounts, UiSvgEntity, WorldSvgEntity,
};

fn layers(l: &[usize]) -> Option<RenderLayerSet> {
    Some(RenderLayerSet { layers: l.to_vec() })
}

fn world(view: bool, inherited: bool, loaded: bool, l: Option<RenderLayerSet>) -> WorldSvgEntity {
    WorldSvgEntity { view_visible: view, inherited_visible: inherited, asset_loaded: loaded, render_layers: l }
}

#[test]
fn layer_sets_intersect_on_a_shared_layer() {
    let a = RenderLayerSet { layers: vec![1, 3] };
    let b = RenderLayerSet { layers: vec![2, 3] };
    let c = RenderLayerSet { layers: vec![0, 2] };
    assert!(a.intersects(&b));
    assert!(!a.intersects(&c));
    assert!(!a.intersects(&RenderLayerSet { layers: vec![] }));
    assert_eq!(RenderLayerSet::default().layers, vec![0]);
}

#[test]
fn missing_layers_mean_layer_zero() {
    assert!(any_camera_renders(&None, &[None]));
    assert!(any_camera_renders(&layers(&[0, 5]), &[None]));
    assert!(!any_camera_renders(&layers(&[5]), &[None]));
    assert!(any_camera_renders(&layers(&[5]), &[None, layers(&[4, 5])]));
    assert!(!any_camera_renders(&None, &[]));
}

#[test]
fn world_extraction_filters_and_counts() {
    let entities = vec![
        world(true, true, true, None),
        world(false, true, true, None),
        world(true, false, true, None),
        world(true, true, false, None),
        world(true, true, true, layers(&[7])),
        world(true, true, true, layers(&[2])),
    ];
    let cameras = vec![None, layers(&[2])];
    let mut counts = SvgEntityCounts { n_world_svgs: 99, n_ui_svgs: 4 };
    let selected = extract_world_svg_assets(&entities, &cameras, &mut counts);
    assert_eq!(selected, vec![0, 5]);
    assert_eq!(counts.n_world_svgs, 2);
    assert_eq!(counts.n_ui_svgs, 4);
}

#[test]
fn layer_extraction_adds_to_the_world_count() {
    let entities = vec![world(true, true, true, None), world(true, true, false, None)];
    let mut counts = SvgEntityCounts { n_world_svgs: 3, n_ui_svgs: 0 };
    let selected = extract_world_svg_layer_assets(&entities, &[None], &mut counts);
    assert_eq!(selected, vec![0]);
    assert_eq!(counts.n_world_svgs, 4);
}

#[test]
fn ui_extraction_ignores_view_visibility() {
    let entities = vec![
        UiSvgEntity { inherited_visible: true, asset_loaded: true, render_layers: None },
        UiSvgEntity { inherited_visible: false, asset_loaded: true, render_layers: None },
        UiSvgEntity { inherited_visible: true, asset_loaded: true, render_layers: layers(&[3]) },
    ];
    let mut counts = SvgEntityCounts { n_world_svgs: 5, n_ui_svgs: 9 };
    let selected = extract_ui_svg_assets(&entities, &[None], &mut counts);
    assert_eq!(selected, vec![0]);
    assert_eq!(counts.n_ui_svgs, 1);
    assert_eq!(counts.n_world_svgs, 5);
}

#[test]
fn nothing_is_extracted_without_cameras() {
    let entities = vec![world(true, true, true, None)];
    let mut counts = SvgEntityCounts { n_world_svgs: 1, n_ui_svgs: 0 };
    assert!(extract_world_svg_assets(&entities, &[], &mut counts).is_empty());
    assert_eq!(counts.n_world_svgs, 0);
}

#[test]
fn camera_order_does_not_matter() {
    let cams_a = vec![layers(&[1]), layers(&[2]), None];
    let cams_b = vec![None, layers(&[2]), layers(&[1])];
    for l in [None, layers(&[1]), layers(&[2]), layers(&[3])] {
        assert_eq!(any_camera_renders(&l, &cams_a), any_camera_renders(&l, &cams_b));
    }
}

#[test]
fn layer_count_may_reach_the_largest_count() {
    let entities = vec![world(true, true, true, None), world(false, true, true, None)];
    let mut counts = SvgEntityCounts { n_world_svgs: usize::MAX - 1, n_ui_svgs: 0 };
    let selected = extract_world_svg_layer_assets(&entities, &[None], &mut counts);
    assert_eq!(selected, vec![0]);
    assert_eq!(counts.n_world_svgs, usize::MAX);
}
