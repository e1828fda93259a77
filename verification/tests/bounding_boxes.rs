use bevy_vello::aabb_updates::{
    update_svg_2d_aabb_on_asset_load, update_svg_2d_aabb_on_change,
    update_svg_layer_2d_aabb_on_asset_load, update_svg_layer_2d_aabb_on_change, AabbEntity,
    AabbUpdate, SvgAssetEvent,
};
use bevy_vello::anchor::{helper_calculate_aabb, VelloSvgAnchor};
use bevy_vello::asset_key::AssetKey;

fn key(i: u32) -> AssetKey {
    AssetKey::Index { generation: 1, index: i }
}

fn entity(svg: u32, anchor: VelloSvgAnchor, has_content: bool) -> AabbEntity {
    AabbEntity { svg_id: key(svg), anchor, has_content }
}

#[test]
fn loaded_assets_refresh_the_entities_that_show_them() {
    let entities = vec![
        entity(1, VelloSvgAnchor::TopLeft, true),
        entity(2, VelloSvgAnchor::Center, true),
        entity(1, VelloSvgAnchor::Right, true),
    ];
    let events = vec![
        SvgAssetEvent::Added { id: key(2) },
        SvgAssetEvent::LoadedWithDependencies { id: key(1) },
        SvgAssetEvent::LoadedWithDependencies { id: key(3) },
    ];
    let updates = update_svg_2d_aabb_on_asset_load(&events, &[key(1), key(2)], &entities);
    assert_eq!(
        updates,
        vec![
            AabbUpdate { entity: 0, extent: helper_calculate_aabb(&VelloSvgAnchor::TopLeft) },
            AabbUpdate { entity: 2, extent: helper_calculate_aabb(&VelloSvgAnchor::Right) },
        ]
    );
}

#[test]
fn an_event_for_an_asset_no_longer_loaded_changes_nothing() {
    let entities = vec![entity(1, VelloSvgAnchor::Center, true)];
    let events = vec![SvgAssetEvent::LoadedWithDependencies { id: key(1) }];
    assert!(update_svg_2d_aabb_on_asset_load(&events, &[], &entities).is_empty());
}

#[test]
fn layer_entities_need_their_layer() {
    let entities = vec![
        entity(1, VelloSvgAnchor::Bottom, false),
        entity(1, VelloSvgAnchor::Top, true),
    ];
    let events = vec![SvgAssetEvent::LoadedWithDependencies { id: key(1) }];
    let updates = update_svg_layer_2d_aabb_on_asset_load(&events, &[key(1)], &entities);
    assert_eq!(updates, vec![AabbUpdate { entity: 1, extent: helper_calculate_aabb(&VelloSvgAnchor::Top) }]);
}

#[test]
fn changed_entities_are_refreshed_once_loaded() {
    let entities = vec![
        entity(1, VelloSvgAnchor::Left, true),
        entity(2, VelloSvgAnchor::Left, true),
        entity(1, VelloSvgAnchor::BottomLeft, false),
    ];
    let updates = update_svg_2d_aabb_on_change(&[key(1)], &entities[..2]);
    assert_eq!(updates, vec![AabbUpdate { entity: 0, extent: helper_calculate_aabb(&VelloSvgAnchor::Left) }]);
    let layer_updates = update_svg_layer_2d_aabb_on_change(&[key(1), key(2)], &entities);
    assert_eq!(layer_updates.iter().map(|u| u.entity).collect::<Vec<_>>(), vec![0, 1]);
}
