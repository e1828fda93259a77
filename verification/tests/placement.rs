use bevy_vello::anchor::{anchor_local_offset, helper_calculate_aabb, AabbExtent, VelloSvgAnchor};

const ALL: [VelloSvgAnchor; 9] = [
    VelloSvgAnchor::BottomLeft,
    VelloSvgAnchor::Bottom,
    VelloSvgAnchor::BottomRight,
    VelloSvgAnchor::Left,
    VelloSvgAnchor::Center,
    VelloSvgAnchor::Right,
    VelloSvgAnchor::TopLeft,
    VelloSvgAnchor::Top,
    VelloSvgAnchor::TopRight,
];

#[test]
fn default_anchor_is_center() {
    assert_eq!(VelloSvgAnchor::default(), VelloSvgAnchor::Center);
}

#[test]
fn center_box_is_centred_on_the_origin() {
    assert_eq!(
        helper_calculate_aabb(&VelloSvgAnchor::Center),
        AabbExtent { min_x: -1, min_y: -1, max_x: 1, max_y: 1 }
    );
}

#[test]
fn top_left_box_extends_right_and_down() {
    assert_eq!(
        helper_calculate_aabb(&VelloSvgAnchor::TopLeft),
        AabbExtent { min_x: 0, min_y: -2, max_x: 2, max_y: 0 }
    );
}

#[test]
fn bottom_right_box_extends_left_and_up() {
    assert_eq!(
        helper_calculate_aabb(&VelloSvgAnchor::BottomRight),
        AabbExtent { min_x: -2, min_y: 0, max_x: 0, max_y: 2 }
    );
}

#[test]
fn anchor_points_on_the_asset() {
    assert_eq!(anchor_local_offset(&VelloSvgAnchor::TopLeft), (0, 0));
    assert_eq!(anchor_local_offset(&VelloSvgAnchor::Left), (0, 1));
    assert_eq!(anchor_local_offset(&VelloSvgAnchor::BottomLeft), (0, 2));
    assert_eq!(anchor_local_offset(&VelloSvgAnchor::Top), (1, 0));
    assert_eq!(anchor_local_offset(&VelloSvgAnchor::Center), (1, 1));
    assert_eq!(anchor_local_offset(&VelloSvgAnchor::Bottom), (1, 2));
    assert_eq!(anchor_local_offset(&VelloSvgAnchor::TopRight), (2, 0));
    assert_eq!(anchor_local_offset(&VelloSvgAnchor::Right), (2, 1));
    assert_eq!(anchor_local_offset(&VelloSvgAnchor::BottomRight), (2, 2));
}

#[test]
fn every_box_covers_the_drawn_asset_and_holds_the_origin() {
    for anchor in ALL {
        let (column, row) = anchor_local_offset(&anchor);
        let aabb = helper_calculate_aabb(&anchor);
        assert_eq!(aabb.min_x as i32, -(column as i32));
        assert_eq!(aabb.max_x as i32, 2 - column as i32);
        assert_eq!(aabb.min_y as i32, row as i32 - 2);
        assert_eq!(aabb.max_y as i32, row as i32);
        assert!(aabb.min_x <= 0 && 0 <= aabb.max_x);
        assert!(aabb.min_y <= 0 && 0 <= aabb.max_y);
    }
}

#[test]
fn anchors_are_distinct_points() {
    for (i, a) in ALL.iter().enumerate() {
        for b in &ALL[i + 1..] {
            assert_ne!(anchor_local_offset(a), anchor_local_offset(b));
        }
    }
}
