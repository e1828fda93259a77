//! Anchors: where the entity origin sits on an SVG asset.
//!
//! All offsets here are expressed in multiples of *half* the asset's size, so
//! that they are exact integers; a caller multiplies them by `width / 2` and
//! `height / 2` to obtain world units.
use vstd::prelude::*;

verus! {

/// The point of an SVG asset that is placed at the entity's transform.
#[derive(Clone, Copy, Debug, PartialEq, Eq)]
pub enum VelloSvgAnchor {
    BottomLeft,
    Bottom,
    BottomRight,
    Left,
    Center,
    Right,
    TopLeft,
    Top,
    TopRight,
}

impl Default for VelloSvgAnchor {
    fn default() -> (r: Self)
        ensures
            r == VelloSvgAnchor::Center,
    {
        VelloSvgAnchor::Center
    }
}

/// Horizontal position of the anchor on the asset, in half widths from the
/// left edge (0 = left, 1 = centre, 2 = right).
pub open spec fn anchor_column(anchor: VelloSvgAnchor) -> int {
    match anchor {
        VelloSvgAnchor::TopLeft | VelloSvgAnchor::Left | VelloSvgAnchor::BottomLeft => 0,
        VelloSvgAnchor::Top | VelloSvgAnchor::Center | VelloSvgAnchor::Bottom => 1,
        VelloSvgAnchor::TopRight | VelloSvgAnchor::Right | VelloSvgAnchor::BottomRight => 2,
    }
}

/// Vertical position of the anchor on the asset, in half heights from the top
/// edge, y growing downwards as in Vello (0 = top, 1 = middle, 2 = bottom).
pub open spec fn anchor_row(anchor: VelloSvgAnchor) -> int {
    match anchor {
        VelloSvgAnchor::TopLeft | VelloSvgAnchor::Top | VelloSvgAnchor::TopRight => 0,
        VelloSvgAnchor::Left | VelloSvgAnchor::Center | VelloSvgAnchor::Right => 1,
        VelloSvgAnchor::BottomLeft | VelloSvgAnchor::Bottom | VelloSvgAnchor::BottomRight => 2,
    }
}

/// An axis-aligned box around the entity origin, in half-size units
/// (x to the right, y upwards as in Bevy's world space).
#[derive(Clone, Copy, Debug, PartialEq, Eq)]
pub struct AabbExtent {
    pub min_x: i8,
    pub min_y: i8,
    pub max_x: i8,
    pub max_y: i8,
}

/// The bounding box for an anchor: two half sizes each way, its centre
/// `1 - column` half widths right of the origin and `row - 1` half heights
/// above it.
pub open spec fn anchor_extent(anchor: VelloSvgAnchor) -> AabbExtent {
    AabbExtent {
        min_x: (-1 + (1 - anchor_column(anchor))) as i8,
        min_y: (-1 + (anchor_row(anchor) - 1)) as i8,
        max_x: (1 + (1 - anchor_column(anchor))) as i8,
        max_y: (1 + (anchor_row(anchor) - 1)) as i8,
    }
}

/// The local position of the anchor point on the asset, in half-size units
/// measured from the asset's top-left corner with y growing downwards.
/// The renderer translates the asset by the negation of this point.
pub fn anchor_local_offset(anchor: &VelloSvgAnchor) -> (r: (u8, u8))
    ensures
        r.0 == anchor_column(*anchor),
        r.1 == anchor_row(*anchor),
{
    match anchor {
        VelloSvgAnchor::TopLeft => (0, 0),
        VelloSvgAnchor::Left => (0, 1),
        VelloSvgAnchor::BottomLeft => (0, 2),
        VelloSvgAnchor::Top => (1, 0),
        VelloSvgAnchor::Center => (1, 1),
        VelloSvgAnchor::Bottom => (1, 2),
        VelloSvgAnchor::TopRight => (2, 0),
        VelloSvgAnchor::Right => (2, 1),
        VelloSvgAnchor::BottomRight => (2, 2),
    }
}

/// The bounding box of an asset placed with `anchor`, in half-size units:
/// a box two half widths wide and two half heights tall whose centre is
/// shifted away from the origin according to the anchor.
pub fn helper_calculate_aabb(anchor: &VelloSvgAnchor) -> (r: AabbExtent)
    ensures
        r == anchor_extent(*anchor),
{
    let (dx, dy): (i8, i8) = match anchor {
        VelloSvgAnchor::TopLeft => (1, -1),
        VelloSvgAnchor::Left => (1, 0),
        VelloSvgAnchor::BottomLeft => (1, 1),
        VelloSvgAnchor::Top => (0, -1),
        VelloSvgAnchor::Center => (0, 0),
        VelloSvgAnchor::Bottom => (0, 1),
        VelloSvgAnchor::TopRight => (-1, -1),
        VelloSvgAnchor::Right => (-1, 0),
        VelloSvgAnchor::BottomRight => (-1, 1),
    };
    AabbExtent { min_x: -1 + dx, min_y: -1 + dy, max_x: 1 + dx, max_y: 1 + dy }
}

/// The bounding box of an entity covers exactly the area the renderer draws
/// its asset on: drawn with its anchor point at the origin, the asset spans
/// from `-column` to `2 - column` half widths horizontally and, y pointing
/// up, from `row - 2` to `row` half heights vertically.
pub proof fn lemma_aabb_covers_drawn_asset(anchor: VelloSvgAnchor)
    ensures
        anchor_extent(anchor).min_x == -anchor_column(anchor),
        anchor_extent(anchor).max_x == 2 - anchor_column(anchor),
        anchor_extent(anchor).min_y == anchor_row(anchor) - 2,
        anchor_extent(anchor).max_y == anchor_row(anchor),
{
}

/// The bounding box always holds the entity's origin (the anchor point lies
/// on the asset) and is exactly the asset's size.
pub proof fn lemma_aabb_holds_origin(anchor: VelloSvgAnchor)
    ensures
        anchor_extent(anchor).min_x <= 0 <= anchor_extent(anchor).max_x,
        anchor_extent(anchor).min_y <= 0 <= anchor_extent(anchor).max_y,
        anchor_extent(anchor).max_x - anchor_extent(anchor).min_x == 2,
        anchor_extent(anchor).max_y - anchor_extent(anchor).min_y == 2,
{
}

/// Different anchors put the asset at different places.
pub proof fn lemma_anchors_distinct(a: VelloSvgAnchor, b: VelloSvgAnchor)
    requires
        a != b,
    ensures
        anchor_column(a) != anchor_column(b) || anchor_row(a) != anchor_row(b),
{
}

} // verus!
