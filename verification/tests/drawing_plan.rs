use bevy_vello::parse::{extract_named_group_layers, load_svg_from_str};
use bevy_vello::render_plan::{render_group, DrawOp, Placement};
use bevy_vello::svg_tree::FillRuleKind;
use vello_svg::usvg::BlendMode;

fn plan_for(svg: &str, check: impl Fn(&[DrawOp])) {
    let doc = load_svg_from_str(svg).expect("a valid document");
    let mut ops = Vec::new();
    let at = Placement { with_offset: true, nodes: Vec::new() };
    render_group(doc.tree.root(), &at, &mut ops);
    check(&ops);
}

fn kinds(ops: &[DrawOp]) -> Vec<&'static str> {
    ops.iter()
        .map(|op| match op {
            DrawOp::PushClipLayer { .. } => "clip",
            DrawOp::PushIsolatedLayer { .. } => "isolate",
            DrawOp::PopLayer => "pop",
            DrawOp::FillPath { .. } => "fill",
            DrawOp::StrokePath { .. } => "stroke",
            DrawOp::Unsupported { .. } => "unsupported",
        })
        .collect()
}

#[test]
fn plain_paths_are_drawn_with_the_offset() {
    plan_for(
        r#"<svg xmlns="http://www.w3.org/2000/svg" width="10" height="10">
          <rect width="5" height="5"/><rect x="5" width="5" height="5"/></svg>"#,
        |ops| {
            assert_eq!(kinds(ops), vec!["fill", "fill"]);
            match &ops[0] {
                DrawOp::FillPath { at, .. } => {
                    assert!(at.with_offset);
                    assert_eq!(at.nodes.len(), 1);
                }
                _ => unreachable!(),
            }
        },
    );
}

#[test]
fn hidden_paths_are_not_drawn() {
    plan_for(
        r#"<svg xmlns="http://www.w3.org/2000/svg" width="10" height="10">
          <rect width="5" height="5" visibility="hidden"/><rect x="5" width="5" height="5"/></svg>"#,
        |ops| assert_eq!(kinds(ops), vec!["fill"]),
    );
}

#[test]
fn translucent_groups_are_drawn_in_an_isolated_layer() {
    plan_for(
        r#"<svg xmlns="http://www.w3.org/2000/svg" width="10" height="10">
          <g opacity="0.5"><rect width="5" height="5"/></g></svg>"#,
        |ops| {
            assert_eq!(kinds(ops), vec!["isolate", "fill", "pop"]);
            match &ops[1] {
                DrawOp::FillPath { at, .. } => {
                    assert!(!at.with_offset);
                    assert_eq!(at.nodes.len(), 1);
                }
                _ => unreachable!(),
            }
        },
    );
}

#[test]
fn clipped_groups_are_drawn_in_a_clip_layer() {
    plan_for(
        r#"<svg xmlns="http://www.w3.org/2000/svg" width="10" height="10">
          <clipPath id="c"><rect width="4" height="4"/></clipPath>
          <g clip-path="url(#c)"><rect width="5" height="5"/></g></svg>"#,
        |ops| assert_eq!(kinds(ops), vec!["clip", "fill", "pop"]),
    );
}

#[test]
fn raster_images_are_unsupported() {
    let png = "data:image/png;base64,iVBORw0KGgoAAAANSUhEUgAAAAEAAAABCAYAAAAfFcSJAAAADUlEQVR42mNk+M9QDwADhgGAWjR9awAAAABJRU5ErkJggg==";
    let svg = format!(
        r#"<svg xmlns="http://www.w3.org/2000/svg" xmlns:xlink="http://www.w3.org/1999/xlink" width="10" height="10">
          <image width="1" height="1" xlink:href="{png}"/></svg>"#
    );
    plan_for(&svg, |ops| assert_eq!(kinds(ops), vec!["unsupported"]));
}

#[test]
fn a_named_layer_is_planned_on_its_own() {
    let svg = r#"<svg xmlns="http://www.w3.org/2000/svg" width="10" height="10">
      <g id="badge" opacity="0.5"><rect width="5" height="5"/><rect x="5" width="5" height="5"/></g>
      <rect y="5" width="5" height="5"/></svg>"#;
    let doc = load_svg_from_str(svg).expect("a valid document");
    let layers = extract_named_group_layers(&doc.tree);
    assert_eq!(layers.len(), 1);
    let mut ops = Vec::new();
    let at = Placement { with_offset: true, nodes: Vec::new() };
    render_group(layers[0], &at, &mut ops);
    assert_eq!(kinds(&ops), vec!["fill", "fill"]);
}

#[test]
fn svg_images_are_drawn_from_their_own_tree() {
    let svg = r#"<svg xmlns="http://www.w3.org/2000/svg" xmlns:xlink="http://www.w3.org/1999/xlink" width="10" height="10">
          <image width="4" height="4" xlink:href="data:image/svg+xml;base64,PHN2ZyB4bWxucz0iaHR0cDovL3d3dy53My5vcmcvMjAwMC9zdmciIHdpZHRoPSI0IiBoZWlnaHQ9IjQiPjxyZWN0IHdpZHRoPSI0IiBoZWlnaHQ9IjQiIGZpbGw9InJlZCIvPjwvc3ZnPg=="/></svg>"#;
    plan_for(svg, |ops| {
        assert!(!ops.is_empty());
        assert!(ops.iter().any(|op| matches!(op, DrawOp::FillPath { .. })));
        assert!(!ops.iter().any(|op| matches!(op, DrawOp::Unsupported { .. })));
        match ops.iter().find(|op| matches!(op, DrawOp::FillPath { .. })) {
            Some(DrawOp::FillPath { at, .. }) => assert!(at.nodes.len() >= 2),
            _ => unreachable!(),
        }
    });
}

#[test]
fn fills_and_strokes_follow_the_path_paint() {
    plan_for(
        r#"<svg xmlns="http://www.w3.org/2000/svg" width="10" height="10">
          <rect width="5" height="5" fill="red" stroke="blue"/>
          <rect x="5" width="5" height="5" fill="none" stroke="blue"/>
          <path d="M0 0 L5 0 L5 5 Z" fill="red" fill-rule="evenodd"/></svg>"#,
        |ops| {
            assert_eq!(kinds(ops), vec!["fill", "stroke", "stroke", "fill"]);
            match &ops[0] {
                DrawOp::FillPath { rule, .. } => assert_eq!(*rule, FillRuleKind::NonZero),
                _ => unreachable!(),
            }
            match &ops[3] {
                DrawOp::FillPath { rule, .. } => assert_eq!(*rule, FillRuleKind::EvenOdd),
                _ => unreachable!(),
            }
        },
    );
}

#[test]
fn pattern_paint_draws_nothing() {
    plan_for(
        r#"<svg xmlns="http://www.w3.org/2000/svg" width="10" height="10">
          <pattern id="p" width="2" height="2" patternUnits="userSpaceOnUse"><rect width="1" height="1"/></pattern>
          <rect width="5" height="5" fill="url(#p)"/></svg>"#,
        |ops| assert!(kinds(ops).is_empty()),
    );
}

#[test]
fn layers_carry_the_group_blend_and_opacity() {
    plan_for(
        r#"<svg xmlns="http://www.w3.org/2000/svg" width="10" height="10">
          <g opacity="0.5" style="mix-blend-mode:multiply"><rect width="5" height="5"/></g></svg>"#,
        |ops| {
            assert_eq!(kinds(ops), vec!["isolate", "fill", "pop"]);
            match &ops[0] {
                DrawOp::PushIsolatedLayer { blend, alpha, .. } => {
                    assert_eq!(*blend, BlendMode::Multiply);
                    assert_eq!(alpha.get(), 0.5);
                }
                _ => unreachable!(),
            }
        },
    );
}

#[test]
fn clip_layers_use_the_non_zero_rule() {
    plan_for(
        r#"<svg xmlns="http://www.w3.org/2000/svg" width="10" height="10">
          <clipPath id="c"><rect width="4" height="4"/></clipPath>
          <g clip-path="url(#c)"><rect width="5" height="5"/></g></svg>"#,
        |ops| match &ops[0] {
            DrawOp::PushClipLayer { clip_style, blend, alpha, .. } => {
                assert_eq!(*clip_style, FillRuleKind::NonZero);
                assert_eq!(*blend, BlendMode::Normal);
                assert_eq!(alpha.get(), 1.0);
            }
            _ => panic!("expected a clip layer"),
        },
    );
}
