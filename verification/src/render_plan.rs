//! The drawing plan for a group of an SVG document.
//!
//! Walking a group's subtree decides which layers are pushed and popped,
//! which paths are drawn, which nested documents are entered, and which
//! nodes are reported as unsupported.  Each step records the transform it is
//! drawn with as a [`Placement`]; the caller turns that into a matrix and
//! performs the steps on a Vello scene.
use crate::svg_tree::{
    as_group, as_image, as_path, as_text, blend_of, children_of, clip_path_of, clip_path_root,
    clip_root, converted_brush, fill_of, fill_opacity, fill_paint, fill_rule, flattened_of,
    group_blend, group_children, group_clip_path, group_height, group_isolated, group_opacity,
    held_groups_lower, image_svg, is_visible, node_group, node_image, node_path, node_text,
    opacity_of, opacity_of_fill, opacity_of_stroke, paint_of_fill, paint_of_stroke, path_fill,
    path_stroke, path_visible, root_of, rule_of_fill, should_isolate, stroke_of, stroke_opacity,
    stroke_paint, svg_of_image, text_flattened, to_brush, tree_root, FillRuleKind,
};
use vello_svg::kurbo::Affine;
use vello_svg::peniko::Brush;
use vello_svg::usvg::{BlendMode, Group, Node, NormalizedF32 as Opacity, Path, Stroke};
use vstd::prelude::*;

verus! {

/// The transform a step is drawn with: the layer's offset when
/// `with_offset` holds (else the identity), followed by the absolute
/// transforms of `nodes`, in order.
pub struct Placement<'a> {
    pub with_offset: bool,
    pub nodes: Vec<&'a Node>,
}

/// A placement, as values.
#[verifier::ext_equal]
pub struct PlacementView {
    pub with_offset: bool,
    pub nodes: Seq<Node>,
}

impl<'a> View for Placement<'a> {
    type V = PlacementView;

    open spec fn view(&self) -> PlacementView {
        PlacementView { with_offset: self.with_offset, nodes: self.nodes@.map_values(|n: &Node| *n) }
    }
}

/// One step of drawing a group.
pub enum DrawOp<'a> {
    /// Push a layer for `group`'s content, clipped to `clip` with the fill
    /// rule `clip_style`, blending with `blend` at opacity `alpha`.
    PushClipLayer {
        group: &'a Group,
        clip: &'a Path,
        clip_style: FillRuleKind,
        blend: BlendMode,
        alpha: Opacity,
        at: Placement<'a>,
    },
    /// Push a layer for `group`'s content, bounded by its layer box,
    /// blending with `blend` at opacity `alpha`.
    PushIsolatedLayer { group: &'a Group, blend: BlendMode, alpha: Opacity, at: Placement<'a> },
    /// Pop the innermost layer.
    PopLayer,
    /// Fill `path` with `rule` and `brush`, the brush placed by
    /// `brush_transform`.
    FillPath {
        path: &'a Path,
        rule: FillRuleKind,
        brush: Brush,
        brush_transform: Affine,
        at: Placement<'a>,
    },
    /// Stroke `path` with the style of `stroke` and `brush`, the brush placed
    /// by `brush_transform`.
    StrokePath {
        path: &'a Path,
        stroke: &'a Stroke,
        brush: Brush,
        brush_transform: Affine,
        at: Placement<'a>,
    },
    /// Hand `node` to the error handler for unsupported content.
    Unsupported { node: &'a Node },
}

/// A drawing step, as values.
pub enum DrawStep {
    PushClipLayer {
        group: Group,
        clip: Path,
        clip_style: FillRuleKind,
        blend: BlendMode,
        alpha: Opacity,
        at: PlacementView,
    },
    PushIsolatedLayer { group: Group, blend: BlendMode, alpha: Opacity, at: PlacementView },
    PopLayer,
    FillPath {
        path: Path,
        rule: FillRuleKind,
        brush: Brush,
        brush_transform: Affine,
        at: PlacementView,
    },
    StrokePath {
        path: Path,
        stroke: Stroke,
        brush: Brush,
        brush_transform: Affine,
        at: PlacementView,
    },
    Unsupported { node: Node },
}

impl<'a> View for DrawOp<'a> {
    type V = DrawStep;

    open spec fn view(&self) -> DrawStep {
        match self {
            DrawOp::PushClipLayer { group, clip, clip_style, blend, alpha, at } => DrawStep::PushClipLayer {
                group: **group,
                clip: **clip,
                clip_style: *clip_style,
                blend: *blend,
                alpha: *alpha,
                at: at@,
            },
            DrawOp::PushIsolatedLayer { group, blend, alpha, at } => DrawStep::PushIsolatedLayer {
                group: **group,
                blend: *blend,
                alpha: *alpha,
                at: at@,
            },
            DrawOp::PopLayer => DrawStep::PopLayer,
            DrawOp::FillPath { path, rule, brush, brush_transform, at } => DrawStep::FillPath {
                path: **path,
                rule: *rule,
                brush: *brush,
                brush_transform: *brush_transform,
                at: at@,
            },
            DrawOp::StrokePath { path, stroke, brush, brush_transform, at } => DrawStep::StrokePath {
                path: **path,
                stroke: **stroke,
                brush: *brush,
                brush_transform: *brush_transform,
                at: at@,
            },
            DrawOp::Unsupported { node } => DrawStep::Unsupported { node: **node },
        }
    }
}

/// The placement of a node drawn inside `at`.
pub open spec fn placed_in(at: PlacementView, node: Node) -> PlacementView {
    PlacementView { with_offset: at.with_offset, nodes: at.nodes.push(node) }
}

/// The placement of a nested group's content: the identity, since every
/// node carries its absolute transform.
pub open spec fn identity_placement() -> PlacementView {
    PlacementView { with_offset: false, nodes: Seq::empty() }
}

/// The layer pushed for a group drawn at `at`, if any: clipped to the first
/// child of its clip path when that child is a path; else bounded by its
/// layer box when the group must be isolated; else none.
pub open spec fn layer_for(group: Group, at: PlacementView) -> Seq<DrawStep> {
    let clip_first: Option<Path> = match group_clip_path(group) {
        Some(clip) => if group_children(clip_path_root(clip)).len() > 0 {
            node_path(group_children(clip_path_root(clip))[0])
        } else {
            None
        },
        None => None,
    };
    match clip_first {
        Some(clip) => seq![
            DrawStep::PushClipLayer {
                group,
                clip,
                clip_style: FillRuleKind::NonZero,
                blend: group_blend(group),
                alpha: group_opacity(group),
                at,
            },
        ],
        None => if group_isolated(group) {
            seq![
                DrawStep::PushIsolatedLayer {
                    group,
                    blend: group_blend(group),
                    alpha: group_opacity(group),
                    at,
                },
            ]
        } else {
            Seq::empty()
        },
    }
}

/// The fill step of a visible path drawn at `at`: present when the path has a
/// fill whose paint converts to a brush, with the fill's rule.
pub open spec fn fill_steps(path: Path, at: PlacementView) -> Seq<DrawStep> {
    match path_fill(path) {
        Some(fill) => match converted_brush(fill_paint(fill), fill_opacity(fill)) {
            Some((brush, brush_transform)) => seq![
                DrawStep::FillPath { path, rule: fill_rule(fill), brush, brush_transform, at },
            ],
            None => Seq::empty(),
        },
        None => Seq::empty(),
    }
}

/// The stroke step of a visible path drawn at `at`: present when the path has
/// a stroke whose paint converts to a brush.
pub open spec fn stroke_steps(path: Path, at: PlacementView) -> Seq<DrawStep> {
    match path_stroke(path) {
        Some(stroke) => match converted_brush(stroke_paint(stroke), stroke_opacity(stroke)) {
            Some((brush, brush_transform)) => seq![
                DrawStep::StrokePath { path, stroke, brush, brush_transform, at },
            ],
            None => Seq::empty(),
        },
        None => Seq::empty(),
    }
}

/// The steps for drawing the content of `group` at `at`.
pub open spec fn group_steps(group: Group, at: PlacementView) -> Seq<DrawStep>
    decreases group_height(group), 1nat, 0nat,
{
    children_steps(group, at, group_children(group).len())
}

/// The steps for the first `n` children of `group`.
pub open spec fn children_steps(group: Group, at: PlacementView, n: nat) -> Seq<DrawStep>
    decreases group_height(group), 0nat, n,
{
    if n == 0 {
        Seq::empty()
    } else {
        children_steps(group, at, (n - 1) as nat) + node_steps(
            group,
            group_children(group)[n - 1],
            at,
            n,
        )
    }
}

/// The steps for `node`, a child of `parent` drawn at `at`.  (`n` only
/// orders the recursion.)
pub open spec fn node_steps(parent: Group, node: Node, at: PlacementView, n: nat) -> Seq<DrawStep>
    decreases group_height(parent), 0nat, n - 1,
{
    let here = placed_in(at, node);
    if n == 0 {
        Seq::empty()
    } else if node_group(node) is Some {
        let child = node_group(node)->0;
        if group_height(child) < group_height(parent) {
            let layer = layer_for(child, here);
            layer + group_steps(child, identity_placement()) + (if layer.len() > 0 {
                seq![DrawStep::PopLayer]
            } else {
                Seq::empty()
            })
        } else {
            Seq::empty()
        }
    } else if node_path(node) is Some {
        let path = node_path(node)->0;
        if path_visible(path) {
            fill_steps(path, here) + stroke_steps(path, here)
        } else {
            Seq::empty()
        }
    } else if node_image(node) is Some {
        match image_svg(node_image(node)->0) {
            Some(tree) => if group_height(tree_root(tree)) < group_height(parent) {
                group_steps(tree_root(tree), here)
            } else {
                Seq::empty()
            },
            None => seq![DrawStep::Unsupported { node }],
        }
    } else if node_text(node) is Some {
        let flat = text_flattened(node_text(node)->0);
        if group_height(flat) < group_height(parent) {
            group_steps(flat, here)
        } else {
            Seq::empty()
        }
    } else {
        Seq::empty()
    }
}

/// The placement of `node` drawn inside `at`.
fn placement_then<'a>(at: &Placement<'a>, node: &'a Node) -> (r: Placement<'a>)
    ensures
        r@ == placed_in(at@, *node),
{
    let mut nodes: Vec<&'a Node> = Vec::new();
    let mut i: usize = 0;
    while i < at.nodes.len()
        invariant
            i <= at.nodes@.len(),
            nodes@ == at.nodes@.subrange(0, i as int),
        decreases at.nodes@.len() - i,
    {
        nodes.push(at.nodes[i]);
        i = i + 1;
    }
    nodes.push(node);
    let r = Placement { with_offset: at.with_offset, nodes };
    assert(nodes@ =~= at.nodes@.push(node));
    assert(r@.nodes =~= at@.nodes.push(*node));
    r
}

/// Appends the fill and stroke steps of a path, a child `node` drawn inside
/// `at`.
fn push_path_ops<'a>(
    path: &'a Path,
    at: &Placement<'a>,
    node: &'a Node,
    ops: &mut Vec<DrawOp<'a>>,
)
    ensures
        final(ops)@.map_values(|o: DrawOp<'a>| o@) == old(ops)@.map_values(|o: DrawOp<'a>| o@)
            + fill_steps(*path, placed_in(at@, *node)) + stroke_steps(*path, placed_in(at@, *node)),
{
    let ghost start = ops@.map_values(|o: DrawOp<'a>| o@);
    if let Some(fill) = fill_of(path) {
        if let Some((brush, brush_transform)) = to_brush(paint_of_fill(fill), opacity_of_fill(fill)) {
            ops.push(
                DrawOp::FillPath {
                    path,
                    rule: rule_of_fill(fill),
                    brush,
                    brush_transform,
                    at: placement_then(at, node),
                },
            );
        }
    }
    let ghost mid = ops@.map_values(|o: DrawOp<'a>| o@);
    assert(mid =~= start + fill_steps(*path, placed_in(at@, *node)));
    if let Some(stroke) = stroke_of(path) {
        if let Some((brush, brush_transform)) = to_brush(
            paint_of_stroke(stroke),
            opacity_of_stroke(stroke),
        ) {
            ops.push(
                DrawOp::StrokePath {
                    path,
                    stroke,
                    brush,
                    brush_transform,
                    at: placement_then(at, node),
                },
            );
        }
    }
    assert(ops@.map_values(|o: DrawOp<'a>| o@) =~= mid + stroke_steps(*path, placed_in(at@, *node)));
}

/// The layer to push for `group` drawn at `here`, if any.
fn layer_op<'a>(group: &'a Group, here: Placement<'a>) -> (r: Option<DrawOp<'a>>)
    ensures
        r matches Some(op) ==> layer_for(*group, here@) == seq![op@],
        r is None ==> layer_for(*group, here@) == Seq::<DrawStep>::empty(),
{
    let clip_first: Option<&'a Path> = match clip_path_of(group) {
        Some(clip) => {
            let kids = children_of(clip_root(clip));
            if kids.len() > 0 {
                as_path(&kids[0])
            } else {
                None
            }
        },
        None => None,
    };
    match clip_first {
        Some(clip) => Some(
            DrawOp::PushClipLayer {
                group,
                clip,
                clip_style: FillRuleKind::NonZero,
                blend: blend_of(group),
                alpha: opacity_of(group),
                at: here,
            },
        ),
        None => if should_isolate(group) {
            Some(
                DrawOp::PushIsolatedLayer {
                    group,
                    blend: blend_of(group),
                    alpha: opacity_of(group),
                    at: here,
                },
            )
        } else {
            None
        },
    }
}

/// Appends the steps for drawing the content of `group` at `at`.
pub fn render_group<'a>(group: &'a Group, at: &Placement<'a>, ops: &mut Vec<DrawOp<'a>>)
    ensures
        final(ops)@.map_values(|o: DrawOp<'a>| o@) == old(ops)@.map_values(|o: DrawOp<'a>| o@)
            + group_steps(*group, at@),
    decreases group_height(*group),
{
    let children = children_of(group);
    let ghost start = ops@.map_values(|o: DrawOp<'a>| o@);
    let mut i: usize = 0;
    while i < children.len()
        invariant
            i <= children@.len(),
            children@ == group_children(*group),
            forall|j: int| 0 <= j < children@.len() ==> #[trigger] held_groups_lower(
                children@[j],
                *group,
            ),
            ops@.map_values(|o: DrawOp<'a>| o@) == start + children_steps(*group, at@, i as nat),
        decreases children@.len() - i,
    {
        let node: &'a Node = &children[i];
        let ghost before = ops@.map_values(|o: DrawOp<'a>| o@);
        let ghost node_view = children@[i as int];
        assert(held_groups_lower(node_view, *group));
        assert(*node == node_view);
        let here = placement_then(at, node);
        let ghost here_view = here@;
        if let Some(child) = as_group(node) {
            let layer = layer_op(child, here);
            let pushed = layer.is_some();
            if let Some(op) = layer {
                ops.push(op);
            }
            let ghost after_layer = ops@.map_values(|o: DrawOp<'a>| o@);
            assert(after_layer =~= before + layer_for(*child, here_view));
            let identity = Placement { with_offset: false, nodes: Vec::new() };
            assert(identity@ =~= identity_placement());
            render_group(child, &identity, ops);
            let ghost after_content = ops@.map_values(|o: DrawOp<'a>| o@);
            if pushed {
                ops.push(DrawOp::PopLayer);
            }
            let ghost closing: Seq<DrawStep> = if pushed {
                seq![DrawStep::PopLayer]
            } else {
                Seq::empty()
            };
            assert(ops@.map_values(|o: DrawOp<'a>| o@) =~= after_content + closing);
        } else if let Some(path) = as_path(node) {
            if is_visible(path) {
                push_path_ops(path, at, node, ops);
            }
            assert(ops@.map_values(|o: DrawOp<'a>| o@) =~= before + node_steps(
                *group,
                node_view,
                at@,
                (i + 1) as nat,
            ));
        } else if let Some(image) = as_image(node) {
            match svg_of_image(image) {
                Some(tree) => render_group(root_of(tree), &here, ops),
                None => {
                    ops.push(DrawOp::Unsupported { node });
                    assert(ops@.map_values(|o: DrawOp<'a>| o@) =~= before.push(
                        DrawStep::Unsupported { node: node_view },
                    ));
                },
            }
        } else if let Some(text) = as_text(node) {
            render_group(flattened_of(text), &here, ops);
        }
        assert(children_steps(*group, at@, (i + 1) as nat) == children_steps(*group, at@, i as nat)
            + node_steps(*group, node_view, at@, (i + 1) as nat));
        assert(ops@.map_values(|o: DrawOp<'a>| o@) =~= start + children_steps(
            *group,
            at@,
            (i + 1) as nat,
        ));
        i = i + 1;
    }
}

/// How a step changes the number of open layers.
pub open spec fn layer_delta(step: DrawStep) -> int {
    match step {
        DrawStep::PushClipLayer { .. } => 1,
        DrawStep::PushIsolatedLayer { .. } => 1,
        DrawStep::PopLayer => -1,
        _ => 0,
    }
}

/// The number of layers left open after the steps.
pub open spec fn open_layers(steps: Seq<DrawStep>) -> int
    decreases steps.len(),
{
    if steps.len() == 0 {
        0
    } else {
        open_layers(steps.drop_last()) + layer_delta(steps.last())
    }
}

/// The steps never pop a layer that is not open, and leave none open.
pub open spec fn layers_balanced(steps: Seq<DrawStep>) -> bool {
    &&& open_layers(steps) == 0
    &&& forall|k: int| 0 <= k <= steps.len() ==> #[trigger] open_layers(steps.subrange(0, k)) >= 0
}

/// Every path drawn is visible, and every node reported as unsupported is a
/// raster image.
pub open spec fn steps_sound(steps: Seq<DrawStep>) -> bool {
    forall|i: int|
        0 <= i < steps.len() ==> match #[trigger] steps[i] {
            DrawStep::FillPath { path, .. } => path_visible(path),
            DrawStep::StrokePath { path, .. } => path_visible(path),
            DrawStep::Unsupported { node } => node_image(node) is Some && image_svg(
                node_image(node)->0,
            ) is None,
            _ => true,
        }
}

proof fn lemma_open_layers_concat(a: Seq<DrawStep>, b: Seq<DrawStep>)
    ensures
        open_layers(a + b) == open_layers(a) + open_layers(b),
    decreases b.len(),
{
    if b.len() == 0 {
        assert(a + b =~= a);
    } else {
        assert((a + b).drop_last() =~= a + b.drop_last());
        assert((a + b).last() == b.last());
        lemma_open_layers_concat(a, b.drop_last());
    }
}

proof fn lemma_balanced_concat(a: Seq<DrawStep>, b: Seq<DrawStep>)
    requires
        layers_balanced(a),
        layers_balanced(b),
    ensures
        layers_balanced(a + b),
{
    lemma_open_layers_concat(a, b);
    assert forall|k: int| 0 <= k <= (a + b).len() implies #[trigger] open_layers(
        (a + b).subrange(0, k),
    ) >= 0 by {
        if k <= a.len() {
            assert((a + b).subrange(0, k) =~= a.subrange(0, k));
        } else {
            assert((a + b).subrange(0, k) =~= a + b.subrange(0, k - a.len()));
            assert(a.subrange(0, a.len() as int) =~= a);
            lemma_open_layers_concat(a, b.subrange(0, k - a.len()));
            assert(open_layers(b.subrange(0, k - a.len())) >= 0);
        }
    }
}

proof fn lemma_sound_concat(a: Seq<DrawStep>, b: Seq<DrawStep>)
    requires
        steps_sound(a),
        steps_sound(b),
    ensures
        steps_sound(a + b),
{
    assert forall|i: int| 0 <= i < (a + b).len() implies match #[trigger] (a + b)[i] {
        DrawStep::FillPath { path, .. } => path_visible(path),
        DrawStep::StrokePath { path, .. } => path_visible(path),
        DrawStep::Unsupported { node } => node_image(node) is Some && image_svg(
            node_image(node)->0,
        ) is None,
        _ => true,
    } by {
        if i < a.len() {
            assert((a + b)[i] == a[i]);
        } else {
            assert((a + b)[i] == b[i - a.len()]);
        }
    }
}

proof fn lemma_single_balanced(step: DrawStep)
    requires
        layer_delta(step) == 0,
    ensures
        layers_balanced(seq![step]),
{
    reveal_with_fuel(open_layers, 2);
    assert(seq![step].drop_last() =~= Seq::<DrawStep>::empty());
    assert forall|k: int| 0 <= k <= 1 implies #[trigger] open_layers(seq![step].subrange(0, k))
        >= 0 by {
        if k == 0 {
            assert(seq![step].subrange(0, k) =~= Seq::<DrawStep>::empty());
        } else {
            assert(seq![step].subrange(0, k) =~= seq![step]);
        }
    }
}

proof fn lemma_empty_balanced()
    ensures
        layers_balanced(Seq::<DrawStep>::empty()),
        steps_sound(Seq::<DrawStep>::empty()),
{
    assert(open_layers(Seq::<DrawStep>::empty()) == 0);
    assert forall|k: int| 0 <= k <= 0 implies #[trigger] open_layers(
        Seq::<DrawStep>::empty().subrange(0, k),
    ) >= 0 by {
        assert(Seq::<DrawStep>::empty().subrange(0, k) =~= Seq::<DrawStep>::empty());
    }
}

/// The fill and stroke steps of a visible path draw no layers and only that
/// path.
proof fn lemma_path_steps_well_formed(path: Path, at: PlacementView)
    requires
        path_visible(path),
    ensures
        layers_balanced(fill_steps(path, at) + stroke_steps(path, at)),
        steps_sound(fill_steps(path, at) + stroke_steps(path, at)),
{
    lemma_empty_balanced();
    let f = fill_steps(path, at);
    let t = stroke_steps(path, at);
    if f.len() > 0 {
        lemma_single_balanced(f[0]);
        assert(f =~= seq![f[0]]);
    }
    if t.len() > 0 {
        lemma_single_balanced(t[0]);
        assert(t =~= seq![t[0]]);
    }
    lemma_balanced_concat(f, t);
    lemma_sound_concat(f, t);
}

/// A push, balanced content, and a pop are balanced.
proof fn lemma_wrapped_balanced(open: DrawStep, inner: Seq<DrawStep>)
    requires
        layer_delta(open) == 1,
        layers_balanced(inner),
    ensures
        layers_balanced(seq![open] + inner + seq![DrawStep::PopLayer]),
{
    let all = seq![open] + inner + seq![DrawStep::PopLayer];
    reveal_with_fuel(open_layers, 2);
    assert(seq![open].drop_last() =~= Seq::<DrawStep>::empty());
    lemma_open_layers_concat(seq![open], inner);
    lemma_open_layers_concat(seq![open] + inner, seq![DrawStep::PopLayer]);
    assert(seq![DrawStep::PopLayer].drop_last() =~= Seq::<DrawStep>::empty());
    assert forall|k: int| 0 <= k <= all.len() implies #[trigger] open_layers(all.subrange(0, k))
        >= 0 by {
        if k == 0 {
            assert(all.subrange(0, k) =~= Seq::<DrawStep>::empty());
        } else if k <= inner.len() + 1 {
            assert(all.subrange(0, k) =~= seq![open] + inner.subrange(0, k - 1));
            lemma_open_layers_concat(seq![open], inner.subrange(0, k - 1));
            assert(open_layers(inner.subrange(0, k - 1)) >= 0);
        } else {
            assert(all.subrange(0, k) =~= all);
        }
    }
}

/// Drawing a group pushes and pops layers in balanced pairs, draws only
/// visible paths, and reports only raster images as unsupported.
pub proof fn lemma_group_steps_well_formed(group: Group, at: PlacementView)
    ensures
        layers_balanced(group_steps(group, at)),
        steps_sound(group_steps(group, at)),
    decreases group_height(group), 1nat, 0nat,
{
    lemma_children_steps_well_formed(group, at, group_children(group).len());
}

/// The steps for the first `n` children of a group are well formed.
pub proof fn lemma_children_steps_well_formed(group: Group, at: PlacementView, n: nat)
    ensures
        layers_balanced(children_steps(group, at, n)),
        steps_sound(children_steps(group, at, n)),
    decreases group_height(group), 0nat, n,
{
    if n == 0 {
        lemma_empty_balanced();
    } else {
        lemma_children_steps_well_formed(group, at, (n - 1) as nat);
        lemma_node_steps_well_formed(group, group_children(group)[n - 1], at, n);
        lemma_balanced_concat(
            children_steps(group, at, (n - 1) as nat),
            node_steps(group, group_children(group)[n - 1], at, n),
        );
        lemma_sound_concat(
            children_steps(group, at, (n - 1) as nat),
            node_steps(group, group_children(group)[n - 1], at, n),
        );
    }
}

/// The steps for one child of a group are well formed.
pub proof fn lemma_node_steps_well_formed(parent: Group, node: Node, at: PlacementView, n: nat)
    ensures
        layers_balanced(node_steps(parent, node, at, n)),
        steps_sound(node_steps(parent, node, at, n)),
    decreases group_height(parent), 0nat, n - 1,
{
    let here = placed_in(at, node);
    let steps = node_steps(parent, node, at, n);
    lemma_empty_balanced();
    if n == 0 {
    } else if node_group(node) is Some {
        let child = node_group(node)->0;
        if group_height(child) < group_height(parent) {
            let layer = layer_for(child, here);
            let inner = group_steps(child, identity_placement());
            lemma_group_steps_well_formed(child, identity_placement());
            if layer.len() > 0 {
                lemma_wrapped_balanced(layer[0], inner);
                assert(layer =~= seq![layer[0]]);
                assert(steps =~= seq![layer[0]] + inner + seq![DrawStep::PopLayer]);
                assert(steps_sound(layer));
                assert(steps_sound(seq![DrawStep::PopLayer]));
                lemma_sound_concat(layer, inner);
                lemma_sound_concat(layer + inner, seq![DrawStep::PopLayer]);
            } else {
                assert(layer =~= Seq::<DrawStep>::empty());
                assert(steps =~= inner);
            }
        }
    } else if node_path(node) is Some {
        let path = node_path(node)->0;
        if path_visible(path) {
            lemma_path_steps_well_formed(path, here);
        }
    } else if node_image(node) is Some {
        match image_svg(node_image(node)->0) {
            Some(tree) => {
                if group_height(tree_root(tree)) < group_height(parent) {
                    lemma_group_steps_well_formed(tree_root(tree), here);
                }
            },
            None => {
                lemma_single_balanced(DrawStep::Unsupported { node });
            },
        }
    } else if node_text(node) is Some {
        let flat = text_flattened(node_text(node)->0);
        if group_height(flat) < group_height(parent) {
            lemma_group_steps_well_formed(flat, here);
        }
    }
}

/// A node is a raster image: an image element whose content is not an SVG
/// document.
pub open spec fn is_raster_node(node: Node) -> bool {
    &&& node_group(node) is None
    &&& node_path(node) is None
    &&& node_image(node) is Some
    &&& image_svg(node_image(node)->0) is None
}

/// The nodes reachable from `group`, in document order: each child, then
/// what it holds (the content of a child group, of the document of an SVG
/// image, or of the flattened group of a text), then the next child.
pub open spec fn reachable_nodes(group: Group) -> Seq<Node>
    decreases group_height(group), 1nat, 0nat,
{
    reachable_among(group, group_children(group).len())
}

/// The nodes reachable through the first `n` children of `group`.
pub open spec fn reachable_among(group: Group, n: nat) -> Seq<Node>
    decreases group_height(group), 0nat, n,
{
    if n == 0 {
        Seq::empty()
    } else {
        reachable_among(group, (n - 1) as nat) + reachable_from_node(
            group,
            group_children(group)[n - 1],
            n,
        )
    }
}

/// `node`, a child of `parent`, followed by the nodes reachable through it.
/// (`n` only orders the recursion.)
pub open spec fn reachable_from_node(parent: Group, node: Node, n: nat) -> Seq<Node>
    decreases group_height(parent), 0nat, n - 1,
{
    if n == 0 {
        Seq::empty()
    } else {
        seq![node] + if node_group(node) is Some {
            let child = node_group(node)->0;
            if group_height(child) < group_height(parent) {
                reachable_nodes(child)
            } else {
                Seq::empty()
            }
        } else if node_path(node) is Some {
            Seq::empty()
        } else if node_image(node) is Some {
            match image_svg(node_image(node)->0) {
                Some(tree) => if group_height(tree_root(tree)) < group_height(parent) {
                    reachable_nodes(tree_root(tree))
                } else {
                    Seq::empty()
                },
                None => Seq::empty(),
            }
        } else if node_text(node) is Some {
            let flat = text_flattened(node_text(node)->0);
            if group_height(flat) < group_height(parent) {
                reachable_nodes(flat)
            } else {
                Seq::empty()
            }
        } else {
            Seq::empty()
        }
    }
}

/// The raster images among `nodes`, in order.
pub open spec fn raster_nodes(nodes: Seq<Node>) -> Seq<Node>
    decreases nodes.len(),
{
    if nodes.len() == 0 {
        Seq::empty()
    } else {
        raster_nodes(nodes.drop_last()) + if is_raster_node(nodes.last()) {
            seq![nodes.last()]
        } else {
            Seq::empty()
        }
    }
}

/// The nodes the steps report as unsupported, in order.
pub open spec fn unsupported_nodes(steps: Seq<DrawStep>) -> Seq<Node>
    decreases steps.len(),
{
    if steps.len() == 0 {
        Seq::empty()
    } else {
        unsupported_nodes(steps.drop_last()) + match steps.last() {
            DrawStep::Unsupported { node } => seq![node],
            _ => Seq::empty(),
        }
    }
}

proof fn lemma_raster_nodes_concat(a: Seq<Node>, b: Seq<Node>)
    ensures
        raster_nodes(a + b) == raster_nodes(a) + raster_nodes(b),
    decreases b.len(),
{
    if b.len() == 0 {
        assert(a + b =~= a);
        assert(raster_nodes(b) =~= Seq::<Node>::empty());
        assert(raster_nodes(a) + raster_nodes(b) =~= raster_nodes(a));
    } else {
        assert((a + b).drop_last() =~= a + b.drop_last());
        assert((a + b).last() == b.last());
        lemma_raster_nodes_concat(a, b.drop_last());
        assert(raster_nodes(a + b) =~= raster_nodes(a) + raster_nodes(b));
    }
}

proof fn lemma_unsupported_nodes_concat(a: Seq<DrawStep>, b: Seq<DrawStep>)
    ensures
        unsupported_nodes(a + b) == unsupported_nodes(a) + unsupported_nodes(b),
    decreases b.len(),
{
    if b.len() == 0 {
        assert(a + b =~= a);
        assert(unsupported_nodes(b) =~= Seq::<Node>::empty());
        assert(unsupported_nodes(a) + unsupported_nodes(b) =~= unsupported_nodes(a));
    } else {
        assert((a + b).drop_last() =~= a + b.drop_last());
        assert((a + b).last() == b.last());
        lemma_unsupported_nodes_concat(a, b.drop_last());
        assert(unsupported_nodes(a + b) =~= unsupported_nodes(a) + unsupported_nodes(b));
    }
}

proof fn lemma_unsupported_single(step: DrawStep)
    ensures
        unsupported_nodes(seq![step]) == match step {
            DrawStep::Unsupported { node } => seq![node],
            _ => Seq::<Node>::empty(),
        },
{
    assert(seq![step].drop_last() =~= Seq::<DrawStep>::empty());
    assert(unsupported_nodes(Seq::<DrawStep>::empty()) == Seq::<Node>::empty());
    match step {
        DrawStep::Unsupported { node } => {
            assert(Seq::<Node>::empty() + seq![node] =~= seq![node]);
        },
        _ => {
            assert(Seq::<Node>::empty() + Seq::<Node>::empty() =~= Seq::<Node>::empty());
        },
    }
}

proof fn lemma_raster_single(node: Node)
    ensures
        raster_nodes(seq![node]) == if is_raster_node(node) {
            seq![node]
        } else {
            Seq::<Node>::empty()
        },
{
    assert(seq![node].drop_last() =~= Seq::<Node>::empty());
    assert(raster_nodes(Seq::<Node>::empty()) == Seq::<Node>::empty());
    if is_raster_node(node) {
        assert(Seq::<Node>::empty() + seq![node] =~= seq![node]);
    } else {
        assert(Seq::<Node>::empty() + Seq::<Node>::empty() =~= Seq::<Node>::empty());
    }
}

/// Drawing a group reports every raster image reachable from it as
/// unsupported, each exactly once and in document order, and reports no
/// other node.
pub proof fn lemma_unsupported_are_reachable_rasters(group: Group, at: PlacementView)
    ensures
        unsupported_nodes(group_steps(group, at)) == raster_nodes(reachable_nodes(group)),
    decreases group_height(group), 1nat, 0nat,
{
    lemma_unsupported_among(group, at, group_children(group).len());
}

/// The same for the first `n` children of a group.
pub proof fn lemma_unsupported_among(group: Group, at: PlacementView, n: nat)
    ensures
        unsupported_nodes(children_steps(group, at, n)) == raster_nodes(reachable_among(group, n)),
    decreases group_height(group), 0nat, n,
{
    if n == 0 {
        assert(unsupported_nodes(Seq::<DrawStep>::empty()) == Seq::<Node>::empty());
        assert(raster_nodes(Seq::<Node>::empty()) == Seq::<Node>::empty());
    } else {
        let node = group_children(group)[n - 1];
        lemma_unsupported_among(group, at, (n - 1) as nat);
        lemma_unsupported_of_node(group, node, at, n);
        lemma_unsupported_nodes_concat(
            children_steps(group, at, (n - 1) as nat),
            node_steps(group, node, at, n),
        );
        lemma_raster_nodes_concat(
            reachable_among(group, (n - 1) as nat),
            reachable_from_node(group, node, n),
        );
    }
}

/// The same for one child of a group.
pub proof fn lemma_unsupported_of_node(parent: Group, node: Node, at: PlacementView, n: nat)
    ensures
        unsupported_nodes(node_steps(parent, node, at, n)) == raster_nodes(
            reachable_from_node(parent, node, n),
        ),
    decreases group_height(parent), 0nat, n - 1,
{
    let here = placed_in(at, node);
    let steps = node_steps(parent, node, at, n);
    let reach = reachable_from_node(parent, node, n);
    assert(unsupported_nodes(Seq::<DrawStep>::empty()) == Seq::<Node>::empty());
    assert(raster_nodes(Seq::<Node>::empty()) == Seq::<Node>::empty());
    if n == 0 {
    } else {
        lemma_raster_single(node);
        let inner: Seq<Node> = reach.subrange(1, reach.len() as int);
        assert(reach =~= seq![node] + inner);
        lemma_raster_nodes_concat(seq![node], inner);
        if node_group(node) is Some {
            let child = node_group(node)->0;
            if group_height(child) < group_height(parent) {
                lemma_unsupported_are_reachable_rasters(child, identity_placement());
                let layer = layer_for(child, here);
                let content = group_steps(child, identity_placement());
                let closing: Seq<DrawStep> = if layer.len() > 0 {
                    seq![DrawStep::PopLayer]
                } else {
                    Seq::empty()
                };
                assert(steps == layer + content + closing);
                lemma_unsupported_nodes_concat(layer, content);
                lemma_unsupported_nodes_concat(layer + content, closing);
                if layer.len() > 0 {
                    assert(layer =~= seq![layer[0]]);
                    lemma_unsupported_single(layer[0]);
                    lemma_unsupported_single(DrawStep::PopLayer);
                }
                assert(inner =~= reachable_nodes(child));
            } else {
                assert(inner =~= Seq::<Node>::empty());
            }
        } else if node_path(node) is Some {
            let path = node_path(node)->0;
            assert(inner =~= Seq::<Node>::empty());
            if path_visible(path) {
                let f = fill_steps(path, here);
                let t = stroke_steps(path, here);
                lemma_unsupported_nodes_concat(f, t);
                if f.len() > 0 {
                    assert(f =~= seq![f[0]]);
                    lemma_unsupported_single(f[0]);
                }
                if t.len() > 0 {
                    assert(t =~= seq![t[0]]);
                    lemma_unsupported_single(t[0]);
                }
            }
        } else if node_image(node) is Some {
            match image_svg(node_image(node)->0) {
                Some(tree) => {
                    if group_height(tree_root(tree)) < group_height(parent) {
                        lemma_unsupported_are_reachable_rasters(tree_root(tree), here);
                        assert(inner =~= reachable_nodes(tree_root(tree)));
                    } else {
                        assert(inner =~= Seq::<Node>::empty());
                    }
                },
                None => {
                    assert(inner =~= Seq::<Node>::empty());
                    lemma_unsupported_single(DrawStep::Unsupported { node });
                },
            }
        } else if node_text(node) is Some {
            let flat = text_flattened(node_text(node)->0);
            if group_height(flat) < group_height(parent) {
                lemma_unsupported_are_reachable_rasters(flat, here);
                assert(inner =~= reachable_nodes(flat));
            } else {
                assert(inner =~= Seq::<Node>::empty());
            }
        } else {
            assert(inner =~= Seq::<Node>::empty());
        }
    }
}

/// A path has a fill that is drawn: one whose paint converts to a brush.
pub open spec fn has_drawn_fill(path: Path) -> bool {
    path_fill(path) matches Some(fill) && converted_brush(fill_paint(fill), fill_opacity(fill)) is Some
}

/// A path has a stroke that is drawn: one whose paint converts to a brush.
pub open spec fn has_drawn_stroke(path: Path) -> bool {
    path_stroke(path) matches Some(stroke) && converted_brush(
        stroke_paint(stroke),
        stroke_opacity(stroke),
    ) is Some
}

/// What a node paints of its own: for a visible path, the path once for its
/// drawn fill and once more for its drawn stroke; nothing for other nodes.
pub open spec fn own_paints(node: Node) -> Seq<Path> {
    if node_group(node) is None && node_path(node) is Some && path_visible(node_path(node)->0) {
        let path = node_path(node)->0;
        (if has_drawn_fill(path) {
            seq![path]
        } else {
            Seq::empty()
        }) + (if has_drawn_stroke(path) {
            seq![path]
        } else {
            Seq::empty()
        })
    } else {
        Seq::empty()
    }
}

/// What the nodes paint of their own, in order.
pub open spec fn paints_of(nodes: Seq<Node>) -> Seq<Path>
    decreases nodes.len(),
{
    if nodes.len() == 0 {
        Seq::empty()
    } else {
        paints_of(nodes.drop_last()) + own_paints(nodes.last())
    }
}

/// The paths the steps fill or stroke, in order.
pub open spec fn painted_paths(steps: Seq<DrawStep>) -> Seq<Path>
    decreases steps.len(),
{
    if steps.len() == 0 {
        Seq::empty()
    } else {
        painted_paths(steps.drop_last()) + match steps.last() {
            DrawStep::FillPath { path, .. } => seq![path],
            DrawStep::StrokePath { path, .. } => seq![path],
            _ => Seq::empty(),
        }
    }
}

proof fn lemma_paints_of_concat(a: Seq<Node>, b: Seq<Node>)
    ensures
        paints_of(a + b) == paints_of(a) + paints_of(b),
    decreases b.len(),
{
    if b.len() == 0 {
        assert(a + b =~= a);
        assert(paints_of(a) + paints_of(b) =~= paints_of(a));
    } else {
        assert((a + b).drop_last() =~= a + b.drop_last());
        assert((a + b).last() == b.last());
        lemma_paints_of_concat(a, b.drop_last());
        assert(paints_of(a + b) =~= paints_of(a) + paints_of(b));
    }
}

proof fn lemma_painted_paths_concat(a: Seq<DrawStep>, b: Seq<DrawStep>)
    ensures
        painted_paths(a + b) == painted_paths(a) + painted_paths(b),
    decreases b.len(),
{
    if b.len() == 0 {
        assert(a + b =~= a);
        assert(painted_paths(a) + painted_paths(b) =~= painted_paths(a));
    } else {
        assert((a + b).drop_last() =~= a + b.drop_last());
        assert((a + b).last() == b.last());
        lemma_painted_paths_concat(a, b.drop_last());
        assert(painted_paths(a + b) =~= painted_paths(a) + painted_paths(b));
    }
}

proof fn lemma_painted_single(step: DrawStep)
    ensures
        painted_paths(seq![step]) == match step {
            DrawStep::FillPath { path, .. } => seq![path],
            DrawStep::StrokePath { path, .. } => seq![path],
            _ => Seq::<Path>::empty(),
        },
{
    assert(seq![step].drop_last() =~= Seq::<DrawStep>::empty());
    assert(painted_paths(Seq::<DrawStep>::empty()) == Seq::<Path>::empty());
    match step {
        DrawStep::FillPath { path, .. } => {
            assert(Seq::<Path>::empty() + seq![path] =~= seq![path]);
        },
        DrawStep::StrokePath { path, .. } => {
            assert(Seq::<Path>::empty() + seq![path] =~= seq![path]);
        },
        _ => {
            assert(Seq::<Path>::empty() + Seq::<Path>::empty() =~= Seq::<Path>::empty());
        },
    }
}

proof fn lemma_paints_single(node: Node)
    ensures
        paints_of(seq![node]) == own_paints(node),
{
    assert(seq![node].drop_last() =~= Seq::<Node>::empty());
    assert(paints_of(Seq::<Node>::empty()) == Seq::<Path>::empty());
    assert(Seq::<Path>::empty() + own_paints(node) =~= own_paints(node));
}

/// Drawing a group fills and strokes exactly the visible paths reachable from
/// it, in document order: each path once for a fill whose paint converts to
/// a brush and once for such a stroke, and nothing else.
pub proof fn lemma_painted_are_reachable_paths(group: Group, at: PlacementView)
    ensures
        painted_paths(group_steps(group, at)) == paints_of(reachable_nodes(group)),
    decreases group_height(group), 1nat, 0nat,
{
    lemma_painted_among(group, at, group_children(group).len());
}

/// The same for the first `n` children of a group.
pub proof fn lemma_painted_among(group: Group, at: PlacementView, n: nat)
    ensures
        painted_paths(children_steps(group, at, n)) == paints_of(reachable_among(group, n)),
    decreases group_height(group), 0nat, n,
{
    if n == 0 {
        assert(painted_paths(Seq::<DrawStep>::empty()) == Seq::<Path>::empty());
        assert(paints_of(Seq::<Node>::empty()) == Seq::<Path>::empty());
    } else {
        let node = group_children(group)[n - 1];
        lemma_painted_among(group, at, (n - 1) as nat);
        lemma_painted_of_node(group, node, at, n);
        lemma_painted_paths_concat(
            children_steps(group, at, (n - 1) as nat),
            node_steps(group, node, at, n),
        );
        lemma_paints_of_concat(
            reachable_among(group, (n - 1) as nat),
            reachable_from_node(group, node, n),
        );
    }
}

/// The same for one child of a group.
pub proof fn lemma_painted_of_node(parent: Group, node: Node, at: PlacementView, n: nat)
    ensures
        painted_paths(node_steps(parent, node, at, n)) == paints_of(
            reachable_from_node(parent, node, n),
        ),
    decreases group_height(parent), 0nat, n - 1,
{
    let here = placed_in(at, node);
    let steps = node_steps(parent, node, at, n);
    let reach = reachable_from_node(parent, node, n);
    assert(painted_paths(Seq::<DrawStep>::empty()) == Seq::<Path>::empty());
    assert(paints_of(Seq::<Node>::empty()) == Seq::<Path>::empty());
    if n == 0 {
    } else {
        lemma_paints_single(node);
        let inner: Seq<Node> = reach.subrange(1, reach.len() as int);
        assert(reach =~= seq![node] + inner);
        lemma_paints_of_concat(seq![node], inner);
        if node_group(node) is Some {
            let child = node_group(node)->0;
            assert(own_paints(node) =~= Seq::<Path>::empty());
            if group_height(child) < group_height(parent) {
                lemma_painted_are_reachable_paths(child, identity_placement());
                let layer = layer_for(child, here);
                let content = group_steps(child, identity_placement());
                let closing: Seq<DrawStep> = if layer.len() > 0 {
                    seq![DrawStep::PopLayer]
                } else {
                    Seq::empty()
                };
                assert(steps == layer + content + closing);
                lemma_painted_paths_concat(layer, content);
                lemma_painted_paths_concat(layer + content, closing);
                if layer.len() > 0 {
                    assert(layer =~= seq![layer[0]]);
                    lemma_painted_single(layer[0]);
                    lemma_painted_single(DrawStep::PopLayer);
                }
                assert(inner =~= reachable_nodes(child));
            } else {
                assert(inner =~= Seq::<Node>::empty());
            }
        } else if node_path(node) is Some {
            let path = node_path(node)->0;
            assert(inner =~= Seq::<Node>::empty());
            if path_visible(path) {
                let f = fill_steps(path, here);
                let t = stroke_steps(path, here);
                lemma_painted_paths_concat(f, t);
                if f.len() > 0 {
                    assert(f =~= seq![f[0]]);
                    lemma_painted_single(f[0]);
                } else {
                    assert(f =~= Seq::<DrawStep>::empty());
                }
                if t.len() > 0 {
                    assert(t =~= seq![t[0]]);
                    lemma_painted_single(t[0]);
                } else {
                    assert(t =~= Seq::<DrawStep>::empty());
                }
                assert(painted_paths(steps) =~= own_paints(node));
            } else {
                assert(own_paints(node) =~= Seq::<Path>::empty());
            }
        } else {
            assert(own_paints(node) =~= Seq::<Path>::empty());
            if node_image(node) is Some {
                match image_svg(node_image(node)->0) {
                    Some(tree) => {
                        if group_height(tree_root(tree)) < group_height(parent) {
                            lemma_painted_are_reachable_paths(tree_root(tree), here);
                            assert(inner =~= reachable_nodes(tree_root(tree)));
                        } else {
                            assert(inner =~= Seq::<Node>::empty());
                        }
                    },
                    None => {
                        assert(inner =~= Seq::<Node>::empty());
                        lemma_painted_single(DrawStep::Unsupported { node });
                    },
                }
            } else if node_text(node) is Some {
                let flat = text_flattened(node_text(node)->0);
                if group_height(flat) < group_height(parent) {
                    lemma_painted_are_reachable_paths(flat, here);
                    assert(inner =~= reachable_nodes(flat));
                } else {
                    assert(inner =~= Seq::<Node>::empty());
                }
            } else {
                assert(inner =~= Seq::<Node>::empty());
            }
        }
    }
}

/// The first child of a group's clip path, when it has one and it is a path.
pub open spec fn clip_first_path(group: Group) -> Option<Path> {
    match group_clip_path(group) {
        Some(clip) => if group_children(clip_path_root(clip)).len() > 0 {
            node_path(group_children(clip_path_root(clip))[0])
        } else {
            None
        },
        None => None,
    }
}

/// Drawing a child group: when its clip path starts with a path, or it must
/// be isolated, its content is wrapped in a layer for that group, placed
/// exactly where the child is drawn (inside `at`, then the child's own
/// transform) and popped at the end; otherwise its content is drawn with no
/// layer of its own.
pub proof fn lemma_child_group_layer(parent: Group, node: Node, at: PlacementView, n: nat)
    requires
        n > 0,
        node_group(node) is Some,
        group_height(node_group(node)->0) < group_height(parent),
    ensures
        ({
            let child = node_group(node)->0;
            let steps = node_steps(parent, node, at, n);
            &&& (clip_first_path(child) is Some || group_isolated(child)) ==> {
                &&& steps.len() >= 2
                &&& steps.last() == DrawStep::PopLayer
                &&& match steps[0] {
                    DrawStep::PushClipLayer { group, clip, at: placed, .. } => clip_first_path(child)
                        == Some(clip) && group == child && placed == placed_in(at, node),
                    DrawStep::PushIsolatedLayer { group, at: placed, .. } => clip_first_path(
                        child,
                    ) is None && group == child && placed == placed_in(at, node),
                    _ => false,
                }
            }
            &&& !(clip_first_path(child) is Some || group_isolated(child)) ==> steps == group_steps(
                child,
                identity_placement(),
            )
        }),
{
    let child = node_group(node)->0;
    let here = placed_in(at, node);
    let layer = layer_for(child, here);
    let content = group_steps(child, identity_placement());
    let steps = node_steps(parent, node, at, n);
    if clip_first_path(child) is Some || group_isolated(child) {
        assert(layer.len() == 1);
        assert(steps == layer + content + seq![DrawStep::PopLayer]);
        assert(steps[0] == layer[0]);
        assert(steps.last() == DrawStep::PopLayer);
    } else {
        assert(layer =~= Seq::<DrawStep>::empty());
        assert(steps =~= content);
    }
}

/// Every step carries what it draws with: a layer is for the group held by
/// the last node of its placement and blends with that group's blend mode and
/// opacity (a clip layer with the non-zero rule); a fill is of the path held
/// by the last node of its placement, with the rule of the path's fill and
/// the brush converted from that fill's paint and opacity; a stroke likewise
/// with the path's stroke and its brush.
pub open spec fn steps_faithful(steps: Seq<DrawStep>) -> bool {
    forall|i: int|
        0 <= i < steps.len() ==> match #[trigger] steps[i] {
            DrawStep::PushClipLayer { group, clip_style, blend, alpha, at, .. } => {
                &&& at.nodes.len() > 0
                &&& node_group(at.nodes.last()) == Some(group)
                &&& clip_style == FillRuleKind::NonZero
                &&& blend == group_blend(group)
                &&& alpha == group_opacity(group)
            },
            DrawStep::PushIsolatedLayer { group, blend, alpha, at } => {
                &&& at.nodes.len() > 0
                &&& node_group(at.nodes.last()) == Some(group)
                &&& blend == group_blend(group)
                &&& alpha == group_opacity(group)
            },
            DrawStep::FillPath { path, rule, brush, brush_transform, at } => {
                &&& at.nodes.len() > 0
                &&& node_path(at.nodes.last()) == Some(path)
                &&& path_fill(path) is Some
                &&& rule == fill_rule(path_fill(path)->0)
                &&& converted_brush(
                    fill_paint(path_fill(path)->0),
                    fill_opacity(path_fill(path)->0),
                ) == Some((brush, brush_transform))
            },
            DrawStep::StrokePath { path, stroke, brush, brush_transform, at } => {
                &&& at.nodes.len() > 0
                &&& node_path(at.nodes.last()) == Some(path)
                &&& path_stroke(path) == Some(stroke)
                &&& converted_brush(stroke_paint(stroke), stroke_opacity(stroke)) == Some(
                    (brush, brush_transform),
                )
            },
            _ => true,
        }
}

proof fn lemma_faithful_concat(a: Seq<DrawStep>, b: Seq<DrawStep>)
    requires
        steps_faithful(a),
        steps_faithful(b),
    ensures
        steps_faithful(a + b),
{
    assert forall|i: int| 0 <= i < (a + b).len() implies match #[trigger] (a + b)[i] {
        DrawStep::PushClipLayer { group, clip_style, blend, alpha, at, .. } => {
            &&& at.nodes.len() > 0
            &&& node_group(at.nodes.last()) == Some(group)
            &&& clip_style == FillRuleKind::NonZero
            &&& blend == group_blend(group)
            &&& alpha == group_opacity(group)
        },
        DrawStep::PushIsolatedLayer { group, blend, alpha, at } => {
            &&& at.nodes.len() > 0
            &&& node_group(at.nodes.last()) == Some(group)
            &&& blend == group_blend(group)
            &&& alpha == group_opacity(group)
        },
        DrawStep::FillPath { path, rule, brush, brush_transform, at } => {
            &&& at.nodes.len() > 0
            &&& node_path(at.nodes.last()) == Some(path)
            &&& path_fill(path) is Some
            &&& rule == fill_rule(path_fill(path)->0)
            &&& converted_brush(fill_paint(path_fill(path)->0), fill_opacity(path_fill(path)->0))
                == Some((brush, brush_transform))
        },
        DrawStep::StrokePath { path, stroke, brush, brush_transform, at } => {
            &&& at.nodes.len() > 0
            &&& node_path(at.nodes.last()) == Some(path)
            &&& path_stroke(path) == Some(stroke)
            &&& converted_brush(stroke_paint(stroke), stroke_opacity(stroke)) == Some(
                (brush, brush_transform),
            )
        },
        _ => true,
    } by {
        if i < a.len() {
            assert((a + b)[i] == a[i]);
        } else {
            assert((a + b)[i] == b[i - a.len()]);
        }
    }
}

/// Drawing a group draws every layer, fill and stroke with what belongs to
/// its group or path (see `steps_faithful`).
pub proof fn lemma_group_steps_faithful(group: Group, at: PlacementView)
    ensures
        steps_faithful(group_steps(group, at)),
    decreases group_height(group), 1nat, 0nat,
{
    lemma_children_steps_faithful(group, at, group_children(group).len());
}

/// The same for the first `n` children of a group.
pub proof fn lemma_children_steps_faithful(group: Group, at: PlacementView, n: nat)
    ensures
        steps_faithful(children_steps(group, at, n)),
    decreases group_height(group), 0nat, n,
{
    if n > 0 {
        lemma_children_steps_faithful(group, at, (n - 1) as nat);
        lemma_node_steps_faithful(group, group_children(group)[n - 1], at, n);
        lemma_faithful_concat(
            children_steps(group, at, (n - 1) as nat),
            node_steps(group, group_children(group)[n - 1], at, n),
        );
    }
}

/// The same for one child of a group.
pub proof fn lemma_node_steps_faithful(parent: Group, node: Node, at: PlacementView, n: nat)
    ensures
        steps_faithful(node_steps(parent, node, at, n)),
    decreases group_height(parent), 0nat, n - 1,
{
    let here = placed_in(at, node);
    assert(here.nodes.last() == node);
    if n == 0 {
    } else if node_group(node) is Some {
        let child = node_group(node)->0;
        if group_height(child) < group_height(parent) {
            let layer = layer_for(child, here);
            let content = group_steps(child, identity_placement());
            let closing: Seq<DrawStep> = if layer.len() > 0 {
                seq![DrawStep::PopLayer]
            } else {
                Seq::empty()
            };
            lemma_group_steps_faithful(child, identity_placement());
            assert(steps_faithful(layer));
            assert(steps_faithful(closing));
            lemma_faithful_concat(layer, content);
            lemma_faithful_concat(layer + content, closing);
        }
    } else if node_path(node) is Some {
        let path = node_path(node)->0;
        if path_visible(path) {
            let f = fill_steps(path, here);
            let t = stroke_steps(path, here);
            assert(steps_faithful(f));
            assert(steps_faithful(t));
            lemma_faithful_concat(f, t);
        }
    } else if node_image(node) is Some {
        match image_svg(node_image(node)->0) {
            Some(tree) => {
                if group_height(tree_root(tree)) < group_height(parent) {
                    lemma_group_steps_faithful(tree_root(tree), here);
                }
            },
            None => {},
        }
    } else if node_text(node) is Some {
        let flat = text_flattened(node_text(node)->0);
        if group_height(flat) < group_height(parent) {
            lemma_group_steps_faithful(flat, here);
        }
    }
}

} // verus!
