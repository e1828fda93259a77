//! The parts of `usvg`, `vello_svg` and `std::str` that the loader relies on.
//!
//! Everything here is trusted: each item's doc comment says which outside
//! function it calls and what its contract claims of that function.
use vstd::prelude::*;
use vstd::utf8::*;

verus! {

/// An SVG document parsed by `usvg`.
#[verifier::external_type_specification]
#[verifier::external_body]
pub struct ExUsvgTree(vello_svg::usvg::Tree);

/// A `usvg` group element.
#[verifier::external_type_specification]
#[verifier::external_body]
pub struct ExUsvgGroup(vello_svg::usvg::Group);

/// A `usvg` node: a group, a path, an image or a text element.
#[verifier::external_type_specification]
#[verifier::external_body]
pub struct ExUsvgNode(vello_svg::usvg::Node);

/// A `usvg` path element.
#[verifier::external_type_specification]
#[verifier::external_body]
pub struct ExUsvgPath(vello_svg::usvg::Path);

/// A `usvg` image element.
#[verifier::external_type_specification]
#[verifier::external_body]
pub struct ExUsvgImage(vello_svg::usvg::Image);

/// A `usvg` text element.
#[verifier::external_type_specification]
#[verifier::external_body]
pub struct ExUsvgText(vello_svg::usvg::Text);

/// A `usvg` clip path.
#[verifier::external_type_specification]
#[verifier::external_body]
pub struct ExUsvgClipPath(vello_svg::usvg::ClipPath);

/// A `usvg` blend mode.
#[verifier::external_type_specification]
#[verifier::external_body]
pub struct ExUsvgBlendMode(vello_svg::usvg::BlendMode);

/// A `usvg` fill.
#[verifier::external_type_specification]
#[verifier::external_body]
pub struct ExUsvgFill(vello_svg::usvg::Fill);

/// A `usvg` stroke.
#[verifier::external_type_specification]
#[verifier::external_body]
pub struct ExUsvgStroke(vello_svg::usvg::Stroke);

/// A `usvg` paint: a color, a gradient or a pattern.
#[verifier::external_type_specification]
#[verifier::external_body]
pub struct ExUsvgPaint(vello_svg::usvg::Paint);

/// An opacity, a finite number between 0 and 1.
#[verifier::external_type_specification]
#[verifier::external_body]
pub struct ExOpacity(vello_svg::usvg::NormalizedF32);

/// A Vello brush.
#[verifier::external_type_specification]
#[verifier::external_body]
#[verifier::reject_recursive_types(I)]
#[verifier::reject_recursive_types(G)]
pub struct ExBrush<I, G>(vello_svg::peniko::Brush<I, G>);

/// A Vello gradient (a brush may hold one).
#[verifier::external_type_specification]
#[verifier::external_body]
pub struct ExGradient(vello_svg::peniko::Gradient);

/// A Vello image brush (a brush may hold one).
#[verifier::external_type_specification]
#[verifier::external_body]
#[verifier::reject_recursive_types(D)]
pub struct ExImageBrush<D>(vello_svg::peniko::ImageBrush<D>);

/// Vello image data (an image brush holds it).
#[verifier::external_type_specification]
#[verifier::external_body]
pub struct ExImageData(vello_svg::peniko::ImageData);

/// A 2D affine transform.
#[verifier::external_type_specification]
#[verifier::external_body]
pub struct ExAffine(vello_svg::kurbo::Affine);

/// The error `usvg` reports for a document it cannot parse.
#[verifier::external_type_specification]
#[verifier::external_body]
pub struct ExUsvgError(vello_svg::usvg::Error);

/// The XML-level error carried by a `usvg` parse failure.
#[verifier::external_type_specification]
#[verifier::external_body]
pub struct ExXmlError(vello_svg::usvg::roxmltree::Error);

/// A Vello scene, the result of rendering a document.
#[verifier::external_type_specification]
#[verifier::external_body]
pub struct ExScene(vello_svg::vello::Scene);

/// The error of `std::str::from_utf8`.
#[verifier::external_type_specification]
#[verifier::external_body]
pub struct ExUtf8Error(core::str::Utf8Error);

/// What `usvg::Tree::root` returns for a tree.
pub uninterp spec fn tree_root(tree: vello_svg::usvg::Tree) -> vello_svg::usvg::Group;

/// What `usvg::Group::children` returns for a group.
pub uninterp spec fn group_children(group: vello_svg::usvg::Group) -> Seq<vello_svg::usvg::Node>;

/// What `usvg::Group::id` returns for a group.
pub uninterp spec fn group_id(group: vello_svg::usvg::Group) -> Seq<char>;

/// The group a node holds when it is `usvg::Node::Group`, else `None`.
pub uninterp spec fn node_group(node: vello_svg::usvg::Node) -> Option<vello_svg::usvg::Group>;

/// The path a node holds when it is `usvg::Node::Path`, else `None`.
pub uninterp spec fn node_path(node: vello_svg::usvg::Node) -> Option<vello_svg::usvg::Path>;

/// The image a node holds when it is `usvg::Node::Image`, else `None`.
pub uninterp spec fn node_image(node: vello_svg::usvg::Node) -> Option<vello_svg::usvg::Image>;

/// The text a node holds when it is `usvg::Node::Text`, else `None`.
pub uninterp spec fn node_text(node: vello_svg::usvg::Node) -> Option<vello_svg::usvg::Text>;

/// The tree an image holds when `usvg::Image::kind` is `ImageKind::SVG`,
/// else `None` (raster data).
pub uninterp spec fn image_svg(image: vello_svg::usvg::Image) -> Option<vello_svg::usvg::Tree>;

/// What `usvg::Text::flattened` returns for a text element.
pub uninterp spec fn text_flattened(text: vello_svg::usvg::Text) -> vello_svg::usvg::Group;

/// What `usvg::Path::is_visible` returns for a path.
pub uninterp spec fn path_visible(path: vello_svg::usvg::Path) -> bool;

/// What `usvg::Group::clip_path` returns for a group.
pub uninterp spec fn group_clip_path(group: vello_svg::usvg::Group) -> Option<
    vello_svg::usvg::ClipPath,
>;

/// What `usvg::ClipPath::root` returns for a clip path.
pub uninterp spec fn clip_path_root(clip: vello_svg::usvg::ClipPath) -> vello_svg::usvg::Group;

/// What `usvg::Group::should_isolate` returns for a group.
pub uninterp spec fn group_isolated(group: vello_svg::usvg::Group) -> bool;

/// The fill rules of `usvg::FillRule`, by name.
#[derive(Clone, Copy, Debug, PartialEq, Eq, Structural)]
pub enum FillRuleKind {
    NonZero,
    EvenOdd,
}

/// The kinds of `usvg::Paint`.
#[derive(Clone, Copy, Debug, PartialEq, Eq, Structural)]
pub enum PaintKind {
    Color,
    LinearGradient,
    RadialGradient,
    Pattern,
}

/// What `usvg::Group::blend_mode` returns for a group.
pub uninterp spec fn group_blend(group: vello_svg::usvg::Group) -> vello_svg::usvg::BlendMode;

/// What `usvg::Group::opacity` returns for a group.
pub uninterp spec fn group_opacity(group: vello_svg::usvg::Group) -> vello_svg::usvg::NormalizedF32;

/// What `usvg::Path::fill` returns for a path.
pub uninterp spec fn path_fill(path: vello_svg::usvg::Path) -> Option<vello_svg::usvg::Fill>;

/// What `usvg::Path::stroke` returns for a path.
pub uninterp spec fn path_stroke(path: vello_svg::usvg::Path) -> Option<vello_svg::usvg::Stroke>;

/// What `usvg::Fill::paint` returns for a fill.
pub uninterp spec fn fill_paint(fill: vello_svg::usvg::Fill) -> vello_svg::usvg::Paint;

/// What `usvg::Fill::opacity` returns for a fill.
pub uninterp spec fn fill_opacity(fill: vello_svg::usvg::Fill) -> vello_svg::usvg::NormalizedF32;

/// What `usvg::Fill::rule` returns for a fill, by name.
pub uninterp spec fn fill_rule(fill: vello_svg::usvg::Fill) -> FillRuleKind;

/// What `usvg::Stroke::paint` returns for a stroke.
pub uninterp spec fn stroke_paint(stroke: vello_svg::usvg::Stroke) -> vello_svg::usvg::Paint;

/// What `usvg::Stroke::opacity` returns for a stroke.
pub uninterp spec fn stroke_opacity(stroke: vello_svg::usvg::Stroke) -> vello_svg::usvg::NormalizedF32;

/// The kind of a paint.
pub uninterp spec fn paint_kind(paint: vello_svg::usvg::Paint) -> PaintKind;

/// What `vello_svg::util::to_brush` returns for a paint and an opacity.
pub uninterp spec fn converted_brush(
    paint: vello_svg::usvg::Paint,
    opacity: vello_svg::usvg::NormalizedF32,
) -> Option<(vello_svg::peniko::Brush, vello_svg::kurbo::Affine)>;

/// The nesting height of a group. A group owns its children; a child group,
/// the tree of an SVG image child and the flattened group of a text child are
/// all owned by the child, so each of them is strictly lower.
pub uninterp spec fn group_height(group: vello_svg::usvg::Group) -> nat;

/// The groups held by `node`, a child of `parent`, are lower than `parent`.
pub open spec fn held_groups_lower(node: vello_svg::usvg::Node, parent: vello_svg::usvg::Group) -> bool {
    &&& node_group(node) matches Some(g) ==> group_height(g) < group_height(parent)
    &&& node_image(node) matches Some(image) && image_svg(image) matches Some(tree)
        ==> group_height(tree_root(tree)) < group_height(parent)
    &&& node_text(node) matches Some(text) ==> group_height(text_flattened(text)) < group_height(
        parent,
    )
}

/// What `vello_svg::render_tree` returns for a tree.
pub uninterp spec fn rendered_scene(tree: vello_svg::usvg::Tree) -> vello_svg::vello::Scene;

/// What `Utf8Error::valid_up_to` returns for an error.
pub uninterp spec fn utf8_valid_up_to(err: core::str::Utf8Error) -> nat;

/// What `roxmltree::Error`'s `Display` renders for an error.
pub uninterp spec fn xml_error_text(err: vello_svg::usvg::roxmltree::Error) -> Seq<char>;

/// Calls `usvg::Tree::root`, which hands out the tree's root group.
#[verifier::external_body]
pub fn root_of(tree: &vello_svg::usvg::Tree) -> (r: &vello_svg::usvg::Group)
    ensures
        *r == tree_root(*tree),
{
    tree.root()
}

/// Calls `usvg::Group::children`. Besides naming the result, the contract
/// states that the groups a child holds are nested strictly below the parent,
/// which holds because a `Group` owns its `children` vector and each node
/// owns what it holds.
#[verifier::external_body]
pub fn children_of(group: &vello_svg::usvg::Group) -> (r: &[vello_svg::usvg::Node])
    ensures
        r@ == group_children(*group),
        forall|i: int|
            #![trigger r@[i]]
            0 <= i < r@.len() ==> {
                &&& node_group(r@[i]) matches Some(g) ==> group_height(g) < group_height(*group)
                &&& node_image(r@[i]) matches Some(image) && image_svg(image) matches Some(tree)
                    ==> group_height(tree_root(tree)) < group_height(*group)
                &&& node_text(r@[i]) matches Some(text) ==> group_height(text_flattened(text))
                    < group_height(*group)
            },
{
    group.children()
}

/// Calls `usvg::Group::id`, the element id taken from the document (empty
/// when the element has none).
#[verifier::external_body]
pub fn id_of(group: &vello_svg::usvg::Group) -> (r: &str)
    ensures
        r@ == group_id(*group),
{
    group.id()
}

/// Tells the variants of `usvg::Node` apart: the held group for
/// `Node::Group`, `None` for a path, an image or a text element.
#[verifier::external_body]
pub fn as_group(node: &vello_svg::usvg::Node) -> (r: Option<&vello_svg::usvg::Group>)
    ensures
        r is Some <==> node_group(*node) is Some,
        r matches Some(g) ==> node_group(*node) == Some(*g),
{
    match node {
        vello_svg::usvg::Node::Group(g) => Some(&**g),
        vello_svg::usvg::Node::Path(_) => None,
        vello_svg::usvg::Node::Image(_) => None,
        vello_svg::usvg::Node::Text(_) => None,
    }
}

/// Tells the variants of `usvg::Node` apart: the held path for
/// `Node::Path`, else `None`.
#[verifier::external_body]
pub fn as_path(node: &vello_svg::usvg::Node) -> (r: Option<&vello_svg::usvg::Path>)
    ensures
        r is Some <==> node_path(*node) is Some,
        r matches Some(p) ==> node_path(*node) == Some(*p),
{
    match node {
        vello_svg::usvg::Node::Group(_) => None,
        vello_svg::usvg::Node::Path(p) => Some(&**p),
        vello_svg::usvg::Node::Image(_) => None,
        vello_svg::usvg::Node::Text(_) => None,
    }
}

/// Tells the variants of `usvg::Node` apart: the held image for
/// `Node::Image`, else `None`.
#[verifier::external_body]
pub fn as_image(node: &vello_svg::usvg::Node) -> (r: Option<&vello_svg::usvg::Image>)
    ensures
        r is Some <==> node_image(*node) is Some,
        r matches Some(i) ==> node_image(*node) == Some(*i),
{
    match node {
        vello_svg::usvg::Node::Group(_) => None,
        vello_svg::usvg::Node::Path(_) => None,
        vello_svg::usvg::Node::Image(i) => Some(&**i),
        vello_svg::usvg::Node::Text(_) => None,
    }
}

/// Tells the variants of `usvg::Node` apart: the held text for
/// `Node::Text`, else `None`.
#[verifier::external_body]
pub fn as_text(node: &vello_svg::usvg::Node) -> (r: Option<&vello_svg::usvg::Text>)
    ensures
        r is Some <==> node_text(*node) is Some,
        r matches Some(t) ==> node_text(*node) == Some(*t),
{
    match node {
        vello_svg::usvg::Node::Group(_) => None,
        vello_svg::usvg::Node::Path(_) => None,
        vello_svg::usvg::Node::Image(_) => None,
        vello_svg::usvg::Node::Text(t) => Some(&**t),
    }
}

/// Calls `usvg::Image::kind` and tells its variants apart: the tree of an
/// `ImageKind::SVG`, `None` for raster data.
#[verifier::external_body]
pub fn svg_of_image(image: &vello_svg::usvg::Image) -> (r: Option<&vello_svg::usvg::Tree>)
    ensures
        r is Some <==> image_svg(*image) is Some,
        r matches Some(t) ==> image_svg(*image) == Some(*t),
{
    match image.kind() {
        vello_svg::usvg::ImageKind::JPEG(_) => None,
        vello_svg::usvg::ImageKind::PNG(_) => None,
        vello_svg::usvg::ImageKind::GIF(_) => None,
        vello_svg::usvg::ImageKind::WEBP(_) => None,
        vello_svg::usvg::ImageKind::SVG(t) => Some(t),
    }
}

/// Calls `usvg::Text::flattened`, the text converted to paths.
#[verifier::external_body]
pub fn flattened_of(text: &vello_svg::usvg::Text) -> (r: &vello_svg::usvg::Group)
    ensures
        *r == text_flattened(*text),
{
    text.flattened()
}

/// Calls `usvg::Path::is_visible`.
#[verifier::external_body]
pub fn is_visible(path: &vello_svg::usvg::Path) -> (r: bool)
    ensures
        r == path_visible(*path),
{
    path.is_visible()
}

/// Calls `usvg::Group::clip_path`.
#[verifier::external_body]
pub fn clip_path_of(group: &vello_svg::usvg::Group) -> (r: Option<&vello_svg::usvg::ClipPath>)
    ensures
        r is Some <==> group_clip_path(*group) is Some,
        r matches Some(c) ==> group_clip_path(*group) == Some(*c),
{
    group.clip_path()
}

/// Calls `usvg::ClipPath::root`.
#[verifier::external_body]
pub fn clip_root(clip: &vello_svg::usvg::ClipPath) -> (r: &vello_svg::usvg::Group)
    ensures
        *r == clip_path_root(*clip),
{
    clip.root()
}

/// Calls `usvg::Group::should_isolate`.
#[verifier::external_body]
pub fn should_isolate(group: &vello_svg::usvg::Group) -> (r: bool)
    ensures
        r == group_isolated(*group),
{
    group.should_isolate()
}

/// Calls `usvg::Group::blend_mode`.
#[verifier::external_body]
pub fn blend_of(group: &vello_svg::usvg::Group) -> (r: vello_svg::usvg::BlendMode)
    ensures
        r == group_blend(*group),
{
    group.blend_mode()
}

/// Calls `usvg::Group::opacity`.
#[verifier::external_body]
pub fn opacity_of(group: &vello_svg::usvg::Group) -> (r: vello_svg::usvg::NormalizedF32)
    ensures
        r == group_opacity(*group),
{
    group.opacity()
}

/// Calls `usvg::Path::fill`.
#[verifier::external_body]
pub fn fill_of(path: &vello_svg::usvg::Path) -> (r: Option<&vello_svg::usvg::Fill>)
    ensures
        r is Some <==> path_fill(*path) is Some,
        r matches Some(f) ==> path_fill(*path) == Some(*f),
{
    path.fill()
}

/// Calls `usvg::Path::stroke`.
#[verifier::external_body]
pub fn stroke_of(path: &vello_svg::usvg::Path) -> (r: Option<&vello_svg::usvg::Stroke>)
    ensures
        r is Some <==> path_stroke(*path) is Some,
        r matches Some(s) ==> path_stroke(*path) == Some(*s),
{
    path.stroke()
}

/// Calls `usvg::Fill::paint`.
#[verifier::external_body]
pub fn paint_of_fill(fill: &vello_svg::usvg::Fill) -> (r: &vello_svg::usvg::Paint)
    ensures
        *r == fill_paint(*fill),
{
    fill.paint()
}

/// Calls `usvg::Fill::opacity`.
#[verifier::external_body]
pub fn opacity_of_fill(fill: &vello_svg::usvg::Fill) -> (r: vello_svg::usvg::NormalizedF32)
    ensures
        r == fill_opacity(*fill),
{
    fill.opacity()
}

/// Calls `usvg::Fill::rule` and tells its variants apart, one arm each.
#[verifier::external_body]
pub fn rule_of_fill(fill: &vello_svg::usvg::Fill) -> (r: FillRuleKind)
    ensures
        r == fill_rule(*fill),
{
    match fill.rule() {
        vello_svg::usvg::FillRule::NonZero => FillRuleKind::NonZero,
        vello_svg::usvg::FillRule::EvenOdd => FillRuleKind::EvenOdd,
    }
}

/// Calls `usvg::Stroke::paint`.
#[verifier::external_body]
pub fn paint_of_stroke(stroke: &vello_svg::usvg::Stroke) -> (r: &vello_svg::usvg::Paint)
    ensures
        *r == stroke_paint(*stroke),
{
    stroke.paint()
}

/// Calls `usvg::Stroke::opacity`.
#[verifier::external_body]
pub fn opacity_of_stroke(stroke: &vello_svg::usvg::Stroke) -> (r: vello_svg::usvg::NormalizedF32)
    ensures
        r == stroke_opacity(*stroke),
{
    stroke.opacity()
}

/// Tells the variants of `usvg::Paint` apart, one arm each.
#[verifier::external_body]
pub fn kind_of_paint(paint: &vello_svg::usvg::Paint) -> (r: PaintKind)
    ensures
        r == paint_kind(*paint),
{
    match paint {
        vello_svg::usvg::Paint::Color(_) => PaintKind::Color,
        vello_svg::usvg::Paint::LinearGradient(_) => PaintKind::LinearGradient,
        vello_svg::usvg::Paint::RadialGradient(_) => PaintKind::RadialGradient,
        vello_svg::usvg::Paint::Pattern(_) => PaintKind::Pattern,
    }
}

/// Calls `vello_svg::util::to_brush`, which converts a paint with an opacity
/// into a brush and its transform; it has none for a pattern and one for a
/// color or a gradient.
#[verifier::external_body]
pub fn to_brush(paint: &vello_svg::usvg::Paint, opacity: vello_svg::usvg::NormalizedF32) -> (r:
    Option<(vello_svg::peniko::Brush, vello_svg::kurbo::Affine)>)
    ensures
        r == converted_brush(*paint, opacity),
        r is Some <==> paint_kind(*paint) != PaintKind::Pattern,
{
    vello_svg::util::to_brush(paint, opacity)
}

/// `outcome` is a possible result of `usvg::Tree::from_str` with
/// `usvg::Options::default()` on `text`. This is a relation, not a function:
/// with default options, an `<image>` element that names a file makes the
/// result depend on what is on disk.
pub uninterp spec fn usvg_parse_outcome(
    text: Seq<char>,
    outcome: Result<vello_svg::usvg::Tree, vello_svg::usvg::Error>,
) -> bool;

/// Calls `usvg::Tree::from_str` with `usvg::Options::default()`. The contract
/// says only that the result is an outcome of parsing the given text; which
/// outcome is left open, since it may depend on files the document names.
#[verifier::external_body]
pub fn parse_tree(text: &str) -> (r: Result<vello_svg::usvg::Tree, vello_svg::usvg::Error>)
    ensures
        usvg_parse_outcome(text@, r),
{
    vello_svg::usvg::Tree::from_str(text, &vello_svg::usvg::Options::default())
}

/// Calls `vello_svg::render_tree`, which draws a tree into a new scene.
#[verifier::external_body]
pub fn render_tree(tree: &vello_svg::usvg::Tree) -> (r: vello_svg::vello::Scene)
    ensures
        r == rendered_scene(*tree),
{
    vello_svg::render_tree(tree)
}

/// Calls `std::str::from_utf8`: it succeeds exactly on valid UTF-8, with the
/// decoded text; on failure, `valid_up_to` is the longest valid prefix.
#[verifier::external_body]
pub fn str_from_utf8(bytes: &[u8]) -> (r: Result<&str, core::str::Utf8Error>)
    ensures
        r is Ok <==> valid_utf8(bytes@),
        r matches Ok(s) ==> s@ == decode_utf8(bytes@),
        r matches Err(e) ==> {
            &&& utf8_valid_up_to(e) < bytes@.len()
            &&& partial_valid_utf8(bytes@, utf8_valid_up_to(e) as int)
            &&& forall|k: int|
                utf8_valid_up_to(e) < k <= bytes@.len() ==> !#[trigger] partial_valid_utf8(
                    bytes@,
                    k,
                )
        },
{
    core::str::from_utf8(bytes)
}

/// Calls `Utf8Error::valid_up_to`.
#[verifier::external_body]
pub fn valid_up_to(err: &core::str::Utf8Error) -> (r: usize)
    ensures
        r == utf8_valid_up_to(*err),
{
    err.valid_up_to()
}

/// Renders a `roxmltree::Error` with its `Display` implementation.
#[verifier::external_body]
pub fn xml_error_message(err: &vello_svg::usvg::roxmltree::Error) -> (r: String)
    ensures
        r@ == xml_error_text(*err),
{
    format!("{}", err)
}

/// The variants of `usvg::Error`, with the XML error kept as it is.
pub enum UsvgErrorVariant {
    NotAnUtf8Str,
    SvgzFeatureNotEnabled,
    MalformedGZip,
    ElementsLimitReached,
    InvalidSize,
    ParsingFailed(vello_svg::usvg::roxmltree::Error),
}

/// The variant of a `usvg::Error`, by name.
pub uninterp spec fn usvg_error_variant(err: vello_svg::usvg::Error) -> UsvgErrorVariant;

/// Tells the variants of `usvg::Error` apart, one arm each.
#[verifier::external_body]
pub fn usvg_error_parts(err: vello_svg::usvg::Error) -> (r: UsvgErrorVariant)
    ensures
        r == usvg_error_variant(err),
{
    match err {
        vello_svg::usvg::Error::NotAnUtf8Str => UsvgErrorVariant::NotAnUtf8Str,
        vello_svg::usvg::Error::SvgzFeatureNotEnabled => UsvgErrorVariant::SvgzFeatureNotEnabled,
        vello_svg::usvg::Error::MalformedGZip => UsvgErrorVariant::MalformedGZip,
        vello_svg::usvg::Error::ElementsLimitReached => UsvgErrorVariant::ElementsLimitReached,
        vello_svg::usvg::Error::InvalidSize => UsvgErrorVariant::InvalidSize,
        vello_svg::usvg::Error::ParsingFailed(e) => UsvgErrorVariant::ParsingFailed(e),
    }
}

} // verus!
