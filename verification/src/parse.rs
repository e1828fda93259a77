//! Loading SVG documents and picking their named groups as layers.
use crate::svg_tree::{
    as_group, children_of, group_children, group_height, group_id, held_groups_lower, id_of,
    node_group, parse_tree, usvg_parse_outcome, render_tree, rendered_scene, root_of, str_from_utf8, tree_root,
    usvg_error_parts, usvg_error_variant, valid_up_to, xml_error_message, xml_error_text,
    UsvgErrorVariant,
};
use vello_svg::usvg::{Group, Node, Tree};
use vstd::prelude::*;
use vstd::utf8::*;

verus! {

/// Why `usvg` refused a document.
#[derive(Debug, PartialEq, Eq)]
pub enum SvgParseError {
    NotAnUtf8Str,
    SvgzFeatureNotEnabled,
    MalformedGZip,
    ElementsLimitReached,
    InvalidSize,
    /// The XML itself is malformed; the message is the XML parser's.
    ParsingFailed(String),
}

/// Why a document could not be loaded.
#[derive(Debug, PartialEq, Eq)]
pub enum VectorLoaderError {
    /// The bytes are not UTF-8; the longest valid prefix has this many bytes.
    FromStrUtf8 { valid_up_to: usize },
    /// The text is not an SVG document `usvg` accepts.
    VelloSvg(SvgParseError),
}

/// A parsed SVG document together with its rendered scene.
pub struct SvgDocument {
    pub tree: Tree,
    pub scene: std::sync::Arc<vello_svg::vello::Scene>,
}

/// `e` is the library's report of the `usvg` error `err`.
pub open spec fn reports_svg_error(e: SvgParseError, err: vello_svg::usvg::Error) -> bool {
    match usvg_error_variant(err) {
        UsvgErrorVariant::NotAnUtf8Str => e == SvgParseError::NotAnUtf8Str,
        UsvgErrorVariant::SvgzFeatureNotEnabled => e == SvgParseError::SvgzFeatureNotEnabled,
        UsvgErrorVariant::MalformedGZip => e == SvgParseError::MalformedGZip,
        UsvgErrorVariant::ElementsLimitReached => e == SvgParseError::ElementsLimitReached,
        UsvgErrorVariant::InvalidSize => e == SvgParseError::InvalidSize,
        UsvgErrorVariant::ParsingFailed(x) => e matches SvgParseError::ParsingFailed(m) && m@
            == xml_error_text(x),
    }
}

/// Maps a `usvg` error to the library's own.
pub fn svg_parse_error(err: vello_svg::usvg::Error) -> (r: SvgParseError)
    ensures
        reports_svg_error(r, err),
{
    match usvg_error_parts(err) {
        UsvgErrorVariant::NotAnUtf8Str => SvgParseError::NotAnUtf8Str,
        UsvgErrorVariant::SvgzFeatureNotEnabled => SvgParseError::SvgzFeatureNotEnabled,
        UsvgErrorVariant::MalformedGZip => SvgParseError::MalformedGZip,
        UsvgErrorVariant::ElementsLimitReached => SvgParseError::ElementsLimitReached,
        UsvgErrorVariant::InvalidSize => SvgParseError::InvalidSize,
        UsvgErrorVariant::ParsingFailed(x) => SvgParseError::ParsingFailed(xml_error_message(&x)),
    }
}

/// What loading makes of the outcome of parsing: the error reported as the
/// library's own, or the tree with the scene `vello_svg` renders from it.
pub open spec fn document_from_parse_spec(
    parsed: Result<Tree, vello_svg::usvg::Error>,
    r: Result<SvgDocument, VectorLoaderError>,
) -> bool {
    match parsed {
        Ok(tree) => r matches Ok(doc) && doc.tree == tree && *doc.scene == rendered_scene(tree),
        Err(err) => r matches Err(VectorLoaderError::VelloSvg(e)) && reports_svg_error(e, err),
    }
}

/// Turns the outcome of parsing into a loaded document: renders the tree's
/// scene, or reports why the text was refused.
pub fn document_from_parse(parsed: Result<Tree, vello_svg::usvg::Error>) -> (r: Result<
    SvgDocument,
    VectorLoaderError,
>)
    ensures
        document_from_parse_spec(parsed, r),
{
    match parsed {
        Ok(tree) => {
            let scene = render_tree(&tree);
            Ok(SvgDocument { tree, scene: std::sync::Arc::new(scene) })
        },
        Err(err) => Err(VectorLoaderError::VelloSvg(svg_parse_error(err))),
    }
}

/// The text of an SVG document given as bytes: the bytes decoded as UTF-8,
/// or `FromStrUtf8` with the length of their longest valid prefix.
pub fn decode_svg_text(bytes: &[u8]) -> (r: Result<&str, VectorLoaderError>)
    ensures
        r is Ok <==> valid_utf8(bytes@),
        r matches Ok(text) ==> text@ == decode_utf8(bytes@),
        r matches Err(e) ==> e matches VectorLoaderError::FromStrUtf8 { valid_up_to } && {
            &&& valid_up_to < bytes@.len()
            &&& partial_valid_utf8(bytes@, valid_up_to as int)
            &&& forall|k: int|
                valid_up_to < k <= bytes@.len() ==> !#[trigger] partial_valid_utf8(bytes@, k)
        },
{
    match str_from_utf8(bytes) {
        Ok(text) => Ok(text),
        Err(e) => Err(VectorLoaderError::FromStrUtf8 { valid_up_to: valid_up_to(&e) }),
    }
}

/// Deserializes an SVG document from bytes: decodes them as UTF-8, parses
/// the text with `usvg`, and renders the tree.
///
/// Fails with `FromStrUtf8` exactly when the bytes are not UTF-8; otherwise
/// `usvg`'s verdict on the text decides between a document and `VelloSvg`.
pub fn load_svg_from_bytes(bytes: &[u8]) -> (r: Result<SvgDocument, VectorLoaderError>)
    ensures
        r matches Err(VectorLoaderError::FromStrUtf8 { valid_up_to }) <==> !valid_utf8(bytes@),
        r matches Err(VectorLoaderError::FromStrUtf8 { valid_up_to }) ==> {
            &&& valid_up_to < bytes@.len()
            &&& partial_valid_utf8(bytes@, valid_up_to as int)
            &&& forall|k: int|
                valid_up_to < k <= bytes@.len() ==> !#[trigger] partial_valid_utf8(bytes@, k)
        },
        valid_utf8(bytes@) ==> exists|parsed: Result<Tree, vello_svg::usvg::Error>|
            usvg_parse_outcome(decode_utf8(bytes@), parsed) && document_from_parse_spec(parsed, r),
{
    let svg_str = match decode_svg_text(bytes) {
        Ok(text) => text,
        Err(e) => {
            return Err(e);
        },
    };
    let parsed = parse_tree(svg_str);
    document_from_parse(parsed)
}

/// Deserializes an SVG document from a string slice.
///
/// A string slice is always UTF-8, so this never fails with `FromStrUtf8`.
pub fn load_svg_from_str(svg_str: &str) -> (r: Result<SvgDocument, VectorLoaderError>)
    ensures
        !(r matches Err(VectorLoaderError::FromStrUtf8 { .. })),
        exists|parsed: Result<Tree, vello_svg::usvg::Error>|
            usvg_parse_outcome(svg_str@, parsed) && document_from_parse_spec(parsed, r),
{
    let bytes = svg_str.as_bytes();
    proof {
        encode_utf8_valid_utf8(svg_str@);
        encode_utf8_decode_utf8(svg_str@);
    }
    load_svg_from_bytes(bytes)
}

/// The groups of the subtree under `group` (not `group` itself) that carry
/// a non-empty id, in document order: each group comes before the groups
/// nested in it, and those before its later siblings.
pub open spec fn named_groups(group: Group) -> Seq<Group>
    decreases group_height(group), 1nat, 0nat,
{
    named_groups_among(group, group_children(group).len())
}

/// The named groups under the first `n` children of `group`.
pub open spec fn named_groups_among(group: Group, n: nat) -> Seq<Group>
    decreases group_height(group), 0nat, n,
{
    if n == 0 {
        Seq::empty()
    } else {
        let before = named_groups_among(group, (n - 1) as nat);
        match node_group(group_children(group)[n - 1]) {
            Some(child) => if group_height(child) < group_height(group) {
                before + (if group_id(child).len() > 0 {
                    seq![child]
                } else {
                    Seq::empty()
                }) + named_groups(child)
            } else {
                before
            },
            None => before,
        }
    }
}

/// Appends to `layers`, in document order, every group below `group` whose id
/// is not empty.
pub fn collect_named_group_layers<'a>(group: &'a Group, layers: &mut Vec<&'a Group>)
    ensures
        final(layers)@.map_values(|g: &Group| *g) == old(layers)@.map_values(|g: &Group| *g)
            + named_groups(*group),
    decreases group_height(*group),
{
    let children = children_of(group);
    let ghost start = layers@.map_values(|g: &Group| *g);
    let mut i: usize = 0;
    while i < children.len()
        invariant
            i <= children@.len(),
            children@ == group_children(*group),
            forall|j: int| 0 <= j < children@.len() ==> #[trigger] held_groups_lower(
                children@[j],
                *group,
            ),
            layers@.map_values(|g: &Group| *g) == start + named_groups_among(*group, i as nat),
        decreases children@.len() - i,
    {
        let node: &Node = &children[i];
        assert(held_groups_lower(children@[i as int], *group));
        if let Some(child) = as_group(node) {
            let ghost before = layers@.map_values(|g: &Group| *g);
            if !id_of(child).is_empty() {
                layers.push(child);
                assert(layers@.map_values(|g: &Group| *g) =~= before.push(*child));
            }
            let ghost mid = layers@.map_values(|g: &Group| *g);
            collect_named_group_layers(child, layers);
            assert(layers@.map_values(|g: &Group| *g) =~= start + named_groups_among(
                *group,
                (i + 1) as nat,
            ));
        }
        i = i + 1;
    }
    assert(named_groups(*group) == named_groups_among(*group, children@.len() as nat));
}

/// The groups of a document that become layers: every group with a
/// non-empty id, in document order.
pub fn extract_named_group_layers(tree: &Tree) -> (r: Vec<&Group>)
    ensures
        r@.map_values(|g: &Group| *g) == named_groups(tree_root(*tree)),
{
    let mut layers: Vec<&Group> = Vec::new();
    collect_named_group_layers(root_of(tree), &mut layers);
    assert(layers@.map_values(|g: &Group| *g) =~= named_groups(tree_root(*tree)));
    layers
}

/// Every layer a document yields comes from a group with a non-empty id.
pub proof fn lemma_layers_have_ids(group: Group)
    ensures
        forall|i: int|
            0 <= i < named_groups(group).len() ==> group_id(#[trigger] named_groups(group)[i]).len()
                > 0,
    decreases group_height(group), 1nat, 0nat,
{
    lemma_layers_among_have_ids(group, group_children(group).len());
    assert(named_groups(group) == named_groups_among(group, group_children(group).len()));
}

/// Every group picked among the first `n` children of `group` has a
/// non-empty id.
pub proof fn lemma_layers_among_have_ids(group: Group, n: nat)
    ensures
        forall|i: int|
            0 <= i < named_groups_among(group, n).len() ==> group_id(
                #[trigger] named_groups_among(group, n)[i],
            ).len() > 0,
    decreases group_height(group), 0nat, n,
{
    if n > 0 {
        lemma_layers_among_have_ids(group, (n - 1) as nat);
        match node_group(group_children(group)[n - 1]) {
            Some(child) => {
                if group_height(child) < group_height(group) {
                    lemma_layers_have_ids(child);
                    let before = named_groups_among(group, (n - 1) as nat);
                    let own: Seq<Group> = if group_id(child).len() > 0 {
                        seq![child]
                    } else {
                        Seq::empty()
                    };
                    let all = named_groups_among(group, n);
                    assert(all == before + own + named_groups(child));
                    assert forall|i: int| 0 <= i < all.len() implies group_id(
                        #[trigger] all[i],
                    ).len() > 0 by {
                        if i < before.len() {
                            assert(all[i] == before[i]);
                        } else if i < before.len() + own.len() {
                            assert(all[i] == own[i - before.len()]);
                        } else {
                            assert(all[i] == named_groups(child)[i - before.len() - own.len()]);
                        }
                    }
                }
            },
            None => {},
        }
    }
}

proof fn lemma_among_grows(group: Group, m: nat, n: nat)
    requires
        m <= n,
    ensures
        forall|x: Group|
            named_groups_among(group, m).contains(x) ==> #[trigger] named_groups_among(
                group,
                n,
            ).contains(x),
    decreases n - m,
{
    if m < n {
        lemma_among_grows(group, m, (n - 1) as nat);
        let before = named_groups_among(group, (n - 1) as nat);
        let all = named_groups_among(group, n);
        assert forall|x: Group| before.contains(x) implies all.contains(x) by {
            let k = choose|k: int| 0 <= k < before.len() && before[k] == x;
            match node_group(group_children(group)[n - 1]) {
                Some(child) => if group_height(child) < group_height(group) {
                    let own: Seq<Group> = if group_id(child).len() > 0 {
                        seq![child]
                    } else {
                        Seq::empty()
                    };
                    assert(all == before + own + named_groups(child));
                    assert(all[k] == x);
                } else {
                },
                None => {},
            }
        }
    }
}

/// Every group below a document's root that has a non-empty id is a layer,
/// however its ancestors are named: a named child group of `group` is among
/// the layers under `group`, and so is every layer under any child group,
/// named or not.
pub proof fn lemma_layers_reach_every_named_group(group: Group, i: int)
    requires
        0 <= i < group_children(group).len(),
        node_group(group_children(group)[i]) is Some,
        group_height(node_group(group_children(group)[i])->0) < group_height(group),
    ensures
        ({
            let child = node_group(group_children(group)[i])->0;
            &&& group_id(child).len() > 0 ==> named_groups(group).contains(child)
            &&& forall|x: Group|
                named_groups(child).contains(x) ==> #[trigger] named_groups(group).contains(x)
        }),
{
    let child = node_group(group_children(group)[i])->0;
    let len = group_children(group).len();
    let before = named_groups_among(group, i as nat);
    let upto = named_groups_among(group, (i + 1) as nat);
    let own: Seq<Group> = if group_id(child).len() > 0 {
        seq![child]
    } else {
        Seq::empty()
    };
    assert(upto == before + own + named_groups(child));
    lemma_among_grows(group, (i + 1) as nat, len);
    assert(named_groups(group) == named_groups_among(group, len));
    if group_id(child).len() > 0 {
        assert(upto[before.len() as int] == child);
        assert(upto.contains(child));
    }
    assert forall|x: Group| named_groups(child).contains(x) implies #[trigger] named_groups(
        group,
    ).contains(x) by {
        let k = choose|k: int| 0 <= k < named_groups(child).len() && named_groups(child)[k] == x;
        assert(upto[before.len() + own.len() + k] == x);
        assert(upto.contains(x));
    }
}

} // verus!
