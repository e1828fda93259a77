use bevy_vello::parse::{
    decode_svg_text, extract_named_group_layers, load_svg_from_bytes, load_svg_from_str,
    SvgParseError, VectorLoaderError,
};

const SQUARE: &str = r#"<svg xmlns="http://www.w3.org/2000/svg" width="40" height="20">
  <rect x="0" y="0" width="40" height="20" fill="red"/>
</svg>"#;

const LAYERED: &str = r#"<svg xmlns="http://www.w3.org/2000/svg" width="100" height="100">
  <g id="outer" opacity="0.5">
    <rect x="0" y="0" width="10" height="10" fill="red"/>
    <g id="inner" opacity="0.5">
      <rect x="20" y="20" width="10" height="10" fill="blue"/>
    </g>
  </g>
  <g id="second" opacity="0.5">
    <circle cx="50" cy="50" r="5" fill="green"/>
  </g>
  <rect x="60" y="60" width="10" height="10" fill="black"/>
</svg>"#;

#[test]
fn loads_a_document_from_a_string() {
    let doc = load_svg_from_str(SQUARE).expect("a valid document");
    assert_eq!(doc.tree.size().width(), 40.0);
    assert_eq!(doc.tree.size().height(), 20.0);
    assert!(!doc.scene.encoding().is_empty());
}

#[test]
fn loads_the_same_document_from_bytes() {
    let doc = load_svg_from_bytes(SQUARE.as_bytes()).expect("a valid document");
    assert_eq!(doc.tree.size().width(), 40.0);
    assert_eq!(doc.tree.root().children().len(), 1);
}

#[test]
fn invalid_utf8_reports_the_valid_prefix() {
    let mut bytes = b"<svg".to_vec();
    bytes.push(0xff);
    bytes.extend_from_slice(b"/>");
    match load_svg_from_bytes(&bytes) {
        Err(VectorLoaderError::FromStrUtf8 { valid_up_to }) => assert_eq!(valid_up_to, 4),
        _ => panic!("expected a UTF-8 error"),
    }
}

#[test]
fn truncated_utf8_sequence_is_refused() {
    let bytes = [b'a', 0xe2, 0x82];
    match decode_svg_text(&bytes) {
        Err(VectorLoaderError::FromStrUtf8 { valid_up_to }) => assert_eq!(valid_up_to, 1),
        _ => panic!("expected a UTF-8 error"),
    }
}

#[test]
fn decoding_keeps_multibyte_text() {
    let text = "<svg>€</svg>";
    assert_eq!(decode_svg_text(text.as_bytes()).ok(), Some(text));
}

#[test]
fn malformed_xml_is_a_parse_failure() {
    match load_svg_from_str("<svg") {
        Err(VectorLoaderError::VelloSvg(SvgParseError::ParsingFailed(message))) => {
            assert!(!message.is_empty())
        }
        _ => panic!("expected an XML parse failure"),
    }
}

#[test]
fn zero_size_is_refused() {
    let svg = r#"<svg xmlns="http://www.w3.org/2000/svg" width="0" height="10"/>"#;
    match load_svg_from_str(svg) {
        Err(VectorLoaderError::VelloSvg(SvgParseError::InvalidSize)) => {}
        _ => panic!("expected an invalid size"),
    }
}

#[test]
fn named_groups_become_layers_in_document_order() {
    let doc = load_svg_from_str(LAYERED).expect("a valid document");
    let layers = extract_named_group_layers(&doc.tree);
    let ids: Vec<&str> = layers.iter().map(|g| g.id()).collect();
    assert_eq!(ids, vec!["outer", "inner", "second"]);
}

#[test]
fn a_document_without_named_groups_has_no_layers() {
    let doc = load_svg_from_str(SQUARE).expect("a valid document");
    assert!(extract_named_group_layers(&doc.tree).is_empty());
}
