use figma_extract::config::SecureString;
use figma_extract::decode::{decode_document, decode_node, JsonKind, PathSeg};
use figma_extract::document::NodeData;
use figma_extract::json::{JsonNumber, JsonValue};

fn s(v: &str) -> JsonValue {
    JsonValue::Str(v.to_string())
}

fn obj(fields: Vec<(&str, JsonValue)>) -> JsonValue {
    JsonValue::Obj(
        fields
            .into_iter()
            .map(|(k, v)| (k.to_string(), v))
            .collect(),
    )
}

#[test]
fn test_decode_unknown_tag_is_other() {
    // An unrecognized type tag decodes into the fallback variant and is
    // never an error.
    let v = obj(vec![
        ("type", s("FUTURE_TYPE")),
        ("id", s("9:9")),
        ("name", s("Mystery")),
        ("characters", s("kept verbatim")),
    ]);
    let node = decode_node(&v).unwrap();
    assert_eq!(node.base.node_type, "FUTURE_TYPE");
    assert_eq!(node.base.id, "9:9");
    match node.data {
        NodeData::Other { characters, children } => {
            assert_eq!(characters, Some("kept verbatim".to_string()));
            assert!(children.is_empty());
        }
        _ => panic!("expected the fallback variant"),
    }
}

#[test]
fn test_decode_defaults() {
    // Missing fields take their declared defaults.
    let v = obj(vec![("type", s("TEXT")), ("id", s("1:1"))]);
    let node = decode_node(&v).unwrap();
    assert_eq!(node.base.name, "");
    assert!(node.base.visible);
    assert!(!node.base.locked);
    match node.data {
        NodeData::Text { characters, style, .. } => {
            assert_eq!(characters, "");
            assert!(style.is_none());
        }
        _ => panic!("expected a text node"),
    }
}

#[test]
fn test_decode_missing_tag_is_unknown() {
    let v = obj(vec![("id", s("1:1"))]);
    let node = decode_node(&v).unwrap();
    assert_eq!(node.base.node_type, "UNKNOWN");
    assert!(matches!(node.data, NodeData::Other { .. }));
}

#[test]
fn test_decode_mismatch_names_field() {
    // A bounding box given as an array fails, naming the field.
    let v = obj(vec![
        ("type", s("FRAME")),
        ("id", s("2:2")),
        ("absoluteBoundingBox", JsonValue::Arr(vec![])),
    ]);
    let err = decode_node(&v).unwrap_err();
    assert_eq!(
        err.path,
        vec![PathSeg::Field("absoluteBoundingBox".to_string())]
    );
    assert_eq!(err.expected, JsonKind::Object);
}

#[test]
fn test_decode_nested_mismatch_path() {
    // The error path walks through children lists by index.
    let bad_child = obj(vec![
        ("type", s("TEXT")),
        ("characters", JsonValue::Num(JsonNumber::PosInt(5))),
    ]);
    let good_child = obj(vec![("type", s("TEXT"))]);
    let v = obj(vec![
        ("type", s("FRAME")),
        ("id", s("2:2")),
        ("children", JsonValue::Arr(vec![good_child, bad_child])),
    ]);
    let err = decode_node(&v).unwrap_err();
    assert_eq!(
        err.path,
        vec![
            PathSeg::Field("children".to_string()),
            PathSeg::Index(1),
            PathSeg::Field("characters".to_string()),
        ]
    );
    assert_eq!(err.expected, JsonKind::Text);
}

#[test]
fn test_decode_non_string_tag_fails() {
    // A present but non-string type field is a mismatch, not an unknown
    // tag.
    let v = obj(vec![
        ("type", JsonValue::Num(JsonNumber::PosInt(7))),
        ("id", s("1:1")),
    ]);
    let err = decode_node(&v).unwrap_err();
    assert_eq!(err.path, vec![PathSeg::Field("type".to_string())]);
    assert_eq!(err.expected, JsonKind::Text);
}

#[test]
fn test_decode_non_object_fails() {
    let err = decode_node(&JsonValue::Bool(true)).unwrap_err();
    assert!(err.path.is_empty());
    assert_eq!(err.expected, JsonKind::Object);
}

#[test]
fn test_decode_font_weight_range() {
    let make = |w: JsonValue| {
        obj(vec![
            ("type", s("TEXT")),
            ("id", s("1:1")),
            ("characters", s("x")),
            ("style", obj(vec![("fontWeight", w)])),
        ])
    };
    assert!(decode_node(&make(JsonValue::Num(JsonNumber::PosInt(400)))).is_ok());
    assert!(decode_node(&make(JsonValue::Num(JsonNumber::PosInt(70000)))).is_err());
    assert!(decode_node(&make(JsonValue::Num(JsonNumber::FloatBits(400)))).is_err());
}

#[test]
fn test_decode_shape_tags_collapse() {
    for tag in ["VECTOR", "ELLIPSE", "LINE", "REGULAR_POLYGON", "STAR", "SHAPE_WITH_TEXT", "CONNECTOR", "WIDGET"] {
        let v = obj(vec![("type", s(tag)), ("id", s("4:4"))]);
        let node = decode_node(&v).unwrap();
        assert_eq!(node.base.node_type, tag);
        assert!(matches!(node.data, NodeData::Shape { .. }));
    }
}

#[test]
fn test_decode_document_tree() {
    let v = obj(vec![
        ("id", s("0:0")),
        ("name", s("Doc")),
        ("type", s("DOCUMENT")),
        (
            "children",
            JsonValue::Arr(vec![obj(vec![
                ("type", s("CANVAS")),
                ("id", s("0:1")),
                ("name", s("Page 1")),
            ])]),
        ),
    ]);
    let doc = decode_document(&v).unwrap();
    assert_eq!(doc.name, "Doc");
    assert_eq!(doc.children.len(), 1);
    assert_eq!(doc.children[0].base.name, "Page 1");
    assert!(matches!(doc.children[0].data, NodeData::Canvas { .. }));
}

#[test]
fn test_decode_null_optional_fields() {
    let v = obj(vec![
        ("type", s("TEXT")),
        ("id", s("1:1")),
        ("absoluteBoundingBox", JsonValue::Null),
        ("style", JsonValue::Null),
    ]);
    let node = decode_node(&v).unwrap();
    match node.data {
        NodeData::Text { absolute_bounding_box, style, .. } => {
            assert!(absolute_bounding_box.is_none());
            assert!(style.is_none());
        }
        _ => panic!("expected a text node"),
    }
}

#[test]
fn test_secure_string_wipe() {
    let mut secret = SecureString::new("figd_1234567890".to_string());
    assert_eq!(secret.as_str(), "figd_1234567890");
    secret.wipe();
    assert_eq!(secret.as_str(), "");
}
