use figma_extract::document::{Node, NodeBase, NodeData, TypeStyle};
use figma_extract::extraction::{HierarchyPath, TextNodeType};
use figma_extract::extractor::{build_hierarchy_path, is_section_name, TextExtractor};
use figma_extract::json::JsonNumber;
use figma_extract::traversal::NodeVisitor;

fn create_text_node(id: &str, text: &str) -> Node {
    Node {
        base: NodeBase {
            node_type: "TEXT".to_string(),
            id: id.to_string(),
            name: "Text".to_string(),
            visible: true,
            locked: false,
        },
        data: NodeData::Text {
            characters: text.to_string(),
            absolute_bounding_box: None,
            style: Some(TypeStyle {
                font_family: Some("Inter".to_string()),
                font_size: Some(JsonNumber::PosInt(16)),
                font_weight: Some(400),
            }),
        },
    }
}

#[test]
fn test_text_extraction() {
    let mut extractor = TextExtractor::new();
    let path = vec![
        "Document".to_string(),
        "Page 1".to_string(),
        "Frame 1".to_string(),
    ];

    let node = create_text_node("1:1", "Hello, World!");
    extractor.visit_node(&node, 2, &path);

    let texts = extractor.into_texts();
    assert_eq!(texts.len(), 1);
    assert_eq!(texts[0].node_type, TextNodeType::Text);
    assert_eq!(texts[0].text, "Hello, World!");
    assert_eq!(texts[0].path.page_name, "Page 1");
}

#[test]
fn test_skip_empty_text() {
    let mut extractor = TextExtractor::new();
    let path = vec!["Document".to_string()];

    let node = create_text_node("1:1", "   ");
    extractor.visit_node(&node, 1, &path);

    assert_eq!(extractor.count(), 0);
}

#[test]
fn test_sequence_numbers() {
    let mut extractor = TextExtractor::new();
    let path = vec!["Document".to_string()];

    extractor.visit_node(&create_text_node("1:1", "First"), 1, &path);
    extractor.visit_node(&create_text_node("1:2", "Second"), 1, &path);
    extractor.visit_node(&create_text_node("1:3", "Third"), 1, &path);

    let texts = extractor.into_texts();
    assert_eq!(texts[0].sequence_number, 0);
    assert_eq!(texts[1].sequence_number, 1);
    assert_eq!(texts[2].sequence_number, 2);
}

#[test]
fn test_sticky_extraction() {
    let mut extractor = TextExtractor::new();
    let path = vec![
        "Document".to_string(),
        "Page 1".to_string(),
        "Section > Features".to_string(),
        "Frame 1".to_string(),
    ];

    let sticky = Node {
        base: NodeBase {
            node_type: "STICKY".to_string(),
            id: "2:1".to_string(),
            name: "Note".to_string(),
            visible: true,
            locked: false,
        },
        data: NodeData::Sticky {
            characters: "TODO: Review this implementation".to_string(),
            absolute_bounding_box: None,
            fills: vec![],
        },
    };

    extractor.visit_node(&sticky, 2, &path);

    let texts = extractor.into_texts();
    assert_eq!(texts.len(), 1);
    assert_eq!(texts[0].node_type, TextNodeType::Sticky);
    assert_eq!(texts[0].text, "TODO: Review this implementation");
    assert_eq!(
        texts[0].path.section_name,
        Some("Section > Features".to_string())
    );
    assert!(texts[0].style.is_none());
}

#[test]
fn test_section_heuristic() {
    assert!(is_section_name("SECTION HEADER"));
    assert!(is_section_name("My Section"));
    assert!(is_section_name("Hero > Details"));
    assert!(is_section_name("> Inset"));
    assert!(!is_section_name("Plain Frame"));
    assert!(!is_section_name(">NoSpace"));
}

#[test]
fn test_extracted_style_defaults() {
    let mut extractor = TextExtractor::new();
    let path = vec!["Doc".to_string(), "Page".to_string()];
    let node = Node {
        base: NodeBase {
            node_type: "TEXT".to_string(),
            id: "3:3".to_string(),
            name: "Text".to_string(),
            visible: true,
            locked: false,
        },
        data: NodeData::Text {
            characters: "styled".to_string(),
            absolute_bounding_box: None,
            style: Some(TypeStyle {
                font_family: None,
                font_size: None,
                font_weight: None,
            }),
        },
    };
    extractor.visit_node(&node, 1, &path);
    let texts = extractor.into_texts();
    let style = texts[0].style.as_ref().unwrap();
    assert_eq!(style.font_family, "Unknown");
    assert_eq!(style.font_size, JsonNumber::PosInt(16));
    assert_eq!(style.font_weight, 400);
}

#[test]
fn test_hierarchy_path_to_string() {
    let path = HierarchyPath::new(
        "Design System".to_string(),
        vec!["Components".to_string(), "Buttons".to_string()],
    );

    assert_eq!(
        path.to_path_string(),
        "Design System > Components > Buttons"
    );
}

#[test]
fn test_hierarchy_path_with_groups() {
    let path = HierarchyPath::new("Page1".to_string(), vec!["Frame1".to_string()])
        .with_groups(vec!["Group1".to_string(), "Group2".to_string()]);

    assert_eq!(path.to_path_string(), "Page1 > Frame1 > Group1 > Group2");
}

#[test]
fn test_hierarchy_path_with_section() {
    let path = HierarchyPath::new("P".to_string(), vec!["F".to_string()])
        .with_section("S".to_string());
    assert_eq!(path.to_path_string(), "P > S > F");
}

#[test]
fn test_build_hierarchy_path_short() {
    let built = build_hierarchy_path(&vec!["Doc".to_string()]);
    assert_eq!(built.page_name, "Unknown");
    assert!(built.section_name.is_none());
    assert!(built.frame_names.is_empty());
}
