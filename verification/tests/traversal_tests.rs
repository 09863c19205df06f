use figma_extract::document::{Color, Document, Node, NodeBase, NodeData};
use figma_extract::extraction::TextNodeType;
use figma_extract::extractor::TextExtractor;
use figma_extract::filter::FilterCriteria;
use figma_extract::json::JsonNumber;
use figma_extract::extraction::extraction_stats;
use figma_extract::orchestrator::extract_content;
use figma_extract::traversal::{
    traverse_document, traverse_pages, CountingVisitor, RecordingVisitor,
};

fn base(node_type: &str, id: &str, name: &str) -> NodeBase {
    NodeBase {
        node_type: node_type.to_string(),
        id: id.to_string(),
        name: name.to_string(),
        visible: true,
        locked: false,
    }
}

fn text_node(id: &str, characters: &str) -> Node {
    Node {
        base: base("TEXT", id, "Text"),
        data: NodeData::Text {
            characters: characters.to_string(),
            absolute_bounding_box: None,
            style: None,
        },
    }
}

fn frame(id: &str, name: &str, children: Vec<Node>) -> Node {
    Node {
        base: base("FRAME", id, name),
        data: NodeData::Frame {
            absolute_bounding_box: None,
            fills: vec![],
            clips_content: false,
            children,
        },
    }
}

fn canvas(id: &str, name: &str, children: Vec<Node>) -> Node {
    Node {
        base: base("CANVAS", id, name),
        data: NodeData::Canvas {
            background_color: Some(Color {
                r: JsonNumber::PosInt(1),
                g: JsonNumber::PosInt(1),
                b: JsonNumber::PosInt(1),
                a: JsonNumber::PosInt(1),
            }),
            export_settings: vec![],
            children,
        },
    }
}

fn document(name: &str, children: Vec<Node>) -> Document {
    Document {
        id: "0:0".to_string(),
        name: name.to_string(),
        node_type: "DOCUMENT".to_string(),
        scroll_behavior: None,
        children,
    }
}

#[test]
fn test_traverse_empty_document() {
    let doc = document("Test Doc", vec![]);

    let mut visitor = CountingVisitor { count: 0 };
    traverse_document(&doc, &mut visitor);

    assert_eq!(visitor.count, 0);
}

#[test]
fn test_traverse_with_children() {
    let doc = document(
        "Test Doc",
        vec![canvas("0:1", "Page 1", vec![frame("0:2", "Frame 1", vec![])])],
    );

    let mut visitor = CountingVisitor { count: 0 };
    traverse_document(&doc, &mut visitor);

    assert_eq!(visitor.count, 2);
}

#[test]
fn test_scenario_hello_world() {
    // Document("Doc") -> Canvas("Page 1") -> Frame("Frame 1") -> Text("1:1")
    let doc = document(
        "Doc",
        vec![canvas(
            "0:1",
            "Page 1",
            vec![frame("0:2", "Frame 1", vec![text_node("1:1", "Hello, World!")])],
        )],
    );

    let mut recorder = RecordingVisitor { visits: vec![] };
    traverse_document(&doc, &mut recorder);
    let depths: Vec<usize> = recorder.visits.iter().map(|v| v.1).collect();
    assert_eq!(depths, vec![1, 2, 3]);

    let (texts, structure) = extract_content(&doc, &FilterCriteria::new());
    assert_eq!(texts.len(), 1);
    assert_eq!(texts[0].node_id, "1:1");
    assert_eq!(texts[0].text, "Hello, World!");
    assert_eq!(texts[0].path.page_name, "Page 1");
    assert_eq!(texts[0].path.frame_names, vec!["Frame 1"]);
    assert!(texts[0].path.section_name.is_none());
    assert_eq!(texts[0].sequence_number, 0);
    assert_eq!(structure.pages.len(), 1);
}

#[test]
fn test_scenario_whitespace_only() {
    // Whitespace-only text: nothing extracted, but the summary still
    // counts the node.
    let doc = document(
        "Doc",
        vec![canvas(
            "0:1",
            "Page 1",
            vec![frame("0:2", "Frame 1", vec![text_node("1:1", "   ")])],
        )],
    );

    let (texts, structure) = extract_content(&doc, &FilterCriteria::new());
    assert_eq!(texts.len(), 0);
    assert_eq!(structure.pages.len(), 1);
    assert_eq!(structure.pages[0].frame_count, 1);
    assert_eq!(structure.pages[0].text_node_count, 1);
}

#[test]
fn test_scenario_page_scope() {
    // Only page B is walked; nothing from page A shows up.
    let doc = document(
        "Doc",
        vec![
            canvas("id_of_A", "A", vec![text_node("1:1", "from A")]),
            canvas("id_of_B", "B", vec![text_node("2:1", "from B")]),
        ],
    );

    let mut extractor = TextExtractor::new();
    traverse_pages(&doc, &vec!["id_of_B".to_string()], &mut extractor);
    let texts = extractor.into_texts();

    assert_eq!(texts.len(), 1);
    assert_eq!(texts[0].text, "from B");
    assert!(texts.iter().all(|t| t.path.page_name != "A"));
}

#[test]
fn test_scenario_section_named_frame() {
    // A frame named "Section > Details" classifies as the section, not as
    // a frame name.
    let doc = document(
        "Doc",
        vec![canvas(
            "0:1",
            "P",
            vec![frame(
                "0:2",
                "Section > Details",
                vec![text_node("1:1", "inside")],
            )],
        )],
    );

    let (texts, _structure) = extract_content(&doc, &FilterCriteria::new());
    assert_eq!(texts.len(), 1);
    assert_eq!(
        texts[0].path.section_name,
        Some("Section > Details".to_string())
    );
    assert!(texts[0].path.frame_names.is_empty());
}

#[test]
fn test_extract_content_filters_pages() {
    let doc = document(
        "Doc",
        vec![
            canvas("0:1", "Keep", vec![text_node("1:1", "kept")]),
            canvas("0:2", "Drop", vec![text_node("2:1", "dropped")]),
        ],
    );
    let filter = FilterCriteria::new().with_pages(vec!["Keep".to_string()]);
    let (texts, structure) = extract_content(&doc, &filter);
    assert_eq!(structure.pages.len(), 1);
    assert_eq!(structure.pages[0].name, "Keep");
    assert_eq!(texts.len(), 1);
    assert_eq!(texts[0].text, "kept");
}

#[test]
fn test_other_nodes_carry_text() {
    // An unknown-variant node with characters is extracted as text.
    let other = Node {
        base: base("FUTURE_TYPE", "9:9", "Mystery"),
        data: NodeData::Other {
            characters: Some("surprise".to_string()),
            children: vec![],
        },
    };
    let doc = document("Doc", vec![canvas("0:1", "Page 1", vec![other])]);
    let (texts, _) = extract_content(&doc, &FilterCriteria::new());
    assert_eq!(texts.len(), 1);
    assert_eq!(texts[0].node_type, TextNodeType::Text);
    assert_eq!(texts[0].text, "surprise");
}

#[test]
fn test_summary_counts_blank_text_too() {
    // The summarizer counts text nodes whether or not they are blank; the
    // extractor skips the blank ones.
    let doc = document(
        "Doc",
        vec![canvas(
            "0:1",
            "Page 1",
            vec![frame(
                "0:2",
                "Frame 1",
                vec![text_node("1:1", "kept"), text_node("1:2", "  \t ")],
            )],
        )],
    );
    let (texts, structure) = extract_content(&doc, &FilterCriteria::new());
    assert_eq!(texts.len(), 1);
    assert_eq!(structure.pages[0].text_node_count, 2);
}

#[test]
fn test_other_subtree_is_not_descended() {
    // An unknown-tag node keeps its children as data, but the walk treats
    // it as a leaf: nothing under it is visited, extracted or counted.
    let hidden = text_node("1:9", "unreachable");
    let other = Node {
        base: base("FUTURE_TYPE", "9:9", "Mystery"),
        data: NodeData::Other {
            characters: None,
            children: vec![hidden],
        },
    };
    let doc = document("Doc", vec![canvas("0:1", "Page 1", vec![other])]);

    let mut visitor = CountingVisitor { count: 0 };
    traverse_document(&doc, &mut visitor);
    assert_eq!(visitor.count, 2);

    let (texts, structure) = extract_content(&doc, &FilterCriteria::new());
    assert_eq!(texts.len(), 0);
    assert_eq!(structure.pages[0].text_node_count, 0);
}

#[test]
fn test_extraction_stats_totals() {
    let doc = document(
        "Doc",
        vec![
            canvas(
                "0:1",
                "Page 1",
                vec![
                    frame("0:2", "Frame 1", vec![text_node("1:1", "Hello")]),
                    frame("0:3", "Frame 2", vec![]),
                ],
            ),
            canvas("0:4", "Page 2", vec![text_node("2:1", "World!")]),
        ],
    );
    let (texts, structure) = extract_content(&doc, &FilterCriteria::new());
    let stats = extraction_stats(&texts, &structure).unwrap();
    assert_eq!(stats.total_pages, 2);
    assert_eq!(stats.total_frames, 2);
    assert_eq!(stats.total_text_nodes, 2);
    assert_eq!(stats.total_characters, 11);
}

#[test]
fn test_extraction_stats_counts_bytes() {
    // The character total is the summed byte length of the texts.
    let doc = document(
        "Doc",
        vec![canvas("0:1", "Page 1", vec![text_node("1:1", "\u{e9}")])],
    );
    let (texts, structure) = extract_content(&doc, &FilterCriteria::new());
    let stats = extraction_stats(&texts, &structure).unwrap();
    assert_eq!(texts[0].text.len(), 2);
    assert_eq!(stats.total_characters, 2);
}
