//! The document-tree model: shared node attributes plus a closed sum type
//! of variant payloads.
//!
//! Numeric attributes (bounding boxes, colors, stroke weights, opacities)
//! are carried as the JSON numbers they were decoded from; the core never
//! computes with them.

use vstd::prelude::*;
use crate::json::JsonNumber;

verus! {

/// Attributes every node shares.  `node_type` keeps the raw type tag from
/// the wire, `"UNKNOWN"` when the input had none.
#[derive(Debug, Clone)]
pub struct NodeBase {
    pub node_type: String,
    pub id: String,
    pub name: String,
    pub visible: bool,
    pub locked: bool,
}

/// An axis-aligned box, as four JSON numbers.
#[derive(Debug, Clone, Copy, PartialEq, Eq, Structural)]
pub struct BoundingBox {
    pub x: JsonNumber,
    pub y: JsonNumber,
    pub width: JsonNumber,
    pub height: JsonNumber,
}

/// An RGBA color, as four JSON numbers.
#[derive(Debug, Clone, Copy, PartialEq, Eq, Structural)]
pub struct Color {
    pub r: JsonNumber,
    pub g: JsonNumber,
    pub b: JsonNumber,
    pub a: JsonNumber,
}

/// A fill or stroke.
#[derive(Debug, Clone)]
pub struct Paint {
    pub paint_type: String,
    pub color: Option<Color>,
    pub opacity: JsonNumber,
    pub blend_mode: String,
}

/// Text style metadata attached to a text node.
#[derive(Debug, Clone)]
pub struct TypeStyle {
    pub font_family: Option<String>,
    pub font_size: Option<JsonNumber>,
    pub font_weight: Option<u16>,
}

/// Scale constraint of an export setting.
#[derive(Debug, Clone, Copy, PartialEq, Eq, Structural)]
pub struct ExportConstraint {
    pub scale: JsonNumber,
}

/// One export setting of a canvas.
#[derive(Debug, Clone)]
pub struct ExportSetting {
    pub suffix: String,
    pub format: String,
    pub constraint: ExportConstraint,
}

/// Variant-specific payload of a node.  The `Shape` variant stands for all
/// the leaf shape tags (`VECTOR`, `ELLIPSE`, `LINE`, `REGULAR_POLYGON`,
/// `STAR`, `SHAPE_WITH_TEXT`, `CONNECTOR`, `WIDGET`); the exact tag stays
/// available in `NodeBase::node_type`.  `Other` is the fallback for any
/// unrecognized tag and preserves characters and children verbatim.
#[derive(Debug)]
pub enum NodeData {
    Canvas {
        background_color: Option<Color>,
        export_settings: Vec<ExportSetting>,
        children: Vec<Node>,
    },
    Section {
        absolute_bounding_box: Option<BoundingBox>,
        absolute_render_bounds: Option<BoundingBox>,
        fills: Vec<Paint>,
        strokes: Vec<Paint>,
        stroke_weight: JsonNumber,
        stroke_align: String,
        section_contents_hidden: bool,
        children: Vec<Node>,
    },
    Frame {
        absolute_bounding_box: Option<BoundingBox>,
        fills: Vec<Paint>,
        clips_content: bool,
        children: Vec<Node>,
    },
    Group {
        absolute_bounding_box: Option<BoundingBox>,
        children: Vec<Node>,
    },
    Text {
        characters: String,
        absolute_bounding_box: Option<BoundingBox>,
        style: Option<TypeStyle>,
    },
    Rectangle {
        absolute_bounding_box: Option<BoundingBox>,
        corner_radius: JsonNumber,
        fills: Vec<Paint>,
    },
    Shape {
        absolute_bounding_box: Option<BoundingBox>,
        fills: Vec<Paint>,
    },
    Component {
        component_key: Option<String>,
        absolute_bounding_box: Option<BoundingBox>,
        children: Vec<Node>,
    },
    ComponentSet {
        component_key: Option<String>,
        absolute_bounding_box: Option<BoundingBox>,
        children: Vec<Node>,
    },
    Instance {
        component_id: String,
        absolute_bounding_box: Option<BoundingBox>,
        children: Vec<Node>,
    },
    Sticky {
        characters: String,
        absolute_bounding_box: Option<BoundingBox>,
        fills: Vec<Paint>,
    },
    BooleanOperation {
        absolute_bounding_box: Option<BoundingBox>,
        fills: Vec<Paint>,
        children: Vec<Node>,
    },
    Table {
        absolute_bounding_box: Option<BoundingBox>,
        fills: Vec<Paint>,
        children: Vec<Node>,
    },
    TableCell {
        absolute_bounding_box: Option<BoundingBox>,
        fills: Vec<Paint>,
        children: Vec<Node>,
    },
    Other {
        characters: Option<String>,
        children: Vec<Node>,
    },
}

/// One element of the document tree.
#[derive(Debug)]
pub struct Node {
    pub base: NodeBase,
    pub data: NodeData,
}

/// The document root; its direct children are expected to be canvases
/// (pages), though nothing enforces that.
#[derive(Debug)]
pub struct Document {
    pub id: String,
    pub name: String,
    pub node_type: String,
    pub scroll_behavior: Option<String>,
    pub children: Vec<Node>,
}

/// The coarse node classification exposed to consumers; shape-like and
/// unlisted variants collapse to `Vector`.
#[derive(Debug, Clone, Copy, PartialEq, Eq, Structural)]
pub enum NodeType {
    Document,
    Canvas,
    Section,
    Frame,
    Group,
    Text,
    Rectangle,
    Vector,
    Component,
    Instance,
}

/// Which editor produced the file.
#[derive(Debug, Clone, Copy, PartialEq, Eq, Structural)]
pub enum EditorType {
    Figma,
    Figjam,
}

/// A published component, as listed in the file-level component map.
#[derive(Debug, Clone)]
pub struct Component {
    pub key: String,
    pub name: String,
    pub description: String,
}

/// A published component set.
#[derive(Debug, Clone)]
pub struct ComponentSet {
    pub key: String,
    pub name: String,
    pub description: String,
}

/// A published style.
#[derive(Debug, Clone)]
pub struct Style {
    pub key: String,
    pub name: String,
    pub description: String,
    pub style_type: String,
}

impl Node {
    /// The ordered children of a container variant; `None` for leaves.
    /// An `Other` node is a leaf here: the children it preserves are
    /// data, and the traversal never descends into them.
    pub open spec fn spec_children(&self) -> Option<Seq<Node>> {
        match self.data {
            NodeData::Canvas { children, .. } => Some(children@),
            NodeData::Section { children, .. } => Some(children@),
            NodeData::Frame { children, .. } => Some(children@),
            NodeData::Group { children, .. } => Some(children@),
            NodeData::Component { children, .. } => Some(children@),
            NodeData::ComponentSet { children, .. } => Some(children@),
            NodeData::Instance { children, .. } => Some(children@),
            NodeData::BooleanOperation { children, .. } => Some(children@),
            NodeData::Table { children, .. } => Some(children@),
            NodeData::TableCell { children, .. } => Some(children@),
            _ => None,
        }
    }

    pub open spec fn spec_node_type(&self) -> NodeType {
        match self.data {
            NodeData::Canvas { .. } => NodeType::Canvas,
            NodeData::Section { .. } => NodeType::Section,
            NodeData::Frame { .. } => NodeType::Frame,
            NodeData::Group { .. } => NodeType::Group,
            NodeData::Text { .. } => NodeType::Text,
            NodeData::Rectangle { .. } => NodeType::Rectangle,
            NodeData::Component { .. } => NodeType::Component,
            NodeData::Instance { .. } => NodeType::Instance,
            _ => NodeType::Vector,
        }
    }

    pub fn id(&self) -> (r: &str)
        ensures
            r@ == self.base.id@,
    {
        self.base.id.as_str()
    }

    pub fn name(&self) -> (r: &str)
        ensures
            r@ == self.base.name@,
    {
        self.base.name.as_str()
    }

    pub fn is_visible(&self) -> (r: bool)
        ensures
            r == self.base.visible,
    {
        self.base.visible
    }

    pub fn node_type(&self) -> (r: NodeType)
        ensures
            r == self.spec_node_type(),
    {
        match &self.data {
            NodeData::Canvas { .. } => NodeType::Canvas,
            NodeData::Section { .. } => NodeType::Section,
            NodeData::Frame { .. } => NodeType::Frame,
            NodeData::Group { .. } => NodeType::Group,
            NodeData::Text { .. } => NodeType::Text,
            NodeData::Rectangle { .. } => NodeType::Rectangle,
            NodeData::Component { .. } => NodeType::Component,
            NodeData::Instance { .. } => NodeType::Instance,
            _ => NodeType::Vector,
        }
    }

    /// Borrow the child list of a container variant.
    pub fn children(&self) -> (r: Option<&Vec<Node>>)
        ensures
            match r {
                Some(c) => self.spec_children() == Some(c@),
                None => self.spec_children() is None,
            },
    {
        match &self.data {
            NodeData::Canvas { children, .. } => Some(children),
            NodeData::Section { children, .. } => Some(children),
            NodeData::Frame { children, .. } => Some(children),
            NodeData::Group { children, .. } => Some(children),
            NodeData::Component { children, .. } => Some(children),
            NodeData::ComponentSet { children, .. } => Some(children),
            NodeData::Instance { children, .. } => Some(children),
            NodeData::BooleanOperation { children, .. } => Some(children),
            NodeData::Table { children, .. } => Some(children),
            NodeData::TableCell { children, .. } => Some(children),
            _ => None,
        }
    }
}

} // verus!
