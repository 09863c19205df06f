//! The node decoder: generic JSON values to typed nodes.
//!
//! Every field has a declared default, so a partially-populated object
//! never fails to decode; a field that is present but of the wrong shape
//! fails with an error naming the offending field path.  Unknown type
//! tags are not errors: they decode into the `Other` variant, preserving
//! characters and children.
//!
//! What decoding means is written down once, as the relation
//! [`decodes_to`]; the executable decoder returns a node satisfying the
//! relation exactly when one exists.

use vstd::prelude::*;
use crate::document::{
    BoundingBox, Color, Document, ExportConstraint, ExportSetting, Node, NodeBase, NodeData, Paint,
    TypeStyle,
};
use crate::json::{obj_get, spec_obj_get, str_eq, JsonNumber, JsonValue};

verus! {

broadcast use vstd::string::group_string_axioms;

/// One step of a field path: an object key or an array index.
#[derive(Debug, Clone, PartialEq)]
pub enum PathSeg {
    Field(String),
    Index(usize),
}

/// The shape a mismatched field was expected to have.
#[derive(Debug, Clone, Copy, PartialEq, Eq, Structural)]
pub enum JsonKind {
    Object,
    Array,
    Text,
    Flag,
    Number,
    Uint16,
}

/// A decode failure: the path of the field that was present but of the
/// wrong shape, and the shape that was expected there.
#[derive(Debug)]
pub struct DecodeError {
    pub path: Vec<PathSeg>,
    pub expected: JsonKind,
}

/// Whether a JSON value has the given shape.
pub open spec fn kind_matches(v: JsonValue, k: JsonKind) -> bool {
    match k {
        JsonKind::Object => v is Obj,
        JsonKind::Array => v is Arr,
        JsonKind::Text => v is Str,
        JsonKind::Flag => v is Bool,
        JsonKind::Number => v is Num,
        JsonKind::Uint16 => v matches JsonValue::Num(JsonNumber::PosInt(n)) && n <= u16::MAX,
    }
}

/// Follow a field path down a JSON value.
pub open spec fn locate(v: JsonValue, path: Seq<PathSeg>) -> Option<JsonValue>
    decreases path.len(),
{
    if path.len() == 0 {
        Some(v)
    } else {
        match path[0] {
            PathSeg::Field(k) => match v {
                JsonValue::Obj(flds) => match spec_obj_get(flds@, k@) {
                    Some(x) => locate(x, path.skip(1)),
                    None => None,
                },
                _ => None,
            },
            PathSeg::Index(i) => match v {
                JsonValue::Arr(items) => if i < items@.len() {
                    locate(items@[i as int], path.skip(1))
                } else {
                    None
                },
                _ => None,
            },
        }
    }
}

/// A decode error is evidence: its path leads to a value that does not
/// have the expected shape.
pub open spec fn error_locates_mismatch(v: JsonValue, e: DecodeError) -> bool {
    &&& locate(v, e.path@) matches Some(bad)
    &&& !kind_matches(locate(v, e.path@).unwrap(), e.expected)
}

// ---------------------------------------------------------------------------
// Field-extraction rules.  Each returns `None` on a type mismatch and
// otherwise the field's value, with the declared default for an absent
// field.

/// A string field: absent means the default, a present value must be a
/// string.
pub open spec fn str_field(
    fields: Seq<(String, JsonValue)>,
    key: Seq<char>,
    dflt: Seq<char>,
) -> Option<Seq<char>> {
    match spec_obj_get(fields, key) {
        None => Some(dflt),
        Some(JsonValue::Str(s)) => Some(s@),
        Some(_) => None,
    }
}

/// An optional string field: absent or null means none.
pub open spec fn opt_str_field(fields: Seq<(String, JsonValue)>, key: Seq<char>) -> Option<
    Option<Seq<char>>,
> {
    match spec_obj_get(fields, key) {
        None => Some(None),
        Some(JsonValue::Null) => Some(None),
        Some(JsonValue::Str(s)) => Some(Some(s@)),
        Some(_) => None,
    }
}

/// A boolean field with a default.
pub open spec fn bool_field(fields: Seq<(String, JsonValue)>, key: Seq<char>, dflt: bool) -> Option<
    bool,
> {
    match spec_obj_get(fields, key) {
        None => Some(dflt),
        Some(JsonValue::Bool(b)) => Some(b),
        Some(_) => None,
    }
}

/// A numeric field with a default.
pub open spec fn num_field(
    fields: Seq<(String, JsonValue)>,
    key: Seq<char>,
    dflt: JsonNumber,
) -> Option<JsonNumber> {
    match spec_obj_get(fields, key) {
        None => Some(dflt),
        Some(JsonValue::Num(n)) => Some(n),
        Some(_) => None,
    }
}

/// An optional numeric field: absent or null means none.
pub open spec fn opt_num_field(fields: Seq<(String, JsonValue)>, key: Seq<char>) -> Option<
    Option<JsonNumber>,
> {
    match spec_obj_get(fields, key) {
        None => Some(None),
        Some(JsonValue::Null) => Some(None),
        Some(JsonValue::Num(n)) => Some(Some(n)),
        Some(_) => None,
    }
}

/// An optional unsigned 16-bit field: the number must be a non-negative
/// integer that fits.
pub open spec fn opt_u16_field(fields: Seq<(String, JsonValue)>, key: Seq<char>) -> Option<
    Option<u16>,
> {
    match spec_obj_get(fields, key) {
        None => Some(None),
        Some(JsonValue::Null) => Some(None),
        Some(JsonValue::Num(JsonNumber::PosInt(n))) => if n <= u16::MAX as u64 {
            Some(Some(n as u16))
        } else {
            None
        },
        Some(_) => None,
    }
}

/// The number one, the declared default for opacities and export scales.
pub open spec fn num_one() -> JsonNumber {
    JsonNumber::PosInt(1)
}

/// The number zero, the declared default for all other numeric fields.
pub open spec fn num_zero() -> JsonNumber {
    JsonNumber::PosInt(0)
}

/// A bounding box read from an object: each side is a numeric field
/// defaulting to zero.
pub open spec fn bbox_of(v: JsonValue) -> Option<BoundingBox> {
    match v {
        JsonValue::Obj(flds) => {
            let g = flds@;
            match (
                num_field(g, "x"@, num_zero()),
                num_field(g, "y"@, num_zero()),
                num_field(g, "width"@, num_zero()),
                num_field(g, "height"@, num_zero()),
            ) {
                (Some(x), Some(y), Some(w), Some(h)) => Some(
                    BoundingBox { x, y, width: w, height: h },
                ),
                _ => None,
            }
        },
        _ => None,
    }
}

/// An optional bounding-box field: absent or null means none.
pub open spec fn opt_bbox_field(fields: Seq<(String, JsonValue)>, key: Seq<char>) -> Option<
    Option<BoundingBox>,
> {
    match spec_obj_get(fields, key) {
        None => Some(None),
        Some(JsonValue::Null) => Some(None),
        Some(v) => match bbox_of(v) {
            Some(b) => Some(Some(b)),
            None => None,
        },
    }
}

/// A color read from an object: four numeric channels defaulting to zero.
pub open spec fn color_of(v: JsonValue) -> Option<Color> {
    match v {
        JsonValue::Obj(flds) => {
            let g = flds@;
            match (
                num_field(g, "r"@, num_zero()),
                num_field(g, "g"@, num_zero()),
                num_field(g, "b"@, num_zero()),
                num_field(g, "a"@, num_zero()),
            ) {
                (Some(r), Some(gc), Some(b), Some(a)) => Some(Color { r, g: gc, b, a }),
                _ => None,
            }
        },
        _ => None,
    }
}

/// An optional color field: absent or null means none.
pub open spec fn opt_color_field(fields: Seq<(String, JsonValue)>, key: Seq<char>) -> Option<
    Option<Color>,
> {
    match spec_obj_get(fields, key) {
        None => Some(None),
        Some(JsonValue::Null) => Some(None),
        Some(v) => match color_of(v) {
            Some(c) => Some(Some(c)),
            None => None,
        },
    }
}

/// The view of a decoded text style.
pub struct TypeStyleView {
    pub font_family: Option<Seq<char>>,
    pub font_size: Option<JsonNumber>,
    pub font_weight: Option<u16>,
}

/// A text style read from an object.
pub open spec fn style_of(v: JsonValue) -> Option<TypeStyleView> {
    match v {
        JsonValue::Obj(flds) => {
            let g = flds@;
            match (
                opt_str_field(g, "fontFamily"@),
                opt_num_field(g, "fontSize"@),
                opt_u16_field(g, "fontWeight"@),
            ) {
                (Some(ff), Some(fs), Some(fw)) => Some(
                    TypeStyleView { font_family: ff, font_size: fs, font_weight: fw },
                ),
                _ => None,
            }
        },
        _ => None,
    }
}

/// An optional style field: absent or null means none.
pub open spec fn opt_style_field(fields: Seq<(String, JsonValue)>, key: Seq<char>) -> Option<
    Option<TypeStyleView>,
> {
    match spec_obj_get(fields, key) {
        None => Some(None),
        Some(JsonValue::Null) => Some(None),
        Some(v) => match style_of(v) {
            Some(st) => Some(Some(st)),
            None => None,
        },
    }
}

/// An optional string matches its view.
pub open spec fn opt_str_matches(x: Option<String>, v: Option<Seq<char>>) -> bool {
    match x {
        None => v is None,
        Some(s) => v == Some(s@),
    }
}

/// A decoded text style matches its view.
pub open spec fn style_matches(st: TypeStyle, sv: TypeStyleView) -> bool {
    &&& opt_str_matches(st.font_family, sv.font_family)
    &&& st.font_size == sv.font_size
    &&& st.font_weight == sv.font_weight
}

pub open spec fn opt_style_matches(st: Option<TypeStyle>, sv: Option<TypeStyleView>) -> bool {
    match st {
        None => sv is None,
        Some(s) => sv matches Some(w) && style_matches(s, w),
    }
}

/// The view of a decoded paint.
pub struct PaintView {
    pub paint_type: Seq<char>,
    pub color: Option<Color>,
    pub opacity: JsonNumber,
    pub blend_mode: Seq<char>,
}

/// A paint read from an object: type and blend mode default to the empty
/// string, opacity to one.
pub open spec fn paint_of(v: JsonValue) -> Option<PaintView> {
    match v {
        JsonValue::Obj(flds) => {
            let g = flds@;
            match (
                str_field(g, "type"@, ""@),
                opt_color_field(g, "color"@),
                num_field(g, "opacity"@, num_one()),
                str_field(g, "blendMode"@, ""@),
            ) {
                (Some(t), Some(c), Some(o), Some(bm)) => Some(
                    PaintView { paint_type: t, color: c, opacity: o, blend_mode: bm },
                ),
                _ => None,
            }
        },
        _ => None,
    }
}

/// A paint-list field: absent means empty, a present value must be an
/// array of well-shaped paints.
pub open spec fn paints_field(fields: Seq<(String, JsonValue)>, key: Seq<char>) -> Option<
    Seq<PaintView>,
> {
    match spec_obj_get(fields, key) {
        None => Some(Seq::empty()),
        Some(JsonValue::Arr(items)) => if forall|i: int|
            0 <= i < items@.len() ==> paint_of(#[trigger] items@[i]) is Some {
            Some(Seq::new(items@.len(), |i: int| paint_of(items@[i]).unwrap()))
        } else {
            None
        },
        Some(_) => None,
    }
}

pub open spec fn paint_matches(p: Paint, pv: PaintView) -> bool {
    &&& p.paint_type@ == pv.paint_type
    &&& p.color == pv.color
    &&& p.opacity == pv.opacity
    &&& p.blend_mode@ == pv.blend_mode
}

pub open spec fn paints_match(ps: Seq<Paint>, pvs: Seq<PaintView>) -> bool {
    ps.len() == pvs.len() && forall|i: int|
        0 <= i < ps.len() ==> paint_matches(#[trigger] ps[i], pvs[i])
}

/// The view of a decoded export setting.
pub struct ExportSettingView {
    pub suffix: Seq<char>,
    pub format: Seq<char>,
    pub constraint: ExportConstraint,
}

/// An export constraint read from a value: absent fields default, the
/// scale defaults to one.
pub open spec fn constraint_field(fields: Seq<(String, JsonValue)>, key: Seq<char>) -> Option<
    ExportConstraint,
> {
    match spec_obj_get(fields, key) {
        None => Some(ExportConstraint { scale: num_one() }),
        Some(JsonValue::Obj(flds)) => match num_field(flds@, "scale"@, num_one()) {
            Some(s) => Some(ExportConstraint { scale: s }),
            None => None,
        },
        Some(_) => None,
    }
}

/// An export setting read from an object.
pub open spec fn export_of(v: JsonValue) -> Option<ExportSettingView> {
    match v {
        JsonValue::Obj(flds) => {
            let g = flds@;
            match (
                str_field(g, "suffix"@, ""@),
                str_field(g, "format"@, ""@),
                constraint_field(g, "constraint"@),
            ) {
                (Some(sx), Some(fm), Some(c)) => Some(
                    ExportSettingView { suffix: sx, format: fm, constraint: c },
                ),
                _ => None,
            }
        },
        _ => None,
    }
}

/// An export-settings field: absent means empty.
pub open spec fn exports_field(fields: Seq<(String, JsonValue)>, key: Seq<char>) -> Option<
    Seq<ExportSettingView>,
> {
    match spec_obj_get(fields, key) {
        None => Some(Seq::empty()),
        Some(JsonValue::Arr(items)) => if forall|i: int|
            0 <= i < items@.len() ==> export_of(#[trigger] items@[i]) is Some {
            Some(Seq::new(items@.len(), |i: int| export_of(items@[i]).unwrap()))
        } else {
            None
        },
        Some(_) => None,
    }
}

pub open spec fn export_matches(x: ExportSetting, xv: ExportSettingView) -> bool {
    &&& x.suffix@ == xv.suffix
    &&& x.format@ == xv.format
    &&& x.constraint == xv.constraint
}

pub open spec fn exports_match(xs: Seq<ExportSetting>, xvs: Seq<ExportSettingView>) -> bool {
    xs.len() == xvs.len() && forall|i: int|
        0 <= i < xs.len() ==> export_matches(#[trigger] xs[i], xvs[i])
}

/// The raw child values of a node: absent means none, a present value
/// must be an array.
pub open spec fn children_vals(fields: Seq<(String, JsonValue)>) -> Option<Seq<JsonValue>> {
    match spec_obj_get(fields, "children"@) {
        None => Some(Seq::empty()),
        Some(JsonValue::Arr(items)) => Some(items@),
        Some(_) => None,
    }
}

// ---------------------------------------------------------------------------
// Tags.

/// The type tag of an object: its `type` field when that is a string,
/// `"UNKNOWN"` otherwise.  Reading the tag never fails by itself, but a
/// present non-string `type` makes the object undecodable: see
/// [`tag_ok`].
pub open spec fn tag_of(fields: Seq<(String, JsonValue)>) -> Seq<char> {
    match spec_obj_get(fields, "type"@) {
        Some(JsonValue::Str(s)) => s@,
        _ => "UNKNOWN"@,
    }
}

/// A present `type` field must be a string; an absent one is fine and
/// reads as `"UNKNOWN"`.
pub open spec fn tag_ok(fields: Seq<(String, JsonValue)>) -> bool {
    match spec_obj_get(fields, "type"@) {
        None => true,
        Some(JsonValue::Str(_)) => true,
        Some(_) => false,
    }
}

/// The tags that collapse to the `Shape` variant.
pub open spec fn is_shape_tag(t: Seq<char>) -> bool {
    ||| t == "VECTOR"@
    ||| t == "ELLIPSE"@
    ||| t == "LINE"@
    ||| t == "REGULAR_POLYGON"@
    ||| t == "STAR"@
    ||| t == "SHAPE_WITH_TEXT"@
    ||| t == "CONNECTOR"@
    ||| t == "WIDGET"@
}

/// The enumerated tags; anything else decodes into `Other`.
pub open spec fn is_known_tag(t: Seq<char>) -> bool {
    ||| t == "CANVAS"@
    ||| t == "SECTION"@
    ||| t == "FRAME"@
    ||| t == "GROUP"@
    ||| t == "TEXT"@
    ||| t == "RECTANGLE"@
    ||| t == "COMPONENT"@
    ||| t == "COMPONENT_SET"@
    ||| t == "INSTANCE"@
    ||| t == "STICKY"@
    ||| t == "BOOLEAN_OPERATION"@
    ||| t == "TABLE"@
    ||| t == "TABLE_CELL"@
    ||| is_shape_tag(t)
}

// ---------------------------------------------------------------------------
// Decodability: whether a value decodes at all, as a predicate of the
// input alone.  The executable decoder returns `Ok` exactly on decodable
// values.

/// The shared attributes are well-shaped.
pub open spec fn base_ok(fields: Seq<(String, JsonValue)>) -> bool {
    &&& tag_ok(fields)
    &&& str_field(fields, "id"@, ""@) is Some
    &&& str_field(fields, "name"@, ""@) is Some
    &&& bool_field(fields, "visible"@, true) is Some
    &&& bool_field(fields, "locked"@, false) is Some
}

/// A value decodes into a node: it is an object whose shared attributes
/// and tag-specific fields are all well-shaped, children included.
pub open spec fn node_decodable(v: JsonValue) -> bool
    decreases v, 1int,
{
    match v {
        JsonValue::Obj(flds) => {
            let fields = flds@;
            let t = tag_of(fields);
            &&& base_ok(fields)
            &&& (if t == "CANVAS"@ {
                &&& opt_color_field(fields, "backgroundColor"@) is Some
                &&& exports_field(fields, "exportSettings"@) is Some
                &&& children_field_decodable(v)
            } else if t == "SECTION"@ {
                &&& opt_bbox_field(fields, "absoluteBoundingBox"@) is Some
                &&& opt_bbox_field(fields, "absoluteRenderBounds"@) is Some
                &&& paints_field(fields, "fills"@) is Some
                &&& paints_field(fields, "strokes"@) is Some
                &&& num_field(fields, "strokeWeight"@, num_zero()) is Some
                &&& str_field(fields, "strokeAlign"@, ""@) is Some
                &&& bool_field(fields, "sectionContentsHidden"@, false) is Some
                &&& children_field_decodable(v)
            } else if t == "FRAME"@ {
                &&& opt_bbox_field(fields, "absoluteBoundingBox"@) is Some
                &&& paints_field(fields, "fills"@) is Some
                &&& bool_field(fields, "clipsContent"@, false) is Some
                &&& children_field_decodable(v)
            } else if t == "GROUP"@ {
                &&& opt_bbox_field(fields, "absoluteBoundingBox"@) is Some
                &&& children_field_decodable(v)
            } else if t == "TEXT"@ {
                &&& str_field(fields, "characters"@, ""@) is Some
                &&& opt_bbox_field(fields, "absoluteBoundingBox"@) is Some
                &&& opt_style_field(fields, "style"@) is Some
            } else if t == "RECTANGLE"@ {
                &&& opt_bbox_field(fields, "absoluteBoundingBox"@) is Some
                &&& num_field(fields, "cornerRadius"@, num_zero()) is Some
                &&& paints_field(fields, "fills"@) is Some
            } else if is_shape_tag(t) {
                &&& opt_bbox_field(fields, "absoluteBoundingBox"@) is Some
                &&& paints_field(fields, "fills"@) is Some
            } else if t == "COMPONENT"@ || t == "COMPONENT_SET"@ {
                &&& opt_str_field(fields, "componentKey"@) is Some
                &&& opt_bbox_field(fields, "absoluteBoundingBox"@) is Some
                &&& children_field_decodable(v)
            } else if t == "INSTANCE"@ {
                &&& str_field(fields, "componentId"@, ""@) is Some
                &&& opt_bbox_field(fields, "absoluteBoundingBox"@) is Some
                &&& children_field_decodable(v)
            } else if t == "STICKY"@ {
                &&& str_field(fields, "characters"@, ""@) is Some
                &&& opt_bbox_field(fields, "absoluteBoundingBox"@) is Some
                &&& paints_field(fields, "fills"@) is Some
            } else if t == "BOOLEAN_OPERATION"@ || t == "TABLE"@ || t == "TABLE_CELL"@ {
                &&& opt_bbox_field(fields, "absoluteBoundingBox"@) is Some
                &&& paints_field(fields, "fills"@) is Some
                &&& children_field_decodable(v)
            } else {
                &&& opt_str_field(fields, "characters"@) is Some
                &&& children_field_decodable(v)
            })
        },
        _ => false,
    }
}

/// The `children` field, if present, is an array of decodable values.
pub open spec fn children_field_decodable(v: JsonValue) -> bool
    decreases v, 0int,
    via children_field_decodable_dec
{
    match v {
        JsonValue::Obj(flds) => match spec_obj_get(flds@, "children"@) {
            None => true,
            Some(JsonValue::Arr(items)) => nodes_decodable(items@),
            Some(_) => false,
        },
        _ => false,
    }
}

#[via_fn]
proof fn children_field_decodable_dec(v: JsonValue) {
    if v is Obj && spec_obj_get(v->Obj_0@, "children"@) is Some {
        let cv = spec_obj_get(v->Obj_0@, "children"@).unwrap();
        crate::json::lemma_obj_get_decreases(v, "children"@);
        if cv is Arr {
            assert(decreases_to!(cv => cv->Arr_0));
            assert(decreases_to!(cv->Arr_0 => cv->Arr_0@));
        }
    }
}

/// Every value in the list decodes into a node.
pub open spec fn nodes_decodable(vs: Seq<JsonValue>) -> bool
    decreases vs, 1int,
{
    vs.len() == 0 || (node_decodable(vs[0]) && nodes_decodable(vs.skip(1)))
}

proof fn lemma_nodes_decodable_push(vs: Seq<JsonValue>, v2: JsonValue)
    requires
        nodes_decodable(vs),
        node_decodable(v2),
    ensures
        nodes_decodable(vs.push(v2)),
    decreases vs.len(),
{
    if vs.len() == 0 {
        assert(vs.push(v2)[0] == v2);
        assert(vs.push(v2).skip(1) =~= Seq::<JsonValue>::empty());
        assert(nodes_decodable(Seq::<JsonValue>::empty()));
    } else {
        lemma_nodes_decodable_push(vs.skip(1), v2);
        assert(vs.push(v2).skip(1) =~= vs.skip(1).push(v2));
        assert(vs.push(v2)[0] == vs[0]);
    }
}

proof fn lemma_nodes_decodable_index(vs: Seq<JsonValue>, i: int)
    requires
        nodes_decodable(vs),
        0 <= i < vs.len(),
    ensures
        node_decodable(vs[i]),
    decreases i,
{
    if i > 0 {
        lemma_nodes_decodable_index(vs.skip(1), i - 1);
        assert(vs.skip(1)[i - 1] == vs[i]);
    }
}

// ---------------------------------------------------------------------------
// The decode relation.

/// The shared attributes decode from an object's fields: the `type`
/// field, if present, is a string and is stored as the tag the dispatch
/// saw; identifier and name default to empty, visibility to shown,
/// locked to unlocked.
pub open spec fn base_matches(fields: Seq<(String, JsonValue)>, b: NodeBase) -> bool {
    &&& tag_ok(fields)
    &&& b.node_type@ == tag_of(fields)
    &&& str_field(fields, "id"@, ""@) matches Some(s) && b.id@ == s
    &&& str_field(fields, "name"@, ""@) matches Some(s) && b.name@ == s
    &&& bool_field(fields, "visible"@, true) matches Some(x) && b.visible == x
    &&& bool_field(fields, "locked"@, false) matches Some(x) && b.locked == x
}

/// A JSON value decodes to a node: the value is an object, the shared
/// attributes decode, and the payload decodes under the object's tag.
pub open spec fn decodes_to(v: JsonValue, n: Node) -> bool
    decreases n, 3int,
{
    v matches JsonValue::Obj(flds) && base_matches(flds@, n.base) && data_matches(flds@, n.data)
}

/// The payload of a node decodes from an object's fields under its tag.
pub open spec fn data_matches(fields: Seq<(String, JsonValue)>, data: NodeData) -> bool
    decreases data, 2int,
{
    let t = tag_of(fields);
    if t == "CANVAS"@ {
        &&& data matches NodeData::Canvas { background_color, export_settings, children }
        &&& opt_color_field(fields, "backgroundColor"@) matches Some(c) && background_color == c
        &&& exports_field(fields, "exportSettings"@) matches Some(es) && exports_match(
            export_settings@,
            es,
        )
        &&& children_ok(fields, children@)
    } else if t == "SECTION"@ {
        &&& data matches NodeData::Section {
            absolute_bounding_box,
            absolute_render_bounds,
            fills,
            strokes,
            stroke_weight,
            stroke_align,
            section_contents_hidden,
            children,
        }
        &&& opt_bbox_field(fields, "absoluteBoundingBox"@) matches Some(b) && absolute_bounding_box
            == b
        &&& opt_bbox_field(fields, "absoluteRenderBounds"@) matches Some(b) && absolute_render_bounds
            == b
        &&& paints_field(fields, "fills"@) matches Some(ps) && paints_match(fills@, ps)
        &&& paints_field(fields, "strokes"@) matches Some(ps) && paints_match(strokes@, ps)
        &&& num_field(fields, "strokeWeight"@, num_zero()) matches Some(w) && stroke_weight == w
        &&& str_field(fields, "strokeAlign"@, ""@) matches Some(s) && stroke_align@
            == s
        &&& bool_field(fields, "sectionContentsHidden"@, false) matches Some(x)
            && section_contents_hidden == x
        &&& children_ok(fields, children@)
    } else if t == "FRAME"@ {
        &&& data matches NodeData::Frame { absolute_bounding_box, fills, clips_content, children }
        &&& opt_bbox_field(fields, "absoluteBoundingBox"@) matches Some(b) && absolute_bounding_box
            == b
        &&& paints_field(fields, "fills"@) matches Some(ps) && paints_match(fills@, ps)
        &&& bool_field(fields, "clipsContent"@, false) matches Some(x) && clips_content == x
        &&& children_ok(fields, children@)
    } else if t == "GROUP"@ {
        &&& data matches NodeData::Group { absolute_bounding_box, children }
        &&& opt_bbox_field(fields, "absoluteBoundingBox"@) matches Some(b) && absolute_bounding_box
            == b
        &&& children_ok(fields, children@)
    } else if t == "TEXT"@ {
        &&& data matches NodeData::Text { characters, absolute_bounding_box, style }
        &&& str_field(fields, "characters"@, ""@) matches Some(s) && characters@
            == s
        &&& opt_bbox_field(fields, "absoluteBoundingBox"@) matches Some(b) && absolute_bounding_box
            == b
        &&& opt_style_field(fields, "style"@) matches Some(st) && opt_style_matches(style, st)
    } else if t == "RECTANGLE"@ {
        &&& data matches NodeData::Rectangle { absolute_bounding_box, corner_radius, fills }
        &&& opt_bbox_field(fields, "absoluteBoundingBox"@) matches Some(b) && absolute_bounding_box
            == b
        &&& num_field(fields, "cornerRadius"@, num_zero()) matches Some(r) && corner_radius == r
        &&& paints_field(fields, "fills"@) matches Some(ps) && paints_match(fills@, ps)
    } else if is_shape_tag(t) {
        &&& data matches NodeData::Shape { absolute_bounding_box, fills }
        &&& opt_bbox_field(fields, "absoluteBoundingBox"@) matches Some(b) && absolute_bounding_box
            == b
        &&& paints_field(fields, "fills"@) matches Some(ps) && paints_match(fills@, ps)
    } else if t == "COMPONENT"@ {
        &&& data matches NodeData::Component { component_key, absolute_bounding_box, children }
        &&& opt_str_field(fields, "componentKey"@) matches Some(k) && opt_str_matches(
            component_key,
            k,
        )
        &&& opt_bbox_field(fields, "absoluteBoundingBox"@) matches Some(b) && absolute_bounding_box
            == b
        &&& children_ok(fields, children@)
    } else if t == "COMPONENT_SET"@ {
        &&& data matches NodeData::ComponentSet { component_key, absolute_bounding_box, children }
        &&& opt_str_field(fields, "componentKey"@) matches Some(k) && opt_str_matches(
            component_key,
            k,
        )
        &&& opt_bbox_field(fields, "absoluteBoundingBox"@) matches Some(b) && absolute_bounding_box
            == b
        &&& children_ok(fields, children@)
    } else if t == "INSTANCE"@ {
        &&& data matches NodeData::Instance { component_id, absolute_bounding_box, children }
        &&& str_field(fields, "componentId"@, ""@) matches Some(s) && component_id@
            == s
        &&& opt_bbox_field(fields, "absoluteBoundingBox"@) matches Some(b) && absolute_bounding_box
            == b
        &&& children_ok(fields, children@)
    } else if t == "STICKY"@ {
        &&& data matches NodeData::Sticky { characters, absolute_bounding_box, fills }
        &&& str_field(fields, "characters"@, ""@) matches Some(s) && characters@
            == s
        &&& opt_bbox_field(fields, "absoluteBoundingBox"@) matches Some(b) && absolute_bounding_box
            == b
        &&& paints_field(fields, "fills"@) matches Some(ps) && paints_match(fills@, ps)
    } else if t == "BOOLEAN_OPERATION"@ {
        &&& data matches NodeData::BooleanOperation { absolute_bounding_box, fills, children }
        &&& opt_bbox_field(fields, "absoluteBoundingBox"@) matches Some(b) && absolute_bounding_box
            == b
        &&& paints_field(fields, "fills"@) matches Some(ps) && paints_match(fills@, ps)
        &&& children_ok(fields, children@)
    } else if t == "TABLE"@ {
        &&& data matches NodeData::Table { absolute_bounding_box, fills, children }
        &&& opt_bbox_field(fields, "absoluteBoundingBox"@) matches Some(b) && absolute_bounding_box
            == b
        &&& paints_field(fields, "fills"@) matches Some(ps) && paints_match(fills@, ps)
        &&& children_ok(fields, children@)
    } else if t == "TABLE_CELL"@ {
        &&& data matches NodeData::TableCell { absolute_bounding_box, fills, children }
        &&& opt_bbox_field(fields, "absoluteBoundingBox"@) matches Some(b) && absolute_bounding_box
            == b
        &&& paints_field(fields, "fills"@) matches Some(ps) && paints_match(fills@, ps)
        &&& children_ok(fields, children@)
    } else {
        &&& data matches NodeData::Other { characters, children }
        &&& opt_str_field(fields, "characters"@) matches Some(s) && opt_str_matches(characters, s)
        &&& children_ok(fields, children@)
    }
}

/// The children of a node decode: the raw child list is well-shaped and
/// decodes element-wise.
pub open spec fn children_ok(fields: Seq<(String, JsonValue)>, ns: Seq<Node>) -> bool
    decreases ns, 1int,
{
    children_vals(fields) matches Some(vs) && nodes_decode_to(vs, ns)
}

/// Element-wise decoding of a child list.
pub open spec fn nodes_decode_to(vs: Seq<JsonValue>, ns: Seq<Node>) -> bool
    decreases ns, 0int,
{
    &&& ns.len() == vs.len()
    &&& ns.len() > 0 ==> decodes_to(vs[0], ns[0]) && nodes_decode_to(vs.skip(1), ns.skip(1))
}

/// A value decodes into a document: an object whose identifying fields
/// and children are well-shaped.
pub open spec fn document_decodable(v: JsonValue) -> bool {
    &&& v matches JsonValue::Obj(flds)
    &&& str_field(flds@, "id"@, ""@) is Some
    &&& str_field(flds@, "name"@, ""@) is Some
    &&& str_field(flds@, "type"@, ""@) is Some
    &&& opt_str_field(flds@, "scrollBehavior"@) is Some
    &&& children_field_decodable(v)
}

/// A JSON value decodes to a document: identifier, name and type default
/// to empty strings, scroll behavior is optional, and the children decode
/// element-wise.
pub open spec fn document_decodes_to(v: JsonValue, d: Document) -> bool {
    &&& v matches JsonValue::Obj(flds)
    &&& str_field(flds@, "id"@, ""@) matches Some(s) && d.id@ == s
    &&& str_field(flds@, "name"@, ""@) matches Some(s) && d.name@ == s
    &&& str_field(flds@, "type"@, ""@) matches Some(s) && d.node_type@ == s
    &&& opt_str_field(flds@, "scrollBehavior"@) matches Some(s) && opt_str_matches(
        d.scroll_behavior,
        s,
    )
    &&& children_ok(flds@, d.children@)
}


// ---------------------------------------------------------------------------
// Error evidence, stated relative to an object's fields or an array's
// items, so that it composes as errors travel up the tree.

/// The error's path enters at one of the object's own fields and leads
/// to a mismatched value.
pub open spec fn err_in_obj(fields: Seq<(String, JsonValue)>, e: DecodeError) -> bool {
    &&& e.path@.len() >= 1
    &&& e.path@[0] matches PathSeg::Field(k) && spec_obj_get(fields, k@) matches Some(x) && locate(
        x,
        e.path@.skip(1),
    ) matches Some(bad) && !kind_matches(bad, e.expected)
}

/// The error's path enters at one of the array's items and leads to a
/// mismatched value.
pub open spec fn err_in_arr(items: Seq<JsonValue>, e: DecodeError) -> bool {
    &&& e.path@.len() >= 1
    &&& e.path@[0] matches PathSeg::Index(i) && i < items.len() && (locate(
        items[i as int],
        e.path@.skip(1),
    ) matches Some(bad) && !kind_matches(bad, e.expected))
}

/// Evidence relative to an object's fields is evidence for the object.
proof fn lemma_err_in_obj(v: JsonValue, e: DecodeError)
    requires
        v is Obj,
        err_in_obj(v->Obj_0@, e),
    ensures
        error_locates_mismatch(v, e),
{
}

/// A mismatch directly at a field of the object.
proof fn lemma_err_at_field(fields: Seq<(String, JsonValue)>, key: Seq<char>, e: DecodeError)
    requires
        e.path@.len() == 1,
        e.path@[0] matches PathSeg::Field(k) && k@ == key,
        spec_obj_get(fields, key) matches Some(bad) && !kind_matches(bad, e.expected),
    ensures
        err_in_obj(fields, e),
{
    assert(e.path@.skip(1) =~= Seq::<PathSeg>::empty());
}

/// Evidence inside an object-valued field, prefixed with that field's
/// key, is evidence for the outer object.
proof fn lemma_err_nested_obj(
    fields: Seq<(String, JsonValue)>,
    key: Seq<char>,
    inner: JsonValue,
    e0: DecodeError,
    e: DecodeError,
)
    requires
        spec_obj_get(fields, key) == Some(inner),
        inner is Obj,
        err_in_obj(inner->Obj_0@, e0),
        e.expected == e0.expected,
        e.path@.len() == e0.path@.len() + 1,
        e.path@[0] matches PathSeg::Field(k) && k@ == key,
        e.path@.skip(1) == e0.path@,
    ensures
        err_in_obj(fields, e),
{
}

/// Evidence inside an array-valued field, prefixed with that field's
/// key, is evidence for the outer object.
proof fn lemma_err_nested_arr(
    fields: Seq<(String, JsonValue)>,
    key: Seq<char>,
    inner: JsonValue,
    e0: DecodeError,
    e: DecodeError,
)
    requires
        spec_obj_get(fields, key) == Some(inner),
        inner is Arr,
        err_in_arr(inner->Arr_0@, e0),
        e.expected == e0.expected,
        e.path@.len() == e0.path@.len() + 1,
        e.path@[0] matches PathSeg::Field(k) && k@ == key,
        e.path@.skip(1) == e0.path@,
    ensures
        err_in_obj(fields, e),
{
}

/// Evidence for one item, prefixed with its index, is evidence for the
/// item list.
proof fn lemma_err_at_index(items: Seq<JsonValue>, i: int, e0: DecodeError, e: DecodeError)
    requires
        0 <= i < items.len(),
        error_locates_mismatch(items[i], e0),
        e.expected == e0.expected,
        e.path@.len() == e0.path@.len() + 1,
        e.path@[0] matches PathSeg::Index(j) && j == i,
        e.path@.skip(1) == e0.path@,
    ensures
        err_in_arr(items, e),
{
}

// ---------------------------------------------------------------------------
// Error construction.

/// An error naming a single field of the current object.
fn field_err(key: &str, expected: JsonKind) -> (e: DecodeError)
    ensures
        e.path@.len() == 1,
        e.path@[0] matches PathSeg::Field(k) && k@ == key@,
        e.expected == expected,
{
    let mut path: Vec<PathSeg> = Vec::new();
    path.push(PathSeg::Field(key.to_owned()));
    DecodeError { path, expected }
}

/// Push a field key in front of an error's path.
fn prefix_field(key: &str, e: DecodeError) -> (r: DecodeError)
    ensures
        r.expected == e.expected,
        r.path@.len() == e.path@.len() + 1,
        r.path@[0] matches PathSeg::Field(k) && k@ == key@,
        r.path@.skip(1) == e.path@,
{
    let mut path: Vec<PathSeg> = Vec::new();
    path.push(PathSeg::Field(key.to_owned()));
    let mut rest = e.path;
    path.append(&mut rest);
    proof {
        assert(path@.skip(1) =~= e.path@);
    }
    DecodeError { path, expected: e.expected }
}

/// Push an array index in front of an error's path.
fn prefix_index(i: usize, e: DecodeError) -> (r: DecodeError)
    ensures
        r.expected == e.expected,
        r.path@.len() == e.path@.len() + 1,
        r.path@[0] matches PathSeg::Index(j) && j == i,
        r.path@.skip(1) == e.path@,
{
    let mut path: Vec<PathSeg> = Vec::new();
    path.push(PathSeg::Index(i));
    let mut rest = e.path;
    path.append(&mut rest);
    proof {
        assert(path@.skip(1) =~= e.path@);
    }
    DecodeError { path, expected: e.expected }
}

// ---------------------------------------------------------------------------
// Scalar field getters.

fn get_str_field(fields: &Vec<(String, JsonValue)>, key: &str, dflt: &str) -> (r: Result<
    String,
    DecodeError,
>)
    ensures
        r matches Ok(s) ==> str_field(fields@, key@, dflt@) == Some(s@),
        r is Err ==> str_field(fields@, key@, dflt@) is None,
        r matches Err(e) ==> err_in_obj(fields@, e),
{
    match obj_get(fields, key) {
        None => Ok(dflt.to_owned()),
        Some(v) => match v {
            JsonValue::Str(s) => Ok(s.clone()),
            _ => {
                let e = field_err(key, JsonKind::Text);
                proof {
                    lemma_err_at_field(fields@, key@, e);
                }
                Err(e)
            },
        },
    }
}

fn get_opt_str_field(fields: &Vec<(String, JsonValue)>, key: &str) -> (r: Result<
    Option<String>,
    DecodeError,
>)
    ensures
        r matches Ok(s) ==> opt_str_field(fields@, key@) matches Some(w) && opt_str_matches(s, w),
        r is Err ==> opt_str_field(fields@, key@) is None,
        r matches Err(e) ==> err_in_obj(fields@, e),
{
    match obj_get(fields, key) {
        None => Ok(None),
        Some(v) => match v {
            JsonValue::Null => Ok(None),
            JsonValue::Str(s) => Ok(Some(s.clone())),
            _ => {
                let e = field_err(key, JsonKind::Text);
                proof {
                    lemma_err_at_field(fields@, key@, e);
                }
                Err(e)
            },
        },
    }
}

fn get_bool_field(fields: &Vec<(String, JsonValue)>, key: &str, dflt: bool) -> (r: Result<
    bool,
    DecodeError,
>)
    ensures
        r matches Ok(b) ==> bool_field(fields@, key@, dflt) == Some(b),
        r is Err ==> bool_field(fields@, key@, dflt) is None,
        r matches Err(e) ==> err_in_obj(fields@, e),
{
    match obj_get(fields, key) {
        None => Ok(dflt),
        Some(v) => match v {
            JsonValue::Bool(b) => Ok(*b),
            _ => {
                let e = field_err(key, JsonKind::Flag);
                proof {
                    lemma_err_at_field(fields@, key@, e);
                }
                Err(e)
            },
        },
    }
}

fn get_num_field(fields: &Vec<(String, JsonValue)>, key: &str, dflt: JsonNumber) -> (r: Result<
    JsonNumber,
    DecodeError,
>)
    ensures
        r matches Ok(x) ==> num_field(fields@, key@, dflt) == Some(x),
        r is Err ==> num_field(fields@, key@, dflt) is None,
        r matches Err(e) ==> err_in_obj(fields@, e),
{
    match obj_get(fields, key) {
        None => Ok(dflt),
        Some(v) => match v {
            JsonValue::Num(n) => Ok(*n),
            _ => {
                let e = field_err(key, JsonKind::Number);
                proof {
                    lemma_err_at_field(fields@, key@, e);
                }
                Err(e)
            },
        },
    }
}

fn get_opt_num_field(fields: &Vec<(String, JsonValue)>, key: &str) -> (r: Result<
    Option<JsonNumber>,
    DecodeError,
>)
    ensures
        r matches Ok(x) ==> opt_num_field(fields@, key@) == Some(x),
        r is Err ==> opt_num_field(fields@, key@) is None,
        r matches Err(e) ==> err_in_obj(fields@, e),
{
    match obj_get(fields, key) {
        None => Ok(None),
        Some(v) => match v {
            JsonValue::Null => Ok(None),
            JsonValue::Num(n) => Ok(Some(*n)),
            _ => {
                let e = field_err(key, JsonKind::Number);
                proof {
                    lemma_err_at_field(fields@, key@, e);
                }
                Err(e)
            },
        },
    }
}

fn get_opt_u16_field(fields: &Vec<(String, JsonValue)>, key: &str) -> (r: Result<
    Option<u16>,
    DecodeError,
>)
    ensures
        r matches Ok(x) ==> opt_u16_field(fields@, key@) == Some(x),
        r is Err ==> opt_u16_field(fields@, key@) is None,
        r matches Err(e) ==> err_in_obj(fields@, e),
{
    match obj_get(fields, key) {
        None => Ok(None),
        Some(v) => match v {
            JsonValue::Null => Ok(None),
            JsonValue::Num(JsonNumber::PosInt(n)) => {
                if *n <= u16::MAX as u64 {
                    Ok(Some(*n as u16))
                } else {
                    let e = field_err(key, JsonKind::Uint16);
                    proof {
                        lemma_err_at_field(fields@, key@, e);
                    }
                    Err(e)
                }
            },
            _ => {
                let e = field_err(key, JsonKind::Uint16);
                proof {
                    lemma_err_at_field(fields@, key@, e);
                }
                Err(e)
            },
        },
    }
}


// ---------------------------------------------------------------------------
// Nested-record getters.

fn get_opt_bbox_field(fields: &Vec<(String, JsonValue)>, key: &str) -> (r: Result<
    Option<BoundingBox>,
    DecodeError,
>)
    ensures
        r matches Ok(x) ==> opt_bbox_field(fields@, key@) == Some(x),
        r is Err ==> opt_bbox_field(fields@, key@) is None,
        r matches Err(e) ==> err_in_obj(fields@, e),
{
    let inner = match obj_get(fields, key) {
        None => {
            return Ok(None);
        },
        Some(v) => v,
    };
    match inner {
        JsonValue::Null => Ok(None),
        JsonValue::Obj(g) => {
            let x = match get_num_field(g, "x", JsonNumber::PosInt(0)) {
                Ok(x) => x,
                Err(e0) => {
                    let e = prefix_field(key, e0);
                    proof {
                        lemma_err_nested_obj(fields@, key@, *inner, e0, e);
                    }
                    return Err(e);
                },
            };
            let y = match get_num_field(g, "y", JsonNumber::PosInt(0)) {
                Ok(x) => x,
                Err(e0) => {
                    let e = prefix_field(key, e0);
                    proof {
                        lemma_err_nested_obj(fields@, key@, *inner, e0, e);
                    }
                    return Err(e);
                },
            };
            let width = match get_num_field(g, "width", JsonNumber::PosInt(0)) {
                Ok(x) => x,
                Err(e0) => {
                    let e = prefix_field(key, e0);
                    proof {
                        lemma_err_nested_obj(fields@, key@, *inner, e0, e);
                    }
                    return Err(e);
                },
            };
            let height = match get_num_field(g, "height", JsonNumber::PosInt(0)) {
                Ok(x) => x,
                Err(e0) => {
                    let e = prefix_field(key, e0);
                    proof {
                        lemma_err_nested_obj(fields@, key@, *inner, e0, e);
                    }
                    return Err(e);
                },
            };
            Ok(Some(BoundingBox { x, y, width, height }))
        },
        _ => {
            let e = field_err(key, JsonKind::Object);
            proof {
                lemma_err_at_field(fields@, key@, e);
            }
            Err(e)
        },
    }
}

fn get_opt_color_field(fields: &Vec<(String, JsonValue)>, key: &str) -> (r: Result<
    Option<Color>,
    DecodeError,
>)
    ensures
        r matches Ok(x) ==> opt_color_field(fields@, key@) == Some(x),
        r is Err ==> opt_color_field(fields@, key@) is None,
        r matches Err(e) ==> err_in_obj(fields@, e),
{
    let inner = match obj_get(fields, key) {
        None => {
            return Ok(None);
        },
        Some(v) => v,
    };
    match inner {
        JsonValue::Null => Ok(None),
        JsonValue::Obj(g) => {
            let cr = match get_num_field(g, "r", JsonNumber::PosInt(0)) {
                Ok(x) => x,
                Err(e0) => {
                    let e = prefix_field(key, e0);
                    proof {
                        lemma_err_nested_obj(fields@, key@, *inner, e0, e);
                    }
                    return Err(e);
                },
            };
            let cg = match get_num_field(g, "g", JsonNumber::PosInt(0)) {
                Ok(x) => x,
                Err(e0) => {
                    let e = prefix_field(key, e0);
                    proof {
                        lemma_err_nested_obj(fields@, key@, *inner, e0, e);
                    }
                    return Err(e);
                },
            };
            let cb = match get_num_field(g, "b", JsonNumber::PosInt(0)) {
                Ok(x) => x,
                Err(e0) => {
                    let e = prefix_field(key, e0);
                    proof {
                        lemma_err_nested_obj(fields@, key@, *inner, e0, e);
                    }
                    return Err(e);
                },
            };
            let ca = match get_num_field(g, "a", JsonNumber::PosInt(0)) {
                Ok(x) => x,
                Err(e0) => {
                    let e = prefix_field(key, e0);
                    proof {
                        lemma_err_nested_obj(fields@, key@, *inner, e0, e);
                    }
                    return Err(e);
                },
            };
            Ok(Some(Color { r: cr, g: cg, b: cb, a: ca }))
        },
        _ => {
            let e = field_err(key, JsonKind::Object);
            proof {
                lemma_err_at_field(fields@, key@, e);
            }
            Err(e)
        },
    }
}

fn get_opt_style_field(fields: &Vec<(String, JsonValue)>, key: &str) -> (r: Result<
    Option<TypeStyle>,
    DecodeError,
>)
    ensures
        r matches Ok(st) ==> opt_style_field(fields@, key@) matches Some(sv) && opt_style_matches(
            st,
            sv,
        ),
        r is Err ==> opt_style_field(fields@, key@) is None,
        r matches Err(e) ==> err_in_obj(fields@, e),
{
    let inner = match obj_get(fields, key) {
        None => {
            return Ok(None);
        },
        Some(v) => v,
    };
    match inner {
        JsonValue::Null => Ok(None),
        JsonValue::Obj(g) => {
            let font_family = match get_opt_str_field(g, "fontFamily") {
                Ok(x) => x,
                Err(e0) => {
                    let e = prefix_field(key, e0);
                    proof {
                        lemma_err_nested_obj(fields@, key@, *inner, e0, e);
                    }
                    return Err(e);
                },
            };
            let font_size = match get_opt_num_field(g, "fontSize") {
                Ok(x) => x,
                Err(e0) => {
                    let e = prefix_field(key, e0);
                    proof {
                        lemma_err_nested_obj(fields@, key@, *inner, e0, e);
                    }
                    return Err(e);
                },
            };
            let font_weight = match get_opt_u16_field(g, "fontWeight") {
                Ok(x) => x,
                Err(e0) => {
                    let e = prefix_field(key, e0);
                    proof {
                        lemma_err_nested_obj(fields@, key@, *inner, e0, e);
                    }
                    return Err(e);
                },
            };
            Ok(Some(TypeStyle { font_family, font_size, font_weight }))
        },
        _ => {
            let e = field_err(key, JsonKind::Object);
            proof {
                lemma_err_at_field(fields@, key@, e);
            }
            Err(e)
        },
    }
}

// ---------------------------------------------------------------------------
// Paints and export settings.

/// Decode one paint; on failure the error is relative to the paint value
/// itself.
fn decode_paint(v: &JsonValue) -> (r: Result<Paint, DecodeError>)
    ensures
        r matches Ok(p) ==> paint_of(*v) matches Some(pv) && paint_matches(p, pv),
        r is Err ==> paint_of(*v) is None,
        r matches Err(e) ==> error_locates_mismatch(*v, e),
{
    let g = match v {
        JsonValue::Obj(g) => g,
        _ => {
            return Err(DecodeError { path: Vec::new(), expected: JsonKind::Object });
        },
    };
    let paint_type = match get_str_field(g, "type", "") {
        Ok(x) => x,
        Err(e) => {
            proof {
                lemma_err_in_obj(*v, e);
            }
            return Err(e);
        },
    };
    let color = match get_opt_color_field(g, "color") {
        Ok(x) => x,
        Err(e) => {
            proof {
                lemma_err_in_obj(*v, e);
            }
            return Err(e);
        },
    };
    let opacity = match get_num_field(g, "opacity", JsonNumber::PosInt(1)) {
        Ok(x) => x,
        Err(e) => {
            proof {
                lemma_err_in_obj(*v, e);
            }
            return Err(e);
        },
    };
    let blend_mode = match get_str_field(g, "blendMode", "") {
        Ok(x) => x,
        Err(e) => {
            proof {
                lemma_err_in_obj(*v, e);
            }
            return Err(e);
        },
    };
    Ok(Paint { paint_type, color, opacity, blend_mode })
}

fn get_paints_field(fields: &Vec<(String, JsonValue)>, key: &str) -> (r: Result<
    Vec<Paint>,
    DecodeError,
>)
    ensures
        r matches Ok(ps) ==> paints_field(fields@, key@) matches Some(pvs) && paints_match(
            ps@,
            pvs,
        ),
        r is Err ==> paints_field(fields@, key@) is None,
        r matches Err(e) ==> err_in_obj(fields@, e),
{
    let inner = match obj_get(fields, key) {
        None => {
            let ps: Vec<Paint> = Vec::new();
            return Ok(ps);
        },
        Some(v) => v,
    };
    match inner {
        JsonValue::Arr(items) => {
            let n = items.len();
            let mut ps: Vec<Paint> = Vec::new();
            let mut i: usize = 0;
            while i < n
                invariant
                    0 <= i <= n,
                    n == items@.len(),
                    spec_obj_get(fields@, key@) == Some(*inner),
                    inner is Arr,
                    (*inner)->Arr_0@ == items@,
                    ps@.len() == i,
                    forall|j: int|
                        0 <= j < i ==> paint_of(#[trigger] items@[j]) is Some && paint_matches(
                            ps@[j],
                            paint_of(items@[j]).unwrap(),
                        ),
                decreases n - i,
            {
                match decode_paint(&items[i]) {
                    Ok(p) => {
                        ps.push(p);
                    },
                    Err(e0) => {
                        let e1 = prefix_index(i, e0);
                        let e = prefix_field(key, e1);
                        proof {
                            lemma_err_at_index(items@, i as int, e0, e1);
                            lemma_err_nested_arr(fields@, key@, *inner, e1, e);
                        }
                        return Err(e);
                    },
                }
                i = i + 1;
            }
            proof {
                let pvs = Seq::new(items@.len(), |j: int| paint_of(items@[j]).unwrap());
                assert(paints_match(ps@, pvs));
            }
            Ok(ps)
        },
        _ => {
            let e = field_err(key, JsonKind::Array);
            proof {
                lemma_err_at_field(fields@, key@, e);
            }
            Err(e)
        },
    }
}

/// Decode one export setting; the error is relative to the setting value.
fn decode_export(v: &JsonValue) -> (r: Result<ExportSetting, DecodeError>)
    ensures
        r matches Ok(x) ==> export_of(*v) matches Some(xv) && export_matches(x, xv),
        r is Err ==> export_of(*v) is None,
        r matches Err(e) ==> error_locates_mismatch(*v, e),
{
    let g = match v {
        JsonValue::Obj(g) => g,
        _ => {
            return Err(DecodeError { path: Vec::new(), expected: JsonKind::Object });
        },
    };
    let suffix = match get_str_field(g, "suffix", "") {
        Ok(x) => x,
        Err(e) => {
            proof {
                lemma_err_in_obj(*v, e);
            }
            return Err(e);
        },
    };
    let format = match get_str_field(g, "format", "") {
        Ok(x) => x,
        Err(e) => {
            proof {
                lemma_err_in_obj(*v, e);
            }
            return Err(e);
        },
    };
    let constraint = match get_constraint_field(g, "constraint") {
        Ok(x) => x,
        Err(e) => {
            proof {
                lemma_err_in_obj(*v, e);
            }
            return Err(e);
        },
    };
    Ok(ExportSetting { suffix, format, constraint })
}

fn get_constraint_field(fields: &Vec<(String, JsonValue)>, key: &str) -> (r: Result<
    ExportConstraint,
    DecodeError,
>)
    ensures
        r matches Ok(x) ==> constraint_field(fields@, key@) == Some(x),
        r is Err ==> constraint_field(fields@, key@) is None,
        r matches Err(e) ==> err_in_obj(fields@, e),
{
    let inner = match obj_get(fields, key) {
        None => {
            return Ok(ExportConstraint { scale: JsonNumber::PosInt(1) });
        },
        Some(v) => v,
    };
    match inner {
        JsonValue::Obj(g) => {
            let scale = match get_num_field(g, "scale", JsonNumber::PosInt(1)) {
                Ok(x) => x,
                Err(e0) => {
                    let e = prefix_field(key, e0);
                    proof {
                        lemma_err_nested_obj(fields@, key@, *inner, e0, e);
                    }
                    return Err(e);
                },
            };
            Ok(ExportConstraint { scale })
        },
        _ => {
            let e = field_err(key, JsonKind::Object);
            proof {
                lemma_err_at_field(fields@, key@, e);
            }
            Err(e)
        },
    }
}

fn get_exports_field(fields: &Vec<(String, JsonValue)>, key: &str) -> (r: Result<
    Vec<ExportSetting>,
    DecodeError,
>)
    ensures
        r matches Ok(xs) ==> exports_field(fields@, key@) matches Some(xvs) && exports_match(
            xs@,
            xvs,
        ),
        r is Err ==> exports_field(fields@, key@) is None,
        r matches Err(e) ==> err_in_obj(fields@, e),
{
    let inner = match obj_get(fields, key) {
        None => {
            let xs: Vec<ExportSetting> = Vec::new();
            return Ok(xs);
        },
        Some(v) => v,
    };
    match inner {
        JsonValue::Arr(items) => {
            let n = items.len();
            let mut xs: Vec<ExportSetting> = Vec::new();
            let mut i: usize = 0;
            while i < n
                invariant
                    0 <= i <= n,
                    n == items@.len(),
                    spec_obj_get(fields@, key@) == Some(*inner),
                    inner is Arr,
                    (*inner)->Arr_0@ == items@,
                    xs@.len() == i,
                    forall|j: int|
                        0 <= j < i ==> export_of(#[trigger] items@[j]) is Some && export_matches(
                            xs@[j],
                            export_of(items@[j]).unwrap(),
                        ),
                decreases n - i,
            {
                match decode_export(&items[i]) {
                    Ok(x) => {
                        xs.push(x);
                    },
                    Err(e0) => {
                        let e1 = prefix_index(i, e0);
                        let e = prefix_field(key, e1);
                        proof {
                            lemma_err_at_index(items@, i as int, e0, e1);
                            lemma_err_nested_arr(fields@, key@, *inner, e1, e);
                        }
                        return Err(e);
                    },
                }
                i = i + 1;
            }
            proof {
                let xvs = Seq::new(items@.len(), |j: int| export_of(items@[j]).unwrap());
                assert(exports_match(xs@, xvs));
            }
            Ok(xs)
        },
        _ => {
            let e = field_err(key, JsonKind::Array);
            proof {
                lemma_err_at_field(fields@, key@, e);
            }
            Err(e)
        },
    }
}


// ---------------------------------------------------------------------------
// Child lists.

proof fn lemma_nodes_decode_push(vs: Seq<JsonValue>, ns: Seq<Node>, v2: JsonValue, n2: Node)
    requires
        nodes_decode_to(vs, ns),
        decodes_to(v2, n2),
    ensures
        nodes_decode_to(vs.push(v2), ns.push(n2)),
    decreases ns.len(),
{
    if ns.len() == 0 {
        assert(vs.push(v2)[0] == v2);
        assert(ns.push(n2)[0] == n2);
        assert(vs.push(v2).skip(1) =~= Seq::<JsonValue>::empty());
        assert(ns.push(n2).skip(1) =~= Seq::<Node>::empty());
        assert(nodes_decode_to(Seq::<JsonValue>::empty(), Seq::<Node>::empty()));
    } else {
        lemma_nodes_decode_push(vs.skip(1), ns.skip(1), v2, n2);
        assert(vs.push(v2).skip(1) =~= vs.skip(1).push(v2));
        assert(ns.push(n2).skip(1) =~= ns.skip(1).push(n2));
        assert(vs.push(v2)[0] == vs[0]);
        assert(ns.push(n2)[0] == ns[0]);
    }
}

proof fn lemma_nodes_decode_index(vs: Seq<JsonValue>, ns: Seq<Node>, i: int)
    requires
        nodes_decode_to(vs, ns),
        0 <= i < ns.len(),
    ensures
        decodes_to(vs[i], ns[i]),
    decreases i,
{
    if i > 0 {
        lemma_nodes_decode_index(vs.skip(1), ns.skip(1), i - 1);
        assert(vs.skip(1)[i - 1] == vs[i]);
        assert(ns.skip(1)[i - 1] == ns[i]);
    }
}

/// Decode a list of child values, element-wise and in order.
fn decode_nodes(items: &Vec<JsonValue>) -> (r: Result<Vec<Node>, DecodeError>)
    ensures
        r matches Ok(ns) ==> nodes_decode_to(items@, ns@),
        r is Ok <==> nodes_decodable(items@),
        r is Err ==> forall|ns: Seq<Node>| !nodes_decode_to(items@, ns),
        r matches Err(e) ==> err_in_arr(items@, e),
    decreases items@, 3int,
{
    let n = items.len();
    let mut ns: Vec<Node> = Vec::new();
    proof {
        assert(items@.take(0) =~= Seq::<JsonValue>::empty());
        assert(nodes_decodable(Seq::<JsonValue>::empty()));
    }
    let mut i: usize = 0;
    while i < n
        invariant
            0 <= i <= n,
            n == items@.len(),
            ns@.len() == i,
            nodes_decode_to(items@.take(i as int), ns@),
            nodes_decodable(items@.take(i as int)),
        decreases n - i,
    {
        proof {
            assert(decreases_to!(items@ => items@[i as int]));
        }
        match decode_node(&items[i]) {
            Ok(node) => {
                proof {
                    lemma_nodes_decode_push(items@.take(i as int), ns@, items@[i as int], node);
                    lemma_nodes_decodable_push(items@.take(i as int), items@[i as int]);
                    assert(items@.take(i as int).push(items@[i as int]) =~= items@.take(i + 1));
                }
                ns.push(node);
            },
            Err(e0) => {
                let e = prefix_index(i, e0);
                proof {
                    lemma_err_at_index(items@, i as int, e0, e);
                    assert forall|ns2: Seq<Node>| !nodes_decode_to(items@, ns2) by {
                        if nodes_decode_to(items@, ns2) {
                            lemma_nodes_decode_index(items@, ns2, i as int);
                        }
                    }
                    if nodes_decodable(items@) {
                        lemma_nodes_decodable_index(items@, i as int);
                    }
                }
                return Err(e);
            },
        }
        i = i + 1;
    }
    proof {
        assert(items@.take(n as int) =~= items@);
    }
    Ok(ns)
}

/// Decode the `children` field of an object: absent means no children, a
/// present value must be an array of nodes.
fn decode_children(v: &JsonValue) -> (r: Result<Vec<Node>, DecodeError>)
    requires
        v is Obj,
    ensures
        r matches Ok(ns) ==> children_ok(v->Obj_0@, ns@),
        r is Ok <==> children_field_decodable(*v),
        r is Err ==> forall|ns: Seq<Node>| !children_ok(v->Obj_0@, ns),
        r matches Err(e) ==> err_in_obj(v->Obj_0@, e),
    decreases *v, 1int,
{
    proof {
        reveal_with_fuel(children_ok, 3);
        reveal_with_fuel(children_field_decodable, 2);
    }
    let flds = match v {
        JsonValue::Obj(flds) => flds,
        _ => {
            return Err(DecodeError { path: Vec::new(), expected: JsonKind::Object });
        },
    };
    let cv = match obj_get(flds, "children") {
        None => {
            let ns: Vec<Node> = Vec::new();
            return Ok(ns);
        },
        Some(cv) => cv,
    };
    match cv {
        JsonValue::Arr(items) => {
            proof {
                crate::json::lemma_obj_get_decreases(*v, "children"@);
                assert(decreases_to!(*cv => (*cv)->Arr_0));
                assert(decreases_to!((*cv)->Arr_0 => (*cv)->Arr_0@));
            }
            match decode_nodes(items) {
                Ok(ns) => Ok(ns),
                Err(e0) => {
                    let e = prefix_field("children", e0);
                    proof {
                        lemma_err_nested_arr(flds@, "children"@, *cv, e0, e);
                        assert forall|ns: Seq<Node>| !children_ok((*v)->Obj_0@, ns) by {
                            reveal_with_fuel(children_ok, 2);
                            assert(children_vals((*v)->Obj_0@) == Some(items@));
                            if children_ok((*v)->Obj_0@, ns) {
                                assert(nodes_decode_to(items@, ns));
                            }
                        }
                    }
                    Err(e)
                },
            }
        },
        _ => {
            let e = field_err("children", JsonKind::Array);
            proof {
                lemma_err_at_field(flds@, "children"@, e);
                assert forall|ns: Seq<Node>| !children_ok((*v)->Obj_0@, ns) by {
                    reveal_with_fuel(children_ok, 2);
                    assert(children_vals((*v)->Obj_0@) is None);
                }
            }
            Err(e)
        },
    }
}

// ---------------------------------------------------------------------------
// Tag dispatch and shared attributes.

/// The object's type tag, `"UNKNOWN"` when absent or not a string.
fn get_tag(fields: &Vec<(String, JsonValue)>) -> (r: String)
    ensures
        r@ == tag_of(fields@),
{
    match obj_get(fields, "type") {
        Some(v) => match v {
            JsonValue::Str(s) => s.clone(),
            _ => "UNKNOWN".to_owned(),
        },
        None => "UNKNOWN".to_owned(),
    }
}

fn tag_is_shape(tag: &str) -> (r: bool)
    ensures
        r == is_shape_tag(tag@),
{
    str_eq(tag, "VECTOR") || str_eq(tag, "ELLIPSE") || str_eq(tag, "LINE") || str_eq(
        tag,
        "REGULAR_POLYGON",
    ) || str_eq(tag, "STAR") || str_eq(tag, "SHAPE_WITH_TEXT") || str_eq(tag, "CONNECTOR")
        || str_eq(tag, "WIDGET")
}

/// Decode the attributes every node shares; a present non-string `type`
/// is a mismatch at that field.
fn decode_base(fields: &Vec<(String, JsonValue)>) -> (r: Result<NodeBase, DecodeError>)
    ensures
        r matches Ok(b) ==> base_matches(fields@, b),
        r is Ok <==> base_ok(fields@),
        r is Err ==> forall|b: NodeBase| !base_matches(fields@, b),
        r matches Err(e) ==> err_in_obj(fields@, e),
{
    let node_type: String = match obj_get(fields, "type") {
        Some(v) => match v {
            JsonValue::Str(t) => t.clone(),
            _ => {
                let e = field_err("type", JsonKind::Text);
                proof {
                    lemma_err_at_field(fields@, "type"@, e);
                }
                return Err(e);
            },
        },
        None => "UNKNOWN".to_owned(),
    };
    let id = match get_str_field(fields, "id", "") {
        Ok(x) => x,
        Err(e) => {
            return Err(e);
        },
    };
    let name = match get_str_field(fields, "name", "") {
        Ok(x) => x,
        Err(e) => {
            return Err(e);
        },
    };
    let visible = match get_bool_field(fields, "visible", true) {
        Ok(x) => x,
        Err(e) => {
            return Err(e);
        },
    };
    let locked = match get_bool_field(fields, "locked", false) {
        Ok(x) => x,
        Err(e) => {
            return Err(e);
        },
    };
    Ok(NodeBase { node_type, id, name, visible, locked })
}


// ---------------------------------------------------------------------------
// Nodes and documents.  One decoder per payload variant, plus the tag
// dispatch.

fn decode_canvas(v: &JsonValue, flds: &Vec<(String, JsonValue)>, base: NodeBase) -> (r: Result<
    Node,
    DecodeError,
>)
    requires
        v is Obj,
        (*v)->Obj_0 == *flds,
        tag_of(flds@) == "CANVAS"@,
        base_matches(flds@, base),
    ensures
        r matches Ok(n) ==> decodes_to(*v, n),
        r is Ok <==> node_decodable(*v),
        r is Err ==> forall|n: Node| !decodes_to(*v, n),
        r matches Err(e) ==> error_locates_mismatch(*v, e),
    decreases *v, 2int,
{
    proof {
        reveal_with_fuel(decodes_to, 4);
        reveal_with_fuel(node_decodable, 2);
    }
    let background_color = match get_opt_color_field(flds, "backgroundColor") {
        Ok(x) => x,
        Err(e) => {
            proof {
                lemma_err_in_obj(*v, e);
            }
            return Err(e);
        },
    };
    let export_settings = match get_exports_field(flds, "exportSettings") {
        Ok(x) => x,
        Err(e) => {
            proof {
                lemma_err_in_obj(*v, e);
            }
            return Err(e);
        },
    };
    let children = match decode_children(v) {
        Ok(ns) => ns,
        Err(e) => {
            proof {
                lemma_err_in_obj(*v, e);
                assert forall|n2: Node| !decodes_to(*v, n2) by {
                    reveal_with_fuel(decodes_to, 4);
                    if decodes_to(*v, n2) {
                        match n2.data {
                            NodeData::Canvas { children: cs, .. } => {
                                assert(children_ok(flds@, cs@));
                            },
                            _ => {},
                        }
                    }
                }
            }
            return Err(e);
        },
    };
    Ok(Node {
        base,
        data: NodeData::Canvas { background_color, export_settings, children },
    })
}

fn decode_section(v: &JsonValue, flds: &Vec<(String, JsonValue)>, base: NodeBase) -> (r: Result<
    Node,
    DecodeError,
>)
    requires
        v is Obj,
        (*v)->Obj_0 == *flds,
        tag_of(flds@) == "SECTION"@,
        tag_of(flds@) != "CANVAS"@,
        base_matches(flds@, base),
    ensures
        r matches Ok(n) ==> decodes_to(*v, n),
        r is Ok <==> node_decodable(*v),
        r is Err ==> forall|n: Node| !decodes_to(*v, n),
        r matches Err(e) ==> error_locates_mismatch(*v, e),
    decreases *v, 2int,
{
    proof {
        reveal_with_fuel(decodes_to, 4);
        reveal_with_fuel(node_decodable, 2);
    }
    let absolute_bounding_box = match get_opt_bbox_field(flds, "absoluteBoundingBox") {
        Ok(x) => x,
        Err(e) => {
            proof {
                lemma_err_in_obj(*v, e);
            }
            return Err(e);
        },
    };
    let absolute_render_bounds = match get_opt_bbox_field(flds, "absoluteRenderBounds") {
        Ok(x) => x,
        Err(e) => {
            proof {
                lemma_err_in_obj(*v, e);
            }
            return Err(e);
        },
    };
    let fills = match get_paints_field(flds, "fills") {
        Ok(x) => x,
        Err(e) => {
            proof {
                lemma_err_in_obj(*v, e);
            }
            return Err(e);
        },
    };
    let strokes = match get_paints_field(flds, "strokes") {
        Ok(x) => x,
        Err(e) => {
            proof {
                lemma_err_in_obj(*v, e);
            }
            return Err(e);
        },
    };
    let stroke_weight = match get_num_field(flds, "strokeWeight", JsonNumber::PosInt(0)) {
        Ok(x) => x,
        Err(e) => {
            proof {
                lemma_err_in_obj(*v, e);
            }
            return Err(e);
        },
    };
    let stroke_align = match get_str_field(flds, "strokeAlign", "") {
        Ok(x) => x,
        Err(e) => {
            proof {
                lemma_err_in_obj(*v, e);
            }
            return Err(e);
        },
    };
    let section_contents_hidden = match get_bool_field(flds, "sectionContentsHidden", false) {
        Ok(x) => x,
        Err(e) => {
            proof {
                lemma_err_in_obj(*v, e);
            }
            return Err(e);
        },
    };
    let children = match decode_children(v) {
        Ok(ns) => ns,
        Err(e) => {
            proof {
                lemma_err_in_obj(*v, e);
                assert forall|n2: Node| !decodes_to(*v, n2) by {
                    reveal_with_fuel(decodes_to, 4);
                    if decodes_to(*v, n2) {
                        match n2.data {
                            NodeData::Section { children: cs, .. } => {
                                assert(children_ok(flds@, cs@));
                            },
                            _ => {},
                        }
                    }
                }
            }
            return Err(e);
        },
    };
    Ok(Node {
        base,
        data: NodeData::Section {
            absolute_bounding_box,
            absolute_render_bounds,
            fills,
            strokes,
            stroke_weight,
            stroke_align,
            section_contents_hidden,
            children,
        },
    })
}

fn decode_frame(v: &JsonValue, flds: &Vec<(String, JsonValue)>, base: NodeBase) -> (r: Result<
    Node,
    DecodeError,
>)
    requires
        v is Obj,
        (*v)->Obj_0 == *flds,
        tag_of(flds@) == "FRAME"@,
        tag_of(flds@) != "CANVAS"@,
        tag_of(flds@) != "SECTION"@,
        base_matches(flds@, base),
    ensures
        r matches Ok(n) ==> decodes_to(*v, n),
        r is Ok <==> node_decodable(*v),
        r is Err ==> forall|n: Node| !decodes_to(*v, n),
        r matches Err(e) ==> error_locates_mismatch(*v, e),
    decreases *v, 2int,
{
    proof {
        reveal_with_fuel(decodes_to, 4);
        reveal_with_fuel(node_decodable, 2);
    }
    let absolute_bounding_box = match get_opt_bbox_field(flds, "absoluteBoundingBox") {
        Ok(x) => x,
        Err(e) => {
            proof {
                lemma_err_in_obj(*v, e);
            }
            return Err(e);
        },
    };
    let fills = match get_paints_field(flds, "fills") {
        Ok(x) => x,
        Err(e) => {
            proof {
                lemma_err_in_obj(*v, e);
            }
            return Err(e);
        },
    };
    let clips_content = match get_bool_field(flds, "clipsContent", false) {
        Ok(x) => x,
        Err(e) => {
            proof {
                lemma_err_in_obj(*v, e);
            }
            return Err(e);
        },
    };
    let children = match decode_children(v) {
        Ok(ns) => ns,
        Err(e) => {
            proof {
                lemma_err_in_obj(*v, e);
                assert forall|n2: Node| !decodes_to(*v, n2) by {
                    reveal_with_fuel(decodes_to, 4);
                    if decodes_to(*v, n2) {
                        match n2.data {
                            NodeData::Frame { children: cs, .. } => {
                                assert(children_ok(flds@, cs@));
                            },
                            _ => {},
                        }
                    }
                }
            }
            return Err(e);
        },
    };
    Ok(Node {
        base,
        data: NodeData::Frame { absolute_bounding_box, fills, clips_content, children },
    })
}

fn decode_group(v: &JsonValue, flds: &Vec<(String, JsonValue)>, base: NodeBase) -> (r: Result<
    Node,
    DecodeError,
>)
    requires
        v is Obj,
        (*v)->Obj_0 == *flds,
        tag_of(flds@) == "GROUP"@,
        tag_of(flds@) != "CANVAS"@,
        tag_of(flds@) != "SECTION"@,
        tag_of(flds@) != "FRAME"@,
        base_matches(flds@, base),
    ensures
        r matches Ok(n) ==> decodes_to(*v, n),
        r is Ok <==> node_decodable(*v),
        r is Err ==> forall|n: Node| !decodes_to(*v, n),
        r matches Err(e) ==> error_locates_mismatch(*v, e),
    decreases *v, 2int,
{
    proof {
        reveal_with_fuel(decodes_to, 4);
        reveal_with_fuel(node_decodable, 2);
    }
    let absolute_bounding_box = match get_opt_bbox_field(flds, "absoluteBoundingBox") {
        Ok(x) => x,
        Err(e) => {
            proof {
                lemma_err_in_obj(*v, e);
            }
            return Err(e);
        },
    };
    let children = match decode_children(v) {
        Ok(ns) => ns,
        Err(e) => {
            proof {
                lemma_err_in_obj(*v, e);
                assert forall|n2: Node| !decodes_to(*v, n2) by {
                    reveal_with_fuel(decodes_to, 4);
                    if decodes_to(*v, n2) {
                        match n2.data {
                            NodeData::Group { children: cs, .. } => {
                                assert(children_ok(flds@, cs@));
                            },
                            _ => {},
                        }
                    }
                }
            }
            return Err(e);
        },
    };
    Ok(Node { base, data: NodeData::Group { absolute_bounding_box, children } })
}

fn decode_text(v: &JsonValue, flds: &Vec<(String, JsonValue)>, base: NodeBase) -> (r: Result<
    Node,
    DecodeError,
>)
    requires
        v is Obj,
        (*v)->Obj_0 == *flds,
        tag_of(flds@) == "TEXT"@,
        tag_of(flds@) != "CANVAS"@,
        tag_of(flds@) != "SECTION"@,
        tag_of(flds@) != "FRAME"@,
        tag_of(flds@) != "GROUP"@,
        base_matches(flds@, base),
    ensures
        r matches Ok(n) ==> decodes_to(*v, n),
        r is Ok <==> node_decodable(*v),
        r is Err ==> forall|n: Node| !decodes_to(*v, n),
        r matches Err(e) ==> error_locates_mismatch(*v, e),
    decreases *v, 2int,
{
    proof {
        reveal_with_fuel(decodes_to, 4);
        reveal_with_fuel(node_decodable, 2);
    }
    let characters = match get_str_field(flds, "characters", "") {
        Ok(x) => x,
        Err(e) => {
            proof {
                lemma_err_in_obj(*v, e);
            }
            return Err(e);
        },
    };
    let absolute_bounding_box = match get_opt_bbox_field(flds, "absoluteBoundingBox") {
        Ok(x) => x,
        Err(e) => {
            proof {
                lemma_err_in_obj(*v, e);
            }
            return Err(e);
        },
    };
    let style = match get_opt_style_field(flds, "style") {
        Ok(x) => x,
        Err(e) => {
            proof {
                lemma_err_in_obj(*v, e);
            }
            return Err(e);
        },
    };
    Ok(Node { base, data: NodeData::Text { characters, absolute_bounding_box, style } })
}

fn decode_rectangle(v: &JsonValue, flds: &Vec<(String, JsonValue)>, base: NodeBase) -> (r: Result<
    Node,
    DecodeError,
>)
    requires
        v is Obj,
        (*v)->Obj_0 == *flds,
        tag_of(flds@) == "RECTANGLE"@,
        tag_of(flds@) != "CANVAS"@,
        tag_of(flds@) != "SECTION"@,
        tag_of(flds@) != "FRAME"@,
        tag_of(flds@) != "GROUP"@,
        tag_of(flds@) != "TEXT"@,
        base_matches(flds@, base),
    ensures
        r matches Ok(n) ==> decodes_to(*v, n),
        r is Ok <==> node_decodable(*v),
        r is Err ==> forall|n: Node| !decodes_to(*v, n),
        r matches Err(e) ==> error_locates_mismatch(*v, e),
    decreases *v, 2int,
{
    proof {
        reveal_with_fuel(decodes_to, 4);
        reveal_with_fuel(node_decodable, 2);
    }
    let absolute_bounding_box = match get_opt_bbox_field(flds, "absoluteBoundingBox") {
        Ok(x) => x,
        Err(e) => {
            proof {
                lemma_err_in_obj(*v, e);
            }
            return Err(e);
        },
    };
    let corner_radius = match get_num_field(flds, "cornerRadius", JsonNumber::PosInt(0)) {
        Ok(x) => x,
        Err(e) => {
            proof {
                lemma_err_in_obj(*v, e);
            }
            return Err(e);
        },
    };
    let fills = match get_paints_field(flds, "fills") {
        Ok(x) => x,
        Err(e) => {
            proof {
                lemma_err_in_obj(*v, e);
            }
            return Err(e);
        },
    };
    Ok(Node {
        base,
        data: NodeData::Rectangle { absolute_bounding_box, corner_radius, fills },
    })
}

fn decode_shape(v: &JsonValue, flds: &Vec<(String, JsonValue)>, base: NodeBase) -> (r: Result<
    Node,
    DecodeError,
>)
    requires
        v is Obj,
        (*v)->Obj_0 == *flds,
        is_shape_tag(tag_of(flds@)),
        tag_of(flds@) != "CANVAS"@,
        tag_of(flds@) != "SECTION"@,
        tag_of(flds@) != "FRAME"@,
        tag_of(flds@) != "GROUP"@,
        tag_of(flds@) != "TEXT"@,
        tag_of(flds@) != "RECTANGLE"@,
        base_matches(flds@, base),
    ensures
        r matches Ok(n) ==> decodes_to(*v, n),
        r is Ok <==> node_decodable(*v),
        r is Err ==> forall|n: Node| !decodes_to(*v, n),
        r matches Err(e) ==> error_locates_mismatch(*v, e),
    decreases *v, 2int,
{
    proof {
        reveal_with_fuel(decodes_to, 4);
        reveal_with_fuel(node_decodable, 2);
    }
    let absolute_bounding_box = match get_opt_bbox_field(flds, "absoluteBoundingBox") {
        Ok(x) => x,
        Err(e) => {
            proof {
                lemma_err_in_obj(*v, e);
            }
            return Err(e);
        },
    };
    let fills = match get_paints_field(flds, "fills") {
        Ok(x) => x,
        Err(e) => {
            proof {
                lemma_err_in_obj(*v, e);
            }
            return Err(e);
        },
    };
    Ok(Node { base, data: NodeData::Shape { absolute_bounding_box, fills } })
}

fn decode_component(v: &JsonValue, flds: &Vec<(String, JsonValue)>, base: NodeBase) -> (r: Result<
    Node,
    DecodeError,
>)
    requires
        v is Obj,
        (*v)->Obj_0 == *flds,
        tag_of(flds@) == "COMPONENT"@,
        tag_of(flds@) != "CANVAS"@,
        tag_of(flds@) != "SECTION"@,
        tag_of(flds@) != "FRAME"@,
        tag_of(flds@) != "GROUP"@,
        tag_of(flds@) != "TEXT"@,
        tag_of(flds@) != "RECTANGLE"@,
        !is_shape_tag(tag_of(flds@)),
        base_matches(flds@, base),
    ensures
        r matches Ok(n) ==> decodes_to(*v, n),
        r is Ok <==> node_decodable(*v),
        r is Err ==> forall|n: Node| !decodes_to(*v, n),
        r matches Err(e) ==> error_locates_mismatch(*v, e),
    decreases *v, 2int,
{
    proof {
        reveal_with_fuel(decodes_to, 4);
        reveal_with_fuel(node_decodable, 2);
    }
    let component_key = match get_opt_str_field(flds, "componentKey") {
        Ok(x) => x,
        Err(e) => {
            proof {
                lemma_err_in_obj(*v, e);
            }
            return Err(e);
        },
    };
    let absolute_bounding_box = match get_opt_bbox_field(flds, "absoluteBoundingBox") {
        Ok(x) => x,
        Err(e) => {
            proof {
                lemma_err_in_obj(*v, e);
            }
            return Err(e);
        },
    };
    let children = match decode_children(v) {
        Ok(ns) => ns,
        Err(e) => {
            proof {
                lemma_err_in_obj(*v, e);
                assert forall|n2: Node| !decodes_to(*v, n2) by {
                    reveal_with_fuel(decodes_to, 4);
                    if decodes_to(*v, n2) {
                        match n2.data {
                            NodeData::Component { children: cs, .. } => {
                                assert(children_ok(flds@, cs@));
                            },
                            _ => {},
                        }
                    }
                }
            }
            return Err(e);
        },
    };
    Ok(Node {
        base,
        data: NodeData::Component { component_key, absolute_bounding_box, children },
    })
}

fn decode_component_set(v: &JsonValue, flds: &Vec<(String, JsonValue)>, base: NodeBase) -> (r: Result<
    Node,
    DecodeError,
>)
    requires
        v is Obj,
        (*v)->Obj_0 == *flds,
        tag_of(flds@) == "COMPONENT_SET"@,
        tag_of(flds@) != "CANVAS"@,
        tag_of(flds@) != "SECTION"@,
        tag_of(flds@) != "FRAME"@,
        tag_of(flds@) != "GROUP"@,
        tag_of(flds@) != "TEXT"@,
        tag_of(flds@) != "RECTANGLE"@,
        !is_shape_tag(tag_of(flds@)),
        tag_of(flds@) != "COMPONENT"@,
        base_matches(flds@, base),
    ensures
        r matches Ok(n) ==> decodes_to(*v, n),
        r is Ok <==> node_decodable(*v),
        r is Err ==> forall|n: Node| !decodes_to(*v, n),
        r matches Err(e) ==> error_locates_mismatch(*v, e),
    decreases *v, 2int,
{
    proof {
        reveal_with_fuel(decodes_to, 4);
        reveal_with_fuel(node_decodable, 2);
    }
    let component_key = match get_opt_str_field(flds, "componentKey") {
        Ok(x) => x,
        Err(e) => {
            proof {
                lemma_err_in_obj(*v, e);
            }
            return Err(e);
        },
    };
    let absolute_bounding_box = match get_opt_bbox_field(flds, "absoluteBoundingBox") {
        Ok(x) => x,
        Err(e) => {
            proof {
                lemma_err_in_obj(*v, e);
            }
            return Err(e);
        },
    };
    let children = match decode_children(v) {
        Ok(ns) => ns,
        Err(e) => {
            proof {
                lemma_err_in_obj(*v, e);
                assert forall|n2: Node| !decodes_to(*v, n2) by {
                    reveal_with_fuel(decodes_to, 4);
                    if decodes_to(*v, n2) {
                        match n2.data {
                            NodeData::ComponentSet { children: cs, .. } => {
                                assert(children_ok(flds@, cs@));
                            },
                            _ => {},
                        }
                    }
                }
            }
            return Err(e);
        },
    };
    Ok(Node {
        base,
        data: NodeData::ComponentSet { component_key, absolute_bounding_box, children },
    })
}

fn decode_instance(v: &JsonValue, flds: &Vec<(String, JsonValue)>, base: NodeBase) -> (r: Result<
    Node,
    DecodeError,
>)
    requires
        v is Obj,
        (*v)->Obj_0 == *flds,
        tag_of(flds@) == "INSTANCE"@,
        tag_of(flds@) != "CANVAS"@,
        tag_of(flds@) != "SECTION"@,
        tag_of(flds@) != "FRAME"@,
        tag_of(flds@) != "GROUP"@,
        tag_of(flds@) != "TEXT"@,
        tag_of(flds@) != "RECTANGLE"@,
        !is_shape_tag(tag_of(flds@)),
        tag_of(flds@) != "COMPONENT"@,
        tag_of(flds@) != "COMPONENT_SET"@,
        base_matches(flds@, base),
    ensures
        r matches Ok(n) ==> decodes_to(*v, n),
        r is Ok <==> node_decodable(*v),
        r is Err ==> forall|n: Node| !decodes_to(*v, n),
        r matches Err(e) ==> error_locates_mismatch(*v, e),
    decreases *v, 2int,
{
    proof {
        reveal_with_fuel(decodes_to, 4);
        reveal_with_fuel(node_decodable, 2);
    }
    let component_id = match get_str_field(flds, "componentId", "") {
        Ok(x) => x,
        Err(e) => {
            proof {
                lemma_err_in_obj(*v, e);
            }
            return Err(e);
        },
    };
    let absolute_bounding_box = match get_opt_bbox_field(flds, "absoluteBoundingBox") {
        Ok(x) => x,
        Err(e) => {
            proof {
                lemma_err_in_obj(*v, e);
            }
            return Err(e);
        },
    };
    let children = match decode_children(v) {
        Ok(ns) => ns,
        Err(e) => {
            proof {
                lemma_err_in_obj(*v, e);
                assert forall|n2: Node| !decodes_to(*v, n2) by {
                    reveal_with_fuel(decodes_to, 4);
                    if decodes_to(*v, n2) {
                        match n2.data {
                            NodeData::Instance { children: cs, .. } => {
                                assert(children_ok(flds@, cs@));
                            },
                            _ => {},
                        }
                    }
                }
            }
            return Err(e);
        },
    };
    Ok(Node {
        base,
        data: NodeData::Instance { component_id, absolute_bounding_box, children },
    })
}

fn decode_sticky(v: &JsonValue, flds: &Vec<(String, JsonValue)>, base: NodeBase) -> (r: Result<
    Node,
    DecodeError,
>)
    requires
        v is Obj,
        (*v)->Obj_0 == *flds,
        tag_of(flds@) == "STICKY"@,
        tag_of(flds@) != "CANVAS"@,
        tag_of(flds@) != "SECTION"@,
        tag_of(flds@) != "FRAME"@,
        tag_of(flds@) != "GROUP"@,
        tag_of(flds@) != "TEXT"@,
        tag_of(flds@) != "RECTANGLE"@,
        !is_shape_tag(tag_of(flds@)),
        tag_of(flds@) != "COMPONENT"@,
        tag_of(flds@) != "COMPONENT_SET"@,
        tag_of(flds@) != "INSTANCE"@,
        base_matches(flds@, base),
    ensures
        r matches Ok(n) ==> decodes_to(*v, n),
        r is Ok <==> node_decodable(*v),
        r is Err ==> forall|n: Node| !decodes_to(*v, n),
        r matches Err(e) ==> error_locates_mismatch(*v, e),
    decreases *v, 2int,
{
    proof {
        reveal_with_fuel(decodes_to, 4);
        reveal_with_fuel(node_decodable, 2);
    }
    let characters = match get_str_field(flds, "characters", "") {
        Ok(x) => x,
        Err(e) => {
            proof {
                lemma_err_in_obj(*v, e);
            }
            return Err(e);
        },
    };
    let absolute_bounding_box = match get_opt_bbox_field(flds, "absoluteBoundingBox") {
        Ok(x) => x,
        Err(e) => {
            proof {
                lemma_err_in_obj(*v, e);
            }
            return Err(e);
        },
    };
    let fills = match get_paints_field(flds, "fills") {
        Ok(x) => x,
        Err(e) => {
            proof {
                lemma_err_in_obj(*v, e);
            }
            return Err(e);
        },
    };
    Ok(Node { base, data: NodeData::Sticky { characters, absolute_bounding_box, fills } })
}

fn decode_boolean_operation(v: &JsonValue, flds: &Vec<(String, JsonValue)>, base: NodeBase) -> (r: Result<
    Node,
    DecodeError,
>)
    requires
        v is Obj,
        (*v)->Obj_0 == *flds,
        tag_of(flds@) == "BOOLEAN_OPERATION"@,
        tag_of(flds@) != "CANVAS"@,
        tag_of(flds@) != "SECTION"@,
        tag_of(flds@) != "FRAME"@,
        tag_of(flds@) != "GROUP"@,
        tag_of(flds@) != "TEXT"@,
        tag_of(flds@) != "RECTANGLE"@,
        !is_shape_tag(tag_of(flds@)),
        tag_of(flds@) != "COMPONENT"@,
        tag_of(flds@) != "COMPONENT_SET"@,
        tag_of(flds@) != "INSTANCE"@,
        tag_of(flds@) != "STICKY"@,
        base_matches(flds@, base),
    ensures
        r matches Ok(n) ==> decodes_to(*v, n),
        r is Ok <==> node_decodable(*v),
        r is Err ==> forall|n: Node| !decodes_to(*v, n),
        r matches Err(e) ==> error_locates_mismatch(*v, e),
    decreases *v, 2int,
{
    proof {
        reveal_with_fuel(decodes_to, 4);
        reveal_with_fuel(node_decodable, 2);
    }
    let absolute_bounding_box = match get_opt_bbox_field(flds, "absoluteBoundingBox") {
        Ok(x) => x,
        Err(e) => {
            proof {
                lemma_err_in_obj(*v, e);
            }
            return Err(e);
        },
    };
    let fills = match get_paints_field(flds, "fills") {
        Ok(x) => x,
        Err(e) => {
            proof {
                lemma_err_in_obj(*v, e);
            }
            return Err(e);
        },
    };
    let children = match decode_children(v) {
        Ok(ns) => ns,
        Err(e) => {
            proof {
                lemma_err_in_obj(*v, e);
                assert forall|n2: Node| !decodes_to(*v, n2) by {
                    reveal_with_fuel(decodes_to, 4);
                    if decodes_to(*v, n2) {
                        match n2.data {
                            NodeData::BooleanOperation { children: cs, .. } => {
                                assert(children_ok(flds@, cs@));
                            },
                            _ => {},
                        }
                    }
                }
            }
            return Err(e);
        },
    };
    Ok(Node {
        base,
        data: NodeData::BooleanOperation { absolute_bounding_box, fills, children },
    })
}

fn decode_table(v: &JsonValue, flds: &Vec<(String, JsonValue)>, base: NodeBase) -> (r: Result<
    Node,
    DecodeError,
>)
    requires
        v is Obj,
        (*v)->Obj_0 == *flds,
        tag_of(flds@) == "TABLE"@,
        tag_of(flds@) != "CANVAS"@,
        tag_of(flds@) != "SECTION"@,
        tag_of(flds@) != "FRAME"@,
        tag_of(flds@) != "GROUP"@,
        tag_of(flds@) != "TEXT"@,
        tag_of(flds@) != "RECTANGLE"@,
        !is_shape_tag(tag_of(flds@)),
        tag_of(flds@) != "COMPONENT"@,
        tag_of(flds@) != "COMPONENT_SET"@,
        tag_of(flds@) != "INSTANCE"@,
        tag_of(flds@) != "STICKY"@,
        tag_of(flds@) != "BOOLEAN_OPERATION"@,
        base_matches(flds@, base),
    ensures
        r matches Ok(n) ==> decodes_to(*v, n),
        r is Ok <==> node_decodable(*v),
        r is Err ==> forall|n: Node| !decodes_to(*v, n),
        r matches Err(e) ==> error_locates_mismatch(*v, e),
    decreases *v, 2int,
{
    proof {
        reveal_with_fuel(decodes_to, 4);
        reveal_with_fuel(node_decodable, 2);
    }
    let absolute_bounding_box = match get_opt_bbox_field(flds, "absoluteBoundingBox") {
        Ok(x) => x,
        Err(e) => {
            proof {
                lemma_err_in_obj(*v, e);
            }
            return Err(e);
        },
    };
    let fills = match get_paints_field(flds, "fills") {
        Ok(x) => x,
        Err(e) => {
            proof {
                lemma_err_in_obj(*v, e);
            }
            return Err(e);
        },
    };
    let children = match decode_children(v) {
        Ok(ns) => ns,
        Err(e) => {
            proof {
                lemma_err_in_obj(*v, e);
                assert forall|n2: Node| !decodes_to(*v, n2) by {
                    reveal_with_fuel(decodes_to, 4);
                    if decodes_to(*v, n2) {
                        match n2.data {
                            NodeData::Table { children: cs, .. } => {
                                assert(children_ok(flds@, cs@));
                            },
                            _ => {},
                        }
                    }
                }
            }
            return Err(e);
        },
    };
    Ok(Node { base, data: NodeData::Table { absolute_bounding_box, fills, children } })
}

fn decode_table_cell(v: &JsonValue, flds: &Vec<(String, JsonValue)>, base: NodeBase) -> (r: Result<
    Node,
    DecodeError,
>)
    requires
        v is Obj,
        (*v)->Obj_0 == *flds,
        tag_of(flds@) == "TABLE_CELL"@,
        tag_of(flds@) != "CANVAS"@,
        tag_of(flds@) != "SECTION"@,
        tag_of(flds@) != "FRAME"@,
        tag_of(flds@) != "GROUP"@,
        tag_of(flds@) != "TEXT"@,
        tag_of(flds@) != "RECTANGLE"@,
        !is_shape_tag(tag_of(flds@)),
        tag_of(flds@) != "COMPONENT"@,
        tag_of(flds@) != "COMPONENT_SET"@,
        tag_of(flds@) != "INSTANCE"@,
        tag_of(flds@) != "STICKY"@,
        tag_of(flds@) != "BOOLEAN_OPERATION"@,
        tag_of(flds@) != "TABLE"@,
        base_matches(flds@, base),
    ensures
        r matches Ok(n) ==> decodes_to(*v, n),
        r is Ok <==> node_decodable(*v),
        r is Err ==> forall|n: Node| !decodes_to(*v, n),
        r matches Err(e) ==> error_locates_mismatch(*v, e),
    decreases *v, 2int,
{
    proof {
        reveal_with_fuel(decodes_to, 4);
        reveal_with_fuel(node_decodable, 2);
    }
    let absolute_bounding_box = match get_opt_bbox_field(flds, "absoluteBoundingBox") {
        Ok(x) => x,
        Err(e) => {
            proof {
                lemma_err_in_obj(*v, e);
            }
            return Err(e);
        },
    };
    let fills = match get_paints_field(flds, "fills") {
        Ok(x) => x,
        Err(e) => {
            proof {
                lemma_err_in_obj(*v, e);
            }
            return Err(e);
        },
    };
    let children = match decode_children(v) {
        Ok(ns) => ns,
        Err(e) => {
            proof {
                lemma_err_in_obj(*v, e);
                assert forall|n2: Node| !decodes_to(*v, n2) by {
                    reveal_with_fuel(decodes_to, 4);
                    if decodes_to(*v, n2) {
                        match n2.data {
                            NodeData::TableCell { children: cs, .. } => {
                                assert(children_ok(flds@, cs@));
                            },
                            _ => {},
                        }
                    }
                }
            }
            return Err(e);
        },
    };
    Ok(Node { base, data: NodeData::TableCell { absolute_bounding_box, fills, children } })
}

fn decode_other(v: &JsonValue, flds: &Vec<(String, JsonValue)>, base: NodeBase) -> (r: Result<
    Node,
    DecodeError,
>)
    requires
        v is Obj,
        (*v)->Obj_0 == *flds,
        !is_known_tag(tag_of(flds@)),
        base_matches(flds@, base),
    ensures
        r matches Ok(n) ==> decodes_to(*v, n),
        r is Ok <==> node_decodable(*v),
        r is Err ==> forall|n: Node| !decodes_to(*v, n),
        r matches Err(e) ==> error_locates_mismatch(*v, e),
    decreases *v, 2int,
{
    proof {
        reveal_with_fuel(decodes_to, 4);
        reveal_with_fuel(node_decodable, 2);
    }
    let characters = match get_opt_str_field(flds, "characters") {
        Ok(x) => x,
        Err(e) => {
            proof {
                lemma_err_in_obj(*v, e);
            }
            return Err(e);
        },
    };
    let children = match decode_children(v) {
        Ok(ns) => ns,
        Err(e) => {
            proof {
                lemma_err_in_obj(*v, e);
                assert forall|n2: Node| !decodes_to(*v, n2) by {
                    reveal_with_fuel(decodes_to, 4);
                    if decodes_to(*v, n2) {
                        match n2.data {
                            NodeData::Other { children: cs, .. } => {
                                assert(children_ok(flds@, cs@));
                            },
                            _ => {},
                        }
                    }
                }
            }
            return Err(e);
        },
    };
    Ok(Node { base, data: NodeData::Other { characters, children } })
}

/// Decode a generic JSON value into a node.  The result is exactly a node
/// related to the input by [`decodes_to`]; when no such node exists, the
/// error names a field path at which the input has a value of the wrong
/// shape.
pub fn decode_node(v: &JsonValue) -> (r: Result<Node, DecodeError>)
    ensures
        r matches Ok(n) ==> decodes_to(*v, n),
        r is Ok <==> node_decodable(*v),
        r is Err ==> forall|n: Node| !decodes_to(*v, n),
        r matches Err(e) ==> error_locates_mismatch(*v, e),
    decreases *v, 3int,
{
    let flds = match v {
        JsonValue::Obj(flds) => flds,
        _ => {
            let e = DecodeError { path: Vec::new(), expected: JsonKind::Object };
            proof {
                assert(e.path@ =~= Seq::<PathSeg>::empty());
                reveal_with_fuel(node_decodable, 2);
                assert forall|n: Node| !decodes_to(*v, n) by {
                    reveal_with_fuel(decodes_to, 2);
                }
            }
            return Err(e);
        },
    };
    let tag = get_tag(flds);
    let base = match decode_base(flds) {
        Ok(b) => b,
        Err(e) => {
            proof {
                lemma_err_in_obj(*v, e);
                reveal_with_fuel(node_decodable, 2);
                assert forall|n: Node| !decodes_to(*v, n) by {
                    reveal_with_fuel(decodes_to, 2);
                }
            }
            return Err(e);
        },
    };
    if str_eq(tag.as_str(), "CANVAS") {
        decode_canvas(v, flds, base)
    } else     if str_eq(tag.as_str(), "SECTION") {
        decode_section(v, flds, base)
    } else     if str_eq(tag.as_str(), "FRAME") {
        decode_frame(v, flds, base)
    } else     if str_eq(tag.as_str(), "GROUP") {
        decode_group(v, flds, base)
    } else     if str_eq(tag.as_str(), "TEXT") {
        decode_text(v, flds, base)
    } else     if str_eq(tag.as_str(), "RECTANGLE") {
        decode_rectangle(v, flds, base)
    } else     if tag_is_shape(tag.as_str()) {
        decode_shape(v, flds, base)
    } else     if str_eq(tag.as_str(), "COMPONENT") {
        decode_component(v, flds, base)
    } else     if str_eq(tag.as_str(), "COMPONENT_SET") {
        decode_component_set(v, flds, base)
    } else     if str_eq(tag.as_str(), "INSTANCE") {
        decode_instance(v, flds, base)
    } else     if str_eq(tag.as_str(), "STICKY") {
        decode_sticky(v, flds, base)
    } else     if str_eq(tag.as_str(), "BOOLEAN_OPERATION") {
        decode_boolean_operation(v, flds, base)
    } else     if str_eq(tag.as_str(), "TABLE") {
        decode_table(v, flds, base)
    } else     if str_eq(tag.as_str(), "TABLE_CELL") {
        decode_table_cell(v, flds, base)
    } else {
        decode_other(v, flds, base)
    }
}

/// Decode a generic JSON value into a document.
pub fn decode_document(v: &JsonValue) -> (r: Result<Document, DecodeError>)
    ensures
        r matches Ok(d) ==> document_decodes_to(*v, d),
        r is Ok <==> document_decodable(*v),
        r is Err ==> forall|d: Document| !document_decodes_to(*v, d),
        r matches Err(e) ==> error_locates_mismatch(*v, e),
{
    proof {
        reveal_with_fuel(children_ok, 3);
    }
    let flds = match v {
        JsonValue::Obj(flds) => flds,
        _ => {
            let e = DecodeError { path: Vec::new(), expected: JsonKind::Object };
            proof {
                assert(e.path@ =~= Seq::<PathSeg>::empty());
            }
            return Err(e);
        },
    };
    let id = match get_str_field(flds, "id", "") {
        Ok(x) => x,
        Err(e) => {
            proof {
                lemma_err_in_obj(*v, e);
            }
            return Err(e);
        },
    };
    let name = match get_str_field(flds, "name", "") {
        Ok(x) => x,
        Err(e) => {
            proof {
                lemma_err_in_obj(*v, e);
            }
            return Err(e);
        },
    };
    let node_type = match get_str_field(flds, "type", "") {
        Ok(x) => x,
        Err(e) => {
            proof {
                lemma_err_in_obj(*v, e);
            }
            return Err(e);
        },
    };
    let scroll_behavior = match get_opt_str_field(flds, "scrollBehavior") {
        Ok(x) => x,
        Err(e) => {
            proof {
                lemma_err_in_obj(*v, e);
            }
            return Err(e);
        },
    };
    let children = match decode_children(v) {
        Ok(ns) => ns,
        Err(e) => {
            proof {
                lemma_err_in_obj(*v, e);
            }
            return Err(e);
        },
    };
    Ok(Document { id, name, node_type, scroll_behavior, children })
}


/// An unrecognized type tag is not an error: whatever such an object
/// decodes to is the `Other` variant, with its characters and children
/// preserved by the relation's `Other` clause.
pub proof fn lemma_unknown_tag_decodes_to_other(v: JsonValue, n: Node)
    requires
        decodes_to(v, n),
        v matches JsonValue::Obj(flds) && !is_known_tag(tag_of(flds@)),
    ensures
        n.data is Other,
        n.base.node_type@ == tag_of(v->Obj_0@),
{
    reveal_with_fuel(decodes_to, 2);
}

/// An unrecognized type tag is never itself a reason to fail: such an
/// object decodes exactly when its shared attributes and its
/// `characters` and `children` fields are well-shaped — the same
/// conditions any recognized tag would impose on those fields.
pub proof fn lemma_unknown_tag_never_fails(v: JsonValue)
    requires
        v matches JsonValue::Obj(flds) && !is_known_tag(tag_of(flds@)),
    ensures
        node_decodable(v) <==> (base_ok(v->Obj_0@) && opt_str_field(v->Obj_0@, "characters"@)
            is Some && children_field_decodable(v)),
{
    reveal_with_fuel(node_decodable, 2);
}

} // verus!
