//! Extraction output values: hierarchy paths, extracted text entries and
//! the per-page structural summary.

use vstd::prelude::*;
use vstd::string::StringSliceAdditionalSpecFns;
use crate::json::JsonNumber;

verus! {

/// Which kind of node a text entry came from.
#[derive(Debug, Clone, Copy, PartialEq, Eq, Structural)]
pub enum TextNodeType {
    Text,
    Sticky,
}

/// Style metadata captured for a text node: font family defaulting to
/// `"Unknown"`, size defaulting to sixteen, weight defaulting to 400.
#[derive(Debug, Clone)]
pub struct TextStyleInfo {
    pub font_family: String,
    pub font_size: JsonNumber,
    pub font_weight: u16,
}

/// The reconstructed page/section/frame lineage of a text-bearing node.
/// The page name is always the first ancestor-path segment after the
/// document's own name.
#[derive(Debug, Clone)]
pub struct HierarchyPath {
    pub page_name: String,
    pub section_name: Option<String>,
    pub frame_names: Vec<String>,
    pub group_names: Option<Vec<String>>,
}

/// One extracted text entry, in traversal order.
#[derive(Debug, Clone)]
pub struct ExtractedText {
    pub node_id: String,
    pub node_type: TextNodeType,
    pub text: String,
    pub path: HierarchyPath,
    pub sequence_number: usize,
    pub style: Option<TextStyleInfo>,
}

/// Per-page counts: direct frame children and recursive text nodes.
#[derive(Debug, Clone)]
pub struct PageInfo {
    pub id: String,
    pub name: String,
    pub frame_count: usize,
    pub text_node_count: usize,
}

/// The structural summary: one entry per retained page.
#[derive(Debug, Clone)]
pub struct DocumentStructure {
    pub pages: Vec<PageInfo>,
}

/// The ordered name segments of a path: page, optional section, frames,
/// optional groups.
pub open spec fn path_parts(p: HierarchyPath) -> Seq<Seq<char>> {
    let parts = seq![p.page_name@];
    let parts = match p.section_name {
        Some(s) => parts.push(s@),
        None => parts,
    };
    let parts = parts + p.frame_names@.map_values(|f: String| f@);
    match p.group_names {
        Some(gs) => parts + gs@.map_values(|g: String| g@),
        None => parts,
    }
}

/// Non-empty parts joined by a separator.
pub open spec fn join_parts(parts: Seq<Seq<char>>, sep: Seq<char>) -> Seq<char>
    decreases parts.len(),
{
    if parts.len() == 0 {
        Seq::empty()
    } else if parts.len() == 1 {
        parts[0]
    } else {
        parts[0] + sep + join_parts(parts.skip(1), sep)
    }
}

/// Appending a part appends a separator and the part.
proof fn lemma_join_parts_push(parts: Seq<Seq<char>>, sep: Seq<char>, x: Seq<char>)
    requires
        parts.len() >= 1,
    ensures
        join_parts(parts.push(x), sep) == join_parts(parts, sep) + sep + x,
    decreases parts.len(),
{
    reveal_with_fuel(join_parts, 3);
    if parts.len() == 1 {
        assert(parts.push(x)[0] == parts[0]);
        assert(parts.push(x).skip(1) =~= seq![x]);
        assert(join_parts(seq![x], sep) == x);
    } else {
        lemma_join_parts_push(parts.skip(1), sep, x);
        assert(parts.push(x).skip(1) =~= parts.skip(1).push(x));
        assert(parts.push(x)[0] == parts[0]);
        assert(parts[0] + sep + (join_parts(parts.skip(1), sep) + sep + x) =~= (parts[0] + sep
            + join_parts(parts.skip(1), sep)) + sep + x);
    }
}

impl HierarchyPath {
    /// A path with a page and frame chain, no section, no groups.
    pub fn new(page_name: String, frame_names: Vec<String>) -> (r: Self)
        ensures
            r.page_name == page_name,
            r.section_name is None,
            r.frame_names == frame_names,
            r.group_names is None,
    {
        HierarchyPath { page_name, section_name: None, frame_names, group_names: None }
    }

    pub fn with_section(self, section: String) -> (r: Self)
        ensures
            r == (HierarchyPath { section_name: Some(section), ..self }),
    {
        HierarchyPath { section_name: Some(section), ..self }
    }

    pub fn with_groups(self, groups: Vec<String>) -> (r: Self)
        ensures
            r == (HierarchyPath { group_names: Some(groups), ..self }),
    {
        HierarchyPath { group_names: Some(groups), ..self }
    }

    /// All segments joined by `" > "`, page first.
    pub fn to_path_string(&self) -> (r: String)
        ensures
            r@ == join_parts(path_parts(*self), " > "@),
    {
        let ghost sep = " > "@;
        let mut out: String = self.page_name.clone();
        let ghost parts0 = seq![self.page_name@];
        assert(join_parts(parts0, sep) == self.page_name@);
        let ghost mut parts = parts0;
        match &self.section_name {
            Some(s) => {
                proof {
                    lemma_join_parts_push(parts, sep, s@);
                }
                out.append(" > ");
                out.append(s.as_str());
                proof {
                    parts = parts.push(s@);
                }
            },
            None => {},
        }
        let ghost parts_with_section = parts;
        let n = self.frame_names.len();
        let mut i: usize = 0;
        proof {
            assert(self.frame_names@.map_values(|f: String| f@).take(0) =~= Seq::<Seq<char>>::empty());
            assert(parts_with_section + self.frame_names@.map_values(|f: String| f@).take(0)
                =~= parts_with_section);
        }
        while i < n
            invariant
                0 <= i <= n,
                n == self.frame_names@.len(),
                parts_with_section.len() >= 1,
                parts == parts_with_section + self.frame_names@.map_values(|f: String| f@).take(
                    i as int,
                ),
                out@ == join_parts(parts, sep),
                sep == " > "@,
            decreases n - i,
        {
            proof {
                lemma_join_parts_push(parts, sep, self.frame_names@[i as int]@);
            }
            out.append(" > ");
            out.append(self.frame_names[i].as_str());
            proof {
                parts = parts.push(self.frame_names@[i as int]@);
                assert(self.frame_names@.map_values(|f: String| f@).take(i + 1)
                    =~= self.frame_names@.map_values(|f: String| f@).take(i as int).push(
                    self.frame_names@[i as int]@,
                ));
                assert(parts =~= parts_with_section + self.frame_names@.map_values(
                    |f: String| f@,
                ).take(i + 1));
            }
            i = i + 1;
        }
        let ghost parts_with_frames = parts;
        match &self.group_names {
            Some(gs) => {
                let m = gs.len();
                let mut j: usize = 0;
                proof {
                    assert(parts_with_frames + gs@.map_values(|g: String| g@).take(0)
                        =~= parts_with_frames);
                }
                while j < m
                    invariant
                        0 <= j <= m,
                        self.group_names matches Some(gs2) && gs2 == *gs,
                        m == gs@.len(),
                        parts_with_frames.len() >= 1,
                        parts == parts_with_frames + gs@.map_values(|g: String| g@).take(j as int),
                        out@ == join_parts(parts, sep),
                        sep == " > "@,
                    decreases m - j,
                {
                    proof {
                        lemma_join_parts_push(parts, sep, gs@[j as int]@);
                    }
                    out.append(" > ");
                    out.append(gs[j].as_str());
                    proof {
                        parts = parts.push(gs@[j as int]@);
                        assert(gs@.map_values(|g: String| g@).take(j + 1) =~= gs@.map_values(
                            |g: String| g@,
                        ).take(j as int).push(gs@[j as int]@));
                        assert(parts =~= parts_with_frames + gs@.map_values(|g: String| g@).take(
                            j + 1,
                        ));
                    }
                    j = j + 1;
                }
                proof {
                    assert(gs@.map_values(|g: String| g@).take(m as int) =~= gs@.map_values(
                        |g: String| g@,
                    ));
                }
            },
            None => {},
        }
        proof {
            assert(self.frame_names@.map_values(|f: String| f@).take(n as int)
                =~= self.frame_names@.map_values(|f: String| f@));
            assert(parts =~= path_parts(*self));
        }
        out
    }
}


/// The integer totals of an extraction.
#[derive(Debug, Clone, Copy, PartialEq, Eq, Structural)]
pub struct ExtractionStats {
    pub total_pages: usize,
    pub total_frames: usize,
    pub total_text_nodes: usize,
    pub total_characters: usize,
}

/// The frame counts of the summary, summed.
pub open spec fn sum_frame_counts(pages: Seq<PageInfo>) -> int
    decreases pages.len(),
{
    if pages.len() == 0 {
        0
    } else {
        pages[0].frame_count + sum_frame_counts(pages.skip(1))
    }
}

/// The byte length of an entry's text, as `String::len` reports it.
pub open spec fn text_byte_len(t: ExtractedText) -> int {
    vstd::utf8::encode_utf8(t.text@).len() as usize as int
}

/// The byte lengths of the extracted entries' texts, summed.
pub open spec fn sum_text_bytes(texts: Seq<ExtractedText>) -> int
    decreases texts.len(),
{
    if texts.len() == 0 {
        0
    } else {
        text_byte_len(texts[0]) + sum_text_bytes(texts.skip(1))
    }
}

proof fn lemma_sum_frames_take_step(pages: Seq<PageInfo>, i: int)
    requires
        0 <= i < pages.len(),
    ensures
        sum_frame_counts(pages.take(i + 1)) == sum_frame_counts(pages.take(i))
            + pages[i].frame_count,
    decreases i,
{
    reveal_with_fuel(sum_frame_counts, 3);
    if i == 0 {
        assert(pages.take(1)[0] == pages[0]);
        assert(pages.take(1).skip(1) =~= Seq::<PageInfo>::empty());
        assert(pages.take(0) =~= Seq::<PageInfo>::empty());
    } else {
        lemma_sum_frames_take_step(pages.skip(1), i - 1);
        assert(pages.take(i + 1).skip(1) =~= pages.skip(1).take(i));
        assert(pages.take(i).skip(1) =~= pages.skip(1).take(i - 1));
        assert(pages.take(i + 1)[0] == pages[0]);
        assert(pages.take(i)[0] == pages[0]);
        assert(pages.skip(1)[i - 1] == pages[i]);
    }
}

proof fn lemma_sum_frames_take_le(pages: Seq<PageInfo>, k: int)
    requires
        0 <= k <= pages.len(),
    ensures
        sum_frame_counts(pages.take(k)) <= sum_frame_counts(pages),
    decreases pages.len() - k,
{
    if k == pages.len() {
        assert(pages.take(k) =~= pages);
    } else {
        lemma_sum_frames_take_le(pages, k + 1);
        lemma_sum_frames_take_step(pages, k);
    }
}

proof fn lemma_sum_bytes_take_step(texts: Seq<ExtractedText>, i: int)
    requires
        0 <= i < texts.len(),
    ensures
        sum_text_bytes(texts.take(i + 1)) == sum_text_bytes(texts.take(i)) + text_byte_len(
            texts[i],
        ),
    decreases i,
{
    reveal_with_fuel(sum_text_bytes, 3);
    if i == 0 {
        assert(texts.take(1)[0] == texts[0]);
        assert(texts.take(1).skip(1) =~= Seq::<ExtractedText>::empty());
        assert(texts.take(0) =~= Seq::<ExtractedText>::empty());
    } else {
        lemma_sum_bytes_take_step(texts.skip(1), i - 1);
        assert(texts.take(i + 1).skip(1) =~= texts.skip(1).take(i));
        assert(texts.take(i).skip(1) =~= texts.skip(1).take(i - 1));
        assert(texts.take(i + 1)[0] == texts[0]);
        assert(texts.take(i)[0] == texts[0]);
        assert(texts.skip(1)[i - 1] == texts[i]);
    }
}

proof fn lemma_sum_bytes_take_le(texts: Seq<ExtractedText>, k: int)
    requires
        0 <= k <= texts.len(),
    ensures
        sum_text_bytes(texts.take(k)) <= sum_text_bytes(texts),
    decreases texts.len() - k,
{
    if k == texts.len() {
        assert(texts.take(k) =~= texts);
    } else {
        lemma_sum_bytes_take_le(texts, k + 1);
        lemma_sum_bytes_take_step(texts, k);
    }
}

/// The totals of an extraction: how many pages were retained, the sum of
/// their frame counts, how many entries were extracted, and the total
/// byte length of their texts (as `String::len` reports it).  `None`
/// exactly when a sum does not fit in a machine word.
pub fn extraction_stats(texts: &Vec<ExtractedText>, structure: &DocumentStructure) -> (r: Option<
    ExtractionStats,
>)
    ensures
        r is Some <==> (sum_frame_counts(structure.pages@) <= usize::MAX && sum_text_bytes(texts@)
            <= usize::MAX),
        r matches Some(st) ==> ({
            &&& st.total_pages == structure.pages@.len()
            &&& st.total_frames == sum_frame_counts(structure.pages@)
            &&& st.total_text_nodes == texts@.len()
            &&& st.total_characters == sum_text_bytes(texts@)
        }),
{
    let np = structure.pages.len();
    let mut total_frames: usize = 0;
    let mut i: usize = 0;
    proof {
        assert(structure.pages@.take(0) =~= Seq::<PageInfo>::empty());
    }
    while i < np
        invariant
            0 <= i <= np,
            np == structure.pages@.len(),
            total_frames == sum_frame_counts(structure.pages@.take(i as int)),
        decreases np - i,
    {
        proof {
            lemma_sum_frames_take_step(structure.pages@, i as int);
            lemma_sum_frames_take_le(structure.pages@, i + 1);
        }
        let fc = structure.pages[i].frame_count;
        if total_frames > usize::MAX - fc {
            return None;
        }
        total_frames = total_frames + fc;
        i = i + 1;
    }
    proof {
        assert(structure.pages@.take(np as int) =~= structure.pages@);
    }
    let nt = texts.len();
    let mut total_characters: usize = 0;
    let mut j: usize = 0;
    proof {
        assert(texts@.take(0) =~= Seq::<ExtractedText>::empty());
    }
    while j < nt
        invariant
            0 <= j <= nt,
            nt == texts@.len(),
            sum_frame_counts(structure.pages@) <= usize::MAX,
            total_characters == sum_text_bytes(texts@.take(j as int)),
        decreases nt - j,
    {
        proof {
            lemma_sum_bytes_take_step(texts@, j as int);
            lemma_sum_bytes_take_le(texts@, j + 1);
        }
        let len = texts[j].text.as_str().len();
        if total_characters > usize::MAX - len {
            return None;
        }
        total_characters = total_characters + len;
        j = j + 1;
    }
    proof {
        assert(texts@.take(nt as int) =~= texts@);
    }
    Some(
        ExtractionStats {
            total_pages: structure.pages.len(),
            total_frames,
            total_text_nodes: texts.len(),
            total_characters,
        },
    )
}

} // verus!
