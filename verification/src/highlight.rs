//! The syntax-aware overlay: a structural parse of the buffer yields
//! capture spans, each naming a syntactic role; the spans are resolved to
//! face ids through the registry and written over the grid in match order,
//! so the last write wins at a shared cell.

use vstd::prelude::*;
use tree_sitter::Parser;
use tree_sitter::Query;
use tree_sitter::QueryCursor;
use crate::faces::Faces;
use crate::faces::FacesView;
use crate::grid::TextContent;
use crate::grid::spec_set_range;
use crate::text_mode::Global;
use crate::text_mode::TextMinorMode;

verus! {

/// A span a structural parse produced: a half-open column range on one
/// row that should carry the face mapped from the capture's role name.
/// A construct spanning several rows surfaces with the columns of its
/// first row, as the parser reports it.
pub struct CaptureSpan {
    pub row: usize,
    pub col_start: usize,
    pub col_end: usize,
    pub name: String,
}

/// One capture span as a mathematical value: row, column range, role name.
pub open spec fn span_view(c: CaptureSpan) -> (int, int, int, Seq<char>) {
    (c.row as int, c.col_start as int, c.col_end as int, c.name@)
}

/// A capture list as mathematical values, in match order.
pub open spec fn spans_view(cs: Seq<CaptureSpan>) -> Seq<(int, int, int, Seq<char>)> {
    cs.map_values(|c: CaptureSpan| span_view(c))
}

pub uninterp spec fn rust_capture_spans(lines: Seq<Seq<char>>) -> Option<
    Seq<(int, int, int, Seq<char>)>,
>;

/// Relies on tree_sitter's `Parser::parse`, `Query::new` and
/// `QueryCursor::matches`, with tree_sitter_rust's grammar and
/// `HIGHLIGHT_QUERY`: the matches, and so the captures collected here in
/// match order, are a function of the buffer text alone, which is what
/// `rust_capture_spans` names. `None` comes only of a setup or parse
/// failure; nothing panics.
#[verifier::external_body]
fn parse_rust_captures(lines: &Vec<String>) -> (r: Option<Vec<CaptureSpan>>)
    ensures
        match r {
            Some(caps) => rust_capture_spans(lines@.map_values(|s: String| s@)) == Some(
                spans_view(caps@),
            ),
            None => rust_capture_spans(lines@.map_values(|s: String| s@)) is None,
        },
{
    let text = lines.join("\n");
    let mut p = Parser::new();
    p.set_language(tree_sitter_rust::language()).ok()?;
    let tree = p.parse(&text, None)?;
    let q = Query::new(tree_sitter_rust::language(), tree_sitter_rust::HIGHLIGHT_QUERY).ok()?;
    let mut cur = QueryCursor::new();
    let mut out = Vec::new();
    for m in cur.matches(&q, tree.root_node(), text.as_bytes()) {
        for c in m.captures {
            let (s, e) = (c.node.start_position(), c.node.end_position());
            out.push(CaptureSpan { row: s.row, col_start: s.column, col_end: e.column, name: q.capture_names()[c.index as usize].clone() });
        }
    }
    Some(out)
}

/// Where a capture role maps for face lookup: the documented alias table
/// sends the method and macro function roles to the plain function face;
/// every other role looks itself up.
pub open spec fn spec_role_alias(role: Seq<char>) -> Seq<char> {
    if role == "function.method"@ || role == "function.macro"@ {
        "function"@
    } else {
        role
    }
}

/// The face id a capture role resolves to: the registry id of its aliased
/// name, or the default face id 0 for a role with no mapping — an unknown
/// role is never an error.
pub open spec fn spec_role_face(reg: FacesView, role: Seq<char>) -> int {
    if reg.ids.contains_key(spec_role_alias(role)) {
        reg.ids[spec_role_alias(role)]
    } else {
        0
    }
}

/// Resolve a capture role name to a face id through the registry.
pub fn role_face_id(faces: &Faces, role: &String) -> (id: usize)
    requires
        faces.wf(),
    ensures
        id as int == spec_role_face(faces@, role@),
{
    let fn_method = "function.method".to_owned();
    let fn_macro = "function.macro".to_owned();
    let fn_plain = "function".to_owned();
    let target: &String = if *role == fn_method || *role == fn_macro {
        &fn_plain
    } else {
        role
    };
    proof {
        assert(target@ == spec_role_alias(role@));
    }
    match faces.get_face_id(target) {
        Some(id) => id,
        None => 0,
    }
}

/// The grid after applying the captures from position `i` on, in order:
/// each capture writes its resolved face id over its clamped column range,
/// so a later capture overwrites an earlier one at a shared cell — an
/// explicit last-write-wins policy, ordered by match iteration.
pub open spec fn spec_apply_captures(
    reg: FacesView,
    g: Seq<Seq<usize>>,
    caps: Seq<(int, int, int, Seq<char>)>,
    i: int,
) -> Seq<Seq<usize>>
    decreases caps.len() - i
        when i <= caps.len()
{
    if i < 0 || i >= caps.len() {
        g
    } else {
        spec_apply_captures(
            reg,
            spec_set_range(
                g,
                caps[i].0,
                caps[i].1,
                caps[i].2,
                spec_role_face(reg, caps[i].3) as usize,
            ),
            caps,
            i + 1,
        )
    }
}

/// Apply capture spans to the grid in the order the query engine emitted
/// them, resolving each role name through the registry.
pub fn apply_captures(content: &mut TextContent, faces: &Faces, caps: &Vec<CaptureSpan>)
    requires
        faces.wf(),
        old(content).wf(),
    ensures
        final(content).wf(),
        final(content).lines_view() == old(content).lines_view(),
        final(content).grid() == spec_apply_captures(
            faces@,
            old(content).grid(),
            spans_view(caps@),
            0,
        ),
{
    let ghost cs = spans_view(caps@);
    let n = caps.len();
    let mut i: usize = 0;
    while i < n
        invariant
            faces.wf(),
            content.wf(),
            n == caps@.len(),
            cs == spans_view(caps@),
            cs.len() == n,
            i <= n,
            content.lines_view() == old(content).lines_view(),
            spec_apply_captures(faces@, old(content).grid(), cs, 0) == spec_apply_captures(
                faces@,
                content.grid(),
                cs,
                i as int,
            ),
        decreases n - i,
    {
        let ghost pre = content.grid();
        let id = role_face_id(faces, &caps[i].name);
        content.set_range(caps[i].row, caps[i].col_start, caps[i].col_end, id);
        proof {
            assert(cs[i as int] == span_view(caps@[i as int]));
            assert(id as usize == spec_role_face(faces@, cs[i as int].3) as usize);
            assert(content.grid() == spec_set_range(
                pre,
                cs[i as int].0,
                cs[i as int].1,
                cs[i as int].2,
                spec_role_face(faces@, cs[i as int].3) as usize,
            ));
            assert(spec_apply_captures(faces@, pre, cs, i as int) == spec_apply_captures(
                faces@,
                content.grid(),
                cs,
                i as int + 1,
            ));
        }
        i += 1;
    }
}

/// The Rust minor mode: highlights a buffer with the bundled Rust grammar.
pub struct RustMode {}

impl RustMode {
    pub fn new() -> (m: RustMode) {
        RustMode {}
    }

    /// One full highlight pass: parse the buffer, then apply the captures
    /// to the grid. A setup or parse failure leaves the grid exactly as it
    /// was — styling degrades, nothing aborts.
    pub fn apply(&self, faces: &Faces, content: &mut TextContent)
        requires
            faces.wf(),
            old(content).wf(),
        ensures
            final(content).wf(),
            final(content).lines_view() == old(content).lines_view(),
            final(content).grid() == match rust_capture_spans(old(content).lines_view()) {
                Some(cs) => spec_apply_captures(faces@, old(content).grid(), cs, 0),
                None => old(content).grid(),
            },
    {
        match parse_rust_captures(content.lines()) {
            Some(caps) => apply_captures(content, faces, &caps),
            None => (),
        }
    }
}

impl TextMinorMode for RustMode {
    fn modify(&mut self, global: &mut Global, content: &mut TextContent) {
        self.apply(&global.faces, content)
    }
}

} // verus!
