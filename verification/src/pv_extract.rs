//! The variable declarations of the `PV` (private variables) user code
//! region.
use vstd::prelude::*;
use std::path::PathBuf;
use crate::marker_scan::{regions_view, scan_error_view, scan_source, scan_spec, RegionSpec, ScanError, ScanErrorSpec, UserRegion};
use crate::syntax::{
    c_syntax, char_at_byte, children, children_of, is_desc, is_desc_of, node_text, node_trimmed_text,
    nodes_view, parse_source, row_of, text_between, tree_wf, trimmed_text, SourceText, SyntaxNode,
    SyntaxNodeView,
};
use crate::text::{byte_len, str_eq, trim};

verus! {

/// One declaration of the `PV` region.
#[derive(Debug, PartialEq, Eq)]
pub struct PvDeclaration {
    pub name: String,
    /// The declared type, such as `uint32_t` or `TIM_HandleTypeDef`.
    pub type_str: String,
    /// The initialiser's text; `None` when there is none.
    pub initial_value: Option<String>,
    pub is_pointer: bool,
    pub is_array: bool,
    /// The text inside `[]`, for an array.
    pub array_dims: Option<String>,
    /// The whole declaration statement, verbatim.
    pub raw_text: String,
    /// The statement's bytes in the whole file.
    pub byte_range: (usize, usize),
    /// The one-based line where the statement starts.
    pub line: usize,
}

impl Clone for PvDeclaration {
    fn clone(&self) -> (r: Self)
        ensures
            r.name@ == self.name@,
            r.type_str@ == self.type_str@,
            r.initial_value.deep_view() == self.initial_value.deep_view(),
            r.is_pointer == self.is_pointer,
            r.is_array == self.is_array,
            r.array_dims.deep_view() == self.array_dims.deep_view(),
            r.raw_text@ == self.raw_text@,
            r.byte_range == self.byte_range,
            r.line == self.line,
    {
        PvDeclaration {
            name: self.name.clone(),
            type_str: self.type_str.clone(),
            initial_value: match &self.initial_value {
                Some(v) => Some(v.clone()),
                None => None,
            },
            is_pointer: self.is_pointer,
            is_array: self.is_array,
            array_dims: match &self.array_dims {
                Some(v) => Some(v.clone()),
                None => None,
            },
            raw_text: self.raw_text.clone(),
            byte_range: self.byte_range,
            line: self.line,
        }
    }
}

/// Why the `PV` declarations could not be read.
#[derive(Debug)]
pub enum PvExtractError {
    ScanError(ScanError),
    /// The file has no region tagged `PV`.
    NoPvRegion,
    ParseError(String),
}

/// `m` is the message of `e`; the text of a path is left open.
pub open spec fn pv_message(e: PvExtractError, m: Seq<char>) -> bool {
    match e {
        PvExtractError::ScanError(x) => crate::marker_scan::scan_message(x, m),
        PvExtractError::NoPvRegion => m == "no region tagged 'PV' found in file"@,
        PvExtractError::ParseError(x) => m == "failed to parse C source: "@ + x@,
    }
}

impl PvExtractError {
    /// The message that describes the error.
    pub fn message(&self) -> (r: String)
        ensures
            pv_message(*self, r@),
    {
        match self {
            PvExtractError::ScanError(e) => e.message(),
            PvExtractError::NoPvRegion => crate::text::owned("no region tagged 'PV' found in file"),
            PvExtractError::ParseError(e) => crate::text::concat_str("failed to parse C source: ", e.as_str()),
        }
    }
}

/// The value of a `PvDeclaration`.
pub struct PvSpec {
    pub name: Seq<char>,
    pub type_str: Seq<char>,
    pub initial_value: Option<Seq<char>>,
    pub is_pointer: bool,
    pub is_array: bool,
    pub array_dims: Option<Seq<char>>,
    pub raw_text: Seq<char>,
    pub byte_range: (usize, usize),
    pub line: int,
}

impl View for PvDeclaration {
    type V = PvSpec;

    open spec fn view(&self) -> PvSpec {
        PvSpec {
            name: self.name@,
            type_str: self.type_str@,
            initial_value: self.initial_value.deep_view(),
            is_pointer: self.is_pointer,
            is_array: self.is_array,
            array_dims: self.array_dims.deep_view(),
            raw_text: self.raw_text@,
            byte_range: self.byte_range,
            line: self.line as int,
        }
    }
}

pub open spec fn pvs_view(v: Seq<PvDeclaration>) -> Seq<PvSpec> {
    v.map_values(|d: PvDeclaration| d@)
}

/// What one declarator declares.
pub struct DeclInfo {
    pub name: Seq<char>,
    pub initial_value: Option<Seq<char>>,
    pub is_pointer: bool,
    pub is_array: bool,
    pub array_dims: Option<Seq<char>>,
}

pub open spec fn empty_info() -> DeclInfo {
    DeclInfo { name: seq![], initial_value: None, is_pointer: false, is_array: false, array_dims: None }
}

/// The node kinds that declare a name within a declaration.
pub open spec fn is_declarator_kind(k: Seq<char>) -> bool {
    k == "init_declarator"@ || k == "pointer_declarator"@ || k == "array_declarator"@ || k
        == "function_declarator"@ || k == "parenthesized_declarator"@ || k == "identifier"@ || k
        == "field_identifier"@
}

/// The first position at or after `m` in `kids` of a node of kind `k`.
pub open spec fn first_of_kind(ns: Seq<SyntaxNodeView>, kids: Seq<usize>, k: Seq<char>, m: int) -> Option<int>
    decreases kids.len() - m,
{
    if m < 0 || m >= kids.len() {
        None
    } else if ns[kids[m] as int].kind == k {
        Some(m)
    } else {
        first_of_kind(ns, kids, k, m + 1)
    }
}

/// The first position at or after `m` in `kids` of a node of neither kind `a` nor `b`.
pub open spec fn first_not_of(ns: Seq<SyntaxNodeView>, kids: Seq<usize>, a: Seq<char>, b: Seq<char>, m: int) -> Option<int>
    decreases kids.len() - m,
{
    if m < 0 || m >= kids.len() {
        None
    } else if ns[kids[m] as int].kind != a && ns[kids[m] as int].kind != b {
        Some(m)
    } else {
        first_not_of(ns, kids, a, b, m + 1)
    }
}

/// The last position before `m` in `kids` of a node of kind `k`.
pub open spec fn last_of_kind(ns: Seq<SyntaxNodeView>, kids: Seq<usize>, k: Seq<char>, m: int) -> Option<int>
    decreases m,
{
    if m <= 0 || m > kids.len() {
        None
    } else if ns[kids[m - 1] as int].kind == k {
        Some(m - 1)
    } else {
        last_of_kind(ns, kids, k, m - 1)
    }
}

/// The first identifier at or below node `i`, in tree order, from node `j` on.
pub open spec fn first_ident_from(s: Seq<char>, ns: Seq<SyntaxNodeView>, i: int, j: int) -> Option<Seq<char>>
    decreases ns.len() - j,
{
    if j < 0 || j >= ns.len() {
        None
    } else if is_desc(ns, j, i) && (ns[j].kind == "identifier"@ || ns[j].kind == "field_identifier"@) {
        Some(trimmed_text(s, ns, j))
    } else {
        first_ident_from(s, ns, i, j + 1)
    }
}

/// The text between the last `[` child and the last `]` child of an
/// array declarator, trimmed. (A tree with that `]` before that `[` does
/// not occur; it gives no dimensions here.)
pub open spec fn array_dims_of(s: Seq<char>, ns: Seq<SyntaxNodeView>, kids: Seq<usize>) -> Option<Seq<char>> {
    match (last_of_kind(ns, kids, "["@, kids.len() as int), last_of_kind(ns, kids, "]"@, kids.len() as int)) {
        (Some(a), Some(b)) => {
            let o = ns[kids[a] as int].end_byte;
            let c = ns[kids[b] as int].start_byte;
            if o <= c {
                Some(trim(s.subrange(char_at_byte(s, o as int), char_at_byte(s, c as int))))
            } else {
                None
            }
        },
        _ => None,
    }
}

/// What the declarator at node `i` declares: its name, whether it is a
/// pointer or an array, the array's dimensions and the initialiser.
pub open spec fn decl_info(s: Seq<char>, ns: Seq<SyntaxNodeView>, i: int) -> DeclInfo
    decreases ns.len() - i,
{
    if i < 0 || i >= ns.len() {
        empty_info()
    } else {
        let kids = children(ns, i);
        let k = ns[i].kind;
        if k == "init_declarator"@ {
            let init = match first_of_kind(ns, kids, "="@, 0) {
                Some(e) => if e + 1 < kids.len() {
                    Some(trimmed_text(s, ns, kids[e + 1] as int))
                } else {
                    None
                },
                None => None,
            };
            let inner = if kids.len() > 0 && i < kids[0] < ns.len() {
                decl_info(s, ns, kids[0] as int)
            } else {
                empty_info()
            };
            DeclInfo {
                name: inner.name,
                initial_value: init,
                is_pointer: inner.is_pointer,
                is_array: inner.is_array,
                array_dims: inner.array_dims,
            }
        } else if k == "pointer_declarator"@ {
            match first_not_of(ns, kids, "*"@, "type_qualifier"@, 0) {
                Some(m) => {
                    let inner = if 0 <= m < kids.len() && i < kids[m] < ns.len() {
                        decl_info(s, ns, kids[m] as int)
                    } else {
                        empty_info()
                    };
                    DeclInfo {
                        name: inner.name,
                        initial_value: inner.initial_value,
                        is_pointer: true,
                        is_array: inner.is_array,
                        array_dims: inner.array_dims,
                    }
                },
                None => DeclInfo { is_pointer: true, ..empty_info() },
            }
        } else if k == "array_declarator"@ {
            let inner = if kids.len() > 0 && i < kids[0] < ns.len() {
                decl_info(s, ns, kids[0] as int)
            } else {
                empty_info()
            };
            DeclInfo {
                name: inner.name,
                initial_value: inner.initial_value,
                is_pointer: inner.is_pointer,
                is_array: true,
                array_dims: array_dims_of(s, ns, kids),
            }
        } else if k == "parenthesized_declarator"@ {
            match first_not_of(ns, kids, "("@, ")"@, 0) {
                Some(m) => if 0 <= m < kids.len() && i < kids[m] < ns.len() {
                    decl_info(s, ns, kids[m] as int)
                } else {
                    empty_info()
                },
                None => empty_info(),
            }
        } else if k == "identifier"@ || k == "field_identifier"@ {
            DeclInfo { name: trimmed_text(s, ns, i), ..empty_info() }
        } else {
            DeclInfo {
                name: match first_ident_from(s, ns, i, i) {
                    Some(t) => t,
                    None => trimmed_text(s, ns, i),
                },
                ..empty_info()
            }
        }
    }
}

/// Node `i` lies inside a node that the region scan does not enter: one
/// outside the region, or a declaration.
pub open spec fn blocked(ns: Seq<SyntaxNodeView>, i: int, r: (usize, usize)) -> bool
    decreases i,
{
    if i < 0 || i >= ns.len() {
        false
    } else {
        match ns[i].parent {
            Some(p) => if p < i {
                !overlaps_region(ns[p as int], r) || ns[p as int].kind == "declaration"@ || blocked(
                    ns,
                    p as int,
                    r,
                )
            } else {
                false
            },
            None => false,
        }
    }
}

pub open spec fn overlaps_region(n: SyntaxNodeView, r: (usize, usize)) -> bool {
    !(n.end_byte <= r.0 || n.start_byte >= r.1)
}

/// Node `i` is a declaration statement of the region.
pub open spec fn in_region_decl(ns: Seq<SyntaxNodeView>, i: int, r: (usize, usize)) -> bool {
    &&& !blocked(ns, i, r)
    &&& ns[i].kind == "declaration"@
    &&& r.0 <= ns[i].start_byte
    &&& ns[i].end_byte <= r.1
    &&& overlaps_region(ns[i], r)
}

/// The declarator children among the first `m` of `kids`.
pub open spec fn declarators_upto(ns: Seq<SyntaxNodeView>, kids: Seq<usize>, m: int) -> Seq<usize>
    decreases m,
{
    if m <= 0 || m > kids.len() {
        seq![]
    } else {
        declarators_upto(ns, kids, m - 1) + if is_declarator_kind(ns[kids[m - 1] as int].kind) {
            seq![kids[m - 1]]
        } else {
            seq![]
        }
    }
}

pub open spec fn declarators(ns: Seq<SyntaxNodeView>, d: int) -> Seq<usize> {
    declarators_upto(ns, children(ns, d), children(ns, d).len() as int)
}

/// The type of a declaration: its text before the first declarator,
/// trimmed, or `int` when there is none.
pub open spec fn decl_type(s: Seq<char>, ns: Seq<SyntaxNodeView>, d: int, first: int) -> Seq<char> {
    let t = trim(s.subrange(char_at_byte(s, ns[d].start_byte as int), char_at_byte(s, ns[first].start_byte as int)));
    if t.len() == 0 {
        "int"@
    } else {
        t
    }
}

/// The record of declarator `c` of declaration `d`.
pub open spec fn pv_record(s: Seq<char>, ns: Seq<SyntaxNodeView>, d: int, ty: Seq<char>, c: int) -> PvSpec {
    let info = decl_info(s, ns, c);
    PvSpec {
        name: info.name,
        type_str: ty,
        initial_value: info.initial_value,
        is_pointer: info.is_pointer,
        is_array: info.is_array,
        array_dims: info.array_dims,
        raw_text: trimmed_text(s, ns, d),
        byte_range: (ns[d].start_byte, ns[d].end_byte),
        line: row_of(s, ns[d].start_byte as int) + 1int,
    }
}

/// The records of declaration `d`, one per declarator.
pub open spec fn decl_records(s: Seq<char>, ns: Seq<SyntaxNodeView>, d: int) -> Seq<PvSpec> {
    let ds = declarators(ns, d);
    if ds.len() == 0 {
        seq![]
    } else {
        let ty = decl_type(s, ns, d, ds[0] as int);
        ds.map_values(|c: usize| pv_record(s, ns, d, ty, c as int))
    }
}

/// The records of the region's declarations among the first `i` nodes.
pub open spec fn pv_upto(s: Seq<char>, ns: Seq<SyntaxNodeView>, r: (usize, usize), i: int) -> Seq<PvSpec>
    decreases i,
{
    if i <= 0 || i > ns.len() {
        seq![]
    } else {
        pv_upto(s, ns, r, i - 1) + if in_region_decl(ns, i - 1, r) {
            decl_records(s, ns, i - 1)
        } else {
            seq![]
        }
    }
}

/// The first region tagged `PV`.
pub open spec fn pv_region_from(rs: Seq<RegionSpec>, i: int) -> Option<int>
    decreases rs.len() - i,
{
    if i < 0 || i >= rs.len() {
        None
    } else if rs[i].tag == "PV"@ {
        Some(i)
    } else {
        pv_region_from(rs, i + 1)
    }
}

/// The `PV` declarations of `source`: the scan's error; else no `PV`
/// region; else the records of its declarations in tree order.
pub open spec fn pv_outcome(source: Seq<char>, r: Result<Vec<PvDeclaration>, PvExtractError>) -> bool {
    match scan_spec(source) {
        Err(e) => r matches Err(PvExtractError::ScanError(x)) && scan_error_view(x) == e,
        Ok(regs) => match pv_region_from(regs, 0) {
            None => r matches Err(PvExtractError::NoPvRegion),
            Some(k) => r matches Ok(v) && pvs_view(v@) == pv_upto(
                source,
                c_syntax(source)->0,
                regs[k].byte_range,
                c_syntax(source)->0.len() as int,
            ),
        },
    }
}

struct DeclaratorInfo {
    name: String,
    initial_value: Option<String>,
    is_pointer: bool,
    is_array: bool,
    array_dims: Option<String>,
}

spec fn info_view(d: DeclaratorInfo) -> DeclInfo {
    DeclInfo {
        name: d.name@,
        initial_value: d.initial_value.deep_view(),
        is_pointer: d.is_pointer,
        is_array: d.is_array,
        array_dims: d.array_dims.deep_view(),
    }
}

fn first_of_kind_in(nodes: &Vec<SyntaxNode>, kids: &Vec<usize>, k: &str) -> (r: Option<usize>)
    requires
        forall|m: int| 0 <= m < kids@.len() ==> #[trigger] kids@[m] < nodes@.len(),
    ensures
        match r {
            Some(m) => first_of_kind(nodes_view(nodes@), kids@, k@, 0) == Some(m as int) && m < kids@.len(),
            None => first_of_kind(nodes_view(nodes@), kids@, k@, 0) is None,
        },
{
    let ghost ns = nodes_view(nodes@);
    let mut m: usize = 0;
    while m < kids.len()
        invariant
            0 <= m <= kids@.len(),
            ns == nodes_view(nodes@),
            forall|j: int| 0 <= j < kids@.len() ==> #[trigger] kids@[j] < nodes@.len(),
            first_of_kind(ns, kids@, k@, 0) == first_of_kind(ns, kids@, k@, m as int),
        decreases kids.len() - m,
    {
        assert(ns[kids@[m as int] as int] == nodes@[kids@[m as int] as int]@);
        if str_eq(nodes[kids[m]].kind.as_str(), k) {
            return Some(m);
        }
        m += 1;
    }
    None
}

fn first_not_of_in(nodes: &Vec<SyntaxNode>, kids: &Vec<usize>, a: &str, b: &str) -> (r: Option<usize>)
    requires
        forall|m: int| 0 <= m < kids@.len() ==> #[trigger] kids@[m] < nodes@.len(),
    ensures
        match r {
            Some(m) => first_not_of(nodes_view(nodes@), kids@, a@, b@, 0) == Some(m as int) && m < kids@.len(),
            None => first_not_of(nodes_view(nodes@), kids@, a@, b@, 0) is None,
        },
{
    let ghost ns = nodes_view(nodes@);
    let mut m: usize = 0;
    while m < kids.len()
        invariant
            0 <= m <= kids@.len(),
            ns == nodes_view(nodes@),
            forall|j: int| 0 <= j < kids@.len() ==> #[trigger] kids@[j] < nodes@.len(),
            first_not_of(ns, kids@, a@, b@, 0) == first_not_of(ns, kids@, a@, b@, m as int),
        decreases kids.len() - m,
    {
        assert(ns[kids@[m as int] as int] == nodes@[kids@[m as int] as int]@);
        let kind = nodes[kids[m]].kind.as_str();
        if !str_eq(kind, a) && !str_eq(kind, b) {
            return Some(m);
        }
        m += 1;
    }
    None
}

pub(crate) fn last_of_kind_in(nodes: &Vec<SyntaxNode>, kids: &Vec<usize>, k: &str) -> (r: Option<usize>)
    requires
        forall|m: int| 0 <= m < kids@.len() ==> #[trigger] kids@[m] < nodes@.len(),
    ensures
        match r {
            Some(m) => last_of_kind(nodes_view(nodes@), kids@, k@, kids@.len() as int) == Some(m as int)
                && m < kids@.len(),
            None => last_of_kind(nodes_view(nodes@), kids@, k@, kids@.len() as int) is None,
        },
{
    let ghost ns = nodes_view(nodes@);
    let mut m: usize = kids.len();
    while m > 0
        invariant
            0 <= m <= kids@.len(),
            ns == nodes_view(nodes@),
            forall|j: int| 0 <= j < kids@.len() ==> #[trigger] kids@[j] < nodes@.len(),
            last_of_kind(ns, kids@, k@, kids@.len() as int) == last_of_kind(ns, kids@, k@, m as int),
        decreases m,
    {
        assert(ns[kids@[m - 1] as int] == nodes@[kids@[m - 1] as int]@);
        if str_eq(nodes[kids[m - 1]].kind.as_str(), k) {
            return Some(m - 1);
        }
        m -= 1;
    }
    None
}

/// The first identifier at or below node `i`, in tree order.
fn first_ident_below(src: &SourceText, nodes: &Vec<SyntaxNode>, i: usize) -> (r: Option<String>)
    requires
        src.wf(),
        tree_wf(src@, nodes_view(nodes@)),
    ensures
        r.deep_view() == first_ident_from(src@, nodes_view(nodes@), i as int, i as int),
{
    let ghost ns = nodes_view(nodes@);
    let mut j = i;
    while j < nodes.len()
        invariant
            i <= j,
            src.wf(),
            ns == nodes_view(nodes@),
            tree_wf(src@, ns),
            first_ident_from(src@, ns, i as int, i as int) == first_ident_from(src@, ns, i as int, j as int),
        decreases nodes.len() - j,
    {
        assert(ns[j as int] == nodes@[j as int]@);
        let k = nodes[j].kind.as_str();
        if is_desc_of(nodes, j, i) && (str_eq(k, "identifier") || str_eq(k, "field_identifier")) {
            return Some(node_trimmed_text(src, nodes, j));
        }
        j += 1;
    }
    None
}

/// The dimensions of an array declarator with children `kids`.
fn array_dims_in(src: &SourceText, nodes: &Vec<SyntaxNode>, kids: &Vec<usize>) -> (r: Option<String>)
    requires
        src.wf(),
        tree_wf(src@, nodes_view(nodes@)),
        forall|m: int| 0 <= m < kids@.len() ==> #[trigger] kids@[m] < nodes@.len(),
    ensures
        r.deep_view() == array_dims_of(src@, nodes_view(nodes@), kids@),
{
    let ghost ns = nodes_view(nodes@);
    let open_at = last_of_kind_in(nodes, kids, "[");
    let close_at = last_of_kind_in(nodes, kids, "]");
    match (open_at, close_at) {
        (Some(a), Some(b)) => {
            assert(ns[kids@[a as int] as int] == nodes@[kids@[a as int] as int]@);
            assert(ns[kids@[b as int] as int] == nodes@[kids@[b as int] as int]@);
            let o = nodes[kids[a]].end_byte;
            let c = nodes[kids[b]].start_byte;
            if o <= c {
                let t = text_between(src, o, c);
                Some(crate::prettify::trimmed(t.as_str()))
            } else {
                None
            }
        },
        _ => None,
    }
}

/// What the declarator at node `i` declares.
fn parse_declarator(src: &SourceText, nodes: &Vec<SyntaxNode>, i: usize) -> (info: DeclaratorInfo)
    requires
        src.wf(),
        tree_wf(src@, nodes_view(nodes@)),
        i < nodes@.len(),
    ensures
        info_view(info) == decl_info(src@, nodes_view(nodes@), i as int),
    decreases nodes@.len() - i,
{
    let ghost ns = nodes_view(nodes@);
    assert(ns[i as int] == nodes@[i as int]@);
    let kids = children_of(nodes, i);
    let kind = nodes[i].kind.as_str();
    if str_eq(kind, "init_declarator") {
        let init = match first_of_kind_in(nodes, &kids, "=") {
            Some(e) => if e + 1 < kids.len() {
                Some(node_trimmed_text(src, nodes, kids[e + 1]))
            } else {
                None
            },
            None => None,
        };
        if kids.len() > 0 {
            let inner = parse_declarator(src, nodes, kids[0]);
            DeclaratorInfo {
                name: inner.name,
                initial_value: init,
                is_pointer: inner.is_pointer,
                is_array: inner.is_array,
                array_dims: inner.array_dims,
            }
        } else {
            DeclaratorInfo { name: String::new(), initial_value: init, is_pointer: false, is_array: false, array_dims: None }
        }
    } else if str_eq(kind, "pointer_declarator") {
        match first_not_of_in(nodes, &kids, "*", "type_qualifier") {
            Some(m) => {
                let inner = parse_declarator(src, nodes, kids[m]);
                DeclaratorInfo {
                    name: inner.name,
                    initial_value: inner.initial_value,
                    is_pointer: true,
                    is_array: inner.is_array,
                    array_dims: inner.array_dims,
                }
            },
            None => DeclaratorInfo { name: String::new(), initial_value: None, is_pointer: true, is_array: false, array_dims: None },
        }
    } else if str_eq(kind, "array_declarator") {
        let dims = array_dims_in(src, nodes, &kids);
        if kids.len() > 0 {
            let inner = parse_declarator(src, nodes, kids[0]);
            DeclaratorInfo {
                name: inner.name,
                initial_value: inner.initial_value,
                is_pointer: inner.is_pointer,
                is_array: true,
                array_dims: dims,
            }
        } else {
            DeclaratorInfo { name: String::new(), initial_value: None, is_pointer: false, is_array: true, array_dims: dims }
        }
    } else if str_eq(kind, "parenthesized_declarator") {
        match first_not_of_in(nodes, &kids, "(", ")") {
            Some(m) => parse_declarator(src, nodes, kids[m]),
            None => DeclaratorInfo { name: String::new(), initial_value: None, is_pointer: false, is_array: false, array_dims: None },
        }
    } else if str_eq(kind, "identifier") || str_eq(kind, "field_identifier") {
        DeclaratorInfo { name: node_trimmed_text(src, nodes, i), initial_value: None, is_pointer: false, is_array: false, array_dims: None }
    } else {
        let name = match first_ident_below(src, nodes, i) {
            Some(t) => t,
            None => node_trimmed_text(src, nodes, i),
        };
        DeclaratorInfo { name, initial_value: None, is_pointer: false, is_array: false, array_dims: None }
    }
}

/// For each node, whether the region scan does not enter it.
fn blocked_flags(nodes: &Vec<SyntaxNode>, r: (usize, usize)) -> (v: Vec<bool>)
    requires
        forall|i: int| 0 <= i < nodes@.len() ==> ((#[trigger] nodes@[i]).parent matches Some(p) ==> p < i),
    ensures
        v@.len() == nodes@.len(),
        forall|i: int| 0 <= i < v@.len() ==> #[trigger] v@[i] == blocked(nodes_view(nodes@), i, r),
{
    let ghost ns = nodes_view(nodes@);
    let mut v: Vec<bool> = Vec::new();
    let mut i: usize = 0;
    while i < nodes.len()
        invariant
            0 <= i <= nodes@.len(),
            ns == nodes_view(nodes@),
            forall|k: int| 0 <= k < nodes@.len() ==> ((#[trigger] nodes@[k]).parent matches Some(p) ==> p < k),
            v@.len() == i,
            forall|k: int| 0 <= k < i ==> #[trigger] v@[k] == blocked(ns, k, r),
        decreases nodes.len() - i,
    {
        assert(ns[i as int] == nodes@[i as int]@);
        let b = match nodes[i].parent {
            Some(p) => {
                assert(ns[p as int] == nodes@[p as int]@);
                let q = &nodes[p];
                (q.end_byte <= r.0 || q.start_byte >= r.1) || str_eq(q.kind.as_str(), "declaration") || v[p]
            },
            None => false,
        };
        v.push(b);
        i += 1;
    }
    v
}

/// The declarator children of node `d`.
fn declarators_of(nodes: &Vec<SyntaxNode>, d: usize) -> (v: Vec<usize>)
    ensures
        v@ == declarators(nodes_view(nodes@), d as int),
        forall|m: int| 0 <= m < v@.len() ==> d < #[trigger] v@[m] < nodes@.len(),
        forall|m: int| 0 <= m < v@.len() ==> (#[trigger] nodes@[v@[m] as int]).parent == Some(d),
{
    let ghost ns = nodes_view(nodes@);
    let kids = children_of(nodes, d);
    let mut v: Vec<usize> = Vec::new();
    let mut m: usize = 0;
    while m < kids.len()
        invariant
            0 <= m <= kids@.len(),
            ns == nodes_view(nodes@),
            kids@ == children(ns, d as int),
            forall|j: int| 0 <= j < kids@.len() ==> d < #[trigger] kids@[j] < nodes@.len(),
            forall|j: int| 0 <= j < kids@.len() ==> (#[trigger] nodes@[kids@[j] as int]).parent == Some(d),
            v@ == declarators_upto(ns, kids@, m as int),
            forall|j: int| 0 <= j < v@.len() ==> d < #[trigger] v@[j] < nodes@.len(),
            forall|j: int| 0 <= j < v@.len() ==> (#[trigger] nodes@[v@[j] as int]).parent == Some(d),
        decreases kids.len() - m,
    {
        assert(ns[kids@[m as int] as int] == nodes@[kids@[m as int] as int]@);
        let k = nodes[kids[m]].kind.as_str();
        if str_eq(k, "init_declarator") || str_eq(k, "pointer_declarator") || str_eq(k, "array_declarator")
            || str_eq(k, "function_declarator") || str_eq(k, "parenthesized_declarator") || str_eq(
            k,
            "identifier",
        ) || str_eq(k, "field_identifier") {
            v.push(kids[m]);
        }
        m += 1;
    }
    v
}

/// Appends the records of declaration `d`.
fn push_decl_records(src: &SourceText, nodes: &Vec<SyntaxNode>, d: usize, out: &mut Vec<PvDeclaration>)
    requires
        src.wf(),
        tree_wf(src@, nodes_view(nodes@)),
        d < nodes@.len(),
    ensures
        pvs_view(final(out)@) == pvs_view(old(out)@) + decl_records(src@, nodes_view(nodes@), d as int),
{
    let ghost ns = nodes_view(nodes@);
    let ghost start = pvs_view(out@);
    assert(ns[d as int] == nodes@[d as int]@);
    let ds = declarators_of(nodes, d);
    if ds.len() == 0 {
        assert(pvs_view(out@) =~= start + Seq::<PvSpec>::empty());
        return;
    }
    assert(ns[ds@[0] as int] == nodes@[ds@[0] as int]@);
    assert(nodes@[ds@[0] as int].parent == Some(d));
    let head = text_between(src, nodes[d].start_byte, nodes[ds[0]].start_byte);
    let t = crate::prettify::trimmed(head.as_str());
    let ty = if t.as_str().unicode_len() == 0 {
        crate::text::owned("int")
    } else {
        t
    };
    let ghost tyv = decl_type(src@, ns, d as int, ds@[0] as int);
    assert(ty@ == tyv);
    let raw = node_trimmed_text(src, nodes, d);
    let cs = match src.char_index(nodes[d].start_byte) {
        Some(k) => k,
        None => {
            assert(false);
            0
        },
    };
    let row = src.row_at(cs);
    let mut m: usize = 0;
    while m < ds.len()
        invariant
            0 <= m <= ds@.len(),
            src.wf(),
            ns == nodes_view(nodes@),
            tree_wf(src@, ns),
            d < nodes@.len(),
            ds@ == declarators(ns, d as int),
            ds@.len() > 0,
            forall|j: int| 0 <= j < ds@.len() ==> d < #[trigger] ds@[j] < nodes@.len(),
            ty@ == tyv,
            tyv == decl_type(src@, ns, d as int, ds@[0] as int),
            raw@ == trimmed_text(src@, ns, d as int),
            row == row_of(src@, ns[d as int].start_byte as int),
            row < usize::MAX,
            ns[d as int] == nodes@[d as int]@,
            pvs_view(out@) == start + ds@.subrange(0, m as int).map_values(
                |c: usize| pv_record(src@, ns, d as int, tyv, c as int),
            ),
        decreases ds.len() - m,
    {
        let info = parse_declarator(src, nodes, ds[m]);
        let rec = PvDeclaration {
            name: info.name,
            type_str: ty.clone(),
            initial_value: info.initial_value,
            is_pointer: info.is_pointer,
            is_array: info.is_array,
            array_dims: info.array_dims,
            raw_text: raw.clone(),
            byte_range: (nodes[d].start_byte, nodes[d].end_byte),
            line: row + 1,
        };
        let ghost prev = pvs_view(out@);
        out.push(rec);
        assert(pvs_view(out@) =~= prev.push(pv_record(src@, ns, d as int, tyv, ds@[m as int] as int)));
        assert(ds@.subrange(0, m + 1).map_values(|c: usize| pv_record(src@, ns, d as int, tyv, c as int))
            =~= ds@.subrange(0, m as int).map_values(|c: usize| pv_record(src@, ns, d as int, tyv, c as int)).push(
            pv_record(src@, ns, d as int, tyv, ds@[m as int] as int),
        ));
        m += 1;
    }
    assert(ds@.subrange(0, m as int) =~= ds@);
}

/// The declarations of the `PV` region of `source`, the text of the file
/// at `path`: for each declaration statement inside the region, one record
/// per declarator, with the statement's type, text, bytes and line.
/// Declarations of unusual shape (function pointers, inline structs) give
/// at least the name and the verbatim text.
pub fn extract_pv_declarations(path: &PathBuf, source: &str) -> (r: Result<Vec<PvDeclaration>, PvExtractError>)
    requires
        byte_len(source@) < usize::MAX,
    ensures
        pv_outcome(source@, r),
{
    let regions = match scan_source(path, source) {
        Ok(v) => v,
        Err(e) => return Err(PvExtractError::ScanError(e)),
    };
    let ghost rs = regions_view(regions@);
    let mut k: usize = 0;
    while k < regions.len() && !str_eq(regions[k].tag.as_str(), "PV")
        invariant
            0 <= k <= regions@.len(),
            rs == regions_view(regions@),
            pv_region_from(rs, 0) == pv_region_from(rs, k as int),
        decreases regions.len() - k,
    {
        assert(rs[k as int] == regions@[k as int]@);
        k += 1;
    }
    if k < regions.len() {
        assert(rs[k as int] == regions@[k as int]@);
    }
    if k == regions.len() {
        return Err(PvExtractError::NoPvRegion);
    }
    assert(rs[k as int] == regions@[k as int]@);
    let region = regions[k].byte_range;
    let src = SourceText::new(source);
    let nodes = match parse_source(&src, source) {
        Some(v) => v,
        None => return Err(PvExtractError::ParseError(crate::text::owned("tree-sitter gave no tree that fits the text"))),
    };
    let ghost ns = nodes_view(nodes@);
    assert forall|i: int| 0 <= i < nodes@.len() implies ((#[trigger] nodes@[i]).parent matches Some(p) ==> p < i) by {
        assert(ns[i] == nodes@[i]@);
    }
    let flags = blocked_flags(&nodes, region);
    let mut out: Vec<PvDeclaration> = Vec::new();
    let mut i: usize = 0;
    assert(pvs_view(out@) =~= Seq::<PvSpec>::empty());
    while i < nodes.len()
        invariant
            0 <= i <= nodes@.len(),
            src.wf(),
            src@ == source@,
            ns == nodes_view(nodes@),
            tree_wf(src@, ns),
            flags@.len() == nodes@.len(),
            forall|j: int| 0 <= j < flags@.len() ==> #[trigger] flags@[j] == blocked(ns, j, region),
            pvs_view(out@) == pv_upto(src@, ns, region, i as int),
        decreases nodes.len() - i,
    {
        assert(ns[i as int] == nodes@[i as int]@);
        let n = &nodes[i];
        if !flags[i] && str_eq(n.kind.as_str(), "declaration") && region.0 <= n.start_byte && n.end_byte <= region.1
            && !(n.end_byte <= region.0 || n.start_byte >= region.1) {
            push_decl_records(&src, &nodes, i, &mut out);
        }
        i += 1;
    }
    Ok(out)
}

} // verus!
