//! The `USER CODE BEGIN <tag>` / `USER CODE END <tag>` regions of a
//! CubeMX-generated C file: the places where user code survives
//! regeneration.
use vstd::prelude::*;
use std::path::PathBuf;
use crate::paths::clone_path;
use crate::syntax::{
    c_syntax, node_text, nodes_view, parse_source, row_of, tree_wf, SourceText, SyntaxNode,
    SyntaxNodeView,
};
use crate::text::{
    byte_len, chars_of, ends_with_in, starts_with, starts_with_in, str_eq, string_of, strip_suffix_or,
    trim, trim_range,
};

verus! {

/// A user code region.
#[derive(Debug, PartialEq, Eq)]
pub struct UserRegion {
    pub tag: String,
    pub file: PathBuf,
    /// The bytes strictly between the BEGIN and END marker comments.
    pub byte_range: (usize, usize),
    /// The one-based lines of the two markers; for display only.
    pub line_range: (usize, usize),
    /// The bytes of the `USER CODE BEGIN <tag>` comment itself.
    pub begin_marker_range: (usize, usize),
    /// The bytes of the `USER CODE END <tag>` comment itself.
    pub end_marker_range: (usize, usize),
}

/// The value of a `UserRegion`, less its file.
pub struct RegionSpec {
    pub tag: Seq<char>,
    pub byte_range: (usize, usize),
    pub line_range: (int, int),
    pub begin_marker_range: (usize, usize),
    pub end_marker_range: (usize, usize),
}

impl View for UserRegion {
    type V = RegionSpec;

    open spec fn view(&self) -> RegionSpec {
        RegionSpec {
            tag: self.tag@,
            byte_range: self.byte_range,
            line_range: (self.line_range.0 as int, self.line_range.1 as int),
            begin_marker_range: self.begin_marker_range,
            end_marker_range: self.end_marker_range,
        }
    }
}

impl Clone for UserRegion {
    fn clone(&self) -> (r: Self)
        ensures
            r@ == self@,
            r.file == self.file,
    {
        UserRegion {
            tag: self.tag.clone(),
            file: clone_path(&self.file),
            byte_range: self.byte_range,
            line_range: self.line_range,
            begin_marker_range: self.begin_marker_range,
            end_marker_range: self.end_marker_range,
        }
    }
}

pub open spec fn regions_view(v: Seq<UserRegion>) -> Seq<RegionSpec> {
    v.map_values(|r: UserRegion| r@)
}

/// Why scanning a file for regions failed.
#[derive(Debug)]
pub enum ScanError {
    FileNotFound(PathBuf),
    IoError(String),
    ParseError(String),
    /// A BEGIN was closed by an END of another tag, or never closed.
    MismatchedMarkers(String),
    /// An END came with no BEGIN open.
    UnknownEndTag(String),
}

/// `m` is the message of `e`; the text of a path is left open.
pub open spec fn scan_message(e: ScanError, m: Seq<char>) -> bool {
    match e {
        ScanError::FileNotFound(_) => exists|t: Seq<char>| m == #[trigger] "file not found: "@.add(t),
        ScanError::IoError(x) => m == "I/O error: "@ + x@,
        ScanError::ParseError(x) => m == "failed to parse C source: "@ + x@,
        ScanError::MismatchedMarkers(t) => m == "mismatched USER CODE BEGIN/END for tag '"@ + t@ + "'"@,
        ScanError::UnknownEndTag(t) => m == "USER CODE END tag '"@ + t@ + "' does not match any open BEGIN"@,
    }
}

impl ScanError {
    /// The message that describes the error.
    pub fn message(&self) -> (r: String)
        ensures
            scan_message(*self, r@),
    {
        match self {
            ScanError::FileNotFound(p) => {
                let t = crate::paths::display_path(p);
                let r = crate::text::concat_str("file not found: ", t.as_str());
                assert(r@ == "file not found: "@.add(t@));
                r
            },
            ScanError::IoError(e) => crate::text::concat_str("I/O error: ", e.as_str()),
            ScanError::ParseError(e) => crate::text::concat_str("failed to parse C source: ", e.as_str()),
            ScanError::MismatchedMarkers(t) => crate::text::concat3(
                "mismatched USER CODE BEGIN/END for tag '",
                t.as_str(),
                "'",
            ),
            ScanError::UnknownEndTag(t) => crate::text::concat3(
                "USER CODE END tag '",
                t.as_str(),
                "' does not match any open BEGIN",
            ),
        }
    }
}

/// A marker comment.
pub enum MarkerSpec {
    Begin(Seq<char>),
    End(Seq<char>),
}

/// A marker comment, found.
pub enum MarkerType {
    Begin(String),
    End(String),
}

pub open spec fn marker_view(m: Option<MarkerType>) -> Option<MarkerSpec> {
    match m {
        Some(MarkerType::Begin(t)) => Some(MarkerSpec::Begin(t@)),
        Some(MarkerType::End(t)) => Some(MarkerSpec::End(t@)),
        None => None,
    }
}

/// The inside of a `/* .. */` or `// ..` comment.
pub open spec fn comment_inner(text: Seq<char>) -> Option<Seq<char>> {
    if starts_with(text, "/*"@) {
        Some(strip_suffix_or(text.subrange(2, text.len() as int), "*/"@))
    } else if starts_with(text, "//"@) {
        Some(text.subrange(2, text.len() as int))
    } else {
        None
    }
}

/// The marker that a comment's text makes, if any: its inside, trimmed,
/// starts with `USER CODE BEGIN ` or `USER CODE END ` and a non-empty tag.
pub open spec fn comment_marker(text: Seq<char>) -> Option<MarkerSpec> {
    match comment_inner(text) {
        None => None,
        Some(inner) => {
            let t = trim(inner);
            let b = "USER CODE BEGIN "@;
            let e = "USER CODE END "@;
            if starts_with(t, b) {
                let tag = trim(t.subrange(b.len() as int, t.len() as int));
                if tag.len() > 0 {
                    Some(MarkerSpec::Begin(tag))
                } else {
                    None
                }
            } else if starts_with(t, e) {
                let tag = trim(t.subrange(e.len() as int, t.len() as int));
                if tag.len() > 0 {
                    Some(MarkerSpec::End(tag))
                } else {
                    None
                }
            } else {
                None
            }
        },
    }
}

/// The marker that a comment's text makes.
pub fn parse_comment_marker(text: &str) -> (r: Option<MarkerType>)
    ensures
        marker_view(r) == comment_marker(text@),
{
    proof {
        reveal_strlit("/*");
        reveal_strlit("*/");
        reveal_strlit("//");
    }
    let c = chars_of(text);
    let n = c.len();
    assert(c@.subrange(0, n as int) =~= c@);
    let open_block = chars_of("/*");
    let close_block = chars_of("*/");
    let line = chars_of("//");
    let (lo, hi) = if starts_with_in(&c, 0, n, &open_block) {
        if ends_with_in(&c, 2, n, &close_block) {
            assert(c@.subrange(2, n as int).subrange(0, n - 4) =~= c@.subrange(2, n - 2));
            (2, n - 2)
        } else {
            (2, n)
        }
    } else if starts_with_in(&c, 0, n, &line) {
        (2, n)
    } else {
        return None;
    };
    let (a, b) = trim_range(&c, lo, hi);
    let ghost t = c@.subrange(a as int, b as int);
    let begin = chars_of("USER CODE BEGIN ");
    let end = chars_of("USER CODE END ");
    if starts_with_in(&c, a, b, &begin) {
        assert(t.subrange(begin@.len() as int, t.len() as int) =~= c@.subrange(a + begin@.len(), b as int));
        let (x, y) = trim_range(&c, a + begin.len(), b);
        if x < y {
            return Some(MarkerType::Begin(string_of(&c, x, y)));
        }
        return None;
    } else if starts_with_in(&c, a, b, &end) {
        assert(t.subrange(end@.len() as int, t.len() as int) =~= c@.subrange(a + end@.len(), b as int));
        let (x, y) = trim_range(&c, a + end.len(), b);
        if x < y {
            return Some(MarkerType::End(string_of(&c, x, y)));
        }
        return None;
    }
    None
}

/// A BEGIN marker waiting for its END.
pub struct OpenSpec {
    pub tag: Seq<char>,
    pub end_byte: usize,
    pub start_line: int,
    pub begin_marker_range: (usize, usize),
}

struct OpenMarker {
    tag: String,
    end_byte: usize,
    start_line: usize,
    begin_marker_range: (usize, usize),
}

impl View for OpenMarker {
    type V = OpenSpec;

    closed spec fn view(&self) -> OpenSpec {
        OpenSpec {
            tag: self.tag@,
            end_byte: self.end_byte,
            start_line: self.start_line as int,
            begin_marker_range: self.begin_marker_range,
        }
    }
}

/// Why the markers of a file do not pair up.
pub enum ScanFailure {
    Mismatched(Seq<char>),
    UnknownEnd(Seq<char>),
}

/// The open markers and the finished regions.
pub type ScanState = Result<(Seq<OpenSpec>, Seq<RegionSpec>), ScanFailure>;

/// The scan after one more node.
pub open spec fn scan_step(src: Seq<char>, st: ScanState, n: SyntaxNodeView) -> ScanState {
    match st {
        Err(e) => Err(e),
        Ok((open, regs)) => if n.kind != "comment"@ {
            Ok((open, regs))
        } else {
            match comment_marker(node_text(src, n)) {
                None => Ok((open, regs)),
                Some(MarkerSpec::Begin(tag)) => Ok(
                    (
                        open.push(
                            OpenSpec {
                                tag,
                                end_byte: n.end_byte,
                                start_line: row_of(src, n.start_byte as int) + 1int,
                                begin_marker_range: (n.start_byte, n.end_byte),
                            },
                        ),
                        regs,
                    ),
                ),
                Some(MarkerSpec::End(tag)) => if open.len() == 0 {
                    Err(ScanFailure::UnknownEnd(tag))
                } else if open.last().tag != tag {
                    Err(ScanFailure::Mismatched(open.last().tag))
                } else {
                    Ok(
                        (
                            open.drop_last(),
                            regs.push(
                                RegionSpec {
                                    tag,
                                    byte_range: (open.last().end_byte, n.start_byte),
                                    line_range: (
                                        open.last().start_line,
                                        row_of(src, n.end_byte as int) + 1int,
                                    ),
                                    begin_marker_range: open.last().begin_marker_range,
                                    end_marker_range: (n.start_byte, n.end_byte),
                                },
                            ),
                        ),
                    )
                },
            }
        },
    }
}

/// The scan after the first `i` nodes.
pub open spec fn scan_upto(src: Seq<char>, nodes: Seq<SyntaxNodeView>, i: int) -> ScanState
    decreases i,
{
    if i <= 0 {
        Ok((seq![], seq![]))
    } else {
        scan_step(src, scan_upto(src, nodes, i - 1), nodes[i - 1])
    }
}

/// The regions of a file, from its marker comments in the order of the
/// tree; an END pairs with the latest open BEGIN, which must carry the same
/// tag, and every BEGIN must be closed.
pub open spec fn user_regions(src: Seq<char>, nodes: Seq<SyntaxNodeView>) -> Result<
    Seq<RegionSpec>,
    ScanFailure,
> {
    match scan_upto(src, nodes, nodes.len() as int) {
        Err(e) => Err(e),
        Ok((open, regs)) => if open.len() > 0 {
            Err(ScanFailure::Mismatched(open.last().tag))
        } else {
            Ok(regs)
        },
    }
}

/// Once the markers fail to pair up, the scan stays failed.
proof fn lemma_scan_err_sticks(src: Seq<char>, nodes: Seq<SyntaxNodeView>, i: int, j: int)
    requires
        0 <= i <= j,
        scan_upto(src, nodes, i) is Err,
    ensures
        scan_upto(src, nodes, j) == scan_upto(src, nodes, i),
    decreases j - i,
{
    if j > i {
        lemma_scan_err_sticks(src, nodes, i, j - 1);
    }
}

/// A scan error, as a value.
pub enum ScanErrorSpec {
    Parse,
    Mismatched(Seq<char>),
    UnknownEnd(Seq<char>),
    Other,
}

pub open spec fn scan_error_view(e: ScanError) -> ScanErrorSpec {
    match e {
        ScanError::ParseError(_) => ScanErrorSpec::Parse,
        ScanError::MismatchedMarkers(t) => ScanErrorSpec::Mismatched(t@),
        ScanError::UnknownEndTag(t) => ScanErrorSpec::UnknownEnd(t@),
        _ => ScanErrorSpec::Other,
    }
}

/// The regions of `source`, or why there are none: no syntax tree that fits
/// the text, or markers that do not pair up.
pub open spec fn scan_spec(source: Seq<char>) -> Result<Seq<RegionSpec>, ScanErrorSpec> {
    match c_syntax(source) {
        None => Err(ScanErrorSpec::Parse),
        Some(ns) => if !tree_wf(source, ns) {
            Err(ScanErrorSpec::Parse)
        } else {
            match user_regions(source, ns) {
                Ok(regs) => Ok(regs),
                Err(ScanFailure::Mismatched(t)) => Err(ScanErrorSpec::Mismatched(t)),
                Err(ScanFailure::UnknownEnd(t)) => Err(ScanErrorSpec::UnknownEnd(t)),
            }
        },
    }
}

/// `r` is what scanning `source`, the text of the file at `path`, gives.
pub open spec fn scan_outcome(
    source: Seq<char>,
    r: Result<Vec<UserRegion>, ScanError>,
    path: PathBuf,
) -> bool {
    match r {
        Ok(v) => scan_spec(source) == Ok::<Seq<RegionSpec>, ScanErrorSpec>(regions_view(v@))
            && forall|i: int| 0 <= i < v@.len() ==> (#[trigger] v@[i]).file == path,
        Err(e) => scan_spec(source) == Err::<Seq<RegionSpec>, ScanErrorSpec>(scan_error_view(e)),
    }
}

/// The user code regions of `source`, the text of the file at `path`.
pub fn scan_source(path: &PathBuf, source: &str) -> (r: Result<Vec<UserRegion>, ScanError>)
    requires
        byte_len(source@) < usize::MAX,
    ensures
        scan_outcome(source@, r, *path),
{
    let src = SourceText::new(source);
    let nodes = match parse_source(&src, source) {
        Some(v) => v,
        None => return Err(ScanError::ParseError(crate::text::owned("tree-sitter gave no tree that fits the text"))),
    };
    let ghost ns = nodes_view(nodes@);
    let mut open: Vec<OpenMarker> = Vec::new();
    let mut regions: Vec<UserRegion> = Vec::new();
    let mut i: usize = 0;
    assert(open@.map_values(|o: OpenMarker| o@) =~= Seq::<OpenSpec>::empty());
    assert(regions_view(regions@) =~= Seq::<RegionSpec>::empty());
    while i < nodes.len()
        invariant
            src.wf(),
            src@ == source@,
            ns == nodes_view(nodes@),
            c_syntax(source@) == Some(ns),
            tree_wf(source@, ns),
            0 <= i <= nodes@.len(),
            scan_upto(source@, ns, i as int) == Ok::<_, ScanFailure>(
                (open@.map_values(|o: OpenMarker| o@), regions_view(regions@)),
            ),
            forall|j: int| 0 <= j < regions@.len() ==> (#[trigger] regions@[j]).file == *path,
        decreases nodes.len() - i,
    {
        let ghost nv = ns[i as int];
        assert(nv == nodes@[i as int]@);
        let ghost before_open = open@.map_values(|o: OpenMarker| o@);
        let ghost before_regs = regions_view(regions@);
        if str_eq(nodes[i].kind.as_str(), "comment") {
            let sb = nodes[i].start_byte;
            let eb = nodes[i].end_byte;
            let cs = match src.char_index(sb) {
                Some(k) => k,
                None => {
                    assert(false);
                    0
                },
            };
            let ce = match src.char_index(eb) {
                Some(k) => k,
                None => {
                    assert(false);
                    0
                },
            };
            proof {
                crate::text::lemma_chars_for_bytes_monotone(source@, sb as int, eb as int);
            }
            let text = src.slice(cs, ce);
            match parse_comment_marker(text.as_str()) {
                None => {},
                Some(MarkerType::Begin(tag)) => {
                    let row = src.row_at(cs);
                    open.push(
                        OpenMarker { tag, end_byte: eb, start_line: row + 1, begin_marker_range: (sb, eb) },
                    );
                    assert(open@.map_values(|o: OpenMarker| o@) =~= before_open.push(open@.last()@));
                },
                Some(MarkerType::End(tag)) => {
                    if open.len() == 0 {
                        proof {
                            lemma_scan_err_sticks(source@, ns, i + 1, ns.len() as int);
                        }
                        return Err(ScanError::UnknownEndTag(tag));
                    }
                    let last = open.pop().unwrap();
                    assert(before_open.last() == last@);
                    assert(open@.map_values(|o: OpenMarker| o@) =~= before_open.drop_last());
                    if !str_eq(last.tag.as_str(), tag.as_str()) {
                        proof {
                            lemma_scan_err_sticks(source@, ns, i + 1, ns.len() as int);
                        }
                        return Err(ScanError::MismatchedMarkers(last.tag));
                    }
                    let row = src.row_at(ce);
                    regions.push(
                        UserRegion {
                            tag,
                            file: clone_path(path),
                            byte_range: (last.end_byte, sb),
                            line_range: (last.start_line, row + 1),
                            begin_marker_range: last.begin_marker_range,
                            end_marker_range: (sb, eb),
                        },
                    );
                    assert(regions_view(regions@) =~= before_regs.push(regions@.last()@));
                },
            }
        }
        assert(scan_upto(source@, ns, i + 1) == scan_step(source@, scan_upto(source@, ns, i as int), nv));
        i += 1;
    }
    if open.len() > 0 {
        let last = open.pop().unwrap();
        return Err(ScanError::MismatchedMarkers(last.tag));
    }
    assert(open@.map_values(|o: OpenMarker| o@) =~= Seq::<OpenSpec>::empty());
    Ok(regions)
}

/// The first index at or after `i` of a region tagged `WHILE`.
pub open spec fn while_index(rs: Seq<RegionSpec>, i: int) -> Option<int>
    decreases rs.len() - i,
{
    if i < 0 || i >= rs.len() {
        None
    } else if rs[i].tag == "WHILE"@ {
        Some(i)
    } else {
        while_index(rs, i + 1)
    }
}

/// The main loop's body, between `USER CODE END WHILE` and the BEGIN of the
/// region after `WHILE`.
pub open spec fn loop_body_gap(rs: Seq<RegionSpec>) -> Option<RegionSpec> {
    match while_index(rs, 0) {
        Some(w) => if w + 1 < rs.len() {
            Some(
                RegionSpec {
                    tag: "__loop_body__"@,
                    byte_range: (rs[w].end_marker_range.1, rs[w + 1].begin_marker_range.0),
                    line_range: (rs[w].line_range.1, rs[w + 1].line_range.0),
                    begin_marker_range: (0, 0),
                    end_marker_range: (0, 0),
                },
            )
        } else {
            None
        },
        None => None,
    }
}

/// The implicit region of the main loop's body: from the end of the
/// `USER CODE END WHILE` comment to the start of the next region's BEGIN
/// comment. It has no marker comments of its own, so both marker ranges
/// are `(0, 0)`; its file is that of the `WHILE` region.
pub fn find_loop_body_gap(regions: &[UserRegion]) -> (r: Option<UserRegion>)
    ensures
        match r {
            Some(g) => loop_body_gap(regions_view(regions@)) == Some(g@) && g.file
                == regions@[while_index(regions_view(regions@), 0)->0].file,
            None => loop_body_gap(regions_view(regions@)) is None,
        },
{
    let ghost rs = regions_view(regions@);
    let mut i: usize = 0;
    while i < regions.len()
        invariant
            0 <= i <= regions@.len(),
            rs == regions_view(regions@),
            while_index(rs, 0) == while_index(rs, i as int),
        decreases regions.len() - i,
    {
        assert(rs[i as int] == regions@[i as int]@);
        if str_eq(regions[i].tag.as_str(), "WHILE") {
            if i + 1 < regions.len() {
                let w = &regions[i];
                let next = &regions[i + 1];
                assert(rs[i + 1] == regions@[i + 1]@);
                return Some(
                    UserRegion {
                        tag: crate::text::owned("__loop_body__"),
                        file: clone_path(&w.file),
                        byte_range: (w.end_marker_range.1, next.begin_marker_range.0),
                        line_range: (w.line_range.1, next.line_range.0),
                        begin_marker_range: (0, 0),
                        end_marker_range: (0, 0),
                    },
                );
            }
            return None;
        }
        i += 1;
    }
    None
}

/// Byte `b` lies in the byte range of one of the regions.
pub open spec fn in_some_region(b: usize, rs: Seq<RegionSpec>) -> bool {
    exists|i: int| 0 <= i < rs.len() && (#[trigger] rs[i]).byte_range.0 <= b < rs[i].byte_range.1
}

/// Byte `byte_offset` lies in the byte range of one of the regions.
pub fn is_byte_in_user_region(byte_offset: usize, regions: &[UserRegion]) -> (b: bool)
    ensures
        b == in_some_region(byte_offset, regions_view(regions@)),
{
    let ghost rs = regions_view(regions@);
    let mut i: usize = 0;
    while i < regions.len()
        invariant
            0 <= i <= regions@.len(),
            rs == regions_view(regions@),
            forall|j: int| 0 <= j < i ==> !((#[trigger] rs[j]).byte_range.0 <= byte_offset < rs[j].byte_range.1),
        decreases regions.len() - i,
    {
        assert(rs[i as int] == regions@[i as int]@);
        if regions[i].byte_range.0 <= byte_offset && byte_offset < regions[i].byte_range.1 {
            return true;
        }
        i += 1;
    }
    false
}

} // verus!
