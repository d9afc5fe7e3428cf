//! The places where a variable is used in a C file: identifier tokens of
//! the syntax tree that carry its name, outside its declaration. The lookup
//! goes by name and is not scope-aware: a shadowing local of the same name
//! counts as a use.
use vstd::prelude::*;
use crate::marker_scan::ScanError;
use crate::prettify::trimmed;
use crate::syntax::{
    c_syntax, node_text, nodes_view, parse_source, row_of, tree_wf, SourceText, SyntaxNode,
    SyntaxNodeView,
};
use crate::text::{byte_len, chars_of, line_spans, lines, str_eq, string_of, trim};

verus! {

/// One use of a variable.
#[derive(Debug, PartialEq, Eq)]
pub struct UsageSite {
    /// The one-based line of the use.
    pub line: usize,
    /// The bytes of the identifier token itself.
    pub byte_range: (usize, usize),
    /// The line that holds the use, trimmed, for display.
    pub context_snippet: String,
}

/// The value of a `UsageSite`.
pub struct UsageSpec {
    pub line: int,
    pub byte_range: (usize, usize),
    pub context_snippet: Seq<char>,
}

impl View for UsageSite {
    type V = UsageSpec;

    open spec fn view(&self) -> UsageSpec {
        UsageSpec {
            line: self.line as int,
            byte_range: self.byte_range,
            context_snippet: self.context_snippet@,
        }
    }
}

impl Clone for UsageSite {
    fn clone(&self) -> (r: Self)
        ensures
            r@ == self@,
    {
        UsageSite {
            line: self.line,
            byte_range: self.byte_range,
            context_snippet: self.context_snippet.clone(),
        }
    }
}

pub open spec fn sites_view(v: Seq<UsageSite>) -> Seq<UsageSpec> {
    v.map_values(|u: UsageSite| u@)
}

/// A node kind that names a variable or a field.
pub open spec fn is_ident_kind(k: Seq<char>) -> bool {
    k == "identifier"@ || k == "field_identifier"@
}

/// Node `i` lies inside an identifier node.
pub open spec fn under_ident(ns: Seq<SyntaxNodeView>, i: int) -> bool
    decreases i,
{
    if i < 0 || i >= ns.len() {
        false
    } else {
        match ns[i].parent {
            Some(p) => if 0 <= p < i {
                is_ident_kind(ns[p as int].kind) || under_ident(ns, p as int)
            } else {
                false
            },
            None => false,
        }
    }
}

/// The trimmed line `row` of `s`, or nothing past the last line.
pub open spec fn line_context(s: Seq<char>, row: int) -> Seq<char> {
    if 0 <= row < lines(s).len() {
        trim(lines(s)[row])
    } else {
        seq![]
    }
}

/// The byte range `a` lies within the byte range `b`.
pub open spec fn within(a: (usize, usize), b: (usize, usize)) -> bool {
    b.0 <= a.0 && a.1 <= b.1
}

/// Node `i` is a use of the variable `name` declared at `decl`.
pub open spec fn is_use(s: Seq<char>, ns: Seq<SyntaxNodeView>, i: int, name: Seq<char>, decl: (usize, usize)) -> bool {
    &&& is_ident_kind(ns[i].kind)
    &&& !under_ident(ns, i)
    &&& trim(node_text(s, ns[i])) == trim(name)
    &&& !within((ns[i].start_byte, ns[i].end_byte), decl)
}

/// The use that node `i` makes.
pub open spec fn site_of(s: Seq<char>, n: SyntaxNodeView) -> UsageSpec {
    UsageSpec {
        line: row_of(s, n.start_byte as int) + 1int,
        byte_range: (n.start_byte, n.end_byte),
        context_snippet: line_context(s, row_of(s, n.start_byte as int) as int),
    }
}

/// The uses of `name` among the first `i` nodes, in tree order.
pub open spec fn uses_upto(s: Seq<char>, ns: Seq<SyntaxNodeView>, name: Seq<char>, decl: (usize, usize), i: int) -> Seq<UsageSpec>
    decreases i,
{
    if i <= 0 {
        seq![]
    } else {
        uses_upto(s, ns, name, decl, i - 1) + if is_use(s, ns, i - 1, name, decl) {
            seq![site_of(s, ns[i - 1])]
        } else {
            seq![]
        }
    }
}

/// The uses of `name`, outside `decl`, in tree order.
pub open spec fn uses_of(s: Seq<char>, ns: Seq<SyntaxNodeView>, name: Seq<char>, decl: (usize, usize)) -> Seq<UsageSpec> {
    uses_upto(s, ns, name, decl, ns.len() as int)
}

/// For each node, whether it lies inside an identifier node.
fn ident_nesting(nodes: &Vec<SyntaxNode>) -> (v: Vec<bool>)
    requires
        forall|i: int| 0 <= i < nodes@.len() ==> ((#[trigger] nodes@[i]).parent matches Some(p) ==> p < i),
    ensures
        v@.len() == nodes@.len(),
        forall|i: int| 0 <= i < v@.len() ==> #[trigger] v@[i] == under_ident(nodes_view(nodes@), i),
{
    let ghost ns = nodes_view(nodes@);
    let mut v: Vec<bool> = Vec::new();
    let mut i: usize = 0;
    while i < nodes.len()
        invariant
            0 <= i <= nodes@.len(),
            ns == nodes_view(nodes@),
            forall|k: int| 0 <= k < nodes@.len() ==> ((#[trigger] nodes@[k]).parent matches Some(p) ==> p < k),
            v@.len() == i,
            forall|k: int| 0 <= k < i ==> #[trigger] v@[k] == under_ident(ns, k),
        decreases nodes.len() - i,
    {
        assert(ns[i as int] == nodes@[i as int]@);
        let b = match nodes[i].parent {
            Some(p) => {
                assert(ns[p as int] == nodes@[p as int]@);
                str_eq(nodes[p].kind.as_str(), "identifier") || str_eq(nodes[p].kind.as_str(), "field_identifier") || v[p]
            },
            None => false,
        };
        v.push(b);
        i += 1;
    }
    v
}

/// The uses of one variable.
fn uses_of_target(
    src: &SourceText,
    nodes: &Vec<SyntaxNode>,
    nested: &Vec<bool>,
    spans: &Vec<(usize, usize)>,
    chars: &Vec<char>,
    name: &str,
    decl: (usize, usize),
) -> (out: Vec<UsageSite>)
    requires
        src.wf(),
        chars@ == src@,
        tree_wf(src@, nodes_view(nodes@)),
        nested@.len() == nodes@.len(),
        forall|i: int| 0 <= i < nested@.len() ==> #[trigger] nested@[i] == under_ident(nodes_view(nodes@), i),
        spans@.len() == lines(chars@).len(),
        forall|j: int| 0 <= j < spans@.len() ==> (#[trigger] spans@[j]).0 <= spans@[j].1 <= chars@.len(),
        forall|j: int|
            0 <= j < spans@.len() ==> #[trigger] chars@.subrange(spans@[j].0 as int, spans@[j].1 as int)
                == lines(chars@)[j],
    ensures
        sites_view(out@) == uses_of(src@, nodes_view(nodes@), name@, decl),
{
    let ghost ns = nodes_view(nodes@);
    let ghost s = src@;
    let key = trimmed(name);
    let mut out: Vec<UsageSite> = Vec::new();
    let mut i: usize = 0;
    assert(sites_view(out@) =~= Seq::<UsageSpec>::empty());
    while i < nodes.len()
        invariant
            src.wf(),
            s == src@,
            chars@ == s,
            ns == nodes_view(nodes@),
            tree_wf(s, ns),
            key@ == trim(name@),
            0 <= i <= nodes@.len(),
            nested@.len() == nodes@.len(),
            forall|k: int| 0 <= k < nested@.len() ==> #[trigger] nested@[k] == under_ident(ns, k),
            spans@.len() == lines(chars@).len(),
            forall|j: int| 0 <= j < spans@.len() ==> (#[trigger] spans@[j]).0 <= spans@[j].1 <= chars@.len(),
            forall|j: int|
                0 <= j < spans@.len() ==> #[trigger] chars@.subrange(spans@[j].0 as int, spans@[j].1 as int)
                    == lines(chars@)[j],
            sites_view(out@) == uses_upto(s, ns, name@, decl, i as int),
        decreases nodes.len() - i,
    {
        let ghost before = sites_view(out@);
        let n = &nodes[i];
        assert(ns[i as int] == n@);
        let ident = str_eq(n.kind.as_str(), "identifier") || str_eq(n.kind.as_str(), "field_identifier");
        if ident && !nested[i] && !(decl.0 <= n.start_byte && n.end_byte <= decl.1) {
            let cs = match src.char_index(n.start_byte) {
                Some(k) => k,
                None => {
                    assert(false);
                    0
                },
            };
            let ce = match src.char_index(n.end_byte) {
                Some(k) => k,
                None => {
                    assert(false);
                    0
                },
            };
            proof {
                crate::text::lemma_chars_for_bytes_monotone(s, n.start_byte as int, n.end_byte as int);
            }
            let text = src.slice(cs, ce);
            let t = trimmed(text.as_str());
            if str_eq(t.as_str(), key.as_str()) {
                let row = src.row_at(cs);
                let context = if row < spans.len() {
                    let (a, b) = spans[row];
                    let l = string_of(chars, a, b);
                    trimmed(l.as_str())
                } else {
                    String::new()
                };
                assert(text@ == node_text(s, ns[i as int]));
                assert(context@ == line_context(s, row as int));
                out.push(UsageSite { line: row + 1, byte_range: (n.start_byte, n.end_byte), context_snippet: context });
                assert(sites_view(out@) =~= before.push(site_of(s, ns[i as int])));
            }
        }
        assert(uses_upto(s, ns, name@, decl, i + 1) == uses_upto(s, ns, name@, decl, i as int) + if is_use(s, ns, i as int, name@, decl) {
            seq![site_of(s, ns[i as int])]
        } else {
            seq![]
        });
        i += 1;
    }
    out
}

/// The uses of each target variable, `(name, declaration bytes)`, in
/// `source`: for each, in tree order, the identifier tokens whose trimmed
/// text is the trimmed name and whose bytes do not lie within the declaration.
pub fn find_variable_usages_batch_from_source(
    source: &str,
    targets: &[(&str, (usize, usize))],
) -> (r: Result<Vec<Vec<UsageSite>>, ScanError>)
    requires
        byte_len(source@) < usize::MAX,
    ensures
        targets@.len() == 0 ==> (r matches Ok(v) && v@.len() == 0),
        targets@.len() > 0 ==> (match c_syntax(source@) {
            None => r matches Err(ScanError::ParseError(_)),
            Some(ns) => if !tree_wf(source@, ns) {
                r matches Err(ScanError::ParseError(_))
            } else {
                r matches Ok(v) && v@.len() == targets@.len() && forall|t: int|
                    0 <= t < v@.len() ==> sites_view(#[trigger] v@[t]@) == uses_of(
                        source@,
                        ns,
                        targets@[t].0@,
                        targets@[t].1,
                    )
            },
        }),
{
    if targets.len() == 0 {
        return Ok(Vec::new());
    }
    let src = SourceText::new(source);
    let nodes = match parse_source(&src, source) {
        Some(v) => v,
        None => return Err(ScanError::ParseError(crate::text::owned("tree-sitter gave no tree that fits the text"))),
    };
    let ghost ns = nodes_view(nodes@);
    assert forall|i: int| 0 <= i < nodes@.len() implies ((#[trigger] nodes@[i]).parent matches Some(p) ==> p < i) by {
        assert(ns[i] == nodes@[i]@);
    }
    let nested = ident_nesting(&nodes);
    let chars = chars_of(source);
    let spans = line_spans(&chars);
    let mut results: Vec<Vec<UsageSite>> = Vec::new();
    let mut t: usize = 0;
    while t < targets.len()
        invariant
            src.wf(),
            src@ == source@,
            chars@ == source@,
            ns == nodes_view(nodes@),
            tree_wf(source@, ns),
            nested@.len() == nodes@.len(),
            forall|k: int| 0 <= k < nested@.len() ==> #[trigger] nested@[k] == under_ident(ns, k),
            spans@.len() == lines(chars@).len(),
            forall|j: int| 0 <= j < spans@.len() ==> (#[trigger] spans@[j]).0 <= spans@[j].1 <= chars@.len(),
            forall|j: int|
                0 <= j < spans@.len() ==> #[trigger] chars@.subrange(spans@[j].0 as int, spans@[j].1 as int)
                    == lines(chars@)[j],
            0 <= t <= targets@.len(),
            results@.len() == t,
            forall|k: int|
                0 <= k < t ==> sites_view(#[trigger] results@[k]@) == uses_of(
                    source@,
                    ns,
                    targets@[k].0@,
                    targets@[k].1,
                ),
        decreases targets.len() - t,
    {
        let (name, decl) = targets[t];
        let list = uses_of_target(&src, &nodes, &nested, &spans, &chars, name, decl);
        results.push(list);
        t += 1;
    }
    Ok(results)
}

/// The uses of `variable_name` in `source`, outside its declaration.
pub fn find_variable_usages(
    source: &str,
    variable_name: &str,
    declaration_byte_range: (usize, usize),
) -> (r: Result<Vec<UsageSite>, ScanError>)
    requires
        byte_len(source@) < usize::MAX,
    ensures
        match c_syntax(source@) {
            None => r matches Err(ScanError::ParseError(_)),
            Some(ns) => if !tree_wf(source@, ns) {
                r matches Err(ScanError::ParseError(_))
            } else {
                r matches Ok(v) && sites_view(v@) == uses_of(
                    source@,
                    ns,
                    variable_name@,
                    declaration_byte_range,
                )
            },
        },
{
    let targets = [(variable_name, declaration_byte_range)];
    let mut batch = find_variable_usages_batch_from_source(source, &targets)?;
    assert(targets@.len() == 1);
    match batch.pop() {
        Some(list) => Ok(list),
        None => Ok(Vec::new()),
    }
}

} // verus!
