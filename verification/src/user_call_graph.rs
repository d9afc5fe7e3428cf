//! The functions that a C file defines and the calls between them.
use vstd::prelude::*;
use crate::hal_rules::{hal_irq_mappings, hal_irq_table, mappings_view};
use crate::marker_scan::ScanError;
use crate::pin_modules::{field_child, field_child_of};
use crate::syntax::{
    c_syntax, children, children_of, node_text, nodes_view, parse_source, row_of, text_between, tree_wf,
    SourceText, SyntaxNode, SyntaxNodeView,
};
use crate::text::{byte_len, str_eq};

verus! {

/// A function that the file defines.
#[derive(Debug, PartialEq, Eq)]
pub struct UserFunction {
    pub name: String,
    /// The bytes of the whole definition.
    pub byte_range: (usize, usize),
    /// The one-based line where the definition starts.
    pub line: usize,
    /// The name is one of the HAL's weak callbacks.
    pub is_hal_callback: bool,
}

/// A call from one function of the file to another.
#[derive(Debug, Clone, PartialEq, Eq)]
pub struct UserCallEdge {
    pub from: String,
    pub to: String,
}

/// The value of a `UserFunction`.
pub struct FunctionSpec {
    pub name: Seq<char>,
    pub byte_range: (usize, usize),
    pub line: int,
    pub is_hal_callback: bool,
}

impl View for UserFunction {
    type V = FunctionSpec;

    open spec fn view(&self) -> FunctionSpec {
        FunctionSpec {
            name: self.name@,
            byte_range: self.byte_range,
            line: self.line as int,
            is_hal_callback: self.is_hal_callback,
        }
    }
}

impl Clone for UserFunction {
    fn clone(&self) -> (r: Self)
        ensures
            r@ == self@,
    {
        UserFunction {
            name: self.name.clone(),
            byte_range: self.byte_range,
            line: self.line,
            is_hal_callback: self.is_hal_callback,
        }
    }
}

pub open spec fn functions_view(v: Seq<UserFunction>) -> Seq<FunctionSpec> {
    v.map_values(|f: UserFunction| f@)
}

pub open spec fn call_edges_view(v: Seq<UserCallEdge>) -> Seq<(Seq<char>, Seq<char>)> {
    v.map_values(|e: UserCallEdge| (e.from@, e.to@))
}

/// A declarator kind that wraps the declared name.
pub open spec fn is_wrapping_declarator(k: Seq<char>) -> bool {
    k == "function_declarator"@ || k == "pointer_declarator"@ || k == "parenthesized_declarator"@ || k
        == "array_declarator"@
}

/// The first of `kids`, from position `m`, that is an identifier or has a
/// `declarator` field.
pub open spec fn first_named_child(ns: Seq<SyntaxNodeView>, kids: Seq<usize>, m: int) -> Option<usize>
    decreases kids.len() - m,
{
    if m < 0 || m >= kids.len() {
        None
    } else if 0 <= kids[m] < ns.len() && (ns[kids[m] as int].kind == "identifier"@ || field_child(
        ns,
        kids[m] as int,
        "declarator"@,
    ) is Some) {
        Some(kids[m])
    } else {
        first_named_child(ns, kids, m + 1)
    }
}

/// The name of the function that the declarator at node `i` declares.
pub open spec fn function_name(s: Seq<char>, ns: Seq<SyntaxNodeView>, i: int) -> Option<Seq<char>>
    decreases ns.len() - i,
{
    if i < 0 || i >= ns.len() {
        None
    } else if ns[i].kind == "identifier"@ {
        Some(node_text(s, ns[i]))
    } else if is_wrapping_declarator(ns[i].kind) {
        match field_child(ns, i, "declarator"@) {
            Some(c) => if i < c < ns.len() {
                function_name(s, ns, c as int)
            } else {
                None
            },
            None => if children(ns, i).len() > 0 && i < children(ns, i)[0] < ns.len() {
                function_name(s, ns, children(ns, i)[0] as int)
            } else {
                None
            },
        }
    } else {
        match first_named_child(ns, children(ns, i), 0) {
            Some(c) => if ns[c as int].kind == "identifier"@ {
                Some(node_text(s, ns[c as int]))
            } else if i < c < ns.len() {
                function_name(s, ns, c as int)
            } else {
                None
            },
            None => None,
        }
    }
}

/// The name that the callee expression at node `i` calls.
pub open spec fn called_name(s: Seq<char>, ns: Seq<SyntaxNodeView>, i: int) -> Option<Seq<char>>
    decreases ns.len() - i,
{
    if i < 0 || i >= ns.len() {
        None
    } else if ns[i].kind == "identifier"@ {
        Some(node_text(s, ns[i]))
    } else if ns[i].kind == "parenthesized_expression"@ {
        if children(ns, i).len() > 0 && i < children(ns, i)[0] < ns.len() {
            called_name(s, ns, children(ns, i)[0] as int)
        } else {
            None
        }
    } else if ns[i].kind == "field_expression"@ {
        match field_child(ns, i, "field"@) {
            Some(c) => if i < c < ns.len() {
                called_name(s, ns, c as int)
            } else {
                None
            },
            None => None,
        }
    } else {
        None
    }
}

/// Node `i` lies inside a function definition.
pub open spec fn inside_function(ns: Seq<SyntaxNodeView>, i: int) -> bool
    decreases i,
{
    if i < 0 || i >= ns.len() {
        false
    } else {
        match ns[i].parent {
            Some(p) => p < i && (ns[p as int].kind == "function_definition"@ || inside_function(ns, p as int)),
            None => false,
        }
    }
}

/// The name of the function that node `i` defines, when it is a function
/// definition outside any other with a named declarator.
pub open spec fn defined_name(s: Seq<char>, ns: Seq<SyntaxNodeView>, i: int) -> Option<Seq<char>> {
    if 0 <= i < ns.len() && ns[i].kind == "function_definition"@ && !inside_function(ns, i) {
        match field_child(ns, i, "declarator"@) {
            Some(d) => function_name(s, ns, d as int),
            None => None,
        }
    } else {
        None
    }
}

/// `name` is a weak callback of the HAL interrupt table.
pub open spec fn is_weak_callback(name: Seq<char>) -> bool {
    exists|r: int, k: int|
        0 <= r < hal_irq_table().len() && 0 <= k < hal_irq_table()[r].weak_callbacks.len() && #[trigger] hal_irq_table()[r].weak_callbacks[k]
            == name
}

/// The definitions among the first `i` nodes: node index and name.
pub open spec fn definitions_upto(s: Seq<char>, ns: Seq<SyntaxNodeView>, i: int) -> Seq<(int, Seq<char>)>
    decreases i,
{
    if i <= 0 || i > ns.len() {
        seq![]
    } else {
        definitions_upto(s, ns, i - 1) + match defined_name(s, ns, i - 1) {
            Some(n) => seq![(i - 1, n)],
            None => seq![],
        }
    }
}

/// The function record of definition `d` named `n`.
pub open spec fn function_of(s: Seq<char>, ns: Seq<SyntaxNodeView>, d: int, n: Seq<char>) -> FunctionSpec {
    FunctionSpec {
        name: n,
        byte_range: (ns[d].start_byte, ns[d].end_byte),
        line: row_of(s, ns[d].start_byte as int) + 1int,
        is_hal_callback: is_weak_callback(n),
    }
}

/// The names that the calls at or below node `d`, among the first `j`
/// nodes, call, in tree order.
pub open spec fn calls_upto(s: Seq<char>, ns: Seq<SyntaxNodeView>, d: int, j: int) -> Seq<Seq<char>>
    decreases j,
{
    if j <= 0 || j > ns.len() {
        seq![]
    } else {
        calls_upto(s, ns, d, j - 1) + if crate::syntax::is_desc(ns, j - 1, d) && ns[j - 1].kind
            == "call_expression"@ {
            match field_child(ns, j - 1, "function"@) {
                Some(c) => match called_name(s, ns, c as int) {
                    Some(n) => seq![n],
                    None => seq![],
                },
                None => seq![],
            }
        } else {
            seq![]
        }
    }
}

/// No call lies before node `d` in its own subtree.
pub proof fn lemma_calls_before(s: Seq<char>, ns: Seq<SyntaxNodeView>, d: int, j: int)
    requires
        j <= d,
    ensures
        calls_upto(s, ns, d, j) == Seq::<Seq<char>>::empty(),
    decreases j,
{
    if j > 0 && j <= ns.len() {
        lemma_calls_before(s, ns, d, j - 1);
        assert(!crate::syntax::is_desc(ns, j - 1, d));
        assert(calls_upto(s, ns, d, j) =~= Seq::<Seq<char>>::empty());
    } else if j > ns.len() {
    }
}

/// The calls among `cs` to one of `names`, as edges from `from`.
pub open spec fn known_calls(cs: Seq<Seq<char>>, names: Seq<Seq<char>>, from: Seq<char>) -> Seq<(Seq<char>, Seq<char>)>
    decreases cs.len(),
{
    if cs.len() == 0 {
        seq![]
    } else {
        known_calls(cs.drop_last(), names, from) + if names.contains(cs.last()) {
            seq![(from, cs.last())]
        } else {
            seq![]
        }
    }
}

/// The calls of each definition to a function of the file, in order:
/// caller and callee.
pub open spec fn raw_edges(s: Seq<char>, ns: Seq<SyntaxNodeView>, defs: Seq<(int, Seq<char>)>, names: Seq<Seq<char>>) -> Seq<(Seq<char>, Seq<char>)>
    decreases defs.len(),
{
    if defs.len() == 0 {
        seq![]
    } else {
        raw_edges(s, ns, defs.drop_last(), names) + known_calls(
            calls_upto(s, ns, defs.last().0, ns.len() as int),
            names,
            defs.last().1,
        )
    }
}

/// `es` without repeats, keeping the first of each.
pub open spec fn dedup_first(es: Seq<(Seq<char>, Seq<char>)>) -> Seq<(Seq<char>, Seq<char>)>
    decreases es.len(),
{
    if es.len() == 0 {
        seq![]
    } else if dedup_first(es.drop_last()).contains(es.last()) {
        dedup_first(es.drop_last())
    } else {
        dedup_first(es.drop_last()).push(es.last())
    }
}

/// The functions that the C text `s` defines, in tree order, and the calls
/// between them, each caller-callee pair once, in the order first made.
pub open spec fn user_call_graph(s: Seq<char>, ns: Seq<SyntaxNodeView>) -> (Seq<FunctionSpec>, Seq<(Seq<char>, Seq<char>)>) {
    let defs = definitions_upto(s, ns, ns.len() as int);
    let names = defs.map_values(|e: (int, Seq<char>)| e.1);
    (
        defs.map_values(|e: (int, Seq<char>)| function_of(s, ns, e.0, e.1)),
        dedup_first(raw_edges(s, ns, defs, names)),
    )
}

/// The first of `kids` that is an identifier or has a `declarator` field.
fn first_named_child_of(nodes: &Vec<SyntaxNode>, kids: &Vec<usize>) -> (r: Option<usize>)
    requires
        forall|m: int| 0 <= m < kids@.len() ==> #[trigger] kids@[m] < nodes@.len(),
    ensures
        r == first_named_child(nodes_view(nodes@), kids@, 0),
        r matches Some(c) ==> c < nodes@.len(),
{
    let ghost ns = nodes_view(nodes@);
    let mut m: usize = 0;
    while m < kids.len()
        invariant
            0 <= m <= kids@.len(),
            ns == nodes_view(nodes@),
            forall|j: int| 0 <= j < kids@.len() ==> #[trigger] kids@[j] < nodes@.len(),
            first_named_child(ns, kids@, 0) == first_named_child(ns, kids@, m as int),
        decreases kids.len() - m,
    {
        let c = kids[m];
        assert(ns[c as int] == nodes@[c as int]@);
        if str_eq(nodes[c].kind.as_str(), "identifier") || field_child_of(nodes, c, "declarator").is_some() {
            return Some(c);
        }
        m += 1;
    }
    None
}

/// The name of the function that the declarator at node `i` declares.
fn function_name_of(src: &SourceText, nodes: &Vec<SyntaxNode>, i: usize) -> (r: Option<String>)
    requires
        src.wf(),
        tree_wf(src@, nodes_view(nodes@)),
        i < nodes@.len(),
    ensures
        r.deep_view() == function_name(src@, nodes_view(nodes@), i as int),
    decreases nodes@.len() - i,
{
    let ghost ns = nodes_view(nodes@);
    assert(ns[i as int] == nodes@[i as int]@);
    let k = nodes[i].kind.as_str();
    if str_eq(k, "identifier") {
        return Some(text_between(src, nodes[i].start_byte, nodes[i].end_byte));
    }
    if str_eq(k, "function_declarator") || str_eq(k, "pointer_declarator") || str_eq(k, "parenthesized_declarator")
        || str_eq(k, "array_declarator") {
        match field_child_of(nodes, i, "declarator") {
            Some(c) => function_name_of(src, nodes, c),
            None => {
                let kids = children_of(nodes, i);
                if kids.len() > 0 {
                    function_name_of(src, nodes, kids[0])
                } else {
                    None
                }
            },
        }
    } else {
        let kids = children_of(nodes, i);
        match first_named_child_of(nodes, &kids) {
            Some(c) => {
                assert(ns[c as int] == nodes@[c as int]@);
                if str_eq(nodes[c].kind.as_str(), "identifier") {
                    Some(text_between(src, nodes[c].start_byte, nodes[c].end_byte))
                } else if i < c {
                    function_name_of(src, nodes, c)
                } else {
                    None
                }
            },
            None => None,
        }
    }
}

/// The name that the callee expression at node `i` calls.
fn called_name_of(src: &SourceText, nodes: &Vec<SyntaxNode>, i: usize) -> (r: Option<String>)
    requires
        src.wf(),
        tree_wf(src@, nodes_view(nodes@)),
        i < nodes@.len(),
    ensures
        r.deep_view() == called_name(src@, nodes_view(nodes@), i as int),
    decreases nodes@.len() - i,
{
    let ghost ns = nodes_view(nodes@);
    assert(ns[i as int] == nodes@[i as int]@);
    let k = nodes[i].kind.as_str();
    if str_eq(k, "identifier") {
        Some(text_between(src, nodes[i].start_byte, nodes[i].end_byte))
    } else if str_eq(k, "parenthesized_expression") {
        let kids = children_of(nodes, i);
        if kids.len() > 0 {
            called_name_of(src, nodes, kids[0])
        } else {
            None
        }
    } else if str_eq(k, "field_expression") {
        match field_child_of(nodes, i, "field") {
            Some(c) => called_name_of(src, nodes, c),
            None => None,
        }
    } else {
        None
    }
}

/// For each node, whether it lies inside a function definition.
fn inside_flags(nodes: &Vec<SyntaxNode>) -> (v: Vec<bool>)
    requires
        forall|i: int| 0 <= i < nodes@.len() ==> ((#[trigger] nodes@[i]).parent matches Some(p) ==> p < i),
    ensures
        v@.len() == nodes@.len(),
        forall|i: int| 0 <= i < v@.len() ==> #[trigger] v@[i] == inside_function(nodes_view(nodes@), i),
{
    let ghost ns = nodes_view(nodes@);
    let mut v: Vec<bool> = Vec::new();
    let mut i: usize = 0;
    while i < nodes.len()
        invariant
            0 <= i <= nodes@.len(),
            ns == nodes_view(nodes@),
            forall|k: int| 0 <= k < nodes@.len() ==> ((#[trigger] nodes@[k]).parent matches Some(p) ==> p < k),
            v@.len() == i,
            forall|k: int| 0 <= k < i ==> #[trigger] v@[k] == inside_function(ns, k),
        decreases nodes.len() - i,
    {
        assert(ns[i as int] == nodes@[i as int]@);
        let b = match nodes[i].parent {
            Some(p) => {
                assert(ns[p as int] == nodes@[p as int]@);
                str_eq(nodes[p].kind.as_str(), "function_definition") || v[p]
            },
            None => false,
        };
        v.push(b);
        i += 1;
    }
    v
}

/// `name` is a weak callback of the HAL interrupt table.
fn weak_callback(name: &str) -> (b: bool)
    ensures
        b == is_weak_callback(name@),
{
    let table = hal_irq_mappings();
    let ghost t = hal_irq_table();
    let mut r: usize = 0;
    while r < table.len()
        invariant
            0 <= r <= table@.len(),
            mappings_view(table@) == t,
            t == hal_irq_table(),
            forall|a: int, k: int| 0 <= a < r && 0 <= k < t[a].weak_callbacks.len() ==> #[trigger] t[a].weak_callbacks[k] != name@,
        decreases table.len() - r,
    {
        assert(t[r as int] == table@[r as int]@);
        let cbs = &table[r].weak_callbacks;
        let mut k: usize = 0;
        while k < cbs.len()
            invariant
                0 <= k <= cbs@.len(),
                r < table@.len(),
                mappings_view(table@) == t,
                t == hal_irq_table(),
                t[r as int] == table@[r as int]@,
                cbs@ == table@[r as int].weak_callbacks@,
                forall|a: int, j: int| 0 <= a < r && 0 <= j < t[a].weak_callbacks.len() ==> #[trigger] t[a].weak_callbacks[j] != name@,
                forall|j: int| 0 <= j < k ==> t[r as int].weak_callbacks[j] != name@,
            decreases cbs.len() - k,
        {
            assert(t[r as int].weak_callbacks[k as int] == cbs@[k as int]@);
            if str_eq(cbs[k], name) {
                return true;
            }
            k += 1;
        }
        r += 1;
    }
    false
}

/// The functions that the C text `source` defines and the calls between
/// them; an error when it does not parse.
pub fn build_user_call_graph(source: &str) -> (r: Result<(Vec<UserFunction>, Vec<UserCallEdge>), ScanError>)
    requires
        byte_len(source@) < usize::MAX,
    ensures
        match c_syntax(source@) {
            Some(ns) => if tree_wf(source@, ns) {
                r matches Ok((fs, es)) && (functions_view(fs@), call_edges_view(es@)) == user_call_graph(source@, ns)
            } else {
                r matches Err(ScanError::ParseError(_))
            },
            None => r matches Err(ScanError::ParseError(_)),
        },
{
    let src = SourceText::new(source);
    let nodes = match parse_source(&src, source) {
        Some(v) => v,
        None => return Err(ScanError::ParseError(crate::text::owned("tree-sitter gave no tree that fits the text"))),
    };
    let ghost ns = nodes_view(nodes@);
    assert forall|i: int| 0 <= i < nodes@.len() implies ((#[trigger] nodes@[i]).parent matches Some(p) ==> p < i) by {
        assert(ns[i] == nodes@[i]@);
    }
    let inside = inside_flags(&nodes);
    let mut def_nodes: Vec<usize> = Vec::new();
    let mut names: Vec<String> = Vec::new();
    let mut functions: Vec<UserFunction> = Vec::new();
    let mut i: usize = 0;
    while i < nodes.len()
        invariant
            0 <= i <= nodes@.len(),
            src.wf(),
            src@ == source@,
            ns == nodes_view(nodes@),
            tree_wf(src@, ns),
            inside@.len() == nodes@.len(),
            forall|k: int| 0 <= k < inside@.len() ==> #[trigger] inside@[k] == inside_function(ns, k),
            def_nodes@.len() == names@.len(),
            functions@.len() == names@.len(),
            def_nodes@.len() == definitions_upto(source@, ns, i as int).len(),
            forall|k: int|
                0 <= k < def_nodes@.len() ==> #[trigger] definitions_upto(source@, ns, i as int)[k] == (
                    def_nodes@[k] as int,
                    names@[k]@,
                ),
            forall|k: int| 0 <= k < def_nodes@.len() ==> #[trigger] def_nodes@[k] < nodes@.len(),
            functions_view(functions@) == definitions_upto(source@, ns, i as int).map_values(
                |e: (int, Seq<char>)| function_of(source@, ns, e.0, e.1),
            ),
        decreases nodes.len() - i,
    {
        assert(ns[i as int] == nodes@[i as int]@);
        let ghost prev_defs = definitions_upto(source@, ns, i as int);
        if str_eq(nodes[i].kind.as_str(), "function_definition") && !inside[i] {
            match field_child_of(&nodes, i, "declarator") {
                Some(d) => match function_name_of(&src, &nodes, d) {
                    Some(name) => {
                        let cs = match src.char_index(nodes[i].start_byte) {
                            Some(k) => k,
                            None => {
                                assert(false);
                                0
                            },
                        };
                        let row = src.row_at(cs);
                        let is_cb = weak_callback(name.as_str());
                        let ghost nm = name@;
                        let ghost prev_names = names.deep_view();
                        let ghost prev_nodes = def_nodes@;
                        let ghost prev_fns = functions_view(functions@);
                        functions.push(
                            UserFunction {
                                name: name.clone(),
                                byte_range: (nodes[i].start_byte, nodes[i].end_byte),
                                line: row + 1,
                                is_hal_callback: is_cb,
                            },
                        );
                        def_nodes.push(i);
                        names.push(name);
                        assert(definitions_upto(source@, ns, i + 1) == prev_defs.push((i as int, nm)));
                        assert(functions_view(functions@) =~= prev_fns.push(function_of(source@, ns, i as int, nm)));
                    },
                    None => {},
                },
                None => {},
            }
        }
        i += 1;
    }
    let ghost defs = definitions_upto(source@, ns, ns.len() as int);
    let ghost all_names = defs.map_values(|e: (int, Seq<char>)| e.1);
    assert(names.deep_view() =~= all_names) by {
        assert forall|k: int| 0 <= k < names.deep_view().len() implies names.deep_view()[k] == all_names[k] by {
            assert(defs[k] == (def_nodes@[k] as int, names@[k]@));
        }
    }
    let mut edges: Vec<UserCallEdge> = Vec::new();
    let mut k: usize = 0;
    let ghost mut raw: Seq<(Seq<char>, Seq<char>)> = seq![];
    while k < def_nodes.len()
        invariant
            0 <= k <= def_nodes@.len(),
            src.wf(),
            src@ == source@,
            ns == nodes_view(nodes@),
            tree_wf(src@, ns),
            def_nodes@.len() == names@.len(),
            defs.len() == def_nodes@.len(),
            forall|j: int| 0 <= j < def_nodes@.len() ==> #[trigger] defs[j] == (def_nodes@[j] as int, names@[j]@),
            names.deep_view() == all_names,
            all_names == defs.map_values(|e: (int, Seq<char>)| e.1),
            forall|j: int| 0 <= j < def_nodes@.len() ==> #[trigger] def_nodes@[j] < nodes@.len(),
            raw == raw_edges(source@, ns, defs.take(k as int), all_names),
            call_edges_view(edges@) == dedup_first(raw),
        decreases def_nodes.len() - k,
    {
        let d = def_nodes[k];
        let from = &names[k];
        let ghost fromv = names@[k as int]@;
        assert(defs[k as int] == (d as int, fromv));
        let ghost start_raw = raw;
        let mut j: usize = d;
        let ghost mut seen: Seq<Seq<char>> = calls_upto(source@, ns, d as int, d as int);
        proof {
            lemma_calls_before(source@, ns, d as int, d as int);
            assert(known_calls(seen, all_names, fromv) =~= Seq::<(Seq<char>, Seq<char>)>::empty());
            assert(raw =~= start_raw + known_calls(seen, all_names, fromv));
        }
        while j < nodes.len()
            invariant
                d <= j <= nodes@.len(),
                d < nodes@.len(),
                src.wf(),
                src@ == source@,
                ns == nodes_view(nodes@),
                tree_wf(src@, ns),
                names.deep_view() == all_names,
                fromv == from@,
                seen == calls_upto(source@, ns, d as int, j as int),
                raw == start_raw + known_calls(seen, all_names, fromv),
                call_edges_view(edges@) == dedup_first(raw),
            decreases nodes.len() - j,
        {
            assert(ns[j as int] == nodes@[j as int]@);
            let ghost before_seen = seen;
            if str_eq(nodes[j].kind.as_str(), "call_expression") && crate::syntax::is_desc_of(&nodes, j, d) {
                match field_child_of(&nodes, j, "function") {
                    Some(c) => match called_name_of(&src, &nodes, c) {
                        Some(callee) => {
                            proof {
                                seen = seen.push(callee@);
                            }
                            assert(seen.drop_last() =~= before_seen);
                            let ghost before_raw = raw;
                            let ghost cv = callee@;
                            if crate::pin_modules::has_ident(&names, callee.as_str()) {
                                proof {
                                    raw = raw.push((fromv, cv));
                                    assert(raw.drop_last() =~= before_raw);
                                    assert(known_calls(seen, all_names, fromv) =~= known_calls(before_seen, all_names, fromv).push((fromv, cv)));
                                    assert(raw =~= start_raw + known_calls(seen, all_names, fromv));
                                }
                                let mut present = false;
                                let mut m: usize = 0;
                                while m < edges.len()
                                    invariant
                                        0 <= m <= edges@.len(),
                                        fromv == from@,
                                        present == call_edges_view(edges@).subrange(0, m as int).contains((fromv, callee@)),
                                    decreases edges.len() - m,
                                {
                                    if str_eq(edges[m].from.as_str(), from.as_str()) && str_eq(edges[m].to.as_str(), callee.as_str()) {
                                        present = true;
                                    }
                                    proof {
                                        let sub1 = call_edges_view(edges@).subrange(0, m + 1);
                                        let sub0 = call_edges_view(edges@).subrange(0, m as int);
                                        assert(sub1 =~= sub0.push(call_edges_view(edges@)[m as int]));
                                        if sub1.contains((fromv, callee@)) {
                                            let q = choose|q: int| 0 <= q < sub1.len() && sub1[q] == (fromv, callee@);
                                            if q < m {
                                                assert(sub0[q] == (fromv, callee@));
                                            }
                                        }
                                        if sub0.contains((fromv, callee@)) {
                                            let q = choose|q: int| 0 <= q < sub0.len() && sub0[q] == (fromv, callee@);
                                            assert(sub1[q] == (fromv, callee@));
                                        }
                                        assert(sub1.contains((fromv, callee@)) == (sub0.contains((fromv, callee@)) || sub1[m as int] == (fromv, callee@)));
                                    }
                                    m += 1;
                                }
                                assert(call_edges_view(edges@).subrange(0, m as int) =~= call_edges_view(edges@));
                                if !present {
                                    let ghost prev = call_edges_view(edges@);
                                    edges.push(UserCallEdge { from: from.clone(), to: callee });
                                    assert(call_edges_view(edges@) =~= prev.push((fromv, cv)));
                                }
                            } else {
                                assert(!all_names.contains(cv));
                                assert(known_calls(seen, all_names, fromv) =~= known_calls(before_seen, all_names, fromv));
                            }
                        },
                        None => {},
                    },
                    None => {},
                }
            }
            j += 1;
        }
        proof {
            assert(defs.take(k + 1).drop_last() =~= defs.take(k as int));
            assert(defs.take(k + 1).last() == (d as int, fromv));
        }
        k += 1;
    }
    assert(defs.take(k as int) =~= defs);
    Ok((functions, edges))
}

} // verus!
