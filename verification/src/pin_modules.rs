//! Which firmware modules (the stems of the project's C files) use each pin
//! or peripheral signal.
use vstd::prelude::*;
use crate::ioc::{PinConfig, PinView};
use crate::project::last_dot_before;
use crate::sorted::{insert_sorted, strictly_sorted};
use crate::text::contains_string;
use crate::syntax::{
    c_syntax, children, children_of, node_text, nodes_view, parse_source, text_between, tree_wf,
    trimmed_text, SourceText, SyntaxNode, SyntaxNodeView,
};
use crate::text::{byte_len, chars_of, concat_str, ends_with, is_ascii_alnum, is_ascii_alpha, is_ascii_digit, is_ws, starts_with, str_eq, string_of, trim};
use crate::unicode::lowercase;

verus! {

/// What `Path::file_name` gives for the path written as `path`, when it is
/// valid Unicode.
pub uninterp spec fn path_file_name(path: Seq<char>) -> Option<Seq<char>>;

/// `Path::file_name` of the path written as `path`, as text; the name
/// depends on the path's text alone.
#[verifier::external_body]
pub(crate) fn file_name_of(path: &str) -> (r: Option<String>)
    ensures
        r.deep_view() == path_file_name(path@),
{
    std::path::Path::new(path).file_name().and_then(|n| n.to_str()).map(String::from)
}

/// A file name of CubeMX or CMSIS infrastructure: system calls, memory,
/// the CMSIS system file, interrupt handlers, HAL MSP.
pub open spec fn infra_name(n: Seq<char>) -> bool {
    n == "syscalls.c"@ || n == "sysmem.c"@ || starts_with(n, "system_stm32"@) || ends_with(n, "_it.c"@)
        || ends_with(n, "_hal_msp.c"@)
}

/// `s` starts with `p`.
fn has_prefix(s: &str, p: &str) -> (b: bool)
    ensures
        b == starts_with(s@, p@),
{
    let c = crate::text::chars_of(s);
    let pc = crate::text::chars_of(p);
    assert(c@.subrange(0, c@.len() as int) =~= c@);
    crate::text::starts_with_in(&c, 0, c.len(), &pc)
}

/// `s` ends with `p`.
fn has_suffix(s: &str, p: &str) -> (b: bool)
    ensures
        b == ends_with(s@, p@),
{
    let c = crate::text::chars_of(s);
    let pc = crate::text::chars_of(p);
    assert(c@.subrange(0, c@.len() as int) =~= c@);
    crate::text::ends_with_in(&c, 0, c.len(), &pc)
}

/// The file at `path` is CubeMX / CMSIS infrastructure rather than a module
/// of the application.
pub fn is_infra_file(path: &str) -> (b: bool)
    ensures
        b == match path_file_name(path@) {
            Some(n) => infra_name(n),
            None => false,
        },
{
    let name = match file_name_of(path) {
        Some(n) => n,
        None => return false,
    };
    let n = name.as_str();
    str_eq(n, "syscalls.c") || str_eq(n, "sysmem.c") || has_prefix(n, "system_stm32") || has_suffix(
        n,
        "_it.c",
    ) || has_suffix(n, "_hal_msp.c")
}

/// The file at `p` is infrastructure, as `is_infra_file` says.
pub open spec fn infra_path(p: Seq<char>) -> bool {
    match path_file_name(p) {
        Some(n) => infra_name(n),
        None => false,
    }
}

/// `Path::extension` of the file name `name` is `c`: the name has a `.`
/// after its first character, and `c` follows its last `.`.
pub open spec fn c_extension(name: Seq<char>) -> bool {
    match last_dot_before(name, name.len() as int) {
        Some(k) => k > 0 && name.subrange(k + 1, name.len() as int) == "c"@,
        None => false,
    }
}

/// A file of `main.c`'s directory that is a module of the application: a
/// C file that is no infrastructure and not `main.c` itself.
pub open spec fn module_file_name(name: Seq<char>) -> bool {
    c_extension(name) && !infra_path(name) && name != "main.c"@
}

/// Whether the file name `name` has the extension `c`.
fn has_c_extension(name: &str) -> (b: bool)
    ensures
        b == c_extension(name@),
{
    let c = chars_of(name);
    let mut i: usize = c.len();
    while i > 0
        invariant
            0 <= i <= c@.len(),
            c@ == name@,
            last_dot_before(name@, name@.len() as int) == last_dot_before(name@, i as int),
        decreases i,
    {
        if c[i - 1] == '.' {
            assert(last_dot_before(name@, i as int) == Some((i - 1) as int));
            assert("c"@.len() == 1 && "c"@[0] == 'c') by {
                reveal_strlit("c");
            }
            if i - 1 == 0 {
                return false;
            }
            if c.len() - i != 1 || c[i] != 'c' {
                let ghost tail = c@.subrange(i as int, c@.len() as int);
                assert(tail.len() != 1 || tail[0] != 'c');
                assert(tail != "c"@);
                return false;
            }
            assert(c@.subrange(i as int, c@.len() as int) =~= "c"@);
            return true;
        }
        i -= 1;
    }
    false
}

/// The modules among the regular files of `main.c`'s directory, given by
/// name: the C files that are no infrastructure and not `main.c`, sorted,
/// each once; and whether, with none of them, `main.c` stands alone as the
/// module (it exists and is no infrastructure).
pub fn select_module_files(names: &Vec<String>, main_c_path: &str, main_c_exists: bool) -> (r: (Vec<String>, bool))
    ensures
        strictly_sorted(r.0.deep_view()),
        forall|t: Seq<char>| #[trigger]
            r.0.deep_view().contains(t) <==> (names.deep_view().contains(t) && module_file_name(t)),
        r.1 == (r.0@.len() == 0 && main_c_exists && !infra_path(main_c_path@)),
{
    proof {
        reveal_strlit("main.c");
    }
    let ghost nv = names.deep_view();
    let mut out: Vec<String> = Vec::new();
    let mut i: usize = 0;
    while i < names.len()
        invariant
            0 <= i <= names@.len(),
            nv == names.deep_view(),
            strictly_sorted(out.deep_view()),
            forall|t: Seq<char>| #[trigger]
                out.deep_view().contains(t) <==> (nv.take(i as int).contains(t) && module_file_name(t)),
        decreases names.len() - i,
    {
        let n = &names[i];
        assert(nv[i as int] == n@);
        assert(nv.take(i + 1) =~= nv.take(i as int).push(n@));
        if has_c_extension(n.as_str()) && !is_infra_file(n.as_str()) && !str_eq(n.as_str(), "main.c") {
            insert_sorted(&mut out, n.clone());
        }
        assert forall|t: Seq<char>| #[trigger]
            out.deep_view().contains(t) <==> (nv.take(i + 1).contains(t) && module_file_name(t)) by {
            let a = nv.take(i as int);
            let b = nv.take(i + 1);
            if b.contains(t) {
                let j = choose|j: int| 0 <= j < b.len() && #[trigger] b[j] == t;
                if j < i {
                    assert(a[j] == t);
                }
            }
            if a.contains(t) {
                let j = choose|j: int| 0 <= j < a.len() && #[trigger] a[j] == t;
                assert(b[j] == t);
            }
            if t == n@ {
                assert(b[i as int] == t);
            }
        }
        i += 1;
    }
    assert(nv.take(i as int) =~= nv);
    let alone = out.len() == 0 && main_c_exists && !is_infra_file(main_c_path);
    (out, alone)
}

/// `Path::extension` of the path `p` is `c`.
pub open spec fn c_file_path(p: Seq<char>) -> bool {
    match path_file_name(p) {
        Some(n) => c_extension(n),
        None => false,
    }
}

/// The C files among the paths `ps`, in order, each at its first place.
pub open spec fn gathered_c_files(ps: Seq<Seq<char>>) -> Seq<Seq<char>>
    decreases ps.len(),
{
    if ps.len() == 0 {
        seq![]
    } else {
        let r = gathered_c_files(ps.drop_last());
        if c_file_path(ps.last()) && !r.contains(ps.last()) {
            r.push(ps.last())
        } else {
            r
        }
    }
}

/// The C files of a project: those among the files of its source
/// directories, then `main.c` where it is not among them.
pub open spec fn project_c_files_of(ps: Seq<Seq<char>>, main_c: Seq<char>) -> Seq<Seq<char>> {
    let r = gathered_c_files(ps);
    if r.contains(main_c) {
        r
    } else {
        r.push(main_c)
    }
}

/// The C files of a project, from the paths of the regular files of its
/// source directories (directory by directory) and the path of `main.c`,
/// as `project_c_files_of` gives them.
pub fn project_c_files(paths: &Vec<String>, main_c_path: &str) -> (r: Vec<String>)
    ensures
        r.deep_view() == project_c_files_of(paths.deep_view(), main_c_path@),
{
    let ghost pv = paths.deep_view();
    let mut out: Vec<String> = Vec::new();
    let mut i: usize = 0;
    while i < paths.len()
        invariant
            0 <= i <= paths@.len(),
            pv == paths.deep_view(),
            out.deep_view() == gathered_c_files(pv.take(i as int)),
        decreases paths.len() - i,
    {
        let p = &paths[i];
        assert(pv.take(i + 1).drop_last() =~= pv.take(i as int));
        assert(pv.take(i + 1).last() == p@);
        let is_c = match file_name_of(p.as_str()) {
            Some(n) => has_c_extension(n.as_str()),
            None => false,
        };
        if is_c && !contains_string(&out, p) {
            let ghost before = out.deep_view();
            out.push(p.clone());
            assert(out.deep_view() =~= before.push(p@));
        }
        i += 1;
    }
    assert(pv.take(i as int) =~= pv);
    let main = crate::text::owned(main_c_path);
    if !contains_string(&out, &main) {
        let ghost before = out.deep_view();
        out.push(main);
        assert(out.deep_view() =~= before.push(main_c_path@));
    }
    out
}

/// The first child of node `i` that its parent holds in field `f`, from
/// position `m` of the children on.
pub open spec fn field_child_from(ns: Seq<SyntaxNodeView>, kids: Seq<usize>, f: Seq<char>, m: int) -> Option<usize>
    decreases kids.len() - m,
{
    if m < 0 || m >= kids.len() {
        None
    } else if 0 <= kids[m] < ns.len() && ns[kids[m] as int].field == Some(f) {
        Some(kids[m])
    } else {
        field_child_from(ns, kids, f, m + 1)
    }
}

/// The first child of node `i` held in field `f`: `Node::child_by_field_name`.
pub open spec fn field_child(ns: Seq<SyntaxNodeView>, i: int, f: Seq<char>) -> Option<usize> {
    field_child_from(ns, children(ns, i), f, 0)
}

/// The end of the chain of `declarator` fields from node `i`.
pub open spec fn declarator_end(ns: Seq<SyntaxNodeView>, i: int) -> int
    decreases ns.len() - i,
{
    match field_child(ns, i, "declarator"@) {
        Some(c) => if i < c < ns.len() {
            declarator_end(ns, c as int)
        } else {
            i
        },
        None => i,
    }
}

/// The name that a declarator declares: the identifier at the end of its
/// chain of `declarator` fields, or nothing.
pub open spec fn declarator_name(s: Seq<char>, ns: Seq<SyntaxNodeView>, i: int) -> Seq<char> {
    let e = declarator_end(ns, i);
    if 0 <= e < ns.len() && ns[e].kind == "identifier"@ {
        node_text(s, ns[e])
    } else {
        seq![]
    }
}

/// Node `i` defines a CubeMX initialisation function (`MX_..`, `mx_..`).
pub open spec fn is_mx_function(s: Seq<char>, ns: Seq<SyntaxNodeView>, i: int) -> bool {
    &&& ns[i].kind == "function_definition"@
    &&& match field_child(ns, i, "declarator"@) {
        Some(d) => starts_with(declarator_name(s, ns, d as int), "MX_"@) || starts_with(
            declarator_name(s, ns, d as int),
            "mx_"@,
        ),
        None => false,
    }
}

/// In `main.c`, node `i` is or lies inside a CubeMX initialisation function.
pub open spec fn in_mx_function(s: Seq<char>, ns: Seq<SyntaxNodeView>, i: int, is_main: bool) -> bool
    decreases i,
{
    if !is_main || i < 0 || i >= ns.len() {
        false
    } else {
        is_mx_function(s, ns, i) || match ns[i].parent {
            Some(p) => p < i && in_mx_function(s, ns, p as int, is_main),
            None => false,
        }
    }
}

/// A node kind that names something.
pub open spec fn is_name_kind(k: Seq<char>) -> bool {
    k == "identifier"@ || k == "field_identifier"@ || k == "type_identifier"@
}

/// Node `j` names `t`, outside the initialisation functions of `main.c`.
pub open spec fn names_ident(s: Seq<char>, ns: Seq<SyntaxNodeView>, is_main: bool, j: int, t: Seq<char>) -> bool {
    &&& 0 <= j < ns.len()
    &&& is_name_kind(ns[j].kind)
    &&& !in_mx_function(s, ns, j, is_main)
    &&& trimmed_text(s, ns, j) == t
    &&& t.len() > 0
}

/// `t` is an identifier of the C text `s`.
pub open spec fn is_source_ident(s: Seq<char>, is_main: bool, t: Seq<char>) -> bool {
    match c_syntax(s) {
        Some(ns) => tree_wf(s, ns) && exists|j: int| names_ident(s, ns, is_main, j, t),
        None => false,
    }
}

/// The first child of `i` held in field `f`.
pub(crate) fn field_child_of(nodes: &Vec<SyntaxNode>, i: usize, f: &str) -> (r: Option<usize>)
    ensures
        r == field_child(nodes_view(nodes@), i as int, f@),
        r matches Some(c) ==> i < c < nodes@.len(),
{
    let ghost ns = nodes_view(nodes@);
    let kids = children_of(nodes, i);
    let mut m: usize = 0;
    while m < kids.len()
        invariant
            0 <= m <= kids@.len(),
            ns == nodes_view(nodes@),
            kids@ == children(ns, i as int),
            forall|j: int| 0 <= j < kids@.len() ==> i < #[trigger] kids@[j] < nodes@.len(),
            field_child(ns, i as int, f@) == field_child_from(ns, kids@, f@, m as int),
        decreases kids.len() - m,
    {
        let c = kids[m];
        assert(ns[c as int] == nodes@[c as int]@);
        let hit = match &nodes[c].field {
            Some(name) => str_eq(name.as_str(), f),
            None => false,
        };
        if hit {
            return Some(c);
        }
        m += 1;
    }
    None
}

/// The end of the chain of `declarator` fields from node `i`.
fn declarator_end_of(nodes: &Vec<SyntaxNode>, i: usize) -> (e: usize)
    requires
        i < nodes@.len(),
    ensures
        e == declarator_end(nodes_view(nodes@), i as int),
        e < nodes@.len(),
    decreases nodes@.len() - i,
{
    match field_child_of(nodes, i, "declarator") {
        Some(c) => declarator_end_of(nodes, c),
        None => i,
    }
}

/// In `main.c`, for each node, whether it is or lies inside a CubeMX
/// initialisation function.
fn mx_flags(src: &SourceText, nodes: &Vec<SyntaxNode>, is_main: bool) -> (v: Vec<bool>)
    requires
        src.wf(),
        tree_wf(src@, nodes_view(nodes@)),
    ensures
        v@.len() == nodes@.len(),
        forall|i: int| 0 <= i < v@.len() ==> #[trigger] v@[i] == in_mx_function(src@, nodes_view(nodes@), i, is_main),
{
    let ghost ns = nodes_view(nodes@);
    let mut v: Vec<bool> = Vec::new();
    let mut i: usize = 0;
    while i < nodes.len()
        invariant
            0 <= i <= nodes@.len(),
            src.wf(),
            ns == nodes_view(nodes@),
            tree_wf(src@, ns),
            v@.len() == i,
            forall|k: int| 0 <= k < i ==> #[trigger] v@[k] == in_mx_function(src@, ns, k, is_main),
        decreases nodes.len() - i,
    {
        assert(ns[i as int] == nodes@[i as int]@);
        let b = if !is_main {
            false
        } else {
            let own = if str_eq(nodes[i].kind.as_str(), "function_definition") {
                match field_child_of(nodes, i, "declarator") {
                    Some(d) => {
                        let e = declarator_end_of(nodes, d);
                        assert(ns[e as int] == nodes@[e as int]@);
                        let name = if str_eq(nodes[e].kind.as_str(), "identifier") {
                            text_between(src, nodes[e].start_byte, nodes[e].end_byte)
                        } else {
                            String::new()
                        };
                        has_prefix(name.as_str(), "MX_") || has_prefix(name.as_str(), "mx_")
                    },
                    None => false,
                }
            } else {
                false
            };
            own || match nodes[i].parent {
                Some(p) => v[p],
                None => false,
            }
        };
        v.push(b);
        i += 1;
    }
    v
}

/// The identifiers of the C text `source`, each once; in `main.c`
/// (`is_main`) those inside CubeMX initialisation functions are left out.
/// A text that does not parse has none.
pub fn extract_ast_identifiers(source: &str, is_main: bool) -> (v: Vec<String>)
    requires
        byte_len(source@) < usize::MAX,
    ensures
        forall|i: int, j: int| 0 <= i < j < v@.len() ==> v@[i]@ != v@[j]@,
        forall|t: Seq<char>| #[trigger] v.deep_view().contains(t) <==> is_source_ident(source@, is_main, t),
{
    let mut out: Vec<String> = Vec::new();
    let src = SourceText::new(source);
    let nodes = match parse_source(&src, source) {
        Some(n) => n,
        None => {
            assert forall|t: Seq<char>| #[trigger] out.deep_view().contains(t) <==> is_source_ident(source@, is_main, t) by {
                assert(out.deep_view() =~= Seq::<Seq<char>>::empty());
            }
            return out;
        },
    };
    let ghost ns = nodes_view(nodes@);
    let flags = mx_flags(&src, &nodes, is_main);
    let mut i: usize = 0;
    while i < nodes.len()
        invariant
            0 <= i <= nodes@.len(),
            src.wf(),
            src@ == source@,
            ns == nodes_view(nodes@),
            c_syntax(source@) == Some(ns),
            tree_wf(src@, ns),
            flags@.len() == nodes@.len(),
            forall|k: int| 0 <= k < flags@.len() ==> #[trigger] flags@[k] == in_mx_function(src@, ns, k, is_main),
            forall|a: int, b: int| 0 <= a < b < out@.len() ==> out@[a]@ != out@[b]@,
            forall|t: Seq<char>|
                #[trigger] out.deep_view().contains(t) <==> exists|j: int| 0 <= j < i && names_ident(source@, ns, is_main, j, t),
        decreases nodes.len() - i,
    {
        assert(ns[i as int] == nodes@[i as int]@);
        let ghost before = out.deep_view();
        let k = nodes[i].kind.as_str();
        let mut added = false;
        if (str_eq(k, "identifier") || str_eq(k, "field_identifier") || str_eq(k, "type_identifier")) && !flags[i] {
            let t = crate::syntax::node_trimmed_text(&src, &nodes, i);
            if t.as_str().unicode_len() > 0 && !has_ident(&out, t.as_str()) {
                let ghost tv = t@;
                out.push(t);
                added = true;
                assert(out.deep_view() =~= before.push(tv));
                assert forall|a: int, b: int| 0 <= a < b < out@.len() implies out@[a]@ != out@[b]@ by {
                    if b == out@.len() - 1 {
                        assert(before[a] == out@[a]@);
                    }
                }
            }
        }
        assert forall|t: Seq<char>| #[trigger] out.deep_view().contains(t) <==> exists|j: int|
            0 <= j < i + 1 && names_ident(source@, ns, is_main, j, t) by {
            if exists|j: int| 0 <= j < i + 1 && names_ident(source@, ns, is_main, j, t) {
                let j = choose|j: int| 0 <= j < i + 1 && names_ident(source@, ns, is_main, j, t);
                if j < i {
                    assert(before.contains(t));
                    let m = choose|m: int| 0 <= m < before.len() && before[m] == t;
                    assert(out.deep_view()[m] == t);
                } else {
                    if !added {
                        assert(before.contains(t));
                    } else {
                        assert(out.deep_view()[out@.len() - 1] == t);
                    }
                    let m = choose|m: int| 0 <= m < before.len() && before[m] == t;
                    if before.contains(t) {
                        assert(out.deep_view()[m] == t);
                    }
                }
            }
            if out.deep_view().contains(t) {
                let m = choose|m: int| 0 <= m < out.deep_view().len() && out.deep_view()[m] == t;
                if m < before.len() {
                    assert(before[m] == t);
                    assert(before.contains(t));
                } else {
                    assert(names_ident(source@, ns, is_main, i as int, t));
                }
            }
        }
        i += 1;
    }
    out
}

/// `t` is one of the strings of `v`.
pub fn has_ident(v: &Vec<String>, t: &str) -> (b: bool)
    ensures
        b == v.deep_view().contains(t@),
{
    let mut k: usize = 0;
    while k < v.len()
        invariant
            0 <= k <= v@.len(),
            forall|j: int| 0 <= j < k ==> v@[j]@ != t@,
        decreases v.len() - k,
    {
        if str_eq(v[k].as_str(), t) {
            assert(v.deep_view()[k as int] == t@);
            return true;
        }
        k += 1;
    }
    assert forall|m: int| 0 <= m < v.deep_view().len() implies v.deep_view()[m] != t@ by {
        assert(v.deep_view()[m] == v@[m]@);
    }
    false
}

/// The identifiers by which a module may refer to one pin.
#[derive(Debug, Clone)]
pub struct PinPattern {
    pub pin_index: usize,
    /// The label's macros: `<L>_Pin`, `<L>_GPIO_Port` and `<L>`.
    pub label_macros: Vec<String>,
    /// `GPIO_PIN_<n>`, for a pin `P<port><n>`.
    pub raw_pin: Option<String>,
    /// `GPIO<port>`, for a pin `P<port><n>`.
    pub raw_port: Option<String>,
    /// The peripheral instance and its HAL handle, such as `USART2` and `huart2`.
    pub periph_tokens: Vec<String>,
    /// The peripheral family of the pin's signal, such as `USART`.
    pub periph_family: Option<String>,
}

/// The value of a `PinPattern`.
pub struct PatternSpec {
    pub pin_index: int,
    pub label_macros: Seq<Seq<char>>,
    pub raw_pin: Option<Seq<char>>,
    pub raw_port: Option<Seq<char>>,
    pub periph_tokens: Seq<Seq<char>>,
    pub periph_family: Option<Seq<char>>,
}

impl View for PinPattern {
    type V = PatternSpec;

    open spec fn view(&self) -> PatternSpec {
        PatternSpec {
            pin_index: self.pin_index as int,
            label_macros: self.label_macros.deep_view(),
            raw_pin: self.raw_pin.deep_view(),
            raw_port: self.raw_port.deep_view(),
            periph_tokens: self.periph_tokens.deep_view(),
            periph_family: self.periph_family.deep_view(),
        }
    }
}

/// A character that ends the leading name of a label.
pub open spec fn label_cut(c: char) -> bool {
    is_ws(c) || c == '[' || c == '('
}

/// The index of the first cutting character of `l` at or after `i`, or its length.
pub open spec fn cut_index(l: Seq<char>, i: int) -> int
    decreases l.len() - i,
{
    if i < 0 || i >= l.len() {
        l.len() as int
    } else if label_cut(l[i]) {
        i
    } else {
        cut_index(l, i + 1)
    }
}

/// The leading name of a label, before white space, `[` or `(`.
pub open spec fn label_base(l: Seq<char>) -> Seq<char> {
    trim(l.subrange(0, cut_index(l, 0)))
}

/// The macros that CubeMX generates for a labelled pin.
pub open spec fn label_macros_of(label: Option<Seq<char>>) -> Seq<Seq<char>> {
    match label {
        None => seq![],
        Some(l) => {
            let b = label_base(l);
            if b.len() == 0 {
                seq![]
            } else if ends_with(b, "_Pin"@) {
                let stem = b.subrange(0, b.len() - 4);
                seq![b, stem + "_GPIO_Port"@, stem]
            } else {
                seq![b + "_Pin"@, b + "_GPIO_Port"@, b]
            }
        },
    }
}

/// The pin name's byte 2 starts a character whenever the pin is sliced
/// there: a name of three or more bytes that starts with `P` has an ASCII
/// second character.
pub open spec fn pin_name_ok(p: Seq<char>) -> bool {
    (p.len() >= 1 && p[0] == 'P' && byte_len(p) >= 3) ==> (p.len() >= 3 && (p[1] as u32) < 128)
}

/// `GPIO<port>` and `GPIO_PIN_<n>` for a pin named `P<port><n>`.
pub open spec fn raw_ids(p: Seq<char>) -> Option<(Seq<char>, Seq<char>)> {
    if p.len() >= 3 && p[0] == 'P' && byte_len(p) >= 3 && is_ascii_alpha(p[1]) && forall|i: int|
        2 <= i < p.len() ==> is_ascii_digit(#[trigger] p[i]) {
        Some(("GPIO"@.push(p[1]), "GPIO_PIN_"@ + p.subrange(2, p.len() as int)))
    } else {
        None
    }
}

/// The peripheral families that pins are matched by.
pub open spec fn families() -> Seq<Seq<char>> {
    seq!["USART"@, "UART"@, "SPI"@, "I2C"@, "TIM"@, "ADC"@, "CAN"@]
}

/// The first family at or after `i` that the signal starts with.
pub open spec fn family_from(sig: Seq<char>, i: int) -> Option<int>
    decreases 7 - i,
{
    if i < 0 || i >= 7 {
        None
    } else if starts_with(sig, families()[i]) {
        Some(i)
    } else {
        family_from(sig, i + 1)
    }
}

/// The family of a signal.
pub open spec fn family_of(sig: Seq<char>) -> Option<Seq<char>> {
    match family_from(sig, 0) {
        Some(i) => Some(families()[i]),
        None => None,
    }
}

/// The end of the run of ASCII letters and digits at the start of `s[i..]`.
pub open spec fn alnum_end(s: Seq<char>, i: int) -> int
    decreases s.len() - i,
{
    if 0 <= i < s.len() && is_ascii_alnum(s[i]) {
        alnum_end(s, i + 1)
    } else {
        i
    }
}

/// The HAL handle of a peripheral instance: `USART2` is driven through `huart2`.
pub open spec fn handle_of(n: Seq<char>) -> Seq<char> {
    if starts_with(n, "USART"@) {
        "huart"@ + n.skip(5)
    } else if starts_with(n, "UART"@) {
        "huart"@ + n.skip(4)
    } else if starts_with(n, "TIM"@) {
        "htim"@ + n.skip(3)
    } else if starts_with(n, "SPI"@) {
        "hspi"@ + n.skip(3)
    } else if starts_with(n, "I2C"@) {
        "hi2c"@ + n.skip(3)
    } else if starts_with(n, "ADC"@) {
        "hadc"@ + n.skip(3)
    } else if starts_with(n, "CAN"@) {
        "hcan"@ + n.skip(3)
    } else {
        "h"@ + lowercase(n)
    }
}

/// The peripheral instance named at the start of a signal and its handle.
pub open spec fn periph_tokens_of(sig: Seq<char>) -> Seq<Seq<char>> {
    if family_from(sig, 0) is Some {
        let n = sig.take(alnum_end(sig, 0));
        if n.len() > 0 {
            seq![n, handle_of(n)]
        } else {
            seq![]
        }
    } else {
        seq![]
    }
}

/// The identifiers of pin `p`, the `idx`-th of the project.
pub open spec fn pattern_of(p: PinView, idx: int) -> PatternSpec {
    PatternSpec {
        pin_index: idx,
        label_macros: label_macros_of(p.label),
        raw_pin: match raw_ids(p.pin) {
            Some(r) => Some(r.1),
            None => None,
        },
        raw_port: match raw_ids(p.pin) {
            Some(r) => Some(r.0),
            None => None,
        },
        periph_tokens: periph_tokens_of(p.signal),
        periph_family: family_of(p.signal),
    }
}

/// The number of the first `n` pins whose signal belongs to family `i`.
pub open spec fn family_count(pins: Seq<PinView>, i: int, n: int) -> nat
    decreases n,
{
    if n <= 0 || n > pins.len() {
        0
    } else {
        family_count(pins, i, n - 1) + if family_from(pins[n - 1].signal, 0) == Some(i) {
            1nat
        } else {
            0nat
        }
    }
}

/// `s` starts with `p`.
fn has_prefix_chars(c: &Vec<char>, p: &str) -> (b: bool)
    ensures
        b == starts_with(c@, p@),
{
    let pc = chars_of(p);
    assert(c@.subrange(0, c@.len() as int) =~= c@);
    crate::text::starts_with_in(c, 0, c.len(), &pc)
}

/// The family index of a signal.
fn family_index(sig: &str) -> (r: Option<usize>)
    ensures
        match r {
            Some(i) => family_from(sig@, 0) == Some(i as int) && i < 7,
            None => family_from(sig@, 0) is None,
        },
{
    let names: [&str; 7] = ["USART", "UART", "SPI", "I2C", "TIM", "ADC", "CAN"];
    proof {
        assert(names@[0]@ == families()[0]);
        assert(names@[1]@ == families()[1]);
        assert(names@[2]@ == families()[2]);
        assert(names@[3]@ == families()[3]);
        assert(names@[4]@ == families()[4]);
        assert(names@[5]@ == families()[5]);
        assert(names@[6]@ == families()[6]);
    }
    let mut i: usize = 0;
    while i < 7
        invariant
            0 <= i <= 7,
            forall|k: int| 0 <= k < 7 ==> #[trigger] names@[k]@ == families()[k],
            family_from(sig@, 0) == family_from(sig@, i as int),
        decreases 7 - i,
    {
        if has_prefix(sig, names[i]) {
            return Some(i);
        }
        i += 1;
    }
    None
}

/// The family name with index `i`.
fn family_name(i: usize) -> (r: &'static str)
    requires
        i < 7,
    ensures
        r@ == families()[i as int],
{
    let names: [&str; 7] = ["USART", "UART", "SPI", "I2C", "TIM", "ADC", "CAN"];
    proof {
        assert(names@[0]@ == families()[0]);
        assert(names@[1]@ == families()[1]);
        assert(names@[2]@ == families()[2]);
        assert(names@[3]@ == families()[3]);
        assert(names@[4]@ == families()[4]);
        assert(names@[5]@ == families()[5]);
        assert(names@[6]@ == families()[6]);
    }
    names[i]
}

/// The identifiers of pin `pin`, the `idx`-th of the project.
fn pattern_for(pin: &PinConfig, idx: usize) -> (r: PinPattern)
    requires
        pin_name_ok(pin.pin@),
    ensures
        r@ == pattern_of(pin@, idx as int),
{
    proof {
        reveal_strlit("_Pin");
    }
    let mut label_macros: Vec<String> = Vec::new();
    if let Some(l) = &pin.label {
        let lc = chars_of(l.as_str());
        let mut k: usize = 0;
        while k < lc.len() && !(crate::text::char_is_ws(lc[k]) || lc[k] == '[' || lc[k] == '(')
            invariant
                0 <= k <= lc@.len(),
                cut_index(lc@, 0) == cut_index(lc@, k as int),
            decreases lc.len() - k,
        {
            k += 1;
        }
        let (a, b) = crate::text::trim_range(&lc, 0, k);
        let base = string_of(&lc, a, b);
        assert(base@ == label_base(l@));
        let bc = chars_of(base.as_str());
        if bc.len() > 0 {
            if has_suffix(base.as_str(), "_Pin") {
                let stem = string_of(&bc, 0, bc.len() - 4);
                label_macros.push(base.clone());
                label_macros.push(concat_str(stem.as_str(), "_GPIO_Port"));
                label_macros.push(stem);
            } else {
                label_macros.push(concat_str(base.as_str(), "_Pin"));
                label_macros.push(concat_str(base.as_str(), "_GPIO_Port"));
                label_macros.push(base);
            }
        }
    }
    assert(label_macros.deep_view() =~= label_macros_of(pin@.label));
    let pc = chars_of(pin.pin.as_str());
    let mut raw_port: Option<String> = None;
    let mut raw_pin: Option<String> = None;
    if pc.len() >= 1 && pc[0] == 'P' && crate::text::str_byte_len(pin.pin.as_str()) >= 3 {
        let port_char = pc[1];
        let mut all_digits = true;
        let mut k: usize = 2;
        while k < pc.len()
            invariant
                2 <= k <= pc@.len(),
                all_digits == forall|j: int| 2 <= j < k ==> is_ascii_digit(#[trigger] pc@[j]),
            decreases pc.len() - k,
        {
            if !crate::text::char_is_digit(pc[k]) {
                all_digits = false;
            }
            k += 1;
        }
        if (crate::text::char_is_upper(port_char) || crate::text::char_is_lower(port_char)) && all_digits {
            let mut port = crate::text::owned("GPIO");
            crate::text::push_char(&mut port, port_char);
            let num = string_of(&pc, 2, pc.len());
            raw_port = Some(port);
            raw_pin = Some(concat_str("GPIO_PIN_", num.as_str()));
        }
    }
    let sig = pin.signal.as_str();
    let mut periph_tokens: Vec<String> = Vec::new();
    let mut periph_family: Option<String> = None;
    match family_index(sig) {
        Some(fi) => {
            periph_family = Some(crate::text::owned(family_name(fi)));
            let sc = chars_of(sig);
            let mut k: usize = 0;
            while k < sc.len() && (crate::text::char_is_upper(sc[k]) || crate::text::char_is_lower(sc[k]) || crate::text::char_is_digit(sc[k]))
                invariant
                    0 <= k <= sc@.len(),
                    alnum_end(sc@, 0) == alnum_end(sc@, k as int),
                decreases sc.len() - k,
            {
                k += 1;
            }
            if k > 0 {
                let name = string_of(&sc, 0, k);
                assert(name@ =~= sig@.take(alnum_end(sig@, 0)));
                let nc = chars_of(name.as_str());
                proof {
                    reveal_strlit("USART");
                    reveal_strlit("UART");
                    reveal_strlit("TIM");
                    reveal_strlit("SPI");
                    reveal_strlit("I2C");
                    reveal_strlit("ADC");
                    reveal_strlit("CAN");
                }
                let handle = if has_prefix_chars(&nc, "USART") {
                    concat_str("huart", string_of(&nc, 5, nc.len()).as_str())
                } else if has_prefix_chars(&nc, "UART") {
                    concat_str("huart", string_of(&nc, 4, nc.len()).as_str())
                } else if has_prefix_chars(&nc, "TIM") {
                    concat_str("htim", string_of(&nc, 3, nc.len()).as_str())
                } else if has_prefix_chars(&nc, "SPI") {
                    concat_str("hspi", string_of(&nc, 3, nc.len()).as_str())
                } else if has_prefix_chars(&nc, "I2C") {
                    concat_str("hi2c", string_of(&nc, 3, nc.len()).as_str())
                } else if has_prefix_chars(&nc, "ADC") {
                    concat_str("hadc", string_of(&nc, 3, nc.len()).as_str())
                } else if has_prefix_chars(&nc, "CAN") {
                    concat_str("hcan", string_of(&nc, 3, nc.len()).as_str())
                } else {
                    let low = crate::unicode::to_lower(name.as_str());
                    concat_str("h", low.as_str())
                };
                assert(handle@ =~= handle_of(name@));
                periph_tokens.push(name);
                periph_tokens.push(handle);
            }
        },
        None => {},
    }
    assert(periph_tokens.deep_view() =~= periph_tokens_of(pin@.signal));
    PinPattern { pin_index: idx, label_macros, raw_pin, raw_port, periph_tokens, periph_family }
}

/// The identifiers of each pin, and for each family the number of pins
/// whose signal belongs to it.
pub fn build_pin_patterns(pins: &[PinConfig]) -> (r: (Vec<PinPattern>, Vec<usize>))
    requires
        forall|i: int| 0 <= i < pins@.len() ==> pin_name_ok(#[trigger] pins@[i].pin@),
    ensures
        r.0@.len() == pins@.len(),
        forall|i: int| 0 <= i < pins@.len() ==> (#[trigger] r.0@[i])@ == pattern_of(pins@[i]@, i),
        r.1@.len() == 7,
        forall|k: int| 0 <= k < 7 ==> #[trigger] r.1@[k] == family_count(
            pins@.map_values(|p: PinConfig| p@),
            k,
            pins@.len() as int,
        ),
{
    let ghost pv = pins@.map_values(|p: PinConfig| p@);
    let mut counts: Vec<usize> = vec![0, 0, 0, 0, 0, 0, 0];
    let mut patterns: Vec<PinPattern> = Vec::new();
    let mut i: usize = 0;
    while i < pins.len()
        invariant
            0 <= i <= pins@.len(),
            pv == pins@.map_values(|p: PinConfig| p@),
            forall|j: int| 0 <= j < pins@.len() ==> pin_name_ok(#[trigger] pins@[j].pin@),
            patterns@.len() == i,
            forall|j: int| 0 <= j < i ==> (#[trigger] patterns@[j])@ == pattern_of(pins@[j]@, j),
            counts@.len() == 7,
            forall|k: int| 0 <= k < 7 ==> #[trigger] counts@[k] == family_count(pv, k, i as int),
            forall|k: int| 0 <= k < 7 ==> #[trigger] counts@[k] <= i,
        decreases pins.len() - i,
    {
        assert(pv[i as int] == pins@[i as int]@);
        patterns.push(pattern_for(&pins[i], i));
        match family_index(pins[i].signal.as_str()) {
            Some(fi) => {
                let c = counts[fi];
                counts.set(fi, c + 1);
            },
            None => {},
        }
        i += 1;
    }
    (patterns, counts)
}

/// The identifiers that show a module using a peripheral of family `f`.
pub open spec fn family_markers(f: Seq<char>) -> Seq<Seq<char>> {
    if f == "USART"@ || f == "UART"@ {
        seq![
            "UART_HandleTypeDef"@,
            "HAL_UART_Receive_IT"@,
            "HAL_UART_Transmit"@,
            "HAL_UART_RxCpltCallback"@,
            "huart"@,
        ]
    } else if f == "TIM"@ {
        seq!["TIM_HandleTypeDef"@, "HAL_TIM_PeriodElapsedCallback"@, "HAL_TIM_Base_Start_IT"@]
    } else if f == "SPI"@ {
        seq!["SPI_HandleTypeDef"@, "HAL_SPI_Transmit"@, "HAL_SPI_Receive"@]
    } else if f == "I2C"@ {
        seq!["I2C_HandleTypeDef"@, "HAL_I2C_Master_Transmit"@, "HAL_I2C_Master_Receive"@]
    } else {
        seq![]
    }
}

/// The position of family `f` in `families()` at or after `i`.
pub open spec fn family_pos(f: Seq<char>, i: int) -> Option<int>
    decreases 7 - i,
{
    if i < 0 || i >= 7 {
        None
    } else if families()[i] == f {
        Some(i)
    } else {
        family_pos(f, i + 1)
    }
}

/// The number of pins whose signal belongs to family `f`.
pub open spec fn count_of(pins: Seq<PinView>, f: Seq<char>) -> nat {
    match family_pos(f, 0) {
        Some(i) => family_count(pins, i, pins.len() as int),
        None => 0,
    }
}

/// One of `xs` is an identifier of the C text `s`.
pub open spec fn any_ident(xs: Seq<Seq<char>>, s: Seq<char>, is_main: bool) -> bool {
    exists|m: int| 0 <= m < xs.len() && is_source_ident(s, is_main, #[trigger] xs[m])
}

/// The module with text `s` refers to the pin of `pat`: by a label macro;
/// by its peripheral instance or handle; by a HAL name of its family, when
/// at most two pins have that family; or, for an unlabelled pin, by both
/// its raw port and pin macros.
pub open spec fn pattern_matches(pat: PatternSpec, pins: Seq<PinView>, s: Seq<char>, is_main: bool) -> bool {
    ||| any_ident(pat.label_macros, s, is_main)
    ||| any_ident(pat.periph_tokens, s, is_main)
    ||| (match pat.periph_family {
        Some(f) => count_of(pins, f) <= 2 && any_ident(family_markers(f), s, is_main),
        None => false,
    })
    ||| (pat.label_macros.len() == 0 && match (pat.raw_port, pat.raw_pin) {
        (Some(port), Some(pin)) => is_source_ident(s, is_main, port) && is_source_ident(s, is_main, pin),
        _ => false,
    })
}

/// Module `t` uses pin `idx`: it was listed for the pin already, or it is
/// the stem of one of `files` whose text refers to the pin.
pub open spec fn pin_uses(pins: Seq<PinView>, files: Seq<(Seq<char>, Seq<char>)>, idx: int, t: Seq<char>) -> bool {
    ||| pins[idx].modules.contains(t)
    ||| exists|f: int|
        0 <= f < files.len() && (#[trigger] files[f]).0 == t && pattern_matches(
            pattern_of(pins[idx], idx),
            pins,
            files[f].1,
            files[f].0 == "main"@,
        )
}

/// One of `xs` is among `ids`.
fn any_in(xs: &Vec<String>, ids: &Vec<String>) -> (b: bool)
    ensures
        b == exists|m: int| 0 <= m < xs@.len() && ids.deep_view().contains(#[trigger] xs.deep_view()[m]),
{
    let mut m: usize = 0;
    while m < xs.len()
        invariant
            0 <= m <= xs@.len(),
            forall|j: int| 0 <= j < m ==> !ids.deep_view().contains(#[trigger] xs.deep_view()[j]),
        decreases xs.len() - m,
    {
        assert(xs.deep_view()[m as int] == xs@[m as int]@);
        if has_ident(ids, xs[m].as_str()) {
            return true;
        }
        m += 1;
    }
    false
}

/// The markers of family `f`, as strings.
fn markers_of(f: &str) -> (v: Vec<String>)
    ensures
        v.deep_view() == family_markers(f@),
{
    let mut v: Vec<String> = Vec::new();
    if str_eq(f, "USART") || str_eq(f, "UART") {
        v.push(crate::text::owned("UART_HandleTypeDef"));
        v.push(crate::text::owned("HAL_UART_Receive_IT"));
        v.push(crate::text::owned("HAL_UART_Transmit"));
        v.push(crate::text::owned("HAL_UART_RxCpltCallback"));
        v.push(crate::text::owned("huart"));
    } else if str_eq(f, "TIM") {
        v.push(crate::text::owned("TIM_HandleTypeDef"));
        v.push(crate::text::owned("HAL_TIM_PeriodElapsedCallback"));
        v.push(crate::text::owned("HAL_TIM_Base_Start_IT"));
    } else if str_eq(f, "SPI") {
        v.push(crate::text::owned("SPI_HandleTypeDef"));
        v.push(crate::text::owned("HAL_SPI_Transmit"));
        v.push(crate::text::owned("HAL_SPI_Receive"));
    } else if str_eq(f, "I2C") {
        v.push(crate::text::owned("I2C_HandleTypeDef"));
        v.push(crate::text::owned("HAL_I2C_Master_Transmit"));
        v.push(crate::text::owned("HAL_I2C_Master_Receive"));
    }
    assert(v.deep_view() =~= family_markers(f@));
    v
}

/// The count of pins of family `f`.
fn count_for(counts: &Vec<usize>, f: &str, Ghost(pins): Ghost<Seq<PinView>>) -> (n: usize)
    requires
        counts@.len() == 7,
        forall|k: int| 0 <= k < 7 ==> #[trigger] counts@[k] == family_count(pins, k, pins.len() as int),
    ensures
        n == count_of(pins, f@),
{
    let names: [&str; 7] = ["USART", "UART", "SPI", "I2C", "TIM", "ADC", "CAN"];
    proof {
        assert(names@[0]@ == families()[0]);
        assert(names@[1]@ == families()[1]);
        assert(names@[2]@ == families()[2]);
        assert(names@[3]@ == families()[3]);
        assert(names@[4]@ == families()[4]);
        assert(names@[5]@ == families()[5]);
        assert(names@[6]@ == families()[6]);
    }
    let mut i: usize = 0;
    while i < 7
        invariant
            0 <= i <= 7,
            counts@.len() == 7,
            forall|k: int| 0 <= k < 7 ==> #[trigger] names@[k]@ == families()[k],
            forall|k: int| 0 <= k < 7 ==> #[trigger] counts@[k] == family_count(pins, k, pins.len() as int),
            family_pos(f@, 0) == family_pos(f@, i as int),
        decreases 7 - i,
    {
        if str_eq(names[i], f) {
            return counts[i];
        }
        i += 1;
    }
    0
}

/// The module whose identifiers are `ids` refers to the pin of `p`.
fn pattern_matches_ids(
    p: &PinPattern,
    counts: &Vec<usize>,
    ids: &Vec<String>,
    Ghost(pins): Ghost<Seq<PinView>>,
    Ghost(text): Ghost<Seq<char>>,
    Ghost(is_main): Ghost<bool>,
) -> (b: bool)
    requires
        counts@.len() == 7,
        forall|k: int| 0 <= k < 7 ==> #[trigger] counts@[k] == family_count(pins, k, pins.len() as int),
        forall|t: Seq<char>| #[trigger] ids.deep_view().contains(t) <==> is_source_ident(text, is_main, t),
    ensures
        b == pattern_matches(p@, pins, text, is_main),
{
    let by_label = any_in(&p.label_macros, ids);
    let by_periph = any_in(&p.periph_tokens, ids);
    let by_family = match &p.periph_family {
        Some(f) => {
            let n = count_for(counts, f.as_str(), Ghost(pins));
            if n <= 2 {
                let ms = markers_of(f.as_str());
                any_in(&ms, ids)
            } else {
                false
            }
        },
        None => false,
    };
    let by_raw = if p.label_macros.len() == 0 {
        match (&p.raw_port, &p.raw_pin) {
            (Some(port), Some(pin)) => has_ident(ids, port.as_str()) && has_ident(ids, pin.as_str()),
            _ => false,
        }
    } else {
        false
    };
    proof {
        if by_label {
            let m = choose|m: int| 0 <= m < p.label_macros@.len() && ids.deep_view().contains(#[trigger] p.label_macros.deep_view()[m]);
            assert(is_source_ident(text, is_main, p@.label_macros[m]));
        }
        if any_ident(p@.label_macros, text, is_main) {
            let m = choose|m: int| 0 <= m < p@.label_macros.len() && is_source_ident(text, is_main, #[trigger] p@.label_macros[m]);
            assert(ids.deep_view().contains(p.label_macros.deep_view()[m]));
        }
        if by_periph {
            let m = choose|m: int| 0 <= m < p.periph_tokens@.len() && ids.deep_view().contains(#[trigger] p.periph_tokens.deep_view()[m]);
            assert(is_source_ident(text, is_main, p@.periph_tokens[m]));
        }
        if any_ident(p@.periph_tokens, text, is_main) {
            let m = choose|m: int| 0 <= m < p@.periph_tokens.len() && is_source_ident(text, is_main, #[trigger] p@.periph_tokens[m]);
            assert(ids.deep_view().contains(p.periph_tokens.deep_view()[m]));
        }
        if let Some(f) = p@.periph_family {
            if any_ident(family_markers(f), text, is_main) {
                let m = choose|m: int| 0 <= m < family_markers(f).len() && is_source_ident(text, is_main, #[trigger] family_markers(f)[m]);
                assert(ids.deep_view().contains(family_markers(f)[m]));
            }
        }
    }
    by_label || by_periph || by_family || by_raw
}

/// A sorted copy of `v` without repeats.
fn sorted_unique(v: &Vec<String>) -> (r: Vec<String>)
    ensures
        strictly_sorted(r.deep_view()),
        forall|t: Seq<char>| #[trigger] r.deep_view().contains(t) <==> v.deep_view().contains(t),
{
    let mut r: Vec<String> = Vec::new();
    let mut i: usize = 0;
    while i < v.len()
        invariant
            0 <= i <= v@.len(),
            strictly_sorted(r.deep_view()),
            forall|t: Seq<char>| #[trigger] r.deep_view().contains(t) <==> v.deep_view().subrange(0, i as int).contains(t),
        decreases v.len() - i,
    {
        assert(v.deep_view()[i as int] == v@[i as int]@);
        insert_sorted(&mut r, v[i].clone());
        assert forall|t: Seq<char>| #[trigger] r.deep_view().contains(t) <==> v.deep_view().subrange(0, i + 1).contains(t) by {
            if v.deep_view().subrange(0, i + 1).contains(t) {
                let m = choose|m: int| 0 <= m < i + 1 && #[trigger] v.deep_view().subrange(0, i + 1)[m] == t;
                if m < i {
                    assert(v.deep_view().subrange(0, i as int)[m] == t);
                }
            }
            if v.deep_view().subrange(0, i as int).contains(t) {
                let m = choose|m: int| 0 <= m < i && #[trigger] v.deep_view().subrange(0, i as int)[m] == t;
                assert(v.deep_view().subrange(0, i + 1)[m] == t);
            }
            if t == v.deep_view()[i as int] {
                assert(v.deep_view().subrange(0, i + 1)[i as int] == t);
            }
        }
        i += 1;
    }
    assert(v.deep_view().subrange(0, i as int) =~= v.deep_view());
    r
}

/// For each pin, the modules that use it; and the modules, sorted. `files`
/// holds the stem and text of each C file of the application (`main` when
/// it is the only one); the stems are sorted and free of repeats, and with
/// no files the one module is `main`.
pub fn assign_pin_modules(pins: &[PinConfig], files: &[(String, String)]) -> (r: (Vec<PinConfig>, Vec<String>))
    requires
        forall|i: int| 0 <= i < pins@.len() ==> pin_name_ok(#[trigger] pins@[i].pin@),
        forall|f: int| 0 <= f < files@.len() ==> byte_len((#[trigger] files@[f]).1@) < usize::MAX,
    ensures
        r.0@.len() == pins@.len(),
        forall|i: int|
            0 <= i < pins@.len() ==> {
                &&& (#[trigger] r.0@[i]).pin@ == pins@[i].pin@
                &&& r.0@[i].signal@ == pins@[i].signal@
                &&& r.0@[i].label.deep_view() == pins@[i].label.deep_view()
                &&& strictly_sorted(r.0@[i].modules.deep_view())
                &&& forall|t: Seq<char>|
                    #[trigger] r.0@[i].modules.deep_view().contains(t) <==> pin_uses(
                        pins@.map_values(|p: PinConfig| p@),
                        files@.map_values(|f: (String, String)| (f.0@, f.1@)),
                        i,
                        t,
                    )
            },
        strictly_sorted(r.1.deep_view()),
        forall|t: Seq<char>|
            #[trigger] r.1.deep_view().contains(t) <==> ((exists|f: int| 0 <= f < files@.len() && (#[trigger] files@[f]).0@ == t)
                || (files@.len() == 0 && t == "main"@)),
{
    let ghost pv = pins@.map_values(|p: PinConfig| p@);
    let ghost fv = files@.map_values(|f: (String, String)| (f.0@, f.1@));
    let (patterns, counts) = build_pin_patterns(pins);
    let mut ids: Vec<Vec<String>> = Vec::new();
    let mut f: usize = 0;
    while f < files.len()
        invariant
            0 <= f <= files@.len(),
            fv == files@.map_values(|f: (String, String)| (f.0@, f.1@)),
            forall|g: int| 0 <= g < files@.len() ==> byte_len((#[trigger] files@[g]).1@) < usize::MAX,
            ids@.len() == f,
            forall|g: int, t: Seq<char>|
                0 <= g < f ==> (#[trigger] ids@[g].deep_view().contains(t) <==> is_source_ident(fv[g].1, fv[g].0 == "main"@, t)),
        decreases files.len() - f,
    {
        assert(fv[f as int] == (files@[f as int].0@, files@[f as int].1@));
        let is_main = str_eq(files[f].0.as_str(), "main");
        ids.push(extract_ast_identifiers(files[f].1.as_str(), is_main));
        f += 1;
    }
    let mut out: Vec<PinConfig> = Vec::new();
    let mut i: usize = 0;
    while i < pins.len()
        invariant
            0 <= i <= pins@.len(),
            pv == pins@.map_values(|p: PinConfig| p@),
            fv == files@.map_values(|f: (String, String)| (f.0@, f.1@)),
            patterns@.len() == pins@.len(),
            forall|j: int| 0 <= j < pins@.len() ==> (#[trigger] patterns@[j])@ == pattern_of(pins@[j]@, j),
            counts@.len() == 7,
            forall|k: int| 0 <= k < 7 ==> #[trigger] counts@[k] == family_count(pv, k, pins@.len() as int),
            ids@.len() == files@.len(),
            forall|g: int, t: Seq<char>|
                0 <= g < files@.len() ==> (#[trigger] ids@[g].deep_view().contains(t) <==> is_source_ident(fv[g].1, fv[g].0 == "main"@, t)),
            out@.len() == i,
            forall|j: int|
                0 <= j < i ==> {
                    &&& (#[trigger] out@[j]).pin@ == pins@[j].pin@
                    &&& out@[j].signal@ == pins@[j].signal@
                    &&& out@[j].label.deep_view() == pins@[j].label.deep_view()
                    &&& strictly_sorted(out@[j].modules.deep_view())
                    &&& forall|t: Seq<char>| #[trigger] out@[j].modules.deep_view().contains(t) <==> pin_uses(pv, fv, j, t)
                },
        decreases pins.len() - i,
    {
        assert(pv[i as int] == pins@[i as int]@);
        let mut mods = sorted_unique(&pins[i].modules);
        let mut g: usize = 0;
        while g < files.len()
            invariant
                0 <= g <= files@.len(),
                i < pins@.len(),
                pv == pins@.map_values(|p: PinConfig| p@),
                fv == files@.map_values(|f: (String, String)| (f.0@, f.1@)),
                pv[i as int] == pins@[i as int]@,
                patterns@.len() == pins@.len(),
                patterns@[i as int]@ == pattern_of(pins@[i as int]@, i as int),
                counts@.len() == 7,
                forall|k: int| 0 <= k < 7 ==> #[trigger] counts@[k] == family_count(pv, k, pins@.len() as int),
                ids@.len() == files@.len(),
                forall|h: int, t: Seq<char>|
                    0 <= h < files@.len() ==> (#[trigger] ids@[h].deep_view().contains(t) <==> is_source_ident(fv[h].1, fv[h].0 == "main"@, t)),
                strictly_sorted(mods.deep_view()),
                forall|t: Seq<char>|
                    #[trigger] mods.deep_view().contains(t) <==> (pv[i as int].modules.contains(t) || exists|h: int|
                        0 <= h < g && (#[trigger] fv[h]).0 == t && pattern_matches(
                            pattern_of(pv[i as int], i as int),
                            pv,
                            fv[h].1,
                            fv[h].0 == "main"@,
                        )),
            decreases files.len() - g,
        {
            assert(fv[g as int] == (files@[g as int].0@, files@[g as int].1@));
            let is_main = str_eq(files[g].0.as_str(), "main");
            let hit = pattern_matches_ids(
                &patterns[i],
                &counts,
                &ids[g],
                Ghost(pv),
                Ghost(fv[g as int].1),
                Ghost(fv[g as int].0 == "main"@),
            );
            let ghost before = mods.deep_view();
            if hit {
                insert_sorted(&mut mods, files[g].0.clone());
            }
            assert forall|t: Seq<char>|
                #[trigger] mods.deep_view().contains(t) <==> (pv[i as int].modules.contains(t) || exists|h: int|
                    0 <= h < g + 1 && (#[trigger] fv[h]).0 == t && pattern_matches(
                        pattern_of(pv[i as int], i as int),
                        pv,
                        fv[h].1,
                        fv[h].0 == "main"@,
                    )) by {
                if exists|h: int|
                    0 <= h < g + 1 && (#[trigger] fv[h]).0 == t && pattern_matches(
                        pattern_of(pv[i as int], i as int),
                        pv,
                        fv[h].1,
                        fv[h].0 == "main"@,
                    ) {
                    let h = choose|h: int|
                        0 <= h < g + 1 && (#[trigger] fv[h]).0 == t && pattern_matches(
                            pattern_of(pv[i as int], i as int),
                            pv,
                            fv[h].1,
                            fv[h].0 == "main"@,
                        );
                    if h == g {
                        assert(hit);
                    }
                }
            }
            g += 1;
        }
        let label = match &pins[i].label {
            Some(l) => Some(l.clone()),
            None => None,
        };
        out.push(PinConfig { pin: pins[i].pin.clone(), signal: pins[i].signal.clone(), label, modules: mods });
        assert forall|t: Seq<char>| #[trigger] out@[i as int].modules.deep_view().contains(t) <==> pin_uses(pv, fv, i as int, t) by {
            if pin_uses(pv, fv, i as int, t) && !pv[i as int].modules.contains(t) {
                let h = choose|h: int|
                    0 <= h < fv.len() && (#[trigger] fv[h]).0 == t && pattern_matches(
                        pattern_of(pv[i as int], i as int),
                        pv,
                        fv[h].1,
                        fv[h].0 == "main"@,
                    );
                assert(h < g);
            }
        }
        i += 1;
    }
    let mut modules: Vec<String> = Vec::new();
    let mut g: usize = 0;
    while g < files.len()
        invariant
            0 <= g <= files@.len(),
            strictly_sorted(modules.deep_view()),
            forall|t: Seq<char>|
                #[trigger] modules.deep_view().contains(t) <==> exists|h: int| 0 <= h < g && (#[trigger] files@[h]).0@ == t,
        decreases files.len() - g,
    {
        insert_sorted(&mut modules, files[g].0.clone());
        assert forall|t: Seq<char>|
            #[trigger] modules.deep_view().contains(t) <==> exists|h: int| 0 <= h < g + 1 && (#[trigger] files@[h]).0@ == t by {
            if t == files@[g as int].0@ {
                assert(files@[g as int].0@ == t);
            }
        }
        g += 1;
    }
    if files.len() == 0 {
        insert_sorted(&mut modules, crate::text::owned("main"));
    }
    (out, modules)
}

} // verus!
