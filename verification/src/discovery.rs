//! Finding state machines in C sources: enums, the variables declared with
//! them, the helper functions that assign such a variable, and whether some
//! branch that tests a variable assigns it again.
use vstd::prelude::*;
use crate::ctree::{kid_of_kind, kids_any, kids_collect, kids_concat, lemma_collect_bounds, subtree_any, subtree_collect, CTree};
use crate::labels::{clean_guard, clean_guard_text};
use crate::pin_modules::field_child;
use crate::syntax::{children, trimmed_text, SyntaxNodeView};
use crate::text::{contains_string, first_occurrences, str_eq};
use crate::user_call_graph::is_wrapping_declarator;
use crate::machine::{copy_strings, EnumDefinition, EnumSpec, ScopeSpec, TrackedVariable, VarSpec, VariableScope};
use crate::syntax::{c_syntax, row_of};
use crate::ctree::{parse_tree, parses};
use crate::machine::{candidates_view, CandidateSpec, StateMachineCandidate};
use crate::sorted::{seq_lt, str_lt};
use crate::marker_scan::ScanError;
use crate::text::{byte_len, concat3, concat_str};
use crate::text::owned;

verus! {

/// The trimmed text of node `i`.
pub open spec fn txt(s: Seq<char>, ns: Seq<SyntaxNodeView>, i: int) -> Seq<char> {
    trimmed_text(s, ns, i)
}

/// The identifier that the expression at node `i` names, looking inside
/// parentheses: the first child that names one.
pub open spec fn target_ident(s: Seq<char>, ns: Seq<SyntaxNodeView>, i: int) -> Option<Seq<char>>
    decreases ns.len() - i, 1int, 0int,
{
    if 0 <= i < ns.len() {
        if ns[i].kind == "identifier"@ {
            Some(txt(s, ns, i))
        } else if ns[i].kind == "parenthesized_expression"@ {
            target_ident_kids(s, ns, i, 0)
        } else {
            None
        }
    } else {
        None
    }
}

/// The first child of `i`, from the `m`-th on, that names an identifier.
pub open spec fn target_ident_kids(s: Seq<char>, ns: Seq<SyntaxNodeView>, i: int, m: int) -> Option<Seq<char>>
    decreases ns.len() - i, 0int, children(ns, i).len() - m,
{
    let kids = children(ns, i);
    if 0 <= m < kids.len() && i < kids[m] < ns.len() {
        match target_ident(s, ns, kids[m] as int) {
            Some(x) => Some(x),
            None => target_ident_kids(s, ns, i, m + 1),
        }
    } else {
        None
    }
}

/// The variant of `vs` that the expression at node `i` names: its whole
/// text, or what a parenthesised or cast expression holds.
pub open spec fn variant_ident(s: Seq<char>, ns: Seq<SyntaxNodeView>, i: int, vs: Seq<Seq<char>>) -> Option<Seq<char>>
    decreases ns.len() - i, 1int, 0int,
{
    if 0 <= i < ns.len() {
        if vs.contains(txt(s, ns, i)) {
            Some(txt(s, ns, i))
        } else if ns[i].kind == "parenthesized_expression"@ || ns[i].kind == "cast_expression"@ {
            variant_ident_kids(s, ns, i, vs, 0)
        } else {
            None
        }
    } else {
        None
    }
}

/// The first child of `i`, from the `m`-th on, that names a variant.
pub open spec fn variant_ident_kids(s: Seq<char>, ns: Seq<SyntaxNodeView>, i: int, vs: Seq<Seq<char>>, m: int) -> Option<
    Seq<char>,
>
    decreases ns.len() - i, 0int, children(ns, i).len() - m,
{
    let kids = children(ns, i);
    if 0 <= m < kids.len() && i < kids[m] < ns.len() {
        match variant_ident(s, ns, kids[m] as int, vs) {
            Some(x) => Some(x),
            None => variant_ident_kids(s, ns, i, vs, m + 1),
        }
    } else {
        None
    }
}

/// The identifier that node `i` names, or the empty text.
pub open spec fn ident_or_empty(s: Seq<char>, ns: Seq<SyntaxNodeView>, i: int) -> Seq<char> {
    match target_ident(s, ns, i) {
        Some(x) => x,
        None => Seq::<char>::empty(),
    }
}

/// `l == r` or `l != r` compares the variable `var` with a variant, on
/// either side.
pub open spec fn compares_pair(
    s: Seq<char>,
    ns: Seq<SyntaxNodeView>,
    l: int,
    r: int,
    var: Seq<char>,
    vs: Seq<Seq<char>>,
) -> bool {
    (ident_or_empty(s, ns, l) == var && variant_ident(s, ns, r, vs) is Some) || (ident_or_empty(s, ns, r) == var
        && variant_ident(s, ns, l, vs) is Some)
}

/// The condition at node `i` compares `var` with one of the variants `vs`,
/// through parentheses, `&&` and `||`.
pub open spec fn compares_var(s: Seq<char>, ns: Seq<SyntaxNodeView>, i: int, var: Seq<char>, vs: Seq<Seq<char>>) -> bool
    decreases ns.len() - i, 1int, 0int,
{
    if 0 <= i < ns.len() {
        if ns[i].kind == "parenthesized_expression"@ {
            compares_var_kids(s, ns, i, var, vs, 0)
        } else if ns[i].kind == "binary_expression"@ {
            match (field_child(ns, i, "operator"@), field_child(ns, i, "left"@), field_child(ns, i, "right"@)) {
                (Some(o), Some(l), Some(r)) => {
                    let op = txt(s, ns, o as int);
                    if op == "=="@ || op == "!="@ {
                        compares_pair(s, ns, l as int, r as int, var, vs)
                    } else if op == "&&"@ || op == "||"@ {
                        (i < l < ns.len() && compares_var(s, ns, l as int, var, vs)) || (i < r < ns.len()
                            && compares_var(s, ns, r as int, var, vs))
                    } else {
                        false
                    }
                },
                _ => false,
            }
        } else {
            false
        }
    } else {
        false
    }
}

/// A child of `i`, from the `m`-th on, other than a parenthesis or a
/// comment, compares `var` with a variant.
pub open spec fn compares_var_kids(
    s: Seq<char>,
    ns: Seq<SyntaxNodeView>,
    i: int,
    var: Seq<char>,
    vs: Seq<Seq<char>>,
    m: int,
) -> bool
    decreases ns.len() - i, 0int, children(ns, i).len() - m,
{
    let kids = children(ns, i);
    if 0 <= m < kids.len() && i < kids[m] < ns.len() {
        let k = ns[kids[m] as int].kind;
        (k != "("@ && k != ")"@ && k != "comment"@ && compares_var(s, ns, kids[m] as int, var, vs))
            || compares_var_kids(s, ns, i, var, vs, m + 1)
    } else {
        false
    }
}

/// Node `j` assigns `var`, or calls one of the helpers `hs`.
pub open spec fn assign_here(s: Seq<char>, ns: Seq<SyntaxNodeView>, j: int, var: Seq<char>, hs: Seq<Seq<char>>) -> bool {
    if ns[j].kind == "assignment_expression"@ {
        match field_child(ns, j, "left"@) {
            Some(l) => target_ident(s, ns, l as int) == Some(var),
            None => false,
        }
    } else if ns[j].kind == "call_expression"@ {
        match field_child(ns, j, "function"@) {
            Some(f) => hs.contains(txt(s, ns, f as int)),
            None => false,
        }
    } else {
        false
    }
}

/// `assign_here` as a predicate on nodes.
pub open spec fn assign_pred(s: Seq<char>, ns: Seq<SyntaxNodeView>, var: Seq<char>, hs: Seq<Seq<char>>) -> spec_fn(int) -> bool {
    |j: int| assign_here(s, ns, j, var, hs)
}

/// The subtree at node `i` assigns `var` or calls one of the helpers `hs`.
pub open spec fn assigns_var(s: Seq<char>, ns: Seq<SyntaxNodeView>, i: int, var: Seq<char>, hs: Seq<Seq<char>>) -> bool {
    subtree_any(ns, i, assign_pred(s, ns, var, hs))
}

/// Node `j` dispatches on `var`: a `switch (var)` whose body assigns it, or
/// an `if` that compares it with a variant and has a branch that assigns it.
pub open spec fn dispatch_here(
    s: Seq<char>,
    ns: Seq<SyntaxNodeView>,
    j: int,
    var: Seq<char>,
    vs: Seq<Seq<char>>,
    hs: Seq<Seq<char>>,
) -> bool {
    if ns[j].kind == "switch_statement"@ {
        match (field_child(ns, j, "condition"@), field_child(ns, j, "body"@)) {
            (Some(c), Some(b)) => clean_guard(txt(s, ns, c as int)) == var && assigns_var(s, ns, b as int, var, hs),
            _ => false,
        }
    } else if ns[j].kind == "if_statement"@ {
        match field_child(ns, j, "condition"@) {
            Some(c) => compares_var(s, ns, c as int, var, vs) && (match field_child(ns, j, "consequence"@) {
                Some(q) => assigns_var(s, ns, q as int, var, hs),
                None => false,
            } || match field_child(ns, j, "alternative"@) {
                Some(a) => assigns_var(s, ns, a as int, var, hs),
                None => false,
            }),
            None => false,
        }
    } else {
        false
    }
}

/// Somewhere in the subtree at node `i`, a branch that tests `var` assigns
/// it again.
pub open spec fn guarded_dispatch(
    s: Seq<char>,
    ns: Seq<SyntaxNodeView>,
    i: int,
    var: Seq<char>,
    vs: Seq<Seq<char>>,
    hs: Seq<Seq<char>>,
) -> bool {
    subtree_any(ns, i, dispatch_pred(s, ns, var, vs, hs))
}

/// `dispatch_here` as a predicate on nodes.
pub open spec fn dispatch_pred(
    s: Seq<char>,
    ns: Seq<SyntaxNodeView>,
    var: Seq<char>,
    vs: Seq<Seq<char>>,
    hs: Seq<Seq<char>>,
) -> spec_fn(int) -> bool {
    |j: int| dispatch_here(s, ns, j, var, vs, hs)
}

/// The name that the declarator at node `i` declares, following the
/// `declarator` field (or the first child) of wrapping declarators.
pub open spec fn ident_name(s: Seq<char>, ns: Seq<SyntaxNodeView>, i: int) -> Option<Seq<char>>
    decreases ns.len() - i,
{
    if 0 <= i < ns.len() {
        if ns[i].kind == "identifier"@ {
            Some(txt(s, ns, i))
        } else if is_wrapping_declarator(ns[i].kind) {
            match field_child(ns, i, "declarator"@) {
                Some(c) => if i < c < ns.len() {
                    ident_name(s, ns, c as int)
                } else {
                    None
                },
                None => if children(ns, i).len() > 0 && i < children(ns, i)[0] < ns.len() {
                    ident_name(s, ns, children(ns, i)[0] as int)
                } else {
                    None
                },
            }
        } else {
            None
        }
    } else {
        None
    }
}

/// The name of the function that the definition at node `i` defines.
pub open spec fn fn_name(s: Seq<char>, ns: Seq<SyntaxNodeView>, i: int) -> Option<Seq<char>> {
    match field_child(ns, i, "declarator"@) {
        Some(d) => ident_name(s, ns, d as int),
        None => None,
    }
}

/// The function definitions of the subtree at node `i`, outermost only.
pub open spec fn functions_in(ns: Seq<SyntaxNodeView>, i: int) -> Seq<usize> {
    subtree_collect(ns, i, fn_pick(ns), fn_stop(ns))
}

/// A function definition, as a one-element list.
pub open spec fn fn_pick(ns: Seq<SyntaxNodeView>) -> spec_fn(int) -> Seq<usize> {
    |j: int|
        if ns[j].kind == "function_definition"@ {
            seq![j as usize]
        } else {
            Seq::<usize>::empty()
        }
}

/// The walk does not go into function definitions.
pub open spec fn fn_stop(ns: Seq<SyntaxNodeView>) -> spec_fn(int) -> bool {
    |j: int| ns[j].kind == "function_definition"@
}

/// Node `j` is a `switch (var)`.
pub open spec fn switch_here(s: Seq<char>, ns: Seq<SyntaxNodeView>, j: int, var: Seq<char>) -> bool {
    ns[j].kind == "switch_statement"@ && match field_child(ns, j, "condition"@) {
        Some(c) => clean_guard(txt(s, ns, c as int)) == var,
        None => false,
    }
}

/// The subtree at node `i` holds a `switch (var)`.
pub open spec fn has_switch_on(s: Seq<char>, ns: Seq<SyntaxNodeView>, i: int, var: Seq<char>) -> bool {
    subtree_any(ns, i, switch_pred(s, ns, var))
}

/// `switch_here` as a predicate on nodes.
pub open spec fn switch_pred(s: Seq<char>, ns: Seq<SyntaxNodeView>, var: Seq<char>) -> spec_fn(int) -> bool {
    |j: int| switch_here(s, ns, j, var)
}

/// The variant that node `j` assigns to `var`, if it is such an assignment.
pub open spec fn assigned_here(
    s: Seq<char>,
    ns: Seq<SyntaxNodeView>,
    j: int,
    var: Seq<char>,
    vs: Seq<Seq<char>>,
) -> Seq<Seq<char>> {
    match (field_child(ns, j, "left"@), field_child(ns, j, "right"@)) {
        (Some(l), Some(r)) => if ns[j].kind == "assignment_expression"@ && target_ident(s, ns, l as int) == Some(
            var,
        ) {
            match variant_ident(s, ns, r as int, vs) {
                Some(v) => seq![v],
                None => Seq::<Seq<char>>::empty(),
            }
        } else {
            Seq::<Seq<char>>::empty()
        },
        _ => Seq::<Seq<char>>::empty(),
    }
}

/// The variants that the subtree at node `i` assigns to `var`, each once,
/// in the order first assigned.
pub open spec fn assigned_targets(
    s: Seq<char>,
    ns: Seq<SyntaxNodeView>,
    i: int,
    var: Seq<char>,
    vs: Seq<Seq<char>>,
) -> Seq<Seq<char>> {
    first_occurrences(assigned_raw(s, ns, i, var, vs))
}

/// The variants that the subtree at node `i` assigns to `var`, in tree order.
pub open spec fn assigned_raw(
    s: Seq<char>,
    ns: Seq<SyntaxNodeView>,
    i: int,
    var: Seq<char>,
    vs: Seq<Seq<char>>,
) -> Seq<Seq<char>> {
    subtree_collect(ns, i, assigned_pick(s, ns, var, vs), no_stop())
}

/// `assigned_here` as a function of nodes.
pub open spec fn assigned_pick(s: Seq<char>, ns: Seq<SyntaxNodeView>, var: Seq<char>, vs: Seq<Seq<char>>) -> spec_fn(
    int,
) -> Seq<Seq<char>> {
    |j: int| assigned_here(s, ns, j, var, vs)
}

/// A walk that goes through every node.
pub open spec fn no_stop() -> spec_fn(int) -> bool {
    |j: int| false
}

// ---------------------------------------------------------------------
// Helper functions: the functions that assign the variable, directly or
// through other helpers.
// ---------------------------------------------------------------------

/// Helper functions by name, each with the variants that calling it
/// assigns; a name occurs at most once.
pub type Helpers = Seq<(Seq<char>, Seq<Seq<char>>)>;

/// The first index at or after `k` whose name is `n`.
pub open spec fn helper_index(hs: Helpers, n: Seq<char>, k: int) -> Option<int>
    decreases hs.len() - k,
{
    if k < 0 || k >= hs.len() {
        None
    } else if hs[k].0 == n {
        Some(k)
    } else {
        helper_index(hs, n, k + 1)
    }
}

/// The variants of the helper `n`.
pub open spec fn helper_get(hs: Helpers, n: Seq<char>) -> Option<Seq<Seq<char>>> {
    match helper_index(hs, n, 0) {
        Some(k) => Some(hs[k].1),
        None => None,
    }
}

/// `hs` with the variants of `n` set to `v`.
pub open spec fn helper_put(hs: Helpers, n: Seq<char>, v: Seq<Seq<char>>) -> Helpers {
    match helper_index(hs, n, 0) {
        Some(k) => hs.update(k, (n, v)),
        None => hs.push((n, v)),
    }
}

/// The names of the helpers.
pub open spec fn helper_names(hs: Helpers) -> Seq<Seq<char>> {
    hs.map_values(|e: (Seq<char>, Seq<Seq<char>>)| e.0)
}

/// The helper `n` is known to assign some variant.
pub open spec fn resolved(hs: Helpers, n: Seq<char>) -> bool {
    match helper_get(hs, n) {
        Some(e) => e.len() > 0,
        None => false,
    }
}

/// The function at node `f` may be a helper: it is named, is not `main`,
/// and does not itself switch on `var`.
pub open spec fn helper_candidate(s: Seq<char>, ns: Seq<SyntaxNodeView>, f: int, var: Seq<char>) -> bool {
    match fn_name(s, ns, f) {
        Some(n) => n != "main"@ && !has_switch_on(s, ns, f, var),
        None => false,
    }
}

/// The helpers that assign `var` directly, from the functions `fns`.
pub open spec fn base_helpers(
    s: Seq<char>,
    ns: Seq<SyntaxNodeView>,
    fns: Seq<usize>,
    var: Seq<char>,
    vs: Seq<Seq<char>>,
) -> Helpers
    decreases fns.len(),
{
    if fns.len() == 0 {
        Seq::empty()
    } else {
        let hs = base_helpers(s, ns, fns.drop_last(), var, vs);
        let f = fns.last() as int;
        if helper_candidate(s, ns, f, var) {
            let ts = assigned_targets(s, ns, f, var, vs);
            if ts.len() > 0 {
                helper_put(hs, fn_name(s, ns, f)->0, ts)
            } else {
                hs
            }
        } else {
            hs
        }
    }
}

/// Node `j` calls one of the helpers `hs`, by name.
pub open spec fn called_here(s: Seq<char>, ns: Seq<SyntaxNodeView>, j: int, hs: Helpers) -> Seq<Seq<char>> {
    if ns[j].kind == "call_expression"@ {
        match field_child(ns, j, "function"@) {
            Some(c) => if helper_get(hs, txt(s, ns, c as int)) is Some {
                seq![txt(s, ns, c as int)]
            } else {
                Seq::<Seq<char>>::empty()
            },
            None => Seq::<Seq<char>>::empty(),
        }
    } else {
        Seq::<Seq<char>>::empty()
    }
}

/// `called_here` as a function of nodes.
pub open spec fn called_pick(s: Seq<char>, ns: Seq<SyntaxNodeView>, hs: Helpers) -> spec_fn(int) -> Seq<Seq<char>> {
    |j: int| called_here(s, ns, j, hs)
}

/// The helpers that the subtree at node `f` calls, each once, in the order
/// first called.
pub open spec fn called_helpers(s: Seq<char>, ns: Seq<SyntaxNodeView>, f: int, hs: Helpers) -> Seq<Seq<char>> {
    first_occurrences(subtree_collect(ns, f, called_pick(s, ns, hs), no_stop()))
}

/// `cur` followed by the strings of `ts` that it does not hold yet.
pub open spec fn add_new(cur: Seq<Seq<char>>, ts: Seq<Seq<char>>) -> Seq<Seq<char>>
    decreases ts.len(),
{
    if ts.len() == 0 {
        cur
    } else {
        let c = add_new(cur, ts.drop_last());
        if c.contains(ts.last()) {
            c
        } else {
            c.push(ts.last())
        }
    }
}

/// The helper `n` takes on the variants of each of the helpers `called`;
/// whether it gained one.
pub open spec fn absorb(hs: Helpers, n: Seq<char>, called: Seq<Seq<char>>) -> (Helpers, bool)
    decreases called.len(),
{
    if called.len() == 0 {
        (hs, false)
    } else {
        let (h1, c1) = absorb(hs, n, called.drop_last());
        match helper_get(h1, called.last()) {
            Some(ht) => {
                let cur = match helper_get(h1, n) {
                    Some(e) => e,
                    None => Seq::<Seq<char>>::empty(),
                };
                let merged = add_new(cur, ht);
                (helper_put(h1, n, merged), c1 || merged.len() > cur.len())
            },
            None => (h1, c1),
        }
    }
}

/// One function's turn in a round of propagation: a function that may be a
/// helper and is none yet takes on the variants of the helpers it calls.
pub open spec fn pass_step(s: Seq<char>, ns: Seq<SyntaxNodeView>, f: int, var: Seq<char>, hs: Helpers) -> (Helpers, bool) {
    if helper_candidate(s, ns, f, var) && !resolved(hs, fn_name(s, ns, f)->0) {
        absorb(hs, fn_name(s, ns, f)->0, called_helpers(s, ns, f, hs))
    } else {
        (hs, false)
    }
}

/// A round of propagation over the functions `fns`, in order.
pub open spec fn pass(s: Seq<char>, ns: Seq<SyntaxNodeView>, fns: Seq<usize>, var: Seq<char>, hs: Helpers) -> (Helpers, bool)
    decreases fns.len(),
{
    if fns.len() == 0 {
        (hs, false)
    } else {
        let (h1, c1) = pass(s, ns, fns.drop_last(), var, hs);
        let (h2, c2) = pass_step(s, ns, fns.last() as int, var, h1);
        (h2, c1 || c2)
    }
}

/// The number of the functions `fns` whose name is a helper that assigns
/// some variant.
pub open spec fn resolved_count(s: Seq<char>, ns: Seq<SyntaxNodeView>, fns: Seq<usize>, hs: Helpers) -> nat
    decreases fns.len(),
{
    if fns.len() == 0 {
        0
    } else {
        resolved_count(s, ns, fns.drop_last(), hs) + if fn_name(s, ns, fns.last() as int) matches Some(n) && resolved(
            hs,
            n,
        ) {
            1nat
        } else {
            0nat
        }
    }
}

/// Rounds of propagation until one changes nothing.
pub open spec fn helpers_fix(s: Seq<char>, ns: Seq<SyntaxNodeView>, fns: Seq<usize>, var: Seq<char>, hs: Helpers) -> Helpers
    decreases fns.len() - resolved_count(s, ns, fns, hs),
    via helpers_fix_decreases
{
    let (h2, ch) = pass(s, ns, fns, var, hs);
    if ch {
        helpers_fix(s, ns, fns, var, h2)
    } else {
        h2
    }
}

/// The functions of a parsed file, outermost only.
pub open spec fn root_functions(ns: Seq<SyntaxNodeView>) -> Seq<usize> {
    if ns.len() > 0 {
        functions_in(ns, 0)
    } else {
        Seq::empty()
    }
}

/// The helper functions of a file for the variable `var` of an enum with
/// the variants `vs`.
pub open spec fn helpers_of(s: Seq<char>, ns: Seq<SyntaxNodeView>, var: Seq<char>, vs: Seq<Seq<char>>) -> Helpers {
    let fns = root_functions(ns);
    helpers_fix(s, ns, fns, var, base_helpers(s, ns, fns, var, vs))
}

// Lemmas on helpers.

pub proof fn lemma_helper_index(hs: Helpers, n: Seq<char>, k: int)
    requires
        0 <= k,
    ensures
        helper_index(hs, n, k) matches Some(j) ==> k <= j < hs.len() && hs[j].0 == n && forall|m: int|
            k <= m < j ==> hs[m].0 != n,
        helper_index(hs, n, k) is None ==> forall|m: int| k <= m < hs.len() ==> hs[m].0 != n,
    decreases hs.len() - k,
{
    if k < hs.len() && hs[k].0 != n {
        lemma_helper_index(hs, n, k + 1);
    }
}

pub proof fn lemma_helper_put_get(hs: Helpers, n: Seq<char>, v: Seq<Seq<char>>, x: Seq<char>)
    ensures
        helper_get(helper_put(hs, n, v), x) == if x == n {
            Some(v)
        } else {
            helper_get(hs, x)
        },
{
    lemma_helper_index(hs, n, 0);
    lemma_helper_index(hs, x, 0);
    let h2 = helper_put(hs, n, v);
    lemma_helper_index(h2, x, 0);
    match helper_index(hs, n, 0) {
        Some(k) => {
            assert(h2 == hs.update(k, (n, v)));
            if x == n {
                assert(h2[k].0 == n);
                if let Some(j) = helper_index(h2, x, 0) {
                    if j < k {
                        assert(h2[j] == hs[j]);
                    } else if j > k {
                        assert(false);
                    }
                } else {
                    assert(false);
                }
            } else {
                match helper_index(hs, x, 0) {
                    Some(j) => {
                        assert(h2[j] == hs[j]);
                        if let Some(j2) = helper_index(h2, x, 0) {
                            if j2 < j {
                                assert(h2[j2] == hs[j2] || j2 == k);
                            } else if j2 > j {
                                assert(false);
                            }
                        } else {
                            assert(false);
                        }
                    },
                    None => {
                        if let Some(j2) = helper_index(h2, x, 0) {
                            if j2 != k {
                                assert(h2[j2] == hs[j2]);
                            }
                            assert(false);
                        }
                    },
                }
            }
        },
        None => {
            assert(h2 == hs.push((n, v)));
            if x == n {
                if let Some(j) = helper_index(h2, x, 0) {
                    if j < hs.len() {
                        assert(h2[j] == hs[j]);
                        assert(false);
                    }
                } else {
                    assert(h2[hs.len() as int].0 == n);
                    assert(false);
                }
            } else {
                match helper_index(hs, x, 0) {
                    Some(j) => {
                        assert(h2[j] == hs[j]);
                        if let Some(j2) = helper_index(h2, x, 0) {
                            if j2 < j {
                                assert(h2[j2] == hs[j2]);
                            } else if j2 > j {
                                assert(false);
                            }
                        } else {
                            assert(false);
                        }
                    },
                    None => {
                        if let Some(j2) = helper_index(h2, x, 0) {
                            if j2 < hs.len() {
                                assert(h2[j2] == hs[j2]);
                            }
                            assert(false);
                        }
                    },
                }
            }
        },
    }
}

proof fn lemma_add_new_len(cur: Seq<Seq<char>>, ts: Seq<Seq<char>>)
    ensures
        add_new(cur, ts).len() >= cur.len(),
    decreases ts.len(),
{
    if ts.len() > 0 {
        lemma_add_new_len(cur, ts.drop_last());
    }
}

/// Everything that is resolved stays resolved through `absorb`, and when it
/// reports a gain, `n` is resolved afterwards.
proof fn lemma_absorb(hs: Helpers, n: Seq<char>, called: Seq<Seq<char>>)
    ensures
        forall|x: Seq<char>| resolved(hs, x) ==> #[trigger] resolved(absorb(hs, n, called).0, x),
        absorb(hs, n, called).1 ==> resolved(absorb(hs, n, called).0, n),
    decreases called.len(),
{
    if called.len() > 0 {
        lemma_absorb(hs, n, called.drop_last());
        let (h1, c1) = absorb(hs, n, called.drop_last());
        if let Some(ht) = helper_get(h1, called.last()) {
            let cur = match helper_get(h1, n) {
                Some(e) => e,
                None => Seq::<Seq<char>>::empty(),
            };
            let merged = add_new(cur, ht);
            lemma_add_new_len(cur, ht);
            assert forall|x: Seq<char>| resolved(h1, x) implies #[trigger] resolved(helper_put(h1, n, merged), x) by {
                lemma_helper_put_get(h1, n, merged, x);
            }
            lemma_helper_put_get(h1, n, merged, n);
        }
    }
}

proof fn lemma_pass_step(s: Seq<char>, ns: Seq<SyntaxNodeView>, f: int, var: Seq<char>, hs: Helpers)
    ensures
        forall|x: Seq<char>| resolved(hs, x) ==> #[trigger] resolved(pass_step(s, ns, f, var, hs).0, x),
        pass_step(s, ns, f, var, hs).1 ==> fn_name(s, ns, f) is Some && !resolved(hs, fn_name(s, ns, f)->0)
            && resolved(pass_step(s, ns, f, var, hs).0, fn_name(s, ns, f)->0),
{
    if helper_candidate(s, ns, f, var) && !resolved(hs, fn_name(s, ns, f)->0) {
        lemma_absorb(hs, fn_name(s, ns, f)->0, called_helpers(s, ns, f, hs));
    }
}

/// A round keeps what is resolved; when it reports a change, some function
/// of `fns` that was not resolved is resolved afterwards.
pub proof fn lemma_pass(s: Seq<char>, ns: Seq<SyntaxNodeView>, fns: Seq<usize>, var: Seq<char>, hs: Helpers)
    ensures
        forall|x: Seq<char>| resolved(hs, x) ==> #[trigger] resolved(pass(s, ns, fns, var, hs).0, x),
        pass(s, ns, fns, var, hs).1 ==> exists|k: int|
            0 <= k < fns.len() && #[trigger] fn_name(s, ns, fns[k] as int) is Some && !resolved(
                hs,
                fn_name(s, ns, fns[k] as int)->0,
            ) && resolved(pass(s, ns, fns, var, hs).0, fn_name(s, ns, fns[k] as int)->0),
    decreases fns.len(),
{
    if fns.len() > 0 {
        let pre = fns.drop_last();
        lemma_pass(s, ns, pre, var, hs);
        let (h1, c1) = pass(s, ns, pre, var, hs);
        lemma_pass_step(s, ns, fns.last() as int, var, h1);
        let (h2, c2) = pass_step(s, ns, fns.last() as int, var, h1);
        if c1 {
            let k = choose|k: int|
                0 <= k < pre.len() && #[trigger] fn_name(s, ns, pre[k] as int) is Some && !resolved(
                    hs,
                    fn_name(s, ns, pre[k] as int)->0,
                ) && resolved(h1, fn_name(s, ns, pre[k] as int)->0);
            assert(fns[k] == pre[k]);
            assert(resolved(h2, fn_name(s, ns, fns[k] as int)->0));
        } else if c2 {
            let k = fns.len() - 1;
            assert(fns[k] == fns.last());
            assert(fn_name(s, ns, fns[k] as int) is Some);
        }
    }
}

pub proof fn lemma_count_le(s: Seq<char>, ns: Seq<SyntaxNodeView>, fns: Seq<usize>, hs: Helpers)
    ensures
        resolved_count(s, ns, fns, hs) <= fns.len(),
    decreases fns.len(),
{
    if fns.len() > 0 {
        lemma_count_le(s, ns, fns.drop_last(), hs);
    }
}

/// More resolved names give a larger count, strictly larger when one of
/// `fns` gained.
pub proof fn lemma_count_grows(s: Seq<char>, ns: Seq<SyntaxNodeView>, fns: Seq<usize>, h1: Helpers, h2: Helpers, k: int)
    requires
        forall|x: Seq<char>| resolved(h1, x) ==> #[trigger] resolved(h2, x),
    ensures
        resolved_count(s, ns, fns, h1) <= resolved_count(s, ns, fns, h2),
        (0 <= k < fns.len() && fn_name(s, ns, fns[k] as int) is Some && !resolved(h1, fn_name(s, ns, fns[k] as int)->0)
            && resolved(h2, fn_name(s, ns, fns[k] as int)->0)) ==> resolved_count(s, ns, fns, h1) < resolved_count(
            s,
            ns,
            fns,
            h2,
        ),
    decreases fns.len(),
{
    if fns.len() > 0 {
        let pre = fns.drop_last();
        lemma_count_grows(s, ns, pre, h1, h2, k);
        if 0 <= k < pre.len() {
            assert(fns[k] == pre[k]);
        }
    }
}

#[via_fn]
proof fn helpers_fix_decreases(s: Seq<char>, ns: Seq<SyntaxNodeView>, fns: Seq<usize>, var: Seq<char>, hs: Helpers) {
    let (h2, ch) = pass(s, ns, fns, var, hs);
    if ch {
        lemma_pass(s, ns, fns, var, hs);
        let k = choose|k: int|
            0 <= k < fns.len() && #[trigger] fn_name(s, ns, fns[k] as int) is Some && !resolved(
                hs,
                fn_name(s, ns, fns[k] as int)->0,
            ) && resolved(h2, fn_name(s, ns, fns[k] as int)->0);
        lemma_count_grows(s, ns, fns, hs, h2, k);
        lemma_count_le(s, ns, fns, h2);
    }
}

// ---------------------------------------------------------------------
// Enums and the variables declared with them.
// ---------------------------------------------------------------------

/// The one-based line where node `j` starts.
pub open spec fn line_of(s: Seq<char>, ns: Seq<SyntaxNodeView>, j: int) -> int {
    row_of(s, ns[j].start_byte as int) + 1int
}

/// The name of an `enumerator` child.
pub open spec fn variant_pick(s: Seq<char>, ns: Seq<SyntaxNodeView>) -> spec_fn(int) -> Seq<Seq<char>> {
    |c: int|
        if ns[c].kind == "enumerator"@ {
            match field_child(ns, c, "name"@) {
                Some(nm) => seq![txt(s, ns, nm as int)],
                None => Seq::<Seq<char>>::empty(),
            }
        } else {
            Seq::<Seq<char>>::empty()
        }
}

/// The variants of the enum specifier at node `e`, in order.
pub open spec fn enum_variants(s: Seq<char>, ns: Seq<SyntaxNodeView>, e: int) -> Seq<Seq<char>> {
    match field_child(ns, e, "body"@) {
        Some(b) => kids_concat(ns, b as int, 0, variant_pick(s, ns)),
        None => Seq::<Seq<char>>::empty(),
    }
}

/// The text of a `type_identifier` child.
pub open spec fn type_ident_pick(s: Seq<char>, ns: Seq<SyntaxNodeView>) -> spec_fn(int) -> Seq<Seq<char>> {
    |c: int|
        if ns[c].kind == "type_identifier"@ {
            seq![txt(s, ns, c)]
        } else {
            Seq::<Seq<char>>::empty()
        }
}

/// The names that the `typedef` at node `j` declares.
pub open spec fn type_declarators(s: Seq<char>, ns: Seq<SyntaxNodeView>, j: int) -> Seq<Seq<char>> {
    kids_concat(ns, j, 0, type_ident_pick(s, ns))
}

/// Node `j` lies directly in a `typedef`.
pub open spec fn under_typedef(ns: Seq<SyntaxNodeView>, j: int) -> bool {
    match ns[j].parent {
        Some(p) => 0 <= p < ns.len() && ns[p as int].kind == "type_definition"@,
        None => false,
    }
}

/// The enums that node `j` defines: each name of a `typedef enum { .. }`,
/// or a named `enum N { .. }` with variants outside a `typedef`.
pub open spec fn enum_here(s: Seq<char>, ns: Seq<SyntaxNodeView>, j: int, path: Seq<char>) -> Seq<EnumSpec> {
    if ns[j].kind == "type_definition"@ {
        match kid_of_kind(ns, j, 0, "enum_specifier"@) {
            Some(e) => {
                let vars = enum_variants(s, ns, e as int);
                type_declarators(s, ns, j).map_values(
                    |name: Seq<char>| EnumSpec { name, variants: vars, file_path: path, line: line_of(s, ns, j) },
                )
            },
            None => Seq::<EnumSpec>::empty(),
        }
    } else if ns[j].kind == "enum_specifier"@ && !under_typedef(ns, j) {
        match field_child(ns, j, "name"@) {
            Some(nm) => if enum_variants(s, ns, j).len() > 0 {
                seq![
                    EnumSpec {
                        name: txt(s, ns, nm as int),
                        variants: enum_variants(s, ns, j),
                        file_path: path,
                        line: line_of(s, ns, j),
                    },
                ]
            } else {
                Seq::<EnumSpec>::empty()
            },
            None => Seq::<EnumSpec>::empty(),
        }
    } else {
        Seq::<EnumSpec>::empty()
    }
}

/// `enum_here` as a function of nodes.
pub open spec fn enum_pick(s: Seq<char>, ns: Seq<SyntaxNodeView>, path: Seq<char>) -> spec_fn(int) -> Seq<EnumSpec> {
    |j: int| enum_here(s, ns, j, path)
}

/// The walk does not go into a `typedef enum`.
pub open spec fn enum_stop(ns: Seq<SyntaxNodeView>) -> spec_fn(int) -> bool {
    |j: int| ns[j].kind == "type_definition"@ && kid_of_kind(ns, j, 0, "enum_specifier"@) is Some
}

/// The enums that the file at `path` defines, in tree order.
pub open spec fn enums_in(s: Seq<char>, ns: Seq<SyntaxNodeView>, path: Seq<char>) -> Seq<EnumSpec> {
    if ns.len() > 0 {
        subtree_collect(ns, 0, enum_pick(s, ns, path), enum_stop(ns))
    } else {
        Seq::<EnumSpec>::empty()
    }
}

/// The type that the declaration at node `d` names: its `type` field when
/// that is a type name or a named enum, else its first type name.
pub open spec fn declared_type(s: Seq<char>, ns: Seq<SyntaxNodeView>, d: int) -> Option<Seq<char>> {
    let fallback = match kid_of_kind(ns, d, 0, "type_identifier"@) {
        Some(c) => Some(txt(s, ns, c as int)),
        None => None,
    };
    match field_child(ns, d, "type"@) {
        Some(ty) => if ns[ty as int].kind == "type_identifier"@ {
            Some(txt(s, ns, ty as int))
        } else if ns[ty as int].kind == "enum_specifier"@ {
            match field_child(ns, ty as int, "name"@) {
                Some(nm) => Some(txt(s, ns, nm as int)),
                None => fallback,
            }
        } else {
            fallback
        },
        None => fallback,
    }
}

/// The scope of a variable declared in the function `cur`, if any.
pub open spec fn scope_of(cur: Option<Seq<char>>) -> ScopeSpec {
    match cur {
        Some(f) => ScopeSpec::Function(f),
        None => ScopeSpec::Global,
    }
}

/// The variable that the child `c` of the declaration `d` declares.
pub open spec fn declvar_here(
    s: Seq<char>,
    ns: Seq<SyntaxNodeView>,
    d: int,
    c: int,
    path: Seq<char>,
    cur: Option<Seq<char>>,
    tn: Seq<char>,
) -> Seq<VarSpec> {
    if ns[c].kind == "init_declarator"@ {
        match field_child(ns, c, "declarator"@) {
            Some(dc) => match ident_name(s, ns, dc as int) {
                Some(nm) => seq![
                    VarSpec {
                        name: nm,
                        enum_type: tn,
                        scope: scope_of(cur),
                        initial_value: match field_child(ns, c, "value"@) {
                            Some(v) => Some(txt(s, ns, v as int)),
                            None => None,
                        },
                        file_path: path,
                        line: line_of(s, ns, d),
                    },
                ],
                None => Seq::<VarSpec>::empty(),
            },
            None => Seq::<VarSpec>::empty(),
        }
    } else if ns[c].kind == "identifier"@ {
        seq![
            VarSpec {
                name: txt(s, ns, c),
                enum_type: tn,
                scope: scope_of(cur),
                initial_value: None,
                file_path: path,
                line: line_of(s, ns, d),
            },
        ]
    } else {
        Seq::<VarSpec>::empty()
    }
}

/// `declvar_here` as a function of the children of `d`.
pub open spec fn declvar_pick(
    s: Seq<char>,
    ns: Seq<SyntaxNodeView>,
    d: int,
    path: Seq<char>,
    cur: Option<Seq<char>>,
    tn: Seq<char>,
) -> spec_fn(int) -> Seq<VarSpec> {
    |c: int| declvar_here(s, ns, d, c, path, cur, tn)
}

/// The variables that the declaration at node `d` declares with one of the
/// enum types `enames`.
pub open spec fn decl_vars(
    s: Seq<char>,
    ns: Seq<SyntaxNodeView>,
    d: int,
    path: Seq<char>,
    cur: Option<Seq<char>>,
    enames: Seq<Seq<char>>,
) -> Seq<VarSpec> {
    match declared_type(s, ns, d) {
        Some(tn) => if enames.contains(tn) {
            kids_concat(ns, d, 0, declvar_pick(s, ns, d, path, cur, tn))
        } else {
            Seq::<VarSpec>::empty()
        },
        None => Seq::<VarSpec>::empty(),
    }
}

/// The variables of enum types `enames` declared in the subtree at node
/// `i`, in the function `cur`; a function definition's body has its own
/// function as scope.
pub open spec fn vars_in(
    s: Seq<char>,
    ns: Seq<SyntaxNodeView>,
    i: int,
    path: Seq<char>,
    cur: Option<Seq<char>>,
    enames: Seq<Seq<char>>,
) -> Seq<VarSpec>
    decreases ns.len() - i, 1int, 0int,
{
    if 0 <= i < ns.len() {
        if ns[i].kind == "function_definition"@ {
            let name = match fn_name(s, ns, i) {
                Some(n) => n,
                None => "anonymous"@,
            };
            match field_child(ns, i, "body"@) {
                Some(b) => if i < b < ns.len() {
                    vars_kids(s, ns, b as int, path, Some(name), enames, 0)
                } else {
                    Seq::<VarSpec>::empty()
                },
                None => Seq::<VarSpec>::empty(),
            }
        } else if ns[i].kind == "declaration"@ {
            decl_vars(s, ns, i, path, cur, enames)
        } else {
            vars_kids(s, ns, i, path, cur, enames, 0)
        }
    } else {
        Seq::<VarSpec>::empty()
    }
}

/// `vars_in` over the children of `i` from the `m`-th on.
pub open spec fn vars_kids(
    s: Seq<char>,
    ns: Seq<SyntaxNodeView>,
    i: int,
    path: Seq<char>,
    cur: Option<Seq<char>>,
    enames: Seq<Seq<char>>,
    m: int,
) -> Seq<VarSpec>
    decreases ns.len() - i, 0int, children(ns, i).len() - m,
{
    let kids = children(ns, i);
    if 0 <= m < kids.len() && i < kids[m] < ns.len() {
        vars_in(s, ns, kids[m] as int, path, cur, enames) + vars_kids(s, ns, i, path, cur, enames, m + 1)
    } else {
        Seq::<VarSpec>::empty()
    }
}

pub open spec fn enums_view(v: Seq<EnumDefinition>) -> Seq<EnumSpec> {
    v.map_values(|e: EnumDefinition| e@)
}

pub open spec fn vars_view(v: Seq<TrackedVariable>) -> Seq<VarSpec> {
    v.map_values(|x: TrackedVariable| x@)
}

// ---------------------------------------------------------------------
// Candidates across the files of a project.
// ---------------------------------------------------------------------

/// A file of a project: its path and its text.
pub type SourceFile = (Seq<char>, Seq<char>);

/// The nodes that the parser gives for `text`.
pub open spec fn tree_of(text: Seq<char>) -> Seq<SyntaxNodeView> {
    c_syntax(text)->0
}

/// The enums that a file defines; none when it does not parse.
pub open spec fn file_enums(f: SourceFile) -> Seq<EnumSpec> {
    if parses(f.1) {
        enums_in(f.1, tree_of(f.1), f.0)
    } else {
        Seq::<EnumSpec>::empty()
    }
}

/// The enums that the files define, file by file.
pub open spec fn files_enums(fs: Seq<SourceFile>) -> Seq<EnumSpec>
    decreases fs.len(),
{
    if fs.len() == 0 {
        Seq::<EnumSpec>::empty()
    } else {
        files_enums(fs.drop_last()) + file_enums(fs.last())
    }
}

/// The names of enums.
pub open spec fn enum_names(defs: Seq<EnumSpec>) -> Seq<Seq<char>> {
    defs.map_values(|e: EnumSpec| e.name)
}

/// The variables of the enum types `enames` that a file declares.
pub open spec fn file_vars(f: SourceFile, enames: Seq<Seq<char>>) -> Seq<VarSpec> {
    if parses(f.1) && tree_of(f.1).len() > 0 {
        vars_in(f.1, tree_of(f.1), 0, f.0, None, enames)
    } else {
        Seq::<VarSpec>::empty()
    }
}

/// The variables of the enum types `enames` that the files declare.
pub open spec fn files_vars(fs: Seq<SourceFile>, enames: Seq<Seq<char>>) -> Seq<VarSpec>
    decreases fs.len(),
{
    if fs.len() == 0 {
        Seq::<VarSpec>::empty()
    } else {
        files_vars(fs.drop_last(), enames) + file_vars(fs.last(), enames)
    }
}

/// The last enum of `defs` named `name`: a map from names that later
/// definitions overwrite.
pub open spec fn enum_lookup(defs: Seq<EnumSpec>, name: Seq<char>) -> Option<EnumSpec>
    decreases defs.len(),
{
    if defs.len() == 0 {
        None
    } else if defs.last().name == name {
        Some(defs.last())
    } else {
        enum_lookup(defs.drop_last(), name)
    }
}

/// Some file of `cs` dispatches on `var` and assigns it again.
pub open spec fn qualifies_any(cs: Seq<SourceFile>, var: Seq<char>, vs: Seq<Seq<char>>) -> bool {
    exists|k: int| 0 <= k < cs.len() && parses(#[trigger] cs[k].1) && qualifies_in(cs[k].1, tree_of(cs[k].1), var, vs)
}

/// The candidate made of the enum `d` and the variable `v`.
pub open spec fn candidate_of(d: EnumSpec, v: VarSpec) -> CandidateSpec {
    CandidateSpec {
        id: v.enum_type + "_"@ + v.name,
        display_name: v.enum_type + " ("@ + v.name + ")"@,
        enum_def: d,
        var: v,
    }
}

/// The variables `vars`, each with the enum of its type, once per enum,
/// variable name and file, kept when some file of `cs` dispatches on them;
/// with the keys seen.
pub open spec fn candidates_fold(vars: Seq<VarSpec>, defs: Seq<EnumSpec>, cs: Seq<SourceFile>) -> (
    Seq<CandidateSpec>,
    Seq<(Seq<char>, Seq<char>, Seq<char>)>,
)
    decreases vars.len(),
{
    if vars.len() == 0 {
        (Seq::empty(), Seq::empty())
    } else {
        let (out, seen) = candidates_fold(vars.drop_last(), defs, cs);
        let v = vars.last();
        match enum_lookup(defs, v.enum_type) {
            Some(d) => {
                let key = (d.name, v.name, v.file_path);
                if seen.contains(key) {
                    (out, seen)
                } else if qualifies_any(cs, v.name, d.variants) {
                    (out.push(candidate_of(d, v)), seen.push(key))
                } else {
                    (out, seen.push(key))
                }
            },
            None => (out, seen),
        }
    }
}

/// `sorted` with `x` put after every candidate whose display name does not
/// come after its own.
pub open spec fn insert_by_display(sorted: Seq<CandidateSpec>, x: CandidateSpec) -> Seq<CandidateSpec>
    decreases sorted.len(),
{
    if sorted.len() == 0 {
        seq![x]
    } else if seq_lt(x.display_name, sorted.last().display_name) {
        insert_by_display(sorted.drop_last(), x).push(sorted.last())
    } else {
        sorted.push(x)
    }
}

/// The candidates ordered by display name; those with the same name keep
/// their order.
pub open spec fn sort_by_display(cs: Seq<CandidateSpec>) -> Seq<CandidateSpec>
    decreases cs.len(),
{
    if cs.len() == 0 {
        cs
    } else {
        insert_by_display(sort_by_display(cs.drop_last()), cs.last())
    }
}

/// The state machines of a project with the header files `hs` and the C
/// files `cs`: the variables that the C files declare with an enum type
/// that some file defines, once per enum, name and file, where some C file
/// dispatches on the variable and assigns it again; ordered by display name.
pub open spec fn project_candidates(hs: Seq<SourceFile>, cs: Seq<SourceFile>) -> Seq<CandidateSpec> {
    let defs = files_enums(hs + cs);
    sort_by_display(candidates_fold(files_vars(cs, enum_names(defs)), defs, cs).0)
}

/// The state machines of the single file `f`: its variables of an enum type
/// that it defines, where it dispatches on the variable and assigns it
/// again, in the order declared.
pub open spec fn file_candidates(f: SourceFile) -> Seq<CandidateSpec> {
    let defs = file_enums(f);
    file_candidates_from(file_vars(f, enum_names(defs)), defs, f)
}

/// `file_candidates` over the variables `vars`.
pub open spec fn file_candidates_from(vars: Seq<VarSpec>, defs: Seq<EnumSpec>, f: SourceFile) -> Seq<CandidateSpec>
    decreases vars.len(),
{
    if vars.len() == 0 {
        Seq::empty()
    } else {
        let out = file_candidates_from(vars.drop_last(), defs, f);
        let v = vars.last();
        match enum_lookup(defs, v.enum_type) {
            Some(d) => if qualifies_in(f.1, tree_of(f.1), v.name, d.variants) {
                out.push(candidate_of(d, v))
            } else {
                out
            },
            None => out,
        }
    }
}

// ---------------------------------------------------------------------
// Executable counterparts.
// ---------------------------------------------------------------------

/// The identifier that the expression at node `i` names.
pub(crate) fn target_ident_of(t: &CTree, i: usize) -> (r: Option<String>)
    requires
        t.wf(),
        i < t.ns().len(),
    ensures
        r.deep_view() == target_ident(t.s(), t.ns(), i as int),
    decreases t.ns().len() - i,
{
    if t.kind_is(i, "identifier") {
        return Some(t.text(i));
    }
    if !t.kind_is(i, "parenthesized_expression") {
        return None;
    }
    let kids = t.kids_of(i);
    let mut m: usize = 0;
    while m < kids.len()
        invariant
            t.wf(),
            i < t.ns().len(),
            0 <= m <= kids@.len(),
            kids@ == children(t.ns(), i as int),
            forall|k: int| 0 <= k < kids@.len() ==> i < #[trigger] kids@[k] < t.ns().len(),
            target_ident(t.s(), t.ns(), i as int) == target_ident_kids(t.s(), t.ns(), i as int, m as int),
        decreases kids.len() - m,
    {
        match target_ident_of(t, kids[m]) {
            Some(x) => return Some(x),
            None => {},
        }
        m += 1;
    }
    None
}

/// The variant of `vs` that the expression at node `i` names.
pub(crate) fn variant_ident_of(t: &CTree, i: usize, vs: &Vec<String>) -> (r: Option<String>)
    requires
        t.wf(),
        i < t.ns().len(),
    ensures
        r.deep_view() == variant_ident(t.s(), t.ns(), i as int, vs.deep_view()),
    decreases t.ns().len() - i,
{
    let text = t.text(i);
    if contains_string(vs, &text) {
        return Some(text);
    }
    if !t.kind_is(i, "parenthesized_expression") && !t.kind_is(i, "cast_expression") {
        return None;
    }
    let kids = t.kids_of(i);
    let mut m: usize = 0;
    while m < kids.len()
        invariant
            t.wf(),
            i < t.ns().len(),
            0 <= m <= kids@.len(),
            kids@ == children(t.ns(), i as int),
            forall|k: int| 0 <= k < kids@.len() ==> i < #[trigger] kids@[k] < t.ns().len(),
            variant_ident(t.s(), t.ns(), i as int, vs.deep_view()) == variant_ident_kids(
                t.s(),
                t.ns(),
                i as int,
                vs.deep_view(),
                m as int,
            ),
        decreases kids.len() - m,
    {
        match variant_ident_of(t, kids[m], vs) {
            Some(x) => return Some(x),
            None => {},
        }
        m += 1;
    }
    None
}

/// The identifier that node `i` names, or the empty string.
pub(crate) fn ident_or_empty_of(t: &CTree, i: usize) -> (r: String)
    requires
        t.wf(),
        i < t.ns().len(),
    ensures
        r@ == ident_or_empty(t.s(), t.ns(), i as int),
{
    match target_ident_of(t, i) {
        Some(x) => x,
        None => String::new(),
    }
}

/// The condition at node `i` compares `var` with one of the variants `vs`.
fn compares_var_of(t: &CTree, i: usize, var: &str, vs: &Vec<String>) -> (b: bool)
    requires
        t.wf(),
        i < t.ns().len(),
    ensures
        b == compares_var(t.s(), t.ns(), i as int, var@, vs.deep_view()),
    decreases t.ns().len() - i,
{
    if t.kind_is(i, "parenthesized_expression") {
        let kids = t.kids_of(i);
        let mut m: usize = 0;
        while m < kids.len()
            invariant
                t.wf(),
                i < t.ns().len(),
                0 <= m <= kids@.len(),
                kids@ == children(t.ns(), i as int),
                forall|k: int| 0 <= k < kids@.len() ==> i < #[trigger] kids@[k] < t.ns().len(),
                compares_var(t.s(), t.ns(), i as int, var@, vs.deep_view()) == compares_var_kids(
                    t.s(),
                    t.ns(),
                    i as int,
                    var@,
                    vs.deep_view(),
                    m as int,
                ),
            decreases kids.len() - m,
        {
            let c = kids[m];
            if !t.kind_is(c, "(") && !t.kind_is(c, ")") && !t.kind_is(c, "comment") && compares_var_of(
                t,
                c,
                var,
                vs,
            ) {
                return true;
            }
            m += 1;
        }
        return false;
    }
    if !t.kind_is(i, "binary_expression") {
        return false;
    }
    let o = match t.field(i, "operator") {
        Some(o) => o,
        None => return false,
    };
    let l = match t.field(i, "left") {
        Some(l) => l,
        None => return false,
    };
    let r = match t.field(i, "right") {
        Some(r) => r,
        None => return false,
    };
    let op = t.text(o);
    if str_eq(op.as_str(), "==") || str_eq(op.as_str(), "!=") {
        let lt = ident_or_empty_of(t, l);
        if str_eq(lt.as_str(), var) && variant_ident_of(t, r, vs).is_some() {
            return true;
        }
        let rt = ident_or_empty_of(t, r);
        str_eq(rt.as_str(), var) && variant_ident_of(t, l, vs).is_some()
    } else if str_eq(op.as_str(), "&&") || str_eq(op.as_str(), "||") {
        compares_var_of(t, l, var, vs) || compares_var_of(t, r, var, vs)
    } else {
        false
    }
}


/// Node `j` assigns `var` or calls one of the helpers `hs`.
fn assign_here_of(t: &CTree, j: usize, var: &str, hs: &Vec<String>) -> (b: bool)
    requires
        t.wf(),
        j < t.ns().len(),
    ensures
        b == assign_here(t.s(), t.ns(), j as int, var@, hs.deep_view()),
{
    if t.kind_is(j, "assignment_expression") {
        match t.field(j, "left") {
            Some(l) => match target_ident_of(t, l) {
                Some(x) => str_eq(x.as_str(), var),
                None => false,
            },
            None => false,
        }
    } else if t.kind_is(j, "call_expression") {
        match t.field(j, "function") {
            Some(f) => {
                let name = t.text(f);
                contains_string(hs, &name)
            },
            None => false,
        }
    } else {
        false
    }
}

/// The subtree at node `i` assigns `var` or calls one of the helpers `hs`.
fn assigns_var_of(t: &CTree, i: usize, var: &str, hs: &Vec<String>) -> (b: bool)
    requires
        t.wf(),
        i < t.ns().len(),
    ensures
        b == assigns_var(t.s(), t.ns(), i as int, var@, hs.deep_view()),
    decreases t.ns().len() - i,
{
    let ghost p = assign_pred(t.s(), t.ns(), var@, hs.deep_view());
    if assign_here_of(t, i, var, hs) {
        return true;
    }
    let kids = t.kids_of(i);
    let mut m: usize = 0;
    while m < kids.len()
        invariant
            t.wf(),
            i < t.ns().len(),
            p == assign_pred(t.s(), t.ns(), var@, hs.deep_view()),
            0 <= m <= kids@.len(),
            kids@ == children(t.ns(), i as int),
            forall|k: int| 0 <= k < kids@.len() ==> i < #[trigger] kids@[k] < t.ns().len(),
            assigns_var(t.s(), t.ns(), i as int, var@, hs.deep_view()) == kids_any(t.ns(), i as int, m as int, p),
        decreases kids.len() - m,
    {
        if assigns_var_of(t, kids[m], var, hs) {
            return true;
        }
        m += 1;
    }
    false
}

/// Node `j` dispatches on `var` and assigns it again.
fn dispatch_here_of(t: &CTree, j: usize, var: &str, vs: &Vec<String>, hs: &Vec<String>) -> (b: bool)
    requires
        t.wf(),
        j < t.ns().len(),
    ensures
        b == dispatch_here(t.s(), t.ns(), j as int, var@, vs.deep_view(), hs.deep_view()),
{
    if t.kind_is(j, "switch_statement") {
        match (t.field(j, "condition"), t.field(j, "body")) {
            (Some(c), Some(b)) => {
                let cond = clean_guard_text(t.text(c).as_str());
                str_eq(cond.as_str(), var) && assigns_var_of(t, b, var, hs)
            },
            _ => false,
        }
    } else if t.kind_is(j, "if_statement") {
        match t.field(j, "condition") {
            Some(c) => compares_var_of(t, c, var, vs) && (match t.field(j, "consequence") {
                Some(q) => assigns_var_of(t, q, var, hs),
                None => false,
            } || match t.field(j, "alternative") {
                Some(a) => assigns_var_of(t, a, var, hs),
                None => false,
            }),
            None => false,
        }
    } else {
        false
    }
}

/// Somewhere in the subtree at node `i`, a branch that tests `var` assigns
/// it again.
fn guarded_dispatch_of(t: &CTree, i: usize, var: &str, vs: &Vec<String>, hs: &Vec<String>) -> (b: bool)
    requires
        t.wf(),
        i < t.ns().len(),
    ensures
        b == guarded_dispatch(t.s(), t.ns(), i as int, var@, vs.deep_view(), hs.deep_view()),
    decreases t.ns().len() - i,
{
    let ghost p = dispatch_pred(t.s(), t.ns(), var@, vs.deep_view(), hs.deep_view());
    if dispatch_here_of(t, i, var, vs, hs) {
        return true;
    }
    let kids = t.kids_of(i);
    let mut m: usize = 0;
    while m < kids.len()
        invariant
            t.wf(),
            i < t.ns().len(),
            p == dispatch_pred(t.s(), t.ns(), var@, vs.deep_view(), hs.deep_view()),
            0 <= m <= kids@.len(),
            kids@ == children(t.ns(), i as int),
            forall|k: int| 0 <= k < kids@.len() ==> i < #[trigger] kids@[k] < t.ns().len(),
            guarded_dispatch(t.s(), t.ns(), i as int, var@, vs.deep_view(), hs.deep_view()) == kids_any(
                t.ns(),
                i as int,
                m as int,
                p,
            ),
        decreases kids.len() - m,
    {
        if guarded_dispatch_of(t, kids[m], var, vs, hs) {
            return true;
        }
        m += 1;
    }
    false
}

/// The subtree at node `i` holds a `switch (var)`.
fn has_switch_on_of(t: &CTree, i: usize, var: &str) -> (b: bool)
    requires
        t.wf(),
        i < t.ns().len(),
    ensures
        b == has_switch_on(t.s(), t.ns(), i as int, var@),
    decreases t.ns().len() - i,
{
    let ghost p = switch_pred(t.s(), t.ns(), var@);
    if t.kind_is(i, "switch_statement") {
        match t.field(i, "condition") {
            Some(c) => {
                let cond = clean_guard_text(t.text(c).as_str());
                if str_eq(cond.as_str(), var) {
                    return true;
                }
            },
            None => {},
        }
    }
    let kids = t.kids_of(i);
    let mut m: usize = 0;
    while m < kids.len()
        invariant
            t.wf(),
            i < t.ns().len(),
            p == switch_pred(t.s(), t.ns(), var@),
            0 <= m <= kids@.len(),
            kids@ == children(t.ns(), i as int),
            forall|k: int| 0 <= k < kids@.len() ==> i < #[trigger] kids@[k] < t.ns().len(),
            has_switch_on(t.s(), t.ns(), i as int, var@) == kids_any(t.ns(), i as int, m as int, p),
        decreases kids.len() - m,
    {
        if has_switch_on_of(t, kids[m], var) {
            return true;
        }
        m += 1;
    }
    false
}

/// Appends the function definitions of the subtree at node `i`.
fn functions_into(t: &CTree, i: usize, out: &mut Vec<usize>)
    requires
        t.wf(),
        i < t.ns().len(),
    ensures
        final(out)@ == old(out)@ + functions_in(t.ns(), i as int),
    decreases t.ns().len() - i,
{
    let ghost start = out@;
    let ghost f = fn_pick(t.ns());
    let ghost st = fn_stop(t.ns());
    if t.kind_is(i, "function_definition") {
        out.push(i);
        assert(functions_in(t.ns(), i as int) =~= seq![i]);
        return;
    }
    assert(f(i as int) =~= Seq::<usize>::empty());
    let kids = t.kids_of(i);
    let mut m: usize = 0;
    while m < kids.len()
        invariant
            t.wf(),
            i < t.ns().len(),
            f == fn_pick(t.ns()),
            st == fn_stop(t.ns()),
            !st(i as int),
            f(i as int) == Seq::<usize>::empty(),
            0 <= m <= kids@.len(),
            kids@ == children(t.ns(), i as int),
            forall|k: int| 0 <= k < kids@.len() ==> i < #[trigger] kids@[k] < t.ns().len(),
            out@ + kids_collect(t.ns(), i as int, m as int, f, st) == start + functions_in(t.ns(), i as int),
        decreases kids.len() - m,
    {
        let ghost before = out@;
        functions_into(t, kids[m], out);
        assert(before + kids_collect(t.ns(), i as int, m as int, f, st) =~= out@ + kids_collect(
            t.ns(),
            i as int,
            m + 1,
            f,
            st,
        ));
        m += 1;
    }
    assert(out@ + kids_collect(t.ns(), i as int, m as int, f, st) =~= out@);
}

/// The function definitions of the tree, outermost only.
pub(crate) fn functions_of(t: &CTree) -> (r: Vec<usize>)
    requires
        t.wf(),
    ensures
        r@ == (if t.ns().len() > 0 {
            functions_in(t.ns(), 0)
        } else {
            Seq::<usize>::empty()
        }),
        forall|k: int| 0 <= k < r@.len() ==> #[trigger] r@[k] < t.ns().len(),
{
    let mut out: Vec<usize> = Vec::new();
    if t.len() > 0 {
        functions_into(t, 0, &mut out);
        assert(out@ =~= functions_in(t.ns(), 0));
        proof {
            lemma_collect_bounds(t.ns(), 0, fn_pick(t.ns()), fn_stop(t.ns()));
        }
    }
    out
}

/// The name that the declarator at node `i` declares.
fn ident_name_of(t: &CTree, i: usize) -> (r: Option<String>)
    requires
        t.wf(),
        i < t.ns().len(),
    ensures
        r.deep_view() == ident_name(t.s(), t.ns(), i as int),
    decreases t.ns().len() - i,
{
    if t.kind_is(i, "identifier") {
        return Some(t.text(i));
    }
    let k = t.kind_of(i);
    if !(str_eq(k, "function_declarator") || str_eq(k, "pointer_declarator") || str_eq(k, "parenthesized_declarator")
        || str_eq(k, "array_declarator")) {
        return None;
    }
    match t.field(i, "declarator") {
        Some(c) => ident_name_of(t, c),
        None => {
            let kids = t.kids_of(i);
            if kids.len() > 0 {
                ident_name_of(t, kids[0])
            } else {
                None
            }
        },
    }
}

/// The name of the function that the definition at node `i` defines.
pub(crate) fn fn_name_of(t: &CTree, i: usize) -> (r: Option<String>)
    requires
        t.wf(),
        i < t.ns().len(),
    ensures
        r.deep_view() == fn_name(t.s(), t.ns(), i as int),
{
    match t.field(i, "declarator") {
        Some(d) => ident_name_of(t, d),
        None => None,
    }
}

/// Appends the variants that the subtree at node `i` assigns to `var`.
fn assigned_into(t: &CTree, i: usize, var: &str, vs: &Vec<String>, out: &mut Vec<String>)
    requires
        t.wf(),
        i < t.ns().len(),
    ensures
        final(out).deep_view() == old(out).deep_view() + assigned_raw(t.s(), t.ns(), i as int, var@, vs.deep_view()),
    decreases t.ns().len() - i,
{
    let ghost start = out.deep_view();
    let ghost f = assigned_pick(t.s(), t.ns(), var@, vs.deep_view());
    let ghost st = no_stop();
    match (t.field(i, "left"), t.field(i, "right")) {
        (Some(l), Some(r)) => {
            if t.kind_is(i, "assignment_expression") {
                match target_ident_of(t, l) {
                    Some(x) => if str_eq(x.as_str(), var) {
                        match variant_ident_of(t, r, vs) {
                            Some(v) => {
                                out.push(v);
                            },
                            None => {},
                        }
                    },
                    None => {},
                }
            }
        },
        _ => {},
    }
    assert(out.deep_view() =~= start + f(i as int));
    let kids = t.kids_of(i);
    let mut m: usize = 0;
    while m < kids.len()
        invariant
            t.wf(),
            i < t.ns().len(),
            f == assigned_pick(t.s(), t.ns(), var@, vs.deep_view()),
            st == no_stop(),
            0 <= m <= kids@.len(),
            kids@ == children(t.ns(), i as int),
            forall|k: int| 0 <= k < kids@.len() ==> i < #[trigger] kids@[k] < t.ns().len(),
            out.deep_view() + kids_collect(t.ns(), i as int, m as int, f, st) == start + assigned_raw(
                t.s(),
                t.ns(),
                i as int,
                var@,
                vs.deep_view(),
            ),
        decreases kids.len() - m,
    {
        let ghost before = out.deep_view();
        assigned_into(t, kids[m], var, vs, out);
        assert(before + kids_collect(t.ns(), i as int, m as int, f, st) =~= out.deep_view() + kids_collect(
            t.ns(),
            i as int,
            m + 1,
            f,
            st,
        ));
        m += 1;
    }
    assert(out.deep_view() + kids_collect(t.ns(), i as int, m as int, f, st) =~= out.deep_view());
}

/// The strings of `v`, each kept at its first occurrence only.
pub(crate) fn first_occurrences_of(v: &Vec<String>) -> (r: Vec<String>)
    ensures
        r.deep_view() == first_occurrences(v.deep_view()),
{
    let mut out: Vec<String> = Vec::new();
    let mut j: usize = 0;
    assert(v.deep_view().take(0) =~= Seq::<Seq<char>>::empty());
    while j < v.len()
        invariant
            0 <= j <= v@.len(),
            out.deep_view() == first_occurrences(v.deep_view().take(j as int)),
        decreases v.len() - j,
    {
        assert(v.deep_view().take(j + 1).drop_last() =~= v.deep_view().take(j as int));
        assert(v.deep_view()[j as int] == v@[j as int]@);
        if !contains_string(&out, &v[j]) {
            out.push(v[j].clone());
        }
        j += 1;
    }
    assert(v.deep_view().take(v@.len() as int) =~= v.deep_view());
    out
}

/// The variants that the subtree at node `i` assigns to `var`, each once.
fn assigned_targets_of(t: &CTree, i: usize, var: &str, vs: &Vec<String>) -> (r: Vec<String>)
    requires
        t.wf(),
        i < t.ns().len(),
    ensures
        r.deep_view() == assigned_targets(t.s(), t.ns(), i as int, var@, vs.deep_view()),
{
    let mut raw: Vec<String> = Vec::new();
    assigned_into(t, i, var, vs, &mut raw);
    assert(raw.deep_view() =~= assigned_raw(t.s(), t.ns(), i as int, var@, vs.deep_view()));
    first_occurrences_of(&raw)
}


/// The index of the helper named `n`.
pub(crate) fn helper_find(hs: &Vec<(String, Vec<String>)>, n: &str) -> (r: Option<usize>)
    ensures
        match r {
            Some(k) => helper_index(hs.deep_view(), n@, 0) == Some(k as int) && k < hs@.len(),
            None => helper_index(hs.deep_view(), n@, 0) is None,
        },
{
    let ghost dv = hs.deep_view();
    let mut k: usize = 0;
    while k < hs.len()
        invariant
            0 <= k <= hs@.len(),
            dv == hs.deep_view(),
            helper_index(dv, n@, 0) == helper_index(dv, n@, k as int),
        decreases hs.len() - k,
    {
        assert(dv[k as int].0 == hs@[k as int].0@);
        if str_eq(hs[k].0.as_str(), n) {
            return Some(k);
        }
        k += 1;
    }
    None
}

/// Sets the variants of the helper `n` to `v`.
pub(crate) fn helper_set(hs: &mut Vec<(String, Vec<String>)>, n: String, v: Vec<String>)
    ensures
        final(hs).deep_view() == helper_put(old(hs).deep_view(), n@, v.deep_view()),
{
    let ghost start = hs.deep_view();
    let ghost nv = n@;
    let ghost vv = v.deep_view();
    match helper_find(hs, n.as_str()) {
        Some(k) => {
            hs[k] = (n, v);
            assert(hs.deep_view() =~= start.update(k as int, (nv, vv)));
        },
        None => {
            hs.push((n, v));
            assert(hs.deep_view() =~= start.push((nv, vv)));
        },
    }
}

/// The names of the helpers.
pub(crate) fn helper_names_of(hs: &Vec<(String, Vec<String>)>) -> (r: Vec<String>)
    ensures
        r.deep_view() == helper_names(hs.deep_view()),
{
    let mut out: Vec<String> = Vec::new();
    let mut j: usize = 0;
    while j < hs.len()
        invariant
            0 <= j <= hs@.len(),
            out.deep_view() == helper_names(hs.deep_view()).take(j as int),
        decreases hs.len() - j,
    {
        assert(hs.deep_view()[j as int].0 == hs@[j as int].0@);
        assert(helper_names(hs.deep_view())[j as int] == hs.deep_view()[j as int].0);
        let ghost before = out.deep_view();
        out.push(hs[j].0.clone());
        assert(out.deep_view() =~= before.push(helper_names(hs.deep_view())[j as int]));
        assert(helper_names(hs.deep_view()).take(j + 1) =~= helper_names(hs.deep_view()).take(j as int).push(
            helper_names(hs.deep_view())[j as int],
        ));
        j += 1;
    }
    assert(helper_names(hs.deep_view()).take(hs@.len() as int) =~= helper_names(hs.deep_view()));
    out
}

/// Appends the strings of `ts` that `cur` does not hold yet.
fn add_new_into(cur: &mut Vec<String>, ts: &Vec<String>)
    ensures
        final(cur).deep_view() == add_new(old(cur).deep_view(), ts.deep_view()),
{
    let ghost start = cur.deep_view();
    let mut j: usize = 0;
    assert(ts.deep_view().take(0) =~= Seq::<Seq<char>>::empty());
    while j < ts.len()
        invariant
            0 <= j <= ts@.len(),
            cur.deep_view() == add_new(start, ts.deep_view().take(j as int)),
        decreases ts.len() - j,
    {
        assert(ts.deep_view().take(j + 1).drop_last() =~= ts.deep_view().take(j as int));
        assert(ts.deep_view()[j as int] == ts@[j as int]@);
        if !contains_string(cur, &ts[j]) {
            cur.push(ts[j].clone());
        }
        j += 1;
    }
    assert(ts.deep_view().take(ts@.len() as int) =~= ts.deep_view());
}

/// Appends the helpers that the subtree at node `i` calls, by name.
fn called_into(t: &CTree, i: usize, hs: &Vec<(String, Vec<String>)>, out: &mut Vec<String>)
    requires
        t.wf(),
        i < t.ns().len(),
    ensures
        final(out).deep_view() == old(out).deep_view() + subtree_collect(
            t.ns(),
            i as int,
            called_pick(t.s(), t.ns(), hs.deep_view()),
            no_stop(),
        ),
    decreases t.ns().len() - i,
{
    let ghost start = out.deep_view();
    let ghost f = called_pick(t.s(), t.ns(), hs.deep_view());
    let ghost st = no_stop();
    if t.kind_is(i, "call_expression") {
        match t.field(i, "function") {
            Some(c) => {
                let name = t.text(c);
                if helper_find(hs, name.as_str()).is_some() {
                    out.push(name);
                }
            },
            None => {},
        }
    }
    assert(out.deep_view() =~= start + f(i as int));
    let kids = t.kids_of(i);
    let mut m: usize = 0;
    while m < kids.len()
        invariant
            t.wf(),
            i < t.ns().len(),
            f == called_pick(t.s(), t.ns(), hs.deep_view()),
            st == no_stop(),
            0 <= m <= kids@.len(),
            kids@ == children(t.ns(), i as int),
            forall|k: int| 0 <= k < kids@.len() ==> i < #[trigger] kids@[k] < t.ns().len(),
            out.deep_view() + kids_collect(t.ns(), i as int, m as int, f, st) == start + subtree_collect(
                t.ns(),
                i as int,
                f,
                st,
            ),
        decreases kids.len() - m,
    {
        let ghost before = out.deep_view();
        called_into(t, kids[m], hs, out);
        assert(before + kids_collect(t.ns(), i as int, m as int, f, st) =~= out.deep_view() + kids_collect(
            t.ns(),
            i as int,
            m + 1,
            f,
            st,
        ));
        m += 1;
    }
    assert(out.deep_view() + kids_collect(t.ns(), i as int, m as int, f, st) =~= out.deep_view());
}

/// The helpers that the function at node `f` calls, each once.
fn called_helpers_of(t: &CTree, f: usize, hs: &Vec<(String, Vec<String>)>) -> (r: Vec<String>)
    requires
        t.wf(),
        f < t.ns().len(),
    ensures
        r.deep_view() == called_helpers(t.s(), t.ns(), f as int, hs.deep_view()),
{
    let mut raw: Vec<String> = Vec::new();
    called_into(t, f, hs, &mut raw);
    assert(raw.deep_view() =~= subtree_collect(t.ns(), f as int, called_pick(t.s(), t.ns(), hs.deep_view()), no_stop()));
    first_occurrences_of(&raw)
}

/// The helper `n` takes on the variants of each helper of `called`.
fn absorb_into(hs: &mut Vec<(String, Vec<String>)>, n: &str, called: &Vec<String>) -> (ch: bool)
    ensures
        (final(hs).deep_view(), ch) == absorb(old(hs).deep_view(), n@, called.deep_view()),
{
    let ghost start = hs.deep_view();
    let mut ch = false;
    let mut j: usize = 0;
    assert(called.deep_view().take(0) =~= Seq::<Seq<char>>::empty());
    while j < called.len()
        invariant
            0 <= j <= called@.len(),
            (hs.deep_view(), ch) == absorb(start, n@, called.deep_view().take(j as int)),
        decreases called.len() - j,
    {
        assert(called.deep_view().take(j + 1).drop_last() =~= called.deep_view().take(j as int));
        assert(called.deep_view()[j as int] == called@[j as int]@);
        match helper_find(hs, called[j].as_str()) {
            Some(hi) => {
                let ht = copy_strings(&hs[hi].1);
                let mut cur = match helper_find(hs, n) {
                    Some(ci) => copy_strings(&hs[ci].1),
                    None => Vec::new(),
                };
                assert(cur.deep_view() == match helper_get(hs.deep_view(), n@) {
                    Some(e) => e,
                    None => Seq::<Seq<char>>::empty(),
                });
                let before = cur.len();
                add_new_into(&mut cur, &ht);
                let grew = cur.len() > before;
                helper_set(hs, crate::text::owned(n), cur);
                ch = ch || grew;
            },
            None => {},
        }
        j += 1;
    }
    assert(called.deep_view().take(called@.len() as int) =~= called.deep_view());
    ch
}

/// The function at node `f` may be a helper; its name when so.
fn helper_candidate_of(t: &CTree, f: usize, var: &str) -> (r: Option<String>)
    requires
        t.wf(),
        f < t.ns().len(),
    ensures
        r is Some == helper_candidate(t.s(), t.ns(), f as int, var@),
        r matches Some(n) ==> fn_name(t.s(), t.ns(), f as int) == Some(n@),
{
    match fn_name_of(t, f) {
        Some(n) => if !str_eq(n.as_str(), "main") && !has_switch_on_of(t, f, var) {
            Some(n)
        } else {
            None
        },
        None => None,
    }
}

/// The helper `n` assigns some variant.
fn resolved_in(hs: &Vec<(String, Vec<String>)>, n: &str) -> (b: bool)
    ensures
        b == resolved(hs.deep_view(), n@),
{
    match helper_find(hs, n) {
        Some(k) => hs[k].1.len() > 0,
        None => false,
    }
}

/// One round of propagation over the functions `fns`.
fn pass_into(t: &CTree, fns: &Vec<usize>, var: &str, hs: &mut Vec<(String, Vec<String>)>) -> (ch: bool)
    requires
        t.wf(),
        forall|k: int| 0 <= k < fns@.len() ==> #[trigger] fns@[k] < t.ns().len(),
    ensures
        (final(hs).deep_view(), ch) == pass(t.s(), t.ns(), fns@, var@, old(hs).deep_view()),
{
    let ghost start = hs.deep_view();
    let mut ch = false;
    let mut k: usize = 0;
    assert(fns@.take(0) =~= Seq::<usize>::empty());
    while k < fns.len()
        invariant
            t.wf(),
            0 <= k <= fns@.len(),
            forall|j: int| 0 <= j < fns@.len() ==> #[trigger] fns@[j] < t.ns().len(),
            (hs.deep_view(), ch) == pass(t.s(), t.ns(), fns@.take(k as int), var@, start),
        decreases fns.len() - k,
    {
        assert(fns@.take(k + 1).drop_last() =~= fns@.take(k as int));
        let f = fns[k];
        let step = match helper_candidate_of(t, f, var) {
            Some(n) => if !resolved_in(hs, n.as_str()) {
                let called = called_helpers_of(t, f, hs);
                absorb_into(hs, n.as_str(), &called)
            } else {
                false
            },
            None => false,
        };
        ch = ch || step;
        k += 1;
    }
    assert(fns@.take(fns@.len() as int) =~= fns@);
    ch
}

/// The helpers that assign `var` directly.
fn base_helpers_of(t: &CTree, fns: &Vec<usize>, var: &str, vs: &Vec<String>) -> (r: Vec<(String, Vec<String>)>)
    requires
        t.wf(),
        forall|k: int| 0 <= k < fns@.len() ==> #[trigger] fns@[k] < t.ns().len(),
    ensures
        r.deep_view() == base_helpers(t.s(), t.ns(), fns@, var@, vs.deep_view()),
{
    let mut hs: Vec<(String, Vec<String>)> = Vec::new();
    let mut k: usize = 0;
    assert(fns@.take(0) =~= Seq::<usize>::empty());
    assert(hs.deep_view() =~= Seq::<(Seq<char>, Seq<Seq<char>>)>::empty());
    while k < fns.len()
        invariant
            t.wf(),
            0 <= k <= fns@.len(),
            forall|j: int| 0 <= j < fns@.len() ==> #[trigger] fns@[j] < t.ns().len(),
            hs.deep_view() == base_helpers(t.s(), t.ns(), fns@.take(k as int), var@, vs.deep_view()),
        decreases fns.len() - k,
    {
        assert(fns@.take(k + 1).drop_last() =~= fns@.take(k as int));
        let f = fns[k];
        match helper_candidate_of(t, f, var) {
            Some(n) => {
                let ts = assigned_targets_of(t, f, var, vs);
                if ts.len() > 0 {
                    helper_set(&mut hs, n, ts);
                }
            },
            None => {},
        }
        k += 1;
    }
    assert(fns@.take(fns@.len() as int) =~= fns@);
    hs
}

/// The helper functions of the file for the variable `var` of an enum with
/// the variants `vs`.
pub(crate) fn helpers_of_tree(t: &CTree, var: &str, vs: &Vec<String>) -> (r: Vec<(String, Vec<String>)>)
    requires
        t.wf(),
    ensures
        r.deep_view() == helpers_of(t.s(), t.ns(), var@, vs.deep_view()),
{
    let fns = functions_of(t);
    let mut hs = base_helpers_of(t, &fns, var, vs);
    let ghost target = helpers_of(t.s(), t.ns(), var@, vs.deep_view());
    loop
        invariant
            t.wf(),
            fns@ == root_functions(t.ns()),
            forall|k: int| 0 <= k < fns@.len() ==> #[trigger] fns@[k] < t.ns().len(),
            target == helpers_fix(t.s(), t.ns(), fns@, var@, hs.deep_view()),
            target == helpers_of(t.s(), t.ns(), var@, vs.deep_view()),
        decreases fns@.len() - resolved_count(t.s(), t.ns(), fns@, hs.deep_view()),
    {
        let ghost prev = hs.deep_view();
        let ch = pass_into(t, &fns, var, &mut hs);
        if !ch {
            assert(helpers_fix(t.s(), t.ns(), fns@, var@, prev) == hs.deep_view());
            return hs;
        }
        proof {
            lemma_pass(t.s(), t.ns(), fns@, var@, prev);
            let k = choose|k: int|
                0 <= k < fns@.len() && #[trigger] fn_name(t.s(), t.ns(), fns@[k] as int) is Some && !resolved(
                    prev,
                    fn_name(t.s(), t.ns(), fns@[k] as int)->0,
                ) && resolved(hs.deep_view(), fn_name(t.s(), t.ns(), fns@[k] as int)->0);
            lemma_count_grows(t.s(), t.ns(), fns@, prev, hs.deep_view(), k);
            lemma_count_le(t.s(), t.ns(), fns@, hs.deep_view());
            lemma_count_le(t.s(), t.ns(), fns@, prev);
        }
    }
}

/// The file dispatches on `var`, an enum with the variants `vs`, and some
/// branch assigns it again.
pub open spec fn qualifies_in(s: Seq<char>, ns: Seq<SyntaxNodeView>, var: Seq<char>, vs: Seq<Seq<char>>) -> bool {
    ns.len() > 0 && guarded_dispatch(s, ns, 0, var, vs, helper_names(helpers_of(s, ns, var, vs)))
}

/// The file dispatches on `var` and some branch assigns it again.
fn qualifies_in_tree(t: &CTree, var: &str, vs: &Vec<String>) -> (b: bool)
    requires
        t.wf(),
    ensures
        b == qualifies_in(t.s(), t.ns(), var@, vs.deep_view()),
{
    if t.len() == 0 {
        return false;
    }
    let hs = helpers_of_tree(t, var, vs);
    let names = helper_names_of(&hs);
    guarded_dispatch_of(t, 0, var, vs, &names)
}


/// The variants of the enum specifier at node `e`.
fn enum_variants_of(t: &CTree, e: usize) -> (r: Vec<String>)
    requires
        t.wf(),
        e < t.ns().len(),
    ensures
        r.deep_view() == enum_variants(t.s(), t.ns(), e as int),
{
    let mut out: Vec<String> = Vec::new();
    let b = match t.field(e, "body") {
        Some(b) => b,
        None => return out,
    };
    let ghost f = variant_pick(t.s(), t.ns());
    let kids = t.kids_of(b);
    let mut m: usize = 0;
    while m < kids.len()
        invariant
            t.wf(),
            b < t.ns().len(),
            f == variant_pick(t.s(), t.ns()),
            0 <= m <= kids@.len(),
            kids@ == children(t.ns(), b as int),
            forall|k: int| 0 <= k < kids@.len() ==> b < #[trigger] kids@[k] < t.ns().len(),
            out.deep_view() + kids_concat(t.ns(), b as int, m as int, f) == kids_concat(t.ns(), b as int, 0, f),
        decreases kids.len() - m,
    {
        let c = kids[m];
        let ghost before = out.deep_view();
        if t.kind_is(c, "enumerator") {
            match t.field(c, "name") {
                Some(nm) => {
                    out.push(t.text(nm));
                },
                None => {},
            }
        }
        assert(out.deep_view() =~= before + f(c as int));
        assert(before + kids_concat(t.ns(), b as int, m as int, f) =~= out.deep_view() + kids_concat(
            t.ns(),
            b as int,
            m + 1,
            f,
        ));
        m += 1;
    }
    assert(out.deep_view() + kids_concat(t.ns(), b as int, m as int, f) =~= out.deep_view());
    out
}

/// The names that the `typedef` at node `j` declares.
fn type_declarators_of(t: &CTree, j: usize) -> (r: Vec<String>)
    requires
        t.wf(),
        j < t.ns().len(),
    ensures
        r.deep_view() == type_declarators(t.s(), t.ns(), j as int),
{
    let mut out: Vec<String> = Vec::new();
    let ghost f = type_ident_pick(t.s(), t.ns());
    let kids = t.kids_of(j);
    let mut m: usize = 0;
    while m < kids.len()
        invariant
            t.wf(),
            j < t.ns().len(),
            f == type_ident_pick(t.s(), t.ns()),
            0 <= m <= kids@.len(),
            kids@ == children(t.ns(), j as int),
            forall|k: int| 0 <= k < kids@.len() ==> j < #[trigger] kids@[k] < t.ns().len(),
            out.deep_view() + kids_concat(t.ns(), j as int, m as int, f) == kids_concat(t.ns(), j as int, 0, f),
        decreases kids.len() - m,
    {
        let c = kids[m];
        let ghost before = out.deep_view();
        if t.kind_is(c, "type_identifier") {
            out.push(t.text(c));
        }
        assert(out.deep_view() =~= before + f(c as int));
        assert(before + kids_concat(t.ns(), j as int, m as int, f) =~= out.deep_view() + kids_concat(
            t.ns(),
            j as int,
            m + 1,
            f,
        ));
        m += 1;
    }
    assert(out.deep_view() + kids_concat(t.ns(), j as int, m as int, f) =~= out.deep_view());
    out
}

/// Appends the enums that node `j` defines.
fn enum_here_into(t: &CTree, j: usize, path: &str, out: &mut Vec<EnumDefinition>)
    requires
        t.wf(),
        j < t.ns().len(),
    ensures
        enums_view(final(out)@) == enums_view(old(out)@) + enum_here(t.s(), t.ns(), j as int, path@),
{
    let ghost start = enums_view(out@);
    if t.kind_is(j, "type_definition") {
        match t.kid_of_kind(j, "enum_specifier") {
            Some(e) => {
                let vars = enum_variants_of(t, e);
                let decls = type_declarators_of(t, j);
                let line = t.line(j);
                let ghost want = enum_here(t.s(), t.ns(), j as int, path@);
                assert(want.len() == decls@.len());
                let mut k: usize = 0;
                while k < decls.len()
                    invariant
                        0 <= k <= decls@.len(),
                        want.len() == decls@.len(),
                        want == decls.deep_view().map_values(
                            |name: Seq<char>|
                                EnumSpec {
                                    name,
                                    variants: vars.deep_view(),
                                    file_path: path@,
                                    line: line as int,
                                },
                        ),
                        enums_view(out@) == start + want.take(k as int),
                    decreases decls.len() - k,
                {
                    assert(decls.deep_view()[k as int] == decls@[k as int]@);
                    let ghost before = enums_view(out@);
                    out.push(
                        EnumDefinition {
                            name: decls[k].clone(),
                            variants: copy_strings(&vars),
                            file_path: owned(path),
                            line,
                        },
                    );
                    assert(enums_view(out@) =~= before.push(want[k as int]));
                    assert(want.take(k + 1) =~= want.take(k as int).push(want[k as int]));
                    k += 1;
                }
                assert(want.take(decls@.len() as int) =~= want);
            },
            None => {
                assert(enums_view(out@) =~= start + enum_here(t.s(), t.ns(), j as int, path@));
            },
        }
    } else if t.kind_is(j, "enum_specifier") {
        let typedef_parent = match t.parent(j) {
            Some(p) => t.kind_is(p, "type_definition"),
            None => false,
        };
        if !typedef_parent {
            match t.field(j, "name") {
                Some(nm) => {
                    let vars = enum_variants_of(t, j);
                    if vars.len() > 0 {
                        let line = t.line(j);
                        out.push(EnumDefinition { name: t.text(nm), variants: vars, file_path: owned(path), line });
                    }
                },
                None => {},
            }
        }
        assert(enums_view(out@) =~= start + enum_here(t.s(), t.ns(), j as int, path@));
    } else {
        assert(enums_view(out@) =~= start + enum_here(t.s(), t.ns(), j as int, path@));
    }
}

/// Appends the enums of the subtree at node `i`.
fn enums_into(t: &CTree, i: usize, path: &str, out: &mut Vec<EnumDefinition>)
    requires
        t.wf(),
        i < t.ns().len(),
    ensures
        enums_view(final(out)@) == enums_view(old(out)@) + subtree_collect(
            t.ns(),
            i as int,
            enum_pick(t.s(), t.ns(), path@),
            enum_stop(t.ns()),
        ),
    decreases t.ns().len() - i,
{
    let ghost start = enums_view(out@);
    let ghost f = enum_pick(t.s(), t.ns(), path@);
    let ghost st = enum_stop(t.ns());
    enum_here_into(t, i, path, out);
    let stop = t.kind_is(i, "type_definition") && t.kid_of_kind(i, "enum_specifier").is_some();
    if stop {
        assert(enums_view(out@) =~= start + subtree_collect(t.ns(), i as int, f, st));
        return;
    }
    let kids = t.kids_of(i);
    let mut m: usize = 0;
    while m < kids.len()
        invariant
            t.wf(),
            i < t.ns().len(),
            f == enum_pick(t.s(), t.ns(), path@),
            st == enum_stop(t.ns()),
            !st(i as int),
            0 <= m <= kids@.len(),
            kids@ == children(t.ns(), i as int),
            forall|k: int| 0 <= k < kids@.len() ==> i < #[trigger] kids@[k] < t.ns().len(),
            enums_view(out@) + kids_collect(t.ns(), i as int, m as int, f, st) == start + subtree_collect(
                t.ns(),
                i as int,
                f,
                st,
            ),
        decreases kids.len() - m,
    {
        let ghost before = enums_view(out@);
        enums_into(t, kids[m], path, out);
        assert(before + kids_collect(t.ns(), i as int, m as int, f, st) =~= enums_view(out@) + kids_collect(
            t.ns(),
            i as int,
            m + 1,
            f,
            st,
        ));
        m += 1;
    }
    assert(enums_view(out@) + kids_collect(t.ns(), i as int, m as int, f, st) =~= enums_view(out@));
}

/// Appends the enums that the file at `path` defines.
fn enums_of(t: &CTree, path: &str, out: &mut Vec<EnumDefinition>)
    requires
        t.wf(),
    ensures
        enums_view(final(out)@) == enums_view(old(out)@) + enums_in(t.s(), t.ns(), path@),
{
    if t.len() > 0 {
        enums_into(t, 0, path, out);
    } else {
        assert(enums_view(out@) =~= enums_view(out@) + enums_in(t.s(), t.ns(), path@));
    }
}

/// The type that the declaration at node `d` names.
fn declared_type_of(t: &CTree, d: usize) -> (r: Option<String>)
    requires
        t.wf(),
        d < t.ns().len(),
    ensures
        r.deep_view() == declared_type(t.s(), t.ns(), d as int),
{
    match t.field(d, "type") {
        Some(ty) => {
            if t.kind_is(ty, "type_identifier") {
                return Some(t.text(ty));
            } else if t.kind_is(ty, "enum_specifier") {
                match t.field(ty, "name") {
                    Some(nm) => return Some(t.text(nm)),
                    None => {},
                }
            }
        },
        None => {},
    }
    match t.kid_of_kind(d, "type_identifier") {
        Some(c) => Some(t.text(c)),
        None => None,
    }
}

/// Appends the variables that the declaration at node `d` declares with one
/// of the enum types `enames`.
fn decl_vars_into(
    t: &CTree,
    d: usize,
    path: &str,
    cur: &Option<String>,
    enames: &Vec<String>,
    out: &mut Vec<TrackedVariable>,
)
    requires
        t.wf(),
        d < t.ns().len(),
    ensures
        vars_view(final(out)@) == vars_view(old(out)@) + decl_vars(
            t.s(),
            t.ns(),
            d as int,
            path@,
            cur.deep_view(),
            enames.deep_view(),
        ),
{
    let ghost start = vars_view(out@);
    let tn = match declared_type_of(t, d) {
        Some(tn) => tn,
        None => {
            assert(vars_view(out@) =~= start + Seq::<VarSpec>::empty());
            return;
        },
    };
    if !contains_string(enames, &tn) {
        assert(vars_view(out@) =~= start + Seq::<VarSpec>::empty());
        return;
    }
    let ghost f = declvar_pick(t.s(), t.ns(), d as int, path@, cur.deep_view(), tn@);
    let line = t.line(d);
    let kids = t.kids_of(d);
    let mut m: usize = 0;
    while m < kids.len()
        invariant
            t.wf(),
            d < t.ns().len(),
            line == line_of(t.s(), t.ns(), d as int),
            f == declvar_pick(t.s(), t.ns(), d as int, path@, cur.deep_view(), tn@),
            0 <= m <= kids@.len(),
            kids@ == children(t.ns(), d as int),
            forall|k: int| 0 <= k < kids@.len() ==> d < #[trigger] kids@[k] < t.ns().len(),
            vars_view(out@) + kids_concat(t.ns(), d as int, m as int, f) == start + kids_concat(
                t.ns(),
                d as int,
                0,
                f,
            ),
        decreases kids.len() - m,
    {
        let c = kids[m];
        let ghost before = vars_view(out@);
        let scope = match cur {
            Some(fname) => VariableScope::Function(fname.clone()),
            None => VariableScope::Global,
        };
        if t.kind_is(c, "init_declarator") {
            match t.field(c, "declarator") {
                Some(dc) => match ident_name_of(t, dc) {
                    Some(nm) => {
                        let init = match t.field(c, "value") {
                            Some(v) => Some(t.text(v)),
                            None => None,
                        };
                        out.push(
                            TrackedVariable {
                                name: nm,
                                enum_type: tn.clone(),
                                scope,
                                initial_value: init,
                                file_path: owned(path),
                                line,
                            },
                        );
                    },
                    None => {},
                },
                None => {},
            }
        } else if t.kind_is(c, "identifier") {
            out.push(
                TrackedVariable {
                    name: t.text(c),
                    enum_type: tn.clone(),
                    scope,
                    initial_value: None,
                    file_path: owned(path),
                    line,
                },
            );
        }
        assert(vars_view(out@) =~= before + f(c as int));
        assert(before + kids_concat(t.ns(), d as int, m as int, f) =~= vars_view(out@) + kids_concat(
            t.ns(),
            d as int,
            m + 1,
            f,
        ));
        m += 1;
    }
    assert(vars_view(out@) + kids_concat(t.ns(), d as int, m as int, f) =~= vars_view(out@));
}

/// Appends the variables declared in the subtree at node `i`.
fn vars_into(
    t: &CTree,
    i: usize,
    path: &str,
    cur: &Option<String>,
    enames: &Vec<String>,
    out: &mut Vec<TrackedVariable>,
)
    requires
        t.wf(),
        i < t.ns().len(),
    ensures
        vars_view(final(out)@) == vars_view(old(out)@) + vars_in(
            t.s(),
            t.ns(),
            i as int,
            path@,
            cur.deep_view(),
            enames.deep_view(),
        ),
    decreases t.ns().len() - i, 1int,
{
    if t.kind_is(i, "function_definition") {
        let name = match fn_name_of(t, i) {
            Some(n) => n,
            None => owned("anonymous"),
        };
        proof {
            reveal_strlit("anonymous");
        }
        match t.field(i, "body") {
            Some(b) => {
                let inner = Some(name);
                vars_kids_into(t, b, path, &inner, enames, out);
            },
            None => {
                assert(vars_view(out@) =~= vars_view(out@) + Seq::<VarSpec>::empty());
            },
        }
    } else if t.kind_is(i, "declaration") {
        decl_vars_into(t, i, path, cur, enames, out);
    } else {
        vars_kids_into(t, i, path, cur, enames, out);
    }
}

/// Appends the variables declared in the subtrees of the children of `i`.
fn vars_kids_into(
    t: &CTree,
    i: usize,
    path: &str,
    cur: &Option<String>,
    enames: &Vec<String>,
    out: &mut Vec<TrackedVariable>,
)
    requires
        t.wf(),
        i < t.ns().len(),
    ensures
        vars_view(final(out)@) == vars_view(old(out)@) + vars_kids(
            t.s(),
            t.ns(),
            i as int,
            path@,
            cur.deep_view(),
            enames.deep_view(),
            0,
        ),
    decreases t.ns().len() - i, 0int,
{
    let ghost start = vars_view(out@);
    let kids = t.kids_of(i);
    let mut m: usize = 0;
    while m < kids.len()
        invariant
            t.wf(),
            i < t.ns().len(),
            0 <= m <= kids@.len(),
            kids@ == children(t.ns(), i as int),
            forall|k: int| 0 <= k < kids@.len() ==> i < #[trigger] kids@[k] < t.ns().len(),
            vars_view(out@) + vars_kids(t.s(), t.ns(), i as int, path@, cur.deep_view(), enames.deep_view(), m as int)
                == start + vars_kids(t.s(), t.ns(), i as int, path@, cur.deep_view(), enames.deep_view(), 0),
        decreases kids.len() - m,
    {
        let ghost before = vars_view(out@);
        vars_into(t, kids[m], path, cur, enames, out);
        assert(before + vars_kids(t.s(), t.ns(), i as int, path@, cur.deep_view(), enames.deep_view(), m as int)
            =~= vars_view(out@) + vars_kids(
            t.s(),
            t.ns(),
            i as int,
            path@,
            cur.deep_view(),
            enames.deep_view(),
            m + 1,
        ));
        m += 1;
    }
    assert(vars_view(out@) + vars_kids(t.s(), t.ns(), i as int, path@, cur.deep_view(), enames.deep_view(), m as int)
        =~= vars_view(out@));
}


/// The trees of the files, `None` where a file does not parse.
pub open spec fn trees_match(trees: Seq<Option<CTree>>, fs: Seq<SourceFile>) -> bool {
    &&& trees.len() == fs.len()
    &&& forall|k: int|
        0 <= k < trees.len() ==> match #[trigger] trees[k] {
            Some(t) => t.wf() && t.s() == fs[k].1 && t.ns() == tree_of(fs[k].1) && parses(fs[k].1),
            None => !parses(fs[k].1),
        }
}

/// Parses each file.
pub(crate) fn parse_files(files: &[(String, String)]) -> (r: Vec<Option<CTree>>)
    requires
        forall|k: int| 0 <= k < files@.len() ==> byte_len((#[trigger] files@[k]).1@) < usize::MAX,
    ensures
        trees_match(r@, files.deep_view()),
{
    let mut out: Vec<Option<CTree>> = Vec::new();
    let mut k: usize = 0;
    while k < files.len()
        invariant
            0 <= k <= files@.len(),
            forall|j: int| 0 <= j < files@.len() ==> byte_len((#[trigger] files@[j]).1@) < usize::MAX,
            trees_match(out@, files.deep_view().take(k as int)),
        decreases files.len() - k,
    {
        assert(files.deep_view()[k as int] == (files@[k as int].0@, files@[k as int].1@));
        let t = parse_tree(files[k].1.as_str());
        let ghost before = out@;
        out.push(t);
        assert forall|j: int| 0 <= j < out@.len() implies match #[trigger] out@[j] {
            Some(t) => t.wf() && t.s() == files.deep_view().take(k + 1)[j].1 && t.ns() == tree_of(
                files.deep_view().take(k + 1)[j].1,
            ) && parses(files.deep_view().take(k + 1)[j].1),
            None => !parses(files.deep_view().take(k + 1)[j].1),
        } by {
            if j < k {
                assert(out@[j] == before[j]);
                assert(files.deep_view().take(k + 1)[j] == files.deep_view().take(k as int)[j]);
            }
        }
        k += 1;
    }
    assert(files.deep_view().take(files@.len() as int) =~= files.deep_view());
    out
}

/// The enums that the header files and then the C files define.
fn collect_enums(
    hf: &[(String, String)],
    ht: &Vec<Option<CTree>>,
    cf: &[(String, String)],
    ct: &Vec<Option<CTree>>,
) -> (r: Vec<EnumDefinition>)
    requires
        trees_match(ht@, hf.deep_view()),
        trees_match(ct@, cf.deep_view()),
    ensures
        enums_view(r@) == files_enums(hf.deep_view() + cf.deep_view()),
{
    let ghost hs = hf.deep_view();
    let ghost cs = cf.deep_view();
    let mut out: Vec<EnumDefinition> = Vec::new();
    let mut k: usize = 0;
    assert(enums_view(out@) =~= files_enums(hs.take(0)));
    while k < hf.len()
        invariant
            0 <= k <= hf@.len(),
            hs == hf.deep_view(),
            trees_match(ht@, hs),
            enums_view(out@) == files_enums(hs.take(k as int)),
        decreases hf.len() - k,
    {
        assert(hs.take(k + 1).drop_last() =~= hs.take(k as int));
        assert(hs[k as int] == (hf@[k as int].0@, hf@[k as int].1@));
        match &ht[k] {
            Some(t) => {
                enums_of(t, hf[k].0.as_str(), &mut out);
            },
            None => {
                assert(enums_view(out@) =~= enums_view(out@) + Seq::<EnumSpec>::empty());
            },
        }
        assert(ht@[k as int] == ht@[k as int]);
        k += 1;
    }
    assert(hs.take(hf@.len() as int) =~= hs);
    assert(hs + cs.take(0) =~= hs);
    let mut k: usize = 0;
    while k < cf.len()
        invariant
            0 <= k <= cf@.len(),
            hs == hf.deep_view(),
            cs == cf.deep_view(),
            trees_match(ct@, cs),
            enums_view(out@) == files_enums(hs + cs.take(k as int)),
        decreases cf.len() - k,
    {
        assert((hs + cs.take(k + 1)).drop_last() =~= hs + cs.take(k as int));
        assert((hs + cs.take(k + 1)).last() == cs[k as int]);
        assert(cs[k as int] == (cf@[k as int].0@, cf@[k as int].1@));
        match &ct[k] {
            Some(t) => {
                enums_of(t, cf[k].0.as_str(), &mut out);
            },
            None => {
                assert(enums_view(out@) =~= enums_view(out@) + Seq::<EnumSpec>::empty());
            },
        }
        k += 1;
    }
    assert(cs.take(cf@.len() as int) =~= cs);
    out
}

/// The names of the enums.
fn enum_names_of(defs: &Vec<EnumDefinition>) -> (r: Vec<String>)
    ensures
        r.deep_view() == enum_names(enums_view(defs@)),
{
    let mut out: Vec<String> = Vec::new();
    let mut j: usize = 0;
    while j < defs.len()
        invariant
            0 <= j <= defs@.len(),
            out.deep_view() == enum_names(enums_view(defs@)).take(j as int),
        decreases defs.len() - j,
    {
        let ghost before = out.deep_view();
        out.push(defs[j].name.clone());
        assert(out.deep_view() =~= before.push(enum_names(enums_view(defs@))[j as int]));
        assert(enum_names(enums_view(defs@)).take(j + 1) =~= enum_names(enums_view(defs@)).take(j as int).push(
            enum_names(enums_view(defs@))[j as int],
        ));
        j += 1;
    }
    assert(enum_names(enums_view(defs@)).take(defs@.len() as int) =~= enum_names(enums_view(defs@)));
    out
}

/// The variables of the enum types `enames` that the C files declare.
fn collect_vars(cf: &[(String, String)], ct: &Vec<Option<CTree>>, enames: &Vec<String>) -> (r: Vec<TrackedVariable>)
    requires
        trees_match(ct@, cf.deep_view()),
    ensures
        vars_view(r@) == files_vars(cf.deep_view(), enames.deep_view()),
{
    let ghost cs = cf.deep_view();
    let mut out: Vec<TrackedVariable> = Vec::new();
    let mut k: usize = 0;
    let none: Option<String> = None;
    assert(vars_view(out@) =~= files_vars(cs.take(0), enames.deep_view()));
    while k < cf.len()
        invariant
            0 <= k <= cf@.len(),
            cs == cf.deep_view(),
            none is None,
            trees_match(ct@, cs),
            vars_view(out@) == files_vars(cs.take(k as int), enames.deep_view()),
        decreases cf.len() - k,
    {
        assert(cs.take(k + 1).drop_last() =~= cs.take(k as int));
        assert(cs[k as int] == (cf@[k as int].0@, cf@[k as int].1@));
        match &ct[k] {
            Some(t) => {
                if t.len() > 0 {
                    vars_into(t, 0, cf[k].0.as_str(), &none, enames, &mut out);
                } else {
                    assert(vars_view(out@) =~= vars_view(out@) + Seq::<VarSpec>::empty());
                }
            },
            None => {
                assert(vars_view(out@) =~= vars_view(out@) + Seq::<VarSpec>::empty());
            },
        }
        k += 1;
    }
    assert(cs.take(cf@.len() as int) =~= cs);
    out
}

/// The index of the last enum named `name`.
fn enum_lookup_in(defs: &Vec<EnumDefinition>, name: &str) -> (r: Option<usize>)
    ensures
        match r {
            Some(k) => k < defs@.len() && enum_lookup(enums_view(defs@), name@) == Some(enums_view(defs@)[k as int]),
            None => enum_lookup(enums_view(defs@), name@) is None,
        },
{
    let ghost ev = enums_view(defs@);
    let mut p = defs.len();
    assert(ev.take(p as int) =~= ev);
    while p > 0
        invariant
            0 <= p <= defs@.len(),
            ev == enums_view(defs@),
            enum_lookup(ev, name@) == enum_lookup(ev.take(p as int), name@),
        decreases p,
    {
        assert(ev.take(p as int).drop_last() =~= ev.take(p - 1));
        assert(ev.take(p as int).last() == ev[p - 1]);
        if str_eq(defs[p - 1].name.as_str(), name) {
            return Some(p - 1);
        }
        p -= 1;
    }
    None
}

/// Some C file dispatches on `var` and assigns it again.
fn qualifies_any_in(cf: &[(String, String)], ct: &Vec<Option<CTree>>, var: &str, vs: &Vec<String>) -> (b: bool)
    requires
        trees_match(ct@, cf.deep_view()),
    ensures
        b == qualifies_any(cf.deep_view(), var@, vs.deep_view()),
{
    let ghost cs = cf.deep_view();
    let mut k: usize = 0;
    while k < ct.len()
        invariant
            0 <= k <= ct@.len(),
            cs == cf.deep_view(),
            trees_match(ct@, cs),
            forall|j: int| 0 <= j < k ==> !(parses(#[trigger] cs[j].1) && qualifies_in(cs[j].1, tree_of(cs[j].1), var@, vs.deep_view())),
        decreases ct.len() - k,
    {
        match &ct[k] {
            Some(t) => {
                if qualifies_in_tree(t, var, vs) {
                    assert(parses(cs[k as int].1));
                    return true;
                }
            },
            None => {},
        }
        k += 1;
    }
    false
}

/// The key `(a, b, c)` is one of `seen`.
fn seen_key(seen: &Vec<(String, String, String)>, a: &str, b: &str, c: &str) -> (r: bool)
    ensures
        r == seen.deep_view().contains((a@, b@, c@)),
{
    let mut k: usize = 0;
    while k < seen.len()
        invariant
            0 <= k <= seen@.len(),
            forall|j: int| 0 <= j < k ==> seen.deep_view()[j] != (a@, b@, c@),
        decreases seen.len() - k,
    {
        assert(seen.deep_view()[k as int] == (seen@[k as int].0@, seen@[k as int].1@, seen@[k as int].2@));
        if str_eq(seen[k].0.as_str(), a) && str_eq(seen[k].1.as_str(), b) && str_eq(seen[k].2.as_str(), c) {
            return true;
        }
        k += 1;
    }
    false
}

/// The candidate made of the enum `d` and the variable `v`.
fn make_candidate(d: &EnumDefinition, v: &TrackedVariable) -> (r: StateMachineCandidate)
    ensures
        r@ == candidate_of(d@, v@),
{
    let id = concat3(v.enum_type.as_str(), "_", v.name.as_str());
    let open = concat3(v.enum_type.as_str(), " (", v.name.as_str());
    let display_name = concat_str(open.as_str(), ")");
    StateMachineCandidate { id, display_name, enum_def: d.clone(), var: v.clone() }
}

/// Puts `x` into `v` after every candidate whose display name does not
/// come after its own.
fn insert_candidate(v: &mut Vec<StateMachineCandidate>, x: StateMachineCandidate)
    ensures
        candidates_view(final(v)@) == insert_by_display(candidates_view(old(v)@), x@),
{
    let ghost cv = candidates_view(v@);
    let ghost xv = x@;
    let mut p = v.len();
    assert(cv.take(p as int) =~= cv);
    assert(cv.skip(p as int) =~= Seq::<CandidateSpec>::empty());
    while p > 0 && str_lt(x.display_name.as_str(), v[p - 1].display_name.as_str())
        invariant
            0 <= p <= v@.len(),
            cv == candidates_view(v@),
            xv == x@,
            insert_by_display(cv, xv) == insert_by_display(cv.take(p as int), xv) + cv.skip(p as int),
        decreases p,
    {
        assert(cv.take(p as int).drop_last() =~= cv.take(p - 1));
        assert(cv.take(p as int).last() == cv[p - 1]);
        assert(cv.skip(p - 1) =~= seq![cv[p - 1]] + cv.skip(p as int));
        assert(insert_by_display(cv.take(p - 1), xv).push(cv[p - 1]) + cv.skip(p as int) =~= insert_by_display(
            cv.take(p - 1),
            xv,
        ) + cv.skip(p - 1));
        p -= 1;
    }
    if p > 0 {
        assert(cv.take(p as int).last() == cv[p - 1]);
    }
    v.insert(p, x);
    assert(candidates_view(v@) =~= cv.take(p as int).push(xv) + cv.skip(p as int));
}

/// The state machines of a project whose header files are `h_files` and
/// whose C files are `c_files`, each a path and a text, in the order in
/// which the directories list them sorted.
pub fn discover_state_machines_in_project(
    h_files: &[(String, String)],
    c_files: &[(String, String)],
) -> (r: Vec<StateMachineCandidate>)
    requires
        forall|k: int| 0 <= k < h_files@.len() ==> byte_len((#[trigger] h_files@[k]).1@) < usize::MAX,
        forall|k: int| 0 <= k < c_files@.len() ==> byte_len((#[trigger] c_files@[k]).1@) < usize::MAX,
    ensures
        candidates_view(r@) == project_candidates(h_files.deep_view(), c_files.deep_view()),
{
    let ghost hs = h_files.deep_view();
    let ghost cs = c_files.deep_view();
    let ht = parse_files(h_files);
    let ct = parse_files(c_files);
    let defs = collect_enums(h_files, &ht, c_files, &ct);
    let enames = enum_names_of(&defs);
    let vars = collect_vars(c_files, &ct, &enames);
    let ghost dv = enums_view(defs@);
    let ghost vv = vars_view(vars@);
    let mut found: Vec<StateMachineCandidate> = Vec::new();
    let mut seen: Vec<(String, String, String)> = Vec::new();
    let mut k: usize = 0;
    assert(vv.take(0) =~= Seq::<VarSpec>::empty());
    while k < vars.len()
        invariant
            0 <= k <= vars@.len(),
            cs == c_files.deep_view(),
            trees_match(ct@, cs),
            dv == enums_view(defs@),
            vv == vars_view(vars@),
            (candidates_view(found@), seen.deep_view()) == candidates_fold(vv.take(k as int), dv, cs),
        decreases vars.len() - k,
    {
        assert(vv.take(k + 1).drop_last() =~= vv.take(k as int));
        assert(vv.take(k + 1).last() == vars@[k as int]@);
        let v = &vars[k];
        match enum_lookup_in(&defs, v.enum_type.as_str()) {
            Some(di) => {
                let d = &defs[di];
                if !seen_key(&seen, d.name.as_str(), v.name.as_str(), v.file_path.as_str()) {
                    let ghost before_seen = seen.deep_view();
                    let ghost before_found = candidates_view(found@);
                    seen.push((d.name.clone(), v.name.clone(), v.file_path.clone()));
                    assert(seen.deep_view() =~= before_seen.push((d@.name, v@.name, v@.file_path)));
                    if qualifies_any_in(c_files, &ct, v.name.as_str(), &d.variants) {
                        found.push(make_candidate(d, v));
                        assert(candidates_view(found@) =~= before_found.push(candidate_of(d@, v@)));
                    }
                }
            },
            None => {},
        }
        k += 1;
    }
    assert(vv.take(vars@.len() as int) =~= vv);
    let mut sorted: Vec<StateMachineCandidate> = Vec::new();
    let ghost fv = candidates_view(found@);
    let mut j: usize = 0;
    assert(fv.take(0) =~= Seq::<CandidateSpec>::empty());
    while j < found.len()
        invariant
            0 <= j <= found@.len(),
            fv == candidates_view(found@),
            candidates_view(sorted@) == sort_by_display(fv.take(j as int)),
        decreases found.len() - j,
    {
        assert(fv.take(j + 1).drop_last() =~= fv.take(j as int));
        assert(fv.take(j + 1).last() == found@[j as int]@);
        insert_candidate(&mut sorted, found[j].clone());
        j += 1;
    }
    assert(fv.take(found@.len() as int) =~= fv);
    sorted
}

/// The candidates of one parsed file, over its enums and variables.
fn file_candidates_of(
    t: &CTree,
    path: &str,
    source: &str,
    defs: &Vec<EnumDefinition>,
    vars: &Vec<TrackedVariable>,
) -> (found: Vec<StateMachineCandidate>)
    requires
        t.wf(),
        t.s() == source@,
        t.ns() == tree_of(source@),
    ensures
        candidates_view(found@) == file_candidates_from(vars_view(vars@), enums_view(defs@), (path@, source@)),
{
    let ghost f = (path@, source@);
    let ghost dv = enums_view(defs@);
    let ghost vv = vars_view(vars@);
    let mut found: Vec<StateMachineCandidate> = Vec::new();
    let mut k: usize = 0;
    assert(vv.take(0) =~= Seq::<VarSpec>::empty());
    while k < vars.len()
        invariant
            0 <= k <= vars@.len(),
            t.wf(),
            t.s() == source@,
            t.ns() == tree_of(source@),
            f == (path@, source@),
            dv == enums_view(defs@),
            vv == vars_view(vars@),
            candidates_view(found@) == file_candidates_from(vv.take(k as int), dv, f),
        decreases vars.len() - k,
    {
        assert(vv.take(k + 1).drop_last() =~= vv.take(k as int));
        assert(vv.take(k + 1).last() == vars@[k as int]@);
        let v = &vars[k];
        match enum_lookup_in(defs, v.enum_type.as_str()) {
            Some(di) => {
                let d = &defs[di];
                if qualifies_in_tree(t, v.name.as_str(), &d.variants) {
                    let ghost before = candidates_view(found@);
                    found.push(make_candidate(d, v));
                    assert(candidates_view(found@) =~= before.push(candidate_of(d@, v@)));
                }
            },
            None => {},
        }
        k += 1;
    }
    assert(vv.take(vars@.len() as int) =~= vv);
    found
}

/// The state machines of the single C file `source` at `path`: its
/// variables of an enum type it defines, where it dispatches on the
/// variable and assigns it again; an error when the file does not parse.
pub fn discover_state_machines_in_file(path: &str, source: &str) -> (r: Result<Vec<StateMachineCandidate>, ScanError>)
    requires
        byte_len(source@) < usize::MAX,
    ensures
        match r {
            Ok(v) => parses(source@) && candidates_view(v@) == file_candidates((path@, source@)),
            Err(e) => !parses(source@) && e is ParseError,
        },
{
    let t = match parse_tree(source) {
        Some(t) => t,
        None => return Err(ScanError::ParseError(owned("Failed to parse C file"))),
    };
    let ghost f = (path@, source@);
    let mut defs: Vec<EnumDefinition> = Vec::new();
    enums_of(&t, path, &mut defs);
    assert(enums_view(defs@) =~= file_enums(f));
    let enames = enum_names_of(&defs);
    let none: Option<String> = None;
    let mut vars: Vec<TrackedVariable> = Vec::new();
    if t.len() > 0 {
        vars_into(&t, 0, path, &none, &enames, &mut vars);
    }
    assert(vars_view(vars@) =~= file_vars(f, enum_names(enums_view(defs@))));
    let found = file_candidates_of(&t, path, source, &defs, &vars);
    Ok(found)
}

} // verus!
