//! The transitions of a state machine, read from the C functions that
//! assign its variable: the state that each assignment happens in, the
//! guard around it, the label shown for it, and the helper functions and
//! fault handlers that assign it indirectly.
use vstd::prelude::*;
use crate::ctree::{kid_of_kind, CTree};
use crate::discovery::{
    fn_name, helper_get, helper_put, helpers_of, ident_or_empty, line_of, no_stop, root_functions, tree_of, txt, variant_ident,
    Helpers, SourceFile,
};
use crate::ctree::{kids_concat, parses, subtree_collect};
use crate::assoc::{assoc_insert, lookup, Entries};
use crate::pv_extract::last_of_kind;
use crate::labels::{trim_chars_end, trim_chars_start};
use crate::machine::{CandidateSpec, MachineSpec};
use crate::text::first_occurrences;
use crate::discovery::{first_occurrences_of, helper_set, trees_match};
use crate::ctree::kids_collect;
use crate::pv_extract::last_of_kind_in;
use crate::labels::trim_chars_range;
use crate::assoc::StringMap;
use crate::ctree::parse_tree;
use crate::discovery::{helpers_of_tree, parse_files};
use crate::machine::{AppStateMachine, StateMachineCandidate};
use crate::marker_scan::ScanError;
use crate::text::byte_len;
use crate::labels::{clean_guard, clean_printf, command_string, differs, fault_coordinator, initial_variant};
use crate::machine::{fault_name, AmbiguousSpec, TransitionSpec, TransitionTypeView};
use crate::pin_modules::field_child;
use crate::prettify::{guard_label, keep_nonempty, variant_suffix};
use crate::sorted::seq_lt;
use crate::syntax::{children, SyntaxNodeView};
use crate::text::{chars_of, contains, contains_string, ends_with, join, str_eq, string_of};
use crate::labels::{clean_guard_text, is_initial_variant};
use crate::machine::{is_fault_state, transitions_view, AppTransition, TransitionType};
use crate::prettify::strip_variant_prefix;
use crate::sorted::str_lt;
use crate::text::{concat3, concat_str, join_strings, owned};
use crate::machine::{ambiguous_view, copy_strings, AmbiguousTransition};
use crate::labels::{clean_printf_literal, differs_meaningfully, extract_command_string, is_fault_coordinator_name};
use crate::prettify::{contains_str, prettify_guard};
use crate::discovery::{fn_name_of, functions_of, helper_find, target_ident_of};
use crate::discovery::{ident_or_empty_of, variant_ident_of};

verus! {

/// What a condition says of the state: the states it restricts to, if any,
/// and the other conditions it holds.
pub struct CondSpec {
    pub restriction: Option<Seq<Seq<char>>>,
    pub guards: Seq<Seq<char>>,
}

/// A condition that says nothing.
pub open spec fn no_cond() -> CondSpec {
    CondSpec { restriction: None, guards: Seq::empty() }
}

/// The strings of `x` that `y` holds, in order.
pub open spec fn keep_in(x: Seq<Seq<char>>, y: Seq<Seq<char>>) -> Seq<Seq<char>>
    decreases x.len(),
{
    if x.len() == 0 {
        x
    } else {
        keep_in(x.drop_last(), y) + if y.contains(x.last()) {
            seq![x.last()]
        } else {
            Seq::<Seq<char>>::empty()
        }
    }
}

/// The restriction of `a && b`.
pub open spec fn and_restriction(a: Option<Seq<Seq<char>>>, b: Option<Seq<Seq<char>>>) -> Option<Seq<Seq<char>>> {
    match (a, b) {
        (Some(x), Some(y)) => Some(keep_in(x, y)),
        (Some(x), None) => Some(x),
        (None, Some(y)) => Some(y),
        (None, None) => None,
    }
}

/// The restriction, or none.
pub open spec fn or_empty(a: Option<Seq<Seq<char>>>) -> Seq<Seq<char>> {
    match a {
        Some(x) => x,
        None => Seq::empty(),
    }
}

/// An operator that the fallback search for a binary operator accepts.
pub open spec fn is_compare_op(t: Seq<char>) -> bool {
    t == "=="@ || t == "!="@ || t == "&&"@ || t == "||"@ || t == ">"@ || t == "<"@ || t == ">="@ || t == "<="@
}

/// The first child of `i`, from the `m`-th on, whose text is an operator.
pub open spec fn op_kid(s: Seq<char>, ns: Seq<SyntaxNodeView>, i: int, m: int) -> Option<Seq<char>>
    decreases children(ns, i).len() - m,
{
    let kids = children(ns, i);
    if 0 <= m < kids.len() {
        if is_compare_op(txt(s, ns, kids[m] as int)) {
            Some(txt(s, ns, kids[m] as int))
        } else {
            op_kid(s, ns, i, m + 1)
        }
    } else {
        None
    }
}

/// The operator of the binary expression at node `i`.
pub open spec fn binary_op(s: Seq<char>, ns: Seq<SyntaxNodeView>, i: int) -> Option<Seq<char>> {
    match field_child(ns, i, "operator"@) {
        Some(o) => Some(txt(s, ns, o as int)),
        None => op_kid(s, ns, i, 0),
    }
}

/// The variant that `l == r` compares the variable `var` with, either way
/// round.
pub open spec fn eq_variant(
    s: Seq<char>,
    ns: Seq<SyntaxNodeView>,
    l: int,
    r: int,
    var: Seq<char>,
    vs: Seq<Seq<char>>,
) -> Option<Seq<char>> {
    if ident_or_empty(s, ns, l) == var && variant_ident(s, ns, r, vs) is Some {
        variant_ident(s, ns, r, vs)
    } else if ident_or_empty(s, ns, r) == var && variant_ident(s, ns, l, vs) is Some {
        variant_ident(s, ns, l, vs)
    } else {
        None
    }
}

/// A child that is not a parenthesis or a comment.
pub open spec fn is_inner(k: Seq<char>) -> bool {
    k != "("@ && k != ")"@ && k != "comment"@
}

/// What the condition at node `i` says of the variable `var` of an enum with
/// the variants `vs`: `var == V` (either way round) restricts to `V`; `||`
/// joins restrictions, `&&` intersects them; anything else is a guard.
pub open spec fn analyze(s: Seq<char>, ns: Seq<SyntaxNodeView>, i: int, var: Seq<char>, vs: Seq<Seq<char>>) -> CondSpec
    decreases ns.len() - i, 1int, 0int,
{
    let fallback = CondSpec { restriction: None, guards: seq![clean_guard(txt(s, ns, i))] };
    if 0 <= i < ns.len() {
        if ns[i].kind == "parenthesized_expression"@ {
            analyze_kids(s, ns, i, var, vs, 0)
        } else if ns[i].kind == "binary_expression"@ {
            match (binary_op(s, ns, i), field_child(ns, i, "left"@), field_child(ns, i, "right"@)) {
                (Some(op), Some(l), Some(r)) => if !(i < l < ns.len() && i < r < ns.len()) {
                    fallback
                } else if op == "=="@ {
                    match eq_variant(s, ns, l as int, r as int, var, vs) {
                        Some(v) => CondSpec { restriction: Some(seq![v]), guards: Seq::empty() },
                        None => fallback,
                    }
                } else if op == "||"@ {
                    let a = analyze(s, ns, l as int, var, vs);
                    let b = analyze(s, ns, r as int, var, vs);
                    if a.restriction is Some || b.restriction is Some {
                        CondSpec {
                            restriction: Some(or_empty(a.restriction) + or_empty(b.restriction)),
                            guards: a.guards + b.guards,
                        }
                    } else {
                        fallback
                    }
                } else if op == "&&"@ {
                    let a = analyze(s, ns, l as int, var, vs);
                    let b = analyze(s, ns, r as int, var, vs);
                    CondSpec { restriction: and_restriction(a.restriction, b.restriction), guards: a.guards + b.guards }
                } else {
                    fallback
                },
                _ => fallback,
            }
        } else {
            fallback
        }
    } else {
        no_cond()
    }
}

/// What the first child of `i`, from the `m`-th on, that is not a
/// parenthesis or a comment says.
pub open spec fn analyze_kids(s: Seq<char>, ns: Seq<SyntaxNodeView>, i: int, var: Seq<char>, vs: Seq<Seq<char>>, m: int) -> CondSpec
    decreases ns.len() - i, 0int, children(ns, i).len() - m,
{
    let kids = children(ns, i);
    if 0 <= m < kids.len() && i < kids[m] < ns.len() {
        if is_inner(ns[kids[m] as int].kind) {
            analyze(s, ns, kids[m] as int, var, vs)
        } else {
            analyze_kids(s, ns, i, var, vs, m + 1)
        }
    } else {
        no_cond()
    }
}

/// `t` without the double quotes around it, when it is quoted.
pub open spec fn unquote(t: Seq<char>) -> Seq<char> {
    if t.len() >= 2 && t[0] == '"' && t.last() == '"' {
        t.subrange(1, t.len() - 1)
    } else {
        t
    }
}

/// The first argument among the children of the argument list `a`, from
/// the `m`-th on: its text, unquoted, and whether it is a string literal.
pub open spec fn first_arg_from(s: Seq<char>, ns: Seq<SyntaxNodeView>, a: int, m: int) -> Option<(Seq<char>, bool)>
    decreases children(ns, a).len() - m,
{
    let kids = children(ns, a);
    if 0 <= m < kids.len() {
        let k = ns[kids[m] as int].kind;
        if k != "("@ && k != ")"@ && k != ","@ && k != "comment"@ {
            Some((unquote(txt(s, ns, kids[m] as int)), k == "string_literal"@))
        } else {
            first_arg_from(s, ns, a, m + 1)
        }
    } else {
        None
    }
}

/// The first argument of the call at node `c`.
pub open spec fn first_arg(s: Seq<char>, ns: Seq<SyntaxNodeView>, c: int) -> Option<(Seq<char>, bool)> {
    match field_child(ns, c, "arguments"@) {
        Some(a) => first_arg_from(s, ns, a as int, 0),
        None => None,
    }
}

/// The nearest proper ancestor of node `i` whose kind ends in `_statement`.
pub open spec fn parent_statement(ns: Seq<SyntaxNodeView>, i: int) -> Option<int>
    decreases i,
{
    if 0 <= i < ns.len() {
        match ns[i].parent {
            Some(p) => if p < i {
                if ends_with(ns[p as int].kind, "_statement"@) {
                    Some(p as int)
                } else {
                    parent_statement(ns, p as int)
                }
            } else {
                None
            },
            None => None,
        }
    } else {
        None
    }
}

/// The call that the statement at node `st` makes: itself, or the first
/// call of an expression statement.
pub open spec fn call_in_statement(ns: Seq<SyntaxNodeView>, st: int) -> Option<int> {
    if ns[st].kind == "call_expression"@ {
        Some(st)
    } else if ns[st].kind == "expression_statement"@ {
        match kid_of_kind(ns, st, 0, "call_expression"@) {
            Some(c) => Some(c as int),
            None => None,
        }
    } else {
        None
    }
}

/// The position of `x` in `kids`, from `m` on.
pub open spec fn kid_pos(kids: Seq<usize>, x: int, m: int) -> Option<int>
    decreases kids.len() - m,
{
    if 0 <= m < kids.len() {
        if kids[m] == x {
            Some(m)
        } else {
            kid_pos(kids, x, m + 1)
        }
    } else {
        None
    }
}

/// The message of a `printf` with a string literal among the siblings
/// `kids` from position `m` on, looking at four siblings at most in all
/// (`count` looked at already) and passing over comments.
pub open spec fn printf_in_sibs(s: Seq<char>, ns: Seq<SyntaxNodeView>, kids: Seq<usize>, m: int, count: int) -> Option<Seq<char>>
    decreases kids.len() - m,
{
    if 0 <= m < kids.len() && 0 <= kids[m] < ns.len() {
        if count + 1 > 4 {
            None
        } else {
            let sib = kids[m] as int;
            let here = if ns[sib].kind == "comment"@ {
                None
            } else {
                match call_in_statement(ns, sib) {
                    Some(call) => match field_child(ns, call, "function"@) {
                        Some(f) => if txt(s, ns, f as int) == "printf"@ {
                            match first_arg(s, ns, call) {
                                Some((t, true)) => Some(t),
                                _ => None,
                            }
                        } else {
                            None
                        },
                        None => None,
                    },
                    None => None,
                }
            };
            if here is Some {
                here
            } else {
                printf_in_sibs(s, ns, kids, m + 1, count + 1)
            }
        }
    } else {
        None
    }
}

/// The message of a `printf` shortly after the statement that holds node
/// `i`.
pub open spec fn following_printf(s: Seq<char>, ns: Seq<SyntaxNodeView>, i: int) -> Option<Seq<char>> {
    match parent_statement(ns, i) {
        Some(st) => match ns[st].parent {
            Some(pp) => match kid_pos(children(ns, pp as int), st, 0) {
                Some(k) => printf_in_sibs(s, ns, children(ns, pp as int), k + 1, 0),
                None => None,
            },
            None => None,
        },
        None => None,
    }
}

/// The variant that the condition at node `i` tests the variable
/// `staging` against with `==`, looking through parentheses.
pub open spec fn tested_variant(s: Seq<char>, ns: Seq<SyntaxNodeView>, i: int, staging: Seq<char>, vs: Seq<Seq<char>>) -> Option<Seq<char>>
    decreases ns.len() - i, 1int, 0int,
{
    if 0 <= i < ns.len() {
        if ns[i].kind == "parenthesized_expression"@ {
            tested_kids(s, ns, i, staging, vs, 0)
        } else if ns[i].kind == "binary_expression"@ {
            match (field_child(ns, i, "operator"@), field_child(ns, i, "left"@), field_child(ns, i, "right"@)) {
                (Some(o), Some(l), Some(r)) => if txt(s, ns, o as int) == "=="@ {
                    if ident_or_empty(s, ns, l as int) == staging && variant_ident(s, ns, r as int, vs) is Some {
                        variant_ident(s, ns, r as int, vs)
                    } else if ident_or_empty(s, ns, r as int) == staging && variant_ident(s, ns, l as int, vs) is Some {
                        variant_ident(s, ns, l as int, vs)
                    } else {
                        None
                    }
                } else {
                    None
                },
                _ => None,
            }
        } else {
            None
        }
    } else {
        None
    }
}

/// The first child of `i`, from the `m`-th on, that is not a parenthesis
/// or a comment and tests `staging` against a variant.
pub open spec fn tested_kids(s: Seq<char>, ns: Seq<SyntaxNodeView>, i: int, staging: Seq<char>, vs: Seq<Seq<char>>, m: int) -> Option<Seq<char>>
    decreases ns.len() - i, 0int, children(ns, i).len() - m,
{
    let kids = children(ns, i);
    if 0 <= m < kids.len() && i < kids[m] < ns.len() {
        let here = if is_inner(ns[kids[m] as int].kind) {
            tested_variant(s, ns, kids[m] as int, staging, vs)
        } else {
            None
        };
        if here is Some {
            here
        } else {
            tested_kids(s, ns, i, staging, vs, m + 1)
        }
    } else {
        None
    }
}

/// A variant that the fallback branch of a staging test may stand for: not
/// the tested one, not a current state, not a starting or fault state.
pub open spec fn eligible_other(v: Seq<char>, tv: Seq<char>, active: Seq<Seq<char>>) -> bool {
    v != tv && !active.contains(v) && !initial_variant(v) && !fault_name(v)
}

/// The first, in string order, of the eligible variants.
pub open spec fn min_other(vs: Seq<Seq<char>>, tv: Seq<char>, active: Seq<Seq<char>>) -> Option<Seq<char>>
    decreases vs.len(),
{
    if vs.len() == 0 {
        None
    } else {
        let rest = min_other(vs.drop_last(), tv, active);
        let x = vs.last();
        if eligible_other(x, tv, active) {
            match rest {
                Some(m) => if seq_lt(x, m) {
                    Some(x)
                } else {
                    Some(m)
                },
                None => Some(x),
            }
        } else {
            rest
        }
    }
}

/// The variant `v` without its prefix, when it has one.
pub open spec fn short_variant(v: Seq<char>) -> Seq<char> {
    match variant_suffix(v) {
        Some(x) => x,
        None => v,
    }
}

/// A branch on the staging variable: the target, the guard and the label.
pub open spec fn staged(staging: Seq<char>, v: Seq<char>) -> (Seq<char>, Seq<char>, Seq<char>) {
    (v, staging + " == "@ + v, staging + " is "@ + short_variant(v))
}

/// The branches on the staging variable among the `if` statements that are
/// children of the block `b`, from the `m`-th child on. An `if` whose else
/// holds another `if` goes on with the children of that one; a plain else
/// stands for the first eligible variant.
pub open spec fn staging_kids(
    s: Seq<char>,
    ns: Seq<SyntaxNodeView>,
    b: int,
    m: int,
    staging: Seq<char>,
    vs: Seq<Seq<char>>,
    active: Seq<Seq<char>>,
) -> Seq<(Seq<char>, Seq<char>, Seq<char>)>
    decreases ns.len() - b, children(ns, b).len() - m,
{
    let kids = children(ns, b);
    if 0 <= m < kids.len() && b < kids[m] < ns.len() {
        let c = kids[m] as int;
        let here = if ns[c].kind == "if_statement"@ {
            match field_child(ns, c, "condition"@) {
                Some(cond) => match tested_variant(s, ns, cond as int, staging, vs) {
                    Some(tv) => {
                        let first = staged(staging, tv);
                        match field_child(ns, c, "alternative"@) {
                            Some(alt) => {
                                let chained = if ns[alt as int].kind == "if_statement"@ {
                                    Some(alt)
                                } else {
                                    kid_of_kind(ns, alt as int, 0, "if_statement"@)
                                };
                                match chained {
                                    Some(e) => if b < e < ns.len() {
                                        seq![first] + staging_kids(s, ns, e as int, 0, staging, vs, active)
                                    } else {
                                        seq![first]
                                    },
                                    None => match min_other(vs, tv, active) {
                                        Some(o) => seq![first, staged(staging, o)],
                                        None => seq![first],
                                    },
                                }
                            },
                            None => seq![first],
                        }
                    },
                    None => Seq::empty(),
                },
                None => Seq::empty(),
            }
        } else {
            Seq::empty()
        };
        here + staging_kids(s, ns, b, m + 1, staging, vs, active)
    } else {
        Seq::empty()
    }
}

/// The branches on the staging variable found in the nearest block or case,
/// from node `p` up to the enclosing function, that has any.
pub open spec fn staging_up(
    s: Seq<char>,
    ns: Seq<SyntaxNodeView>,
    p: int,
    staging: Seq<char>,
    vs: Seq<Seq<char>>,
    active: Seq<Seq<char>>,
) -> Seq<(Seq<char>, Seq<char>, Seq<char>)>
    decreases p,
{
    if 0 <= p < ns.len() {
        let here = if ns[p].kind == "compound_statement"@ || ns[p].kind == "case_statement"@ {
            staging_kids(s, ns, p, 0, staging, vs, active)
        } else {
            Seq::empty()
        };
        if here.len() > 0 {
            here
        } else if ns[p].kind == "function_definition"@ {
            Seq::empty()
        } else {
            match ns[p].parent {
                Some(q) => if q < p {
                    staging_up(s, ns, q as int, staging, vs, active)
                } else {
                    Seq::empty()
                },
                None => Seq::empty(),
            }
        }
    } else {
        Seq::empty()
    }
}

/// `trs` already has a transition from `from` to `to` with the label `label`.
pub open spec fn has_transition(trs: Seq<TransitionSpec>, from: Seq<char>, to: Seq<char>, label: Seq<char>) -> bool {
    exists|k: int| 0 <= k < trs.len() && #[trigger] trs[k].from == from && trs[k].to == to && trs[k].label == label
}

/// `trs` with a direct transition from `from` for each branch of `br` it
/// does not have yet.
pub open spec fn add_from(
    trs: Seq<TransitionSpec>,
    from: Seq<char>,
    br: Seq<(Seq<char>, Seq<char>, Seq<char>)>,
    line: int,
) -> Seq<TransitionSpec>
    decreases br.len(),
{
    if br.len() == 0 {
        trs
    } else {
        let t0 = add_from(trs, from, br.drop_last(), line);
        let b = br.last();
        if has_transition(t0, from, b.0, b.2) {
            t0
        } else {
            t0.push(
                TransitionSpec {
                    from,
                    to: b.0,
                    guard: b.1,
                    label: b.2,
                    is_fault: false,
                    transition_type: TransitionTypeView::Direct,
                    line,
                },
            )
        }
    }
}

/// `add_from` for each state of `froms` in turn.
pub open spec fn add_staged(
    trs: Seq<TransitionSpec>,
    froms: Seq<Seq<char>>,
    br: Seq<(Seq<char>, Seq<char>, Seq<char>)>,
    line: int,
) -> Seq<TransitionSpec>
    decreases froms.len(),
{
    if froms.len() == 0 {
        trs
    } else {
        add_from(add_staged(trs, froms.drop_last(), br, line), froms.last(), br, line)
    }
}

/// Where the walk stands: the states that the enclosing branches allow (no
/// restriction when `None`), the conditions around it, and whether the
/// machine has a fault state of its own.
pub struct CtxSpec {
    pub active: Option<Seq<Seq<char>>>,
    pub guards: Seq<Seq<char>>,
    pub has_local_fault: bool,
}

/// The transitions and the ambiguous assignments found so far.
pub type WalkState = (Seq<TransitionSpec>, Seq<AmbiguousSpec>);

/// The guards of a context, joined by `&&`.
pub open spec fn guard_of(ctx: CtxSpec) -> Seq<char> {
    join(ctx.guards, " && "@)
}

/// The label of an assignment of `tv` under the guard `g`: the command it
/// answers, else a `printf` that follows and says more than the state name,
/// else the guard in words.
pub open spec fn assignment_label(g: Seq<char>, tv: Seq<char>, fp: Option<Seq<char>>) -> Seq<char> {
    match command_string(g) {
        Some(cmd) => "CMD: "@ + cmd,
        None => match fp {
            Some(msg) => if !fault_name(tv) && differs(msg, tv) {
                clean_printf(msg)
            } else {
                guard_label(g)
            },
            None => guard_label(g),
        },
    }
}

/// A direct assignment is event-triggered when its guard mentions a command.
pub open spec fn assignment_type(g: Seq<char>) -> TransitionTypeView {
    if contains(g, "cmd"@) || contains(g, "strcmp"@) {
        TransitionTypeView::EventTriggered
    } else {
        TransitionTypeView::Direct
    }
}

/// The assignment at node `i` of the variable `var`: a transition from each
/// state the context allows to the assigned variant; an ambiguous target
/// when the context allows none or does not restrict; and for a staging
/// variable, the branches that test it.
pub open spec fn check_assignment(
    s: Seq<char>,
    ns: Seq<SyntaxNodeView>,
    i: int,
    ctx: CtxSpec,
    var: Seq<char>,
    vs: Seq<Seq<char>>,
    st: WalkState,
) -> WalkState {
    match (field_child(ns, i, "left"@), field_child(ns, i, "right"@)) {
        (Some(l), Some(r)) => if crate::discovery::target_ident(s, ns, l as int) == Some(var) {
            match variant_ident(s, ns, r as int, vs) {
                Some(tv) => {
                    let line = line_of(s, ns, i);
                    let g = guard_of(ctx);
                    let label = assignment_label(g, tv, following_printf(s, ns, i));
                    match ctx.active {
                        Some(states) => if states.len() == 0 {
                            (
                                st.0,
                                st.1.push(
                                    AmbiguousSpec {
                                        target: tv,
                                        guard: g,
                                        line,
                                        note: "Assignment to "@ + var + " outside known state guard"@,
                                    },
                                ),
                            )
                        } else {
                            (
                                st.0 + states.map_values(
                                    |from: Seq<char>|
                                        TransitionSpec {
                                            from,
                                            to: tv,
                                            guard: g,
                                            label,
                                            is_fault: fault_name(tv),
                                            transition_type: assignment_type(g),
                                            line,
                                        },
                                ),
                                st.1,
                            )
                        },
                        None => (
                            st.0,
                            st.1.push(
                                AmbiguousSpec {
                                    target: tv,
                                    guard: g,
                                    line,
                                    note: "Assignment to "@ + var + " with no enclosing state check"@,
                                },
                            ),
                        ),
                    }
                },
                None => match crate::discovery::target_ident(s, ns, r as int) {
                    Some(ri) => if ri != var {
                        (resolve_assignment(s, ns, i, ctx, ri, vs, st.0), st.1)
                    } else {
                        st
                    },
                    None => st,
                },
            }
        } else {
            st
        },
        _ => st,
    }
}

/// `var = staging;` in a state: a direct transition from each allowed state
/// for each branch that tests the staging variable, unless one with the
/// same ends and label is there.
pub open spec fn resolve_assignment(
    s: Seq<char>,
    ns: Seq<SyntaxNodeView>,
    i: int,
    ctx: CtxSpec,
    staging: Seq<char>,
    vs: Seq<Seq<char>>,
    trs: Seq<TransitionSpec>,
) -> Seq<TransitionSpec> {
    match ctx.active {
        Some(act) => if act.len() > 0 {
            let br = match ns[i].parent {
                Some(p) => if p < i {
                    staging_up(s, ns, p as int, staging, vs, act)
                } else {
                    Seq::empty()
                },
                None => Seq::empty(),
            };
            add_staged(trs, act, br, line_of(s, ns, i))
        } else {
            trs
        },
        None => trs,
    }
}

/// The text of an argument, or the empty text.
pub open spec fn arg_text(arg: Option<(Seq<char>, bool)>) -> Seq<char> {
    match arg {
        Some(a) => a.0,
        None => Seq::empty(),
    }
}

/// The transitions of one target of a helper call.
pub open spec fn per_target(
    ctx: CtxSpec,
    target: Seq<char>,
    full: Seq<char>,
    base: Seq<char>,
    arg: Option<(Seq<char>, bool)>,
    name: Seq<char>,
    line: int,
) -> Seq<TransitionSpec> {
    let is_fault = fault_name(target);
    let label = if (name == "fault"@ || is_fault) && match arg {
        Some(a) => a.1,
        None => false,
    } {
        arg_text(arg)
    } else {
        match command_string(base) {
            Some(cmd) => "CMD: "@ + cmd,
            None => guard_label(base),
        }
    };
    let ty = TransitionTypeView::IndirectHelper {
        helper_name: name,
        argument: match arg {
            Some(a) => Some(a.0),
            None => None,
        },
    };
    let any = TransitionSpec {
        from: "(any state)"@,
        to: target,
        guard: full,
        label,
        is_fault,
        transition_type: ty,
        line,
    };
    match ctx.active {
        Some(states) => if states.len() == 0 {
            seq![any]
        } else {
            states.map_values(
                |from: Seq<char>| TransitionSpec { from, to: target, guard: full, label, is_fault, transition_type: ty, line },
            )
        },
        None => seq![any],
    }
}

/// `per_target` for each target in turn.
pub open spec fn targets_concat(
    ctx: CtxSpec,
    targets: Seq<Seq<char>>,
    full: Seq<char>,
    base: Seq<char>,
    arg: Option<(Seq<char>, bool)>,
    name: Seq<char>,
    line: int,
) -> Seq<TransitionSpec>
    decreases targets.len(),
{
    if targets.len() == 0 {
        Seq::empty()
    } else {
        targets_concat(ctx, targets.drop_last(), full, base, arg, name, line) + per_target(
            ctx,
            targets.last(),
            full,
            base,
            arg,
            name,
            line,
        )
    }
}

/// The call at node `i`: a call of a helper makes a transition to each
/// state it assigns; a fault handler called where the context allows some
/// states makes one to `SYSTEM FAULT`, when the machine has no fault state
/// of its own.
pub open spec fn check_helper_call(
    s: Seq<char>,
    ns: Seq<SyntaxNodeView>,
    i: int,
    ctx: CtxSpec,
    hs: Helpers,
    trs: Seq<TransitionSpec>,
) -> Seq<TransitionSpec> {
    match field_child(ns, i, "function"@) {
        Some(fc) => {
            let name = txt(s, ns, fc as int);
            let line = line_of(s, ns, i);
            let arg = first_arg(s, ns, i);
            let tag = match arg {
                Some(a) => name + ": "@ + a.0,
                None => name + "()"@,
            };
            let base = guard_of(ctx);
            let full = if base.len() == 0 {
                tag
            } else {
                base + " ["@ + tag + "]"@
            };
            match helper_get(hs, name) {
                Some(targets) => trs + targets_concat(ctx, targets, full, base, arg, name, line),
                None => match ctx.active {
                    Some(states) => if !ctx.has_local_fault && fault_coordinator(name) && states.len() > 0 {
                        let label = match arg {
                            Some(a) => a.0,
                            None => guard_label(base),
                        };
                        let ty = TransitionTypeView::IndirectHelper {
                            helper_name: name,
                            argument: match arg {
                                Some(a) => Some(a.0),
                                None => None,
                            },
                        };
                        trs + states.map_values(
                            |from: Seq<char>|
                                TransitionSpec {
                                    from,
                                    to: "SYSTEM FAULT"@,
                                    guard: full,
                                    label,
                                    is_fault: true,
                                    transition_type: ty,
                                    line,
                                },
                        )
                    } else {
                        trs
                    },
                    None => trs,
                },
            }
        },
        None => trs,
    }
}

/// The context inside the consequence of an `if` with the condition `ca`.
pub open spec fn branch_ctx(ctx: CtxSpec, ca: CondSpec) -> CtxSpec {
    CtxSpec {
        active: if ca.restriction is Some {
            ca.restriction
        } else {
            ctx.active
        },
        guards: ctx.guards + keep_nonempty(ca.guards),
        has_local_fault: ctx.has_local_fault,
    }
}

/// The walk of a statement: `if` and `switch` refine the context for their
/// branches, assignments and calls are checked, anything else is walked
/// child by child.
pub open spec fn walk(
    s: Seq<char>,
    ns: Seq<SyntaxNodeView>,
    i: int,
    ctx: CtxSpec,
    var: Seq<char>,
    vs: Seq<Seq<char>>,
    hs: Helpers,
    st: WalkState,
) -> WalkState
    decreases ns.len() - i, 2int, 0int,
{
    if 0 <= i < ns.len() {
        if ns[i].kind == "if_statement"@ {
            let ca = match field_child(ns, i, "condition"@) {
                Some(c) => analyze(s, ns, c as int, var, vs),
                None => no_cond(),
            };
            let st1 = match field_child(ns, i, "consequence"@) {
                Some(q) => if i < q < ns.len() {
                    walk(s, ns, q as int, branch_ctx(ctx, ca), var, vs, hs, st)
                } else {
                    st
                },
                None => st,
            };
            match field_child(ns, i, "alternative"@) {
                Some(a) => if i < a < ns.len() {
                    walk(s, ns, a as int, ctx, var, vs, hs, st1)
                } else {
                    st1
                },
                None => st1,
            }
        } else if ns[i].kind == "switch_statement"@ {
            let on_var = match field_child(ns, i, "condition"@) {
                Some(c) => clean_guard(txt(s, ns, c as int)) == var,
                None => false,
            };
            match field_child(ns, i, "body"@) {
                Some(b) => if i < b < ns.len() {
                    switch_items(s, ns, b as int, 0, ctx, var, vs, hs, on_var, None, st)
                } else {
                    st
                },
                None => st,
            }
        } else if ns[i].kind == "assignment_expression"@ {
            check_assignment(s, ns, i, ctx, var, vs, st)
        } else if ns[i].kind == "call_expression"@ {
            (check_helper_call(s, ns, i, ctx, hs, st.0), st.1)
        } else {
            walk_kids(s, ns, i, 0, ctx, var, vs, hs, st)
        }
    } else {
        st
    }
}

/// The walk of the children of `i` from the `m`-th on, in the same context.
pub open spec fn walk_kids(
    s: Seq<char>,
    ns: Seq<SyntaxNodeView>,
    i: int,
    m: int,
    ctx: CtxSpec,
    var: Seq<char>,
    vs: Seq<Seq<char>>,
    hs: Helpers,
    st: WalkState,
) -> WalkState
    decreases ns.len() - i, 0int, children(ns, i).len() - m,
{
    let kids = children(ns, i);
    if 0 <= m < kids.len() && i < kids[m] < ns.len() {
        walk_kids(s, ns, i, m + 1, ctx, var, vs, hs, walk(s, ns, kids[m] as int, ctx, var, vs, hs, st))
    } else {
        st
    }
}

/// The state that a `case` of a `switch (var)` sets for what follows it.
pub open spec fn case_state(
    s: Seq<char>,
    ns: Seq<SyntaxNodeView>,
    c: int,
    vs: Seq<Seq<char>>,
    on_var: bool,
    cur: Option<Seq<Seq<char>>>,
) -> Option<Seq<Seq<char>>> {
    if ns[c].kind == "case_statement"@ && on_var {
        match field_child(ns, c, "value"@) {
            Some(v) => if vs.contains(txt(s, ns, v as int)) {
                Some(seq![txt(s, ns, v as int)])
            } else {
                cur
            },
            None => cur,
        }
    } else {
        cur
    }
}

/// The walk of the items of a `switch` body `b` from the `m`-th child on:
/// each item in the state of the last `case` that named one.
pub open spec fn switch_items(
    s: Seq<char>,
    ns: Seq<SyntaxNodeView>,
    b: int,
    m: int,
    ctx: CtxSpec,
    var: Seq<char>,
    vs: Seq<Seq<char>>,
    hs: Helpers,
    on_var: bool,
    cur: Option<Seq<Seq<char>>>,
    st: WalkState,
) -> WalkState
    decreases ns.len() - b, 1int, children(ns, b).len() - m,
{
    let kids = children(ns, b);
    if 0 <= m < kids.len() && b < kids[m] < ns.len() {
        let c = kids[m] as int;
        let cur2 = case_state(s, ns, c, vs, on_var, cur);
        let ictx = match cur2 {
            Some(x) => CtxSpec { active: Some(x), guards: ctx.guards, has_local_fault: ctx.has_local_fault },
            None => ctx,
        };
        switch_items(s, ns, b, m + 1, ctx, var, vs, hs, on_var, cur2, walk(s, ns, c, ictx, var, vs, hs, st))
    } else {
        st
    }
}

/// The walk of the bodies of the functions `fns` that are not helpers.
pub open spec fn walk_functions(
    s: Seq<char>,
    ns: Seq<SyntaxNodeView>,
    fns: Seq<usize>,
    ctx: CtxSpec,
    var: Seq<char>,
    vs: Seq<Seq<char>>,
    hs: Helpers,
    st: WalkState,
) -> WalkState
    decreases fns.len(),
{
    if fns.len() == 0 {
        st
    } else {
        let st1 = walk_functions(s, ns, fns.drop_last(), ctx, var, vs, hs, st);
        let f = fns.last() as int;
        let is_helper = match fn_name(s, ns, f) {
            Some(n) => helper_get(hs, n) is Some,
            None => false,
        };
        if is_helper {
            st1
        } else {
            match field_child(ns, f, "body"@) {
                Some(b) => walk(s, ns, b as int, ctx, var, vs, hs, st1),
                None => st1,
            }
        }
    }
}


// ---------------------------------------------------------------------
// Command handlers in the other C files of the project.
// ---------------------------------------------------------------------

/// The state that `var == V` (either way round, texts cleaned) at node `j`
/// queries.
pub open spec fn queried_here(s: Seq<char>, ns: Seq<SyntaxNodeView>, j: int, var: Seq<char>, vs: Seq<Seq<char>>) -> Seq<Seq<char>> {
    if ns[j].kind == "binary_expression"@ {
        match (field_child(ns, j, "left"@), field_child(ns, j, "operator"@), field_child(ns, j, "right"@)) {
            (Some(l), Some(o), Some(r)) => if txt(s, ns, o as int) == "=="@ {
                let lt = clean_guard(txt(s, ns, l as int));
                let rt = clean_guard(txt(s, ns, r as int));
                if lt == var && vs.contains(rt) {
                    seq![rt]
                } else if rt == var && vs.contains(lt) {
                    seq![lt]
                } else {
                    Seq::empty()
                }
            } else {
                Seq::empty()
            },
            _ => Seq::empty(),
        }
    } else {
        Seq::empty()
    }
}

/// `queried_here` as a function of nodes.
pub open spec fn queried_pick(s: Seq<char>, ns: Seq<SyntaxNodeView>, var: Seq<char>, vs: Seq<Seq<char>>) -> spec_fn(int) -> Seq<Seq<char>> {
    |j: int| queried_here(s, ns, j, var, vs)
}

/// The states that the function at node `f` compares `var` with, each once.
pub open spec fn queried_states(s: Seq<char>, ns: Seq<SyntaxNodeView>, f: int, var: Seq<char>, vs: Seq<Seq<char>>) -> Seq<Seq<char>> {
    first_occurrences(subtree_collect(ns, f, queried_pick(s, ns, var, vs), no_stop()))
}

/// The query functions among `fns`: those that compare `var` with a state,
/// by name, with the states they compare it with.
pub open spec fn query_functions(s: Seq<char>, ns: Seq<SyntaxNodeView>, fns: Seq<usize>, var: Seq<char>, vs: Seq<Seq<char>>) -> Helpers
    decreases fns.len(),
{
    if fns.len() == 0 {
        Seq::empty()
    } else {
        let qf = query_functions(s, ns, fns.drop_last(), var, vs);
        let f = fns.last() as int;
        match fn_name(s, ns, f) {
            Some(n) => if queried_states(s, ns, f, var, vs).len() > 0 {
                helper_put(qf, n, queried_states(s, ns, f, var, vs))
            } else {
                qf
            },
            None => qf,
        }
    }
}

/// The states of the query functions that node `j` calls.
pub open spec fn query_call_here(s: Seq<char>, ns: Seq<SyntaxNodeView>, j: int, qf: Helpers) -> Seq<Seq<char>> {
    if ns[j].kind == "call_expression"@ {
        match field_child(ns, j, "function"@) {
            Some(f) => match helper_get(qf, txt(s, ns, f as int)) {
                Some(states) => states,
                None => Seq::empty(),
            },
            None => Seq::empty(),
        }
    } else {
        Seq::empty()
    }
}

/// `query_call_here` as a function of nodes.
pub open spec fn query_call_pick(s: Seq<char>, ns: Seq<SyntaxNodeView>, qf: Helpers) -> spec_fn(int) -> Seq<Seq<char>> {
    |j: int| query_call_here(s, ns, j, qf)
}

/// The states that the query calls of the condition at node `c` ask about,
/// each once.
pub open spec fn query_call_states(s: Seq<char>, ns: Seq<SyntaxNodeView>, c: int, qf: Helpers) -> Seq<Seq<char>> {
    first_occurrences(subtree_collect(ns, c, query_call_pick(s, ns, qf), no_stop()))
}

/// The entry that the braced initializer `c` of a command table gives: its
/// last identifier and its last string, quotes trimmed.
pub open spec fn table_entry_of(s: Seq<char>, ns: Seq<SyntaxNodeView>, c: int) -> Seq<(Seq<char>, Seq<char>)> {
    let kids = children(ns, c);
    if ns[c].kind == "initializer_list"@ {
        match (
            last_of_kind(ns, kids, "string_literal"@, kids.len() as int),
            last_of_kind(ns, kids, "identifier"@, kids.len() as int),
        ) {
            (Some(a), Some(b)) => seq![
                (
                    txt(s, ns, kids[b] as int),
                    trim_chars_end(trim_chars_start(txt(s, ns, kids[a] as int), '"', '"'), '"', '"'),
                ),
            ],
            _ => Seq::empty(),
        }
    } else {
        Seq::empty()
    }
}

/// `table_entry_of` as a function of nodes.
pub open spec fn table_entry_pick(s: Seq<char>, ns: Seq<SyntaxNodeView>) -> spec_fn(int) -> Seq<(Seq<char>, Seq<char>)> {
    |c: int| table_entry_of(s, ns, c)
}

/// The entries of the command table that node `j` holds when it is an
/// initializer list: one per braced initializer among its children.
pub open spec fn table_here(s: Seq<char>, ns: Seq<SyntaxNodeView>, j: int) -> Seq<(Seq<char>, Seq<char>)> {
    if ns[j].kind == "initializer_list"@ {
        kids_concat(ns, j, 0, table_entry_pick(s, ns))
    } else {
        Seq::empty()
    }
}

/// `table_here` as a function of nodes.
pub open spec fn table_pick(s: Seq<char>, ns: Seq<SyntaxNodeView>) -> spec_fn(int) -> Seq<(Seq<char>, Seq<char>)> {
    |j: int| table_here(s, ns, j)
}

/// The command table entries of a file, function and command, in tree order.
pub open spec fn table_entries(s: Seq<char>, ns: Seq<SyntaxNodeView>) -> Seq<(Seq<char>, Seq<char>)> {
    if ns.len() > 0 {
        subtree_collect(ns, 0, table_pick(s, ns), no_stop())
    } else {
        Seq::empty()
    }
}

/// `m` with each entry of `es` stored in turn, later ones replacing earlier
/// ones.
pub open spec fn store_all(m: Entries, es: Seq<(Seq<char>, Seq<char>)>) -> Entries
    decreases es.len(),
{
    if es.len() == 0 {
        m
    } else {
        assoc_insert(store_all(m, es.drop_last()), es.last().0, es.last().1)
    }
}

/// The command of each command handler function, over the files `fs`.
pub open spec fn command_map(fs: Seq<SourceFile>) -> Entries
    decreases fs.len(),
{
    if fs.len() == 0 {
        Seq::empty()
    } else {
        let f = fs.last();
        let m = command_map(fs.drop_last());
        if parses(f.1) {
            store_all(m, table_entries(f.1, tree_of(f.1)))
        } else {
            m
        }
    }
}

/// A transition that a command makes.
pub open spec fn command_transition(from: Seq<char>, target: Seq<char>, label: Seq<char>, line: int) -> TransitionSpec {
    TransitionSpec {
        from,
        to: target,
        guard: label,
        label,
        is_fault: false,
        transition_type: TransitionTypeView::EventTriggered,
        line,
    }
}

/// `trs` with `t` added unless it has one with the same ends and label.
pub open spec fn add_new_transition(trs: Seq<TransitionSpec>, t: TransitionSpec) -> Seq<TransitionSpec> {
    if has_transition(trs, t.from, t.to, t.label) {
        trs
    } else {
        trs.push(t)
    }
}

/// `trs` with a transition from each of `froms` to `target`.
pub open spec fn add_command_froms(trs: Seq<TransitionSpec>, froms: Seq<Seq<char>>, target: Seq<char>, label: Seq<char>, line: int) -> Seq<TransitionSpec>
    decreases froms.len(),
{
    if froms.len() == 0 {
        trs
    } else {
        add_new_transition(add_command_froms(trs, froms.drop_last(), target, label, line), command_transition(froms.last(), target, label, line))
    }
}

/// `ambs` already has the target `target` under the guard `guard`.
pub open spec fn has_ambiguous(ambs: Seq<AmbiguousSpec>, target: Seq<char>, guard: Seq<char>) -> bool {
    exists|k: int| 0 <= k < ambs.len() && #[trigger] ambs[k].target == target && ambs[k].guard == guard
}

/// What a command handler's call of a helper assigning `target` adds: from
/// each queried state; else, when the target is the initial state, an
/// ambiguous target and a transition from any state; else a transition
/// from the initial state.
pub open spec fn command_target(
    st: WalkState,
    active: Seq<Seq<char>>,
    target: Seq<char>,
    label: Seq<char>,
    initial: Seq<char>,
    fname: Seq<char>,
    line: int,
) -> WalkState {
    if active.len() > 0 {
        (add_command_froms(st.0, active, target, label, line), st.1)
    } else if target == initial {
        let ambs = if has_ambiguous(st.1, target, label) {
            st.1
        } else {
            st.1.push(AmbiguousSpec { target, guard: label, line, note: "Command dispatch via "@ + fname })
        };
        (add_new_transition(st.0, command_transition("(any state)"@, target, label, line)), ambs)
    } else {
        (add_new_transition(st.0, command_transition(initial, target, label, line)), st.1)
    }
}

/// `command_target` for each target in turn.
pub open spec fn command_targets(
    st: WalkState,
    active: Seq<Seq<char>>,
    targets: Seq<Seq<char>>,
    label: Seq<char>,
    initial: Seq<char>,
    fname: Seq<char>,
    line: int,
) -> WalkState
    decreases targets.len(),
{
    if targets.len() == 0 {
        st
    } else {
        command_target(
            command_targets(st, active, targets.drop_last(), label, initial, fname, line),
            active,
            targets.last(),
            label,
            initial,
            fname,
            line,
        )
    }
}

/// The walk of a command handler: `if` conditions that call query functions
/// set the queried states for their consequence; calls of helpers make
/// transitions labelled with the handler's command.
pub open spec fn walk_cross(
    s: Seq<char>,
    ns: Seq<SyntaxNodeView>,
    i: int,
    cmd: Option<Seq<char>>,
    fname: Seq<char>,
    initial: Seq<char>,
    hs: Helpers,
    qf: Helpers,
    active: Seq<Seq<char>>,
    st: WalkState,
) -> WalkState
    decreases ns.len() - i, 1int, 0int,
{
    if 0 <= i < ns.len() {
        if ns[i].kind == "if_statement"@ {
            let branch = match field_child(ns, i, "condition"@) {
                Some(c) => query_call_states(s, ns, c as int, qf),
                None => Seq::empty(),
            };
            let st1 = match field_child(ns, i, "consequence"@) {
                Some(q) => if i < q < ns.len() {
                    walk_cross(
                        s,
                        ns,
                        q as int,
                        cmd,
                        fname,
                        initial,
                        hs,
                        qf,
                        if branch.len() > 0 {
                            branch
                        } else {
                            active
                        },
                        st,
                    )
                } else {
                    st
                },
                None => st,
            };
            match field_child(ns, i, "alternative"@) {
                Some(a) => if i < a < ns.len() {
                    walk_cross(s, ns, a as int, cmd, fname, initial, hs, qf, active, st1)
                } else {
                    st1
                },
                None => st1,
            }
        } else if ns[i].kind == "call_expression"@ {
            match field_child(ns, i, "function"@) {
                Some(f) => {
                    let callee = txt(s, ns, f as int);
                    match helper_get(hs, callee) {
                        Some(targets) => {
                            let label = match cmd {
                                Some(c) => "CMD: "@ + c,
                                None => callee,
                            };
                            command_targets(st, active, targets, label, initial, fname, line_of(s, ns, i))
                        },
                        None => st,
                    }
                },
                None => st,
            }
        } else {
            walk_cross_kids(s, ns, i, 0, cmd, fname, initial, hs, qf, active, st)
        }
    } else {
        st
    }
}

/// `walk_cross` over the children of `i` from the `m`-th on.
pub open spec fn walk_cross_kids(
    s: Seq<char>,
    ns: Seq<SyntaxNodeView>,
    i: int,
    m: int,
    cmd: Option<Seq<char>>,
    fname: Seq<char>,
    initial: Seq<char>,
    hs: Helpers,
    qf: Helpers,
    active: Seq<Seq<char>>,
    st: WalkState,
) -> WalkState
    decreases ns.len() - i, 0int, children(ns, i).len() - m,
{
    let kids = children(ns, i);
    if 0 <= m < kids.len() && i < kids[m] < ns.len() {
        walk_cross_kids(
            s,
            ns,
            i,
            m + 1,
            cmd,
            fname,
            initial,
            hs,
            qf,
            active,
            walk_cross(s, ns, kids[m] as int, cmd, fname, initial, hs, qf, active, st),
        )
    } else {
        st
    }
}

/// The walk of each function of a file, as a command handler when the
/// command table names it.
pub open spec fn walk_cross_functions(
    s: Seq<char>,
    ns: Seq<SyntaxNodeView>,
    fns: Seq<usize>,
    cmds: Entries,
    initial: Seq<char>,
    hs: Helpers,
    qf: Helpers,
    st: WalkState,
) -> WalkState
    decreases fns.len(),
{
    if fns.len() == 0 {
        st
    } else {
        let st1 = walk_cross_functions(s, ns, fns.drop_last(), cmds, initial, hs, qf, st);
        let f = fns.last() as int;
        let name = match fn_name(s, ns, f) {
            Some(n) => n,
            None => Seq::empty(),
        };
        match field_child(ns, f, "body"@) {
            Some(b) => walk_cross(s, ns, b as int, lookup(cmds, name), name, initial, hs, qf, Seq::empty(), st1),
            None => st1,
        }
    }
}

/// The walk of the command handlers of each file of `fs` in turn.
pub open spec fn walk_cross_files(fs: Seq<SourceFile>, cmds: Entries, initial: Seq<char>, hs: Helpers, qf: Helpers, st: WalkState) -> WalkState
    decreases fs.len(),
{
    if fs.len() == 0 {
        st
    } else {
        let st1 = walk_cross_files(fs.drop_last(), cmds, initial, hs, qf, st);
        let f = fs.last();
        if parses(f.1) {
            walk_cross_functions(f.1, tree_of(f.1), root_functions(tree_of(f.1)), cmds, initial, hs, qf, st1)
        } else {
            st1
        }
    }
}

/// The transitions that the command handlers of the other C files `others`
/// make through the helpers `hs`, for the variable `var` of the file whose
/// tree is `ns`, starting from `initial` when no query says otherwise.
pub open spec fn cross_file(
    s: Seq<char>,
    ns: Seq<SyntaxNodeView>,
    var: Seq<char>,
    vs: Seq<Seq<char>>,
    initial: Seq<char>,
    hs: Helpers,
    others: Seq<SourceFile>,
    st: WalkState,
) -> WalkState {
    if others.len() == 0 {
        st
    } else {
        let qf = query_functions(s, ns, root_functions(ns), var, vs);
        walk_cross_files(others, command_map(others), initial, hs, qf, st)
    }
}

/// The states of a machine: the variants, and `SYSTEM FAULT` when some
/// transition goes there and no variant is named so.
pub open spec fn machine_states(vs: Seq<Seq<char>>, trs: Seq<TransitionSpec>) -> Seq<Seq<char>> {
    if (exists|k: int| 0 <= k < trs.len() && #[trigger] trs[k].to == "SYSTEM FAULT"@) && !vs.contains("SYSTEM FAULT"@) {
        vs.push("SYSTEM FAULT"@)
    } else {
        vs
    }
}

/// The state machine of the candidate `c` in the C text `source`, with the
/// other C files `others` of its directory.
pub open spec fn machine_of(c: CandidateSpec, source: Seq<char>, others: Seq<SourceFile>) -> MachineSpec {
    let ns = tree_of(source);
    let var = c.var.name;
    let vs = c.enum_def.variants;
    let hs = helpers_of(source, ns, var, vs);
    let ctx = CtxSpec { active: None, guards: Seq::empty(), has_local_fault: exists|k: int| 0 <= k < vs.len() && fault_name(#[trigger] vs[k]) };
    let local = walk_functions(source, ns, root_functions(ns), ctx, var, vs, hs, (Seq::empty(), Seq::empty()));
    let initial = match c.var.initial_value {
        Some(v) => v,
        None => "IDLE"@,
    };
    let all = cross_file(source, ns, var, vs, initial, hs, others, local);
    MachineSpec {
        id: c.id,
        display_name: c.display_name,
        enum_def: c.enum_def,
        var: c.var,
        states: machine_states(vs, all.0),
        transitions: all.0,
        ambiguous_transitions: all.1,
    }
}

// ---------------------------------------------------------------------
// Executable counterparts.
// ---------------------------------------------------------------------

/// What a condition says of the state.
pub struct ConditionAnalysis {
    pub state_restriction: Option<Vec<String>>,
    pub guards: Vec<String>,
}

impl View for ConditionAnalysis {
    type V = CondSpec;

    open spec fn view(&self) -> CondSpec {
        CondSpec { restriction: self.state_restriction.deep_view(), guards: self.guards.deep_view() }
    }
}

/// The strings of `x` that `y` holds, in order.
fn keep_in_of(x: &Vec<String>, y: &Vec<String>) -> (r: Vec<String>)
    ensures
        r.deep_view() == keep_in(x.deep_view(), y.deep_view()),
{
    let mut out: Vec<String> = Vec::new();
    let mut k: usize = 0;
    assert(x.deep_view().take(0) =~= Seq::<Seq<char>>::empty());
    while k < x.len()
        invariant
            0 <= k <= x@.len(),
            out.deep_view() == keep_in(x.deep_view().take(k as int), y.deep_view()),
        decreases x.len() - k,
    {
        assert(x.deep_view().take(k + 1).drop_last() =~= x.deep_view().take(k as int));
        assert(x.deep_view()[k as int] == x@[k as int]@);
        let ghost before = out.deep_view();
        if contains_string(y, &x[k]) {
            out.push(x[k].clone());
            assert(out.deep_view() =~= before + seq![x.deep_view()[k as int]]);
        } else {
            assert(out.deep_view() =~= before + Seq::<Seq<char>>::empty());
        }
        k += 1;
    }
    assert(x.deep_view().take(x@.len() as int) =~= x.deep_view());
    out
}

/// `a` followed by `b`.
fn concat_strings(a: Vec<String>, b: &Vec<String>) -> (r: Vec<String>)
    ensures
        r.deep_view() == a.deep_view() + b.deep_view(),
{
    let mut out = a;
    let ghost start = out.deep_view();
    let mut k: usize = 0;
    while k < b.len()
        invariant
            0 <= k <= b@.len(),
            out.deep_view() == start + b.deep_view().take(k as int),
        decreases b.len() - k,
    {
        assert(b.deep_view()[k as int] == b@[k as int]@);
        let ghost before = out.deep_view();
        out.push(b[k].clone());
        assert(out.deep_view() =~= before.push(b.deep_view()[k as int]));
        assert(b.deep_view().take(k + 1) =~= b.deep_view().take(k as int).push(b.deep_view()[k as int]));
        k += 1;
    }
    assert(b.deep_view().take(b@.len() as int) =~= b.deep_view());
    out
}

/// The operator of the binary expression at node `i`.
fn binary_op_of(t: &CTree, i: usize) -> (r: Option<String>)
    requires
        t.wf(),
        i < t.ns().len(),
    ensures
        r.deep_view() == binary_op(t.s(), t.ns(), i as int),
{
    match t.field(i, "operator") {
        Some(o) => return Some(t.text(o)),
        None => {},
    }
    let kids = t.kids_of(i);
    let mut m: usize = 0;
    while m < kids.len()
        invariant
            t.wf(),
            i < t.ns().len(),
            0 <= m <= kids@.len(),
            kids@ == children(t.ns(), i as int),
            forall|k: int| 0 <= k < kids@.len() ==> i < #[trigger] kids@[k] < t.ns().len(),
            binary_op(t.s(), t.ns(), i as int) == op_kid(t.s(), t.ns(), i as int, m as int),
        decreases kids.len() - m,
    {
        let x = t.text(kids[m]);
        let xs = x.as_str();
        if str_eq(xs, "==") || str_eq(xs, "!=") || str_eq(xs, "&&") || str_eq(xs, "||") || str_eq(xs, ">") || str_eq(
            xs,
            "<",
        ) || str_eq(xs, ">=") || str_eq(xs, "<=") {
            return Some(x);
        }
        m += 1;
    }
    None
}

/// What the condition at node `i` says of the variable `var`.
fn analyze_of(t: &CTree, i: usize, var: &str, vs: &Vec<String>) -> (r: ConditionAnalysis)
    requires
        t.wf(),
        i < t.ns().len(),
    ensures
        r@ == analyze(t.s(), t.ns(), i as int, var@, vs.deep_view()),
    decreases t.ns().len() - i, 1int,
{
    let ghost sp = analyze(t.s(), t.ns(), i as int, var@, vs.deep_view());
    if t.kind_is(i, "parenthesized_expression") {
        let kids = t.kids_of(i);
        let mut m: usize = 0;
        while m < kids.len()
            invariant
                t.wf(),
                i < t.ns().len(),
                0 <= m <= kids@.len(),
                kids@ == children(t.ns(), i as int),
                forall|k: int| 0 <= k < kids@.len() ==> i < #[trigger] kids@[k] < t.ns().len(),
                sp == analyze(t.s(), t.ns(), i as int, var@, vs.deep_view()),
                sp == analyze_kids(t.s(), t.ns(), i as int, var@, vs.deep_view(), m as int),
            decreases kids.len() - m,
        {
            let c = kids[m];
            if !t.kind_is(c, "(") && !t.kind_is(c, ")") && !t.kind_is(c, "comment") {
                return analyze_of(t, c, var, vs);
            }
            m += 1;
        }
        let res = ConditionAnalysis { state_restriction: None, guards: Vec::new() };
        assert(res@.guards =~= Seq::<Seq<char>>::empty());
        return res;
    }
    if !t.kind_is(i, "binary_expression") {
        return fallback_of(t, i);
    }
    analyze_binary_of(t, i, var, vs)
}

/// The condition that says only its own text.
fn fallback_of(t: &CTree, i: usize) -> (r: ConditionAnalysis)
    requires
        t.wf(),
        i < t.ns().len(),
    ensures
        r@ == (CondSpec { restriction: None, guards: seq![clean_guard(txt(t.s(), t.ns(), i as int))] }),
{
    let mut guards: Vec<String> = Vec::new();
    guards.push(clean_guard_text(t.text(i).as_str()));
    assert(guards.deep_view() =~= seq![clean_guard(txt(t.s(), t.ns(), i as int))]);
    ConditionAnalysis { state_restriction: None, guards }
}

/// The variant that `l == r` compares `var` with.
fn eq_variant_of(t: &CTree, l: usize, r: usize, var: &str, vs: &Vec<String>) -> (v: Option<String>)
    requires
        t.wf(),
        l < t.ns().len(),
        r < t.ns().len(),
    ensures
        v.deep_view() == eq_variant(t.s(), t.ns(), l as int, r as int, var@, vs.deep_view()),
{
    let lt = ident_or_empty_of(t, l);
    if str_eq(lt.as_str(), var) {
        match variant_ident_of(t, r, vs) {
            Some(v) => return Some(v),
            None => {},
        }
    }
    let rt = ident_or_empty_of(t, r);
    if str_eq(rt.as_str(), var) {
        match variant_ident_of(t, l, vs) {
            Some(v) => return Some(v),
            None => {},
        }
    }
    None
}

/// What the binary condition at node `i` says of the variable `var`.
fn analyze_binary_of(t: &CTree, i: usize, var: &str, vs: &Vec<String>) -> (r: ConditionAnalysis)
    requires
        t.wf(),
        i < t.ns().len(),
        t.ns()[i as int].kind == "binary_expression"@,
        t.ns()[i as int].kind != "parenthesized_expression"@,
    ensures
        r@ == analyze(t.s(), t.ns(), i as int, var@, vs.deep_view()),
    decreases t.ns().len() - i, 0int,
{
    let op = match binary_op_of(t, i) {
        Some(op) => op,
        None => return fallback_of(t, i),
    };
    let l = match t.field(i, "left") {
        Some(l) => l,
        None => return fallback_of(t, i),
    };
    let r = match t.field(i, "right") {
        Some(r) => r,
        None => return fallback_of(t, i),
    };
    if str_eq(op.as_str(), "==") {
        match eq_variant_of(t, l, r, var, vs) {
            Some(v) => {
                let mut one: Vec<String> = Vec::new();
                let ghost vv = v@;
                one.push(v);
                assert(one.deep_view() =~= seq![vv]);
                let res = ConditionAnalysis { state_restriction: Some(one), guards: Vec::new() };
                assert(res@.guards =~= Seq::<Seq<char>>::empty());
                res
            },
            None => fallback_of(t, i),
        }
    } else if str_eq(op.as_str(), "||") {
        let a = analyze_of(t, l, var, vs);
        let b = analyze_of(t, r, var, vs);
        if a.state_restriction.is_some() || b.state_restriction.is_some() {
            let la = match a.state_restriction {
                Some(x) => x,
                None => Vec::new(),
            };
            let lb = match b.state_restriction {
                Some(x) => x,
                None => Vec::new(),
            };
            let combined = concat_strings(la, &lb);
            let guards = concat_strings(a.guards, &b.guards);
            ConditionAnalysis { state_restriction: Some(combined), guards }
        } else {
            fallback_of(t, i)
        }
    } else if str_eq(op.as_str(), "&&") {
        let a = analyze_of(t, l, var, vs);
        let b = analyze_of(t, r, var, vs);
        let restriction = match (a.state_restriction, b.state_restriction) {
            (Some(x), Some(y)) => Some(keep_in_of(&x, &y)),
            (Some(x), None) => Some(x),
            (None, Some(y)) => Some(y),
            (None, None) => None,
        };
        let guards = concat_strings(a.guards, &b.guards);
        ConditionAnalysis { state_restriction: restriction, guards }
    } else {
        fallback_of(t, i)
    }
}

/// `t` without the double quotes around it, when it is quoted.
fn unquote_of(x: String) -> (r: String)
    ensures
        r@ == unquote(x@),
{
    let c = chars_of(x.as_str());
    if c.len() >= 2 && c[0] == '"' && c[c.len() - 1] == '"' {
        string_of(&c, 1, c.len() - 1)
    } else {
        x
    }
}

/// The first argument of the call at node `c`.
pub(crate) fn first_arg_of(t: &CTree, c: usize) -> (r: Option<(String, bool)>)
    requires
        t.wf(),
        c < t.ns().len(),
    ensures
        r.deep_view() == first_arg(t.s(), t.ns(), c as int),
{
    let a = match t.field(c, "arguments") {
        Some(a) => a,
        None => return None,
    };
    let kids = t.kids_of(a);
    let mut m: usize = 0;
    while m < kids.len()
        invariant
            t.wf(),
            a < t.ns().len(),
            0 <= m <= kids@.len(),
            kids@ == children(t.ns(), a as int),
            forall|k: int| 0 <= k < kids@.len() ==> a < #[trigger] kids@[k] < t.ns().len(),
            first_arg(t.s(), t.ns(), c as int) == first_arg_from(t.s(), t.ns(), a as int, m as int),
        decreases kids.len() - m,
    {
        let k = kids[m];
        if !t.kind_is(k, "(") && !t.kind_is(k, ")") && !t.kind_is(k, ",") && !t.kind_is(k, "comment") {
            let text = unquote_of(t.text(k));
            let lit = t.kind_is(k, "string_literal");
            return Some((text, lit));
        }
        m += 1;
    }
    None
}

/// The nearest proper ancestor of node `i` that is a statement.
fn parent_statement_of(t: &CTree, i: usize) -> (r: Option<usize>)
    requires
        t.wf(),
        i < t.ns().len(),
    ensures
        match r {
            Some(p) => parent_statement(t.ns(), i as int) == Some(p as int) && p < t.ns().len(),
            None => parent_statement(t.ns(), i as int) is None,
        },
{
    let suffix = chars_of("_statement");
    let mut cur = i;
    loop
        invariant
            t.wf(),
            cur < t.ns().len(),
            suffix@ == "_statement"@,
            parent_statement(t.ns(), i as int) == parent_statement(t.ns(), cur as int),
        decreases cur,
    {
        match t.parent(cur) {
            Some(p) => {
                let kc = chars_of(t.kind_of(p));
                if crate::text::ends_with_in(&kc, 0, kc.len(), &suffix) {
                    assert(kc@.subrange(0, kc@.len() as int) =~= kc@);
                    return Some(p);
                }
                assert(kc@.subrange(0, kc@.len() as int) =~= kc@);
                cur = p;
            },
            None => return None,
        }
    }
}

/// The call that the statement at node `st` makes.
fn call_in_statement_of(t: &CTree, st: usize) -> (r: Option<usize>)
    requires
        t.wf(),
        st < t.ns().len(),
    ensures
        match r {
            Some(c) => call_in_statement(t.ns(), st as int) == Some(c as int) && c < t.ns().len(),
            None => call_in_statement(t.ns(), st as int) is None,
        },
{
    if t.kind_is(st, "call_expression") {
        Some(st)
    } else if t.kind_is(st, "expression_statement") {
        t.kid_of_kind(st, "call_expression")
    } else {
        None
    }
}

/// The message of a `printf` among the siblings `kids` from position `m`.
fn printf_in_sibs_of(t: &CTree, kids: &Vec<usize>, m: usize) -> (r: Option<String>)
    requires
        t.wf(),
        forall|k: int| 0 <= k < kids@.len() ==> #[trigger] kids@[k] < t.ns().len(),
    ensures
        r.deep_view() == printf_in_sibs(t.s(), t.ns(), kids@, m as int, 0),
{
    let mut j = m;
    let mut count: usize = 0;
    while j < kids.len()
        invariant
            t.wf(),
            forall|k: int| 0 <= k < kids@.len() ==> #[trigger] kids@[k] < t.ns().len(),
            m <= j,
            count <= 4,
            printf_in_sibs(t.s(), t.ns(), kids@, m as int, 0) == printf_in_sibs(
                t.s(),
                t.ns(),
                kids@,
                j as int,
                count as int,
            ),
        decreases kids.len() - j,
    {
        if count + 1 > 4 {
            return None;
        }
        let sib = kids[j];
        if !t.kind_is(sib, "comment") {
            match call_in_statement_of(t, sib) {
                Some(call) => match t.field(call, "function") {
                    Some(f) => {
                        let fname = t.text(f);
                        if str_eq(fname.as_str(), "printf") {
                            match first_arg_of(t, call) {
                                Some((text, true)) => return Some(text),
                                _ => {},
                            }
                        }
                    },
                    None => {},
                },
                None => {},
            }
        }
        j += 1;
        count += 1;
    }
    None
}

/// The message of a `printf` shortly after the statement that holds node
/// `i`.
fn following_printf_of(t: &CTree, i: usize) -> (r: Option<String>)
    requires
        t.wf(),
        i < t.ns().len(),
    ensures
        r.deep_view() == following_printf(t.s(), t.ns(), i as int),
{
    let st = match parent_statement_of(t, i) {
        Some(st) => st,
        None => return None,
    };
    let pp = match t.parent(st) {
        Some(pp) => pp,
        None => return None,
    };
    let kids = t.kids_of(pp);
    let mut k: usize = 0;
    while k < kids.len()
        invariant
            t.wf(),
            pp < t.ns().len(),
            0 <= k <= kids@.len(),
            kids@ == children(t.ns(), pp as int),
            forall|j: int| 0 <= j < kids@.len() ==> pp < #[trigger] kids@[j] < t.ns().len(),
            st < t.ns().len(),
            parent_statement(t.ns(), i as int) == Some(st as int),
            t.ns()[st as int].parent == Some(pp),
            kid_pos(kids@, st as int, 0) == kid_pos(kids@, st as int, k as int),
        decreases kids.len() - k,
    {
        if kids[k] == st {
            return printf_in_sibs_of(t, kids, k + 1);
        }
        k += 1;
    }
    None
}


/// The variant that the condition at node `i` tests `staging` against.
fn tested_variant_of(t: &CTree, i: usize, staging: &str, vs: &Vec<String>) -> (r: Option<String>)
    requires
        t.wf(),
        i < t.ns().len(),
    ensures
        r.deep_view() == tested_variant(t.s(), t.ns(), i as int, staging@, vs.deep_view()),
    decreases t.ns().len() - i,
{
    if t.kind_is(i, "parenthesized_expression") {
        let kids = t.kids_of(i);
        let mut m: usize = 0;
        while m < kids.len()
            invariant
                t.wf(),
                i < t.ns().len(),
                0 <= m <= kids@.len(),
                kids@ == children(t.ns(), i as int),
                forall|k: int| 0 <= k < kids@.len() ==> i < #[trigger] kids@[k] < t.ns().len(),
                tested_variant(t.s(), t.ns(), i as int, staging@, vs.deep_view()) == tested_kids(
                    t.s(),
                    t.ns(),
                    i as int,
                    staging@,
                    vs.deep_view(),
                    m as int,
                ),
            decreases kids.len() - m,
        {
            let c = kids[m];
            if !t.kind_is(c, "(") && !t.kind_is(c, ")") && !t.kind_is(c, "comment") {
                match tested_variant_of(t, c, staging, vs) {
                    Some(v) => return Some(v),
                    None => {},
                }
            }
            m += 1;
        }
        return None;
    }
    if !t.kind_is(i, "binary_expression") {
        return None;
    }
    let o = match t.field(i, "operator") {
        Some(o) => o,
        None => return None,
    };
    let l = match t.field(i, "left") {
        Some(l) => l,
        None => return None,
    };
    let r = match t.field(i, "right") {
        Some(r) => r,
        None => return None,
    };
    let op = t.text(o);
    if !str_eq(op.as_str(), "==") {
        return None;
    }
    let lt = ident_or_empty_of(t, l);
    if str_eq(lt.as_str(), staging) {
        match variant_ident_of(t, r, vs) {
            Some(v) => return Some(v),
            None => {},
        }
    }
    let rt = ident_or_empty_of(t, r);
    if str_eq(rt.as_str(), staging) {
        match variant_ident_of(t, l, vs) {
            Some(v) => return Some(v),
            None => {},
        }
    }
    None
}

/// The first, in string order, of the eligible variants.
fn min_other_of(vs: &Vec<String>, tv: &str, active: &Vec<String>) -> (r: Option<String>)
    ensures
        r.deep_view() == min_other(vs.deep_view(), tv@, active.deep_view()),
{
    let mut best: Option<String> = None;
    let mut k: usize = 0;
    assert(vs.deep_view().take(0) =~= Seq::<Seq<char>>::empty());
    while k < vs.len()
        invariant
            0 <= k <= vs@.len(),
            best.deep_view() == min_other(vs.deep_view().take(k as int), tv@, active.deep_view()),
        decreases vs.len() - k,
    {
        assert(vs.deep_view().take(k + 1).drop_last() =~= vs.deep_view().take(k as int));
        assert(vs.deep_view()[k as int] == vs@[k as int]@);
        let x = &vs[k];
        let eligible = !str_eq(x.as_str(), tv) && !contains_string(active, x) && !is_initial_variant(x.as_str())
            && !is_fault_state(x.as_str());
        if eligible {
            let replace = match &best {
                Some(m) => str_lt(x.as_str(), m.as_str()),
                None => true,
            };
            if replace {
                best = Some(x.clone());
            }
        }
        k += 1;
    }
    assert(vs.deep_view().take(vs@.len() as int) =~= vs.deep_view());
    best
}

/// A branch on the staging variable to `v`.
fn staged_of(staging: &str, v: &str) -> (r: (String, String, String))
    ensures
        r.deep_view() == staged(staging@, v@),
{
    let short = match strip_variant_prefix(v) {
        Some(x) => x,
        None => owned(v),
    };
    (owned(v), concat3(staging, " == ", v), concat3(staging, " is ", short.as_str()))
}

/// Appends `b` to `out`.
fn append_branches(out: &mut Vec<(String, String, String)>, b: Vec<(String, String, String)>)
    ensures
        final(out).deep_view() == old(out).deep_view() + b.deep_view(),
{
    let ghost start = out.deep_view();
    let mut b = b;
    let ghost bv = b.deep_view();
    let mut rest: Vec<(String, String, String)> = Vec::new();
    while b.len() > 0
        invariant
            bv == b.deep_view() + rest.deep_view(),
        decreases b.len(),
    {
        let ghost before_b = b.deep_view();
        let ghost before_r = rest.deep_view();
        let x = b.pop().unwrap();
        rest.insert(0, x);
        assert(b.deep_view() =~= before_b.drop_last());
        assert(rest.deep_view() =~= seq![before_b.last()] + before_r);
        assert(bv =~= b.deep_view() + rest.deep_view());
    }
    assert(rest.deep_view() =~= bv);
    let mut k: usize = 0;
    while k < rest.len()
        invariant
            0 <= k <= rest@.len(),
            rest.deep_view() == bv,
            out.deep_view() == start + bv.take(k as int),
        decreases rest.len() - k,
    {
        let ghost before = out.deep_view();
        let x = (rest[k].0.clone(), rest[k].1.clone(), rest[k].2.clone());
        assert(x.deep_view() == bv[k as int]);
        out.push(x);
        assert(out.deep_view() =~= before.push(bv[k as int]));
        assert(bv.take(k + 1) =~= bv.take(k as int).push(bv[k as int]));
        k += 1;
    }
    assert(bv.take(rest@.len() as int) =~= bv);
}

/// The branches on the staging variable among the `if` children of `b`.
#[verifier::rlimit(40)]
fn staging_kids_of(t: &CTree, b: usize, staging: &str, vs: &Vec<String>, active: &Vec<String>) -> (r: Vec<
    (String, String, String),
>)
    requires
        t.wf(),
        b < t.ns().len(),
    ensures
        r.deep_view() == staging_kids(t.s(), t.ns(), b as int, 0, staging@, vs.deep_view(), active.deep_view()),
    decreases t.ns().len() - b,
{
    let ghost want = staging_kids(t.s(), t.ns(), b as int, 0, staging@, vs.deep_view(), active.deep_view());
    let mut out: Vec<(String, String, String)> = Vec::new();
    let kids = t.kids_of(b);
    let mut m: usize = 0;
    while m < kids.len()
        invariant
            t.wf(),
            b < t.ns().len(),
            0 <= m <= kids@.len(),
            kids@ == children(t.ns(), b as int),
            forall|k: int| 0 <= k < kids@.len() ==> b < #[trigger] kids@[k] < t.ns().len(),
            want == staging_kids(t.s(), t.ns(), b as int, 0, staging@, vs.deep_view(), active.deep_view()),
            out.deep_view() + staging_kids(t.s(), t.ns(), b as int, m as int, staging@, vs.deep_view(), active.deep_view())
                == want,
        decreases kids.len() - m,
    {
        let c = kids[m];
        let ghost before = out.deep_view();
        let mut here: Vec<(String, String, String)> = Vec::new();
        if t.kind_is(c, "if_statement") {
            match t.field(c, "condition") {
                Some(cond) => match tested_variant_of(t, cond, staging, vs) {
                    Some(tv) => {
                        here.push(staged_of(staging, tv.as_str()));
                        match t.field(c, "alternative") {
                            Some(alt) => {
                                let chained = if t.kind_is(alt, "if_statement") {
                                    Some(alt)
                                } else {
                                    t.kid_of_kind(alt, "if_statement")
                                };
                                match chained {
                                    Some(e) => {
                                        let more = staging_kids_of(t, e, staging, vs, active);
                                        append_branches(&mut here, more);
                                    },
                                    None => match min_other_of(vs, tv.as_str(), active) {
                                        Some(o) => {
                                            here.push(staged_of(staging, o.as_str()));
                                        },
                                        None => {},
                                    },
                                }
                            },
                            None => {},
                        }
                    },
                    None => {},
                },
                None => {},
            }
        }
        append_branches(&mut out, here);
        assert(before + staging_kids(t.s(), t.ns(), b as int, m as int, staging@, vs.deep_view(), active.deep_view())
            =~= out.deep_view() + staging_kids(
            t.s(),
            t.ns(),
            b as int,
            m + 1,
            staging@,
            vs.deep_view(),
            active.deep_view(),
        ));
        m += 1;
    }
    assert(out.deep_view() + staging_kids(t.s(), t.ns(), b as int, m as int, staging@, vs.deep_view(), active.deep_view())
        =~= out.deep_view());
    out
}

/// The branches on the staging variable in the nearest block or case from
/// node `p` up that has any.
fn staging_up_of(t: &CTree, p: usize, staging: &str, vs: &Vec<String>, active: &Vec<String>) -> (r: Vec<
    (String, String, String),
>)
    requires
        t.wf(),
        p < t.ns().len(),
    ensures
        r.deep_view() == staging_up(t.s(), t.ns(), p as int, staging@, vs.deep_view(), active.deep_view()),
    decreases p,
{
    let here = if t.kind_is(p, "compound_statement") || t.kind_is(p, "case_statement") {
        staging_kids_of(t, p, staging, vs, active)
    } else {
        let e: Vec<(String, String, String)> = Vec::new();
        assert(e.deep_view() =~= Seq::<(Seq<char>, Seq<char>, Seq<char>)>::empty());
        e
    };
    if here.len() > 0 {
        return here;
    }
    if t.kind_is(p, "function_definition") {
        let e: Vec<(String, String, String)> = Vec::new();
        assert(e.deep_view() =~= Seq::<(Seq<char>, Seq<char>, Seq<char>)>::empty());
        return e;
    }
    match t.parent(p) {
        Some(q) => staging_up_of(t, q, staging, vs, active),
        None => {
            let e: Vec<(String, String, String)> = Vec::new();
            assert(e.deep_view() =~= Seq::<(Seq<char>, Seq<char>, Seq<char>)>::empty());
            e
        },
    }
}

/// `trs` already has a transition from `from` to `to` labelled `label`.
fn has_transition_in(trs: &Vec<AppTransition>, from: &str, to: &str, label: &str) -> (b: bool)
    ensures
        b == has_transition(transitions_view(trs@), from@, to@, label@),
{
    let ghost tv = transitions_view(trs@);
    let mut k: usize = 0;
    while k < trs.len()
        invariant
            0 <= k <= trs@.len(),
            tv == transitions_view(trs@),
            forall|j: int| 0 <= j < k ==> !(#[trigger] tv[j].from == from@ && tv[j].to == to@ && tv[j].label == label@),
        decreases trs.len() - k,
    {
        if str_eq(trs[k].from.as_str(), from) && str_eq(trs[k].to.as_str(), to) && str_eq(trs[k].label.as_str(), label) {
            assert(tv[k as int].from == from@);
            return true;
        }
        k += 1;
    }
    false
}

/// Adds a direct transition from `from` for each branch of `br` that
/// `trs` does not have yet.
fn add_from_into(trs: &mut Vec<AppTransition>, from: &str, br: &Vec<(String, String, String)>, line: usize)
    ensures
        transitions_view(final(trs)@) == add_from(transitions_view(old(trs)@), from@, br.deep_view(), line as int),
{
    let ghost start = transitions_view(trs@);
    let mut k: usize = 0;
    assert(br.deep_view().take(0) =~= Seq::<(Seq<char>, Seq<char>, Seq<char>)>::empty());
    while k < br.len()
        invariant
            0 <= k <= br@.len(),
            transitions_view(trs@) == add_from(start, from@, br.deep_view().take(k as int), line as int),
        decreases br.len() - k,
    {
        assert(br.deep_view().take(k + 1).drop_last() =~= br.deep_view().take(k as int));
        assert(br.deep_view()[k as int] == (br@[k as int].0@, br@[k as int].1@, br@[k as int].2@));
        if !has_transition_in(trs, from, br[k].0.as_str(), br[k].2.as_str()) {
            let ghost before = transitions_view(trs@);
            trs.push(
                AppTransition {
                    from: owned(from),
                    to: br[k].0.clone(),
                    guard: br[k].1.clone(),
                    label: br[k].2.clone(),
                    is_fault: false,
                    transition_type: TransitionType::Direct,
                    line,
                },
            );
            assert(transitions_view(trs@) =~= before.push(
                TransitionSpec {
                    from: from@,
                    to: br.deep_view()[k as int].0,
                    guard: br.deep_view()[k as int].1,
                    label: br.deep_view()[k as int].2,
                    is_fault: false,
                    transition_type: TransitionTypeView::Direct,
                    line: line as int,
                },
            ));
        }
        k += 1;
    }
    assert(br.deep_view().take(br@.len() as int) =~= br.deep_view());
}

/// `add_from_into` for each state of `froms` in turn.
fn add_staged_into(trs: &mut Vec<AppTransition>, froms: &Vec<String>, br: &Vec<(String, String, String)>, line: usize)
    ensures
        transitions_view(final(trs)@) == add_staged(transitions_view(old(trs)@), froms.deep_view(), br.deep_view(), line as int),
{
    let ghost start = transitions_view(trs@);
    let mut k: usize = 0;
    assert(froms.deep_view().take(0) =~= Seq::<Seq<char>>::empty());
    while k < froms.len()
        invariant
            0 <= k <= froms@.len(),
            transitions_view(trs@) == add_staged(start, froms.deep_view().take(k as int), br.deep_view(), line as int),
        decreases froms.len() - k,
    {
        assert(froms.deep_view().take(k + 1).drop_last() =~= froms.deep_view().take(k as int));
        assert(froms.deep_view()[k as int] == froms@[k as int]@);
        add_from_into(trs, froms[k].as_str(), br, line);
        k += 1;
    }
    assert(froms.deep_view().take(froms@.len() as int) =~= froms.deep_view());
}


/// Where the walk stands.
pub struct WalkContext {
    pub active_states: Option<Vec<String>>,
    pub guards: Vec<String>,
    pub has_local_fault: bool,
}

impl View for WalkContext {
    type V = CtxSpec;

    open spec fn view(&self) -> CtxSpec {
        CtxSpec {
            active: self.active_states.deep_view(),
            guards: self.guards.deep_view(),
            has_local_fault: self.has_local_fault,
        }
    }
}

/// A copy of a context.
fn copy_ctx(c: &WalkContext) -> (r: WalkContext)
    ensures
        r@ == c@,
{
    WalkContext {
        active_states: match &c.active_states {
            Some(v) => Some(copy_strings(v)),
            None => None,
        },
        guards: copy_strings(&c.guards),
        has_local_fault: c.has_local_fault,
    }
}

/// The label of an assignment of `tv` under the guard `g`.
fn assignment_label_of(g: &str, tv: &str, fp: &Option<String>) -> (r: String)
    ensures
        r@ == assignment_label(g@, tv@, fp.deep_view()),
{
    match extract_command_string(g) {
        Some(cmd) => concat_str("CMD: ", cmd.as_str()),
        None => match fp {
            Some(msg) => if !is_fault_state(tv) && differs_meaningfully(msg.as_str(), tv) {
                clean_printf_literal(msg.as_str())
            } else {
                prettify_guard(g)
            },
            None => prettify_guard(g),
        },
    }
}

/// The type of a direct assignment under the guard `g`.
fn assignment_type_of(g: &str) -> (r: TransitionType)
    ensures
        r@ == assignment_type(g@),
{
    if contains_str(g, "cmd") || contains_str(g, "strcmp") {
        TransitionType::EventTriggered
    } else {
        TransitionType::Direct
    }
}

/// Checks the assignment at node `i`.
fn check_assignment_into(
    t: &CTree,
    i: usize,
    ctx: &WalkContext,
    var: &str,
    vs: &Vec<String>,
    trs: &mut Vec<AppTransition>,
    ambs: &mut Vec<AmbiguousTransition>,
)
    requires
        t.wf(),
        i < t.ns().len(),
    ensures
        (transitions_view(final(trs)@), ambiguous_view(final(ambs)@)) == check_assignment(
            t.s(),
            t.ns(),
            i as int,
            ctx@,
            var@,
            vs.deep_view(),
            (transitions_view(old(trs)@), ambiguous_view(old(ambs)@)),
        ),
{
    let ghost t0 = transitions_view(trs@);
    let ghost a0 = ambiguous_view(ambs@);
    let l = match t.field(i, "left") {
        Some(l) => l,
        None => return,
    };
    let r = match t.field(i, "right") {
        Some(r) => r,
        None => return,
    };
    match target_ident_of(t, l) {
        Some(x) => if !str_eq(x.as_str(), var) {
            return;
        },
        None => return,
    }
    match variant_ident_of(t, r, vs) {
        Some(tv) => {
            let line = t.line(i);
            let g = join_strings(&ctx.guards, " && ");
            let fp = following_printf_of(t, i);
            let label = assignment_label_of(g.as_str(), tv.as_str(), &fp);
            match &ctx.active_states {
                Some(states) => if states.len() == 0 {
                    ambs.push(
                        AmbiguousTransition {
                            target: tv,
                            guard: g,
                            line,
                            note: concat3("Assignment to ", var, " outside known state guard"),
                        },
                    );
                } else {
                    let is_fault = is_fault_state(tv.as_str());
                    let ghost want = states.deep_view().map_values(
                        |from: Seq<char>|
                            TransitionSpec {
                                from,
                                to: tv@,
                                guard: g@,
                                label: label@,
                                is_fault: fault_name(tv@),
                                transition_type: assignment_type(g@),
                                line: line as int,
                            },
                    );
                    let mut k: usize = 0;
                    while k < states.len()
                        invariant
                            0 <= k <= states@.len(),
                            is_fault == fault_name(tv@),
                            want == states.deep_view().map_values(
                                |from: Seq<char>|
                                    TransitionSpec {
                                        from,
                                        to: tv@,
                                        guard: g@,
                                        label: label@,
                                        is_fault: fault_name(tv@),
                                        transition_type: assignment_type(g@),
                                        line: line as int,
                                    },
                            ),
                            transitions_view(trs@) == t0 + want.take(k as int),
                            ambiguous_view(ambs@) == a0,
                        decreases states.len() - k,
                    {
                        let ghost before = transitions_view(trs@);
                        assert(states.deep_view()[k as int] == states@[k as int]@);
                        trs.push(
                            AppTransition {
                                from: states[k].clone(),
                                to: tv.clone(),
                                guard: g.clone(),
                                label: label.clone(),
                                is_fault,
                                transition_type: assignment_type_of(g.as_str()),
                                line,
                            },
                        );
                        assert(transitions_view(trs@) =~= before.push(want[k as int]));
                        assert(want.take(k + 1) =~= want.take(k as int).push(want[k as int]));
                        k += 1;
                    }
                    assert(want.take(states@.len() as int) =~= want);
                },
                None => {
                    ambs.push(
                        AmbiguousTransition {
                            target: tv,
                            guard: g,
                            line,
                            note: concat3("Assignment to ", var, " with no enclosing state check"),
                        },
                    );
                },
            }
        },
        None => match target_ident_of(t, r) {
            Some(ri) => if !str_eq(ri.as_str(), var) {
                resolve_assignment_into(t, i, ctx, ri.as_str(), vs, trs);
            },
            None => {},
        },
    }
}

/// `var = staging;` in a state: the transitions of the staging branches.
fn resolve_assignment_into(
    t: &CTree,
    i: usize,
    ctx: &WalkContext,
    staging: &str,
    vs: &Vec<String>,
    trs: &mut Vec<AppTransition>,
)
    requires
        t.wf(),
        i < t.ns().len(),
    ensures
        transitions_view(final(trs)@) == resolve_assignment(
            t.s(),
            t.ns(),
            i as int,
            ctx@,
            staging@,
            vs.deep_view(),
            transitions_view(old(trs)@),
        ),
{
    match &ctx.active_states {
        Some(act) => if act.len() > 0 {
            let br = match t.parent(i) {
                Some(p) => staging_up_of(t, p, staging, vs, act),
                None => {
                    let e: Vec<(String, String, String)> = Vec::new();
                    assert(e.deep_view() =~= Seq::<(Seq<char>, Seq<char>, Seq<char>)>::empty());
                    e
                },
            };
            let line = t.line(i);
            add_staged_into(trs, act, &br, line);
        },
        None => {},
    }
}

/// The transitions of one target of a helper call.
fn per_target_into(
    ctx: &WalkContext,
    target: &str,
    full: &str,
    base: &str,
    arg: &Option<(String, bool)>,
    name: &str,
    line: usize,
    trs: &mut Vec<AppTransition>,
)
    ensures
        transitions_view(final(trs)@) == transitions_view(old(trs)@) + per_target(
            ctx@,
            target@,
            full@,
            base@,
            arg.deep_view(),
            name@,
            line as int,
        ),
{
    let ghost start = transitions_view(trs@);
    let is_fault = is_fault_state(target);
    let lit = match arg {
        Some(a) => a.1,
        None => false,
    };
    let label = if (str_eq(name, "fault") || is_fault) && lit {
        match arg {
            Some(a) => a.0.clone(),
            None => String::new(),
        }
    } else {
        match extract_command_string(base) {
            Some(cmd) => concat_str("CMD: ", cmd.as_str()),
            None => prettify_guard(base),
        }
    };
    let arg_text: Option<String> = match arg {
        Some(a) => Some(a.0.clone()),
        None => None,
    };
    let ghost ty = TransitionTypeView::IndirectHelper { helper_name: name@, argument: arg_text.deep_view() };
    let ghost want = per_target(ctx@, target@, full@, base@, arg.deep_view(), name@, line as int);
    match &ctx.active_states {
        Some(states) => if states.len() > 0 {
            let mut k: usize = 0;
            while k < states.len()
                invariant
                    0 <= k <= states@.len(),
                    states.deep_view().len() == states@.len(),
                    want == states.deep_view().map_values(
                        |from: Seq<char>|
                            TransitionSpec {
                                from,
                                to: target@,
                                guard: full@,
                                label: label@,
                                is_fault,
                                transition_type: ty,
                                line: line as int,
                            },
                    ),
                    ty == (TransitionTypeView::IndirectHelper { helper_name: name@, argument: arg_text.deep_view() }),
                    transitions_view(trs@) == start + want.take(k as int),
                decreases states.len() - k,
            {
                let ghost before = transitions_view(trs@);
                assert(states.deep_view()[k as int] == states@[k as int]@);
                trs.push(
                    AppTransition {
                        from: states[k].clone(),
                        to: owned(target),
                        guard: owned(full),
                        label: label.clone(),
                        is_fault,
                        transition_type: TransitionType::IndirectHelper {
                            helper_name: owned(name),
                            argument: match &arg_text {
                                Some(a) => Some(a.clone()),
                                None => None,
                            },
                        },
                        line,
                    },
                );
                assert(transitions_view(trs@) =~= before.push(want[k as int]));
                assert(want.take(k + 1) =~= want.take(k as int).push(want[k as int]));
                k += 1;
            }
            assert(want.take(states@.len() as int) =~= want);
            return;
        },
        None => {},
    }
    trs.push(
        AppTransition {
            from: owned("(any state)"),
            to: owned(target),
            guard: owned(full),
            label,
            is_fault,
            transition_type: TransitionType::IndirectHelper { helper_name: owned(name), argument: arg_text },
            line,
        },
    );
    assert(transitions_view(trs@) =~= start + want);
}

/// Checks the call at node `i`.
fn check_helper_call_into(
    t: &CTree,
    i: usize,
    ctx: &WalkContext,
    hs: &Vec<(String, Vec<String>)>,
    trs: &mut Vec<AppTransition>,
)
    requires
        t.wf(),
        i < t.ns().len(),
    ensures
        transitions_view(final(trs)@) == check_helper_call(
            t.s(),
            t.ns(),
            i as int,
            ctx@,
            hs.deep_view(),
            transitions_view(old(trs)@),
        ),
{
    let ghost start = transitions_view(trs@);
    let fc = match t.field(i, "function") {
        Some(fc) => fc,
        None => return,
    };
    let name = t.text(fc);
    let line = t.line(i);
    let arg = first_arg_of(t, i);
    let tag = match &arg {
        Some(a) => concat3(name.as_str(), ": ", a.0.as_str()),
        None => concat_str(name.as_str(), "()"),
    };
    let base = join_strings(&ctx.guards, " && ");
    let full = if base.as_str().unicode_len() == 0 {
        tag
    } else {
        let x = concat3(base.as_str(), " [", tag.as_str());
        concat_str(x.as_str(), "]")
    };
    match helper_find(hs, name.as_str()) {
        Some(hi) => {
            let targets = &hs[hi].1;
            let ghost tv = targets.deep_view();
            let mut k: usize = 0;
            assert(tv.take(0) =~= Seq::<Seq<char>>::empty());
            while k < targets.len()
                invariant
                    0 <= k <= targets@.len(),
                    tv == targets.deep_view(),
                    transitions_view(trs@) == start + targets_concat(
                        ctx@,
                        tv.take(k as int),
                        full@,
                        base@,
                        arg.deep_view(),
                        name@,
                        line as int,
                    ),
                decreases targets.len() - k,
            {
                assert(tv.take(k + 1).drop_last() =~= tv.take(k as int));
                assert(tv[k as int] == targets@[k as int]@);
                let ghost before = transitions_view(trs@);
                per_target_into(ctx, targets[k].as_str(), full.as_str(), base.as_str(), &arg, name.as_str(), line, trs);
                assert(transitions_view(trs@) =~= start + targets_concat(
                    ctx@,
                    tv.take(k + 1),
                    full@,
                    base@,
                    arg.deep_view(),
                    name@,
                    line as int,
                ));
                k += 1;
            }
            assert(tv.take(targets@.len() as int) =~= tv);
        },
        None => {
            match &ctx.active_states {
                Some(states) => if !ctx.has_local_fault && is_fault_coordinator_name(name.as_str()) && states.len()
                    > 0 {
                    let label = match &arg {
                        Some(a) => a.0.clone(),
                        None => prettify_guard(base.as_str()),
                    };
                    let arg_text: Option<String> = match &arg {
                        Some(a) => Some(a.0.clone()),
                        None => None,
                    };
                    let ghost ty = TransitionTypeView::IndirectHelper {
                        helper_name: name@,
                        argument: arg_text.deep_view(),
                    };
                    let ghost want = states.deep_view().map_values(
                        |from: Seq<char>|
                            TransitionSpec {
                                from,
                                to: "SYSTEM FAULT"@,
                                guard: full@,
                                label: label@,
                                is_fault: true,
                                transition_type: ty,
                                line: line as int,
                            },
                    );
                    let mut k: usize = 0;
                    while k < states.len()
                        invariant
                            0 <= k <= states@.len(),
                            want == states.deep_view().map_values(
                                |from: Seq<char>|
                                    TransitionSpec {
                                        from,
                                        to: "SYSTEM FAULT"@,
                                        guard: full@,
                                        label: label@,
                                        is_fault: true,
                                        transition_type: ty,
                                        line: line as int,
                                    },
                            ),
                            ty == (TransitionTypeView::IndirectHelper {
                                helper_name: name@,
                                argument: arg_text.deep_view(),
                            }),
                            transitions_view(trs@) == start + want.take(k as int),
                        decreases states.len() - k,
                    {
                        let ghost before = transitions_view(trs@);
                        assert(states.deep_view()[k as int] == states@[k as int]@);
                        trs.push(
                            AppTransition {
                                from: states[k].clone(),
                                to: owned("SYSTEM FAULT"),
                                guard: full.clone(),
                                label: label.clone(),
                                is_fault: true,
                                transition_type: TransitionType::IndirectHelper {
                                    helper_name: name.clone(),
                                    argument: match &arg_text {
                                        Some(a) => Some(a.clone()),
                                        None => None,
                                    },
                                },
                                line,
                            },
                        );
                        assert(transitions_view(trs@) =~= before.push(want[k as int]));
                        assert(want.take(k + 1) =~= want.take(k as int).push(want[k as int]));
                        k += 1;
                    }
                    assert(want.take(states@.len() as int) =~= want);
                },
                None => {},
            }
        },
    }
}


/// Walks the statement at node `i`.
fn walk_into(
    t: &CTree,
    i: usize,
    ctx: &WalkContext,
    var: &str,
    vs: &Vec<String>,
    hs: &Vec<(String, Vec<String>)>,
    trs: &mut Vec<AppTransition>,
    ambs: &mut Vec<AmbiguousTransition>,
)
    requires
        t.wf(),
        i < t.ns().len(),
    ensures
        (transitions_view(final(trs)@), ambiguous_view(final(ambs)@)) == walk(
            t.s(),
            t.ns(),
            i as int,
            ctx@,
            var@,
            vs.deep_view(),
            hs.deep_view(),
            (transitions_view(old(trs)@), ambiguous_view(old(ambs)@)),
        ),
    decreases t.ns().len() - i, 2int,
{
    if t.kind_is(i, "if_statement") {
        let ca = match t.field(i, "condition") {
            Some(c) => analyze_of(t, c, var, vs),
            None => {
                let res = ConditionAnalysis { state_restriction: None, guards: Vec::new() };
                assert(res@.guards =~= Seq::<Seq<char>>::empty());
                res
            },
        };
        match t.field(i, "consequence") {
            Some(q) => {
                let inner = branch_ctx_of(ctx, &ca);
                walk_into(t, q, &inner, var, vs, hs, trs, ambs);
            },
            None => {},
        }
        match t.field(i, "alternative") {
            Some(a) => {
                walk_into(t, a, ctx, var, vs, hs, trs, ambs);
            },
            None => {},
        }
    } else if t.kind_is(i, "switch_statement") {
        let on_var = match t.field(i, "condition") {
            Some(c) => {
                let g = clean_guard_text(t.text(c).as_str());
                str_eq(g.as_str(), var)
            },
            None => false,
        };
        match t.field(i, "body") {
            Some(b) => {
                switch_items_into(t, b, ctx, var, vs, hs, on_var, trs, ambs);
            },
            None => {},
        }
    } else if t.kind_is(i, "assignment_expression") {
        check_assignment_into(t, i, ctx, var, vs, trs, ambs);
    } else if t.kind_is(i, "call_expression") {
        check_helper_call_into(t, i, ctx, hs, trs);
    } else {
        walk_kids_into(t, i, ctx, var, vs, hs, trs, ambs);
    }
}

/// The context inside the consequence of an `if`.
fn branch_ctx_of(ctx: &WalkContext, ca: &ConditionAnalysis) -> (r: WalkContext)
    ensures
        r@ == branch_ctx(ctx@, ca@),
{
    let active = match &ca.state_restriction {
        Some(x) => Some(copy_strings(x)),
        None => match &ctx.active_states {
            Some(x) => Some(copy_strings(x)),
            None => None,
        },
    };
    let mut guards = copy_strings(&ctx.guards);
    let ghost start = guards.deep_view();
    let mut k: usize = 0;
    assert(ca.guards.deep_view().take(0) =~= Seq::<Seq<char>>::empty());
    while k < ca.guards.len()
        invariant
            0 <= k <= ca.guards@.len(),
            guards.deep_view() == start + keep_nonempty(ca.guards.deep_view().take(k as int)),
        decreases ca.guards.len() - k,
    {
        assert(ca.guards.deep_view().take(k + 1).drop_last() =~= ca.guards.deep_view().take(k as int));
        assert(ca.guards.deep_view()[k as int] == ca.guards@[k as int]@);
        let ghost before = guards.deep_view();
        if ca.guards[k].as_str().unicode_len() > 0 {
            guards.push(ca.guards[k].clone());
            assert(guards.deep_view() =~= before.push(ca.guards.deep_view()[k as int]));
        }
        assert(guards.deep_view() =~= start + keep_nonempty(ca.guards.deep_view().take(k + 1)));
        k += 1;
    }
    assert(ca.guards.deep_view().take(ca.guards@.len() as int) =~= ca.guards.deep_view());
    WalkContext { active_states: active, guards, has_local_fault: ctx.has_local_fault }
}

/// Walks the children of node `i` in the same context.
fn walk_kids_into(
    t: &CTree,
    i: usize,
    ctx: &WalkContext,
    var: &str,
    vs: &Vec<String>,
    hs: &Vec<(String, Vec<String>)>,
    trs: &mut Vec<AppTransition>,
    ambs: &mut Vec<AmbiguousTransition>,
)
    requires
        t.wf(),
        i < t.ns().len(),
    ensures
        (transitions_view(final(trs)@), ambiguous_view(final(ambs)@)) == walk_kids(
            t.s(),
            t.ns(),
            i as int,
            0,
            ctx@,
            var@,
            vs.deep_view(),
            hs.deep_view(),
            (transitions_view(old(trs)@), ambiguous_view(old(ambs)@)),
        ),
    decreases t.ns().len() - i, 0int,
{
    let ghost want = walk_kids(
        t.s(),
        t.ns(),
        i as int,
        0,
        ctx@,
        var@,
        vs.deep_view(),
        hs.deep_view(),
        (transitions_view(trs@), ambiguous_view(ambs@)),
    );
    let kids = t.kids_of(i);
    let mut m: usize = 0;
    while m < kids.len()
        invariant
            t.wf(),
            i < t.ns().len(),
            0 <= m <= kids@.len(),
            kids@ == children(t.ns(), i as int),
            forall|k: int| 0 <= k < kids@.len() ==> i < #[trigger] kids@[k] < t.ns().len(),
            want == walk_kids(
                t.s(),
                t.ns(),
                i as int,
                m as int,
                ctx@,
                var@,
                vs.deep_view(),
                hs.deep_view(),
                (transitions_view(trs@), ambiguous_view(ambs@)),
            ),
        decreases kids.len() - m,
    {
        walk_into(t, kids[m], ctx, var, vs, hs, trs, ambs);
        m += 1;
    }
}

/// Walks the items of the `switch` body `b`.
fn switch_items_into(
    t: &CTree,
    b: usize,
    ctx: &WalkContext,
    var: &str,
    vs: &Vec<String>,
    hs: &Vec<(String, Vec<String>)>,
    on_var: bool,
    trs: &mut Vec<AppTransition>,
    ambs: &mut Vec<AmbiguousTransition>,
)
    requires
        t.wf(),
        b < t.ns().len(),
    ensures
        (transitions_view(final(trs)@), ambiguous_view(final(ambs)@)) == switch_items(
            t.s(),
            t.ns(),
            b as int,
            0,
            ctx@,
            var@,
            vs.deep_view(),
            hs.deep_view(),
            on_var,
            None,
            (transitions_view(old(trs)@), ambiguous_view(old(ambs)@)),
        ),
    decreases t.ns().len() - b, 1int,
{
    let ghost want = switch_items(
        t.s(),
        t.ns(),
        b as int,
        0,
        ctx@,
        var@,
        vs.deep_view(),
        hs.deep_view(),
        on_var,
        None,
        (transitions_view(trs@), ambiguous_view(ambs@)),
    );
    let mut cur: Option<Vec<String>> = None;
    let kids = t.kids_of(b);
    let mut m: usize = 0;
    while m < kids.len()
        invariant
            t.wf(),
            b < t.ns().len(),
            0 <= m <= kids@.len(),
            kids@ == children(t.ns(), b as int),
            forall|k: int| 0 <= k < kids@.len() ==> b < #[trigger] kids@[k] < t.ns().len(),
            want == switch_items(
                t.s(),
                t.ns(),
                b as int,
                m as int,
                ctx@,
                var@,
                vs.deep_view(),
                hs.deep_view(),
                on_var,
                cur.deep_view(),
                (transitions_view(trs@), ambiguous_view(ambs@)),
            ),
        decreases kids.len() - m,
    {
        let c = kids[m];
        if t.kind_is(c, "case_statement") && on_var {
            match t.field(c, "value") {
                Some(v) => {
                    let vt = t.text(v);
                    if contains_string(vs, &vt) {
                        let mut one: Vec<String> = Vec::new();
                        let ghost vv = vt@;
                        one.push(vt);
                        assert(one.deep_view() =~= seq![vv]);
                        cur = Some(one);
                    }
                },
                None => {},
            }
        }
        let inner = match &cur {
            Some(x) => WalkContext {
                active_states: Some(copy_strings(x)),
                guards: copy_strings(&ctx.guards),
                has_local_fault: ctx.has_local_fault,
            },
            None => copy_ctx(ctx),
        };
        walk_into(t, c, &inner, var, vs, hs, trs, ambs);
        m += 1;
    }
}

/// Walks the bodies of the functions `fns` that are not helpers.
fn walk_functions_into(
    t: &CTree,
    fns: &Vec<usize>,
    ctx: &WalkContext,
    var: &str,
    vs: &Vec<String>,
    hs: &Vec<(String, Vec<String>)>,
    trs: &mut Vec<AppTransition>,
    ambs: &mut Vec<AmbiguousTransition>,
)
    requires
        t.wf(),
        forall|k: int| 0 <= k < fns@.len() ==> #[trigger] fns@[k] < t.ns().len(),
    ensures
        (transitions_view(final(trs)@), ambiguous_view(final(ambs)@)) == walk_functions(
            t.s(),
            t.ns(),
            fns@,
            ctx@,
            var@,
            vs.deep_view(),
            hs.deep_view(),
            (transitions_view(old(trs)@), ambiguous_view(old(ambs)@)),
        ),
{
    let ghost start = (transitions_view(trs@), ambiguous_view(ambs@));
    let mut k: usize = 0;
    assert(fns@.take(0) =~= Seq::<usize>::empty());
    while k < fns.len()
        invariant
            t.wf(),
            0 <= k <= fns@.len(),
            forall|j: int| 0 <= j < fns@.len() ==> #[trigger] fns@[j] < t.ns().len(),
            (transitions_view(trs@), ambiguous_view(ambs@)) == walk_functions(
                t.s(),
                t.ns(),
                fns@.take(k as int),
                ctx@,
                var@,
                vs.deep_view(),
                hs.deep_view(),
                start,
            ),
        decreases fns.len() - k,
    {
        assert(fns@.take(k + 1).drop_last() =~= fns@.take(k as int));
        let f = fns[k];
        let is_helper = match fn_name_of(t, f) {
            Some(n) => helper_find(hs, n.as_str()).is_some(),
            None => false,
        };
        if !is_helper {
            match t.field(f, "body") {
                Some(b) => {
                    walk_into(t, b, ctx, var, vs, hs, trs, ambs);
                },
                None => {},
            }
        }
        k += 1;
    }
    assert(fns@.take(fns@.len() as int) =~= fns@);
}


/// Appends the states that the subtree at node `i` compares `var` with.
fn queried_into(t: &CTree, i: usize, var: &str, vs: &Vec<String>, out: &mut Vec<String>)
    requires
        t.wf(),
        i < t.ns().len(),
    ensures
        final(out).deep_view() == old(out).deep_view() + subtree_collect(
            t.ns(),
            i as int,
            queried_pick(t.s(), t.ns(), var@, vs.deep_view()),
            no_stop(),
        ),
    decreases t.ns().len() - i,
{
    let ghost start = out.deep_view();
    let ghost f = queried_pick(t.s(), t.ns(), var@, vs.deep_view());
    let ghost st = no_stop();
    if t.kind_is(i, "binary_expression") {
        match (t.field(i, "left"), t.field(i, "operator"), t.field(i, "right")) {
            (Some(l), Some(o), Some(r)) => {
                let op = t.text(o);
                if str_eq(op.as_str(), "==") {
                    let lt = clean_guard_text(t.text(l).as_str());
                    let rt = clean_guard_text(t.text(r).as_str());
                    if str_eq(lt.as_str(), var) && contains_string(vs, &rt) {
                        out.push(rt);
                    } else if str_eq(rt.as_str(), var) && contains_string(vs, &lt) {
                        out.push(lt);
                    }
                }
            },
            _ => {},
        }
    }
    assert(out.deep_view() =~= start + f(i as int));
    let kids = t.kids_of(i);
    let mut m: usize = 0;
    while m < kids.len()
        invariant
            t.wf(),
            i < t.ns().len(),
            f == queried_pick(t.s(), t.ns(), var@, vs.deep_view()),
            st == no_stop(),
            0 <= m <= kids@.len(),
            kids@ == children(t.ns(), i as int),
            forall|k: int| 0 <= k < kids@.len() ==> i < #[trigger] kids@[k] < t.ns().len(),
            out.deep_view() + kids_collect(t.ns(), i as int, m as int, f, st) == start + subtree_collect(
                t.ns(),
                i as int,
                f,
                st,
            ),
        decreases kids.len() - m,
    {
        let ghost before = out.deep_view();
        queried_into(t, kids[m], var, vs, out);
        assert(before + kids_collect(t.ns(), i as int, m as int, f, st) =~= out.deep_view() + kids_collect(
            t.ns(),
            i as int,
            m + 1,
            f,
            st,
        ));
        m += 1;
    }
    assert(out.deep_view() + kids_collect(t.ns(), i as int, m as int, f, st) =~= out.deep_view());
}

/// The query functions among `fns`.
fn query_functions_of(t: &CTree, fns: &Vec<usize>, var: &str, vs: &Vec<String>) -> (r: Vec<(String, Vec<String>)>)
    requires
        t.wf(),
        forall|k: int| 0 <= k < fns@.len() ==> #[trigger] fns@[k] < t.ns().len(),
    ensures
        r.deep_view() == query_functions(t.s(), t.ns(), fns@, var@, vs.deep_view()),
{
    let mut qf: Vec<(String, Vec<String>)> = Vec::new();
    let mut k: usize = 0;
    assert(fns@.take(0) =~= Seq::<usize>::empty());
    assert(qf.deep_view() =~= Seq::<(Seq<char>, Seq<Seq<char>>)>::empty());
    while k < fns.len()
        invariant
            t.wf(),
            0 <= k <= fns@.len(),
            forall|j: int| 0 <= j < fns@.len() ==> #[trigger] fns@[j] < t.ns().len(),
            qf.deep_view() == query_functions(t.s(), t.ns(), fns@.take(k as int), var@, vs.deep_view()),
        decreases fns.len() - k,
    {
        assert(fns@.take(k + 1).drop_last() =~= fns@.take(k as int));
        let f = fns[k];
        match fn_name_of(t, f) {
            Some(n) => {
                let mut raw: Vec<String> = Vec::new();
                queried_into(t, f, var, vs, &mut raw);
                assert(raw.deep_view() =~= subtree_collect(
                    t.ns(),
                    f as int,
                    queried_pick(t.s(), t.ns(), var@, vs.deep_view()),
                    no_stop(),
                ));
                let qs = first_occurrences_of(&raw);
                if qs.len() > 0 {
                    helper_set(&mut qf, n, qs);
                }
            },
            None => {},
        }
        k += 1;
    }
    assert(fns@.take(fns@.len() as int) =~= fns@);
    qf
}

/// Appends the states of the query functions that the subtree at `i` calls.
fn query_call_into(t: &CTree, i: usize, qf: &Vec<(String, Vec<String>)>, out: &mut Vec<String>)
    requires
        t.wf(),
        i < t.ns().len(),
    ensures
        final(out).deep_view() == old(out).deep_view() + subtree_collect(
            t.ns(),
            i as int,
            query_call_pick(t.s(), t.ns(), qf.deep_view()),
            no_stop(),
        ),
    decreases t.ns().len() - i,
{
    let ghost start = out.deep_view();
    let ghost f = query_call_pick(t.s(), t.ns(), qf.deep_view());
    let ghost st = no_stop();
    if t.kind_is(i, "call_expression") {
        match t.field(i, "function") {
            Some(fc) => {
                let name = t.text(fc);
                match helper_find(qf, name.as_str()) {
                    Some(k) => {
                        let states = copy_strings(&qf[k].1);
                        let ghost o = out.deep_view();
                        let joined = concat_strings(copy_strings(out), &states);
                        *out = joined;
                        assert(out.deep_view() =~= o + states.deep_view());
                    },
                    None => {},
                }
            },
            None => {},
        }
    }
    assert(out.deep_view() =~= start + f(i as int));
    let kids = t.kids_of(i);
    let mut m: usize = 0;
    while m < kids.len()
        invariant
            t.wf(),
            i < t.ns().len(),
            f == query_call_pick(t.s(), t.ns(), qf.deep_view()),
            st == no_stop(),
            0 <= m <= kids@.len(),
            kids@ == children(t.ns(), i as int),
            forall|k: int| 0 <= k < kids@.len() ==> i < #[trigger] kids@[k] < t.ns().len(),
            out.deep_view() + kids_collect(t.ns(), i as int, m as int, f, st) == start + subtree_collect(
                t.ns(),
                i as int,
                f,
                st,
            ),
        decreases kids.len() - m,
    {
        let ghost before = out.deep_view();
        query_call_into(t, kids[m], qf, out);
        assert(before + kids_collect(t.ns(), i as int, m as int, f, st) =~= out.deep_view() + kids_collect(
            t.ns(),
            i as int,
            m + 1,
            f,
            st,
        ));
        m += 1;
    }
    assert(out.deep_view() + kids_collect(t.ns(), i as int, m as int, f, st) =~= out.deep_view());
}

/// The states that the query calls of the condition at node `c` ask about.
fn query_call_states_of(t: &CTree, c: usize, qf: &Vec<(String, Vec<String>)>) -> (r: Vec<String>)
    requires
        t.wf(),
        c < t.ns().len(),
    ensures
        r.deep_view() == query_call_states(t.s(), t.ns(), c as int, qf.deep_view()),
{
    let mut raw: Vec<String> = Vec::new();
    query_call_into(t, c, qf, &mut raw);
    assert(raw.deep_view() =~= subtree_collect(t.ns(), c as int, query_call_pick(t.s(), t.ns(), qf.deep_view()), no_stop()));
    first_occurrences_of(&raw)
}

/// The entry of the braced initializer `c`.
fn table_entry_exec(t: &CTree, c: usize) -> (r: Option<(String, String)>)
    requires
        t.wf(),
        c < t.ns().len(),
    ensures
        r matches Some(e) ==> table_entry_of(t.s(), t.ns(), c as int) == seq![(e.0@, e.1@)],
        r is None ==> table_entry_of(t.s(), t.ns(), c as int) == Seq::<(Seq<char>, Seq<char>)>::empty(),
{
    if !t.kind_is(c, "initializer_list") {
        return None;
    }
    let kids = t.kids_of(c);
    let a = match last_of_kind_in(&t.nodes, kids, "string_literal") {
        Some(a) => a,
        None => return None,
    };
    let b = match last_of_kind_in(&t.nodes, kids, "identifier") {
        Some(b) => b,
        None => return None,
    };
    let raw = chars_of(t.text(kids[a]).as_str());
    let (x, y) = trim_chars_range(&raw, 0, raw.len(), '"', '"');
    assert(raw@.subrange(0, raw@.len() as int) =~= raw@);
    let cmd = string_of(&raw, x, y);
    Some((t.text(kids[b]), cmd))
}

/// The command table entries of the subtree at node `i`, appended.
fn table_into(t: &CTree, i: usize, out: &mut Vec<(String, String)>)
    requires
        t.wf(),
        i < t.ns().len(),
    ensures
        final(out).deep_view() == old(out).deep_view() + subtree_collect(t.ns(), i as int, table_pick(t.s(), t.ns()), no_stop()),
    decreases t.ns().len() - i,
{
    let ghost start = out.deep_view();
    let ghost f = table_pick(t.s(), t.ns());
    let ghost st = no_stop();
    let kids = t.kids_of(i);
    if t.kind_is(i, "initializer_list") {
        let ghost g = table_entry_pick(t.s(), t.ns());
        let mut m: usize = 0;
        while m < kids.len()
            invariant
                t.wf(),
                i < t.ns().len(),
                g == table_entry_pick(t.s(), t.ns()),
                0 <= m <= kids@.len(),
                kids@ == children(t.ns(), i as int),
                forall|k: int| 0 <= k < kids@.len() ==> i < #[trigger] kids@[k] < t.ns().len(),
                out.deep_view() + kids_concat(t.ns(), i as int, m as int, g) == start + kids_concat(t.ns(), i as int, 0, g),
            decreases kids.len() - m,
        {
            let ghost before = out.deep_view();
            match table_entry_exec(t, kids[m]) {
                Some(e) => {
                    out.push(e);
                },
                None => {},
            }
            assert(out.deep_view() =~= before + g(kids@[m as int] as int));
            assert(before + kids_concat(t.ns(), i as int, m as int, g) =~= out.deep_view() + kids_concat(
                t.ns(),
                i as int,
                m + 1,
                g,
            ));
            m += 1;
        }
        assert(out.deep_view() + kids_concat(t.ns(), i as int, m as int, g) =~= out.deep_view());
    }
    assert(out.deep_view() =~= start + f(i as int));
    let mut m: usize = 0;
    while m < kids.len()
        invariant
            t.wf(),
            i < t.ns().len(),
            f == table_pick(t.s(), t.ns()),
            st == no_stop(),
            0 <= m <= kids@.len(),
            kids@ == children(t.ns(), i as int),
            forall|k: int| 0 <= k < kids@.len() ==> i < #[trigger] kids@[k] < t.ns().len(),
            out.deep_view() + kids_collect(t.ns(), i as int, m as int, f, st) == start + subtree_collect(
                t.ns(),
                i as int,
                f,
                st,
            ),
        decreases kids.len() - m,
    {
        let ghost before = out.deep_view();
        table_into(t, kids[m], out);
        assert(before + kids_collect(t.ns(), i as int, m as int, f, st) =~= out.deep_view() + kids_collect(
            t.ns(),
            i as int,
            m + 1,
            f,
            st,
        ));
        m += 1;
    }
    assert(out.deep_view() + kids_collect(t.ns(), i as int, m as int, f, st) =~= out.deep_view());
}

/// The command of each handler over the other files.
fn command_map_of(others: &[(String, String)], trees: &Vec<Option<CTree>>) -> (r: StringMap)
    requires
        trees_match(trees@, others.deep_view()),
    ensures
        r@ == command_map(others.deep_view()),
{
    let ghost fs = others.deep_view();
    let mut m = StringMap::new();
    let mut k: usize = 0;
    assert(fs.take(0) =~= Seq::<SourceFile>::empty());
    while k < trees.len()
        invariant
            0 <= k <= trees@.len(),
            fs == others.deep_view(),
            trees_match(trees@, fs),
            m@ == command_map(fs.take(k as int)),
        decreases trees.len() - k,
    {
        assert(fs.take(k + 1).drop_last() =~= fs.take(k as int));
        assert(fs.take(k + 1).last() == fs[k as int]);
        match &trees[k] {
            Some(t) => {
                let mut es: Vec<(String, String)> = Vec::new();
                if t.len() > 0 {
                    table_into(t, 0, &mut es);
                }
                assert(es.deep_view() =~= table_entries(t.s(), t.ns()));
                let ghost m0 = m@;
                let mut j: usize = 0;
                assert(es.deep_view().take(0) =~= Seq::<(Seq<char>, Seq<char>)>::empty());
                while j < es.len()
                    invariant
                        0 <= j <= es@.len(),
                        m@ == store_all(m0, es.deep_view().take(j as int)),
                    decreases es.len() - j,
                {
                    assert(es.deep_view().take(j + 1).drop_last() =~= es.deep_view().take(j as int));
                    assert(es.deep_view()[j as int] == (es@[j as int].0@, es@[j as int].1@));
                    m.insert(es[j].0.clone(), es[j].1.clone());
                    j += 1;
                }
                assert(es.deep_view().take(es@.len() as int) =~= es.deep_view());
            },
            None => {},
        }
        k += 1;
    }
    assert(fs.take(trees@.len() as int) =~= fs);
    m
}


/// `ambs` already has the target `target` under the guard `guard`.
fn has_ambiguous_in(ambs: &Vec<AmbiguousTransition>, target: &str, guard: &str) -> (b: bool)
    ensures
        b == has_ambiguous(ambiguous_view(ambs@), target@, guard@),
{
    let ghost av = ambiguous_view(ambs@);
    let mut k: usize = 0;
    while k < ambs.len()
        invariant
            0 <= k <= ambs@.len(),
            av == ambiguous_view(ambs@),
            forall|j: int| 0 <= j < k ==> !(#[trigger] av[j].target == target@ && av[j].guard == guard@),
        decreases ambs.len() - k,
    {
        if str_eq(ambs[k].target.as_str(), target) && str_eq(ambs[k].guard.as_str(), guard) {
            assert(av[k as int].target == target@);
            return true;
        }
        k += 1;
    }
    false
}

/// Adds the command transition from `from` unless one with the same ends
/// and label is there.
fn add_command_transition(trs: &mut Vec<AppTransition>, from: &str, target: &str, label: &str, line: usize)
    ensures
        transitions_view(final(trs)@) == add_new_transition(
            transitions_view(old(trs)@),
            command_transition(from@, target@, label@, line as int),
        ),
{
    if !has_transition_in(trs, from, target, label) {
        let ghost before = transitions_view(trs@);
        trs.push(
            AppTransition {
                from: owned(from),
                to: owned(target),
                guard: owned(label),
                label: owned(label),
                is_fault: false,
                transition_type: TransitionType::EventTriggered,
                line,
            },
        );
        assert(transitions_view(trs@) =~= before.push(command_transition(from@, target@, label@, line as int)));
    }
}

/// What a handler's call of a helper with the targets `targets` adds.
fn command_targets_into(
    trs: &mut Vec<AppTransition>,
    ambs: &mut Vec<AmbiguousTransition>,
    active: &Vec<String>,
    targets: &Vec<String>,
    label: &str,
    initial: &str,
    fname: &str,
    line: usize,
)
    ensures
        (transitions_view(final(trs)@), ambiguous_view(final(ambs)@)) == command_targets(
            (transitions_view(old(trs)@), ambiguous_view(old(ambs)@)),
            active.deep_view(),
            targets.deep_view(),
            label@,
            initial@,
            fname@,
            line as int,
        ),
{
    let ghost start = (transitions_view(trs@), ambiguous_view(ambs@));
    let mut k: usize = 0;
    assert(targets.deep_view().take(0) =~= Seq::<Seq<char>>::empty());
    while k < targets.len()
        invariant
            0 <= k <= targets@.len(),
            (transitions_view(trs@), ambiguous_view(ambs@)) == command_targets(
                start,
                active.deep_view(),
                targets.deep_view().take(k as int),
                label@,
                initial@,
                fname@,
                line as int,
            ),
        decreases targets.len() - k,
    {
        assert(targets.deep_view().take(k + 1).drop_last() =~= targets.deep_view().take(k as int));
        assert(targets.deep_view()[k as int] == targets@[k as int]@);
        let target = targets[k].as_str();
        if active.len() > 0 {
            let ghost t0 = transitions_view(trs@);
            let mut j: usize = 0;
            assert(active.deep_view().take(0) =~= Seq::<Seq<char>>::empty());
            while j < active.len()
                invariant
                    0 <= j <= active@.len(),
                    transitions_view(trs@) == add_command_froms(t0, active.deep_view().take(j as int), target@, label@, line as int),
                decreases active.len() - j,
            {
                assert(active.deep_view().take(j + 1).drop_last() =~= active.deep_view().take(j as int));
                assert(active.deep_view()[j as int] == active@[j as int]@);
                add_command_transition(trs, active[j].as_str(), target, label, line);
                j += 1;
            }
            assert(active.deep_view().take(active@.len() as int) =~= active.deep_view());
        } else if str_eq(target, initial) {
            if !has_ambiguous_in(ambs, target, label) {
                let ghost before = ambiguous_view(ambs@);
                ambs.push(
                    AmbiguousTransition {
                        target: owned(target),
                        guard: owned(label),
                        line,
                        note: concat_str("Command dispatch via ", fname),
                    },
                );
                assert(ambiguous_view(ambs@) =~= before.push(
                    AmbiguousSpec { target: target@, guard: label@, line: line as int, note: "Command dispatch via "@ + fname@ },
                ));
            }
            add_command_transition(trs, "(any state)", target, label, line);
        } else {
            add_command_transition(trs, initial, target, label, line);
        }
        k += 1;
    }
    assert(targets.deep_view().take(targets@.len() as int) =~= targets.deep_view());
}

/// Walks the command handler statement at node `i`.
fn walk_cross_into(
    t: &CTree,
    i: usize,
    cmd: &Option<String>,
    fname: &str,
    initial: &str,
    hs: &Vec<(String, Vec<String>)>,
    qf: &Vec<(String, Vec<String>)>,
    active: &Vec<String>,
    trs: &mut Vec<AppTransition>,
    ambs: &mut Vec<AmbiguousTransition>,
)
    requires
        t.wf(),
        i < t.ns().len(),
    ensures
        (transitions_view(final(trs)@), ambiguous_view(final(ambs)@)) == walk_cross(
            t.s(),
            t.ns(),
            i as int,
            cmd.deep_view(),
            fname@,
            initial@,
            hs.deep_view(),
            qf.deep_view(),
            active.deep_view(),
            (transitions_view(old(trs)@), ambiguous_view(old(ambs)@)),
        ),
    decreases t.ns().len() - i, 1int,
{
    if t.kind_is(i, "if_statement") {
        let branch = match t.field(i, "condition") {
            Some(c) => query_call_states_of(t, c, qf),
            None => {
                let e: Vec<String> = Vec::new();
                assert(e.deep_view() =~= Seq::<Seq<char>>::empty());
                e
            },
        };
        match t.field(i, "consequence") {
            Some(q) => {
                if branch.len() > 0 {
                    walk_cross_into(t, q, cmd, fname, initial, hs, qf, &branch, trs, ambs);
                } else {
                    walk_cross_into(t, q, cmd, fname, initial, hs, qf, active, trs, ambs);
                }
            },
            None => {},
        }
        match t.field(i, "alternative") {
            Some(a) => {
                walk_cross_into(t, a, cmd, fname, initial, hs, qf, active, trs, ambs);
            },
            None => {},
        }
    } else if t.kind_is(i, "call_expression") {
        match t.field(i, "function") {
            Some(f) => {
                let callee = t.text(f);
                match helper_find(hs, callee.as_str()) {
                    Some(hi) => {
                        let label = match cmd {
                            Some(c) => concat_str("CMD: ", c.as_str()),
                            None => callee.clone(),
                        };
                        let line = t.line(i);
                        command_targets_into(trs, ambs, active, &hs[hi].1, label.as_str(), initial, fname, line);
                    },
                    None => {},
                }
            },
            None => {},
        }
    } else {
        walk_cross_kids_into(t, i, cmd, fname, initial, hs, qf, active, trs, ambs);
    }
}

/// Walks the children of node `i` of a command handler.
fn walk_cross_kids_into(
    t: &CTree,
    i: usize,
    cmd: &Option<String>,
    fname: &str,
    initial: &str,
    hs: &Vec<(String, Vec<String>)>,
    qf: &Vec<(String, Vec<String>)>,
    active: &Vec<String>,
    trs: &mut Vec<AppTransition>,
    ambs: &mut Vec<AmbiguousTransition>,
)
    requires
        t.wf(),
        i < t.ns().len(),
    ensures
        (transitions_view(final(trs)@), ambiguous_view(final(ambs)@)) == walk_cross_kids(
            t.s(),
            t.ns(),
            i as int,
            0,
            cmd.deep_view(),
            fname@,
            initial@,
            hs.deep_view(),
            qf.deep_view(),
            active.deep_view(),
            (transitions_view(old(trs)@), ambiguous_view(old(ambs)@)),
        ),
    decreases t.ns().len() - i, 0int,
{
    let ghost want = walk_cross_kids(
        t.s(),
        t.ns(),
        i as int,
        0,
        cmd.deep_view(),
        fname@,
        initial@,
        hs.deep_view(),
        qf.deep_view(),
        active.deep_view(),
        (transitions_view(trs@), ambiguous_view(ambs@)),
    );
    let kids = t.kids_of(i);
    let mut m: usize = 0;
    while m < kids.len()
        invariant
            t.wf(),
            i < t.ns().len(),
            0 <= m <= kids@.len(),
            kids@ == children(t.ns(), i as int),
            forall|k: int| 0 <= k < kids@.len() ==> i < #[trigger] kids@[k] < t.ns().len(),
            want == walk_cross_kids(
                t.s(),
                t.ns(),
                i as int,
                m as int,
                cmd.deep_view(),
                fname@,
                initial@,
                hs.deep_view(),
                qf.deep_view(),
                active.deep_view(),
                (transitions_view(trs@), ambiguous_view(ambs@)),
            ),
        decreases kids.len() - m,
    {
        walk_cross_into(t, kids[m], cmd, fname, initial, hs, qf, active, trs, ambs);
        m += 1;
    }
}

/// Walks each function of a file as a command handler.
fn walk_cross_functions_into(
    t: &CTree,
    fns: &Vec<usize>,
    cmds: &StringMap,
    initial: &str,
    hs: &Vec<(String, Vec<String>)>,
    qf: &Vec<(String, Vec<String>)>,
    trs: &mut Vec<AppTransition>,
    ambs: &mut Vec<AmbiguousTransition>,
)
    requires
        t.wf(),
        forall|k: int| 0 <= k < fns@.len() ==> #[trigger] fns@[k] < t.ns().len(),
    ensures
        (transitions_view(final(trs)@), ambiguous_view(final(ambs)@)) == walk_cross_functions(
            t.s(),
            t.ns(),
            fns@,
            cmds@,
            initial@,
            hs.deep_view(),
            qf.deep_view(),
            (transitions_view(old(trs)@), ambiguous_view(old(ambs)@)),
        ),
{
    let ghost start = (transitions_view(trs@), ambiguous_view(ambs@));
    let none: Vec<String> = Vec::new();
    assert(none.deep_view() =~= Seq::<Seq<char>>::empty());
    let mut k: usize = 0;
    assert(fns@.take(0) =~= Seq::<usize>::empty());
    while k < fns.len()
        invariant
            t.wf(),
            0 <= k <= fns@.len(),
            none.deep_view() == Seq::<Seq<char>>::empty(),
            forall|j: int| 0 <= j < fns@.len() ==> #[trigger] fns@[j] < t.ns().len(),
            (transitions_view(trs@), ambiguous_view(ambs@)) == walk_cross_functions(
                t.s(),
                t.ns(),
                fns@.take(k as int),
                cmds@,
                initial@,
                hs.deep_view(),
                qf.deep_view(),
                start,
            ),
        decreases fns.len() - k,
    {
        assert(fns@.take(k + 1).drop_last() =~= fns@.take(k as int));
        let f = fns[k];
        let name = match fn_name_of(t, f) {
            Some(n) => n,
            None => String::new(),
        };
        match t.field(f, "body") {
            Some(b) => {
                let cmd: Option<String> = match cmds.get(name.as_str()) {
                    Some(c) => Some(c.clone()),
                    None => None,
                };
                walk_cross_into(t, b, &cmd, name.as_str(), initial, hs, qf, &none, trs, ambs);
            },
            None => {},
        }
        k += 1;
    }
    assert(fns@.take(fns@.len() as int) =~= fns@);
}

/// The transitions that the command handlers of the other files make.
fn cross_file_into(
    t: &CTree,
    var: &str,
    vs: &Vec<String>,
    initial: &str,
    hs: &Vec<(String, Vec<String>)>,
    others: &[(String, String)],
    trees: &Vec<Option<CTree>>,
    trs: &mut Vec<AppTransition>,
    ambs: &mut Vec<AmbiguousTransition>,
)
    requires
        t.wf(),
        trees_match(trees@, others.deep_view()),
    ensures
        (transitions_view(final(trs)@), ambiguous_view(final(ambs)@)) == cross_file(
            t.s(),
            t.ns(),
            var@,
            vs.deep_view(),
            initial@,
            hs.deep_view(),
            others.deep_view(),
            (transitions_view(old(trs)@), ambiguous_view(old(ambs)@)),
        ),
{
    if others.len() == 0 {
        return;
    }
    let ghost fs = others.deep_view();
    let fns = functions_of(t);
    let qf = query_functions_of(t, &fns, var, vs);
    let cmds = command_map_of(others, trees);
    let ghost start = (transitions_view(trs@), ambiguous_view(ambs@));
    let mut k: usize = 0;
    assert(fs.take(0) =~= Seq::<SourceFile>::empty());
    while k < trees.len()
        invariant
            0 <= k <= trees@.len(),
            fs == others.deep_view(),
            trees_match(trees@, fs),
            (transitions_view(trs@), ambiguous_view(ambs@)) == walk_cross_files(
                fs.take(k as int),
                cmds@,
                initial@,
                hs.deep_view(),
                qf.deep_view(),
                start,
            ),
        decreases trees.len() - k,
    {
        assert(fs.take(k + 1).drop_last() =~= fs.take(k as int));
        assert(fs.take(k + 1).last() == fs[k as int]);
        match &trees[k] {
            Some(u) => {
                let ufns = functions_of(u);
                walk_cross_functions_into(u, &ufns, &cmds, initial, hs, &qf, trs, ambs);
            },
            None => {},
        }
        k += 1;
    }
    assert(fs.take(trees@.len() as int) =~= fs);
}


/// The state machine of the candidate `candidate` in the C text `source`:
/// the transitions that its functions make, those that the command handlers
/// of `other_files` (the other C files of its directory, each a path and a
/// text, sorted by path) make through its helpers, and its states; an error
/// when the text does not parse.
pub fn extract_state_machine_transitions(
    candidate: &StateMachineCandidate,
    source: &str,
    other_files: &[(String, String)],
) -> (r: Result<AppStateMachine, ScanError>)
    requires
        byte_len(source@) < usize::MAX,
        forall|k: int| 0 <= k < other_files@.len() ==> byte_len((#[trigger] other_files@[k]).1@) < usize::MAX,
    ensures
        match r {
            Ok(m) => parses(source@) && m@ == machine_of(candidate@, source@, other_files.deep_view()),
            Err(e) => !parses(source@) && e is ParseError,
        },
{
    let t = match parse_tree(source) {
        Some(t) => t,
        None => return Err(ScanError::ParseError(owned("Failed to parse C file"))),
    };
    let var = candidate.var.name.as_str();
    let vs = &candidate.enum_def.variants;
    let hs = helpers_of_tree(&t, var, vs);
    let mut has_local_fault = false;
    let mut k: usize = 0;
    while k < vs.len()
        invariant
            0 <= k <= vs@.len(),
            has_local_fault == exists|j: int| 0 <= j < k && fault_name(#[trigger] vs.deep_view()[j]),
        decreases vs.len() - k,
    {
        assert(vs.deep_view()[k as int] == vs@[k as int]@);
        if is_fault_state(vs[k].as_str()) {
            has_local_fault = true;
        }
        k += 1;
    }
    let ctx = WalkContext { active_states: None, guards: Vec::new(), has_local_fault };
    assert(ctx@.guards =~= Seq::<Seq<char>>::empty());
    let fns = functions_of(&t);
    let mut trs: Vec<AppTransition> = Vec::new();
    let mut ambs: Vec<AmbiguousTransition> = Vec::new();
    assert(transitions_view(trs@) =~= Seq::<TransitionSpec>::empty());
    assert(ambiguous_view(ambs@) =~= Seq::<AmbiguousSpec>::empty());
    walk_functions_into(&t, &fns, &ctx, var, vs, &hs, &mut trs, &mut ambs);
    let initial = match &candidate.var.initial_value {
        Some(v) => v.clone(),
        None => owned("IDLE"),
    };
    let trees = parse_files(other_files);
    cross_file_into(&t, var, vs, initial.as_str(), &hs, other_files, &trees, &mut trs, &mut ambs);
    let mut states = copy_strings(vs);
    let ghost tv = transitions_view(trs@);
    let mut to_fault = false;
    let mut j: usize = 0;
    while j < trs.len()
        invariant
            0 <= j <= trs@.len(),
            tv == transitions_view(trs@),
            to_fault == exists|i: int| 0 <= i < j && #[trigger] tv[i].to == "SYSTEM FAULT"@,
        decreases trs.len() - j,
    {
        assert(tv[j as int].to == trs@[j as int].to@);
        if str_eq(trs[j].to.as_str(), "SYSTEM FAULT") {
            to_fault = true;
        }
        j += 1;
    }
    let fault = owned("SYSTEM FAULT");
    if to_fault && !contains_string(vs, &fault) {
        let ghost before = states.deep_view();
        states.push(fault);
        assert(states.deep_view() =~= before.push("SYSTEM FAULT"@));
    }
    Ok(AppStateMachine {
        id: candidate.id.clone(),
        display_name: candidate.display_name.clone(),
        enum_def: candidate.enum_def.clone(),
        var: candidate.var.clone(),
        states,
        transitions: trs,
        ambiguous_transitions: ambs,
    })
}

} // verus!
