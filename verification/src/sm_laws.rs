//! Properties of state-machine discovery and extraction, each proved over
//! the specifications that the functions' contracts use.
use vstd::prelude::*;
use crate::discovery::{
    candidate_of, candidates_fold, enum_lookup, files_enums, files_vars, enum_names, insert_by_display,
    project_candidates, sort_by_display, SourceFile,
};
use crate::machine::{CandidateSpec, EnumSpec, VarSpec};
use crate::discovery::{
    add_new, absorb, assigned_pick, assigned_raw, assigned_targets, base_helpers, called_helpers, fn_name,
    helper_candidate, helper_get, helper_index, helper_put, helpers_fix, helpers_of, lemma_count_grows, lemma_count_le,
    lemma_helper_index, lemma_pass, no_stop, pass, resolved, resolved_count, root_functions, txt, variant_ident,
    variant_ident_kids, Helpers,
};
use crate::transitions::{
    add_from, add_staged, analyze, analyze_kids, assignment_label, assignment_type, binary_op, branch_ctx, case_state,
    check_assignment, check_helper_call, eq_variant, first_arg, following_printf, guard_of, has_transition, keep_in,
    min_other, no_cond, or_empty, per_target, staged, staging_kids, staging_up, switch_items, targets_concat,
    tested_kids, tested_variant, walk, walk_functions, walk_kids, CtxSpec, WalkState,
};
use crate::machine::{fault_name, AmbiguousSpec, TransitionSpec, TransitionTypeView};
use crate::labels::{clean_guard, fault_coordinator};
use crate::ctree::kid_of_kind;
use crate::discovery::{line_of, target_ident};
use crate::ctree::{kids_collect, subtree_collect};
use crate::pin_modules::field_child;
use crate::syntax::{children, SyntaxNodeView};
use crate::text::first_occurrences;
use crate::transitions::{
    add_command_froms, add_new_transition, command_map, command_target, command_targets, command_transition, cross_file, has_ambiguous,
    machine_of, machine_states, query_call_pick, query_call_states, query_functions, queried_pick, queried_states,
    walk_cross, walk_cross_files, walk_cross_functions, walk_cross_kids,
};
use crate::ctree::parses;
use crate::assoc::{lookup, Entries};
use crate::discovery::tree_of;
use crate::machine::MachineSpec;
use crate::sorted::{lemma_lt_asymmetric, lemma_lt_irreflexive, lemma_lt_total, lemma_lt_transitive, seq_lt};

verus! {

/// The enum, variable and file that a candidate stands for.
pub open spec fn candidate_key(c: CandidateSpec) -> (Seq<char>, Seq<char>, Seq<char>) {
    (c.enum_def.name, c.var.name, c.var.file_path)
}

/// A candidate is made of a variable and the enum of its type, with the id
/// and display name built from them.
pub open spec fn well_made(c: CandidateSpec) -> bool {
    &&& c.enum_def.name == c.var.enum_type
    &&& c.id == c.var.enum_type + "_"@ + c.var.name
    &&& c.display_name == c.var.enum_type + " ("@ + c.var.name + ")"@
}

/// Ordered by display name.
pub open spec fn display_sorted(cs: Seq<CandidateSpec>) -> bool {
    forall|i: int, j: int| 0 <= i < j < cs.len() ==> !seq_lt(#[trigger] cs[j].display_name, #[trigger] cs[i].display_name)
}

/// No two candidates stand for the same enum, variable and file.
pub open spec fn keys_distinct(cs: Seq<CandidateSpec>) -> bool {
    forall|i: int, j: int| 0 <= i < j < cs.len() ==> candidate_key(#[trigger] cs[i]) != candidate_key(#[trigger] cs[j])
}

proof fn lemma_enum_lookup(defs: Seq<EnumSpec>, name: Seq<char>)
    ensures
        enum_lookup(defs, name) matches Some(d) ==> d.name == name,
    decreases defs.len(),
{
    if defs.len() > 0 {
        lemma_enum_lookup(defs.drop_last(), name);
    }
}

/// What the fold keeps: well-made candidates whose keys it has seen, no two
/// alike.
proof fn lemma_fold(vars: Seq<VarSpec>, defs: Seq<EnumSpec>, cs: Seq<SourceFile>)
    ensures
        forall|k: int| 0 <= k < candidates_fold(vars, defs, cs).0.len() ==> well_made(
            #[trigger] candidates_fold(vars, defs, cs).0[k],
        ),
        forall|k: int|
            0 <= k < candidates_fold(vars, defs, cs).0.len() ==> candidates_fold(vars, defs, cs).1.contains(
                candidate_key(#[trigger] candidates_fold(vars, defs, cs).0[k]),
            ),
        keys_distinct(candidates_fold(vars, defs, cs).0),
    decreases vars.len(),
{
    if vars.len() > 0 {
        lemma_fold(vars.drop_last(), defs, cs);
        let (out, seen) = candidates_fold(vars.drop_last(), defs, cs);
        let v = vars.last();
        lemma_enum_lookup(defs, v.enum_type);
        match enum_lookup(defs, v.enum_type) {
            Some(d) => {
                let key = (d.name, v.name, v.file_path);
                if !seen.contains(key) {
                    let seen2 = seen.push(key);
                    assert forall|k: int| 0 <= k < out.len() implies seen2.contains(candidate_key(#[trigger] out[k])) by {
                        let j = choose|j: int| 0 <= j < seen.len() && seen[j] == candidate_key(out[k]);
                        assert(seen2[j] == seen[j]);
                    }
                    assert(seen2[seen.len() as int] == key);
                    if crate::discovery::qualifies_any(cs, v.name, d.variants) {
                        let out2 = out.push(candidate_of(d, v));
                        assert(candidate_key(candidate_of(d, v)) == key);
                        assert forall|i: int, j: int| 0 <= i < j < out2.len() implies candidate_key(#[trigger] out2[i])
                            != candidate_key(#[trigger] out2[j]) by {
                            if j == out.len() {
                                assert(out2[i] == out[i]);
                                assert(seen.contains(candidate_key(out[i])));
                            } else {
                                assert(out2[i] == out[i] && out2[j] == out[j]);
                            }
                        }
                        assert forall|k: int| 0 <= k < out2.len() implies seen2.contains(candidate_key(#[trigger] out2[k])) by {
                            if k < out.len() {
                                assert(out2[k] == out[k]);
                            }
                        }
                        assert forall|k: int| 0 <= k < out2.len() implies well_made(#[trigger] out2[k]) by {
                            if k < out.len() {
                                assert(out2[k] == out[k]);
                            }
                        }
                    }
                }
            },
            None => {},
        }
    }
}

/// `!(c < b)` and `!(b < a)` give `!(c < a)`.
proof fn lemma_not_lt_trans(a: Seq<char>, b: Seq<char>, c: Seq<char>)
    requires
        !seq_lt(b, a),
        !seq_lt(c, b),
    ensures
        !seq_lt(c, a),
{
    if seq_lt(c, a) {
        if a != b {
            lemma_lt_total(a, b);
            lemma_lt_transitive(c, a, b);
        } else {
            assert(seq_lt(c, b));
        }
    }
}

/// Inserting puts `x` at some position `p`, after what does not come after
/// it and before what does.
proof fn lemma_insert_shape(sorted: Seq<CandidateSpec>, x: CandidateSpec) -> (p: int)
    ensures
        0 <= p <= sorted.len(),
        insert_by_display(sorted, x) == sorted.take(p) + seq![x] + sorted.skip(p),
        p == 0 || !seq_lt(x.display_name, sorted[p - 1].display_name),
        forall|i: int| p <= i < sorted.len() ==> seq_lt(x.display_name, #[trigger] sorted[i].display_name),
    decreases sorted.len(),
{
    if sorted.len() == 0 {
        assert(insert_by_display(sorted, x) =~= sorted.take(0) + seq![x] + sorted.skip(0));
        0
    } else if seq_lt(x.display_name, sorted.last().display_name) {
        let pre = sorted.drop_last();
        let p = lemma_insert_shape(pre, x);
        assert(insert_by_display(sorted, x) =~= sorted.take(p) + seq![x] + sorted.skip(p)) by {
            assert(pre.take(p) =~= sorted.take(p));
            assert(pre.skip(p).push(sorted.last()) =~= sorted.skip(p));
        }
        assert forall|i: int| p <= i < sorted.len() implies seq_lt(x.display_name, #[trigger] sorted[i].display_name) by {
            if i < pre.len() {
                assert(sorted[i] == pre[i]);
            }
        }
        if p > 0 {
            assert(sorted[p - 1] == pre[p - 1]);
        }
        p
    } else {
        let p = sorted.len() as int;
        assert(insert_by_display(sorted, x) =~= sorted.take(p) + seq![x] + sorted.skip(p));
        p
    }
}

/// Inserting into a sorted list keeps it sorted.
proof fn lemma_insert_sorted(sorted: Seq<CandidateSpec>, x: CandidateSpec)
    requires
        display_sorted(sorted),
    ensures
        display_sorted(insert_by_display(sorted, x)),
{
    let p = lemma_insert_shape(sorted, x);
    let r = insert_by_display(sorted, x);
    assert forall|i: int, j: int| 0 <= i < j < r.len() implies !seq_lt(#[trigger] r[j].display_name, #[trigger] r[i].display_name) by {
        if j < p {
            assert(r[i] == sorted[i] && r[j] == sorted[j]);
        } else if j == p {
            assert(r[i] == sorted[i]);
            assert(r[j] == x);
            if i < p - 1 {
                assert(!seq_lt(sorted[p - 1].display_name, sorted[i].display_name));
            }
            if i < p - 1 {
                lemma_not_lt_trans(sorted[i].display_name, sorted[p - 1].display_name, x.display_name);
            }
        } else if i == p {
            assert(r[i] == x);
            assert(r[j] == sorted[j - 1]);
            lemma_lt_asymmetric(x.display_name, sorted[j - 1].display_name);
        } else if i < p {
            assert(r[i] == sorted[i]);
            assert(r[j] == sorted[j - 1]);
        } else {
            assert(r[i] == sorted[i - 1]);
            assert(r[j] == sorted[j - 1]);
        }
    }
}

/// Sorting keeps the candidates, orders them, and keeps their keys apart.
proof fn lemma_sort(cs: Seq<CandidateSpec>)
    ensures
        display_sorted(sort_by_display(cs)),
        sort_by_display(cs).len() == cs.len(),
        forall|k: int| 0 <= k < sort_by_display(cs).len() ==> cs.contains(#[trigger] sort_by_display(cs)[k]),
        keys_distinct(cs) ==> keys_distinct(sort_by_display(cs)),
    decreases cs.len(),
{
    if cs.len() > 0 {
        let pre = cs.drop_last();
        lemma_sort(pre);
        let sp = sort_by_display(pre);
        let x = cs.last();
        lemma_insert_sorted(sp, x);
        let p = lemma_insert_shape(sp, x);
        let r = sort_by_display(cs);
        assert(r == sp.take(p) + seq![x] + sp.skip(p));
        assert forall|k: int| 0 <= k < r.len() implies cs.contains(#[trigger] r[k]) by {
            if k < p {
                assert(r[k] == sp[k]);
                let j = choose|j: int| 0 <= j < pre.len() && pre[j] == sp[k];
                assert(cs[j] == pre[j]);
            } else if k == p {
                assert(cs[cs.len() - 1] == x);
            } else {
                assert(r[k] == sp[k - 1]);
                let j = choose|j: int| 0 <= j < pre.len() && pre[j] == sp[k - 1];
                assert(cs[j] == pre[j]);
            }
        }
        if keys_distinct(cs) {
            assert(keys_distinct(pre)) by {
                assert forall|i: int, j: int| 0 <= i < j < pre.len() implies candidate_key(#[trigger] pre[i])
                    != candidate_key(#[trigger] pre[j]) by {
                    assert(pre[i] == cs[i] && pre[j] == cs[j]);
                }
            }
            assert forall|k: int| 0 <= k < sp.len() implies candidate_key(#[trigger] sp[k]) != candidate_key(x) by {
                let j = choose|j: int| 0 <= j < pre.len() && pre[j] == sp[k];
                assert(cs[j] == pre[j]);
                assert(cs[cs.len() - 1] == x);
            }
            assert forall|i: int, j: int| 0 <= i < j < r.len() implies candidate_key(#[trigger] r[i]) != candidate_key(
                #[trigger] r[j],
            ) by {
                if j < p {
                    assert(r[i] == sp[i] && r[j] == sp[j]);
                } else if j == p {
                    assert(r[i] == sp[i]);
                } else if i == p {
                    assert(r[j] == sp[j - 1]);
                } else if i < p {
                    assert(r[i] == sp[i] && r[j] == sp[j - 1]);
                } else {
                    assert(r[i] == sp[i - 1] && r[j] == sp[j - 1]);
                }
            }
        }
    }
}

/// The state machines that project discovery finds are each made of a
/// variable and the enum of its type, with the id `Enum_var` and the display
/// name `Enum (var)`; they come ordered by display name, and no two stand
/// for the same enum, variable and file.
pub proof fn law_project_candidates(hs: Seq<SourceFile>, cs: Seq<SourceFile>)
    ensures
        forall|k: int| 0 <= k < project_candidates(hs, cs).len() ==> well_made(#[trigger] project_candidates(hs, cs)[k]),
        display_sorted(project_candidates(hs, cs)),
        keys_distinct(project_candidates(hs, cs)),
{
    let defs = files_enums(hs + cs);
    let vars = files_vars(cs, enum_names(defs));
    lemma_fold(vars, defs, cs);
    let found = candidates_fold(vars, defs, cs).0;
    lemma_sort(found);
    let r = project_candidates(hs, cs);
    assert forall|k: int| 0 <= k < r.len() implies well_made(#[trigger] r[k]) by {
        let j = choose|j: int| 0 <= j < found.len() && found[j] == r[k];
    }
}


// ---------------------------------------------------------------------
// Transitions stay among the states.
// ---------------------------------------------------------------------

/// Every string of `xs` is one of `vs`.
pub open spec fn all_in(xs: Seq<Seq<char>>, vs: Seq<Seq<char>>) -> bool {
    forall|k: int| 0 <= k < xs.len() ==> vs.contains(#[trigger] xs[k])
}

/// Every helper assigns only variants of `vs`.
pub open spec fn hs_ok(hs: Helpers, vs: Seq<Seq<char>>) -> bool {
    forall|k: int| 0 <= k < hs.len() ==> all_in(#[trigger] hs[k].1, vs)
}

proof fn lemma_helper_get_ok(hs: Helpers, n: Seq<char>, vs: Seq<Seq<char>>)
    requires
        hs_ok(hs, vs),
    ensures
        helper_get(hs, n) matches Some(t) ==> all_in(t, vs),
{
    lemma_helper_index(hs, n, 0);
    if let Some(k) = helper_index(hs, n, 0) {
        assert(all_in(hs[k].1, vs));
    }
}

proof fn lemma_helper_put_ok(hs: Helpers, n: Seq<char>, v: Seq<Seq<char>>, vs: Seq<Seq<char>>)
    requires
        hs_ok(hs, vs),
        all_in(v, vs),
    ensures
        hs_ok(helper_put(hs, n, v), vs),
{
    lemma_helper_index(hs, n, 0);
    let h2 = helper_put(hs, n, v);
    match helper_index(hs, n, 0) {
        Some(k) => {
            assert forall|j: int| 0 <= j < h2.len() implies all_in(#[trigger] h2[j].1, vs) by {
                if j != k {
                    assert(h2[j] == hs[j]);
                }
            }
        },
        None => {
            assert forall|j: int| 0 <= j < h2.len() implies all_in(#[trigger] h2[j].1, vs) by {
                if j < hs.len() {
                    assert(h2[j] == hs[j]);
                }
            }
        },
    }
}

proof fn lemma_variant_in(s: Seq<char>, ns: Seq<SyntaxNodeView>, i: int, vs: Seq<Seq<char>>)
    ensures
        variant_ident(s, ns, i, vs) matches Some(v) ==> vs.contains(v),
    decreases ns.len() - i, 1int, 0int,
{
    if 0 <= i < ns.len() && !vs.contains(txt(s, ns, i)) && (ns[i].kind == "parenthesized_expression"@ || ns[i].kind
        == "cast_expression"@) {
        lemma_variant_kids_in(s, ns, i, vs, 0);
    }
}

proof fn lemma_variant_kids_in(s: Seq<char>, ns: Seq<SyntaxNodeView>, i: int, vs: Seq<Seq<char>>, m: int)
    ensures
        variant_ident_kids(s, ns, i, vs, m) matches Some(v) ==> vs.contains(v),
    decreases ns.len() - i, 0int, children(ns, i).len() - m,
{
    let kids = children(ns, i);
    if 0 <= m < kids.len() && i < kids[m] < ns.len() {
        lemma_variant_in(s, ns, kids[m] as int, vs);
        lemma_variant_kids_in(s, ns, i, vs, m + 1);
    }
}

proof fn lemma_tested_in(s: Seq<char>, ns: Seq<SyntaxNodeView>, i: int, staging: Seq<char>, vs: Seq<Seq<char>>)
    ensures
        tested_variant(s, ns, i, staging, vs) matches Some(v) ==> vs.contains(v),
    decreases ns.len() - i, 1int, 0int,
{
    if 0 <= i < ns.len() {
        if ns[i].kind == "parenthesized_expression"@ {
            lemma_tested_kids_in(s, ns, i, staging, vs, 0);
        } else if ns[i].kind == "binary_expression"@ {
            match (field_child(ns, i, "operator"@), field_child(ns, i, "left"@), field_child(ns, i, "right"@)) {
                (Some(o), Some(l), Some(r)) => {
                    lemma_variant_in(s, ns, l as int, vs);
                    lemma_variant_in(s, ns, r as int, vs);
                },
                _ => {},
            }
        }
    }
}

proof fn lemma_tested_kids_in(s: Seq<char>, ns: Seq<SyntaxNodeView>, i: int, staging: Seq<char>, vs: Seq<Seq<char>>, m: int)
    ensures
        tested_kids(s, ns, i, staging, vs, m) matches Some(v) ==> vs.contains(v),
    decreases ns.len() - i, 0int, children(ns, i).len() - m,
{
    let kids = children(ns, i);
    if 0 <= m < kids.len() && i < kids[m] < ns.len() {
        lemma_tested_in(s, ns, kids[m] as int, staging, vs);
        lemma_tested_kids_in(s, ns, i, staging, vs, m + 1);
    }
}

proof fn lemma_keep_in_sub(x: Seq<Seq<char>>, y: Seq<Seq<char>>, vs: Seq<Seq<char>>)
    requires
        all_in(x, vs),
    ensures
        all_in(keep_in(x, y), vs),
    decreases x.len(),
{
    if x.len() > 0 {
        assert(all_in(x.drop_last(), vs)) by {
            assert forall|k: int| 0 <= k < x.drop_last().len() implies vs.contains(#[trigger] x.drop_last()[k]) by {
                assert(x.drop_last()[k] == x[k]);
            }
        }
        lemma_keep_in_sub(x.drop_last(), y, vs);
        let a = keep_in(x.drop_last(), y);
        let b = if y.contains(x.last()) {
            seq![x.last()]
        } else {
            Seq::<Seq<char>>::empty()
        };
        assert(vs.contains(x[x.len() - 1]));
        lemma_concat_in(a, b, vs);
    }
}

proof fn lemma_concat_in(a: Seq<Seq<char>>, b: Seq<Seq<char>>, vs: Seq<Seq<char>>)
    requires
        all_in(a, vs),
        all_in(b, vs),
    ensures
        all_in(a + b, vs),
{
    assert forall|k: int| 0 <= k < (a + b).len() implies vs.contains(#[trigger] (a + b)[k]) by {
        if k < a.len() {
            assert((a + b)[k] == a[k]);
        } else {
            assert((a + b)[k] == b[k - a.len()]);
        }
    }
}

proof fn lemma_analyze_in(s: Seq<char>, ns: Seq<SyntaxNodeView>, i: int, var: Seq<char>, vs: Seq<Seq<char>>)
    ensures
        analyze(s, ns, i, var, vs).restriction matches Some(r) ==> all_in(r, vs),
    decreases ns.len() - i, 1int, 0int,
{
    if 0 <= i < ns.len() {
        if ns[i].kind == "parenthesized_expression"@ {
            lemma_analyze_kids_in(s, ns, i, var, vs, 0);
        } else if ns[i].kind == "binary_expression"@ {
            match (binary_op(s, ns, i), field_child(ns, i, "left"@), field_child(ns, i, "right"@)) {
                (Some(op), Some(l), Some(r)) => if i < l < ns.len() && i < r < ns.len() {
                    lemma_variant_in(s, ns, l as int, vs);
                    lemma_variant_in(s, ns, r as int, vs);
                    lemma_analyze_in(s, ns, l as int, var, vs);
                    lemma_analyze_in(s, ns, r as int, var, vs);
                    let a = analyze(s, ns, l as int, var, vs);
                    let b = analyze(s, ns, r as int, var, vs);
                    if op == "=="@ {
                        if let Some(v) = eq_variant(s, ns, l as int, r as int, var, vs) {
                            assert(all_in(seq![v], vs)) by {
                                assert(seq![v][0] == v);
                            }
                        }
                    } else if op == "||"@ {
                        lemma_concat_in(or_empty(a.restriction), or_empty(b.restriction), vs);
                    } else if op == "&&"@ {
                        if let (Some(x), Some(y)) = (a.restriction, b.restriction) {
                            lemma_keep_in_sub(x, y, vs);
                        }
                    }
                },
                _ => {},
            }
        }
    }
}

proof fn lemma_analyze_kids_in(s: Seq<char>, ns: Seq<SyntaxNodeView>, i: int, var: Seq<char>, vs: Seq<Seq<char>>, m: int)
    ensures
        analyze_kids(s, ns, i, var, vs, m).restriction matches Some(r) ==> all_in(r, vs),
    decreases ns.len() - i, 0int, children(ns, i).len() - m,
{
    let kids = children(ns, i);
    if 0 <= m < kids.len() && i < kids[m] < ns.len() {
        lemma_analyze_in(s, ns, kids[m] as int, var, vs);
        lemma_analyze_kids_in(s, ns, i, var, vs, m + 1);
    }
}

/// When everything that `f` gives satisfies `p`, so does everything that the
/// collection over a subtree gives.
proof fn lemma_collect_all<T>(ns: Seq<SyntaxNodeView>, i: int, f: spec_fn(int) -> Seq<T>, stop: spec_fn(int) -> bool, p: spec_fn(T) -> bool)
    requires
        forall|j: int, k: int| 0 <= j < ns.len() && 0 <= k < f(j).len() ==> p(#[trigger] f(j)[k]),
    ensures
        forall|k: int| 0 <= k < subtree_collect(ns, i, f, stop).len() ==> p(#[trigger] subtree_collect(ns, i, f, stop)[k]),
    decreases ns.len() - i, 1int, 0int,
{
    if 0 <= i < ns.len() {
        if !stop(i) {
            lemma_kids_collect_all(ns, i, 0, f, stop, p);
        }
        let a = f(i);
        let b = if stop(i) {
            Seq::<T>::empty()
        } else {
            kids_collect(ns, i, 0, f, stop)
        };
        assert forall|k: int| 0 <= k < (a + b).len() implies p(#[trigger] (a + b)[k]) by {
            if k < a.len() {
                assert((a + b)[k] == a[k]);
            } else {
                assert((a + b)[k] == b[k - a.len()]);
            }
        }
    }
}

proof fn lemma_kids_collect_all<T>(
    ns: Seq<SyntaxNodeView>,
    i: int,
    m: int,
    f: spec_fn(int) -> Seq<T>,
    stop: spec_fn(int) -> bool,
    p: spec_fn(T) -> bool,
)
    requires
        forall|j: int, k: int| 0 <= j < ns.len() && 0 <= k < f(j).len() ==> p(#[trigger] f(j)[k]),
    ensures
        forall|k: int| 0 <= k < kids_collect(ns, i, m, f, stop).len() ==> p(#[trigger] kids_collect(ns, i, m, f, stop)[k]),
    decreases ns.len() - i, 0int, children(ns, i).len() - m,
{
    let kids = children(ns, i);
    if 0 <= m < kids.len() && i < kids[m] < ns.len() {
        lemma_collect_all(ns, kids[m] as int, f, stop, p);
        lemma_kids_collect_all(ns, i, m + 1, f, stop, p);
        let a = subtree_collect(ns, kids[m] as int, f, stop);
        let b = kids_collect(ns, i, m + 1, f, stop);
        assert forall|k: int| 0 <= k < (a + b).len() implies p(#[trigger] (a + b)[k]) by {
            if k < a.len() {
                assert((a + b)[k] == a[k]);
            } else {
                assert((a + b)[k] == b[k - a.len()]);
            }
        }
    }
}

proof fn lemma_first_occurrences_in(xs: Seq<Seq<char>>, vs: Seq<Seq<char>>)
    requires
        all_in(xs, vs),
    ensures
        all_in(first_occurrences(xs), vs),
    decreases xs.len(),
{
    if xs.len() > 0 {
        assert(all_in(xs.drop_last(), vs)) by {
            assert forall|k: int| 0 <= k < xs.drop_last().len() implies vs.contains(#[trigger] xs.drop_last()[k]) by {
                assert(xs.drop_last()[k] == xs[k]);
            }
        }
        lemma_first_occurrences_in(xs.drop_last(), vs);
        let f = first_occurrences(xs.drop_last());
        assert(vs.contains(xs[xs.len() - 1]));
        if !f.contains(xs.last()) {
            assert forall|k: int| 0 <= k < f.push(xs.last()).len() implies vs.contains(#[trigger] f.push(xs.last())[k]) by {
                if k < f.len() {
                    assert(f.push(xs.last())[k] == f[k]);
                }
            }
        }
    }
}

proof fn lemma_add_new_in(cur: Seq<Seq<char>>, ts: Seq<Seq<char>>, vs: Seq<Seq<char>>)
    requires
        all_in(cur, vs),
        all_in(ts, vs),
    ensures
        all_in(add_new(cur, ts), vs),
    decreases ts.len(),
{
    if ts.len() > 0 {
        assert(all_in(ts.drop_last(), vs)) by {
            assert forall|k: int| 0 <= k < ts.drop_last().len() implies vs.contains(#[trigger] ts.drop_last()[k]) by {
                assert(ts.drop_last()[k] == ts[k]);
            }
        }
        lemma_add_new_in(cur, ts.drop_last(), vs);
        let c = add_new(cur, ts.drop_last());
        assert(vs.contains(ts[ts.len() - 1]));
        assert forall|k: int| 0 <= k < c.push(ts.last()).len() implies vs.contains(#[trigger] c.push(ts.last())[k]) by {
            if k < c.len() {
                assert(c.push(ts.last())[k] == c[k]);
            }
        }
    }
}

proof fn lemma_assigned_targets_in(s: Seq<char>, ns: Seq<SyntaxNodeView>, f: int, var: Seq<char>, vs: Seq<Seq<char>>)
    ensures
        all_in(assigned_targets(s, ns, f, var, vs), vs),
{
    let p = |x: Seq<char>| vs.contains(x);
    let g = assigned_pick(s, ns, var, vs);
    assert forall|j: int, k: int| 0 <= j < ns.len() && 0 <= k < g(j).len() implies p(#[trigger] g(j)[k]) by {
        match (field_child(ns, j, "left"@), field_child(ns, j, "right"@)) {
            (Some(l), Some(r)) => {
                lemma_variant_in(s, ns, r as int, vs);
            },
            _ => {},
        }
    }
    lemma_collect_all(ns, f, g, no_stop(), p);
    lemma_first_occurrences_in(assigned_raw(s, ns, f, var, vs), vs);
}

proof fn lemma_base_helpers_ok(s: Seq<char>, ns: Seq<SyntaxNodeView>, fns: Seq<usize>, var: Seq<char>, vs: Seq<Seq<char>>)
    ensures
        hs_ok(base_helpers(s, ns, fns, var, vs), vs),
    decreases fns.len(),
{
    if fns.len() > 0 {
        lemma_base_helpers_ok(s, ns, fns.drop_last(), var, vs);
        let hs = base_helpers(s, ns, fns.drop_last(), var, vs);
        let f = fns.last() as int;
        if helper_candidate(s, ns, f, var) {
            lemma_assigned_targets_in(s, ns, f, var, vs);
            lemma_helper_put_ok(hs, fn_name(s, ns, f)->0, assigned_targets(s, ns, f, var, vs), vs);
        }
    }
}

proof fn lemma_absorb_ok(hs: Helpers, n: Seq<char>, called: Seq<Seq<char>>, vs: Seq<Seq<char>>)
    requires
        hs_ok(hs, vs),
    ensures
        hs_ok(absorb(hs, n, called).0, vs),
    decreases called.len(),
{
    if called.len() > 0 {
        lemma_absorb_ok(hs, n, called.drop_last(), vs);
        let (h1, c1) = absorb(hs, n, called.drop_last());
        if let Some(ht) = helper_get(h1, called.last()) {
            lemma_helper_get_ok(h1, called.last(), vs);
            lemma_helper_get_ok(h1, n, vs);
            let cur = match helper_get(h1, n) {
                Some(e) => e,
                None => Seq::<Seq<char>>::empty(),
            };
            lemma_add_new_in(cur, ht, vs);
            lemma_helper_put_ok(h1, n, add_new(cur, ht), vs);
        }
    }
}

proof fn lemma_pass_ok(s: Seq<char>, ns: Seq<SyntaxNodeView>, fns: Seq<usize>, var: Seq<char>, hs: Helpers, vs: Seq<Seq<char>>)
    requires
        hs_ok(hs, vs),
    ensures
        hs_ok(pass(s, ns, fns, var, hs).0, vs),
    decreases fns.len(),
{
    if fns.len() > 0 {
        lemma_pass_ok(s, ns, fns.drop_last(), var, hs, vs);
        let (h1, c1) = pass(s, ns, fns.drop_last(), var, hs);
        let f = fns.last() as int;
        if helper_candidate(s, ns, f, var) && !resolved(h1, fn_name(s, ns, f)->0) {
            lemma_absorb_ok(h1, fn_name(s, ns, f)->0, called_helpers(s, ns, f, h1), vs);
        }
    }
}

proof fn lemma_fix_ok(s: Seq<char>, ns: Seq<SyntaxNodeView>, fns: Seq<usize>, var: Seq<char>, hs: Helpers, vs: Seq<Seq<char>>)
    requires
        hs_ok(hs, vs),
    ensures
        hs_ok(helpers_fix(s, ns, fns, var, hs), vs),
    decreases fns.len() - resolved_count(s, ns, fns, hs),
{
    let (h2, ch) = pass(s, ns, fns, var, hs);
    lemma_pass_ok(s, ns, fns, var, hs, vs);
    if ch {
        lemma_pass(s, ns, fns, var, hs);
        let k = choose|k: int|
            0 <= k < fns.len() && #[trigger] fn_name(s, ns, fns[k] as int) is Some && !resolved(
                hs,
                fn_name(s, ns, fns[k] as int)->0,
            ) && resolved(h2, fn_name(s, ns, fns[k] as int)->0);
        lemma_count_grows(s, ns, fns, hs, h2, k);
        lemma_count_le(s, ns, fns, h2);
        lemma_fix_ok(s, ns, fns, var, h2, vs);
    }
}

/// Every helper of a file assigns only variants of the enum.
proof fn lemma_helpers_of_ok(s: Seq<char>, ns: Seq<SyntaxNodeView>, var: Seq<char>, vs: Seq<Seq<char>>)
    ensures
        hs_ok(helpers_of(s, ns, var, vs), vs),
{
    let fns = root_functions(ns);
    lemma_base_helpers_ok(s, ns, fns, var, vs);
    lemma_fix_ok(s, ns, fns, var, base_helpers(s, ns, fns, var, vs), vs);
}


/// A transition may end at a variant or at `SYSTEM FAULT`.
pub open spec fn target_ok(x: Seq<char>, vs: Seq<Seq<char>>) -> bool {
    vs.contains(x) || x == "SYSTEM FAULT"@
}

/// A transition may start at a variant, at any state, or at the initial
/// value of the variable.
pub open spec fn source_ok(x: Seq<char>, vs: Seq<Seq<char>>, init: Seq<char>) -> bool {
    vs.contains(x) || x == "(any state)"@ || x == init
}

pub open spec fn trs_ok(trs: Seq<TransitionSpec>, vs: Seq<Seq<char>>, init: Seq<char>) -> bool {
    forall|k: int| 0 <= k < trs.len() ==> target_ok(#[trigger] trs[k].to, vs) && source_ok(trs[k].from, vs, init)
}

pub open spec fn ambs_ok(ambs: Seq<AmbiguousSpec>, vs: Seq<Seq<char>>) -> bool {
    forall|k: int| 0 <= k < ambs.len() ==> vs.contains(#[trigger] ambs[k].target)
}

pub open spec fn st_ok(st: WalkState, vs: Seq<Seq<char>>, init: Seq<char>) -> bool {
    trs_ok(st.0, vs, init) && ambs_ok(st.1, vs)
}

pub open spec fn ctx_ok(ctx: CtxSpec, vs: Seq<Seq<char>>) -> bool {
    match ctx.active {
        Some(a) => all_in(a, vs),
        None => true,
    }
}

proof fn lemma_trs_push(trs: Seq<TransitionSpec>, t: TransitionSpec, vs: Seq<Seq<char>>, init: Seq<char>)
    requires
        trs_ok(trs, vs, init),
        target_ok(t.to, vs),
        source_ok(t.from, vs, init),
    ensures
        trs_ok(trs.push(t), vs, init),
{
    assert forall|k: int| 0 <= k < trs.push(t).len() implies target_ok(#[trigger] trs.push(t)[k].to, vs) && source_ok(
        trs.push(t)[k].from,
        vs,
        init,
    ) by {
        if k < trs.len() {
            assert(trs.push(t)[k] == trs[k]);
        }
    }
}

proof fn lemma_trs_concat(a: Seq<TransitionSpec>, b: Seq<TransitionSpec>, vs: Seq<Seq<char>>, init: Seq<char>)
    requires
        trs_ok(a, vs, init),
        trs_ok(b, vs, init),
    ensures
        trs_ok(a + b, vs, init),
{
    assert forall|k: int| 0 <= k < (a + b).len() implies target_ok(#[trigger] (a + b)[k].to, vs) && source_ok(
        (a + b)[k].from,
        vs,
        init,
    ) by {
        let t = (a + b)[k];
        if k < a.len() {
            assert(t == a[k]);
            assert(target_ok(a[k].to, vs) && source_ok(a[k].from, vs, init));
        } else {
            let j = k - a.len();
            assert(t == b[j]);
            assert(target_ok(b[j].to, vs) && source_ok(b[j].from, vs, init));
        }
        assert(target_ok(t.to, vs) && source_ok(t.from, vs, init));
    }
}

proof fn lemma_ambs_push(ambs: Seq<AmbiguousSpec>, a: AmbiguousSpec, vs: Seq<Seq<char>>)
    requires
        ambs_ok(ambs, vs),
        vs.contains(a.target),
    ensures
        ambs_ok(ambs.push(a), vs),
{
    assert forall|k: int| 0 <= k < ambs.push(a).len() implies vs.contains(#[trigger] ambs.push(a)[k].target) by {
        if k < ambs.len() {
            assert(ambs.push(a)[k] == ambs[k]);
        }
    }
}

proof fn lemma_min_other_in(vs0: Seq<Seq<char>>, tv: Seq<char>, active: Seq<Seq<char>>, vs: Seq<Seq<char>>)
    requires
        all_in(vs0, vs),
    ensures
        min_other(vs0, tv, active) matches Some(o) ==> vs.contains(o),
    decreases vs0.len(),
{
    if vs0.len() > 0 {
        assert(all_in(vs0.drop_last(), vs)) by {
            assert forall|k: int| 0 <= k < vs0.drop_last().len() implies vs.contains(#[trigger] vs0.drop_last()[k]) by {
                assert(vs0.drop_last()[k] == vs0[k]);
            }
        }
        lemma_min_other_in(vs0.drop_last(), tv, active, vs);
        assert(vs.contains(vs0[vs0.len() - 1]));
    }
}

/// Every branch of a staging test targets a variant.
pub open spec fn branches_ok(br: Seq<(Seq<char>, Seq<char>, Seq<char>)>, vs: Seq<Seq<char>>) -> bool {
    forall|k: int| 0 <= k < br.len() ==> vs.contains(#[trigger] br[k].0)
}

proof fn lemma_branches_concat(a: Seq<(Seq<char>, Seq<char>, Seq<char>)>, b: Seq<(Seq<char>, Seq<char>, Seq<char>)>, vs: Seq<Seq<char>>)
    requires
        branches_ok(a, vs),
        branches_ok(b, vs),
    ensures
        branches_ok(a + b, vs),
{
    assert forall|k: int| 0 <= k < (a + b).len() implies vs.contains(#[trigger] (a + b)[k].0) by {
        if k < a.len() {
            assert((a + b)[k] == a[k]);
        } else {
            assert((a + b)[k] == b[k - a.len()]);
        }
    }
}

proof fn lemma_staging_kids_ok(
    s: Seq<char>,
    ns: Seq<SyntaxNodeView>,
    b: int,
    m: int,
    staging: Seq<char>,
    vs: Seq<Seq<char>>,
    active: Seq<Seq<char>>,
)
    ensures
        branches_ok(staging_kids(s, ns, b, m, staging, vs, active), vs),
    decreases ns.len() - b, children(ns, b).len() - m,
{
    let kids = children(ns, b);
    if 0 <= m < kids.len() && b < kids[m] < ns.len() {
        let c = kids[m] as int;
        lemma_staging_kids_ok(s, ns, b, m + 1, staging, vs, active);
        let rest = staging_kids(s, ns, b, m + 1, staging, vs, active);
        let here = if ns[c].kind == "if_statement"@ {
            match field_child(ns, c, "condition"@) {
                Some(cond) => match tested_variant(s, ns, cond as int, staging, vs) {
                    Some(tv) => {
                        let first = staged(staging, tv);
                        match field_child(ns, c, "alternative"@) {
                            Some(alt) => {
                                let chained = if ns[alt as int].kind == "if_statement"@ {
                                    Some(alt)
                                } else {
                                    kid_of_kind(ns, alt as int, 0, "if_statement"@)
                                };
                                match chained {
                                    Some(e) => if b < e < ns.len() {
                                        seq![first] + staging_kids(s, ns, e as int, 0, staging, vs, active)
                                    } else {
                                        seq![first]
                                    },
                                    None => match min_other(vs, tv, active) {
                                        Some(o) => seq![first, staged(staging, o)],
                                        None => seq![first],
                                    },
                                }
                            },
                            None => seq![first],
                        }
                    },
                    None => Seq::empty(),
                },
                None => Seq::empty(),
            }
        } else {
            Seq::empty()
        };
        if ns[c].kind == "if_statement"@ {
            if let Some(cond) = field_child(ns, c, "condition"@) {
                lemma_tested_in(s, ns, cond as int, staging, vs);
                if let Some(tv) = tested_variant(s, ns, cond as int, staging, vs) {
                    let first = staged(staging, tv);
                    assert(branches_ok(seq![first], vs)) by {
                        assert(seq![first][0] == first);
                    }
                    if let Some(alt) = field_child(ns, c, "alternative"@) {
                        let chained = if ns[alt as int].kind == "if_statement"@ {
                            Some(alt)
                        } else {
                            kid_of_kind(ns, alt as int, 0, "if_statement"@)
                        };
                        match chained {
                            Some(e) => if b < e < ns.len() {
                                lemma_staging_kids_ok(s, ns, e as int, 0, staging, vs, active);
                                lemma_branches_concat(seq![first], staging_kids(s, ns, e as int, 0, staging, vs, active), vs);
                            },
                            None => {
                                assert(all_in(vs, vs)) by {
                                    assert forall|k: int| 0 <= k < vs.len() implies vs.contains(#[trigger] vs[k]) by {}
                                }
                                lemma_min_other_in(vs, tv, active, vs);
                                if let Some(o) = min_other(vs, tv, active) {
                                    let two = seq![first, staged(staging, o)];
                                    assert(branches_ok(two, vs)) by {
                                        assert(two[0] == first && two[1] == staged(staging, o));
                                    }
                                }
                            },
                        }
                    }
                }
            }
        }
        lemma_branches_concat(here, rest, vs);
    }
}

proof fn lemma_staging_up_ok(
    s: Seq<char>,
    ns: Seq<SyntaxNodeView>,
    p: int,
    staging: Seq<char>,
    vs: Seq<Seq<char>>,
    active: Seq<Seq<char>>,
)
    ensures
        branches_ok(staging_up(s, ns, p, staging, vs, active), vs),
    decreases p,
{
    if 0 <= p < ns.len() {
        lemma_staging_kids_ok(s, ns, p, 0, staging, vs, active);
        match ns[p].parent {
            Some(q) => if q < p {
                lemma_staging_up_ok(s, ns, q as int, staging, vs, active);
            },
            None => {},
        }
    }
}

proof fn lemma_add_from_ok(
    trs: Seq<TransitionSpec>,
    from: Seq<char>,
    br: Seq<(Seq<char>, Seq<char>, Seq<char>)>,
    line: int,
    vs: Seq<Seq<char>>,
    init: Seq<char>,
)
    requires
        trs_ok(trs, vs, init),
        source_ok(from, vs, init),
        branches_ok(br, vs),
    ensures
        trs_ok(add_from(trs, from, br, line), vs, init),
    decreases br.len(),
{
    if br.len() > 0 {
        assert(branches_ok(br.drop_last(), vs)) by {
            assert forall|k: int| 0 <= k < br.drop_last().len() implies vs.contains(#[trigger] br.drop_last()[k].0) by {
                assert(br.drop_last()[k] == br[k]);
            }
        }
        lemma_add_from_ok(trs, from, br.drop_last(), line, vs, init);
        let t0 = add_from(trs, from, br.drop_last(), line);
        let b = br.last();
        assert(vs.contains(br[br.len() - 1].0));
        if !has_transition(t0, from, b.0, b.2) {
            lemma_trs_push(
                t0,
                TransitionSpec {
                    from,
                    to: b.0,
                    guard: b.1,
                    label: b.2,
                    is_fault: false,
                    transition_type: TransitionTypeView::Direct,
                    line,
                },
                vs,
                init,
            );
        }
    }
}

proof fn lemma_add_staged_ok(
    trs: Seq<TransitionSpec>,
    froms: Seq<Seq<char>>,
    br: Seq<(Seq<char>, Seq<char>, Seq<char>)>,
    line: int,
    vs: Seq<Seq<char>>,
    init: Seq<char>,
)
    requires
        trs_ok(trs, vs, init),
        all_in(froms, vs),
        branches_ok(br, vs),
    ensures
        trs_ok(add_staged(trs, froms, br, line), vs, init),
    decreases froms.len(),
{
    if froms.len() > 0 {
        assert(all_in(froms.drop_last(), vs)) by {
            assert forall|k: int| 0 <= k < froms.drop_last().len() implies vs.contains(#[trigger] froms.drop_last()[k]) by {
                assert(froms.drop_last()[k] == froms[k]);
            }
        }
        lemma_add_staged_ok(trs, froms.drop_last(), br, line, vs, init);
        assert(vs.contains(froms[froms.len() - 1]));
        lemma_add_from_ok(add_staged(trs, froms.drop_last(), br, line), froms.last(), br, line, vs, init);
    }
}

/// The transitions that a map over the states `states` makes, from each of
/// them.
proof fn lemma_map_from_states(states: Seq<Seq<char>>, f: spec_fn(Seq<char>) -> TransitionSpec, vs: Seq<Seq<char>>, init: Seq<char>)
    requires
        all_in(states, vs),
        forall|x: Seq<char>| #[trigger] f(x).from == x && target_ok(f(x).to, vs),
    ensures
        trs_ok(states.map_values(f), vs, init),
{
    assert forall|k: int| 0 <= k < states.map_values(f).len() implies target_ok(#[trigger] states.map_values(f)[k].to, vs)
        && source_ok(states.map_values(f)[k].from, vs, init) by {
        assert(states.map_values(f)[k] == f(states[k]));
        assert(f(states[k]).from == states[k]);
    }
}

proof fn lemma_check_assignment_ok(
    s: Seq<char>,
    ns: Seq<SyntaxNodeView>,
    i: int,
    ctx: CtxSpec,
    var: Seq<char>,
    vs: Seq<Seq<char>>,
    st: WalkState,
    init: Seq<char>,
)
    requires
        ctx_ok(ctx, vs),
        st_ok(st, vs, init),
    ensures
        st_ok(check_assignment(s, ns, i, ctx, var, vs, st), vs, init),
{
    match (field_child(ns, i, "left"@), field_child(ns, i, "right"@)) {
        (Some(l), Some(r)) => if target_ident(s, ns, l as int) == Some(var) {
            lemma_variant_in(s, ns, r as int, vs);
            match variant_ident(s, ns, r as int, vs) {
                Some(tv) => {
                    let line = line_of(s, ns, i);
                    let g = guard_of(ctx);
                    let label = assignment_label(g, tv, following_printf(s, ns, i));
                    match ctx.active {
                        Some(states) => if states.len() == 0 {
                            lemma_ambs_push(
                                st.1,
                                AmbiguousSpec {
                                    target: tv,
                                    guard: g,
                                    line,
                                    note: "Assignment to "@ + var + " outside known state guard"@,
                                },
                                vs,
                            );
                        } else {
                            let f = |from: Seq<char>|
                                TransitionSpec {
                                    from,
                                    to: tv,
                                    guard: g,
                                    label,
                                    is_fault: fault_name(tv),
                                    transition_type: assignment_type(g),
                                    line,
                                };
                            lemma_map_from_states(states, f, vs, init);
                            lemma_trs_concat(st.0, states.map_values(f), vs, init);
                        },
                        None => {
                            lemma_ambs_push(
                                st.1,
                                AmbiguousSpec {
                                    target: tv,
                                    guard: g,
                                    line,
                                    note: "Assignment to "@ + var + " with no enclosing state check"@,
                                },
                                vs,
                            );
                        },
                    }
                },
                None => match target_ident(s, ns, r as int) {
                    Some(ri) => if ri != var {
                        match ctx.active {
                            Some(act) => if act.len() > 0 {
                                match ns[i].parent {
                                    Some(p) => if p < i {
                                        lemma_staging_up_ok(s, ns, p as int, ri, vs, act);
                                        lemma_add_staged_ok(st.0, act, staging_up(s, ns, p as int, ri, vs, act), line_of(s, ns, i), vs, init);
                                    } else {
                                        lemma_add_staged_ok(st.0, act, Seq::empty(), line_of(s, ns, i), vs, init);
                                    },
                                    None => {
                                        lemma_add_staged_ok(st.0, act, Seq::empty(), line_of(s, ns, i), vs, init);
                                    },
                                }
                            },
                            None => {},
                        }
                    },
                    None => {},
                },
            }
        },
        _ => {},
    }
}

proof fn lemma_per_target_ok(
    ctx: CtxSpec,
    target: Seq<char>,
    full: Seq<char>,
    base: Seq<char>,
    arg: Option<(Seq<char>, bool)>,
    name: Seq<char>,
    line: int,
    vs: Seq<Seq<char>>,
    init: Seq<char>,
)
    requires
        ctx_ok(ctx, vs),
        vs.contains(target),
    ensures
        trs_ok(per_target(ctx, target, full, base, arg, name, line), vs, init),
{
    let r = per_target(ctx, target, full, base, arg, name, line);
    match ctx.active {
        Some(states) => if states.len() > 0 {
            assert forall|k: int| 0 <= k < r.len() implies target_ok(#[trigger] r[k].to, vs) && source_ok(r[k].from, vs, init) by {
                assert(r[k].from == states[k]);
            }
        },
        None => {},
    }
}

proof fn lemma_targets_concat_ok(
    ctx: CtxSpec,
    targets: Seq<Seq<char>>,
    full: Seq<char>,
    base: Seq<char>,
    arg: Option<(Seq<char>, bool)>,
    name: Seq<char>,
    line: int,
    vs: Seq<Seq<char>>,
    init: Seq<char>,
)
    requires
        ctx_ok(ctx, vs),
        all_in(targets, vs),
    ensures
        trs_ok(targets_concat(ctx, targets, full, base, arg, name, line), vs, init),
    decreases targets.len(),
{
    if targets.len() > 0 {
        assert(all_in(targets.drop_last(), vs)) by {
            assert forall|k: int| 0 <= k < targets.drop_last().len() implies vs.contains(#[trigger] targets.drop_last()[k]) by {
                assert(targets.drop_last()[k] == targets[k]);
            }
        }
        lemma_targets_concat_ok(ctx, targets.drop_last(), full, base, arg, name, line, vs, init);
        assert(vs.contains(targets[targets.len() - 1]));
        lemma_per_target_ok(ctx, targets.last(), full, base, arg, name, line, vs, init);
        lemma_trs_concat(
            targets_concat(ctx, targets.drop_last(), full, base, arg, name, line),
            per_target(ctx, targets.last(), full, base, arg, name, line),
            vs,
            init,
        );
    }
}

proof fn lemma_check_helper_call_ok(
    s: Seq<char>,
    ns: Seq<SyntaxNodeView>,
    i: int,
    ctx: CtxSpec,
    hs: Helpers,
    trs: Seq<TransitionSpec>,
    vs: Seq<Seq<char>>,
    init: Seq<char>,
)
    requires
        ctx_ok(ctx, vs),
        hs_ok(hs, vs),
        trs_ok(trs, vs, init),
    ensures
        trs_ok(check_helper_call(s, ns, i, ctx, hs, trs), vs, init),
{
    match field_child(ns, i, "function"@) {
        Some(fc) => {
            let name = txt(s, ns, fc as int);
            let line = line_of(s, ns, i);
            let arg = first_arg(s, ns, i);
            let tag = match arg {
                Some(a) => name + ": "@ + a.0,
                None => name + "()"@,
            };
            let base = guard_of(ctx);
            let full = if base.len() == 0 {
                tag
            } else {
                base + " ["@ + tag + "]"@
            };
            lemma_helper_get_ok(hs, name, vs);
            match helper_get(hs, name) {
                Some(targets) => {
                    lemma_targets_concat_ok(ctx, targets, full, base, arg, name, line, vs, init);
                    lemma_trs_concat(trs, targets_concat(ctx, targets, full, base, arg, name, line), vs, init);
                },
                None => match ctx.active {
                    Some(states) => if !ctx.has_local_fault && fault_coordinator(name) && states.len() > 0 {
                        let r = check_helper_call(s, ns, i, ctx, hs, trs);
                        let extra = r.subrange(trs.len() as int, r.len() as int);
                        assert(r =~= trs + extra);
                        assert forall|k: int| 0 <= k < extra.len() implies target_ok(#[trigger] extra[k].to, vs) && source_ok(
                            extra[k].from,
                            vs,
                            init,
                        ) by {
                            assert(extra[k] == r[trs.len() + k]);
                            assert(r[trs.len() + k].from == states[k]);
                        }
                        lemma_trs_concat(trs, extra, vs, init);
                    },
                    None => {},
                },
            }
        },
        None => {},
    }
}

proof fn lemma_walk_ok(
    s: Seq<char>,
    ns: Seq<SyntaxNodeView>,
    i: int,
    ctx: CtxSpec,
    var: Seq<char>,
    vs: Seq<Seq<char>>,
    hs: Helpers,
    st: WalkState,
    init: Seq<char>,
)
    requires
        ctx_ok(ctx, vs),
        hs_ok(hs, vs),
        st_ok(st, vs, init),
    ensures
        st_ok(walk(s, ns, i, ctx, var, vs, hs, st), vs, init),
    decreases ns.len() - i, 2int, 0int,
{
    if 0 <= i < ns.len() {
        if ns[i].kind == "if_statement"@ {
            let ca = match field_child(ns, i, "condition"@) {
                Some(c) => analyze(s, ns, c as int, var, vs),
                None => no_cond(),
            };
            if let Some(c) = field_child(ns, i, "condition"@) {
                lemma_analyze_in(s, ns, c as int, var, vs);
            }
            let st1 = match field_child(ns, i, "consequence"@) {
                Some(q) => if i < q < ns.len() {
                    walk(s, ns, q as int, branch_ctx(ctx, ca), var, vs, hs, st)
                } else {
                    st
                },
                None => st,
            };
            if let Some(q) = field_child(ns, i, "consequence"@) {
                if i < q < ns.len() {
                    lemma_walk_ok(s, ns, q as int, branch_ctx(ctx, ca), var, vs, hs, st, init);
                }
            }
            if let Some(a) = field_child(ns, i, "alternative"@) {
                if i < a < ns.len() {
                    lemma_walk_ok(s, ns, a as int, ctx, var, vs, hs, st1, init);
                }
            }
        } else if ns[i].kind == "switch_statement"@ {
            let on_var = match field_child(ns, i, "condition"@) {
                Some(c) => clean_guard(txt(s, ns, c as int)) == var,
                None => false,
            };
            if let Some(b) = field_child(ns, i, "body"@) {
                if i < b < ns.len() {
                    lemma_switch_items_ok(s, ns, b as int, 0, ctx, var, vs, hs, on_var, None, st, init);
                }
            }
        } else if ns[i].kind == "assignment_expression"@ {
            lemma_check_assignment_ok(s, ns, i, ctx, var, vs, st, init);
        } else if ns[i].kind == "call_expression"@ {
            lemma_check_helper_call_ok(s, ns, i, ctx, hs, st.0, vs, init);
        } else {
            lemma_walk_kids_ok(s, ns, i, 0, ctx, var, vs, hs, st, init);
        }
    }
}

proof fn lemma_walk_kids_ok(
    s: Seq<char>,
    ns: Seq<SyntaxNodeView>,
    i: int,
    m: int,
    ctx: CtxSpec,
    var: Seq<char>,
    vs: Seq<Seq<char>>,
    hs: Helpers,
    st: WalkState,
    init: Seq<char>,
)
    requires
        ctx_ok(ctx, vs),
        hs_ok(hs, vs),
        st_ok(st, vs, init),
    ensures
        st_ok(walk_kids(s, ns, i, m, ctx, var, vs, hs, st), vs, init),
    decreases ns.len() - i, 0int, children(ns, i).len() - m,
{
    let kids = children(ns, i);
    if 0 <= m < kids.len() && i < kids[m] < ns.len() {
        lemma_walk_ok(s, ns, kids[m] as int, ctx, var, vs, hs, st, init);
        lemma_walk_kids_ok(s, ns, i, m + 1, ctx, var, vs, hs, walk(s, ns, kids[m] as int, ctx, var, vs, hs, st), init);
    }
}

proof fn lemma_switch_items_ok(
    s: Seq<char>,
    ns: Seq<SyntaxNodeView>,
    b: int,
    m: int,
    ctx: CtxSpec,
    var: Seq<char>,
    vs: Seq<Seq<char>>,
    hs: Helpers,
    on_var: bool,
    cur: Option<Seq<Seq<char>>>,
    st: WalkState,
    init: Seq<char>,
)
    requires
        ctx_ok(ctx, vs),
        hs_ok(hs, vs),
        st_ok(st, vs, init),
        cur matches Some(x) ==> all_in(x, vs),
    ensures
        st_ok(switch_items(s, ns, b, m, ctx, var, vs, hs, on_var, cur, st), vs, init),
    decreases ns.len() - b, 1int, children(ns, b).len() - m,
{
    let kids = children(ns, b);
    if 0 <= m < kids.len() && b < kids[m] < ns.len() {
        let c = kids[m] as int;
        let cur2 = case_state(s, ns, c, vs, on_var, cur);
        if ns[c].kind == "case_statement"@ && on_var {
            if let Some(v) = field_child(ns, c, "value"@) {
                if vs.contains(txt(s, ns, v as int)) {
                    assert(all_in(seq![txt(s, ns, v as int)], vs)) by {
                        assert(seq![txt(s, ns, v as int)][0] == txt(s, ns, v as int));
                    }
                }
            }
        }
        let ictx = match cur2 {
            Some(x) => CtxSpec { active: Some(x), guards: ctx.guards, has_local_fault: ctx.has_local_fault },
            None => ctx,
        };
        lemma_walk_ok(s, ns, c, ictx, var, vs, hs, st, init);
        lemma_switch_items_ok(s, ns, b, m + 1, ctx, var, vs, hs, on_var, cur2, walk(s, ns, c, ictx, var, vs, hs, st), init);
    }
}

proof fn lemma_walk_functions_ok(
    s: Seq<char>,
    ns: Seq<SyntaxNodeView>,
    fns: Seq<usize>,
    ctx: CtxSpec,
    var: Seq<char>,
    vs: Seq<Seq<char>>,
    hs: Helpers,
    st: WalkState,
    init: Seq<char>,
)
    requires
        ctx_ok(ctx, vs),
        hs_ok(hs, vs),
        st_ok(st, vs, init),
    ensures
        st_ok(walk_functions(s, ns, fns, ctx, var, vs, hs, st), vs, init),
    decreases fns.len(),
{
    if fns.len() > 0 {
        lemma_walk_functions_ok(s, ns, fns.drop_last(), ctx, var, vs, hs, st, init);
        let st1 = walk_functions(s, ns, fns.drop_last(), ctx, var, vs, hs, st);
        if let Some(b) = field_child(ns, fns.last() as int, "body"@) {
            lemma_walk_ok(s, ns, b as int, ctx, var, vs, hs, st1, init);
        }
    }
}


proof fn lemma_queried_states_in(s: Seq<char>, ns: Seq<SyntaxNodeView>, f: int, var: Seq<char>, vs: Seq<Seq<char>>)
    ensures
        all_in(queried_states(s, ns, f, var, vs), vs),
{
    let p = |x: Seq<char>| vs.contains(x);
    let g = queried_pick(s, ns, var, vs);
    assert forall|j: int, k: int| 0 <= j < ns.len() && 0 <= k < g(j).len() implies p(#[trigger] g(j)[k]) by {
    }
    lemma_collect_all(ns, f, g, no_stop(), p);
    let raw = subtree_collect(ns, f, g, no_stop());
    assert forall|k: int| 0 <= k < raw.len() implies vs.contains(#[trigger] raw[k]) by {
        assert(p(raw[k]));
    }
    lemma_first_occurrences_in(raw, vs);
}

proof fn lemma_query_functions_ok(s: Seq<char>, ns: Seq<SyntaxNodeView>, fns: Seq<usize>, var: Seq<char>, vs: Seq<Seq<char>>)
    ensures
        hs_ok(query_functions(s, ns, fns, var, vs), vs),
    decreases fns.len(),
{
    if fns.len() > 0 {
        lemma_query_functions_ok(s, ns, fns.drop_last(), var, vs);
        let f = fns.last() as int;
        lemma_queried_states_in(s, ns, f, var, vs);
        if let Some(n) = fn_name(s, ns, f) {
            lemma_helper_put_ok(query_functions(s, ns, fns.drop_last(), var, vs), n, queried_states(s, ns, f, var, vs), vs);
        }
    }
}

proof fn lemma_query_call_states_in(s: Seq<char>, ns: Seq<SyntaxNodeView>, c: int, qf: Helpers, vs: Seq<Seq<char>>)
    requires
        hs_ok(qf, vs),
    ensures
        all_in(query_call_states(s, ns, c, qf), vs),
{
    let p = |x: Seq<char>| vs.contains(x);
    let g = query_call_pick(s, ns, qf);
    assert forall|j: int, k: int| 0 <= j < ns.len() && 0 <= k < g(j).len() implies p(#[trigger] g(j)[k]) by {
        if let Some(f) = field_child(ns, j, "function"@) {
            lemma_helper_get_ok(qf, txt(s, ns, f as int), vs);
        }
    }
    lemma_collect_all(ns, c, g, no_stop(), p);
    let raw = subtree_collect(ns, c, g, no_stop());
    assert forall|k: int| 0 <= k < raw.len() implies vs.contains(#[trigger] raw[k]) by {
        assert(p(raw[k]));
    }
    lemma_first_occurrences_in(raw, vs);
}

proof fn lemma_add_new_transition_ok(trs: Seq<TransitionSpec>, t: TransitionSpec, vs: Seq<Seq<char>>, init: Seq<char>)
    requires
        trs_ok(trs, vs, init),
        target_ok(t.to, vs),
        source_ok(t.from, vs, init),
    ensures
        trs_ok(add_new_transition(trs, t), vs, init),
{
    lemma_trs_push(trs, t, vs, init);
}

proof fn lemma_add_command_froms_ok(
    trs: Seq<TransitionSpec>,
    froms: Seq<Seq<char>>,
    target: Seq<char>,
    label: Seq<char>,
    line: int,
    vs: Seq<Seq<char>>,
    init: Seq<char>,
)
    requires
        trs_ok(trs, vs, init),
        all_in(froms, vs),
        vs.contains(target),
    ensures
        trs_ok(add_command_froms(trs, froms, target, label, line), vs, init),
    decreases froms.len(),
{
    if froms.len() > 0 {
        assert(all_in(froms.drop_last(), vs)) by {
            assert forall|k: int| 0 <= k < froms.drop_last().len() implies vs.contains(#[trigger] froms.drop_last()[k]) by {
                assert(froms.drop_last()[k] == froms[k]);
            }
        }
        lemma_add_command_froms_ok(trs, froms.drop_last(), target, label, line, vs, init);
        assert(vs.contains(froms[froms.len() - 1]));
        lemma_add_new_transition_ok(
            add_command_froms(trs, froms.drop_last(), target, label, line),
            command_transition(froms.last(), target, label, line),
            vs,
            init,
        );
    }
}

proof fn lemma_command_target_ok(
    st: WalkState,
    active: Seq<Seq<char>>,
    target: Seq<char>,
    label: Seq<char>,
    initial: Seq<char>,
    fname: Seq<char>,
    line: int,
    vs: Seq<Seq<char>>,
)
    requires
        st_ok(st, vs, initial),
        all_in(active, vs),
        vs.contains(target),
    ensures
        st_ok(command_target(st, active, target, label, initial, fname, line), vs, initial),
{
    if active.len() > 0 {
        lemma_add_command_froms_ok(st.0, active, target, label, line, vs, initial);
    } else if target == initial {
        lemma_add_new_transition_ok(st.0, command_transition("(any state)"@, target, label, line), vs, initial);
        if !has_ambiguous(st.1, target, label) {
            lemma_ambs_push(st.1, AmbiguousSpec { target, guard: label, line, note: "Command dispatch via "@ + fname }, vs);
        }
    } else {
        lemma_add_new_transition_ok(st.0, command_transition(initial, target, label, line), vs, initial);
    }
}

proof fn lemma_command_targets_ok(
    st: WalkState,
    active: Seq<Seq<char>>,
    targets: Seq<Seq<char>>,
    label: Seq<char>,
    initial: Seq<char>,
    fname: Seq<char>,
    line: int,
    vs: Seq<Seq<char>>,
)
    requires
        st_ok(st, vs, initial),
        all_in(active, vs),
        all_in(targets, vs),
    ensures
        st_ok(command_targets(st, active, targets, label, initial, fname, line), vs, initial),
    decreases targets.len(),
{
    if targets.len() > 0 {
        assert(all_in(targets.drop_last(), vs)) by {
            assert forall|k: int| 0 <= k < targets.drop_last().len() implies vs.contains(#[trigger] targets.drop_last()[k]) by {
                assert(targets.drop_last()[k] == targets[k]);
            }
        }
        lemma_command_targets_ok(st, active, targets.drop_last(), label, initial, fname, line, vs);
        assert(vs.contains(targets[targets.len() - 1]));
        lemma_command_target_ok(
            command_targets(st, active, targets.drop_last(), label, initial, fname, line),
            active,
            targets.last(),
            label,
            initial,
            fname,
            line,
            vs,
        );
    }
}

proof fn lemma_walk_cross_ok(
    s: Seq<char>,
    ns: Seq<SyntaxNodeView>,
    i: int,
    cmd: Option<Seq<char>>,
    fname: Seq<char>,
    initial: Seq<char>,
    hs: Helpers,
    qf: Helpers,
    active: Seq<Seq<char>>,
    st: WalkState,
    vs: Seq<Seq<char>>,
)
    requires
        hs_ok(hs, vs),
        hs_ok(qf, vs),
        all_in(active, vs),
        st_ok(st, vs, initial),
    ensures
        st_ok(walk_cross(s, ns, i, cmd, fname, initial, hs, qf, active, st), vs, initial),
    decreases ns.len() - i, 1int, 0int,
{
    if 0 <= i < ns.len() {
        if ns[i].kind == "if_statement"@ {
            let branch = match field_child(ns, i, "condition"@) {
                Some(c) => query_call_states(s, ns, c as int, qf),
                None => Seq::empty(),
            };
            if let Some(c) = field_child(ns, i, "condition"@) {
                lemma_query_call_states_in(s, ns, c as int, qf, vs);
            }
            let act = if branch.len() > 0 {
                branch
            } else {
                active
            };
            let st1 = match field_child(ns, i, "consequence"@) {
                Some(q) => if i < q < ns.len() {
                    walk_cross(s, ns, q as int, cmd, fname, initial, hs, qf, act, st)
                } else {
                    st
                },
                None => st,
            };
            if let Some(q) = field_child(ns, i, "consequence"@) {
                if i < q < ns.len() {
                    lemma_walk_cross_ok(s, ns, q as int, cmd, fname, initial, hs, qf, act, st, vs);
                }
            }
            if let Some(a) = field_child(ns, i, "alternative"@) {
                if i < a < ns.len() {
                    lemma_walk_cross_ok(s, ns, a as int, cmd, fname, initial, hs, qf, active, st1, vs);
                }
            }
        } else if ns[i].kind == "call_expression"@ {
            if let Some(f) = field_child(ns, i, "function"@) {
                let callee = txt(s, ns, f as int);
                lemma_helper_get_ok(hs, callee, vs);
                if let Some(targets) = helper_get(hs, callee) {
                    let label = match cmd {
                        Some(c) => "CMD: "@ + c,
                        None => callee,
                    };
                    lemma_command_targets_ok(st, active, targets, label, initial, fname, line_of(s, ns, i), vs);
                }
            }
        } else {
            lemma_walk_cross_kids_ok(s, ns, i, 0, cmd, fname, initial, hs, qf, active, st, vs);
        }
    }
}

proof fn lemma_walk_cross_kids_ok(
    s: Seq<char>,
    ns: Seq<SyntaxNodeView>,
    i: int,
    m: int,
    cmd: Option<Seq<char>>,
    fname: Seq<char>,
    initial: Seq<char>,
    hs: Helpers,
    qf: Helpers,
    active: Seq<Seq<char>>,
    st: WalkState,
    vs: Seq<Seq<char>>,
)
    requires
        hs_ok(hs, vs),
        hs_ok(qf, vs),
        all_in(active, vs),
        st_ok(st, vs, initial),
    ensures
        st_ok(walk_cross_kids(s, ns, i, m, cmd, fname, initial, hs, qf, active, st), vs, initial),
    decreases ns.len() - i, 0int, children(ns, i).len() - m,
{
    let kids = children(ns, i);
    if 0 <= m < kids.len() && i < kids[m] < ns.len() {
        lemma_walk_cross_ok(s, ns, kids[m] as int, cmd, fname, initial, hs, qf, active, st, vs);
        lemma_walk_cross_kids_ok(
            s,
            ns,
            i,
            m + 1,
            cmd,
            fname,
            initial,
            hs,
            qf,
            active,
            walk_cross(s, ns, kids[m] as int, cmd, fname, initial, hs, qf, active, st),
            vs,
        );
    }
}

proof fn lemma_walk_cross_functions_ok(
    s: Seq<char>,
    ns: Seq<SyntaxNodeView>,
    fns: Seq<usize>,
    cmds: Entries,
    initial: Seq<char>,
    hs: Helpers,
    qf: Helpers,
    st: WalkState,
    vs: Seq<Seq<char>>,
)
    requires
        hs_ok(hs, vs),
        hs_ok(qf, vs),
        st_ok(st, vs, initial),
    ensures
        st_ok(walk_cross_functions(s, ns, fns, cmds, initial, hs, qf, st), vs, initial),
    decreases fns.len(),
{
    if fns.len() > 0 {
        lemma_walk_cross_functions_ok(s, ns, fns.drop_last(), cmds, initial, hs, qf, st, vs);
        let st1 = walk_cross_functions(s, ns, fns.drop_last(), cmds, initial, hs, qf, st);
        let f = fns.last() as int;
        let name = match fn_name(s, ns, f) {
            Some(n) => n,
            None => Seq::empty(),
        };
        if let Some(b) = field_child(ns, f, "body"@) {
            lemma_walk_cross_ok(s, ns, b as int, lookup(cmds, name), name, initial, hs, qf, Seq::empty(), st1, vs);
        }
    }
}

proof fn lemma_walk_cross_files_ok(
    fs: Seq<SourceFile>,
    cmds: Entries,
    initial: Seq<char>,
    hs: Helpers,
    qf: Helpers,
    st: WalkState,
    vs: Seq<Seq<char>>,
)
    requires
        hs_ok(hs, vs),
        hs_ok(qf, vs),
        st_ok(st, vs, initial),
    ensures
        st_ok(walk_cross_files(fs, cmds, initial, hs, qf, st), vs, initial),
    decreases fs.len(),
{
    if fs.len() > 0 {
        lemma_walk_cross_files_ok(fs.drop_last(), cmds, initial, hs, qf, st, vs);
        let st1 = walk_cross_files(fs.drop_last(), cmds, initial, hs, qf, st);
        let f = fs.last();
        if parses(f.1) {
            lemma_walk_cross_functions_ok(f.1, tree_of(f.1), root_functions(tree_of(f.1)), cmds, initial, hs, qf, st1, vs);
        }
    }
}

proof fn lemma_trs_at(trs: Seq<TransitionSpec>, vs: Seq<Seq<char>>, init: Seq<char>, k: int)
    requires
        trs_ok(trs, vs, init),
        0 <= k < trs.len(),
    ensures
        target_ok(trs[k].to, vs),
        source_ok(trs[k].from, vs, init),
{
    assert(target_ok(trs[k].to, vs));
}

/// The start state of a machine's variable: its initializer, else `IDLE`.
pub open spec fn initial_state(c: CandidateSpec) -> Seq<char> {
    match c.var.initial_value {
        Some(v) => v,
        None => "IDLE"@,
    }
}

/// Every transition of an extracted state machine ends at one of the
/// machine's states, and starts at a variant of its enum, at `(any state)`
/// or at the variable's initial value; every ambiguous transition targets a
/// variant; and the machine's states are the variants, with `SYSTEM FAULT`
/// added only when a transition goes there.
pub proof fn law_machine_transitions_stay_in_states(c: CandidateSpec, source: Seq<char>, others: Seq<SourceFile>)
    ensures
        ({
            let m = machine_of(c, source, others);
            let vs = c.enum_def.variants;
            &&& forall|k: int| 0 <= k < m.transitions.len() ==> m.states.contains(#[trigger] m.transitions[k].to)
            &&& forall|k: int|
                0 <= k < m.transitions.len() ==> source_ok(#[trigger] m.transitions[k].from, vs, initial_state(c))
            &&& forall|k: int| 0 <= k < m.ambiguous_transitions.len() ==> vs.contains(#[trigger] m.ambiguous_transitions[k].target)
            &&& forall|x: Seq<char>| vs.contains(x) ==> #[trigger] m.states.contains(x)
            &&& forall|x: Seq<char>| #[trigger] m.states.contains(x) ==> vs.contains(x) || x == "SYSTEM FAULT"@
        }),
{
    let ns = tree_of(source);
    let var = c.var.name;
    let vs = c.enum_def.variants;
    let init = initial_state(c);
    let hs = helpers_of(source, ns, var, vs);
    lemma_helpers_of_ok(source, ns, var, vs);
    let ctx = CtxSpec {
        active: None,
        guards: Seq::empty(),
        has_local_fault: exists|k: int| 0 <= k < vs.len() && fault_name(#[trigger] vs[k]),
    };
    let st0: WalkState = (Seq::empty(), Seq::empty());
    lemma_walk_functions_ok(source, ns, root_functions(ns), ctx, var, vs, hs, st0, init);
    let local = walk_functions(source, ns, root_functions(ns), ctx, var, vs, hs, st0);
    if others.len() > 0 {
        let qf = query_functions(source, ns, root_functions(ns), var, vs);
        lemma_query_functions_ok(source, ns, root_functions(ns), var, vs);
        lemma_walk_cross_files_ok(others, command_map(others), init, hs, qf, local, vs);
    }
    let all = cross_file(source, ns, var, vs, init, hs, others, local);
    assert(st_ok(all, vs, init));
    let m = machine_of(c, source, others);
    assert(m.transitions == all.0);
    assert(m.ambiguous_transitions == all.1);
    assert forall|k: int| 0 <= k < m.transitions.len() implies m.states.contains(#[trigger] m.transitions[k].to) by {
        assert(target_ok(all.0[k].to, vs));
        if all.0[k].to == "SYSTEM FAULT"@ && !vs.contains("SYSTEM FAULT"@) {
            assert(m.states == vs.push("SYSTEM FAULT"@));
            assert(m.states[vs.len() as int] == "SYSTEM FAULT"@);
        } else if vs.contains(all.0[k].to) {
            let j = choose|j: int| 0 <= j < vs.len() && vs[j] == all.0[k].to;
            if m.states != vs {
                assert(m.states[j] == vs[j]);
            }
        }
    }
    assert forall|k: int| 0 <= k < m.transitions.len() implies source_ok(#[trigger] m.transitions[k].from, vs, init) by {
        lemma_trs_at(all.0, vs, init, k);
    }
    assert forall|x: Seq<char>| vs.contains(x) implies #[trigger] m.states.contains(x) by {
        let j = choose|j: int| 0 <= j < vs.len() && vs[j] == x;
        if m.states != vs {
            assert(m.states == vs.push("SYSTEM FAULT"@));
            assert(m.states[j] == vs[j]);
        }
    }
    assert forall|x: Seq<char>| #[trigger] m.states.contains(x) implies vs.contains(x) || x == "SYSTEM FAULT"@ by {
        if m.states != vs {
            assert(m.states == vs.push("SYSTEM FAULT"@));
            let j = choose|j: int| 0 <= j < m.states.len() && m.states[j] == x;
            if j < vs.len() {
                assert(m.states[j] == vs[j]);
            }
        }
    }
}

} // verus!
